//! Decoding adapters: what the bytes a finding points at decode to, and a
//! check of a decoded result by encoding it again.

use vstd::prelude::*;
use vstd::string::StringSliceAdditionalSpecFns;
use vstd::utf8::{encode_utf8, valid_utf8};

use crate::analysis::Finding;
use crate::codec::{
    decode_b64, decode_hex, decode_percent, encode_b64, encode_hex, encode_percent, spec_decode_b64,
    spec_decode_hex, spec_decode_percent, spec_encode_b64, spec_encode_hex, spec_encode_percent,
};
use crate::detect::{has_pad, has_pad_exec, trim_pad, trim_pad_len};
use crate::error::{ErrorCode, IpcError};
use crate::info::{MAX_GZIP_OUTPUT, MAX_GZIP_RATIO};
use crate::js::{fold_literal_concats, fold_out, parse_string, pretty_from, pretty_print, spec_parse_string, str_from_utf8};
use crate::outside::{gunzip_capped, spec_gunzip};
use crate::text::{bytes_eq, str_eq, string_bytes};

verus! {

/// The adapters this library knows, by their identifiers.
#[derive(Clone, Copy, Debug, PartialEq, Eq, Structural)]
pub enum Adapter {
    Base64,
    Base64Url,
    Base16,
    Percent,
    JsEscape,
    Gzip,
    Minify,
    LiteralConcat,
}

/// The adapter an identifier names.
pub open spec fn spec_adapter(id: Seq<char>) -> Option<Adapter> {
    if id == "enc.base64"@ {
        Some(Adapter::Base64)
    } else if id == "enc.base64url"@ {
        Some(Adapter::Base64Url)
    } else if id == "enc.base16"@ {
        Some(Adapter::Base16)
    } else if id == "enc.percent"@ {
        Some(Adapter::Percent)
    } else if id == "enc.js-escape"@ {
        Some(Adapter::JsEscape)
    } else if id == "compression.gzip"@ {
        Some(Adapter::Gzip)
    } else if id == "layout.minify"@ {
        Some(Adapter::Minify)
    } else if id == "data.literal-concat"@ {
        Some(Adapter::LiteralConcat)
    } else {
        None
    }
}

pub fn adapter_of(id: &str) -> (r: Option<Adapter>)
    ensures
        r == spec_adapter(id@),
{
    if str_eq(id, "enc.base64") {
        Some(Adapter::Base64)
    } else if str_eq(id, "enc.base64url") {
        Some(Adapter::Base64Url)
    } else if str_eq(id, "enc.base16") {
        Some(Adapter::Base16)
    } else if str_eq(id, "enc.percent") {
        Some(Adapter::Percent)
    } else if str_eq(id, "enc.js-escape") {
        Some(Adapter::JsEscape)
    } else if str_eq(id, "compression.gzip") {
        Some(Adapter::Gzip)
    } else if str_eq(id, "layout.minify") {
        Some(Adapter::Minify)
    } else if str_eq(id, "data.literal-concat") {
        Some(Adapter::LiteralConcat)
    } else {
        None
    }
}

/// The bytes an adapter produced.
#[derive(Debug)]
pub struct AdapterOutput {
    pub bytes: Vec<u8>,
}

/// What an adapter run gives: the output bytes, or the error's code and key.
pub open spec fn outcome_view(r: Result<AdapterOutput, IpcError>) -> Result<Seq<u8>, (ErrorCode, Seq<char>)> {
    match r {
        Ok(o) => Ok(o.bytes@),
        Err(e) => Err(e@),
    }
}

pub open spec fn range_error() -> (ErrorCode, Seq<char>) {
    (ErrorCode::ParseFailed, "error.range"@)
}

pub open spec fn encoding_error() -> (ErrorCode, Seq<char>) {
    (ErrorCode::InvalidEncoding, "error.invalid_encoding"@)
}

pub open spec fn parse_error() -> (ErrorCode, Seq<char>) {
    (ErrorCode::ParseFailed, "error.parse_failed"@)
}

pub open spec fn limit_error() -> (ErrorCode, Seq<char>) {
    (ErrorCode::LimitReached, "error.limit_reached"@)
}

pub open spec fn unsupported_error() -> (ErrorCode, Seq<char>) {
    (ErrorCode::AdapterUnsupported, "error.adapter_unsupported"@)
}

/// A text decoder run on `text`: refused when the text is not UTF-8, a parse
/// failure when the decoder gives nothing.
pub open spec fn decode_outcome(text: Seq<u8>, decoded: Option<Seq<u8>>) -> Result<Seq<u8>, (ErrorCode, Seq<char>)> {
    if !valid_utf8(text) {
        Err(encoding_error())
    } else {
        match decoded {
            Some(v) => Ok(v),
            None => Err(parse_error()),
        }
    }
}

/// The string literal at the start of `text`, as UTF-8 bytes.
pub open spec fn js_string_outcome(text: Seq<u8>) -> Result<Seq<u8>, (ErrorCode, Seq<char>)> {
    match spec_parse_string(text, 0) {
        Some((_, v)) => Ok(encode_utf8(v)),
        None => Err(parse_error()),
    }
}

/// A rewrite of the whole input as text; the input must be UTF-8.
pub open spec fn text_outcome(input: Seq<u8>, rewritten: Seq<char>) -> Result<Seq<u8>, (ErrorCode, Seq<char>)> {
    if valid_utf8(input) {
        Ok(encode_utf8(rewritten))
    } else {
        Err(encoding_error())
    }
}

/// Inflating stops once the output passes `MAX_GZIP_OUTPUT` bytes, or passes
/// 64 KiB while more than `MAX_GZIP_RATIO` times the input.
pub open spec fn gzip_over_limit(n: int, len: int) -> bool {
    n > MAX_GZIP_OUTPUT || (len > 0 && n / len > MAX_GZIP_RATIO && n > 65536)
}

/// What inflating `input` gives: a limit error when the decoder's output
/// goes over the limits, a parse error when the stream is broken, a limit
/// error for a complete output more than `MAX_GZIP_RATIO` times the input,
/// and otherwise the whole output.
pub open spec fn inflate_outcome(input: Seq<u8>) -> Result<Seq<u8>, (ErrorCode, Seq<char>)> {
    let out = spec_gunzip(input).0;
    let clean = spec_gunzip(input).1;
    if gzip_over_limit(out.len() as int, input.len() as int) {
        Err(limit_error())
    } else if !clean {
        Err(parse_error())
    } else if input.len() > 0 && out.len() / input.len() > MAX_GZIP_RATIO {
        Err(limit_error())
    } else {
        Ok(out)
    }
}

/// What `apply_adapter` gives for the range `[start, end)` of `input`.
pub open spec fn spec_apply_adapter(input: Seq<u8>, start: int, end: int, id: Seq<char>) -> Result<
    Seq<u8>,
    (ErrorCode, Seq<char>),
> {
    if start > end || end > input.len() {
        Err(range_error())
    } else {
        let sub = input.subrange(start, end);
        match spec_adapter(id) {
            Some(Adapter::Base64) => decode_outcome(sub, spec_decode_b64(sub, false)),
            Some(Adapter::Base64Url) => decode_outcome(sub, spec_decode_b64(sub, true)),
            Some(Adapter::Base16) => decode_outcome(sub, spec_decode_hex(sub)),
            Some(Adapter::Percent) => decode_outcome(sub, spec_decode_percent(sub)),
            Some(Adapter::JsEscape) => js_string_outcome(sub),
            Some(Adapter::Gzip) => inflate_outcome(input),
            Some(Adapter::Minify) => text_outcome(input, pretty_from(input, 0, 0, false, false)),
            Some(Adapter::LiteralConcat) => text_outcome(input, fold_out(input, 0)),
            None => Err(unsupported_error()),
        }
    }
}

fn decode_range(text: &[u8], adapter: Adapter) -> (r: Result<AdapterOutput, IpcError>)
    requires
        adapter == Adapter::Base64 || adapter == Adapter::Base64Url || adapter == Adapter::Base16
            || adapter == Adapter::Percent,
    ensures
        outcome_view(r) == decode_outcome(
            text@,
            match adapter {
                Adapter::Base64 => spec_decode_b64(text@, false),
                Adapter::Base64Url => spec_decode_b64(text@, true),
                Adapter::Base16 => spec_decode_hex(text@),
                _ => spec_decode_percent(text@),
            },
        ),
{
    let s = match str_from_utf8(text) {
        Some(s) => s,
        None => {
            return Err(IpcError::new(ErrorCode::InvalidEncoding, "error.invalid_encoding"));
        },
    };
    let decoded = match adapter {
        Adapter::Base64 => decode_b64(s, false),
        Adapter::Base64Url => decode_b64(s, true),
        Adapter::Base16 => decode_hex(s),
        _ => decode_percent(s),
    };
    match decoded {
        Some(bytes) => Ok(AdapterOutput { bytes }),
        None => Err(IpcError::new(ErrorCode::ParseFailed, "error.parse_failed")),
    }
}

fn decode_js_string(text: &[u8]) -> (r: Result<AdapterOutput, IpcError>)
    ensures
        outcome_view(r) == js_string_outcome(text@),
{
    match parse_string(text, 0) {
        Some((_, value)) => Ok(AdapterOutput { bytes: string_bytes(&value) }),
        None => Err(IpcError::new(ErrorCode::ParseFailed, "error.parse_failed")),
    }
}

/// The least output length at which `gzip_over_limit` holds.
pub open spec fn gzip_cap(len: int) -> int {
    if len == 0 {
        MAX_GZIP_OUTPUT + 1
    } else {
        let by_ratio = if 101 * len > 65537 {
            101 * len
        } else {
            65537
        };
        if by_ratio < MAX_GZIP_OUTPUT + 1 {
            by_ratio
        } else {
            MAX_GZIP_OUTPUT + 1
        }
    }
}

proof fn lemma_ratio(n: int, len: int)
    requires
        n >= 0,
        len > 0,
    ensures
        (n / len > MAX_GZIP_RATIO) == (n >= 101 * len),
{
    vstd::arithmetic::div_mod::lemma_fundamental_div_mod(n, len);
    let q = n / len;
    let r = n % len;
    assert(0 <= r < len) by {
        vstd::arithmetic::div_mod::lemma_mod_bound(n, len);
    }
    if q >= 101 {
        assert(len * q >= len * 101) by (nonlinear_arith)
            requires
                q >= 101,
                len > 0,
        ;
    }
    if q <= 100 {
        assert(len * q <= len * 100) by (nonlinear_arith)
            requires
                q <= 100,
                len > 0,
        ;
    }
}

proof fn lemma_gzip_cap(n: int, len: int)
    requires
        n >= 0,
        len >= 0,
    ensures
        gzip_over_limit(n, len) == (n >= gzip_cap(len)),
{
    if len > 0 {
        lemma_ratio(n, len);
    }
}

fn gzip_cap_exec(len: usize) -> (t: u64)
    ensures
        t == gzip_cap(len as int),
{
    if len == 0 {
        MAX_GZIP_OUTPUT + 1
    } else if len > 600000 {
        MAX_GZIP_OUTPUT + 1
    } else {
        let l = len as u64;
        let by_ratio = if 101 * l > 65537 {
            101 * l
        } else {
            65537
        };
        if by_ratio < MAX_GZIP_OUTPUT + 1 {
            by_ratio
        } else {
            MAX_GZIP_OUTPUT + 1
        }
    }
}

fn inflate_gzip(input: &[u8]) -> (r: Result<AdapterOutput, IpcError>)
    ensures
        outcome_view(r) == inflate_outcome(input@),
{
    let len = input.len();
    let cap = gzip_cap_exec(len);
    let ghost out = spec_gunzip(input@).0;
    proof {
        lemma_gzip_cap(out.len() as int, len as int);
    }
    match gunzip_capped(input, cap) {
        None => Err(IpcError::new(ErrorCode::ParseFailed, "error.parse_failed")),
        Some(v) => {
            let n = v.len() as u64;
            if n >= cap {
                Err(IpcError::new(ErrorCode::LimitReached, "error.limit_reached"))
            } else {
                assert(v@ == out);
                if len > 0 && n / (len as u64) > MAX_GZIP_RATIO {
                    Err(IpcError::new(ErrorCode::LimitReached, "error.limit_reached"))
                } else {
                    Ok(AdapterOutput { bytes: v })
                }
            }
        },
    }
}

fn rewrite_text(input: &[u8], adapter: Adapter) -> (r: Result<AdapterOutput, IpcError>)
    requires
        adapter == Adapter::Minify || adapter == Adapter::LiteralConcat,
    ensures
        outcome_view(r) == text_outcome(
            input@,
            if adapter == Adapter::Minify {
                pretty_from(input@, 0, 0, false, false)
            } else {
                fold_out(input@, 0)
            },
        ),
{
    match str_from_utf8(input) {
        Some(text) => {
            let out = if adapter == Adapter::Minify {
                pretty_print(text)
            } else {
                fold_literal_concats(text)
            };
            Ok(AdapterOutput { bytes: string_bytes(&out) })
        },
        None => Err(IpcError::new(ErrorCode::InvalidEncoding, "error.invalid_encoding")),
    }
}

/// Runs the adapter `adapter_id` on what `finding` points at in `input`.
/// Decoders of text read the finding's range; gzip, pretty-printing and the
/// concatenation fold work on the whole input. See `spec_apply_adapter`.
pub fn apply_adapter(input: &[u8], finding: &Finding, adapter_id: &str) -> (r: Result<AdapterOutput, IpcError>)
    ensures
        outcome_view(r) == spec_apply_adapter(
            input@,
            finding.range.start as int,
            finding.range.end as int,
            adapter_id@,
        ),
{
    let start64 = finding.range.start;
    let end64 = finding.range.end;
    if start64 > end64 || end64 > input.len() as u64 {
        return Err(IpcError::new(ErrorCode::ParseFailed, "error.range"));
    }
    let start = start64 as usize;
    let end = end64 as usize;
    let sub = vstd::slice::slice_subrange(input, start, end);
    match adapter_of(adapter_id) {
        Some(Adapter::Base64) => decode_range(sub, Adapter::Base64),
        Some(Adapter::Base64Url) => decode_range(sub, Adapter::Base64Url),
        Some(Adapter::Base16) => decode_range(sub, Adapter::Base16),
        Some(Adapter::Percent) => decode_range(sub, Adapter::Percent),
        Some(Adapter::JsEscape) => decode_js_string(sub),
        Some(Adapter::Gzip) => inflate_gzip(input),
        Some(Adapter::Minify) => rewrite_text(input, Adapter::Minify),
        Some(Adapter::LiteralConcat) => rewrite_text(input, Adapter::LiteralConcat),
        None => Err(IpcError::new(ErrorCode::AdapterUnsupported, "error.adapter_unsupported")),
    }
}

/// The same run as `apply_adapter`, for a preview.
pub fn preview_adapter(input: &[u8], finding: &Finding, adapter_id: &str) -> (r: Result<AdapterOutput, IpcError>)
    ensures
        outcome_view(r) == spec_apply_adapter(
            input@,
            finding.range.start as int,
            finding.range.end as int,
            adapter_id@,
        ),
{
    apply_adapter(input, finding, adapter_id)
}

// ---------------------------------------------------------------- re-encoding

pub open spec fn ascii_upper_byte(b: u8) -> u8 {
    if 0x61 <= b && b <= 0x7a {
        (b - 32) as u8
    } else {
        b
    }
}

/// ASCII letters in upper case, every other byte unchanged.
pub open spec fn ascii_upper(s: Seq<u8>) -> Seq<u8> {
    s.map_values(|b: u8| ascii_upper_byte(b))
}

/// Equal, or equal once trailing `=` are dropped from both.
pub open spec fn same_unpadded(src: Seq<u8>, enc: Seq<u8>) -> bool {
    src == enc || trim_pad(src) == trim_pad(enc)
}

/// A percent encoding matches when it equals the source up to the case of
/// its hex digits: the decoded bytes encode back to exactly the source.
pub open spec fn percent_matches(src: Seq<u8>, enc: Seq<u8>) -> bool {
    ascii_upper(src) == ascii_upper(enc)
}

/// What `reencode_range` gives for the source text `src`: whether the
/// decoded bytes, encoded again by the adapter, match it.
pub open spec fn spec_reencode(src: Seq<u8>, id: Seq<char>, decoded: Seq<u8>) -> Result<bool, (ErrorCode, Seq<char>)> {
    if !valid_utf8(src) {
        Err(encoding_error())
    } else {
        match spec_adapter(id) {
            Some(Adapter::Base64) => Ok(
                same_unpadded(src, encode_utf8(spec_encode_b64(decoded, false, has_pad(src)))),
            ),
            Some(Adapter::Base64Url) => Ok(
                same_unpadded(src, encode_utf8(spec_encode_b64(decoded, true, false))),
            ),
            Some(Adapter::Base16) => Ok(ascii_upper(src) == ascii_upper(encode_utf8(spec_encode_hex(decoded)))),
            Some(Adapter::Percent) => Ok(percent_matches(src, encode_utf8(spec_encode_percent(decoded)))),
            _ => Ok(false),
        }
    }
}

pub open spec fn check_view(r: Result<bool, IpcError>) -> Result<bool, (ErrorCode, Seq<char>)> {
    match r {
        Ok(b) => Ok(b),
        Err(e) => Err(e@),
    }
}

fn ascii_upper_vec(s: &[u8]) -> (v: Vec<u8>)
    ensures
        v@ == ascii_upper(s@),
{
    let mut v: Vec<u8> = Vec::new();
    let mut k: usize = 0;
    while k < s.len()
        invariant
            k <= s@.len(),
            v@ == ascii_upper(s@.subrange(0, k as int)),
        decreases s.len() - k,
    {
        let b = s[k];
        let u = if 0x61 <= b && b <= 0x7a {
            b - 32
        } else {
            b
        };
        v.push(u);
        assert(ascii_upper(s@.subrange(0, k + 1)) =~= ascii_upper(s@.subrange(0, k as int)).push(u));
        k = k + 1;
    }
    assert(s@.subrange(0, k as int) =~= s@);
    v
}

fn same_unpadded_exec(src: &[u8], enc: &[u8]) -> (r: bool)
    ensures
        r == same_unpadded(src@, enc@),
{
    if bytes_eq(src, enc) {
        return true;
    }
    let a = trim_pad_len(src);
    let b = trim_pad_len(enc);
    bytes_eq(vstd::slice::slice_subrange(src, 0, a), vstd::slice::slice_subrange(enc, 0, b))
}

fn percent_matches_exec(src: &[u8], enc: &[u8]) -> (r: bool)
    ensures
        r == percent_matches(src@, enc@),
{
    let b = ascii_upper_vec(enc);
    let su = ascii_upper_vec(src);
    bytes_eq(su.as_slice(), b.as_slice())
}

/// Encodes `decoded` again with the adapter and says whether that matches
/// `original[start..end]`; see `spec_reencode`. Adapters other than the four
/// text encodings give `false`.
pub fn reencode_range(original: &[u8], start: usize, end: usize, adapter_id: &str, decoded: &[u8]) -> (r:
    Result<bool, IpcError>)
    requires
        start <= end <= original@.len(),
    ensures
        check_view(r) == spec_reencode(original@.subrange(start as int, end as int), adapter_id@, decoded@),
{
    let src = vstd::slice::slice_subrange(original, start, end);
    if str_from_utf8(src).is_none() {
        return Err(IpcError::new(ErrorCode::InvalidEncoding, "error.invalid_encoding"));
    }
    match adapter_of(adapter_id) {
        Some(Adapter::Base64) => {
            let enc = string_bytes(&encode_b64(decoded, false, has_pad_exec(src)));
            Ok(same_unpadded_exec(src, enc.as_slice()))
        },
        Some(Adapter::Base64Url) => {
            let enc = string_bytes(&encode_b64(decoded, true, false));
            Ok(same_unpadded_exec(src, enc.as_slice()))
        },
        Some(Adapter::Base16) => {
            let enc = string_bytes(&encode_hex(decoded));
            let a = ascii_upper_vec(src);
            let b = ascii_upper_vec(enc.as_slice());
            Ok(bytes_eq(a.as_slice(), b.as_slice()))
        },
        Some(Adapter::Percent) => {
            let enc = string_bytes(&encode_percent(decoded));
            Ok(percent_matches_exec(src, enc.as_slice()))
        },
        _ => Ok(false),
    }
}

/// Inflating never yields more than `MAX_GZIP_OUTPUT` bytes, nor, for a
/// non-empty input, more than `MAX_GZIP_RATIO` times the input.
pub proof fn law_gzip_output_bounded(input: Seq<u8>)
    ensures
        inflate_outcome(input) matches Ok(out) ==> out.len() <= MAX_GZIP_OUTPUT && (input.len() > 0 ==> out.len()
            / input.len() <= MAX_GZIP_RATIO),
{
}

} // verus!

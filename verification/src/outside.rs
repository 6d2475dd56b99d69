//! The calls this library makes into other crates, each with the contract
//! that the rest of the library relies on.

use vstd::prelude::*;
use crate::codec::hex_char;

use sha2::Digest;
use std::io::Read;

verus! {

/// The SHA-256 digest of a byte sequence.
pub uninterp spec fn spec_sha256(data: Seq<u8>) -> Seq<u8>;

/// `sha2::Sha256::digest`: the 32-byte SHA-256 digest of `data`. The
/// contract names the digest as a function of the input and states its
/// length, which the output type fixes at 32.
#[verifier::external_body]
pub(crate) fn sha256_digest(data: &[u8]) -> (d: Vec<u8>)
    ensures
        d@ == spec_sha256(data@),
        d@.len() == 32,
{
    sha2::Sha256::digest(data).to_vec()
}

/// `uuid::Uuid::new_v4` written with `to_string`: a fresh random id in the
/// hyphenated lower-case form, 36 characters long. Which id comes out is
/// chance, so the contract states only its length.
#[verifier::external_body]
pub(crate) fn new_uuid() -> (s: String)
    ensures
        s@.len() == 36,
{
    uuid::Uuid::new_v4().to_string()
}

/// Whether `serde_json` accepts a text as one JSON value.
pub uninterp spec fn spec_json_value_ok(text: Seq<char>) -> bool;

/// `serde_json::from_str::<serde_json::Value>` succeeds on `text`. The
/// contract names that outcome as a function of the text; the JSON grammar
/// itself is not restated.
#[verifier::external_body]
pub(crate) fn json_value_ok(text: &str) -> (ok: bool)
    ensures
        ok == spec_json_value_ok(text@),
{
    serde_json::from_str::<serde_json::Value>(text).is_ok()
}

/// The pretty-printed form `serde_json` gives the JSON value a text holds,
/// when it holds one.
pub uninterp spec fn spec_json_pretty(text: Seq<char>) -> Option<Seq<char>>;

/// `serde_json::from_str::<serde_json::Value>` on `text`, then
/// `serde_json::to_string_pretty` of the value. Writing a `Value` does not
/// fail, so the result is `Some` exactly when the text parses; the layout
/// of the pretty form is named, not restated.
#[verifier::external_body]
pub(crate) fn json_pretty(text: &str) -> (r: Option<String>)
    ensures
        r is Some <==> spec_json_value_ok(text@),
        match spec_json_pretty(text@) {
            Some(p) => r matches Some(s) && s@ == p,
            None => r is None,
        },
{
    match serde_json::from_str::<serde_json::Value>(text) {
        Ok(v) => serde_json::to_string_pretty(&v).ok(),
        Err(_) => None,
    }
}

/// What a single-member gzip decoder yields for `input`: the bytes it
/// produces before it stops, and whether it stopped at the clean end of the
/// member (`false` when it stopped on an error).
pub uninterp spec fn spec_gunzip(input: Seq<u8>) -> (Seq<u8>, bool);

/// `flate2::read::GzDecoder` over `input`, read to the end through
/// `Read::take(cap)`. Reading stops after `cap` bytes, so the result is
/// `Some` exactly when the decoder either ends cleanly or yields at least
/// `cap` bytes before an error, and then holds the first (at most `cap`)
/// decoded bytes. The decoded content is named, not restated.
#[verifier::external_body]
pub(crate) fn gunzip_capped(input: &[u8], cap: u64) -> (r: Option<Vec<u8>>)
    ensures
        r is Some <==> (spec_gunzip(input@).1 || spec_gunzip(input@).0.len() >= cap),
        r matches Some(v) ==> v@ == (if spec_gunzip(input@).0.len() <= cap {
            spec_gunzip(input@).0
        } else {
            spec_gunzip(input@).0.take(cap as int)
        }),
{
    let mut out = Vec::new();
    match flate2::read::GzDecoder::new(input).take(cap).read_to_end(&mut out) {
        Ok(_) => Some(out),
        Err(_) => None,
    }
}

/// How a JSON string literal writes one character: `"` and `\` behind a
/// backslash, the short escapes for backspace, tab, line feed, form feed
/// and carriage return, `\u00XX` (lower-case hex) for the other characters
/// below U+0020, and every other character as itself.
pub open spec fn json_char(c: char) -> Seq<char> {
    if c == '"' {
        seq!['\\', '"']
    } else if c == '\\' {
        seq!['\\', '\\']
    } else if c == '\u{8}' {
        seq!['\\', 'b']
    } else if c == '\t' {
        seq!['\\', 't']
    } else if c == '\n' {
        seq!['\\', 'n']
    } else if c == '\u{c}' {
        seq!['\\', 'f']
    } else if c == '\r' {
        seq!['\\', 'r']
    } else if (c as int) < 0x20 {
        seq!['\\', 'u', '0', '0', hex_char((c as int) / 16), hex_char((c as int) % 16)]
    } else {
        seq![c]
    }
}

/// The characters of a JSON string literal's body.
pub open spec fn json_body(s: Seq<char>) -> Seq<char>
    decreases s.len(),
{
    if s.len() == 0 {
        Seq::empty()
    } else {
        json_body(s.drop_last()) + json_char(s.last())
    }
}

/// A string as a JSON string literal: quoted, with each character written
/// as `json_char` gives.
pub open spec fn spec_json_string(s: Seq<char>) -> Seq<char> {
    seq!['"'] + json_body(s) + seq!['"']
}

/// `serde_json::to_string` of a string slice: its JSON string literal, as
/// the escape table of serde_json's serializer writes it (`json_char`).
/// Serialising a `str` does not fail.
#[verifier::external_body]
pub(crate) fn json_string(s: &str) -> (r: String)
    ensures
        r@ == spec_json_string(s@),
{
    match serde_json::to_string(s) {
        Ok(t) => t,
        Err(_) => String::new(),
    }
}

/// A text in lower case by the Unicode case mapping.
pub uninterp spec fn spec_to_lowercase(s: Seq<char>) -> Seq<char>;

/// `str::to_lowercase`: the text with every character mapped to its
/// Unicode lower case, which may change the text's length. The contract
/// names the result as a function of the text.
#[verifier::external_body]
pub(crate) fn to_lowercase(s: &str) -> (r: String)
    ensures
        r@ == spec_to_lowercase(s@),
{
    s.to_lowercase()
}

} // verus!

//! Base64 (standard and URL-safe), base16 and percent codecs.

use vstd::prelude::*;
use vstd::string::StringSliceAdditionalSpecFns;
use vstd::utf8::encode_utf8;
use vstd::utf8::is_ascii_chars;
use vstd::utf8::is_ascii_chars_encode_utf8;

use crate::text::push_char;

verus! {

// ---------------------------------------------------------------- alphabets

pub open spec fn is_digit(b: u8) -> bool {
    0x30 <= b && b <= 0x39
}

pub open spec fn is_alnum(b: u8) -> bool {
    is_digit(b) || (0x41 <= b && b <= 0x5a) || (0x61 <= b && b <= 0x7a)
}

pub open spec fn is_hex_digit(b: u8) -> bool {
    is_digit(b) || (0x41 <= b && b <= 0x46) || (0x61 <= b && b <= 0x66)
}

/// A byte of the base64 alphabet; with `url`, `-` and `_` count as well.
pub open spec fn spec_is_b64(b: u8, url: bool) -> bool {
    is_alnum(b) || b == 0x2b || b == 0x2f || (url && (b == 0x2d || b == 0x5f))
}

pub fn is_b64(b: u8, url: bool) -> (r: bool)
    ensures
        r == spec_is_b64(b, url),
{
    (0x30 <= b && b <= 0x39) || (0x41 <= b && b <= 0x5a) || (0x61 <= b && b <= 0x7a) || b == 0x2b
        || b == 0x2f || (url && (b == 0x2d || b == 0x5f))
}

pub fn is_alnum_byte(b: u8) -> (r: bool)
    ensures
        r == is_alnum(b),
{
    (0x30 <= b && b <= 0x39) || (0x41 <= b && b <= 0x5a) || (0x61 <= b && b <= 0x7a)
}

pub fn is_hex_byte(b: u8) -> (r: bool)
    ensures
        r == is_hex_digit(b),
{
    (0x30 <= b && b <= 0x39) || (0x41 <= b && b <= 0x46) || (0x61 <= b && b <= 0x66)
}

/// The value of a hex digit.
pub open spec fn hex_value(b: u8) -> int {
    if is_digit(b) {
        b - 0x30
    } else if 0x41 <= b && b <= 0x46 {
        b - 0x41 + 10
    } else {
        b - 0x61 + 10
    }
}

fn hex_value_exec(b: u8) -> (v: u8)
    requires
        is_hex_digit(b),
    ensures
        v == hex_value(b),
        v < 16,
{
    if 0x30 <= b && b <= 0x39 {
        b - 0x30
    } else if 0x41 <= b && b <= 0x46 {
        b - 0x41 + 10
    } else {
        b - 0x61 + 10
    }
}

// ---------------------------------------------------------------- base64 decode

/// Position of a byte in the standard base64 table, or -1.
pub open spec fn b64_value(b: u8) -> int {
    if 0x41 <= b && b <= 0x5a {
        b - 0x41
    } else if 0x61 <= b && b <= 0x7a {
        b - 0x61 + 26
    } else if is_digit(b) {
        b - 0x30 + 52
    } else if b == 0x2b {
        62
    } else if b == 0x2f {
        63
    } else {
        -1
    }
}

/// A byte that the strict decoder accepts: a table symbol or the pad `=`.
pub open spec fn b64_symbol_ok(b: u8) -> bool {
    b64_value(b) >= 0 || b == 0x3d
}

/// The six bits a symbol stands for; the pad stands for zero.
pub open spec fn b64_sextet(b: u8) -> int {
    if b == 0x3d {
        0
    } else {
        b64_value(b)
    }
}

/// One group of four symbols, decoded: one byte, then a second unless the
/// third symbol is a pad, then a third unless the fourth is. A pad in third
/// place followed by a non-pad is refused.
pub open spec fn decode_quad(c0: u8, c1: u8, c2: u8, c3: u8) -> Option<Seq<u8>> {
    if !(b64_symbol_ok(c0) && b64_symbol_ok(c1) && b64_symbol_ok(c2) && b64_symbol_ok(c3)) {
        None
    } else if c2 == 0x3d && c3 != 0x3d {
        None
    } else {
        let v0 = b64_sextet(c0);
        let v1 = b64_sextet(c1);
        let v2 = b64_sextet(c2);
        let v3 = b64_sextet(c3);
        let x0 = (v0 * 4 + v1 / 16) as u8;
        let x1 = ((v1 % 16) * 16 + v2 / 4) as u8;
        let x2 = ((v2 % 4) * 64 + v3) as u8;
        Some(
            seq![x0] + (if c2 != 0x3d {
                seq![x1]
            } else {
                Seq::<u8>::empty()
            }) + (if c3 != 0x3d {
                seq![x2]
            } else {
                Seq::<u8>::empty()
            }),
        )
    }
}

pub open spec fn b64_chunks(s: Seq<u8>) -> Option<Seq<u8>>
    decreases s.len(),
{
    if s.len() < 4 {
        Some(Seq::<u8>::empty())
    } else {
        match decode_quad(s[0], s[1], s[2], s[3]) {
            None => None,
            Some(b) => match b64_chunks(s.skip(4)) {
                None => None,
                Some(r) => Some(b + r),
            },
        }
    }
}

/// Strict decoding of a sequence whose length is a multiple of four.
pub open spec fn b64_strict(s: Seq<u8>) -> Option<Seq<u8>> {
    if s.len() % 4 != 0 {
        None
    } else {
        b64_chunks(s)
    }
}

pub open spec fn url_to_std(b: u8) -> u8 {
    if b == 0x2d {
        0x2b
    } else if b == 0x5f {
        0x2f
    } else {
        b
    }
}

/// Line feeds dropped; in URL mode `-` and `_` read as `+` and `/`.
pub open spec fn b64_prepare(s: Seq<u8>, url: bool) -> Seq<u8>
    decreases s.len(),
{
    if s.len() == 0 {
        Seq::<u8>::empty()
    } else {
        let r = b64_prepare(s.drop_last(), url);
        let b = s.last();
        if b == 0x0a {
            r
        } else if url {
            r.push(url_to_std(b))
        } else {
            r.push(b)
        }
    }
}

/// `=` appended until the length is a multiple of four.
pub open spec fn pad_b64(p: Seq<u8>) -> Seq<u8> {
    p + Seq::new(((4 - p.len() % 4) % 4) as nat, |i: int| 0x3du8)
}

/// What `decode_b64` gives for the bytes of a text.
pub open spec fn spec_decode_b64(text: Seq<u8>, url: bool) -> Option<Seq<u8>> {
    let padded = pad_b64(b64_prepare(text, url));
    if forall|i: int| 0 <= i < padded.len() ==> b64_symbol_ok(#[trigger] padded[i]) {
        b64_strict(padded)
    } else {
        None
    }
}

fn b64_value_exec(b: u8) -> (r: Option<u8>)
    ensures
        b64_value(b) >= 0 ==> r == Some(b64_value(b) as u8),
        b64_value(b) < 0 ==> r is None,
{
    if 0x41 <= b && b <= 0x5a {
        Some(b - 0x41)
    } else if 0x61 <= b && b <= 0x7a {
        Some(b - 0x61 + 26)
    } else if 0x30 <= b && b <= 0x39 {
        Some(b - 0x30 + 52)
    } else if b == 0x2b {
        Some(62)
    } else if b == 0x2f {
        Some(63)
    } else {
        None
    }
}

fn b64_symbol_ok_exec(b: u8) -> (r: bool)
    ensures
        r == b64_symbol_ok(b),
{
    b == 0x3d || b64_value_exec(b).is_some()
}

fn b64_sextet_exec(b: u8) -> (v: u32)
    requires
        b64_symbol_ok(b),
    ensures
        v == b64_sextet(b),
        v < 64,
{
    if b == 0x3d {
        0
    } else {
        match b64_value_exec(b) {
            Some(v) => v as u32,
            None => 0,
        }
    }
}

fn decode_quad_exec(c0: u8, c1: u8, c2: u8, c3: u8, out: &mut Vec<u8>) -> (ok: bool)
    ensures
        ok == decode_quad(c0, c1, c2, c3).is_some(),
        ok ==> final(out)@ == old(out)@ + decode_quad(c0, c1, c2, c3).unwrap(),
        !ok ==> final(out)@ == old(out)@,
{
    if !(b64_symbol_ok_exec(c0) && b64_symbol_ok_exec(c1) && b64_symbol_ok_exec(c2)
        && b64_symbol_ok_exec(c3)) {
        return false;
    }
    if c2 == 0x3d && c3 != 0x3d {
        return false;
    }
    let v0 = b64_sextet_exec(c0);
    let v1 = b64_sextet_exec(c1);
    let v2 = b64_sextet_exec(c2);
    let v3 = b64_sextet_exec(c3);
    let x0 = (v0 * 4 + v1 / 16) as u8;
    let x1 = ((v1 % 16) * 16 + v2 / 4) as u8;
    let x2 = ((v2 % 4) * 64 + v3) as u8;
    let ghost before = out@;
    out.push(x0);
    if c2 != 0x3d {
        out.push(x1);
    }
    if c3 != 0x3d {
        out.push(x2);
    }
    assert(out@ =~= before + decode_quad(c0, c1, c2, c3).unwrap());
    true
}

/// Decodes a base64 run given as bytes; see `spec_decode_b64`.
pub fn decode_b64_bytes(s: &[u8], url: bool) -> (res: Option<Vec<u8>>)
    ensures
        res matches Some(v) ==> spec_decode_b64(s@, url) == Some(v@),
        res is None ==> spec_decode_b64(s@, url) is None,
{
    let mut p: Vec<u8> = Vec::new();
    let mut i: usize = 0;
    while i < s.len()
        invariant
            i <= s.len(),
            p@ == b64_prepare(s@.take(i as int), url),
        decreases s.len() - i,
    {
        let b = s[i];
        if b != 0x0a {
            if url {
                let m = if b == 0x2d {
                    0x2b
                } else if b == 0x5f {
                    0x2f
                } else {
                    b
                };
                p.push(m);
            } else {
                p.push(b);
            }
        }
        assert(s@.take(i + 1).drop_last() =~= s@.take(i as int));
        i = i + 1;
    }
    assert(s@.take(s@.len() as int) =~= s@);
    let ghost prepared = p@;
    let need: usize = (4 - p.len() % 4) % 4;
    let mut k: usize = 0;
    while k < need
        invariant
            k <= need,
            need == (4 - prepared.len() % 4) % 4,
            p@ == prepared + Seq::new(k as nat, |j: int| 0x3du8),
        decreases need - k,
    {
        p.push(0x3d);
        k = k + 1;
        assert(p@ =~= prepared + Seq::new(k as nat, |j: int| 0x3du8));
    }
    assert(p@ == pad_b64(prepared));
    let ghost padded = p@;
    let mut j: usize = 0;
    while j < p.len()
        invariant
            j <= p@.len(),
            p@ == padded,
            padded == pad_b64(b64_prepare(s@, url)),
            forall|m: int| 0 <= m < j ==> b64_symbol_ok(#[trigger] p@[m]),
        decreases p.len() - j,
    {
        if !b64_symbol_ok_exec(p[j]) {
            assert(!b64_symbol_ok(padded[j as int]));
            return None;
        }
        j = j + 1;
    }
    if p.len() % 4 != 0 {
        return None;
    }
    let mut out: Vec<u8> = Vec::new();
    let mut i: usize = 0;
    assert(p@.skip(0) =~= p@);
    while i < p.len()
        invariant
            i <= p@.len(),
            i % 4 == 0,
            p@.len() % 4 == 0,
            p@ == padded,
            padded == pad_b64(b64_prepare(s@, url)),
            forall|m: int| 0 <= m < padded.len() ==> b64_symbol_ok(#[trigger] padded[m]),
            b64_chunks(p@.skip(i as int)) matches Some(rest) ==> b64_chunks(p@) == Some(
                out@ + rest,
            ),
            b64_chunks(p@.skip(i as int)) is None ==> b64_chunks(p@) is None,
        decreases p.len() - i,
    {
        let ghost tail = p@.skip(i as int);
        assert(tail.skip(4) =~= p@.skip(i + 4));
        assert(tail[0] == p@[i as int] && tail[1] == p@[i + 1] && tail[2] == p@[i + 2] && tail[3]
            == p@[i + 3]);
        let ghost before = out@;
        let ok = decode_quad_exec(p[i], p[i + 1], p[i + 2], p[i + 3], &mut out);
        if !ok {
            assert(b64_chunks(tail) is None);
            return None;
        }
        proof {
            let b = decode_quad(p@[i as int], p@[i + 1], p@[i + 2], p@[i + 3]).unwrap();
            if let Some(rest) = b64_chunks(p@.skip(i + 4)) {
                assert(b64_chunks(tail) == Some(b + rest));
                assert(before + (b + rest) =~= out@ + rest);
            }
        }
        i = i + 4;
    }
    assert(p@.skip(i as int) =~= Seq::<u8>::empty());
    assert(out@ + Seq::<u8>::empty() =~= out@);
    Some(out)
}

/// Decodes base64 text. Line feeds are ignored, missing padding is supplied,
/// and `url` selects the URL-safe alphabet. `None` for anything outside the
/// alphabet or a misplaced pad.
pub fn decode_b64(text: &str, url: bool) -> (res: Option<Vec<u8>>)
    ensures
        res matches Some(v) ==> spec_decode_b64(text.spec_bytes(), url) == Some(v@),
        res is None ==> spec_decode_b64(text.spec_bytes(), url) is None,
{
    decode_b64_bytes(text.as_bytes(), url)
}

// ---------------------------------------------------------------- base64 encode

/// The symbol for a six-bit value.
pub open spec fn b64_char(v: int, url: bool) -> char {
    if v < 26 {
        ((v + 65) as u8) as char
    } else if v < 52 {
        ((v - 26 + 97) as u8) as char
    } else if v < 62 {
        ((v - 52 + 48) as u8) as char
    } else if v == 62 {
        if url {
            '-'
        } else {
            '+'
        }
    } else {
        if url {
            '_'
        } else {
            '/'
        }
    }
}

/// The symbols for one group of up to three bytes; `n` is how many of
/// `b0`, `b1`, `b2` are real (missing ones are zero).
pub open spec fn b64_group(b0: u8, b1: u8, b2: u8, n: int, url: bool, keep_pad: bool) -> Seq<char> {
    let pad = keep_pad && !url;
    let c2 = if n > 1 {
        seq![b64_char(((b1 % 16) * 4 + b2 / 64) as int, url)]
    } else if pad {
        seq!['=']
    } else {
        Seq::<char>::empty()
    };
    let c3 = if n > 2 {
        seq![b64_char((b2 % 64) as int, url)]
    } else if pad {
        seq!['=']
    } else {
        Seq::<char>::empty()
    };
    seq![b64_char((b0 / 4) as int, url), b64_char(((b0 % 4) * 16 + b1 / 16) as int, url)] + c2 + c3
}

pub open spec fn first_group(data: Seq<u8>, url: bool, keep_pad: bool) -> Seq<char> {
    let b1: u8 = if data.len() > 1 {
        data[1]
    } else {
        0
    };
    let b2: u8 = if data.len() > 2 {
        data[2]
    } else {
        0
    };
    b64_group(data[0], b1, b2, data.len() as int, url, keep_pad)
}

/// Base64 of `data`. URL-safe output never carries padding; standard output
/// carries it when `keep_pad` is set.
pub open spec fn spec_encode_b64(data: Seq<u8>, url: bool, keep_pad: bool) -> Seq<char>
    decreases data.len(),
{
    if data.len() == 0 {
        Seq::<char>::empty()
    } else if data.len() <= 3 {
        first_group(data, url, keep_pad)
    } else {
        first_group(data, url, keep_pad) + spec_encode_b64(data.skip(3), url, keep_pad)
    }
}

fn b64_char_exec(v: u32, url: bool) -> (c: char)
    requires
        v < 64,
    ensures
        c == b64_char(v as int, url),
{
    if v < 26 {
        ((v + 65) as u8) as char
    } else if v < 52 {
        ((v - 26 + 97) as u8) as char
    } else if v < 62 {
        ((v - 52 + 48) as u8) as char
    } else if v == 62 {
        if url {
            '-'
        } else {
            '+'
        }
    } else {
        if url {
            '_'
        } else {
            '/'
        }
    }
}

fn push_b64_group(out: &mut String, b0: u8, b1: u8, b2: u8, n: usize, url: bool, keep_pad: bool)
    ensures
        final(out)@ == old(out)@ + b64_group(b0, b1, b2, n as int, url, keep_pad),
{
    let pad = keep_pad && !url;
    let x0 = b0 as u32;
    let x1 = b1 as u32;
    let x2 = b2 as u32;
    push_char(out, b64_char_exec(x0 / 4, url));
    push_char(out, b64_char_exec((x0 % 4) * 16 + x1 / 16, url));
    if n > 1 {
        push_char(out, b64_char_exec((x1 % 16) * 4 + x2 / 64, url));
    } else if pad {
        push_char(out, '=');
    }
    if n > 2 {
        push_char(out, b64_char_exec(x2 % 64, url));
    } else if pad {
        push_char(out, '=');
    }
    assert(final(out)@ =~= old(out)@ + b64_group(b0, b1, b2, n as int, url, keep_pad));
}

/// Encodes `data` as base64, URL-safe with `url`; `keep_pad` keeps the `=`
/// padding of the standard alphabet.
pub fn encode_b64(data: &[u8], url: bool, keep_pad: bool) -> (out: String)
    ensures
        out@ == spec_encode_b64(data@, url, keep_pad),
{
    let mut out = String::new();
    let mut i: usize = 0;
    assert(data@.skip(0) =~= data@);
    while i < data.len()
        invariant
            i <= data@.len(),
            spec_encode_b64(data@, url, keep_pad) == out@ + spec_encode_b64(
                data@.skip(i as int),
                url,
                keep_pad,
            ),
        decreases data@.len() - i,
    {
        let ghost tail = data@.skip(i as int);
        let ghost before = out@;
        let n = data.len() - i;
        let b1: u8 = if n > 1 {
            data[i + 1]
        } else {
            0
        };
        let b2: u8 = if n > 2 {
            data[i + 2]
        } else {
            0
        };
        push_b64_group(&mut out, data[i], b1, b2, n, url, keep_pad);
        assert(first_group(tail, url, keep_pad) == b64_group(data[i as int], b1, b2, n as int, url, keep_pad));
        if n > 3 {
            assert(tail.skip(3) =~= data@.skip(i + 3));
            assert(before + (first_group(tail, url, keep_pad) + spec_encode_b64(tail.skip(3), url, keep_pad)) =~= out@ + spec_encode_b64(data@.skip(i + 3), url, keep_pad));
            i = i + 3;
        } else {
            assert(data@.skip(data@.len() as int) =~= Seq::<u8>::empty());
            assert(before + first_group(tail, url, keep_pad) =~= out@ + spec_encode_b64(data@.skip(data@.len() as int), url, keep_pad));
            i = data.len();
        }
    }
    out
}

// ---------------------------------------------------------------- base16

/// The two bytes of one pair, read as `u8::from_str_radix(.., 16)` reads
/// them: an optional leading `+`, then hex digits.
pub open spec fn hex_pair(a: u8, b: u8) -> Option<u8> {
    if a == 0x2b {
        if is_hex_digit(b) {
            Some(hex_value(b) as u8)
        } else {
            None
        }
    } else if is_hex_digit(a) && is_hex_digit(b) {
        Some((hex_value(a) * 16 + hex_value(b)) as u8)
    } else {
        None
    }
}

fn hex_pair_exec(a: u8, b: u8) -> (r: Option<u8>)
    ensures
        r == hex_pair(a, b),
{
    if a == 0x2b {
        if is_hex_byte(b) {
            Some(hex_value_exec(b))
        } else {
            None
        }
    } else if is_hex_byte(a) && is_hex_byte(b) {
        let hi = hex_value_exec(a);
        let lo = hex_value_exec(b);
        Some(hi * 16 + lo)
    } else {
        None
    }
}

pub open spec fn hex_pairs(s: Seq<u8>) -> Option<Seq<u8>>
    decreases s.len(),
{
    if s.len() < 2 {
        Some(Seq::<u8>::empty())
    } else {
        match hex_pair(s[0], s[1]) {
            None => None,
            Some(v) => match hex_pairs(s.skip(2)) {
                None => None,
                Some(r) => Some(seq![v] + r),
            },
        }
    }
}

/// What `decode_hex` gives for the bytes of a text: `None` for an odd
/// length or a pair that is not a hex number.
pub open spec fn spec_decode_hex(s: Seq<u8>) -> Option<Seq<u8>> {
    if s.len() % 2 != 0 {
        None
    } else {
        hex_pairs(s)
    }
}

pub fn decode_hex_bytes(s: &[u8]) -> (res: Option<Vec<u8>>)
    ensures
        res matches Some(v) ==> spec_decode_hex(s@) == Some(v@),
        res is None ==> spec_decode_hex(s@) is None,
{
    if s.len() % 2 != 0 {
        return None;
    }
    let mut out: Vec<u8> = Vec::new();
    let mut i: usize = 0;
    assert(s@.skip(0) =~= s@);
    while i < s.len()
        invariant
            i <= s@.len(),
            i % 2 == 0,
            s@.len() % 2 == 0,
            hex_pairs(s@.skip(i as int)) matches Some(rest) ==> hex_pairs(s@) == Some(out@ + rest),
            hex_pairs(s@.skip(i as int)) is None ==> hex_pairs(s@) is None,
        decreases s.len() - i,
    {
        let ghost tail = s@.skip(i as int);
        assert(tail.skip(2) =~= s@.skip(i + 2));
        assert(tail[0] == s@[i as int] && tail[1] == s@[i + 1]);
        match hex_pair_exec(s[i], s[i + 1]) {
            None => {
                return None;
            },
            Some(v) => {
                let ghost before = out@;
                out.push(v);
                proof {
                    if let Some(rest) = hex_pairs(s@.skip(i + 2)) {
                        assert(before + (seq![v] + rest) =~= out@ + rest);
                    }
                }
            },
        }
        i = i + 2;
    }
    assert(s@.skip(i as int) =~= Seq::<u8>::empty());
    assert(out@ + Seq::<u8>::empty() =~= out@);
    Some(out)
}

/// Decodes base16 text, two characters per byte.
pub fn decode_hex(text: &str) -> (res: Option<Vec<u8>>)
    ensures
        res matches Some(v) ==> spec_decode_hex(text.spec_bytes()) == Some(v@),
        res is None ==> spec_decode_hex(text.spec_bytes()) is None,
{
    decode_hex_bytes(text.as_bytes())
}

/// The lower-case hex digit for a value below 16.
pub open spec fn hex_char(v: int) -> char {
    if v < 10 {
        ((v + 48) as u8) as char
    } else {
        ((v - 10 + 97) as u8) as char
    }
}

/// The upper-case hex digit for a value below 16.
pub open spec fn hex_char_upper(v: int) -> char {
    if v < 10 {
        ((v + 48) as u8) as char
    } else {
        ((v - 10 + 65) as u8) as char
    }
}

pub open spec fn spec_encode_hex(data: Seq<u8>) -> Seq<char>
    decreases data.len(),
{
    if data.len() == 0 {
        Seq::<char>::empty()
    } else {
        spec_encode_hex(data.drop_last()) + seq![
            hex_char((data.last() / 16) as int),
            hex_char((data.last() % 16) as int),
        ]
    }
}

pub fn hex_char_exec(v: u8, upper: bool) -> (c: char)
    requires
        v < 16,
    ensures
        !upper ==> c == hex_char(v as int),
        upper ==> c == hex_char_upper(v as int),
{
    if v < 10 {
        (v + 48) as char
    } else if upper {
        (v - 10 + 65) as char
    } else {
        (v - 10 + 97) as char
    }
}

/// Lower-case base16 of `data`.
pub fn encode_hex(data: &[u8]) -> (out: String)
    ensures
        out@ == spec_encode_hex(data@),
{
    let mut out = String::new();
    let mut i: usize = 0;
    while i < data.len()
        invariant
            i <= data@.len(),
            out@ == spec_encode_hex(data@.take(i as int)),
        decreases data.len() - i,
    {
        let b = data[i];
        push_char(&mut out, hex_char_exec(b / 16, false));
        push_char(&mut out, hex_char_exec(b % 16, false));
        assert(data@.take(i + 1).drop_last() =~= data@.take(i as int));
        i = i + 1;
    }
    assert(data@.take(data@.len() as int) =~= data@);
    out
}

// ---------------------------------------------------------------- percent

/// Percent decoding: `%` and the two following bytes read as a hex pair,
/// every other byte kept; `None` for a `%` too close to the end or a pair
/// that is not a hex number. `+` stays `+`.
pub open spec fn spec_decode_percent(s: Seq<u8>) -> Option<Seq<u8>>
    decreases s.len(),
{
    if s.len() == 0 {
        Some(Seq::<u8>::empty())
    } else if s[0] == 0x25 {
        if s.len() < 3 {
            None
        } else {
            match hex_pair(s[1], s[2]) {
                None => None,
                Some(v) => match spec_decode_percent(s.skip(3)) {
                    None => None,
                    Some(r) => Some(seq![v] + r),
                },
            }
        }
    } else {
        match spec_decode_percent(s.skip(1)) {
            None => None,
            Some(r) => Some(seq![s[0]] + r),
        }
    }
}

pub fn decode_percent_bytes(s: &[u8]) -> (res: Option<Vec<u8>>)
    ensures
        res matches Some(v) ==> spec_decode_percent(s@) == Some(v@),
        res is None ==> spec_decode_percent(s@) is None,
{
    let mut out: Vec<u8> = Vec::new();
    let mut i: usize = 0;
    assert(s@.skip(0) =~= s@);
    while i < s.len()
        invariant
            i <= s@.len(),
            spec_decode_percent(s@.skip(i as int)) matches Some(rest) ==> spec_decode_percent(s@)
                == Some(out@ + rest),
            spec_decode_percent(s@.skip(i as int)) is None ==> spec_decode_percent(s@) is None,
        decreases s.len() - i,
    {
        let ghost tail = s@.skip(i as int);
        let ghost before = out@;
        assert(tail[0] == s@[i as int]);
        if s[i] == 0x25 {
            if s.len() - i < 3 {
                return None;
            }
            assert(tail[1] == s@[i + 1] && tail[2] == s@[i + 2]);
            assert(tail.skip(3) =~= s@.skip(i + 3));
            match hex_pair_exec(s[i + 1], s[i + 2]) {
                None => {
                    return None;
                },
                Some(v) => {
                    out.push(v);
                    proof {
                        if let Some(rest) = spec_decode_percent(s@.skip(i + 3)) {
                            assert(before + (seq![v] + rest) =~= out@ + rest);
                        }
                    }
                },
            }
            i = i + 3;
        } else {
            assert(tail.skip(1) =~= s@.skip(i + 1));
            out.push(s[i]);
            proof {
                if let Some(rest) = spec_decode_percent(s@.skip(i + 1)) {
                    assert(before + (seq![s@[i as int]] + rest) =~= out@ + rest);
                }
            }
            i = i + 1;
        }
    }
    assert(s@.skip(i as int) =~= Seq::<u8>::empty());
    assert(out@ + Seq::<u8>::empty() =~= out@);
    Some(out)
}

/// Decodes `%HH` escapes; other bytes pass through unchanged.
pub fn decode_percent(text: &str) -> (res: Option<Vec<u8>>)
    ensures
        res matches Some(v) ==> spec_decode_percent(text.spec_bytes()) == Some(v@),
        res is None ==> spec_decode_percent(text.spec_bytes()) is None,
{
    decode_percent_bytes(text.as_bytes())
}


/// `%HH` with upper-case digits for every byte.
pub open spec fn spec_encode_percent(data: Seq<u8>) -> Seq<char>
    decreases data.len(),
{
    if data.len() == 0 {
        Seq::<char>::empty()
    } else {
        spec_encode_percent(data.drop_last()) + seq![
            '%',
            hex_char_upper((data.last() / 16) as int),
            hex_char_upper((data.last() % 16) as int),
        ]
    }
}

/// Writes every byte as `%HH`, upper-case.
pub fn encode_percent(data: &[u8]) -> (out: String)
    ensures
        out@ == spec_encode_percent(data@),
{
    let mut out = String::new();
    let mut i: usize = 0;
    while i < data.len()
        invariant
            i <= data@.len(),
            out@ == spec_encode_percent(data@.take(i as int)),
        decreases data.len() - i,
    {
        let b = data[i];
        push_char(&mut out, '%');
        push_char(&mut out, hex_char_exec(b / 16, true));
        push_char(&mut out, hex_char_exec(b % 16, true));
        assert(data@.take(i + 1).drop_last() =~= data@.take(i as int));
        i = i + 1;
    }
    assert(data@.take(data@.len() as int) =~= data@);
    out
}

} // verus!

verus! {

// ---------------------------------------------------------------- round trips

/// The bytes of a text made only of ASCII characters.
pub open spec fn ascii_bytes(cs: Seq<char>) -> Seq<u8> {
    cs.map_values(|c: char| c as u8)
}

proof fn lemma_b64_char(v: int)
    requires
        0 <= v < 64,
    ensures
        b64_value(b64_char(v, false) as u8) == v,
        b64_char(v, false) as u8 != 0x3d,
        b64_char(v, false) as u8 != 0x0a,
        url_to_std(b64_char(v, true) as u8) == b64_char(v, false) as u8,
        b64_char(v, true) as u8 != 0x0a,
        '\0' <= b64_char(v, false) <= '\u{7f}',
        '\0' <= b64_char(v, true) <= '\u{7f}',
        b64_char(v, false) as u8 as char == b64_char(v, false),
        b64_char(v, true) as u8 as char == b64_char(v, true),
{
}


proof fn lemma_prepare_plain(s: Seq<u8>, url: bool)
    requires
        forall|i: int| 0 <= i < s.len() ==> #[trigger] s[i] != 0x0a,
    ensures
        b64_prepare(s, url) == (if url {
            s.map_values(|b: u8| url_to_std(b))
        } else {
            s
        }),
    decreases s.len(),
{
    if s.len() > 0 {
        lemma_prepare_plain(s.drop_last(), url);
        if url {
            assert(s.drop_last().map_values(|b: u8| url_to_std(b)).push(url_to_std(s.last()))
                =~= s.map_values(|b: u8| url_to_std(b)));
        } else {
            assert(s.drop_last().push(s.last()) =~= s);
        }
    }
}

/// The bytes of one encoded group: no line feed among them, and in URL mode
/// they map onto the standard group.
#[verifier::rlimit(40)]
proof fn lemma_group_bytes(b0: u8, b1: u8, b2: u8, n: int, url: bool, keep_pad: bool)
    requires
        1 <= n,
    ensures
        ({
            let g = ascii_bytes(b64_group(b0, b1, b2, n, url, keep_pad));
            &&& forall|i: int| 0 <= i < g.len() ==> #[trigger] g[i] != 0x0a
            &&& is_ascii_chars(b64_group(b0, b1, b2, n, url, keep_pad))
            &&& (if url {
                g.map_values(|b: u8| url_to_std(b))
            } else {
                g
            }) == ascii_bytes(b64_group(b0, b1, b2, n, false, keep_pad && !url))
        }),
{
    lemma_b64_char((b0 / 4) as int);
    lemma_b64_char(((b0 % 4) * 16 + b1 / 16) as int);
    lemma_b64_char(((b1 % 16) * 4 + b2 / 64) as int);
    lemma_b64_char((b2 % 64) as int);
    let g = ascii_bytes(b64_group(b0, b1, b2, n, url, keep_pad));
    let h = ascii_bytes(b64_group(b0, b1, b2, n, false, keep_pad && !url));
    if url {
        assert(g.map_values(|b: u8| url_to_std(b)) =~= h);
    } else {
        assert(g =~= h);
    }
}

proof fn lemma_ascii_bytes_add(a: Seq<char>, b: Seq<char>)
    ensures
        ascii_bytes(a + b) == ascii_bytes(a) + ascii_bytes(b),
{
    assert(ascii_bytes(a + b) =~= ascii_bytes(a) + ascii_bytes(b));
}

proof fn lemma_map_add(a: Seq<u8>, b: Seq<u8>)
    ensures
        (a + b).map_values(|x: u8| url_to_std(x)) == a.map_values(|x: u8| url_to_std(x))
            + b.map_values(|x: u8| url_to_std(x)),
{
    assert((a + b).map_values(|x: u8| url_to_std(x)) =~= a.map_values(|x: u8| url_to_std(x))
        + b.map_values(|x: u8| url_to_std(x)));
}

proof fn lemma_pad_prefix(g: Seq<u8>, x: Seq<u8>)
    requires
        g.len() == 4,
    ensures
        pad_b64(g + x) == g + pad_b64(x),
{
    assert((g + x).len() % 4 == x.len() % 4);
    assert(pad_b64(g + x) =~= g + pad_b64(x));
}

/// The encoded text, with line feeds dropped, URL symbols mapped back and
/// padding supplied, is the padded standard encoding.
proof fn lemma_encoded_prepared(d: Seq<u8>, url: bool, keep_pad: bool)
    ensures
        ({
            let e = ascii_bytes(spec_encode_b64(d, url, keep_pad));
            &&& forall|i: int| 0 <= i < e.len() ==> #[trigger] e[i] != 0x0a
            &&& is_ascii_chars(spec_encode_b64(d, url, keep_pad))
            &&& pad_b64(
                if url {
                    e.map_values(|b: u8| url_to_std(b))
                } else {
                    e
                },
            ) == ascii_bytes(spec_encode_b64(d, false, true))
        }),
    decreases d.len(),
{
    let e = ascii_bytes(spec_encode_b64(d, url, keep_pad));
    if d.len() == 0 {
        assert(e =~= Seq::<u8>::empty());
        assert(e.map_values(|b: u8| url_to_std(b)) =~= Seq::<u8>::empty());
        assert(pad_b64(Seq::<u8>::empty()) =~= Seq::<u8>::empty());
        assert(ascii_bytes(Seq::<char>::empty()) =~= Seq::<u8>::empty());
    } else {
        let b1: u8 = if d.len() > 1 {
            d[1]
        } else {
            0
        };
        let b2: u8 = if d.len() > 2 {
            d[2]
        } else {
            0
        };
        let n = d.len() as int;
        lemma_group_bytes(d[0], b1, b2, n, url, keep_pad);
        lemma_group_bytes(d[0], b1, b2, n, false, true);
        let g = ascii_bytes(b64_group(d[0], b1, b2, n, url, keep_pad));
        let gs = ascii_bytes(b64_group(d[0], b1, b2, n, false, true));
        let gm = ascii_bytes(b64_group(d[0], b1, b2, n, false, keep_pad && !url));
        if d.len() <= 3 {
            assert(e == g);
            // the short group: padding supplies what the unpadded forms lack
            assert(pad_b64(gm) =~= gs);
        } else {
            let rest = d.skip(3);
            lemma_encoded_prepared(rest, url, keep_pad);
            let er = ascii_bytes(spec_encode_b64(rest, url, keep_pad));
            lemma_ascii_bytes_add(b64_group(d[0], b1, b2, n, url, keep_pad), spec_encode_b64(rest, url, keep_pad));
            lemma_ascii_bytes_add(b64_group(d[0], b1, b2, n, false, true), spec_encode_b64(rest, false, true));
            assert(e == g + er);
            assert forall|i: int| 0 <= i < e.len() implies #[trigger] e[i] != 0x0a by {
                if i < g.len() {
                    assert(e[i] == g[i]);
                } else {
                    assert(e[i] == er[i - g.len()]);
                }
            }
            assert(is_ascii_chars(spec_encode_b64(d, url, keep_pad))) by {
                let ce = spec_encode_b64(d, url, keep_pad);
                let cg = b64_group(d[0], b1, b2, n, url, keep_pad);
                let cr = spec_encode_b64(rest, url, keep_pad);
                assert(ce == cg + cr);
                assert forall|i: int| 0 <= i < ce.len() implies '\0' <= #[trigger] ce[i] <= '\u{7f}' by {
                    if i < cg.len() {
                        assert(ce[i] == cg[i]);
                    } else {
                        assert(ce[i] == cr[i - cg.len()]);
                    }
                }
            }
            assert(g.len() == 4);
            assert(gm == gs);
            if url {
                lemma_map_add(g, er);
                lemma_pad_prefix(gm, er.map_values(|b: u8| url_to_std(b)));
            } else {
                lemma_pad_prefix(g, er);
            }
        }
    }
}

proof fn lemma_decode_group(b0: u8, b1: u8, b2: u8, n: int)
    requires
        1 <= n,
    ensures
        ({
            let g = ascii_bytes(b64_group(b0, b1, b2, n, false, true));
            &&& g.len() == 4
            &&& forall|i: int| 0 <= i < 4 ==> b64_symbol_ok(#[trigger] g[i])
            &&& decode_quad(g[0], g[1], g[2], g[3]) == Some(
                if n == 1 {
                    seq![b0]
                } else if n == 2 {
                    seq![b0, b1]
                } else {
                    seq![b0, b1, b2]
                },
            )
        }),
{
    lemma_b64_char((b0 / 4) as int);
    lemma_b64_char(((b0 % 4) * 16 + b1 / 16) as int);
    lemma_b64_char(((b1 % 16) * 4 + b2 / 64) as int);
    lemma_b64_char((b2 % 64) as int);
    let g = ascii_bytes(b64_group(b0, b1, b2, n, false, true));
    let want = if n == 1 {
        seq![b0]
    } else if n == 2 {
        seq![b0, b1]
    } else {
        seq![b0, b1, b2]
    };
    assert(decode_quad(g[0], g[1], g[2], g[3]).unwrap() =~= want);
}

/// Strict decoding of the padded standard encoding gives the data back.
proof fn lemma_strict_round_trip(d: Seq<u8>)
    ensures
        ({
            let e = ascii_bytes(spec_encode_b64(d, false, true));
            &&& e.len() % 4 == 0
            &&& forall|i: int| 0 <= i < e.len() ==> b64_symbol_ok(#[trigger] e[i])
            &&& b64_chunks(e) == Some(d)
        }),
    decreases d.len(),
{
    let e = ascii_bytes(spec_encode_b64(d, false, true));
    if d.len() == 0 {
        assert(e =~= Seq::<u8>::empty());
    } else {
        let b1: u8 = if d.len() > 1 {
            d[1]
        } else {
            0
        };
        let b2: u8 = if d.len() > 2 {
            d[2]
        } else {
            0
        };
        let n = d.len() as int;
        lemma_decode_group(d[0], b1, b2, n);
        let g = ascii_bytes(b64_group(d[0], b1, b2, n, false, true));
        if d.len() <= 3 {
            assert(e == g);
            assert(e.skip(4) =~= Seq::<u8>::empty());
            assert(b64_chunks(e.skip(4)) == Some(Seq::<u8>::empty()));
            if n == 1 {
                assert(seq![d[0]] + Seq::<u8>::empty() =~= d);
            } else if n == 2 {
                assert(seq![d[0], b1] + Seq::<u8>::empty() =~= d);
            } else {
                assert(seq![d[0], b1, b2] + Seq::<u8>::empty() =~= d);
            }
        } else {
            let rest = d.skip(3);
            lemma_strict_round_trip(rest);
            let er = ascii_bytes(spec_encode_b64(rest, false, true));
            lemma_ascii_bytes_add(b64_group(d[0], b1, b2, n, false, true), spec_encode_b64(rest, false, true));
            assert(e == g + er);
            assert((g + er).skip(4) =~= er);
            assert forall|i: int| 0 <= i < e.len() implies b64_symbol_ok(#[trigger] e[i]) by {
                if i < 4 {
                    assert(e[i] == g[i]);
                } else {
                    assert(e[i] == er[i - 4]);
                }
            }
            assert(e[0] == g[0] && e[1] == g[1] && e[2] == g[2] && e[3] == g[3]);
            assert(seq![d[0], b1, b2] + rest =~= d);
        }
    }
}

proof fn lemma_pads_at_end(d: Seq<u8>)
    ensures
        ({
            let e = ascii_bytes(spec_encode_b64(d, false, true));
            forall|i: int| 0 <= i < e.len() && #[trigger] e[i] == 0x3d ==> i >= e.len() - 2
        }),
    decreases d.len(),
{
    let e = ascii_bytes(spec_encode_b64(d, false, true));
    if d.len() > 0 {
        let b1: u8 = if d.len() > 1 {
            d[1]
        } else {
            0
        };
        let b2: u8 = if d.len() > 2 {
            d[2]
        } else {
            0
        };
        let n = d.len() as int;
        lemma_b64_char((d[0] / 4) as int);
        lemma_b64_char(((d[0] % 4) * 16 + b1 / 16) as int);
        lemma_b64_char(((b1 % 16) * 4 + b2 / 64) as int);
        lemma_b64_char((b2 % 64) as int);
        let g = ascii_bytes(b64_group(d[0], b1, b2, n, false, true));
        assert(g[0] != 0x3d && g[1] != 0x3d);
        if d.len() <= 3 {
            assert(e == g);
        } else {
            let rest = d.skip(3);
            lemma_pads_at_end(rest);
            let er = ascii_bytes(spec_encode_b64(rest, false, true));
            lemma_ascii_bytes_add(b64_group(d[0], b1, b2, n, false, true), spec_encode_b64(rest, false, true));
            assert(e == g + er);
            assert(g[2] != 0x3d && g[3] != 0x3d);
            assert forall|i: int| 0 <= i < e.len() && #[trigger] e[i] == 0x3d implies i >= e.len() - 2 by {
                if i < 4 {
                    assert(e[i] == g[i]);
                } else {
                    assert(e[i] == er[i - 4]);
                }
            }
        }
    }
}

/// The padded standard encoding as bytes: ASCII, a multiple of four long,
/// every byte a symbol or the pad, and read group by group it gives the data
/// back.
pub proof fn lemma_padded_encoding(data: Seq<u8>)
    ensures
        ({
            let e = encode_utf8(spec_encode_b64(data, false, true));
            &&& e == ascii_bytes(spec_encode_b64(data, false, true))
            &&& e.len() % 4 == 0
            &&& forall|i: int| 0 <= i < e.len() ==> b64_symbol_ok(#[trigger] e[i])
            &&& b64_chunks(e) == Some(data)
            &&& forall|i: int| 0 <= i < e.len() && #[trigger] e[i] == 0x3d ==> i >= e.len() - 2
        }),
{
    let chars = spec_encode_b64(data, false, true);
    lemma_pads_at_end(data);
    lemma_encoded_prepared(data, false, true);
    is_ascii_chars_encode_utf8(chars);
    assert(encode_utf8(chars) =~= ascii_bytes(chars));
    lemma_strict_round_trip(data);
}

/// Round trip: whatever `encode_b64` writes, `decode_b64` reads back to the
/// same bytes, in either alphabet and with or without padding.
pub proof fn law_b64_round_trip(data: Seq<u8>, url: bool, keep_pad: bool)
    ensures
        spec_decode_b64(encode_utf8(spec_encode_b64(data, url, keep_pad)), url) == Some(data),
{
    let chars = spec_encode_b64(data, url, keep_pad);
    lemma_encoded_prepared(data, url, keep_pad);
    is_ascii_chars_encode_utf8(chars);
    let e = ascii_bytes(chars);
    assert(encode_utf8(chars) =~= e);
    lemma_prepare_plain(e, url);
    lemma_strict_round_trip(data);
}

pub proof fn lemma_hex_digit(v: int, upper: bool)
    requires
        0 <= v < 16,
    ensures
        ({
            let c = if upper {
                hex_char_upper(v)
            } else {
                hex_char(v)
            };
            &&& is_hex_digit(c as u8)
            &&& hex_value(c as u8) == v
            &&& c as u8 != 0x2b
            &&& c as u8 != 0x25
            &&& '\0' <= c <= '\u{7f}'
        }),
{
}

proof fn lemma_hex_pairs_add(x: Seq<u8>, y: Seq<u8>)
    requires
        x.len() % 2 == 0,
    ensures
        hex_pairs(x + y) == (match (hex_pairs(x), hex_pairs(y)) {
            (Some(a), Some(b)) => Some(a + b),
            _ => None,
        }),
    decreases x.len(),
{
    if x.len() == 0 {
        assert(x + y =~= y);
        if let Some(b) = hex_pairs(y) {
            assert(Seq::<u8>::empty() + b =~= b);
        }
    } else {
        lemma_hex_pairs_add(x.skip(2), y);
        assert((x + y).skip(2) =~= x.skip(2) + y);
        assert((x + y)[0] == x[0] && (x + y)[1] == x[1]);
        if let (Some(a), Some(b)) = (hex_pairs(x.skip(2)), hex_pairs(y)) {
            let v = hex_pair(x[0], x[1]).unwrap();
            assert(seq![v] + (a + b) =~= (seq![v] + a) + b);
        }
    }
}

/// Round trip: `decode_hex` reads back what `encode_hex` writes.
pub proof fn law_hex_round_trip(data: Seq<u8>)
    ensures
        spec_decode_hex(encode_utf8(spec_encode_hex(data))) == Some(data),
    decreases data.len(),
{
    lemma_hex_round_trip_ascii(data);
    let chars = spec_encode_hex(data);
    is_ascii_chars_encode_utf8(chars);
    assert(encode_utf8(chars) =~= ascii_bytes(chars));
}

proof fn lemma_hex_round_trip_ascii(data: Seq<u8>)
    ensures
        is_ascii_chars(spec_encode_hex(data)),
        ascii_bytes(spec_encode_hex(data)).len() == 2 * data.len(),
        spec_decode_hex(ascii_bytes(spec_encode_hex(data))) == Some(data),
    decreases data.len(),
{
    if data.len() == 0 {
        assert(ascii_bytes(Seq::<char>::empty()) =~= Seq::<u8>::empty());
    } else {
        let dl = data.drop_last();
        let b = data.last();
        lemma_hex_round_trip_ascii(dl);
        lemma_hex_digit((b / 16) as int, false);
        lemma_hex_digit((b % 16) as int, false);
        let pair = seq![hex_char((b / 16) as int), hex_char((b % 16) as int)];
        lemma_ascii_bytes_add(spec_encode_hex(dl), pair);
        let pb = ascii_bytes(pair);
        assert(pb.skip(2) =~= Seq::<u8>::empty());
        assert(pb[0] == hex_char((b / 16) as int) as u8 && pb[1] == hex_char((b % 16) as int) as u8);
        assert(hex_pair(pb[0], pb[1]) == Some(b));
        assert(hex_pairs(pb.skip(2)) == Some(Seq::<u8>::empty()));
        assert(seq![b] + Seq::<u8>::empty() =~= seq![b]);
        assert(hex_pairs(pb) == Some(seq![b]));
        lemma_hex_pairs_add(ascii_bytes(spec_encode_hex(dl)), pb);
        assert(dl + seq![b] =~= data);
        let all = spec_encode_hex(data);
        assert(all == spec_encode_hex(dl) + pair);
        assert forall|i: int| 0 <= i < all.len() implies '\0' <= #[trigger] all[i] <= '\u{7f}' by {
            if i < spec_encode_hex(dl).len() {
                assert(all[i] == spec_encode_hex(dl)[i]);
            } else {
                assert(all[i] == pair[i - spec_encode_hex(dl).len()]);
            }
        }
    }
}

proof fn lemma_percent_add(x: Seq<u8>, y: Seq<u8>)
    requires
        spec_decode_percent(x) is Some,
        x.len() == 0 || x.last() != 0x25,
        x.len() < 2 || x[x.len() - 2] != 0x25,
        forall|i: int| 0 <= i < x.len() ==> x[i] == 0x25 ==> i + 2 < x.len(),
    ensures
        spec_decode_percent(x + y) == (match spec_decode_percent(y) {
            Some(b) => Some(spec_decode_percent(x).unwrap() + b),
            None => None,
        }),
    decreases x.len(),
{
    if x.len() == 0 {
        assert(x + y =~= y);
        if let Some(b) = spec_decode_percent(y) {
            assert(Seq::<u8>::empty() + b =~= b);
        }
    } else if x[0] == 0x25 {
        let xs = x.skip(3);
        assert((x + y).skip(3) =~= xs + y);
        assert((x + y)[0] == x[0] && (x + y)[1] == x[1] && (x + y)[2] == x[2]);
        assert forall|i: int| 0 <= i < xs.len() && xs[i] == 0x25 implies i + 2 < xs.len() by {
            assert(xs[i] == x[i + 3]);
        }
        if xs.len() > 0 {
            assert(xs.last() == x.last());
        }
        if xs.len() >= 2 {
            assert(xs[xs.len() - 2] == x[x.len() - 2]);
        }
        lemma_percent_add(xs, y);
        if let Some(b) = spec_decode_percent(y) {
            let v = hex_pair(x[1], x[2]).unwrap();
            assert(seq![v] + (spec_decode_percent(xs).unwrap() + b) =~= (seq![v]
                + spec_decode_percent(xs).unwrap()) + b);
        }
    } else {
        let xs = x.skip(1);
        assert((x + y).skip(1) =~= xs + y);
        assert((x + y)[0] == x[0]);
        assert forall|i: int| 0 <= i < xs.len() && xs[i] == 0x25 implies i + 2 < xs.len() by {
            assert(xs[i] == x[i + 1]);
        }
        if xs.len() > 0 {
            assert(xs.last() == x.last());
        }
        if xs.len() >= 2 {
            assert(xs[xs.len() - 2] == x[x.len() - 2]);
        }
        lemma_percent_add(xs, y);
        if let Some(b) = spec_decode_percent(y) {
            assert(seq![x[0]] + (spec_decode_percent(xs).unwrap() + b) =~= (seq![x[0]]
                + spec_decode_percent(xs).unwrap()) + b);
        }
    }
}

proof fn lemma_percent_round_trip_ascii(data: Seq<u8>)
    ensures
        ({
            let e = ascii_bytes(spec_encode_percent(data));
            &&& is_ascii_chars(spec_encode_percent(data))
            &&& e.len() == 3 * data.len()
            &&& forall|i: int| 0 <= i < e.len() ==> (#[trigger] e[i] == 0x25 <==> i % 3 == 0)
            &&& spec_decode_percent(e) == Some(data)
        }),
    decreases data.len(),
{
    if data.len() == 0 {
        assert(ascii_bytes(Seq::<char>::empty()) =~= Seq::<u8>::empty());
    } else {
        let dl = data.drop_last();
        let b = data.last();
        lemma_percent_round_trip_ascii(dl);
        lemma_hex_digit((b / 16) as int, true);
        lemma_hex_digit((b % 16) as int, true);
        let trip = seq!['%', hex_char_upper((b / 16) as int), hex_char_upper((b % 16) as int)];
        lemma_ascii_bytes_add(spec_encode_percent(dl), trip);
        let ed = ascii_bytes(spec_encode_percent(dl));
        let tb = ascii_bytes(trip);
        assert(tb.skip(3) =~= Seq::<u8>::empty());
        assert(tb[0] == 0x25 && tb[1] == hex_char_upper((b / 16) as int) as u8 && tb[2]
            == hex_char_upper((b % 16) as int) as u8);
        assert(hex_pair(tb[1], tb[2]) == Some(b));
        assert(spec_decode_percent(tb.skip(3)) == Some(Seq::<u8>::empty()));
        assert(seq![b] + Seq::<u8>::empty() =~= seq![b]);
        assert(spec_decode_percent(tb) == Some(seq![b]));
        assert(ed.len() % 3 == 0);
        if ed.len() > 0 {
            assert(ed.last() != 0x25);
            assert(ed[ed.len() - 2] != 0x25);
        }
        lemma_percent_add(ed, tb);
        assert(dl + seq![b] =~= data);
        let all = spec_encode_percent(data);
        let e = ascii_bytes(all);
        assert(e == ed + tb);
        assert forall|i: int| 0 <= i < e.len() implies (#[trigger] e[i] == 0x25 <==> i % 3 == 0) by {
            if i < ed.len() {
                assert(e[i] == ed[i]);
            } else {
                assert(e[i] == tb[i - ed.len()]);
            }
        }
        assert forall|i: int| 0 <= i < all.len() implies '\0' <= #[trigger] all[i] <= '\u{7f}' by {
            if i < spec_encode_percent(dl).len() {
                assert(all[i] == spec_encode_percent(dl)[i]);
            } else {
                assert(all[i] == trip[i - spec_encode_percent(dl).len()]);
            }
        }
    }
}

/// Round trip: `decode_percent` reads back what `encode_percent` writes.
pub proof fn law_percent_round_trip(data: Seq<u8>)
    ensures
        spec_decode_percent(encode_utf8(spec_encode_percent(data))) == Some(data),
{
    lemma_percent_round_trip_ascii(data);
    let chars = spec_encode_percent(data);
    is_ascii_chars_encode_utf8(chars);
    assert(encode_utf8(chars) =~= ascii_bytes(chars));
}
} // verus!

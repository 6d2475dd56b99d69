//! Small JavaScript scanners over source bytes. Nothing is run: string
//! literals and comments are recognised, literals joined by `+` are found and
//! folded, `eval(` is located, and text is re-indented.

use vstd::prelude::*;

use crate::codec::{hex_pair, hex_value, is_alnum, is_hex_byte, is_hex_digit};
use crate::text::push_char;
use vstd::slice::slice_subrange;
use vstd::string::StrSliceExecFns;
use vstd::string::StringExecFns;
use vstd::string::StringSliceAdditionalSpecFns;

verus! {

// ---------------------------------------------------------------- bytes

/// A byte that may be part of an identifier.
pub open spec fn spec_is_ident(b: u8) -> bool {
    is_alnum(b) || b == 0x5f || b == 0x24
}

pub fn is_ident(b: u8) -> (r: bool)
    ensures
        r == spec_is_ident(b),
{
    (0x30 <= b && b <= 0x39) || (0x41 <= b && b <= 0x5a) || (0x61 <= b && b <= 0x7a) || b == 0x5f
        || b == 0x24
}

/// `u8::is_ascii_whitespace`: space, tab, line feed, form feed, carriage return.
pub open spec fn is_ascii_ws(b: u8) -> bool {
    b == 0x20 || b == 0x09 || b == 0x0a || b == 0x0c || b == 0x0d
}

pub fn is_ascii_ws_exec(b: u8) -> (r: bool)
    ensures
        r == is_ascii_ws(b),
{
    b == 0x20 || b == 0x09 || b == 0x0a || b == 0x0c || b == 0x0d
}

/// The first position at or after `j` that is not ASCII whitespace.
pub open spec fn skip_ws(bytes: Seq<u8>, j: int) -> int
    decreases bytes.len() - j,
{
    if j < 0 || j >= bytes.len() || !is_ascii_ws(bytes[j]) {
        j
    } else {
        skip_ws(bytes, j + 1)
    }
}

pub proof fn lemma_skip_ws(bytes: Seq<u8>, j: int)
    requires
        0 <= j,
    ensures
        j <= skip_ws(bytes, j),
        j <= bytes.len() ==> skip_ws(bytes, j) <= bytes.len(),
    decreases bytes.len() - j,
{
    if j < bytes.len() && is_ascii_ws(bytes[j]) {
        lemma_skip_ws(bytes, j + 1);
    }
}

fn skip_ws_exec(bytes: &[u8], j: usize) -> (k: usize)
    requires
        j <= bytes@.len(),
    ensures
        k == skip_ws(bytes@, j as int),
        j <= k <= bytes@.len(),
{
    let mut k = j;
    while k < bytes.len() && is_ascii_ws_exec(bytes[k])
        invariant
            j <= k <= bytes@.len(),
            skip_ws(bytes@, j as int) == skip_ws(bytes@, k as int),
        decreases bytes.len() - k,
    {
        k = k + 1;
    }
    k
}

// ---------------------------------------------------------------- string literals

/// `u32::from_str_radix(.., 16)` on four bytes: an optional `+`, then digits.
pub open spec fn hex4(a: u8, b: u8, c: u8, d: u8) -> Option<u32> {
    if a == 0x2b {
        if is_hex_digit(b) && is_hex_digit(c) && is_hex_digit(d) {
            Some((hex_value(b) * 256 + hex_value(c) * 16 + hex_value(d)) as u32)
        } else {
            None
        }
    } else if is_hex_digit(a) && is_hex_digit(b) && is_hex_digit(c) && is_hex_digit(d) {
        Some((hex_value(a) * 4096 + hex_value(b) * 256 + hex_value(c) * 16 + hex_value(d)) as u32)
    } else {
        None
    }
}

/// A value that `char::from_u32` accepts.
pub open spec fn valid_scalar(v: u32) -> bool {
    v < 0xd800 || (0xe000 <= v && v <= 0x10ffff)
}

/// `char::from_u32`: the character with that scalar value, or `None` for a
/// surrogate or a value above `0x10FFFF`.
#[verifier::external_body]
fn char_from_u32(v: u32) -> (r: Option<char>)
    ensures
        valid_scalar(v) ==> r == Some(v as char),
        !valid_scalar(v) ==> r is None,
{
    char::from_u32(v)
}

/// The character whose encoding starts at byte `i`, with the number of
/// bytes it takes: the UTF-8 scalar there, or, where the bytes there are not
/// a well-formed one, the byte alone as the character with its value.
pub open spec fn char_at(bytes: Seq<u8>, i: int) -> (char, int) {
    let rest = bytes.skip(i);
    if vstd::utf8::valid_first_scalar(rest) {
        (vstd::utf8::decode_first_scalar(rest) as char, vstd::utf8::length_of_first_scalar(rest))
    } else {
        (bytes[i] as char, 1)
    }
}

/// A character step moves forward and stays within the input.
pub proof fn lemma_char_at(bytes: Seq<u8>, i: int)
    requires
        0 <= i < bytes.len(),
    ensures
        1 <= char_at(bytes, i).1,
        i + char_at(bytes, i).1 <= bytes.len(),
{
}

/// Exec form of `char_at`.
fn char_at_exec(bytes: &[u8], i: usize) -> (r: (char, usize))
    requires
        i < bytes@.len(),
    ensures
        r.0 == char_at(bytes@, i as int).0,
        r.1 == char_at(bytes@, i as int).1,
        1 <= r.1,
        i + r.1 <= bytes@.len(),
{
    let ghost rest = bytes@.skip(i as int);
    let n = bytes.len() - i;
    let b0 = bytes[i];
    if b0 <= 0x7f {
        assert(rest[0] == b0);
        assert((b0 & 0x7f) as u32 == b0 as u32) by (bit_vector)
            requires
                b0 <= 0x7f,
        ;
        assert(vstd::utf8::decode_first_scalar(rest) == b0 as u32);
        return (b0 as char, 1);
    }
    let (v, w): (u32, usize) = if 0xc0 <= b0 && b0 <= 0xdf && n >= 2 && 0x80 <= bytes[i + 1] && bytes[i + 1]
        <= 0xbf {
        let b1 = bytes[i + 1];
        let v: u32 = (((b0 & 0x1f) as u32) << 6) | ((b1 & 0x3f) as u32);
        assert(v <= 0x7ff) by (bit_vector)
            requires
                v == (((b0 & 0x1f) as u32) << 6) | ((b1 & 0x3f) as u32),
        ;
        (v, 2)
    } else if 0xe0 <= b0 && b0 <= 0xef && n >= 3 && 0x80 <= bytes[i + 1] && bytes[i + 1] <= 0xbf
        && 0x80 <= bytes[i + 2] && bytes[i + 2] <= 0xbf {
        let b1 = bytes[i + 1];
        let b2 = bytes[i + 2];
        let v: u32 = (((b0 & 0x0f) as u32) << 12) | (((b1 & 0x3f) as u32) << 6) | ((b2 & 0x3f) as u32);
        assert(v <= 0xffff) by (bit_vector)
            requires
                v == (((b0 & 0x0f) as u32) << 12) | (((b1 & 0x3f) as u32) << 6) | ((b2 & 0x3f) as u32),
        ;
        (v, 3)
    } else if 0xf0 <= b0 && b0 <= 0xf7 && n >= 4 && 0x80 <= bytes[i + 1] && bytes[i + 1] <= 0xbf
        && 0x80 <= bytes[i + 2] && bytes[i + 2] <= 0xbf && 0x80 <= bytes[i + 3] && bytes[i + 3] <= 0xbf {
        let b1 = bytes[i + 1];
        let b2 = bytes[i + 2];
        let b3 = bytes[i + 3];
        let v: u32 = (((b0 & 0x07) as u32) << 18) | (((b1 & 0x3f) as u32) << 12) | (((b2 & 0x3f) as u32)
            << 6) | ((b3 & 0x3f) as u32);
        (v, 4)
    } else {
        assert(!vstd::utf8::valid_first_scalar(rest));
        return (b0 as char, 1);
    };
    let ok = if w == 2 {
        0x80 <= v
    } else if w == 3 {
        0x800 <= v && !(0xd800 <= v && v <= 0xdfff)
    } else {
        0x10000 <= v && v <= 0x10ffff
    };
    if ok {
        if let Some(c) = char_from_u32(v) {
            return (c, w);
        }
    }
    (b0 as char, 1)
}

/// The escape whose backslash stands at `j`: the character it stands for
/// and the position after it. `\x` takes two hex digits and `\u` four when
/// that many bytes (and one more) follow; a bad hex number or scalar refuses
/// the whole literal. Any other escaped byte stands for itself.
pub open spec fn escape_step(bytes: Seq<u8>, j: int) -> Option<(char, int)> {
    let n = bytes.len();
    let e = bytes[j + 1];
    if e == 0x6e {
        Some(('\n', j + 2))
    } else if e == 0x74 {
        Some(('\t', j + 2))
    } else if e == 0x72 {
        Some(('\r', j + 2))
    } else if e == 0x5c {
        Some(('\\', j + 2))
    } else if e == 0x27 {
        Some(('\'', j + 2))
    } else if e == 0x22 {
        Some(('"', j + 2))
    } else if e == 0x78 && j + 3 < bytes.len() {
        match hex_pair(bytes[j + 2], bytes[j + 3]) {
            Some(v) => Some((v as char, j + 4)),
            None => None,
        }
    } else if e == 0x75 && j + 5 < bytes.len() {
        match hex4(bytes[j + 2], bytes[j + 3], bytes[j + 4], bytes[j + 5]) {
            Some(v) => if valid_scalar(v) {
                Some((v as char, j + 6))
            } else {
                None
            },
            None => None,
        }
    } else {
        Some((e as char, j + 2))
    }
}

/// The rest of a literal from position `j`: the position after the closing
/// quote and the characters of the value. A raw line feed or the end of the
/// input before the closing quote refuses the literal. Bytes outside escapes
/// become the character with that byte's value.
pub open spec fn string_body(bytes: Seq<u8>, quote: u8, j: int) -> Option<(int, Seq<char>)>
    decreases bytes.len() - j,
{
    if j < 0 || j >= bytes.len() {
        None
    } else {
        let b = bytes[j];
        if b == quote {
            Some((j + 1, Seq::<char>::empty()))
        } else if b == 0x5c {
            if j + 1 >= bytes.len() {
                None
            } else {
                match escape_step(bytes, j) {
                    None => None,
                    Some((c, nj)) => if nj > j {
                        match string_body(bytes, quote, nj) {
                            None => None,
                            Some((e, r)) => Some((e, seq![c] + r)),
                        }
                    } else {
                        None
                    },
                }
            }
        } else if b == 0x0a {
            None
        } else {
            match string_body(bytes, quote, j + 1) {
                None => None,
                Some((e, r)) => Some((e, seq![b as char] + r)),
            }
        }
    }
}

/// A single- or double-quoted literal starting at `i`.
pub open spec fn spec_parse_string(bytes: Seq<u8>, i: int) -> Option<(int, Seq<char>)> {
    if i < 0 || i >= bytes.len() {
        None
    } else if bytes[i] != 0x22 && bytes[i] != 0x27 {
        None
    } else {
        string_body(bytes, bytes[i], i + 1)
    }
}

pub proof fn lemma_string_body_end(bytes: Seq<u8>, quote: u8, j: int)
    ensures
        string_body(bytes, quote, j) matches Some((e, r)) ==> j < e <= bytes.len(),
    decreases bytes.len() - j,
{
    if 0 <= j < bytes.len() {
        let b = bytes[j];
        if b == 0x5c && j + 1 < bytes.len() {
            if let Some((c, nj)) = escape_step(bytes, j) {
                if nj > j {
                    lemma_string_body_end(bytes, quote, nj);
                }
            }
        } else if b != quote && b != 0x0a && b != 0x5c {
            lemma_string_body_end(bytes, quote, j + 1);
        }
    }
}

/// A literal ends at least two bytes after it starts and within the input.
pub proof fn lemma_parse_string_end(bytes: Seq<u8>, i: int)
    ensures
        spec_parse_string(bytes, i) matches Some((e, r)) ==> i + 2 <= e <= bytes.len(),
{
    if 0 <= i < bytes.len() {
        lemma_string_body_end(bytes, bytes[i], i + 1);
    }
}

fn hex4_exec(a: u8, b: u8, c: u8, d: u8) -> (r: Option<u32>)
    ensures
        r == hex4(a, b, c, d),
{
    if a == 0x2b {
        if is_hex_byte(b) && is_hex_byte(c) && is_hex_byte(d) {
            Some((hexv(b) as u32) * 256 + (hexv(c) as u32) * 16 + (hexv(d) as u32))
        } else {
            None
        }
    } else if is_hex_byte(a) && is_hex_byte(b) && is_hex_byte(c) && is_hex_byte(d) {
        Some((hexv(a) as u32) * 4096 + (hexv(b) as u32) * 256 + (hexv(c) as u32) * 16 + (
        hexv(d) as u32))
    } else {
        None
    }
}

fn hexv(b: u8) -> (v: u8)
    requires
        is_hex_digit(b),
    ensures
        v == hex_value(b),
        v < 16,
{
    if 0x30 <= b && b <= 0x39 {
        b - 0x30
    } else if 0x41 <= b && b <= 0x46 {
        b - 0x41 + 10
    } else {
        b - 0x61 + 10
    }
}

fn hex_pair_js(a: u8, b: u8) -> (r: Option<u8>)
    ensures
        r == hex_pair(a, b),
{
    if a == 0x2b {
        if is_hex_byte(b) {
            Some(hexv(b))
        } else {
            None
        }
    } else if is_hex_byte(a) && is_hex_byte(b) {
        Some(hexv(a) * 16 + hexv(b))
    } else {
        None
    }
}

fn escape_step_exec(bytes: &[u8], j: usize) -> (r: Option<(char, usize)>)
    requires
        j + 1 < bytes@.len(),
    ensures
        match escape_step(bytes@, j as int) {
            None => r is None,
            Some((c, nj)) => r == Some((c, nj as usize)) && j + 2 <= nj <= bytes@.len(),
        },
{
    let n = bytes.len();
    let e = bytes[j + 1];
    if e == 0x6e {
        Some(('\n', j + 2))
    } else if e == 0x74 {
        Some(('\t', j + 2))
    } else if e == 0x72 {
        Some(('\r', j + 2))
    } else if e == 0x5c {
        Some(('\\', j + 2))
    } else if e == 0x27 {
        Some(('\'', j + 2))
    } else if e == 0x22 {
        Some(('"', j + 2))
    } else if e == 0x78 && n - j > 3 {
        match hex_pair_js(bytes[j + 2], bytes[j + 3]) {
            Some(v) => Some((v as char, j + 4)),
            None => None,
        }
    } else if e == 0x75 && n - j > 5 {
        match hex4_exec(bytes[j + 2], bytes[j + 3], bytes[j + 4], bytes[j + 5]) {
            Some(v) => match char_from_u32(v) {
                Some(c) => Some((c, j + 6)),
                None => None,
            },
            None => None,
        }
    } else {
        Some((e as char, j + 2))
    }
}

/// Reads the literal at `i` into a vector of characters.
pub fn parse_string_chars(bytes: &[u8], i: usize) -> (r: Option<(usize, Vec<char>)>)
    ensures
        match spec_parse_string(bytes@, i as int) {
            None => r is None,
            Some((e, v)) => r matches Some((re, rv)) && re == e && rv@ == v,
        },
{
    proof {
        lemma_parse_string_end(bytes@, i as int);
    }
    if i >= bytes.len() {
        return None;
    }
    let quote = bytes[i];
    if quote != 0x22 && quote != 0x27 {
        return None;
    }
    let mut j = i + 1;
    let mut out: Vec<char> = Vec::new();
    while j < bytes.len()
        invariant
            i < j <= bytes@.len(),
            quote == bytes@[i as int],
            string_body(bytes@, quote, j as int) matches Some((e, rest)) ==> spec_parse_string(
                bytes@,
                i as int,
            ) == Some((e, out@ + rest)),
            string_body(bytes@, quote, j as int) is None ==> spec_parse_string(bytes@, i as int)
                is None,
        decreases bytes.len() - j,
    {
        let b = bytes[j];
        let ghost before = out@;
        if b == quote {
            assert(out@ + Seq::<char>::empty() =~= out@);
            return Some((j + 1, out));
        }
        if b == 0x5c {
            if j + 1 >= bytes.len() {
                return None;
            }
            match escape_step_exec(bytes, j) {
                None => {
                    return None;
                },
                Some((c, nj)) => {
                    out.push(c);
                    proof {
                        if let Some((e, rest)) = string_body(bytes@, quote, nj as int) {
                            assert(before + (seq![c] + rest) =~= out@ + rest);
                        }
                    }
                    j = nj;
                },
            }
        } else if b == 0x0a {
            return None;
        } else {
            out.push(b as char);
            proof {
                if let Some((e, rest)) = string_body(bytes@, quote, j + 1) {
                    assert(before + (seq![b as char] + rest) =~= out@ + rest);
                }
            }
            j = j + 1;
        }
    }
    None
}

/// Builds a `String` from characters.
pub fn string_from_chars(cs: &Vec<char>) -> (s: String)
    ensures
        s@ == cs@,
{
    let mut s = String::new();
    let mut k: usize = 0;
    while k < cs.len()
        invariant
            k <= cs@.len(),
            s@ == cs@.take(k as int),
        decreases cs.len() - k,
    {
        push_char(&mut s, cs[k]);
        assert(cs@.take(k + 1) =~= cs@.take(k as int).push(cs@[k as int]));
        k = k + 1;
    }
    assert(cs@.take(cs@.len() as int) =~= cs@);
    s
}

/// Reads a single- or double-quoted string literal starting at `i`: the
/// position after its closing quote and its value. `None` when no literal
/// starts there or it is not closed on the same line.
pub fn parse_string(bytes: &[u8], i: usize) -> (r: Option<(usize, String)>)
    ensures
        match spec_parse_string(bytes@, i as int) {
            None => r is None,
            Some((e, v)) => r matches Some((re, rv)) && re == e && rv@ == v,
        },
{
    match parse_string_chars(bytes, i) {
        None => None,
        Some((e, v)) => Some((e, string_from_chars(&v))),
    }
}

// ---------------------------------------------------------------- comments

/// The first line feed at or after `j`, or the end.
pub open spec fn line_end(bytes: Seq<u8>, j: int) -> int
    decreases bytes.len() - j,
{
    if j < 0 || j >= bytes.len() || bytes[j] == 0x0a {
        j
    } else {
        line_end(bytes, j + 1)
    }
}

/// The first `*/` at or after `j`, or the last position where one could start.
pub open spec fn block_end(bytes: Seq<u8>, j: int) -> int
    decreases bytes.len() - j,
{
    if j < 0 || j + 1 >= bytes.len() || (bytes[j] == 0x2a && bytes[j + 1] == 0x2f) {
        j
    } else {
        block_end(bytes, j + 1)
    }
}

proof fn lemma_line_end(bytes: Seq<u8>, j: int)
    requires
        0 <= j,
    ensures
        j <= line_end(bytes, j),
        j <= bytes.len() ==> line_end(bytes, j) <= bytes.len(),
    decreases bytes.len() - j,
{
    if j < bytes.len() && bytes[j] != 0x0a {
        lemma_line_end(bytes, j + 1);
    }
}

proof fn lemma_block_end(bytes: Seq<u8>, j: int)
    requires
        0 <= j,
    ensures
        j <= block_end(bytes, j),
        j + 1 <= bytes.len() ==> block_end(bytes, j) + 1 <= bytes.len(),
    decreases bytes.len() - j,
{
    if !(j + 1 >= bytes.len() || (bytes[j] == 0x2a && bytes[j + 1] == 0x2f)) {
        lemma_block_end(bytes, j + 1);
    }
}

/// Where a string literal or a comment starting at `i` ends: after the
/// closing quote, at the line feed ending a `//` comment, or after the `*/`
/// of a block comment (the end of the input when it is not closed).
pub open spec fn spec_skip(bytes: Seq<u8>, i: int) -> Option<int> {
    match spec_parse_string(bytes, i) {
        Some((e, v)) => Some(e),
        None => if i + 1 < bytes.len() && bytes[i] == 0x2f && bytes[i + 1] == 0x2f {
            Some(line_end(bytes, i + 2))
        } else if i + 1 < bytes.len() && bytes[i] == 0x2f && bytes[i + 1] == 0x2a {
            let j = block_end(bytes, i + 2);
            Some(if j + 2 <= bytes.len() {
                j + 2
            } else {
                bytes.len() as int
            })
        } else {
            None
        },
    }
}

/// A skip always moves forward and stays within the input.
pub proof fn lemma_skip(bytes: Seq<u8>, i: int)
    requires
        0 <= i,
    ensures
        spec_skip(bytes, i) matches Some(k) ==> i + 2 <= k <= bytes.len(),
{
    lemma_parse_string_end(bytes, i);
    if i + 2 <= bytes.len() {
        lemma_line_end(bytes, i + 2);
        lemma_block_end(bytes, i + 2);
    }
}

fn line_end_exec(bytes: &[u8], j: usize) -> (k: usize)
    requires
        j <= bytes@.len(),
    ensures
        k == line_end(bytes@, j as int),
        j <= k <= bytes@.len(),
{
    let mut k = j;
    while k < bytes.len() && bytes[k] != 0x0a
        invariant
            j <= k <= bytes@.len(),
            line_end(bytes@, j as int) == line_end(bytes@, k as int),
        decreases bytes.len() - k,
    {
        k = k + 1;
    }
    k
}

fn block_end_exec(bytes: &[u8], j: usize) -> (k: usize)
    requires
        j <= bytes@.len(),
    ensures
        k == block_end(bytes@, j as int),
        j <= k,
        k + 1 <= bytes@.len() || k == j,
        k <= bytes@.len(),
{
    let mut k = j;
    while k < bytes.len() && bytes.len() - k > 1 && !(bytes[k] == 0x2a && bytes[k + 1] == 0x2f)
        invariant
            j <= k <= bytes@.len(),
            k > j ==> k + 1 <= bytes@.len(),
            block_end(bytes@, j as int) == block_end(bytes@, k as int),
        decreases bytes.len() - k,
    {
        k = k + 1;
    }
    k
}

/// Exec form of `spec_skip`.
pub fn skip_string_or_comment(bytes: &[u8], i: usize) -> (r: Option<usize>)
    ensures
        match spec_skip(bytes@, i as int) {
            None => r is None,
            Some(k) => r == Some(k as usize) && i + 2 <= k <= bytes@.len(),
        },
{
    proof {
        lemma_skip(bytes@, i as int);
    }
    if let Some((end, _)) = parse_string_chars(bytes, i) {
        return Some(end);
    }
    if i < bytes.len() && bytes.len() - i > 1 && bytes[i] == 0x2f && bytes[i + 1] == 0x2f {
        return Some(line_end_exec(bytes, i + 2));
    }
    if i < bytes.len() && bytes.len() - i > 1 && bytes[i] == 0x2f && bytes[i + 1] == 0x2a {
        let j = block_end_exec(bytes, i + 2);
        let end = if j <= bytes.len() && bytes.len() - j >= 2 {
            j + 2
        } else {
            bytes.len()
        };
        return Some(end);
    }
    None
}


// ---------------------------------------------------------------- from_utf8

/// `std::str::from_utf8`: the text whose bytes are exactly `bytes`, or
/// `None` when they are not well-formed UTF-8.
#[verifier::external_body]
pub(crate) fn str_from_utf8(bytes: &[u8]) -> (r: Option<&str>)
    ensures
        r is Some <==> vstd::utf8::valid_utf8(bytes@),
        r matches Some(s) ==> s.spec_bytes() == bytes@,
{
    std::str::from_utf8(bytes).ok()
}

// ---------------------------------------------------------------- eval

/// `eval` at `i`, not preceded by an identifier byte and followed by a
/// non-identifier byte, then optional whitespace and `(`.
pub open spec fn is_eval_at(bytes: Seq<u8>, i: int) -> bool {
    &&& 0 <= i
    &&& i + 4 < bytes.len()
    &&& bytes[i] == 0x65 && bytes[i + 1] == 0x76 && bytes[i + 2] == 0x61 && bytes[i + 3] == 0x6c
    &&& (i == 0 || !spec_is_ident(bytes[i - 1]))
    &&& !spec_is_ident(bytes[i + 4])
    &&& skip_ws(bytes, i + 4) < bytes.len()
    &&& bytes[skip_ws(bytes, i + 4)] == 0x28
}

/// The `eval(` sites from position `i` on, each as the range from `e` to
/// just after `(`. Strings and comments are stepped over whole.
pub open spec fn eval_hits(bytes: Seq<u8>, i: int) -> Seq<(int, int)>
    decreases bytes.len() - i,
{
    if i < 0 || i + 5 > bytes.len() {
        Seq::<(int, int)>::empty()
    } else {
        match spec_skip(bytes, i) {
            Some(k) => if i < k <= bytes.len() {
                eval_hits(bytes, k)
            } else {
                Seq::<(int, int)>::empty()
            },
            None => (if is_eval_at(bytes, i) {
                seq![(i, skip_ws(bytes, i + 4) + 1)]
            } else {
                Seq::<(int, int)>::empty()
            }) + eval_hits(bytes, i + 1),
        }
    }
}

pub open spec fn pairs_view(v: Seq<(usize, usize)>) -> Seq<(int, int)> {
    v.map_values(|p: (usize, usize)| (p.0 as int, p.1 as int))
}

proof fn lemma_pairs_view_push(v: Seq<(usize, usize)>, p: (usize, usize))
    ensures
        pairs_view(v.push(p)) == pairs_view(v) + seq![(p.0 as int, p.1 as int)],
{
    assert(pairs_view(v.push(p)) =~= pairs_view(v) + seq![(p.0 as int, p.1 as int)]);
}

pub fn find_eval_ranges_bytes(bytes: &[u8]) -> (hits: Vec<(usize, usize)>)
    ensures
        pairs_view(hits@) == eval_hits(bytes@, 0),
{
    let mut i: usize = 0;
    let mut hits: Vec<(usize, usize)> = Vec::new();
    let n = bytes.len();
    while i < n && n - i >= 5
        invariant
            i <= n,
            n == bytes@.len(),
            eval_hits(bytes@, 0) == pairs_view(hits@) + eval_hits(bytes@, i as int),
        decreases n - i,
    {
        let ghost before = hits@;
        proof {
            lemma_skip(bytes@, i as int);
        }
        if let Some(skip) = skip_string_or_comment(bytes, i) {
            i = skip;
            continue;
        }
        let mut hit = false;
        if bytes[i] == 0x65 && bytes[i + 1] == 0x76 && bytes[i + 2] == 0x61 && bytes[i + 3] == 0x6c
            && (i == 0 || !is_ident(bytes[i - 1])) {
            let after = i + 4;
            if after < n && !is_ident(bytes[after]) {
                let j = skip_ws_exec(bytes, after);
                if j < n && bytes[j] == 0x28 {
                    hits.push((i, j + 1));
                    hit = true;
                    proof {
                        lemma_pairs_view_push(before, (i, (j + 1) as usize));
                    }
                }
            }
        }
        proof {
            if hit {
                assert(is_eval_at(bytes@, i as int));
            } else {
                assert(!is_eval_at(bytes@, i as int));
                assert(hits@ == before);
            }
            assert(eval_hits(bytes@, i as int) == (if is_eval_at(bytes@, i as int) {
                seq![(i as int, skip_ws(bytes@, i + 4) + 1)]
            } else {
                Seq::<(int, int)>::empty()
            }) + eval_hits(bytes@, i + 1));
            if hit {
                assert(pairs_view(before) + eval_hits(bytes@, i as int) =~= pairs_view(hits@)
                    + eval_hits(bytes@, i + 1));
            } else {
                assert(pairs_view(before) + eval_hits(bytes@, i as int) =~= pairs_view(hits@)
                    + eval_hits(bytes@, i + 1));
            }
        }
        i = i + 1;
    }
    assert(eval_hits(bytes@, i as int) =~= Seq::<(int, int)>::empty());
    assert(pairs_view(hits@) + Seq::<(int, int)>::empty() =~= pairs_view(hits@));
    hits
}

/// The ranges of `eval(` sites outside strings and comments.
pub fn find_eval_ranges(text: &str) -> (hits: Vec<(usize, usize)>)
    ensures
        pairs_view(hits@) == eval_hits(text.spec_bytes(), 0),
{
    find_eval_ranges_bytes(text.as_bytes())
}

// ---------------------------------------------------------------- literal chains

/// Following a literal that ends at `j`: the `+ literal` links after it.
/// Gives the end of the last literal joined, the values of the joined
/// literals, and whether any was joined.
pub open spec fn chain(bytes: Seq<u8>, j: int) -> (int, Seq<char>, bool)
    decreases bytes.len() - j,
{
    let k = skip_ws(bytes, j);
    if j < 0 || k >= bytes.len() || bytes[k] != 0x2b {
        (j, Seq::<char>::empty(), false)
    } else {
        let k2 = skip_ws(bytes, k + 1);
        match spec_parse_string(bytes, k2) {
            None => (j, Seq::<char>::empty(), false),
            Some((ne, v)) => if j < ne <= bytes.len() {
                let rest = chain(bytes, ne);
                (rest.0, v + rest.1, true)
            } else {
                (j, Seq::<char>::empty(), false)
            },
        }
    }
}

pub proof fn lemma_chain(bytes: Seq<u8>, j: int)
    requires
        0 <= j <= bytes.len(),
    ensures
        j <= chain(bytes, j).0 <= bytes.len(),
        !chain(bytes, j).2 ==> chain(bytes, j).0 == j,
    decreases bytes.len() - j,
{
    let k = skip_ws(bytes, j);
    lemma_skip_ws(bytes, j);
    if k < bytes.len() && bytes[k] == 0x2b {
        let k2 = skip_ws(bytes, k + 1);
        if let Some((ne, v)) = spec_parse_string(bytes, k2) {
            if j < ne <= bytes.len() {
                lemma_chain(bytes, ne);
            }
        }
    }
}

/// Exec form of `chain`: the end, the joined values, and whether any joined.
fn follow_chain(bytes: &[u8], start: usize) -> (r: (usize, Vec<char>, bool))
    requires
        start <= bytes@.len(),
    ensures
        r.0 == chain(bytes@, start as int).0,
        r.1@ == chain(bytes@, start as int).1,
        r.2 == chain(bytes@, start as int).2,
{
    proof {
        lemma_chain(bytes@, start as int);
    }
    let mut end = start;
    let mut acc: Vec<char> = Vec::new();
    let mut joined = false;
    loop
        invariant
            start <= end <= bytes@.len(),
            chain(bytes@, start as int).0 == chain(bytes@, end as int).0,
            chain(bytes@, start as int).1 == acc@ + chain(bytes@, end as int).1,
            chain(bytes@, start as int).2 == (joined || chain(bytes@, end as int).2),
        decreases bytes@.len() - end,
    {
        let k = skip_ws_exec(bytes, end);
        if k >= bytes.len() || bytes[k] != 0x2b {
            assert(acc@ + Seq::<char>::empty() =~= acc@);
            return (end, acc, joined);
        }
        let k2 = skip_ws_exec(bytes, k + 1);
        proof {
            lemma_parse_string_end(bytes@, k2 as int);
        }
        match parse_string_chars(bytes, k2) {
            None => {
                assert(acc@ + Seq::<char>::empty() =~= acc@);
                return (end, acc, joined);
            },
            Some((ne, v)) => {
                let ghost before = acc@;
                let mut v = v;
                acc.append(&mut v);
                assert(chain(bytes@, end as int).1 == spec_parse_string(bytes@, k2 as int).unwrap().1 + chain(bytes@, ne as int).1);
                assert(before + chain(bytes@, end as int).1 =~= acc@ + chain(bytes@, ne as int).1);
                end = ne;
                joined = true;
            },
        }
    }
}

/// Literals joined by `+` from position `i` on: the range from the first
/// literal to the end of the last. Strings not so joined are stepped over.
pub open spec fn concat_hits(bytes: Seq<u8>, i: int) -> Seq<(int, int)>
    decreases bytes.len() - i,
{
    if i < 0 || i >= bytes.len() {
        Seq::<(int, int)>::empty()
    } else {
        match spec_parse_string(bytes, i) {
            Some((le, v)) => {
                let c = chain(bytes, le);
                if c.2 {
                    if i < c.0 <= bytes.len() {
                        seq![(i, c.0)] + concat_hits(bytes, c.0)
                    } else {
                        Seq::<(int, int)>::empty()
                    }
                } else if i < le <= bytes.len() {
                    concat_hits(bytes, le)
                } else {
                    Seq::<(int, int)>::empty()
                }
            },
            None => concat_hits(bytes, i + 1),
        }
    }
}

pub fn find_literal_concats_bytes(bytes: &[u8]) -> (hits: Vec<(usize, usize)>)
    ensures
        pairs_view(hits@) == concat_hits(bytes@, 0),
{
    let mut i: usize = 0;
    let mut hits: Vec<(usize, usize)> = Vec::new();
    while i < bytes.len()
        invariant
            i <= bytes@.len(),
            concat_hits(bytes@, 0) == pairs_view(hits@) + concat_hits(bytes@, i as int),
        decreases bytes@.len() - i,
    {
        let ghost before = hits@;
        proof {
            lemma_parse_string_end(bytes@, i as int);
        }
        if let Some((lit_end, _)) = parse_string_chars(bytes, i) {
            proof {
                lemma_chain(bytes@, lit_end as int);
            }
            let (end, _, joined) = follow_chain(bytes, lit_end);
            if joined {
                hits.push((i, end));
                proof {
                    lemma_pairs_view_push(before, (i, end));
                    assert(pairs_view(before) + concat_hits(bytes@, i as int) =~= pairs_view(hits@)
                        + concat_hits(bytes@, end as int));
                }
                i = end;
                continue;
            }
            i = lit_end;
            continue;
        }
        i = i + 1;
    }
    assert(concat_hits(bytes@, i as int) =~= Seq::<(int, int)>::empty());
    assert(pairs_view(hits@) + Seq::<(int, int)>::empty() =~= pairs_view(hits@));
    hits
}

/// The ranges of string literals joined by `+`, from the first literal to
/// the end of the last.
pub fn find_literal_concats(text: &str) -> (hits: Vec<(usize, usize)>)
    ensures
        pairs_view(hits@) == concat_hits(text.spec_bytes(), 0),
{
    find_literal_concats_bytes(text.as_bytes())
}

// ---------------------------------------------------------------- folding

/// How a character is written inside a double-quoted literal.
pub open spec fn escape_char(c: char) -> Seq<char> {
    if c == '\\' {
        seq!['\\', '\\']
    } else if c == '"' {
        seq!['\\', '"']
    } else if c == '\n' {
        seq!['\\', 'n']
    } else if c == '\r' {
        seq!['\\', 'r']
    } else if c == '\t' {
        seq!['\\', 't']
    } else {
        seq![c]
    }
}

pub open spec fn escape_chars(s: Seq<char>) -> Seq<char>
    decreases s.len(),
{
    if s.len() == 0 {
        Seq::<char>::empty()
    } else {
        escape_chars(s.drop_last()) + escape_char(s.last())
    }
}

/// Appends `cs`, escaped for a double-quoted literal, to `out`.
fn push_escaped(out: &mut String, cs: &Vec<char>)
    ensures
        final(out)@ == old(out)@ + escape_chars(cs@),
{
    let mut k: usize = 0;
    while k < cs.len()
        invariant
            k <= cs@.len(),
            out@ == old(out)@ + escape_chars(cs@.take(k as int)),
        decreases cs.len() - k,
    {
        let c = cs[k];
        let ghost before = out@;
        if c == '\\' {
            push_char(out, '\\');
            push_char(out, '\\');
        } else if c == '"' {
            push_char(out, '\\');
            push_char(out, '"');
        } else if c == '\n' {
            push_char(out, '\\');
            push_char(out, 'n');
        } else if c == '\r' {
            push_char(out, '\\');
            push_char(out, 'r');
        } else if c == '\t' {
            push_char(out, '\\');
            push_char(out, 't');
        } else {
            push_char(out, c);
        }
        assert(cs@.take(k + 1).drop_last() =~= cs@.take(k as int));
        assert(out@ =~= old(out)@ + escape_chars(cs@.take(k + 1)));
        k = k + 1;
    }
    assert(cs@.take(cs@.len() as int) =~= cs@);
}

/// The text with every chain of `+`-joined literals replaced by one
/// double-quoted literal holding their joined value. A literal that starts
/// no chain is copied whole (see `copy_segment`), and other text character
/// by character (see `char_at`).
pub open spec fn fold_out(bytes: Seq<u8>, i: int) -> Seq<char>
    decreases bytes.len() - i,
{
    if i < 0 || i >= bytes.len() {
        Seq::<char>::empty()
    } else {
        match spec_parse_string(bytes, i) {
            Some((end, v)) => {
                let c = chain(bytes, end);
                if c.2 && i < c.0 <= bytes.len() {
                    seq!['"'] + escape_chars(v + c.1) + seq!['"'] + fold_out(bytes, c.0)
                } else if i < end <= bytes.len() {
                    copy_segment(bytes, i, end) + fold_out(bytes, end)
                } else {
                    let (ch, n) = char_at(bytes, i);
                    seq![ch] + fold_out(bytes, i + n)
                }
            },
            None => {
                let (ch, n) = char_at(bytes, i);
                seq![ch] + fold_out(bytes, i + n)
            },
        }
    }
}

pub fn fold_literal_concats_bytes(bytes: &[u8]) -> (out: String)
    ensures
        out@ == fold_out(bytes@, 0),
{
    let mut out = String::new();
    let mut i: usize = 0;
    while i < bytes.len()
        invariant
            i <= bytes@.len(),
            fold_out(bytes@, 0) == out@ + fold_out(bytes@, i as int),
        decreases bytes@.len() - i,
    {
        let ghost before = out@;
        proof {
            lemma_parse_string_end(bytes@, i as int);
        }
        if let Some((end, value)) = parse_string_chars(bytes, i) {
            proof {
                lemma_chain(bytes@, end as int);
            }
            let (last, extra, folded) = follow_chain(bytes, end);
            if folded {
                let mut acc = value;
                let mut extra = extra;
                let ghost v0 = acc@;
                let ghost e0 = extra@;
                acc.append(&mut extra);
                push_char(&mut out, '"');
                push_escaped(&mut out, &acc);
                push_char(&mut out, '"');
                assert(acc@ == v0 + e0);
                assert(before + (seq!['"'] + escape_chars(acc@) + seq!['"'] + fold_out(
                    bytes@,
                    last as int,
                )) =~= out@ + fold_out(bytes@, last as int));
                i = last;
                continue;
            }
            let seg = slice_subrange(bytes, i, end);
            let ghost segc = copy_segment(bytes@, i as int, end as int);
            match str_from_utf8(seg) {
                Some(text) => {
                    proof {
                        vstd::utf8::encode_utf8_decode_utf8(text@);
                    }
                    out.append(text);
                },
                None => {},
            }
            assert(before + (segc + fold_out(bytes@, end as int)) =~= out@ + fold_out(bytes@, end as int));
            i = end;
            continue;
        }
        let (ch, n) = char_at_exec(bytes, i);
        push_char(&mut out, ch);
        assert(before + (seq![ch] + fold_out(bytes@, i + n)) =~= out@ + fold_out(bytes@, i + n));
        i = i + n;
    }
    assert(fold_out(bytes@, i as int) =~= Seq::<char>::empty());
    assert(out@ + Seq::<char>::empty() =~= out@);
    out
}

/// Rewrites each chain of string literals joined by `+` as one literal.
pub fn fold_literal_concats(text: &str) -> (out: String)
    ensures
        out@ == fold_out(text.spec_bytes(), 0),
{
    fold_literal_concats_bytes(text.as_bytes())
}

// ---------------------------------------------------------------- escapes

/// `\x` or `\u` somewhere in `bytes[i..end]`.
pub open spec fn has_escape_window(bytes: Seq<u8>, i: int, end: int) -> bool {
    exists|k: int|
        i <= k && k + 1 < end && #[trigger] bytes[k] == 0x5c && (bytes[k + 1] == 0x78 || bytes[k
            + 1] == 0x75)
}

/// String literals from position `i` on that hold a `\x` or `\u` escape
/// and a non-empty value.
pub open spec fn escape_hits(bytes: Seq<u8>, i: int) -> Seq<(int, int)>
    decreases bytes.len() - i,
{
    if i < 0 || i >= bytes.len() {
        Seq::<(int, int)>::empty()
    } else {
        match spec_parse_string(bytes, i) {
            Some((end, v)) => if i < end <= bytes.len() {
                (if has_escape_window(bytes, i, end) && v.len() >= 1 {
                    seq![(i, end)]
                } else {
                    Seq::<(int, int)>::empty()
                }) + escape_hits(bytes, end)
            } else {
                Seq::<(int, int)>::empty()
            },
            None => escape_hits(bytes, i + 1),
        }
    }
}

fn has_escape_window_exec(bytes: &[u8], i: usize, end: usize) -> (r: bool)
    requires
        i <= end <= bytes@.len(),
    ensures
        r == has_escape_window(bytes@, i as int, end as int),
{
    let mut k = i;
    while k < end && end - k > 1
        invariant
            i <= k <= end,
            end <= bytes@.len(),
            forall|m: int|
                i <= m < k ==> !(#[trigger] bytes@[m] == 0x5c && (bytes@[m + 1] == 0x78 || bytes@[m
                    + 1] == 0x75)),
        decreases end - k,
    {
        if bytes[k] == 0x5c && (bytes[k + 1] == 0x78 || bytes[k + 1] == 0x75) {
            return true;
        }
        k = k + 1;
    }
    false
}

pub fn find_js_escapes_bytes(bytes: &[u8]) -> (hits: Vec<(usize, usize)>)
    ensures
        pairs_view(hits@) == escape_hits(bytes@, 0),
{
    let mut i: usize = 0;
    let mut hits: Vec<(usize, usize)> = Vec::new();
    while i < bytes.len()
        invariant
            i <= bytes@.len(),
            escape_hits(bytes@, 0) == pairs_view(hits@) + escape_hits(bytes@, i as int),
        decreases bytes@.len() - i,
    {
        let ghost before = hits@;
        proof {
            lemma_parse_string_end(bytes@, i as int);
        }
        if let Some((end, value)) = parse_string_chars(bytes, i) {
            if has_escape_window_exec(bytes, i, end) && value.len() >= 1 {
                hits.push((i, end));
                proof {
                    lemma_pairs_view_push(before, (i, end));
                }
            }
            assert(pairs_view(before) + escape_hits(bytes@, i as int) =~= pairs_view(hits@)
                + escape_hits(bytes@, end as int));
            i = end;
            continue;
        }
        i = i + 1;
    }
    assert(escape_hits(bytes@, i as int) =~= Seq::<(int, int)>::empty());
    assert(pairs_view(hits@) + Seq::<(int, int)>::empty() =~= pairs_view(hits@));
    hits
}

/// The ranges of string literals that use `\x` or `\u` escapes.
pub fn find_js_escapes(text: &str) -> (hits: Vec<(usize, usize)>)
    ensures
        pairs_view(hits@) == escape_hits(text.spec_bytes(), 0),
{
    find_js_escapes_bytes(text.as_bytes())
}

// ---------------------------------------------------------------- pretty print

/// Two spaces per level.
pub open spec fn indent(depth: nat) -> Seq<char> {
    Seq::new(2 * depth, |k: int| ' ')
}

/// The characters of a string or comment copied whole; nothing when the
/// bytes are not well-formed UTF-8.
pub open spec fn copy_segment(bytes: Seq<u8>, i: int, k: int) -> Seq<char> {
    let seg = bytes.subrange(i, k);
    if vstd::utf8::valid_utf8(seg) {
        vstd::utf8::decode_utf8(seg)
    } else {
        Seq::<char>::empty()
    }
}

/// A `//` comment starts at `i`.
pub open spec fn line_comment_at(bytes: Seq<u8>, i: int) -> bool {
    0 <= i && i + 1 < bytes.len() && bytes[i] == 0x2f && bytes[i + 1] == 0x2f
}

/// Re-indented text from position `i`, given the brace depth, whether the
/// last thing written was a space (or an indent), and whether the output so
/// far ends in a line feed. Strings and comments are copied whole, and the
/// line feed that ends a `//` comment starts a new line as `;` does; `{`,
/// `}` and `;` break lines; runs of spaces, tabs and line breaks become one
/// space; other text is copied character by character (see `char_at`).
pub open spec fn pretty_from(bytes: Seq<u8>, i: int, depth: nat, last_space: bool, ends_nl: bool) -> Seq<char>
    decreases bytes.len() - i,
{
    if i < 0 || i >= bytes.len() {
        Seq::<char>::empty()
    } else {
        match spec_skip(bytes, i) {
            Some(k) => if i < k < bytes.len() && line_comment_at(bytes, i) {
                copy_segment(bytes, i, k) + seq!['\n'] + indent(depth) + pretty_from(
                    bytes,
                    k + 1,
                    depth,
                    true,
                    depth == 0,
                )
            } else if i < k <= bytes.len() {
                let seg = copy_segment(bytes, i, k);
                seg + pretty_from(
                    bytes,
                    k,
                    depth,
                    false,
                    if seg.len() > 0 {
                        seg.last() == '\n'
                    } else {
                        ends_nl
                    },
                )
            } else {
                Seq::<char>::empty()
            },
            None => {
                let b = bytes[i];
                if b == 0x7b {
                    seq!['{', '\n'] + indent(depth + 1) + pretty_from(bytes, i + 1, depth + 1, true, false)
                } else if b == 0x7d {
                    let d: nat = if depth > 0 {
                        (depth - 1) as nat
                    } else {
                        0
                    };
                    (if ends_nl {
                        Seq::<char>::empty()
                    } else {
                        seq!['\n']
                    }) + indent(d) + seq!['}'] + pretty_from(bytes, i + 1, d, false, false)
                } else if b == 0x3b {
                    seq![';', '\n'] + indent(depth) + pretty_from(bytes, i + 1, depth, true, depth == 0)
                } else if b == 0x20 || b == 0x0a || b == 0x0d || b == 0x09 {
                    if !last_space {
                        seq![' '] + pretty_from(bytes, i + 1, depth, true, false)
                    } else {
                        pretty_from(bytes, i + 1, depth, last_space, ends_nl)
                    }
                } else {
                    let (ch, n) = char_at(bytes, i);
                    seq![ch] + pretty_from(bytes, i + n, depth, false, false)
                }
            },
        }
    }
}

fn push_indent(out: &mut String, depth: usize)
    ensures
        final(out)@ == old(out)@ + indent(depth as nat),
{
    let mut k: usize = 0;
    while k < depth
        invariant
            k <= depth,
            out@ == old(out)@ + Seq::new(2 * k as nat, |m: int| ' '),
        decreases depth - k,
    {
        push_char(out, ' ');
        push_char(out, ' ');
        k = k + 1;
        assert(out@ =~= old(out)@ + Seq::new(2 * k as nat, |m: int| ' '));
    }
    assert(Seq::new(2 * depth as nat, |m: int| ' ') =~= indent(depth as nat));
}

#[verifier::spinoff_prover]
#[verifier::rlimit(40)]
pub fn pretty_print_bytes(bytes: &[u8]) -> (out: String)
    ensures
        out@ == pretty_from(bytes@, 0, 0, false, false),
{
    let mut out = String::new();
    let mut i: usize = 0;
    let mut depth: usize = 0;
    let mut last_space = false;
    let mut ends_nl = false;
    while i < bytes.len()
        invariant
            i <= bytes@.len(),
            depth <= i,
            pretty_from(bytes@, 0, 0, false, false) == out@ + pretty_from(
                bytes@,
                i as int,
                depth as nat,
                last_space,
                ends_nl,
            ),
        decreases bytes@.len() - i,
    {
        let ghost before = out@;
        proof {
            lemma_skip(bytes@, i as int);
        }
        if let Some(k) = skip_string_or_comment(bytes, i) {
            let seg = slice_subrange(bytes, i, k);
            let ghost segc = copy_segment(bytes@, i as int, k as int);
            match str_from_utf8(seg) {
                Some(text) => {
                    proof {
                        vstd::utf8::encode_utf8_decode_utf8(text@);
                    }
                    out.append(text);
                    let count = text.unicode_len();
                    if count > 0 {
                        ends_nl = text.get_char(count - 1) == '\n';
                    }
                },
                None => {},
            }
            if k < bytes.len() && bytes[i] == 0x2f && bytes[i + 1] == 0x2f {
                push_char(&mut out, '\n');
                push_indent(&mut out, depth);
                assert(before + (segc + seq!['\n'] + indent(depth as nat) + pretty_from(
                    bytes@,
                    k + 1,
                    depth as nat,
                    true,
                    depth == 0,
                )) =~= out@ + pretty_from(bytes@, k + 1, depth as nat, true, depth == 0));
                last_space = true;
                ends_nl = depth == 0;
                i = k + 1;
                continue;
            }
            assert(before + (segc + pretty_from(bytes@, k as int, depth as nat, false, ends_nl))
                =~= out@ + pretty_from(bytes@, k as int, depth as nat, false, ends_nl));
            last_space = false;
            i = k;
            continue;
        }
        let b = bytes[i];
        let ghost d0 = depth;
        let ghost ls0 = last_space;
        let ghost nl0 = ends_nl;
        if b == 0x7b {
            push_char(&mut out, '{');
            depth = depth + 1;
            push_char(&mut out, '\n');
            push_indent(&mut out, depth);
            last_space = true;
            ends_nl = false;
        } else if b == 0x7d {
            depth = if depth > 0 {
                depth - 1
            } else {
                0
            };
            if !ends_nl {
                push_char(&mut out, '\n');
            }
            push_indent(&mut out, depth);
            push_char(&mut out, '}');
            last_space = false;
            ends_nl = false;
        } else if b == 0x3b {
            push_char(&mut out, ';');
            push_char(&mut out, '\n');
            push_indent(&mut out, depth);
            last_space = true;
            ends_nl = depth == 0;
        } else if b == 0x20 || b == 0x0a || b == 0x0d || b == 0x09 {
            if !last_space {
                push_char(&mut out, ' ');
                last_space = true;
                ends_nl = false;
            }
        } else {
            let (ch, n) = char_at_exec(bytes, i);
            push_char(&mut out, ch);
            assert(before + pretty_from(bytes@, i as int, d0 as nat, ls0, nl0) =~= out@ + pretty_from(
                bytes@,
                i + n,
                depth as nat,
                false,
                false,
            ));
            last_space = false;
            ends_nl = false;
            i = i + n;
            continue;
        }
        assert(before + pretty_from(bytes@, i as int, d0 as nat, ls0, nl0) =~= out@ + pretty_from(
            bytes@,
            i + 1,
            depth as nat,
            last_space,
            ends_nl,
        ));
        i = i + 1;
    }
    assert(pretty_from(bytes@, i as int, depth as nat, last_space, ends_nl) =~= Seq::<char>::empty());
    assert(out@ + Seq::<char>::empty() =~= out@);
    out
}

/// Re-indents JavaScript text; see `pretty_from`.
pub fn pretty_print(text: &str) -> (out: String)
    ensures
        out@ == pretty_from(text.spec_bytes(), 0, 0, false, false),
{
    pretty_print_bytes(text.as_bytes())
}

// ---------------------------------------------------------------- minified

pub open spec fn count_byte(b: Seq<u8>, x: u8) -> nat
    decreases b.len(),
{
    if b.len() == 0 {
        0
    } else {
        count_byte(b.drop_last(), x) + if b.last() == x {
            1nat
        } else {
            0nat
        }
    }
}

/// Carriage returns directly followed by a line feed.
pub open spec fn count_crlf(b: Seq<u8>) -> nat
    decreases b.len(),
{
    if b.len() < 2 {
        0
    } else {
        count_crlf(b.drop_last()) + if b[b.len() - 2] == 0x0d && b.last() == 0x0a {
            1nat
        } else {
            0nat
        }
    }
}

/// The number of lines `str::lines` yields: one per line feed, and one more
/// for text after the last line feed.
pub open spec fn line_count(b: Seq<u8>) -> nat {
    count_byte(b, 0x0a) + if b.len() > 0 && b.last() != 0x0a {
        1nat
    } else {
        0nat
    }
}

/// The bytes in those lines: all bytes but the line feeds and the carriage
/// returns that precede them.
pub open spec fn line_bytes(b: Seq<u8>) -> int {
    b.len() - count_byte(b, 0x0a) - count_crlf(b)
}

/// `char::is_whitespace`: the Unicode White_Space property.
pub open spec fn is_unicode_ws(c: char) -> bool {
    let v = c as u32;
    (0x09 <= v && v <= 0x0d) || v == 0x20 || v == 0x85 || v == 0xa0 || v == 0x1680 || (0x2000 <= v
        && v <= 0x200a) || v == 0x2028 || v == 0x2029 || v == 0x202f || v == 0x205f || v == 0x3000
}

pub open spec fn count_ws(cs: Seq<char>) -> nat
    decreases cs.len(),
{
    if cs.len() == 0 {
        0
    } else {
        count_ws(cs.drop_last()) + if is_unicode_ws(cs.last()) {
            1nat
        } else {
            0nat
        }
    }
}

/// At least 80 bytes, lines of at least 180 bytes on average, and fewer
/// than 12 whitespace characters per 100 bytes.
pub open spec fn spec_looks_minified(cs: Seq<char>) -> bool {
    let b = vstd::utf8::encode_utf8(cs);
    &&& b.len() >= 80
    &&& line_count(b) > 0
    &&& line_bytes(b) >= 180 * line_count(b)
    &&& count_ws(cs) * 100 < 12 * b.len()
}

pub fn is_unicode_ws_exec(c: char) -> (r: bool)
    ensures
        r == is_unicode_ws(c),
{
    let v = c as u32;
    (0x09 <= v && v <= 0x0d) || v == 0x20 || v == 0x85 || v == 0xa0 || v == 0x1680 || (0x2000 <= v
        && v <= 0x200a) || v == 0x2028 || v == 0x2029 || v == 0x202f || v == 0x205f || v == 0x3000
}

proof fn lemma_counts_bounded(b: Seq<u8>)
    ensures
        count_byte(b, 0x0a) <= b.len(),
        count_crlf(b) + count_byte(b, 0x0a) + (if b.len() > 0 && b.last() == 0x0d {
            1int
        } else {
            0int
        }) <= b.len(),
        count_crlf(b) <= count_byte(b, 0x0a),
        b.len() > 0 && b.last() != 0x0a ==> count_byte(b, 0x0a) < b.len(),
    decreases b.len(),
{
    if b.len() > 0 {
        lemma_counts_bounded(b.drop_last());
        if b.len() >= 2 {
            assert(b.drop_last().last() == b[b.len() - 2]);
        }
    }
}

/// The number of lines of `bytes` and the bytes in them, as `str::lines`
/// counts them; see `line_count` and `line_bytes`.
pub fn line_stats(bytes: &[u8]) -> (r: (usize, usize))
    ensures
        r.0 == line_count(bytes@),
        r.1 == line_bytes(bytes@),
        r.1 <= bytes@.len(),
{
    let len = bytes.len();
    let mut newlines: usize = 0;
    let mut crlf: usize = 0;
    let mut i: usize = 0;
    while i < len
        invariant
            i <= len,
            len == bytes@.len(),
            newlines == count_byte(bytes@.take(i as int), 0x0a),
            crlf == count_crlf(bytes@.take(i as int)),
            newlines <= i,
            crlf <= newlines,
        decreases len - i,
    {
        proof {
            lemma_counts_bounded(bytes@.take(i as int));
            assert(bytes@.take(i + 1).drop_last() =~= bytes@.take(i as int));
        }
        if bytes[i] == 0x0a {
            if i > 0 && bytes[i - 1] == 0x0d {
                crlf = crlf + 1;
            }
            newlines = newlines + 1;
        }
        i = i + 1;
    }
    assert(bytes@.take(len as int) =~= bytes@);
    proof {
        lemma_counts_bounded(bytes@);
    }
    let lines = newlines + if len > 0 && bytes[len - 1] != 0x0a {
        1usize
    } else {
        0usize
    };
    (lines, len - newlines - crlf)
}

/// Whether the text looks like minified JavaScript; see `spec_looks_minified`.
pub fn looks_minified(text: &str) -> (r: bool)
    ensures
        r == spec_looks_minified(text@),
{
    let bytes = text.as_bytes();
    let len = bytes.len();
    if len < 80 {
        return false;
    }
    let (lines, sum) = line_stats(bytes);
    let mut ws: usize = 0;
    proof {
        crate::text::lemma_chars_le_bytes(text@);
    }
    for c in it: text.chars()
        invariant
            it.seq() == text@,
            ws == count_ws(it.seq().take(it.index() as int)),
            ws <= it.index(),
            text@.len() <= len,
    {
        proof {
            assert(it.seq().take(it.index() + 1).drop_last() =~= it.seq().take(it.index() as int));
        }
        if is_unicode_ws_exec(c) {
            ws = ws + 1;
        }
    }
    proof {
        assert(text@.take(text@.len() as int) =~= text@);
    }
    (sum as u128) >= 180 * (lines as u128) && (ws as u128) * 100 < 12 * (len as u128)
}
} // verus!

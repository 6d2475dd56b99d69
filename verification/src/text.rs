//! Text helpers shared by the engine: excerpts and previews of raw bytes.

use vstd::prelude::*;
use vstd::utf8::{decode_utf8, encode_utf8, valid_utf8};

use crate::info::MAX_PREVIEW_BYTES;
use crate::js::{is_unicode_ws, is_unicode_ws_exec, str_from_utf8};

verus! {

/// Longest excerpt, in bytes of input, that an evidence record may carry.
pub const MAX_EXCERPT_BYTES: usize = 2048;

/// Appends one character to a `String`, through `String::push`.
///
/// `String::push` appends the given `char` to the end of the string; the
/// contract says exactly that of the character view.
#[verifier::external_body]
pub(crate) fn push_char(s: &mut String, c: char)
    ensures
        final(s)@ == old(s)@.push(c),
{
    s.push(c);
}

/// The character an excerpt shows for one byte: printable ASCII as itself,
/// anything else as a middle dot.
pub open spec fn excerpt_char(b: u8) -> char {
    if 0x20 <= b && b <= 0x7e {
        b as char
    } else {
        '\u{b7}'
    }
}

pub open spec fn min_int(a: int, b: int) -> int {
    if a <= b { a } else { b }
}

/// What `excerpt` shows of `bytes[start..end]`, both bounds clamped to the
/// input, at most `MAX_EXCERPT_BYTES` bytes of it.
pub open spec fn spec_excerpt(bytes: Seq<u8>, start: int, end: int) -> Seq<char> {
    let e = min_int(end, bytes.len() as int);
    let s = min_int(start, e);
    let take = min_int(e - s, MAX_EXCERPT_BYTES as int);
    Seq::new(take as nat, |k: int| excerpt_char(bytes[s + k]))
}

fn excerpt_byte(b: u8) -> (c: char)
    ensures
        c == excerpt_char(b),
{
    if 0x20 <= b && b <= 0x7e {
        b as char
    } else {
        '\u{b7}'
    }
}

/// Shows `bytes[start..end]` as text: printable ASCII stays, every other byte
/// becomes a middle dot, and at most `MAX_EXCERPT_BYTES` bytes are shown.
pub fn excerpt(bytes: &[u8], start: usize, end: usize) -> (out: String)
    ensures
        out@ == spec_excerpt(bytes@, start as int, end as int),
{
    let e = if end < bytes.len() { end } else { bytes.len() };
    let s = if start < e { start } else { e };
    let take = if e - s < MAX_EXCERPT_BYTES { e - s } else { MAX_EXCERPT_BYTES };
    let mut out = String::new();
    let mut k: usize = 0;
    while k < take
        invariant
            k <= take,
            s + take <= bytes@.len(),
            bytes@.len() <= usize::MAX,
            out@ == Seq::new(k as nat, |j: int| excerpt_char(bytes@[s + j])),
        decreases take - k,
    {
        let c = excerpt_byte(bytes[s + k]);
        push_char(&mut out, c);
        k = k + 1;
        assert(out@ =~= Seq::new(k as nat, |j: int| excerpt_char(bytes@[s + j])));
    }
    out
}

} // verus!

verus! {

/// A text has no more characters than bytes.
pub proof fn lemma_chars_le_bytes(cs: Seq<char>)
    ensures
        cs.len() <= vstd::utf8::encode_utf8(cs).len(),
    decreases cs.len(),
{
    if cs.len() > 0 {
        lemma_chars_le_bytes(cs.drop_first());
    }
}

} // verus!

verus! {

/// The characters of a text, in a vector.
pub fn chars_of(text: &str) -> (v: Vec<char>)
    ensures
        v@ == text@,
{
    let mut v: Vec<char> = Vec::new();
    for c in it: text.chars()
        invariant
            it.seq() == text@,
            v@ == it.seq().take(it.index() as int),
    {
        proof {
            assert(it.seq().take(it.index() + 1) =~= it.seq().take(it.index() as int).push(c));
        }
        v.push(c);
    }
    proof {
        assert(text@.take(text@.len() as int) =~= text@);
    }
    v
}

/// `needle` occurs in `hay` starting at `k`.
pub open spec fn occurs_at<T>(hay: Seq<T>, needle: Seq<T>, k: int) -> bool {
    0 <= k && k + needle.len() <= hay.len() && hay.subrange(k, k + needle.len()) == needle
}

pub open spec fn seq_contains<T>(hay: Seq<T>, needle: Seq<T>) -> bool {
    exists|k: int| occurs_at(hay, needle, k)
}

/// The first position where `needle` occurs, if any.
pub open spec fn first_occurrence<T>(hay: Seq<T>, needle: Seq<T>) -> Option<int> {
    if seq_contains(hay, needle) {
        Some(choose|k: int| occurs_at(hay, needle, k) && forall|m: int| 0 <= m < k ==> !occurs_at(hay, needle, m))
    } else {
        None
    }
}

fn matches_at(hay: &Vec<char>, needle: &Vec<char>, k: usize) -> (r: bool)
    requires
        k + needle@.len() <= hay@.len(),
    ensures
        r == occurs_at(hay@, needle@, k as int),
{
    let hl = hay.len();
    let mut m: usize = 0;
    while m < needle.len()
        invariant
            hl == hay@.len(),
            m <= needle@.len(),
            k + needle@.len() <= hay@.len(),
            forall|j: int| 0 <= j < m ==> hay@[k + j] == needle@[j],
        decreases needle.len() - m,
    {
        if hay[k + m] != needle[m] {
            assert(hay@.subrange(k as int, k + needle@.len())[m as int] != needle@[m as int]);
            return false;
        }
        m = m + 1;
    }
    assert(hay@.subrange(k as int, k + needle@.len()) =~= needle@);
    true
}

/// The first position at which `needle` occurs in `hay`.
pub fn find_chars(hay: &Vec<char>, needle: &Vec<char>) -> (r: Option<usize>)
    ensures
        match first_occurrence(hay@, needle@) {
            None => r is None,
            Some(k) => r == Some(k as usize),
        },
        r matches Some(k) ==> occurs_at(hay@, needle@, k as int),
        r is None ==> !seq_contains(hay@, needle@),
{
    if needle.len() > hay.len() {
        assert(!seq_contains(hay@, needle@));
        return None;
    }
    let last = hay.len() - needle.len();
    let mut k: usize = 0;
    loop
        invariant
            last == hay@.len() - needle@.len(),
            k <= last,
            forall|m: int| 0 <= m < k ==> !occurs_at(hay@, needle@, m),
        ensures
            forall|m: int| 0 <= m <= last ==> !occurs_at(hay@, needle@, m),
        decreases last + 1 - k,
    {
        if matches_at(hay, needle, k) {
            assert(seq_contains(hay@, needle@));
            let ghost f = first_occurrence(hay@, needle@).unwrap();
            assert(occurs_at(hay@, needle@, f) && forall|m: int| 0 <= m < f ==> !occurs_at(hay@, needle@, m));
            assert(f == k) by {
                if f < k {
                    assert(!occurs_at(hay@, needle@, f));
                }
                if f > k {
                    assert(!occurs_at(hay@, needle@, k as int));
                }
            }
            return Some(k);
        }
        if k == last {
            break;
        }
        k = k + 1;
    }
    assert(!seq_contains(hay@, needle@)) by {
        if seq_contains(hay@, needle@) {
            let w = choose|w: int| occurs_at(hay@, needle@, w);
            assert(!occurs_at(hay@, needle@, w));
        }
    }
    None
}

/// Whether `needle` occurs in `hay`.
pub fn contains_chars(hay: &Vec<char>, needle: &Vec<char>) -> (r: bool)
    ensures
        r == seq_contains(hay@, needle@),
{
    match find_chars(hay, needle) {
        Some(k) => {
            assert(occurs_at(hay@, needle@, k as int));
            true
        },
        None => false,
    }
}

/// Whether the text contains the literal `needle`.
pub fn text_contains(hay: &Vec<char>, needle: &str) -> (r: bool)
    ensures
        r == seq_contains(hay@, needle@),
{
    let n = chars_of(needle);
    contains_chars(hay, &n)
}

/// Whether two byte strings are equal.
pub fn bytes_eq(a: &[u8], b: &[u8]) -> (r: bool)
    ensures
        r == (a@ == b@),
{
    if a.len() != b.len() {
        return false;
    }
    let mut k: usize = 0;
    while k < a.len()
        invariant
            k <= a@.len(),
            a@.len() == b@.len(),
            forall|m: int| 0 <= m < k ==> a@[m] == b@[m],
        decreases a.len() - k,
    {
        if a[k] != b[k] {
            return false;
        }
        k = k + 1;
    }
    assert(a@ =~= b@);
    true
}

/// Whether two strings hold the same characters.
pub fn str_eq(a: &str, b: &str) -> (r: bool)
    ensures
        r == (a@ == b@),
{
    let r = bytes_eq(a.as_bytes(), b.as_bytes());
    proof {
        vstd::utf8::encode_utf8_decode_utf8(a@);
        vstd::utf8::encode_utf8_decode_utf8(b@);
    }
    r
}

/// The UTF-8 bytes of a string.
pub fn string_bytes(s: &String) -> (v: Vec<u8>)
    ensures
        v@ == encode_utf8(s@),
{
    vstd::slice::slice_to_vec(s.as_str().as_bytes())
}

fn bytes_match_at(hay: &[u8], needle: &[u8], k: usize) -> (r: bool)
    requires
        k + needle@.len() <= hay@.len(),
    ensures
        r == occurs_at(hay@, needle@, k as int),
{
    let nl = needle.len();
    let hl = hay.len();
    let mut m: usize = 0;
    while m < nl
        invariant
            nl == needle@.len(),
            hl == hay@.len(),
            m <= needle@.len(),
            k + needle@.len() <= hay@.len(),
            forall|j: int| 0 <= j < m ==> hay@[k + j] == needle@[j],
        decreases nl - m,
    {
        if hay[k + m] != needle[m] {
            assert(hay@.subrange(k as int, k + needle@.len())[m as int] != needle@[m as int]);
            return false;
        }
        m = m + 1;
    }
    assert(hay@.subrange(k as int, k + needle@.len()) =~= needle@);
    true
}

/// Whether `needle` occurs somewhere in `hay`.
pub fn bytes_contain(hay: &[u8], needle: &[u8]) -> (r: bool)
    ensures
        r == seq_contains(hay@, needle@),
{
    if needle.len() > hay.len() {
        return false;
    }
    let last = hay.len() - needle.len();
    let mut k: usize = 0;
    loop
        invariant
            last == hay@.len() - needle@.len(),
            k <= last,
            forall|m: int| 0 <= m < k ==> !occurs_at(hay@, needle@, m),
        ensures
            forall|m: int| 0 <= m <= last ==> !occurs_at(hay@, needle@, m),
        decreases last + 1 - k,
    {
        if bytes_match_at(hay, needle, k) {
            return true;
        }
        if k == last {
            break;
        }
        k = k + 1;
    }
    assert(!seq_contains(hay@, needle@)) by {
        if seq_contains(hay@, needle@) {
            let w = choose|w: int| occurs_at(hay@, needle@, w);
            assert(!occurs_at(hay@, needle@, w));
        }
    }
    false
}

/// How a preview shows one character: NUL as a middle dot.
pub open spec fn preview_char(c: char) -> char {
    if c == '\0' {
        '\u{b7}'
    } else {
        c
    }
}

/// What `text_preview` shows: the first `MAX_PREVIEW_BYTES` bytes as text
/// with NUL shown as a middle dot when they are UTF-8, else their excerpt.
pub open spec fn spec_text_preview(bytes: Seq<u8>) -> Seq<char> {
    let take = min_int(bytes.len() as int, MAX_PREVIEW_BYTES as int);
    let head = bytes.take(take);
    if valid_utf8(head) {
        decode_utf8(head).map_values(|c: char| preview_char(c))
    } else {
        spec_excerpt(bytes, 0, take)
    }
}

/// The text with every NUL shown as a middle dot.
pub fn nul_as_dot(text: &str) -> (out: String)
    ensures
        out@ == text@.map_values(|c: char| preview_char(c)),
{
    let mut out = String::new();
    for c in it: text.chars()
        invariant
            it.seq() == text@,
            out@ == it.seq().take(it.index() as int).map_values(|c: char| preview_char(c)),
    {
        let shown = if c == '\0' {
            '\u{b7}'
        } else {
            c
        };
        push_char(&mut out, shown);
        proof {
            assert(it.seq().take(it.index() + 1) =~= it.seq().take(it.index() as int).push(c));
            assert(out@ =~= it.seq().take(it.index() + 1).map_values(|c: char| preview_char(c)));
        }
    }
    proof {
        assert(text@.take(text@.len() as int) =~= text@);
    }
    out
}

/// A preview of an input for display; see `spec_text_preview`.
pub fn text_preview(bytes: &[u8]) -> (out: String)
    ensures
        out@ == spec_text_preview(bytes@),
{
    let take = if (bytes.len() as u64) < MAX_PREVIEW_BYTES {
        bytes.len()
    } else {
        MAX_PREVIEW_BYTES as usize
    };
    let head = vstd::slice::slice_subrange(bytes, 0, take);
    match str_from_utf8(head) {
        Some(text) => {
            proof {
                vstd::utf8::encode_utf8_decode_utf8(text@);
            }
            nul_as_dot(text)
        },
        None => excerpt(bytes, 0, take),
    }
}

// ---------------------------------------------------------------- decimal numbers

pub open spec fn digit_char(d: int) -> char {
    if d <= 0 {
        '0'
    } else if d == 1 {
        '1'
    } else if d == 2 {
        '2'
    } else if d == 3 {
        '3'
    } else if d == 4 {
        '4'
    } else if d == 5 {
        '5'
    } else if d == 6 {
        '6'
    } else if d == 7 {
        '7'
    } else if d == 8 {
        '8'
    } else {
        '9'
    }
}

fn digit_char_exec(d: u64) -> (c: char)
    requires
        d < 10,
    ensures
        c == digit_char(d as int),
{
    if d == 0 {
        '0'
    } else if d == 1 {
        '1'
    } else if d == 2 {
        '2'
    } else if d == 3 {
        '3'
    } else if d == 4 {
        '4'
    } else if d == 5 {
        '5'
    } else if d == 6 {
        '6'
    } else if d == 7 {
        '7'
    } else if d == 8 {
        '8'
    } else {
        '9'
    }
}

/// The decimal digits of `n`, as `format!("{n}")` writes them.
pub open spec fn decimal(n: nat) -> Seq<char>
    decreases n,
{
    if n < 10 {
        seq![digit_char(n as int)]
    } else {
        decimal(n / 10).push(digit_char((n % 10) as int))
    }
}

/// Writes `n` in decimal.
pub fn u64_decimal(n: u64) -> (s: String)
    ensures
        s@ == decimal(n as nat),
    decreases n,
{
    let d = digit_char_exec(n % 10);
    if n < 10 {
        let mut s = String::new();
        push_char(&mut s, d);
        s
    } else {
        let mut s = u64_decimal(n / 10);
        push_char(&mut s, d);
        s
    }
}

pub open spec fn is_digit_char(c: char) -> bool {
    '0' <= c && c <= '9'
}

/// The value of a string of decimal digits.
pub open spec fn digits_value(s: Seq<char>) -> nat
    decreases s.len(),
{
    if s.len() == 0 {
        0
    } else {
        digits_value(s.drop_last()) * 10 + ((s.last() as u32) - 48) as nat
    }
}

/// What `str::parse::<u64>` gives: an optional `+`, then one or more
/// decimal digits whose value fits in `u64`.
pub open spec fn unsigned_body(s: Seq<char>) -> Seq<char> {
    if s.len() > 0 && s[0] == '+' {
        s.skip(1)
    } else {
        s
    }
}

pub open spec fn all_digits(s: Seq<char>) -> bool {
    forall|i: int| 0 <= i < s.len() ==> is_digit_char(#[trigger] s[i])
}

pub open spec fn spec_parse_u64(s: Seq<char>) -> Option<u64> {
    let body = unsigned_body(s);
    if body.len() > 0 && all_digits(body) && digits_value(body) <= u64::MAX {
        Some(digits_value(body) as u64)
    } else {
        None
    }
}

/// Reads a decimal `u64`; see `spec_parse_u64`.
pub fn parse_u64(s: &str) -> (r: Option<u64>)
    ensures
        r == spec_parse_u64(s@),
{
    let cs = chars_of(s);
    let n = cs.len();
    assert(cs@ == s@);
    let start: usize = if n > 0 && cs[0] == '+' {
        1
    } else {
        0
    };
    let ghost body = cs@.skip(start as int);
    if start >= n {
        assert(unsigned_body(s@).len() == 0);
        return None;
    }
    let mut v: u128 = 0;
    let mut k: usize = start;
    while k < n
        invariant
            n == cs@.len(),
            cs@ == s@,
            start == (if s@.len() > 0 && s@[0] == '+' {
                1int
            } else {
                0int
            }),
            start <= k <= n,
            body == cs@.skip(start as int),
            forall|i: int| 0 <= i < k - start ==> is_digit_char(#[trigger] body[i]),
            v == if digits_value(body.take(k - start)) <= u64::MAX {
                digits_value(body.take(k - start)) as int
            } else {
                u64::MAX + 1
            },
        decreases n - k,
    {
        let c = cs[k];
        if !('0' <= c && c <= '9') {
            assert(!is_digit_char(body[k - start]));
            assert(body == unsigned_body(s@));
            assert(!all_digits(body));
            return None;
        }
        let d = (c as u32 - 48) as u128;
        assert(body.take(k - start + 1).drop_last() =~= body.take(k - start));
        if v <= u64::MAX as u128 {
            let w = v * 10 + d;
            v = if w <= u64::MAX as u128 {
                w
            } else {
                u64::MAX as u128 + 1
            };
        }
        k = k + 1;
    }
    assert(body.take(n - start) =~= body);
    assert(body == unsigned_body(s@));
    assert(all_digits(body));
    if v <= u64::MAX as u128 {
        Some(v as u64)
    } else {
        None
    }
}

proof fn lemma_decimal_digits(n: nat)
    ensures
        decimal(n).len() > 0,
        forall|i: int| 0 <= i < decimal(n).len() ==> is_digit_char(#[trigger] decimal(n)[i]),
        digits_value(decimal(n)) == n,
    decreases n,
{
    let d = (n % 10) as int;
    assert((digit_char(d) as u32) - 48 == d);
    if n >= 10 {
        lemma_decimal_digits(n / 10);
        let s = decimal(n);
        assert(s.drop_last() =~= decimal(n / 10));
        assert(s.last() == digit_char(d));
        assert(digits_value(s) == digits_value(s.drop_last()) * 10 + ((s.last() as u32) - 48) as nat);
        assert((n / 10) * 10 + d == n);
    } else {
        let s = decimal(n);
        assert(s.drop_last() =~= Seq::<char>::empty());
        assert(digits_value(s) == digits_value(s.drop_last()) * 10 + ((s.last() as u32) - 48) as nat);
    }
}

/// Reading back what `u64_decimal` wrote gives the number.
pub proof fn law_decimal_round_trip(n: u64)
    ensures
        spec_parse_u64(decimal(n as nat)) == Some(n),
{
    lemma_decimal_digits(n as nat);
    assert(decimal(n as nat)[0] != '+');
}

// ---------------------------------------------------------------- text shapes

/// `c` removed from the front as often as it is there.
pub open spec fn trim_start_by(s: Seq<char>, c: char) -> Seq<char>
    decreases s.len(),
{
    if s.len() > 0 && s[0] == c {
        trim_start_by(s.skip(1), c)
    } else {
        s
    }
}

/// `c` removed from the back as often as it is there.
pub open spec fn trim_end_by(s: Seq<char>, c: char) -> Seq<char>
    decreases s.len(),
{
    if s.len() > 0 && s.last() == c {
        trim_end_by(s.drop_last(), c)
    } else {
        s
    }
}

/// `str::trim_matches` with one character: `c` removed from both ends.
pub open spec fn trim_both_by(s: Seq<char>, c: char) -> Seq<char> {
    trim_end_by(trim_start_by(s, c), c)
}

pub open spec fn trim_start_ws(s: Seq<char>) -> Seq<char>
    decreases s.len(),
{
    if s.len() > 0 && is_unicode_ws(s[0]) {
        trim_start_ws(s.skip(1))
    } else {
        s
    }
}

pub open spec fn trim_end_ws(s: Seq<char>) -> Seq<char>
    decreases s.len(),
{
    if s.len() > 0 && is_unicode_ws(s.last()) {
        trim_end_ws(s.drop_last())
    } else {
        s
    }
}

/// `str::trim`: White_Space removed from both ends.
pub open spec fn trim_ws(s: Seq<char>) -> Seq<char> {
    trim_end_ws(trim_start_ws(s))
}

/// Where `trim_start_by` stops.
pub fn start_by(s: &Vec<char>, lo: usize, hi: usize, c: char) -> (k: usize)
    requires
        lo <= hi <= s@.len(),
    ensures
        lo <= k <= hi,
        trim_start_by(s@.subrange(lo as int, hi as int), c) == s@.subrange(k as int, hi as int),
{
    let mut k = lo;
    while k < hi && s[k] == c
        invariant
            lo <= k <= hi,
            hi <= s@.len(),
            trim_start_by(s@.subrange(lo as int, hi as int), c) == trim_start_by(s@.subrange(k as int, hi as int), c),
        decreases hi - k,
    {
        assert(s@.subrange(k as int, hi as int).skip(1) =~= s@.subrange(k + 1, hi as int));
        k = k + 1;
    }
    k
}

/// Where `trim_end_by` stops.
pub fn end_by(s: &Vec<char>, lo: usize, hi: usize, c: char) -> (k: usize)
    requires
        lo <= hi <= s@.len(),
    ensures
        lo <= k <= hi,
        trim_end_by(s@.subrange(lo as int, hi as int), c) == s@.subrange(lo as int, k as int),
{
    let mut k = hi;
    while k > lo && s[k - 1] == c
        invariant
            lo <= k <= hi,
            hi <= s@.len(),
            trim_end_by(s@.subrange(lo as int, hi as int), c) == trim_end_by(s@.subrange(lo as int, k as int), c),
        decreases k - lo,
    {
        assert(s@.subrange(lo as int, k as int).drop_last() =~= s@.subrange(lo as int, k - 1));
        k = k - 1;
    }
    k
}

fn start_ws(s: &Vec<char>, lo: usize, hi: usize) -> (k: usize)
    requires
        lo <= hi <= s@.len(),
    ensures
        lo <= k <= hi,
        trim_start_ws(s@.subrange(lo as int, hi as int)) == s@.subrange(k as int, hi as int),
{
    let mut k = lo;
    while k < hi && is_unicode_ws_exec(s[k])
        invariant
            lo <= k <= hi,
            hi <= s@.len(),
            trim_start_ws(s@.subrange(lo as int, hi as int)) == trim_start_ws(s@.subrange(k as int, hi as int)),
        decreases hi - k,
    {
        assert(s@.subrange(k as int, hi as int).skip(1) =~= s@.subrange(k + 1, hi as int));
        k = k + 1;
    }
    k
}

fn end_ws(s: &Vec<char>, lo: usize, hi: usize) -> (k: usize)
    requires
        lo <= hi <= s@.len(),
    ensures
        lo <= k <= hi,
        trim_end_ws(s@.subrange(lo as int, hi as int)) == s@.subrange(lo as int, k as int),
{
    let mut k = hi;
    while k > lo && is_unicode_ws_exec(s[k - 1])
        invariant
            lo <= k <= hi,
            hi <= s@.len(),
            trim_end_ws(s@.subrange(lo as int, hi as int)) == trim_end_ws(s@.subrange(lo as int, k as int)),
        decreases k - lo,
    {
        assert(s@.subrange(lo as int, k as int).drop_last() =~= s@.subrange(lo as int, k - 1));
        k = k - 1;
    }
    k
}

/// The bounds of `trim_ws` of `s[lo..hi]`.
pub fn trim_ws_bounds(s: &Vec<char>, lo: usize, hi: usize) -> (r: (usize, usize))
    requires
        lo <= hi <= s@.len(),
    ensures
        lo <= r.0 <= r.1 <= hi,
        trim_ws(s@.subrange(lo as int, hi as int)) == s@.subrange(r.0 as int, r.1 as int),
{
    let a = start_ws(s, lo, hi);
    let b = end_ws(s, a, hi);
    (a, b)
}

/// The bounds of `trim_both_by` of `s[lo..hi]`.
pub fn trim_both_bounds(s: &Vec<char>, lo: usize, hi: usize, c: char) -> (r: (usize, usize))
    requires
        lo <= hi <= s@.len(),
    ensures
        lo <= r.0 <= r.1 <= hi,
        trim_both_by(s@.subrange(lo as int, hi as int), c) == s@.subrange(r.0 as int, r.1 as int),
{
    let a = start_by(s, lo, hi, c);
    let b = end_by(s, a, hi, c);
    (a, b)
}

/// The characters `s[lo..hi]` as a string.
pub fn string_of(s: &Vec<char>, lo: usize, hi: usize) -> (out: String)
    requires
        lo <= hi <= s@.len(),
    ensures
        out@ == s@.subrange(lo as int, hi as int),
{
    let mut out = String::new();
    let mut k = lo;
    while k < hi
        invariant
            lo <= k <= hi,
            hi <= s@.len(),
            out@ == s@.subrange(lo as int, k as int),
        decreases hi - k,
    {
        push_char(&mut out, s[k]);
        assert(out@ =~= s@.subrange(lo as int, k + 1));
        k = k + 1;
    }
    out
}

/// The first position at or after `i` that holds `c`, else the length.
pub open spec fn next_char(s: Seq<char>, i: int, c: char) -> int
    decreases s.len() - i,
{
    if i < 0 || i >= s.len() {
        s.len() as int
    } else if s[i] == c {
        i
    } else {
        next_char(s, i + 1, c)
    }
}

pub proof fn lemma_next_char(s: Seq<char>, i: int, c: char)
    requires
        0 <= i <= s.len(),
    ensures
        i <= next_char(s, i, c) <= s.len(),
        next_char(s, i, c) < s.len() ==> s[next_char(s, i, c)] == c,
        forall|k: int| i <= k < next_char(s, i, c) ==> s[k] != c,
    decreases s.len() - i,
{
    if i < s.len() && s[i] != c {
        lemma_next_char(s, i + 1, c);
    }
}

pub fn next_char_exec(s: &Vec<char>, i: usize, c: char) -> (k: usize)
    requires
        i <= s@.len(),
    ensures
        k == next_char(s@, i as int, c),
{
    let mut k = i;
    while k < s.len() && s[k] != c
        invariant
            i <= k <= s@.len(),
            next_char(s@, i as int, c) == next_char(s@, k as int, c),
        decreases s@.len() - k,
    {
        k = k + 1;
    }
    k
}

/// The lines `str::lines` gives from position `start` on: split at line
/// feeds, a carriage return before a line feed dropped, and no empty line
/// after a final line feed.
pub open spec fn lines_from(s: Seq<char>, start: int) -> Seq<Seq<char>>
    decreases s.len() - start,
{
    if start < 0 || start >= s.len() {
        Seq::empty()
    } else {
        let e = next_char(s, start, '\n');
        proof {
            lemma_next_char(s, start, '\n');
        }
        let raw = s.subrange(start, e);
        let line = if e < s.len() && raw.len() > 0 && raw.last() == '\r' {
            raw.drop_last()
        } else {
            raw
        };
        if e < s.len() {
            seq![line] + lines_from(s, e + 1)
        } else {
            seq![line]
        }
    }
}

/// The pieces `str::split` gives for a one-character separator, from
/// position `start` on.
pub open spec fn pieces_from(s: Seq<char>, start: int, sep: char) -> Seq<Seq<char>>
    decreases s.len() + 1 - start,
{
    if start < 0 || start > s.len() {
        Seq::empty()
    } else {
        let e = next_char(s, start, sep);
        proof {
            lemma_next_char(s, start, sep);
        }
        if e >= s.len() {
            seq![s.subrange(start, s.len() as int)]
        } else {
            seq![s.subrange(start, e)] + pieces_from(s, e + 1, sep)
        }
    }
}

/// The first position from `i` on where `needle` occurs in `hay`.
pub open spec fn find_from(hay: Seq<u8>, needle: Seq<u8>, i: int) -> Option<int>
    decreases hay.len() + 1 - i,
{
    if i < 0 || i + needle.len() > hay.len() {
        None
    } else if hay.subrange(i, i + needle.len()) == needle {
        Some(i)
    } else {
        find_from(hay, needle, i + 1)
    }
}

/// The first position where `needle` occurs in `hay`; see `find_from`.
pub fn find_bytes(hay: &[u8], needle: &[u8]) -> (r: Option<usize>)
    ensures
        match r {
            None => find_from(hay@, needle@, 0) is None,
            Some(k) => find_from(hay@, needle@, 0) == Some(k as int) && k + needle@.len()
                <= hay@.len(),
        },
{
    if needle.len() > hay.len() {
        return None;
    }
    let last = hay.len() - needle.len();
    let mut k: usize = 0;
    loop
        invariant
            last == hay@.len() - needle@.len(),
            k <= last,
            find_from(hay@, needle@, 0) == find_from(hay@, needle@, k as int),
        decreases last + 1 - k,
    {
        if bytes_match_at(hay, needle, k) {
            return Some(k);
        }
        if k == last {
            assert(find_from(hay@, needle@, k + 1) == None::<int>);
            return None;
        }
        k = k + 1;
    }
}

} // verus!

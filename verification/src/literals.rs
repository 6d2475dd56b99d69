//! What the string-literal parser reads back: a literal that the folder
//! writes, and a `\u` escape of four hex digits.

use vstd::prelude::*;
use vstd::utf8::{encode_utf8, is_ascii_chars, is_ascii_chars_encode_utf8};

use crate::codec::{ascii_bytes, hex_char, hex_char_upper, lemma_hex_digit};
use crate::js::{escape_char, escape_chars, spec_parse_string, string_body};

verus! {

proof fn lemma_escape_front(c: char, t: Seq<char>)
    ensures
        escape_chars(seq![c] + t) == escape_char(c) + escape_chars(t),
    decreases t.len(),
{
    let x = seq![c] + t;
    if t.len() == 0 {
        assert(x.drop_last() =~= Seq::<char>::empty());
        assert(x.last() == c);
        assert(escape_chars(Seq::<char>::empty()) == Seq::<char>::empty());
        assert(escape_chars(x) == escape_chars(x.drop_last()) + escape_char(x.last()));
        assert(escape_chars(x) =~= escape_char(c));
        assert(escape_chars(t) == Seq::<char>::empty());
        assert(escape_char(c) + escape_chars(t) =~= escape_char(c));
    } else {
        lemma_escape_front(c, t.drop_last());
        assert(x.drop_last() =~= seq![c] + t.drop_last());
        assert(x.last() == t.last());
        assert(escape_chars(x) == escape_chars(x.drop_last()) + escape_char(x.last()));
        assert(escape_chars(t) == escape_chars(t.drop_last()) + escape_char(t.last()));
        assert(escape_char(c) + escape_chars(t.drop_last()) + escape_char(t.last()) =~= escape_char(c)
            + (escape_chars(t.drop_last()) + escape_char(t.last())));
    }
}

proof fn lemma_escape_ascii(s: Seq<char>)
    requires
        is_ascii_chars(s),
    ensures
        is_ascii_chars(escape_chars(s)),
    decreases s.len(),
{
    if s.len() > 0 {
        lemma_escape_ascii(s.drop_last());
        let a = escape_chars(s.drop_last());
        let b = escape_char(s.last());
        assert(is_ascii_chars(b));
        assert forall|i: int| 0 <= i < (a + b).len() implies '\0' <= #[trigger] (a + b)[i] <= '\u{7f}' by {
            if i < a.len() {
                assert((a + b)[i] == a[i]);
            } else {
                assert((a + b)[i] == b[i - a.len()]);
            }
        }
    }
}

/// The body of a double-quoted literal, written by `escape_chars` after any
/// prefix `p` and closed by a quote, reads back as the text.
proof fn lemma_body_reads_back(p: Seq<u8>, s: Seq<char>)
    requires
        is_ascii_chars(s),
    ensures
        ({
            let bytes = p + ascii_bytes(escape_chars(s)) + seq![0x22u8];
            string_body(bytes, 0x22, p.len() as int) == Some((bytes.len() as int, s))
        }),
    decreases s.len(),
{
    let bytes = p + ascii_bytes(escape_chars(s)) + seq![0x22u8];
    let j = p.len() as int;
    if s.len() == 0 {
        assert(ascii_bytes(escape_chars(s)) =~= Seq::<u8>::empty());
        assert(bytes[j] == 0x22);
    } else {
        let c = s[0];
        let t = s.skip(1);
        assert(s =~= seq![c] + t);
        lemma_escape_front(c, t);
        let e = escape_char(c);
        let p2 = p + ascii_bytes(e);
        assert(is_ascii_chars(t));
        lemma_body_reads_back(p2, t);
        assert(ascii_bytes(escape_chars(s)) =~= ascii_bytes(e) + ascii_bytes(escape_chars(t)));
        assert(bytes =~= p2 + ascii_bytes(escape_chars(t)) + seq![0x22u8]);
        assert('\0' <= c <= '\u{7f}');
        assert(bytes[j] == ascii_bytes(e)[0]);
        if e.len() == 2 {
            assert(bytes[j + 1] == ascii_bytes(e)[1]);
            assert(p2.len() == j + 2);
        } else {
            assert(e == seq![c]);
            assert(p2.len() == j + 1);
            assert((c as u8) as char == c);
        }
    }
}

/// A literal written by folding reads back: for ASCII text `s`, parsing
/// `"` + `escape_chars(s)` + `"` gives `s` and ends after the closing quote.
pub proof fn law_escaped_literal_reads_back(s: Seq<char>)
    requires
        is_ascii_chars(s),
    ensures
        ({
            let lit = encode_utf8(seq!['"'] + escape_chars(s) + seq!['"']);
            spec_parse_string(lit, 0) == Some((lit.len() as int, s))
        }),
{
    let chars = seq!['"'] + escape_chars(s) + seq!['"'];
    lemma_escape_ascii(s);
    assert forall|i: int| 0 <= i < chars.len() implies '\0' <= #[trigger] chars[i] <= '\u{7f}' by {
        if 1 <= i < chars.len() - 1 {
            assert(chars[i] == escape_chars(s)[i - 1]);
        }
    }
    is_ascii_chars_encode_utf8(chars);
    let lit = encode_utf8(chars);
    assert(lit =~= seq![0x22u8] + ascii_bytes(escape_chars(s)) + seq![0x22u8]);
    lemma_body_reads_back(seq![0x22u8], s);
}

/// A hex digit as a byte, in either case.
pub open spec fn hex_digit_byte(v: int, upper: bool) -> u8 {
    if upper {
        hex_char_upper(v) as u8
    } else {
        hex_char(v) as u8
    }
}

/// A `\u` escape reads back as its character: every character below
/// U+10000, written as `"\u` and its four hex digits (lower or upper case)
/// `"`, parses to that character.
pub proof fn law_unicode_escape_reads_back(c: char, upper: bool)
    requires
        (c as u32) < 0x10000,
    ensures
        ({
            let v = c as u32;
            let lit = seq![
                0x22u8,
                0x5cu8,
                0x75u8,
                hex_digit_byte((v / 4096) as int, upper),
                hex_digit_byte(((v / 256) % 16) as int, upper),
                hex_digit_byte(((v / 16) % 16) as int, upper),
                hex_digit_byte((v % 16) as int, upper),
                0x22u8,
            ];
            spec_parse_string(lit, 0) == Some((8int, seq![c]))
        }),
{
    let v = c as u32;
    lemma_hex_digit((v / 4096) as int, upper);
    lemma_hex_digit(((v / 256) % 16) as int, upper);
    lemma_hex_digit(((v / 16) % 16) as int, upper);
    lemma_hex_digit((v % 16) as int, upper);
    assert((v / 4096) * 4096 + ((v / 256) % 16) * 256 + ((v / 16) % 16) * 16 + v % 16 == v) by (nonlinear_arith)
        requires
            v < 0x10000,
    ;
    vstd::utf8::char_is_scalar(c);
    vstd::utf8::char_u32_cast(c, v);
    let lit = seq![
        0x22u8,
        0x5cu8,
        0x75u8,
        hex_digit_byte((v / 4096) as int, upper),
        hex_digit_byte(((v / 256) % 16) as int, upper),
        hex_digit_byte(((v / 16) % 16) as int, upper),
        hex_digit_byte((v % 16) as int, upper),
        0x22u8,
    ];
    assert(string_body(lit, 0x22, 7) == Some((8int, Seq::<char>::empty())));
    assert(seq![c] + Seq::<char>::empty() =~= seq![c]);
}

/// A `\x` escape reads back as its character: every character below
/// U+0100, written as `"\x` and its two hex digits (lower or upper case)
/// `"`, parses to that character.
pub proof fn law_byte_escape_reads_back(c: char, upper: bool)
    requires
        (c as u32) < 0x100,
    ensures
        ({
            let v = c as u32;
            let lit = seq![
                0x22u8,
                0x5cu8,
                0x78u8,
                hex_digit_byte((v / 16) as int, upper),
                hex_digit_byte((v % 16) as int, upper),
                0x22u8,
            ];
            spec_parse_string(lit, 0) == Some((6int, seq![c]))
        }),
{
    let v = c as u32;
    lemma_hex_digit((v / 16) as int, upper);
    lemma_hex_digit((v % 16) as int, upper);
    assert((v / 16) * 16 + v % 16 == v) by (nonlinear_arith)
        requires
            v < 0x100,
    ;
    let b = v as u8;
    assert(b as u32 == v);
    vstd::utf8::char_u32_cast(c, v);
    assert((b as char) == (v as char));
    let lit = seq![
        0x22u8,
        0x5cu8,
        0x78u8,
        hex_digit_byte((v / 16) as int, upper),
        hex_digit_byte((v % 16) as int, upper),
        0x22u8,
    ];
    assert(string_body(lit, 0x22, 5) == Some((6int, Seq::<char>::empty())));
    assert(seq![c] + Seq::<char>::empty() =~= seq![c]);
}

} // verus!

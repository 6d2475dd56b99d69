//! What the layout rewrites keep: with no chain of joined literals in the
//! text, folding gives the text back unchanged, and re-indenting keeps every
//! character but spaces, tabs and line breaks.

use vstd::prelude::*;
use vstd::utf8::{
    decode_first_scalar, decode_utf8, decode_utf8_split, encode_utf8, encode_utf8_decode_utf8, encode_utf8_valid_utf8,
    is_char_boundary, is_char_boundary_iff_not_is_continuation_byte, is_char_boundary_start_end_of_seq,
    is_continuation_byte, length_of_first_scalar, pop_first_scalar, valid_first_scalar, valid_utf8, valid_utf8_split,
};

use crate::js::{
    block_end, chain, char_at, concat_hits, copy_segment, fold_out, indent, lemma_chain, lemma_parse_string_end,
    lemma_skip, line_comment_at, line_end, pretty_from, spec_parse_string, spec_skip, string_body,
};

verus! {

/// A literal's body ends just after its closing quote.
proof fn lemma_body_closes(bytes: Seq<u8>, q: u8, j: int)
    requires
        string_body(bytes, q, j) is Some,
    ensures
        0 < (string_body(bytes, q, j)->0).0 <= bytes.len(),
        bytes[(string_body(bytes, q, j)->0).0 - 1] == q,
    decreases bytes.len() - j,
{
    let b = bytes[j];
    if b == q {
    } else if b == 0x5c {
        let (c, nj) = crate::js::escape_step(bytes, j)->0;
        lemma_body_closes(bytes, q, nj);
    } else {
        lemma_body_closes(bytes, q, j + 1);
    }
}

/// In UTF-8 text, the byte after a character boundary that holds an ASCII
/// byte starts a character too.
proof fn lemma_boundary_after_ascii(t: Seq<u8>, k: int)
    requires
        valid_utf8(t),
        0 < k <= t.len(),
        is_char_boundary(t, k - 1),
        t[k - 1] < 0x80,
    ensures
        is_char_boundary(t, k),
    decreases t.len(),
{
    let n = length_of_first_scalar(t);
    let p = pop_first_scalar(t);
    if k - 1 == 0 {
        assert(n == 1);
        assert(is_char_boundary(p, 0));
    } else {
        assert(is_char_boundary(p, k - 1 - n));
        assert(p[k - 1 - n] == t[k - 1]);
        lemma_boundary_after_ascii(p, k - n);
    }
}

/// Bytes inside a character start no literal, so the search for chains
/// steps over them.
proof fn lemma_skip_continuation(bytes: Seq<u8>, a: int, b: int)
    requires
        0 <= a <= b <= bytes.len(),
        forall|m: int| a <= m < b ==> is_continuation_byte(#[trigger] bytes[m]),
    ensures
        concat_hits(bytes, a) == concat_hits(bytes, b),
    decreases b - a,
{
    if a < b {
        assert(is_continuation_byte(bytes[a]));
        assert(spec_parse_string(bytes, a) is None);
        lemma_skip_continuation(bytes, a + 1, b);
    }
}

proof fn lemma_fold_plain(bytes: Seq<u8>, i: int)
    requires
        0 <= i <= bytes.len(),
        valid_utf8(bytes.subrange(i, bytes.len() as int)),
        concat_hits(bytes, i).len() == 0,
    ensures
        fold_out(bytes, i) == decode_utf8(bytes.subrange(i, bytes.len() as int)),
    decreases bytes.len() - i,
{
    let t = bytes.subrange(i, bytes.len() as int);
    if i == bytes.len() {
        assert(t.len() == 0);
    } else {
        lemma_parse_string_end(bytes, i);
        match spec_parse_string(bytes, i) {
            Some((end, v)) => {
                lemma_chain(bytes, end);
                let c = chain(bytes, end);
                assert(!c.2);
                let k = end - i;
                lemma_body_closes(bytes, bytes[i], i + 1);
                assert(t[k - 1] == bytes[end - 1]);
                assert(!is_continuation_byte(t[k - 1]));
                is_char_boundary_iff_not_is_continuation_byte(t, k - 1);
                if k < t.len() {
                    lemma_boundary_after_ascii(t, k);
                } else {
                    is_char_boundary_start_end_of_seq(t);
                }
                valid_utf8_split(t, k);
                decode_utf8_split(t, k);
                assert(t.subrange(0, k) =~= bytes.subrange(i, end));
                assert(t.subrange(k, t.len() as int) =~= bytes.subrange(end, bytes.len() as int));
                lemma_fold_plain(bytes, end);
            },
            None => {
                assert(valid_first_scalar(t));
                let n = length_of_first_scalar(t);
                assert(bytes.skip(i) =~= t);
                assert(char_at(bytes, i) == (decode_first_scalar(t) as char, n));
                assert(pop_first_scalar(t) =~= bytes.subrange(i + n, bytes.len() as int));
                assert forall|m: int| i + 1 <= m < i + n implies is_continuation_byte(#[trigger] bytes[m]) by {
                    assert(bytes[m] == t[m - i]);
                }
                lemma_skip_continuation(bytes, i + 1, i + n);
                lemma_fold_plain(bytes, i + n);
            },
        }
    }
}

/// Where no chain of `+`-joined literals is found in a text, folding gives
/// the text back unchanged.
pub proof fn law_fold_without_chains(text: Seq<char>)
    requires
        concat_hits(encode_utf8(text), 0).len() == 0,
    ensures
        fold_out(encode_utf8(text), 0) == text,
{
    let b = encode_utf8(text);
    encode_utf8_valid_utf8(text);
    encode_utf8_decode_utf8(text);
    assert(b.subrange(0, b.len() as int) =~= b);
    lemma_fold_plain(b, 0);
}

/// A space, tab, line feed or carriage return: what re-indenting adds,
/// drops or merges.
pub open spec fn is_layout_space(c: char) -> bool {
    c == ' ' || c == '\n' || c == '\r' || c == '\t'
}

/// The characters of a text but its spaces, tabs and line breaks.
pub open spec fn strip_layout(s: Seq<char>) -> Seq<char>
    decreases s.len(),
{
    if s.len() == 0 {
        Seq::empty()
    } else {
        strip_layout(s.drop_last()) + if is_layout_space(s.last()) {
            Seq::<char>::empty()
        } else {
            seq![s.last()]
        }
    }
}

proof fn lemma_strip_add(a: Seq<char>, b: Seq<char>)
    ensures
        strip_layout(a + b) == strip_layout(a) + strip_layout(b),
    decreases b.len(),
{
    if b.len() == 0 {
        assert(a + b =~= a);
        assert(strip_layout(a) + Seq::<char>::empty() =~= strip_layout(a));
    } else {
        lemma_strip_add(a, b.drop_last());
        assert((a + b).drop_last() =~= a + b.drop_last());
        assert((a + b).last() == b.last());
    }
}

proof fn lemma_strip_spaces(n: int, c: char)
    requires
        is_layout_space(c),
        0 <= n,
    ensures
        strip_layout(Seq::new(n as nat, |k: int| c)) == Seq::<char>::empty(),
    decreases n,
{
    if n > 0 {
        lemma_strip_spaces(n - 1, c);
        assert(Seq::new(n as nat, |k: int| c).drop_last() =~= Seq::new((n - 1) as nat, |k: int| c));
    }
}

proof fn lemma_strip_indent(d: nat)
    ensures
        strip_layout(indent(d)) == Seq::<char>::empty(),
{
    lemma_strip_spaces((2 * d) as int, ' ');
    assert(indent(d) =~= Seq::new((2 * d) as nat, |k: int| ' '));
}

proof fn lemma_strip_one(c: char)
    ensures
        strip_layout(seq![c]) == if is_layout_space(c) {
            Seq::<char>::empty()
        } else {
            seq![c]
        },
{
    assert(seq![c].drop_last() =~= Seq::<char>::empty());
    assert(strip_layout(Seq::<char>::empty()) == Seq::<char>::empty());
    assert(Seq::<char>::empty() + seq![c] =~= seq![c]);
    assert(Seq::<char>::empty() + Seq::<char>::empty() =~= Seq::<char>::empty());
}

proof fn lemma_line_end_at(bytes: Seq<u8>, j: int)
    requires
        0 <= j <= bytes.len(),
    ensures
        j <= line_end(bytes, j) <= bytes.len(),
        line_end(bytes, j) < bytes.len() ==> bytes[line_end(bytes, j)] == 0x0a,
    decreases bytes.len() - j,
{
    if j < bytes.len() && bytes[j] != 0x0a {
        lemma_line_end_at(bytes, j + 1);
    }
}

proof fn lemma_block_end_at(bytes: Seq<u8>, j: int)
    requires
        0 <= j,
    ensures
        j <= block_end(bytes, j),
        block_end(bytes, j) + 1 < bytes.len() ==> bytes[block_end(bytes, j) + 1] == 0x2f,
    decreases bytes.len() - j,
{
    if !(j + 1 >= bytes.len() || (bytes[j] == 0x2a && bytes[j + 1] == 0x2f)) {
        lemma_block_end_at(bytes, j + 1);
    }
}

/// A string or comment ends where a character starts.
proof fn lemma_skip_boundary(bytes: Seq<u8>, i: int, k: int)
    requires
        0 <= i < bytes.len(),
        valid_utf8(bytes.subrange(i, bytes.len() as int)),
        spec_skip(bytes, i) == Some(k),
    ensures
        i < k <= bytes.len(),
        is_char_boundary(bytes.subrange(i, bytes.len() as int), k - i),
{
    let t = bytes.subrange(i, bytes.len() as int);
    lemma_skip(bytes, i);
    if k == bytes.len() {
        is_char_boundary_start_end_of_seq(t);
    } else if spec_parse_string(bytes, i) is Some {
        lemma_body_closes(bytes, bytes[i], i + 1);
        assert(t[k - i - 1] == bytes[k - 1]);
        is_char_boundary_iff_not_is_continuation_byte(t, k - i - 1);
        lemma_boundary_after_ascii(t, k - i);
    } else if line_comment_at(bytes, i) {
        lemma_line_end_at(bytes, i + 2);
        assert(t[k - i] == bytes[k]);
        is_char_boundary_iff_not_is_continuation_byte(t, k - i);
    } else {
        let j = block_end(bytes, i + 2);
        lemma_block_end_at(bytes, i + 2);
        assert(k == j + 2);
        assert(t[k - i - 1] == bytes[k - 1]);
        is_char_boundary_iff_not_is_continuation_byte(t, k - i - 1);
        lemma_boundary_after_ascii(t, k - i);
    }
}

/// The first character of UTF-8 text that starts with an ASCII byte.
proof fn lemma_ascii_head(t: Seq<u8>)
    requires
        valid_utf8(t),
        t.len() > 0,
        t[0] < 0x80,
    ensures
        decode_utf8(t) == seq![t[0] as char] + decode_utf8(t.skip(1)),
        valid_utf8(t.skip(1)),
{
    let b = t[0];
    assert((b & 0x7f) as u32 == b as u32) by (bit_vector)
        requires
            b < 0x80,
    ;
    assert(pop_first_scalar(t) =~= t.skip(1));
}

proof fn lemma_pretty_keeps(bytes: Seq<u8>, i: int, depth: nat, ls: bool, nl: bool)
    requires
        0 <= i <= bytes.len(),
        valid_utf8(bytes.subrange(i, bytes.len() as int)),
    ensures
        strip_layout(pretty_from(bytes, i, depth, ls, nl)) == strip_layout(
            decode_utf8(bytes.subrange(i, bytes.len() as int)),
        ),
    decreases bytes.len() - i,
{
    let t = bytes.subrange(i, bytes.len() as int);
    if i == bytes.len() {
        assert(t.len() == 0);
    } else {
        lemma_skip(bytes, i);
        match spec_skip(bytes, i) {
            Some(k) => {
                lemma_skip_boundary(bytes, i, k);
                valid_utf8_split(t, k - i);
                decode_utf8_split(t, k - i);
                let rest = bytes.subrange(k, bytes.len() as int);
                assert(t.subrange(0, k - i) =~= bytes.subrange(i, k));
                assert(t.subrange(k - i, t.len() as int) =~= rest);
                let seg = copy_segment(bytes, i, k);
                lemma_strip_add(seg, decode_utf8(rest));
                if k < bytes.len() && line_comment_at(bytes, i) {
                    lemma_line_end_at(bytes, i + 2);
                    assert(rest[0] == 0x0a);
                    lemma_ascii_head(rest);
                    assert(rest.skip(1) =~= bytes.subrange(k + 1, bytes.len() as int));
                    lemma_pretty_keeps(bytes, k + 1, depth, true, depth == 0);
                    let tail = pretty_from(bytes, k + 1, depth, true, depth == 0);
                    lemma_strip_add(seq!['\n'], decode_utf8(rest.skip(1)));
                    lemma_strip_one('\n');
                    lemma_strip_add(seg + seq!['\n'] + indent(depth), tail);
                    lemma_strip_add(seg + seq!['\n'], indent(depth));
                    lemma_strip_add(seg, seq!['\n']);
                    lemma_strip_indent(depth);
                    assert(seg + seq!['\n'] + seq![] =~= seg + seq!['\n']);
                } else {
                    let nl2 = if seg.len() > 0 {
                        seg.last() == '\n'
                    } else {
                        nl
                    };
                    lemma_pretty_keeps(bytes, k, depth, false, nl2);
                    lemma_strip_add(seg, pretty_from(bytes, k, depth, false, nl2));
                }
            },
            None => {
                let b = bytes[i];
                if b == 0x7b || b == 0x7d || b == 0x3b || b == 0x20 || b == 0x0a || b == 0x0d || b == 0x09 {
                    assert(t[0] == b);
                    lemma_ascii_head(t);
                    assert(t.skip(1) =~= bytes.subrange(i + 1, bytes.len() as int));
                    let rest = decode_utf8(t.skip(1));
                    lemma_strip_add(seq![b as char], rest);
                    lemma_strip_one(b as char);
                    if b == 0x7b {
                        lemma_pretty_keeps(bytes, i + 1, depth + 1, true, false);
                        let tail = pretty_from(bytes, i + 1, depth + 1, true, false);
                        lemma_strip_add(seq!['{', '\n'] + indent(depth + 1), tail);
                        lemma_strip_add(seq!['{', '\n'], indent(depth + 1));
                        lemma_strip_add(seq!['{'], seq!['\n']);
                        assert(seq!['{', '\n'] =~= seq!['{'] + seq!['\n']);
                        lemma_strip_one('{');
                        lemma_strip_one('\n');
                        lemma_strip_indent(depth + 1);
                        assert(seq!['{'] + Seq::<char>::empty() =~= seq!['{']);
                    } else if b == 0x7d {
                        let d: nat = if depth > 0 {
                            (depth - 1) as nat
                        } else {
                            0
                        };
                        lemma_pretty_keeps(bytes, i + 1, d, false, false);
                        let tail = pretty_from(bytes, i + 1, d, false, false);
                        let lead = if nl {
                            Seq::<char>::empty()
                        } else {
                            seq!['\n']
                        };
                        lemma_strip_add(lead + indent(d) + seq!['}'], tail);
                        lemma_strip_add(lead + indent(d), seq!['}']);
                        lemma_strip_add(lead, indent(d));
                        lemma_strip_one('\n');
                        lemma_strip_one('}');
                        lemma_strip_indent(d);
                        assert(strip_layout(lead) == Seq::<char>::empty());
                    } else if b == 0x3b {
                        lemma_pretty_keeps(bytes, i + 1, depth, true, depth == 0);
                        let tail = pretty_from(bytes, i + 1, depth, true, depth == 0);
                        lemma_strip_add(seq![';', '\n'] + indent(depth), tail);
                        lemma_strip_add(seq![';', '\n'], indent(depth));
                        lemma_strip_add(seq![';'], seq!['\n']);
                        assert(seq![';', '\n'] =~= seq![';'] + seq!['\n']);
                        lemma_strip_one(';');
                        lemma_strip_one('\n');
                        lemma_strip_indent(depth);
                        assert(seq![';'] + Seq::<char>::empty() =~= seq![';']);
                    } else {
                        if !ls {
                            lemma_pretty_keeps(bytes, i + 1, depth, true, false);
                            lemma_strip_add(seq![' '], pretty_from(bytes, i + 1, depth, true, false));
                            lemma_strip_one(' ');
                        } else {
                            lemma_pretty_keeps(bytes, i + 1, depth, ls, nl);
                        }
                    }
                } else {
                    assert(valid_first_scalar(t));
                    let n = length_of_first_scalar(t);
                    assert(bytes.skip(i) =~= t);
                    let ch = decode_first_scalar(t) as char;
                    assert(char_at(bytes, i) == (ch, n));
                    assert(pop_first_scalar(t) =~= bytes.subrange(i + n, bytes.len() as int));
                    lemma_pretty_keeps(bytes, i + n, depth, false, false);
                    lemma_strip_add(seq![ch], pretty_from(bytes, i + n, depth, false, false));
                    lemma_strip_add(seq![ch], decode_utf8(bytes.subrange(i + n, bytes.len() as int)));
                }
            },
        }
    }
}

/// Re-indenting keeps every character of the text but its spaces, tabs and
/// line breaks, in order: it only lays the code out anew.
pub proof fn law_pretty_keeps_text(text: Seq<char>)
    ensures
        strip_layout(pretty_from(encode_utf8(text), 0, 0, false, false)) == strip_layout(text),
{
    let b = encode_utf8(text);
    encode_utf8_valid_utf8(text);
    encode_utf8_decode_utf8(text);
    assert(b.subrange(0, b.len() as int) =~= b);
    lemma_pretty_keeps(b, 0, 0, false, false);
}

} // verus!

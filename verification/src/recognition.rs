//! What probing and detection must recognise, stated against the inputs:
//! Mach-O headers, dynamic eval as an obfuscation indicator, and base64url
//! text.

use vstd::prelude::*;

use vstd::utf8::{encode_utf8, encode_utf8_valid_utf8, is_ascii_chars, is_ascii_chars_encode_utf8};

use crate::analysis::{AnalysisResult, Assessment, FindingView, findings_view};
use crate::codec::{
    ascii_bytes, b64_char, b64_group, first_group, law_b64_round_trip, spec_encode_b64, spec_is_b64,
};
use crate::detect::{
    b64_hits, b64_run_end, b64_run_finding, cap_findings, has_pad, has_url_symbol, hex_hits, pad_end, pct_hits,
    spec_b64_finding, spec_detect, text_findings,
};
use crate::engine::analysis_ok;
use crate::probe::{spec_probe, ProbeKind};
use crate::transform::{spec_adapter, spec_apply_adapter, Adapter};

verus! {

broadcast use vstd::seq_lib::group_to_multiset_ensures;

/// An input that starts with one of the four Mach-O magics (`fe ed fa ce`,
/// `ce fa ed fe`, `fe ed fa cf`, `cf fa ed fe`) probes as Mach-O.
pub proof fn law_macho_magic_probes_macho(b: Seq<u8>)
    requires
        b.len() >= 4,
        (b[0] == 0xfe && b[1] == 0xed && b[2] == 0xfa && b[3] == 0xce) || (b[0] == 0xce && b[1] == 0xfa
            && b[2] == 0xed && b[3] == 0xfe) || (b[0] == 0xfe && b[1] == 0xed && b[2] == 0xfa && b[3]
            == 0xcf) || (b[0] == 0xcf && b[1] == 0xfa && b[2] == 0xed && b[3] == 0xfe),
    ensures
        spec_probe(b).kind == ProbeKind::MachO,
{
}

/// The other magics probe as their kinds: `1f 8b` as gzip, `MZ` as a PE
/// image, `7f 45 4c 46` as ELF, and the byte-order mark `ff fe` as UTF-16LE.
pub proof fn law_magic_probes_kind(b: Seq<u8>)
    requires
        b.len() >= 2,
    ensures
        b[0] == 0x1f && b[1] == 0x8b ==> spec_probe(b).kind == ProbeKind::Gzip,
        b[0] == 0x4d && b[1] == 0x5a ==> spec_probe(b).kind == ProbeKind::Pe,
        b.len() >= 4 && b[0] == 0x7f && b[1] == 0x45 && b[2] == 0x4c && b[3] == 0x46 ==> spec_probe(b).kind
            == ProbeKind::Elf,
        b[0] == 0xff && b[1] == 0xfe ==> spec_probe(b).kind == ProbeKind::Utf16Le,
{
}

/// An analysis of an input that is not an executable or unknown binary, in
/// which detection reports dynamic eval, a joined-literal chain or a string
/// table, assesses indicators as present.
pub proof fn law_obfuscation_finding_means_indicators(
    r: AnalysisResult,
    artifact: Seq<char>,
    job: Seq<char>,
    bytes: Seq<u8>,
    k: int,
)
    requires
        analysis_ok(r, artifact, job, bytes),
        !spec_probe(bytes).kind.is_opaque_binary(),
        0 <= k < spec_detect(artifact, bytes, spec_probe(bytes).kind).len(),
        ({
            let t = spec_detect(artifact, bytes, spec_probe(bytes).kind)[k].technique_id;
            t == "control.dynamic-eval"@ || t == "data.literal-concat"@ || t == "data.string-table"@
        }),
    ensures
        r.assessment == Assessment::IndicatorsPresent,
{
    let d = spec_detect(artifact, bytes, spec_probe(bytes).kind);
    let fs = findings_view(r.findings@);
    let f = d[k];
    assert(d.contains(f));
    assert(fs.to_multiset().count(f) > 0);
    assert(fs.contains(f));
    let i = choose|i: int| 0 <= i < fs.len() && fs[i] == f;
    assert(fs[i].technique_id == f.technique_id);
}

/// A URL-alphabet symbol is ASCII and, when it is neither `-` nor `_`, the
/// same in the standard alphabet.
proof fn lemma_url_char(v: int)
    requires
        0 <= v < 64,
    ensures
        '\0' <= b64_char(v, true) <= '\u{7f}',
        spec_is_b64(b64_char(v, true) as u8, true),
        b64_char(v, true) != '-' && b64_char(v, true) != '_' ==> b64_char(v, false) == b64_char(v, true),
{
}

/// One URL-safe group: ASCII symbols of the URL alphabet, and the standard
/// group when it holds no `-` or `_`.
proof fn lemma_url_group(b0: u8, b1: u8, b2: u8, n: int)
    requires
        1 <= n,
    ensures
        ({
            let g = b64_group(b0, b1, b2, n, true, false);
            &&& forall|i: int|
                0 <= i < g.len() ==> '\0' <= #[trigger] g[i] <= '\u{7f}' && spec_is_b64(g[i] as u8, true)
            &&& (forall|i: int| 0 <= i < g.len() ==> #[trigger] g[i] != '-' && g[i] != '_') ==> b64_group(
                b0,
                b1,
                b2,
                n,
                false,
                false,
            ) == g
        }),
{
    lemma_url_char((b0 / 4) as int);
    lemma_url_char(((b0 % 4) * 16 + b1 / 16) as int);
    lemma_url_char(((b1 % 16) * 4 + b2 / 64) as int);
    lemma_url_char((b2 % 64) as int);
    let g = b64_group(b0, b1, b2, n, true, false);
    if forall|i: int| 0 <= i < g.len() ==> #[trigger] g[i] != '-' && g[i] != '_' {
        assert(g[0] != '-' && g[0] != '_');
        assert(g[1] != '-' && g[1] != '_');
        if n > 1 {
            assert(g[2] != '-' && g[2] != '_');
        }
        if n > 2 {
            assert(g[3] != '-' && g[3] != '_');
        }
        assert(b64_group(b0, b1, b2, n, false, false) =~= g);
    }
}

/// The URL-safe encoding: ASCII symbols of the URL alphabet, and the
/// standard unpadded encoding when it holds no `-` or `_`.
proof fn lemma_url_encoding(d: Seq<u8>)
    ensures
        ({
            let e = spec_encode_b64(d, true, false);
            &&& forall|i: int|
                0 <= i < e.len() ==> '\0' <= #[trigger] e[i] <= '\u{7f}' && spec_is_b64(e[i] as u8, true)
            &&& (forall|i: int| 0 <= i < e.len() ==> #[trigger] e[i] != '-' && e[i] != '_') ==> spec_encode_b64(
                d,
                false,
                false,
            ) == e
        }),
    decreases d.len(),
{
    if d.len() > 0 {
        let b1: u8 = if d.len() > 1 {
            d[1]
        } else {
            0
        };
        let b2: u8 = if d.len() > 2 {
            d[2]
        } else {
            0
        };
        lemma_url_group(d[0], b1, b2, d.len() as int);
        let g = first_group(d, true, false);
        let e = spec_encode_b64(d, true, false);
        if d.len() > 3 {
            lemma_url_encoding(d.skip(3));
            let r = spec_encode_b64(d.skip(3), true, false);
            assert(e == g + r);
            assert forall|i: int| 0 <= i < e.len() implies '\0' <= #[trigger] e[i] <= '\u{7f}' && spec_is_b64(
                e[i] as u8,
                true,
            ) by {
                if i < g.len() {
                    assert(e[i] == g[i]);
                } else {
                    assert(e[i] == r[i - g.len()]);
                }
            }
            if forall|i: int| 0 <= i < e.len() ==> #[trigger] e[i] != '-' && e[i] != '_' {
                assert forall|i: int| 0 <= i < g.len() implies #[trigger] g[i] != '-' && g[i] != '_' by {
                    assert(e[i] == g[i]);
                }
                assert forall|i: int| 0 <= i < r.len() implies #[trigger] r[i] != '-' && r[i] != '_' by {
                    assert(e[i + g.len()] == r[i]);
                }
            }
        }
    }
}

proof fn lemma_run_to_end(bytes: Seq<u8>, j: int)
    requires
        0 <= j <= bytes.len(),
        forall|i: int| j <= i < bytes.len() ==> spec_is_b64(#[trigger] bytes[i], true),
    ensures
        b64_run_end(bytes, j) == bytes.len(),
    decreases bytes.len() - j,
{
    if j < bytes.len() {
        assert(spec_is_b64(bytes[j], true));
        lemma_run_to_end(bytes, j + 1);
    }
}

/// Base64url text is found and decoded: for any data whose URL-safe
/// encoding `e` has at least 16 symbols and starts with a symbol of the
/// standard alphabet (and not with `MZ`, which marks a PE image), detection
/// on `e` reports a finding covering all of `e` whose adapter decodes `e`
/// back to the data. (Inputs held in memory are shorter than 2^64 bytes.)
pub proof fn law_base64url_text_found(artifact: Seq<char>, d: Seq<u8>)
    requires
        spec_encode_b64(d, true, false).len() >= 16,
        spec_encode_b64(d, true, false).len() <= u64::MAX,
        spec_is_b64(spec_encode_b64(d, true, false)[0] as u8, false),
        !(spec_encode_b64(d, true, false)[0] == 'M' && spec_encode_b64(d, true, false)[1] == 'Z'),
    ensures
        ({
            let e = encode_utf8(spec_encode_b64(d, true, false));
            let found = spec_detect(artifact, e, spec_probe(e).kind);
            exists|k: int|
                {
                    &&& 0 <= k < found.len()
                    &&& (#[trigger] found[k]).range.start == 0
                    &&& found[k].range.end == e.len()
                    &&& spec_apply_adapter(e, 0, e.len() as int, found[k].technique_id) matches Ok(out)
                    &&& out == d
                }
        }),
{
    let chars = spec_encode_b64(d, true, false);
    lemma_url_encoding(d);
    assert(is_ascii_chars(chars));
    is_ascii_chars_encode_utf8(chars);
    encode_utf8_valid_utf8(chars);
    let e = encode_utf8(chars);
    let n = e.len() as int;
    assert(e =~= ascii_bytes(chars));
    assert forall|i: int| 0 <= i < n implies spec_is_b64(#[trigger] e[i], true) by {
        assert(e[i] == chars[i] as u8);
    }
    lemma_run_to_end(e, 0);
    assert(pad_end(e, n) == n);
    assert(e.subrange(0, n) =~= e);
    assert(!has_pad(e));
    let url = has_url_symbol(e, 0, n);
    if url {
        law_b64_round_trip(d, true, false);
    } else {
        assert forall|i: int| 0 <= i < chars.len() implies #[trigger] chars[i] != '-' && chars[i] != '_' by {
            assert(e[i] == chars[i] as u8);
            assert(!(e[i] == 0x2d || e[i] == 0x5f));
        }
        assert(spec_encode_b64(d, false, false) == chars);
        law_b64_round_trip(d, false, false);
    }
    assert(spec_b64_finding(artifact, e, 0, n, url) is Some);
    let f = b64_run_finding(artifact, e, 0)->0;
    reveal_strlit("enc.base64");
    reveal_strlit("enc.base64url");
    assert("enc.base64"@.len() != "enc.base64url"@.len());
    assert(f.range.start == 0 && f.range.end == n);
    assert(spec_apply_adapter(e, 0, n, f.technique_id) matches Ok(out) && out == d);
    assert(e[0] == chars[0] as u8);
    let b = b64_hits(artifact, e, 0);
    assert(b[0] == f);
    let kind = spec_probe(e).kind;
    assert(!kind.is_opaque_binary() && kind != ProbeKind::Gzip);
    let all = b + (hex_hits(artifact, e, 0) + (pct_hits(artifact, e, 0) + text_findings(artifact, e, kind)));
    let found = spec_detect(artifact, e, kind);
    assert(found == cap_findings(all));
    assert(all[0] == f);
    assert(found[0] == f);
}

/// A standard-alphabet symbol is ASCII and a symbol of both alphabets.
proof fn lemma_std_char(v: int)
    requires
        0 <= v < 64,
    ensures
        '\0' <= b64_char(v, false) <= '\u{7f}',
        spec_is_b64(b64_char(v, false) as u8, false),
        b64_char(v, false) != '=',
{
}

/// The shape of the padded standard encoding of non-empty data: a multiple
/// of four characters, standard symbols followed by at most two `=`, and
/// the unpadded encoding when there is no `=`.
proof fn lemma_padded_shape(d: Seq<u8>) -> (p: int)
    requires
        d.len() > 0,
    ensures
        ({
            let e = spec_encode_b64(d, false, true);
            &&& 0 <= p <= 2
            &&& e.len() >= 4
            &&& e.len() % 4 == 0
            &&& forall|i: int|
                0 <= i < e.len() - p ==> '\0' <= #[trigger] e[i] <= '\u{7f}' && spec_is_b64(e[i] as u8, false)
            &&& forall|i: int| e.len() - p <= i < e.len() ==> #[trigger] e[i] == '='
            &&& p == 0 ==> spec_encode_b64(d, false, false) == e
        }),
    decreases d.len(),
{
    let b1: u8 = if d.len() > 1 {
        d[1]
    } else {
        0
    };
    let b2: u8 = if d.len() > 2 {
        d[2]
    } else {
        0
    };
    lemma_std_char((d[0] / 4) as int);
    lemma_std_char(((d[0] % 4) * 16 + b1 / 16) as int);
    lemma_std_char(((b1 % 16) * 4 + b2 / 64) as int);
    lemma_std_char((b2 % 64) as int);
    let g = first_group(d, false, true);
    let e = spec_encode_b64(d, false, true);
    if d.len() <= 3 {
        let p: int = 3 - d.len();
        if p == 0 {
            assert(first_group(d, false, false) =~= g);
        }
        p
    } else {
        let q = lemma_padded_shape(d.skip(3));
        let r = spec_encode_b64(d.skip(3), false, true);
        assert(g.len() == 4);
        assert(e == g + r);
        assert forall|i: int| 0 <= i < e.len() - q implies '\0' <= #[trigger] e[i] <= '\u{7f}' && spec_is_b64(
            e[i] as u8,
            false,
        ) by {
            if i < 4 {
                assert(e[i] == g[i]);
            } else {
                assert(e[i] == r[i - 4]);
            }
        }
        assert forall|i: int| e.len() - q <= i < e.len() implies #[trigger] e[i] == '=' by {
            assert(e[i] == r[i - 4]);
        }
        if q == 0 {
            assert(first_group(d, false, false) =~= g);
        }
        q
    }
}

/// Standard base64 text is found and decoded: for any data whose padded
/// standard encoding `e` has at least 20 characters (so at least 16
/// symbols) and does not start with `MZ`, which marks a PE image, detection
/// on `e` reports a finding covering all of `e`, padding included, whose
/// adapter decodes `e` back to the data. (Inputs held in memory are shorter
/// than 2^64 bytes.)
pub proof fn law_base64_text_found(artifact: Seq<char>, d: Seq<u8>)
    requires
        spec_encode_b64(d, false, true).len() >= 20,
        spec_encode_b64(d, false, true).len() <= u64::MAX,
        !(spec_encode_b64(d, false, true)[0] == 'M' && spec_encode_b64(d, false, true)[1] == 'Z'),
    ensures
        ({
            let e = encode_utf8(spec_encode_b64(d, false, true));
            let found = spec_detect(artifact, e, spec_probe(e).kind);
            exists|k: int|
                {
                    &&& 0 <= k < found.len()
                    &&& (#[trigger] found[k]).range.start == 0
                    &&& found[k].range.end == e.len()
                    &&& spec_apply_adapter(e, 0, e.len() as int, found[k].technique_id) matches Ok(out)
                    &&& out == d
                }
        }),
{
    let chars = spec_encode_b64(d, false, true);
    assert(d.len() > 0);
    let p = lemma_padded_shape(d);
    let n = chars.len() as int;
    assert forall|i: int| 0 <= i < n implies '\0' <= #[trigger] chars[i] <= '\u{7f}' by {
        if i >= n - p {
            assert(chars[i] == '=');
        }
    }
    assert(is_ascii_chars(chars));
    is_ascii_chars_encode_utf8(chars);
    encode_utf8_valid_utf8(chars);
    let e = encode_utf8(chars);
    assert(e =~= ascii_bytes(chars));
    assert forall|i: int| 0 <= i < n - p implies spec_is_b64(#[trigger] e[i], true) by {
        assert(e[i] == chars[i] as u8);
        assert(spec_is_b64(chars[i] as u8, false));
    }
    assert forall|i: int| n - p <= i < n implies #[trigger] e[i] == 0x3d by {
        assert(e[i] == chars[i] as u8);
        assert(chars[i] == '=');
    }
    lemma_run_end_at(e, 0, n - p);
    assert(pad_end(e, n - p) == n);
    assert(e.subrange(0, n) =~= e);
    assert(!has_url_symbol(e, 0, n - p));
    law_b64_round_trip(d, false, true);
    if p > 0 {
        assert(e[n - 1] == 0x3d);
        assert(has_pad(e));
    } else {
        assert forall|i: int| 0 <= i < n implies #[trigger] e[i] != 0x3d by {
            assert(e[i] == chars[i] as u8);
        }
        assert(!has_pad(e));
    }
    assert(spec_b64_finding(artifact, e, 0, n, false) is Some);
    let f = b64_run_finding(artifact, e, 0)->0;
    reveal_strlit("enc.base64");
    assert(f.range.start == 0 && f.range.end == n);
    assert(f.technique_id == "enc.base64"@);
    assert(spec_apply_adapter(e, 0, n, f.technique_id) matches Ok(out) && out == d);
    assert(spec_is_b64(e[0], true));
    assert(spec_is_b64(chars[0] as u8, false));
    let b = b64_hits(artifact, e, 0);
    assert(b[0] == f);
    let kind = spec_probe(e).kind;
    assert(!kind.is_opaque_binary() && kind != ProbeKind::Gzip);
    let all = b + (hex_hits(artifact, e, 0) + (pct_hits(artifact, e, 0) + text_findings(artifact, e, kind)));
    let found = spec_detect(artifact, e, kind);
    assert(found == cap_findings(all));
    assert(all[0] == f);
    assert(found[0] == f);
}

/// The run of symbols from `j` ends at `m` when every byte before `m` from
/// `j` on is a symbol and the byte at `m` (if any) is not.
proof fn lemma_run_end_at(bytes: Seq<u8>, j: int, m: int)
    requires
        0 <= j <= m <= bytes.len(),
        forall|i: int| j <= i < m ==> spec_is_b64(#[trigger] bytes[i], true),
        m < bytes.len() ==> !spec_is_b64(bytes[m], true),
    ensures
        b64_run_end(bytes, j) == m,
    decreases m - j,
{
    if j < m {
        assert(spec_is_b64(bytes[j], true));
        lemma_run_end_at(bytes, j + 1, m);
    }
}

} // verus!

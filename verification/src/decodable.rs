//! What detection promises to the adapters: every supported finding but the
//! gzip one (base64, base64url, base16, percent, JavaScript escapes and
//! joined literals) names a range that the adapter of its technique can
//! apply.

use vstd::prelude::*;
use vstd::utf8::{decode_utf8, valid_utf8};

use crate::analysis::{FindingView, Transformability};
use crate::codec::{hex_pairs, is_hex_digit, spec_decode_b64, spec_decode_percent, spec_is_b64};
use crate::detect::{
    b64_hits, b64_run_end, b64_run_finding, b64_run_next, cap_findings, has_url_symbol, hex_hits, hex_run_end,
    hex_run_finding, minify_view, pad_end, pct_finding, pct_hits, pct_run_end, site_findings, spec_b64_finding,
    spec_detect, text_findings, SiteKind,
};
use crate::js::{
    chain, concat_hits, escape_hits, escape_step, eval_hits, has_escape_window, lemma_parse_string_end,
    lemma_string_body_end, spec_looks_minified, spec_parse_string, string_body,
};
use crate::probe::ProbeKind;
use crate::transform::{spec_adapter, spec_apply_adapter, Adapter};

verus! {

/// One of the four text encodings that detection finds by their alphabet.
pub open spec fn encoding_technique(t: Seq<char>) -> bool {
    t == "enc.base64"@ || t == "enc.base64url"@ || t == "enc.base16"@ || t == "enc.percent"@
}

/// Applying the adapter that the finding's technique names to the
/// finding's range succeeds.
pub open spec fn adapter_decodes(bytes: Seq<u8>, f: FindingView) -> bool {
    spec_apply_adapter(bytes, f.range.start as int, f.range.end as int, f.technique_id) is Ok
}

/// Bytes below 0x80 are UTF-8 text.
proof fn lemma_ascii_utf8(s: Seq<u8>)
    requires
        forall|k: int| 0 <= k < s.len() ==> s[k] < 0x80,
    ensures
        valid_utf8(s),
    decreases s.len(),
{
    if s.len() > 0 {
        let b = s[0];
        assert((b & 0x7f) as u32 <= 0x7f) by (bit_vector);
        assert(vstd::utf8::valid_first_scalar(s));
        assert(vstd::utf8::pop_first_scalar(s) =~= s.skip(1));
        lemma_ascii_utf8(s.skip(1));
    }
}

proof fn lemma_b64_run(bytes: Seq<u8>, j: int)
    requires
        0 <= j <= bytes.len(),
    ensures
        j <= b64_run_end(bytes, j) <= bytes.len(),
        forall|k: int| j <= k < b64_run_end(bytes, j) ==> spec_is_b64(#[trigger] bytes[k], true),
    decreases bytes.len() - j,
{
    if j < bytes.len() && spec_is_b64(bytes[j], true) {
        lemma_b64_run(bytes, j + 1);
    }
}

/// The four technique ids are distinct.
proof fn lemma_reveal_ids()
    ensures
        "enc.base64"@ != "enc.base64url"@,
        "enc.base16"@ != "enc.base64"@,
        "enc.base16"@ != "enc.base64url"@,
        "enc.percent"@ != "enc.base64"@,
        "enc.percent"@ != "enc.base64url"@,
        "enc.percent"@ != "enc.base16"@,
{
    reveal_strlit("enc.base64");
    reveal_strlit("enc.base64url");
    reveal_strlit("enc.base16");
    reveal_strlit("enc.percent");
    assert("enc.base64"@.len() != "enc.base64url"@.len());
    assert("enc.base16"@[8] != "enc.base64"@[8]);
    assert("enc.base16"@.len() != "enc.base64url"@.len());
    assert("enc.percent"@.len() != "enc.base64"@.len());
    assert("enc.percent"@.len() != "enc.base64url"@.len());
    assert("enc.percent"@.len() != "enc.base16"@.len());
}

proof fn lemma_b64_finding(artifact: Seq<char>, bytes: Seq<u8>, i: int)
    requires
        0 <= i < bytes.len() <= u64::MAX,
        b64_run_finding(artifact, bytes, i) is Some,
    ensures
        adapter_decodes(bytes, b64_run_finding(artifact, bytes, i)->0),
        encoding_technique(b64_run_finding(artifact, bytes, i)->0.technique_id),
{
    lemma_b64_run(bytes, i);
    let re = b64_run_end(bytes, i);
    let pe = pad_end(bytes, re);
    let sub = bytes.subrange(i, pe);
    assert forall|k: int| 0 <= k < sub.len() implies sub[k] < 0x80 by {
        if i + k < re {
            assert(spec_is_b64(bytes[i + k], true));
        }
    }
    lemma_ascii_utf8(sub);
    reveal_strlit("enc.base64");
    reveal_strlit("enc.base64url");
    let url = has_url_symbol(bytes, i, re);
    let f = b64_run_finding(artifact, bytes, i)->0;
    assert(spec_b64_finding(artifact, bytes, i, pe, url) is Some);
    assert(spec_decode_b64(sub, url) is Some);
    assert(f.range.start as int == i && f.range.end as int == pe);
    if url {
        assert(f.technique_id == "enc.base64url"@);
        assert("enc.base64url"@.len() != "enc.base64"@.len());
        assert(spec_adapter(f.technique_id) == Some(Adapter::Base64Url));
    } else {
        assert(f.technique_id == "enc.base64"@);
        assert(spec_adapter(f.technique_id) == Some(Adapter::Base64));
    }
}

proof fn lemma_b64_hits(artifact: Seq<char>, bytes: Seq<u8>, i: int)
    requires
        0 <= i,
        bytes.len() <= u64::MAX,
    ensures
        forall|k: int|
            0 <= k < b64_hits(artifact, bytes, i).len() ==> adapter_decodes(bytes, #[trigger] b64_hits(artifact, bytes, i)[k])
                && encoding_technique(b64_hits(artifact, bytes, i)[k].technique_id),
    decreases bytes.len() - i,
{
    if i < bytes.len() {
        if !spec_is_b64(bytes[i], false) {
            lemma_b64_hits(artifact, bytes, i + 1);
        } else {
            let n = b64_run_next(bytes, i);
            let head = match b64_run_finding(artifact, bytes, i) {
                Some(f) => seq![f],
                None => Seq::<FindingView>::empty(),
            };
            let tail = if i < n <= bytes.len() {
                b64_hits(artifact, bytes, n)
            } else {
                Seq::<FindingView>::empty()
            };
            if b64_run_finding(artifact, bytes, i) is Some {
                lemma_b64_finding(artifact, bytes, i);
            }
            if i < n <= bytes.len() {
                lemma_b64_hits(artifact, bytes, n);
            }
            let all = b64_hits(artifact, bytes, i);
            assert(all == head + tail);
            assert forall|k: int| 0 <= k < all.len() implies adapter_decodes(bytes, #[trigger] all[k])
                && encoding_technique(all[k].technique_id) by {
                if k >= head.len() {
                    assert(all[k] == tail[k - head.len()]);
                }
            }
        }
    }
}

proof fn lemma_hex_run(bytes: Seq<u8>, j: int)
    requires
        0 <= j <= bytes.len(),
    ensures
        j <= hex_run_end(bytes, j) <= bytes.len(),
        forall|k: int| j <= k < hex_run_end(bytes, j) ==> is_hex_digit(#[trigger] bytes[k]),
    decreases bytes.len() - j,
{
    if j < bytes.len() && is_hex_digit(bytes[j]) {
        lemma_hex_run(bytes, j + 1);
    }
}

proof fn lemma_hex_pairs_some(s: Seq<u8>)
    requires
        s.len() % 2 == 0,
        forall|k: int| 0 <= k < s.len() ==> is_hex_digit(#[trigger] s[k]),
    ensures
        hex_pairs(s) is Some,
    decreases s.len(),
{
    if s.len() >= 2 {
        assert(is_hex_digit(s[0]) && is_hex_digit(s[1]));
        let t = s.skip(2);
        assert forall|k: int| 0 <= k < t.len() implies is_hex_digit(#[trigger] t[k]) by {
            assert(t[k] == s[k + 2]);
        }
        lemma_hex_pairs_some(t);
    }
}

proof fn lemma_hex_hits(artifact: Seq<char>, bytes: Seq<u8>, i: int)
    requires
        0 <= i,
        bytes.len() <= u64::MAX,
    ensures
        forall|k: int|
            0 <= k < hex_hits(artifact, bytes, i).len() ==> adapter_decodes(bytes, #[trigger] hex_hits(artifact, bytes, i)[k])
                && encoding_technique(hex_hits(artifact, bytes, i)[k].technique_id),
    decreases bytes.len() - i,
{
    if i < bytes.len() {
        if !is_hex_digit(bytes[i]) {
            lemma_hex_hits(artifact, bytes, i + 1);
        } else {
            lemma_hex_run(bytes, i);
            let e = hex_run_end(bytes, i);
            let head = match hex_run_finding(artifact, bytes, i) {
                Some(f) => seq![f],
                None => Seq::<FindingView>::empty(),
            };
            let tail = if i < e <= bytes.len() {
                hex_hits(artifact, bytes, e)
            } else {
                Seq::<FindingView>::empty()
            };
            if hex_run_finding(artifact, bytes, i) is Some {
                let f = hex_run_finding(artifact, bytes, i)->0;
                let sub = bytes.subrange(i, e);
                assert forall|k: int| 0 <= k < sub.len() implies is_hex_digit(#[trigger] sub[k]) by {
                    assert(is_hex_digit(bytes[i + k]));
                }
                lemma_hex_pairs_some(sub);
                lemma_ascii_utf8(sub);
                lemma_reveal_ids();
                assert(f.technique_id == "enc.base16"@);
                assert(spec_adapter(f.technique_id) == Some(Adapter::Base16));
                assert(f.range.start as int == i && f.range.end as int == e);
                assert(adapter_decodes(bytes, f));
            }
            if i < e <= bytes.len() {
                lemma_hex_hits(artifact, bytes, e);
            }
            let all = hex_hits(artifact, bytes, i);
            assert(all == head + tail);
            assert forall|k: int| 0 <= k < all.len() implies adapter_decodes(bytes, #[trigger] all[k])
                && encoding_technique(all[k].technique_id) by {
                if k >= head.len() {
                    assert(all[k] == tail[k - head.len()]);
                } else {
                    lemma_reveal_ids();
                }
            }
        }
    }
}

proof fn lemma_pct_run(bytes: Seq<u8>, j: int)
    requires
        0 <= j <= bytes.len(),
    ensures
        j <= pct_run_end(bytes, j) <= bytes.len(),
        spec_decode_percent(bytes.subrange(j, pct_run_end(bytes, j))) is Some,
        forall|k: int| j <= k < pct_run_end(bytes, j) ==> #[trigger] bytes[k] < 0x80,
    decreases bytes.len() - j,
{
    let e = pct_run_end(bytes, j);
    if j + 3 > bytes.len() || bytes[j] != 0x25 || !is_hex_digit(bytes[j + 1]) || !is_hex_digit(bytes[j + 2]) {
        assert(bytes.subrange(j, e) =~= Seq::<u8>::empty());
    } else {
        lemma_pct_run(bytes, j + 3);
        let s = bytes.subrange(j, e);
        assert(s.skip(3) =~= bytes.subrange(j + 3, e));
        assert(s[0] == 0x25 && s[1] == bytes[j + 1] && s[2] == bytes[j + 2]);
        assert forall|k: int| j <= k < e implies #[trigger] bytes[k] < 0x80 by {
            if k == j + 1 {
                assert(is_hex_digit(bytes[j + 1]));
            } else if k == j + 2 {
                assert(is_hex_digit(bytes[j + 2]));
            }
        }
    }
}

proof fn lemma_pct_hits(artifact: Seq<char>, bytes: Seq<u8>, i: int)
    requires
        0 <= i,
        bytes.len() <= u64::MAX,
    ensures
        forall|k: int|
            0 <= k < pct_hits(artifact, bytes, i).len() ==> adapter_decodes(bytes, #[trigger] pct_hits(artifact, bytes, i)[k])
                && encoding_technique(pct_hits(artifact, bytes, i)[k].technique_id),
    decreases bytes.len() - i,
{
    if i + 3 <= bytes.len() {
        if bytes[i] != 0x25 {
            lemma_pct_hits(artifact, bytes, i + 1);
        } else {
            let e = pct_run_end(bytes, i);
            lemma_pct_run(bytes, i);
            if e - i >= 12 && e <= bytes.len() {
                let f = pct_finding(artifact, bytes, i, e);
                let sub = bytes.subrange(i, e);
                assert forall|k: int| 0 <= k < sub.len() implies sub[k] < 0x80 by {
                    assert(bytes[i + k] < 0x80);
                }
                lemma_ascii_utf8(sub);
                lemma_reveal_ids();
                assert(spec_adapter(f.technique_id) == Some(Adapter::Percent));
                assert(adapter_decodes(bytes, f));
                lemma_pct_hits(artifact, bytes, e);
                let tail = pct_hits(artifact, bytes, e);
                let all = pct_hits(artifact, bytes, i);
                assert(all == seq![f] + tail);
                assert forall|k: int| 0 <= k < all.len() implies adapter_decodes(bytes, #[trigger] all[k])
                    && encoding_technique(all[k].technique_id) by {
                    if k >= 1 {
                        assert(all[k] == tail[k - 1]);
                    }
                }
            } else {
                lemma_pct_hits(artifact, bytes, i + 1);
            }
        }
    }
}

/// The other technique ids detection reports are none of the four.
proof fn lemma_other_ids()
    ensures
        !encoding_technique("enc.js-escape"@),
        !encoding_technique("data.literal-concat"@),
        !encoding_technique("control.dynamic-eval"@),
        !encoding_technique("layout.minify"@),
        !encoding_technique("compression.gzip"@),
{
    reveal_strlit("enc.base64");
    reveal_strlit("enc.base64url");
    reveal_strlit("enc.base16");
    reveal_strlit("enc.percent");
    reveal_strlit("enc.js-escape");
    reveal_strlit("data.literal-concat");
    reveal_strlit("control.dynamic-eval");
    reveal_strlit("layout.minify");
    reveal_strlit("compression.gzip");
    assert("enc.base64"@.len() == 10 && "enc.base16"@.len() == 10);
    assert("enc.base64url"@.len() == 13 && "enc.percent"@.len() == 11);
    assert("data.literal-concat"@.len() == 19 && "control.dynamic-eval"@.len() == 20);
    assert("compression.gzip"@.len() == 16);
    assert("enc.js-escape"@[4] != "enc.base64url"@[4]);
    assert("layout.minify"@[0] != "enc.base64url"@[0]);
}

proof fn lemma_text_findings(artifact: Seq<char>, bytes: Seq<u8>, kind: ProbeKind)
    ensures
        forall|k: int|
            0 <= k < text_findings(artifact, bytes, kind).len() ==> !encoding_technique(
                #[trigger] text_findings(artifact, bytes, kind)[k].technique_id,
            ),
{
    lemma_other_ids();
    if valid_utf8(bytes) {
        let a = site_findings(SiteKind::JsEscape, artifact, bytes, escape_hits(bytes, 0));
        let b = site_findings(SiteKind::LiteralConcat, artifact, bytes, concat_hits(bytes, 0));
        let c = site_findings(SiteKind::DynamicEval, artifact, bytes, eval_hits(bytes, 0));
        let d = if spec_looks_minified(decode_utf8(bytes)) && kind == ProbeKind::JavaScript {
            seq![minify_view(artifact, bytes.len() as int)]
        } else {
            Seq::<FindingView>::empty()
        };
        let all = text_findings(artifact, bytes, kind);
        assert(all == a + (b + (c + d)));
        assert forall|k: int| 0 <= k < all.len() implies !encoding_technique(#[trigger] all[k].technique_id) by {
            if k < a.len() {
                assert(all[k] == a[k]);
            } else if k < a.len() + b.len() {
                assert(all[k] == b[k - a.len()]);
            } else if k < a.len() + b.len() + c.len() {
                assert(all[k] == c[k - a.len() - b.len()]);
            } else {
                assert(all[k] == d[k - a.len() - b.len() - c.len()]);
            }
        }
    }
}

/// A base64, base64url, base16 or percent finding that detection reports
/// names a range that the adapter of its technique decodes: applying that
/// adapter to the finding's range succeeds. (Inputs held in memory are
/// shorter than 2^64 bytes.)
pub proof fn law_encoding_findings_decode(artifact: Seq<char>, bytes: Seq<u8>, kind: ProbeKind, f: FindingView)
    requires
        bytes.len() <= u64::MAX,
        spec_detect(artifact, bytes, kind).contains(f),
        encoding_technique(f.technique_id),
    ensures
        adapter_decodes(bytes, f),
{
    let d = spec_detect(artifact, bytes, kind);
    let k = choose|k: int| 0 <= k < d.len() && d[k] == f;
    lemma_other_ids();
    if !kind.is_opaque_binary() && kind != ProbeKind::Gzip {
        let b = b64_hits(artifact, bytes, 0);
        let h = hex_hits(artifact, bytes, 0);
        let p = pct_hits(artifact, bytes, 0);
        let t = text_findings(artifact, bytes, kind);
        let all = b + (h + (p + t));
        lemma_b64_hits(artifact, bytes, 0);
        lemma_hex_hits(artifact, bytes, 0);
        lemma_pct_hits(artifact, bytes, 0);
        lemma_text_findings(artifact, bytes, kind);
        assert(d == cap_findings(all));
        assert(d[k] == all[k]);
        if k < b.len() {
            assert(all[k] == b[k]);
        } else if k < b.len() + h.len() {
            assert(all[k] == h[k - b.len()]);
        } else if k < b.len() + h.len() + p.len() {
            assert(all[k] == p[k - b.len() - h.len()]);
        } else {
            assert(all[k] == t[k - b.len() - h.len() - p.len()]);
        }
    }
}

proof fn lemma_concat_bounds(bytes: Seq<u8>, i: int)
    requires
        0 <= i,
    ensures
        forall|k: int|
            0 <= k < concat_hits(bytes, i).len() ==> i <= (#[trigger] concat_hits(bytes, i)[k]).0 < concat_hits(
                bytes,
                i,
            )[k].1 <= bytes.len(),
    decreases bytes.len() - i,
{
    let all = concat_hits(bytes, i);
    if 0 <= i < bytes.len() {
        match spec_parse_string(bytes, i) {
            Some((le, v)) => {
                let c = chain(bytes, le);
                if c.2 {
                    if i < c.0 <= bytes.len() {
                        lemma_concat_bounds(bytes, c.0);
                        let tail = concat_hits(bytes, c.0);
                        assert(all == seq![(i, c.0)] + tail);
                        assert forall|k: int| 0 <= k < all.len() implies i <= (#[trigger] all[k]).0 < all[k].1
                            <= bytes.len() by {
                            if k > 0 {
                                assert(all[k] == tail[k - 1]);
                            }
                        }
                    }
                } else if i < le <= bytes.len() {
                    lemma_concat_bounds(bytes, le);
                    let tail = concat_hits(bytes, le);
                    assert(all == tail);
                    assert forall|k: int| 0 <= k < all.len() implies i <= (#[trigger] all[k]).0 < all[k].1
                        <= bytes.len() by {
                        assert(all[k] == tail[k]);
                    }
                }
            },
            None => {
                lemma_concat_bounds(bytes, i + 1);
                let tail = concat_hits(bytes, i + 1);
                assert(all == tail);
                assert forall|k: int| 0 <= k < all.len() implies i <= (#[trigger] all[k]).0 < all[k].1
                    <= bytes.len() by {
                    assert(all[k] == tail[k]);
                }
            },
        }
    }
}

/// A literal-concatenation finding among the JavaScript findings can be
/// applied.
proof fn lemma_text_concat(artifact: Seq<char>, bytes: Seq<u8>, kind: ProbeKind, m: int)
    requires
        bytes.len() <= u64::MAX,
        0 <= m < text_findings(artifact, bytes, kind).len(),
        text_findings(artifact, bytes, kind)[m].technique_id == "data.literal-concat"@,
    ensures
        adapter_decodes(bytes, text_findings(artifact, bytes, kind)[m]),
{
    let t = text_findings(artifact, bytes, kind);
    assert(valid_utf8(bytes));
    let hits = concat_hits(bytes, 0);
    let ea = site_findings(SiteKind::JsEscape, artifact, bytes, escape_hits(bytes, 0));
    let ca = site_findings(SiteKind::LiteralConcat, artifact, bytes, hits);
    let va = site_findings(SiteKind::DynamicEval, artifact, bytes, eval_hits(bytes, 0));
    let mv = if spec_looks_minified(decode_utf8(bytes)) && kind == ProbeKind::JavaScript {
        seq![minify_view(artifact, bytes.len() as int)]
    } else {
        Seq::<FindingView>::empty()
    };
    assert(t == ea + (ca + (va + mv)));
    lemma_concat_ids();
    if m < ea.len() {
        assert(t[m] == ea[m]);
    } else if m < ea.len() + ca.len() {
        let j = m - ea.len();
        assert(t[m] == ca[j]);
        lemma_concat_bounds(bytes, 0);
        assert(0 <= hits[j].0 < hits[j].1 <= bytes.len());
        assert(spec_adapter(t[m].technique_id) == Some(Adapter::LiteralConcat));
    } else if m < ea.len() + ca.len() + va.len() {
        assert(t[m] == va[m - ea.len() - ca.len()]);
    } else {
        assert(t[m] == mv[m - ea.len() - ca.len() - va.len()]);
    }
}

/// The literal-concatenation id differs from every other technique id.
proof fn lemma_concat_ids()
    ensures
        "data.literal-concat"@ != "enc.base64"@,
        "data.literal-concat"@ != "enc.base64url"@,
        "data.literal-concat"@ != "enc.base16"@,
        "data.literal-concat"@ != "enc.percent"@,
        "data.literal-concat"@ != "enc.js-escape"@,
        "data.literal-concat"@ != "compression.gzip"@,
        "data.literal-concat"@ != "layout.minify"@,
        "data.literal-concat"@ != "control.dynamic-eval"@,
{
    reveal_strlit("enc.base64");
    reveal_strlit("enc.base64url");
    reveal_strlit("enc.base16");
    reveal_strlit("enc.percent");
    reveal_strlit("enc.js-escape");
    reveal_strlit("data.literal-concat");
    reveal_strlit("control.dynamic-eval");
    reveal_strlit("layout.minify");
    reveal_strlit("compression.gzip");
    assert("data.literal-concat"@.len() == 19);
    assert("enc.base64"@.len() == 10 && "enc.base16"@.len() == 10);
    assert("enc.base64url"@.len() == 13 && "enc.percent"@.len() == 11);
    assert("enc.js-escape"@.len() == 13 && "layout.minify"@.len() == 13);
    assert("compression.gzip"@.len() == 16 && "control.dynamic-eval"@.len() == 20);
}

/// A literal-concatenation finding that detection reports can be applied:
/// folding the input for it succeeds. (Inputs held in memory are shorter
/// than 2^64 bytes.)
pub proof fn law_literal_concat_findings_apply(artifact: Seq<char>, bytes: Seq<u8>, kind: ProbeKind, f: FindingView)
    requires
        bytes.len() <= u64::MAX,
        spec_detect(artifact, bytes, kind).contains(f),
        f.technique_id == "data.literal-concat"@,
    ensures
        adapter_decodes(bytes, f),
{
    let d = spec_detect(artifact, bytes, kind);
    let k = choose|k: int| 0 <= k < d.len() && d[k] == f;
    lemma_concat_ids();
    if !kind.is_opaque_binary() && kind != ProbeKind::Gzip {
        let b = b64_hits(artifact, bytes, 0);
        let h = hex_hits(artifact, bytes, 0);
        let p = pct_hits(artifact, bytes, 0);
        let t = text_findings(artifact, bytes, kind);
        let all = b + (h + (p + t));
        lemma_b64_hits(artifact, bytes, 0);
        lemma_hex_hits(artifact, bytes, 0);
        lemma_pct_hits(artifact, bytes, 0);
        assert(d == cap_findings(all));
        assert(d[k] == all[k]);
        if k < b.len() {
            assert(all[k] == b[k]);
        } else if k < b.len() + h.len() {
            assert(all[k] == h[k - b.len()]);
        } else if k < b.len() + h.len() + p.len() {
            assert(all[k] == p[k - b.len() - h.len()]);
        } else {
            let m = k - b.len() - h.len() - p.len();
            assert(all[k] == t[m]);
            lemma_text_concat(artifact, bytes, kind, m);
        }
    }
}

/// Parsing the rest of a literal inside the range that ends after its
/// closing quote gives what parsing it in the whole input gives.
proof fn lemma_body_shift(bytes: Seq<u8>, q: u8, j: int, s: int, e: int, r: Seq<char>)
    requires
        0 <= s <= j,
        string_body(bytes, q, j) == Some((e, r)),
    ensures
        string_body(bytes.subrange(s, e), q, j - s) == Some((e - s, r)),
    decreases bytes.len() - j,
{
    lemma_string_body_end(bytes, q, j);
    let sub = bytes.subrange(s, e);
    let b = bytes[j];
    assert(sub[j - s] == b);
    if b == q {
    } else if b == 0x5c {
        let (c, nj) = escape_step(bytes, j)->0;
        let (_, r2) = string_body(bytes, q, nj)->0;
        lemma_string_body_end(bytes, q, nj);
        assert(sub[j - s + 1] == bytes[j + 1]);
        if j + 2 < e {
            assert(sub[j - s + 2] == bytes[j + 2]);
        }
        if j + 3 < e {
            assert(sub[j - s + 3] == bytes[j + 3]);
        }
        if j + 4 < e {
            assert(sub[j - s + 4] == bytes[j + 4]);
        }
        if j + 5 < e {
            assert(sub[j - s + 5] == bytes[j + 5]);
        }
        assert(escape_step(sub, j - s) == Some((c, nj - s)));
        lemma_body_shift(bytes, q, nj, s, e, r2);
    } else {
        let (_, r2) = string_body(bytes, q, j + 1)->0;
        lemma_body_shift(bytes, q, j + 1, s, e, r2);
    }
}

proof fn lemma_escape_bounds(bytes: Seq<u8>, i: int)
    requires
        0 <= i,
    ensures
        forall|k: int|
            0 <= k < escape_hits(bytes, i).len() ==> {
                let h = #[trigger] escape_hits(bytes, i)[k];
                &&& i <= h.0 < h.1 <= bytes.len()
                &&& spec_parse_string(bytes, h.0) is Some
                &&& (spec_parse_string(bytes, h.0)->0).0 == h.1
            },
    decreases bytes.len() - i,
{
    let all = escape_hits(bytes, i);
    if 0 <= i < bytes.len() {
        match spec_parse_string(bytes, i) {
            Some((end, v)) => {
                if i < end <= bytes.len() {
                    lemma_escape_bounds(bytes, end);
                    let head = if has_escape_window(bytes, i, end) && v.len() >= 1 {
                        seq![(i, end)]
                    } else {
                        Seq::<(int, int)>::empty()
                    };
                    let tail = escape_hits(bytes, end);
                    assert(all == head + tail);
                    assert forall|k: int| 0 <= k < all.len() implies {
                        let h = #[trigger] all[k];
                        &&& i <= h.0 < h.1 <= bytes.len()
                        &&& spec_parse_string(bytes, h.0) is Some
                        &&& (spec_parse_string(bytes, h.0)->0).0 == h.1
                    } by {
                        if k >= head.len() {
                            assert(all[k] == tail[k - head.len()]);
                        }
                    }
                }
            },
            None => {
                lemma_escape_bounds(bytes, i + 1);
                let tail = escape_hits(bytes, i + 1);
                assert(all == tail);
                assert forall|k: int| 0 <= k < all.len() implies {
                    let h = #[trigger] all[k];
                    &&& i <= h.0 < h.1 <= bytes.len()
                    &&& spec_parse_string(bytes, h.0) is Some
                    &&& (spec_parse_string(bytes, h.0)->0).0 == h.1
                } by {
                    assert(all[k] == tail[k]);
                }
            },
        }
    }
}

/// The literal at `s` parses again on its own range.
proof fn lemma_literal_on_its_range(bytes: Seq<u8>, s: int)
    requires
        0 <= s,
        spec_parse_string(bytes, s) is Some,
    ensures
        spec_parse_string(bytes.subrange(s, (spec_parse_string(bytes, s)->0).0), 0) is Some,
{
    let (e, v) = spec_parse_string(bytes, s)->0;
    lemma_parse_string_end(bytes, s);
    lemma_body_shift(bytes, bytes[s], s + 1, s, e, v);
    assert(bytes.subrange(s, e)[0] == bytes[s]);
}

/// The JavaScript-escape id differs from every other technique id.
proof fn lemma_escape_ids()
    ensures
        "enc.js-escape"@ != "enc.base64"@,
        "enc.js-escape"@ != "enc.base64url"@,
        "enc.js-escape"@ != "enc.base16"@,
        "enc.js-escape"@ != "enc.percent"@,
        "enc.js-escape"@ != "data.literal-concat"@,
        "enc.js-escape"@ != "compression.gzip"@,
        "enc.js-escape"@ != "layout.minify"@,
        "enc.js-escape"@ != "control.dynamic-eval"@,
{
    reveal_strlit("enc.base64");
    reveal_strlit("enc.base64url");
    reveal_strlit("enc.base16");
    reveal_strlit("enc.percent");
    reveal_strlit("enc.js-escape");
    reveal_strlit("data.literal-concat");
    reveal_strlit("control.dynamic-eval");
    reveal_strlit("layout.minify");
    reveal_strlit("compression.gzip");
    assert("data.literal-concat"@.len() == 19);
    assert("enc.base64"@.len() == 10 && "enc.base16"@.len() == 10);
    assert("enc.base64url"@.len() == 13 && "enc.percent"@.len() == 11);
    assert("enc.js-escape"@.len() == 13 && "layout.minify"@.len() == 13);
    assert("compression.gzip"@.len() == 16 && "control.dynamic-eval"@.len() == 20);
    assert("enc.js-escape"@[4] != "enc.base64url"@[4]);
    assert("enc.js-escape"@[0] != "layout.minify"@[0]);
}

/// A JavaScript-escape finding among the JavaScript findings can be applied.
proof fn lemma_text_escape(artifact: Seq<char>, bytes: Seq<u8>, kind: ProbeKind, m: int)
    requires
        bytes.len() <= u64::MAX,
        0 <= m < text_findings(artifact, bytes, kind).len(),
        text_findings(artifact, bytes, kind)[m].technique_id == "enc.js-escape"@,
    ensures
        adapter_decodes(bytes, text_findings(artifact, bytes, kind)[m]),
{
    let t = text_findings(artifact, bytes, kind);
    assert(valid_utf8(bytes));
    let hits = escape_hits(bytes, 0);
    let ea = site_findings(SiteKind::JsEscape, artifact, bytes, hits);
    let ca = site_findings(SiteKind::LiteralConcat, artifact, bytes, concat_hits(bytes, 0));
    let va = site_findings(SiteKind::DynamicEval, artifact, bytes, eval_hits(bytes, 0));
    let mv = if spec_looks_minified(decode_utf8(bytes)) && kind == ProbeKind::JavaScript {
        seq![minify_view(artifact, bytes.len() as int)]
    } else {
        Seq::<FindingView>::empty()
    };
    assert(t == ea + (ca + (va + mv)));
    lemma_escape_ids();
    if m < ea.len() {
        assert(t[m] == ea[m]);
        lemma_escape_bounds(bytes, 0);
        let h = hits[m];
        assert(0 <= h.0 < h.1 <= bytes.len());
        lemma_literal_on_its_range(bytes, h.0);
        assert(spec_adapter(t[m].technique_id) == Some(Adapter::JsEscape));
    } else if m < ea.len() + ca.len() {
        assert(t[m] == ca[m - ea.len()]);
    } else if m < ea.len() + ca.len() + va.len() {
        assert(t[m] == va[m - ea.len() - ca.len()]);
    } else {
        assert(t[m] == mv[m - ea.len() - ca.len() - va.len()]);
    }
}

/// A JavaScript-escape finding that detection reports can be applied:
/// decoding the string literal in its range succeeds. (Inputs held in
/// memory are shorter than 2^64 bytes.)
pub proof fn law_js_escape_findings_apply(artifact: Seq<char>, bytes: Seq<u8>, kind: ProbeKind, f: FindingView)
    requires
        bytes.len() <= u64::MAX,
        spec_detect(artifact, bytes, kind).contains(f),
        f.technique_id == "enc.js-escape"@,
    ensures
        adapter_decodes(bytes, f),
{
    let d = spec_detect(artifact, bytes, kind);
    let k = choose|k: int| 0 <= k < d.len() && d[k] == f;
    lemma_escape_ids();
    if !kind.is_opaque_binary() && kind != ProbeKind::Gzip {
        let b = b64_hits(artifact, bytes, 0);
        let h = hex_hits(artifact, bytes, 0);
        let p = pct_hits(artifact, bytes, 0);
        let t = text_findings(artifact, bytes, kind);
        let all = b + (h + (p + t));
        lemma_b64_hits(artifact, bytes, 0);
        lemma_hex_hits(artifact, bytes, 0);
        lemma_pct_hits(artifact, bytes, 0);
        assert(d == cap_findings(all));
        assert(d[k] == all[k]);
        if k < b.len() {
            assert(all[k] == b[k]);
        } else if k < b.len() + h.len() {
            assert(all[k] == h[k - b.len()]);
        } else if k < b.len() + h.len() + p.len() {
            assert(all[k] == p[k - b.len() - h.len()]);
        } else {
            let m = k - b.len() - h.len() - p.len();
            assert(all[k] == t[m]);
            lemma_text_escape(artifact, bytes, kind, m);
        }
    }
}

/// The JavaScript findings that are supported are escapes and literal
/// concatenations.
proof fn lemma_text_supported(artifact: Seq<char>, bytes: Seq<u8>, kind: ProbeKind, m: int)
    requires
        0 <= m < text_findings(artifact, bytes, kind).len(),
        text_findings(artifact, bytes, kind)[m].transformability == Transformability::Supported,
    ensures
        text_findings(artifact, bytes, kind)[m].technique_id == "enc.js-escape"@
            || text_findings(artifact, bytes, kind)[m].technique_id == "data.literal-concat"@,
{
    let t = text_findings(artifact, bytes, kind);
    let ea = site_findings(SiteKind::JsEscape, artifact, bytes, escape_hits(bytes, 0));
    let ca = site_findings(SiteKind::LiteralConcat, artifact, bytes, concat_hits(bytes, 0));
    let va = site_findings(SiteKind::DynamicEval, artifact, bytes, eval_hits(bytes, 0));
    let mv = if spec_looks_minified(decode_utf8(bytes)) && kind == ProbeKind::JavaScript {
        seq![minify_view(artifact, bytes.len() as int)]
    } else {
        Seq::<FindingView>::empty()
    };
    assert(t == ea + (ca + (va + mv)));
    if m < ea.len() {
        assert(t[m] == ea[m]);
    } else if m < ea.len() + ca.len() {
        assert(t[m] == ca[m - ea.len()]);
    } else if m < ea.len() + ca.len() + va.len() {
        assert(t[m] == va[m - ea.len() - ca.len()]);
    } else {
        assert(t[m] == mv[m - ea.len() - ca.len() - va.len()]);
    }
}

/// Every supported finding that detection reports, but for the gzip
/// finding, can be applied: running the adapter that its technique names on
/// its range succeeds. (Inputs held in memory are shorter than 2^64 bytes.)
pub proof fn law_supported_findings_apply(artifact: Seq<char>, bytes: Seq<u8>, kind: ProbeKind, f: FindingView)
    requires
        bytes.len() <= u64::MAX,
        spec_detect(artifact, bytes, kind).contains(f),
        f.transformability == Transformability::Supported,
        f.technique_id != "compression.gzip"@,
    ensures
        adapter_decodes(bytes, f),
{
    if encoding_technique(f.technique_id) {
        law_encoding_findings_decode(artifact, bytes, kind, f);
    } else if f.technique_id == "data.literal-concat"@ {
        law_literal_concat_findings_apply(artifact, bytes, kind, f);
    } else if f.technique_id == "enc.js-escape"@ {
        law_js_escape_findings_apply(artifact, bytes, kind, f);
    } else {
        let d = spec_detect(artifact, bytes, kind);
        let k = choose|k: int| 0 <= k < d.len() && d[k] == f;
        if !kind.is_opaque_binary() && kind != ProbeKind::Gzip {
            let b = b64_hits(artifact, bytes, 0);
            let h = hex_hits(artifact, bytes, 0);
            let p = pct_hits(artifact, bytes, 0);
            let t = text_findings(artifact, bytes, kind);
            let all = b + (h + (p + t));
            lemma_b64_hits(artifact, bytes, 0);
            lemma_hex_hits(artifact, bytes, 0);
            lemma_pct_hits(artifact, bytes, 0);
            assert(d == cap_findings(all));
            assert(d[k] == all[k]);
            if k < b.len() {
                assert(all[k] == b[k]);
            } else if k < b.len() + h.len() {
                assert(all[k] == h[k - b.len()]);
            } else if k < b.len() + h.len() + p.len() {
                assert(all[k] == p[k - b.len() - h.len()]);
            } else {
                let m = k - b.len() - h.len() - p.len();
                assert(all[k] == t[m]);
                lemma_text_supported(artifact, bytes, kind, m);
            }
        }
    }
}

} // verus!

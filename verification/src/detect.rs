//! Detectors: base64/base64url, base16 and percent runs, JavaScript string
//! escapes, `+`-joined literals, `eval(` sites, minified layout and gzip.

use vstd::prelude::*;
use vstd::string::StringSliceAdditionalSpecFns;
use vstd::utf8::{decode_utf8, encode_utf8, valid_utf8};

use crate::analysis::{
    all_ids_fresh, evidence_view, findings_view, ids_fresh, strings_view, ByteRange, Evidence, EvidenceView, Finding, FindingView,
    Identification, Score, Transformability,
};
use crate::codec::{decode_b64_bytes, encode_b64, is_b64, is_hex_byte, spec_decode_b64, spec_encode_b64, spec_is_b64, is_hex_digit};
use crate::info::RULE_VERSION;
use crate::js::{
    chain, concat_hits, escape_hits, eval_hits, is_eval_at, lemma_skip_ws, skip_ws, spec_parse_string, spec_skip, find_eval_ranges_bytes, find_js_escapes_bytes,
    find_literal_concats_bytes, looks_minified, pairs_view, spec_looks_minified, str_from_utf8,
};
use crate::outside::new_uuid;
use crate::probe::{Probe, ProbeKind};
use crate::text::{bytes_eq, excerpt, spec_excerpt, MAX_EXCERPT_BYTES};

verus! {

/// At most this many findings per input.
pub const MAX_FINDINGS: usize = 1000;

/// Shortest base64 run, before padding, that is considered.
pub const MIN_B64: usize = 16;

// ---------------------------------------------------------------- records

pub open spec fn ev_view(
    source: Seq<char>,
    start: int,
    end: int,
    observation: Seq<char>,
    polarity: Seq<char>,
    group: Seq<char>,
    excerpt: Seq<char>,
) -> EvidenceView {
    EvidenceView {
        source_rule: source,
        range: ByteRange { start: start as u64, end: end as u64 },
        observation,
        polarity,
        group,
        excerpt,
    }
}

pub open spec fn finding_view(
    artifact: Seq<char>,
    technique: Seq<char>,
    category: Seq<char>,
    start: int,
    end: int,
    identification: Identification,
    score: u8,
    transformability: Transformability,
    article: Seq<char>,
    evidence: Seq<EvidenceView>,
    limitations: Seq<Seq<char>>,
) -> FindingView {
    FindingView {
        artifact_id: artifact,
        technique_id: technique,
        category,
        range: ByteRange { start: start as u64, end: end as u64 },
        identification,
        score,
        score_kind: "rule_match"@,
        rule_version: RULE_VERSION@,
        evidence,
        transformability,
        limitations,
        article_id: article,
    }
}

fn ev(
    source: &str,
    start: u64,
    end: u64,
    observation: &str,
    polarity: &str,
    group: &str,
    excerpt: String,
) -> (e: Evidence)
    ensures
        e@ == ev_view(
            source@,
            start as int,
            end as int,
            observation@,
            polarity@,
            group@,
            excerpt@,
        ),
        e.id@.len() == 36,
{
    Evidence {
        id: new_uuid(),
        source_rule: source.to_string(),
        range: ByteRange { start, end },
        observation: observation.to_string(),
        polarity: polarity.to_string(),
        group: group.to_string(),
        excerpt,
    }
}

fn finding(
    artifact_id: &str,
    technique: &str,
    category: &str,
    start: u64,
    end: u64,
    identification: Identification,
    score: u8,
    transformability: Transformability,
    article_id: &str,
    evidence: Vec<Evidence>,
    limitations: Vec<String>,
) -> (f: Finding)
    requires
        forall|k: int| 0 <= k < evidence@.len() ==> (#[trigger] evidence@[k]).id@.len() == 36,
    ensures
        ids_fresh(f),
        f@ == finding_view(
            artifact_id@,
            technique@,
            category@,
            start as int,
            end as int,
            identification,
            score,
            transformability,
            article_id@,
            evidence_view(evidence@),
            strings_view(limitations@),
        ),
{
    Finding {
        id: new_uuid(),
        artifact_id: artifact_id.to_string(),
        technique_id: technique.to_string(),
        category: category.to_string(),
        range: ByteRange { start, end },
        identification,
        score: Score {
            value: score,
            kind: "rule_match".to_string(),
            rule_version: RULE_VERSION.to_string(),
        },
        evidence,
        transformability,
        limitations,
        article_id: article_id.to_string(),
    }
}

pub fn strings1(a: &str) -> (v: Vec<String>)
    ensures
        strings_view(v@) == seq![a@],
{
    let mut v: Vec<String> = Vec::new();
    v.push(a.to_string());
    assert(strings_view(v@) =~= seq![a@]);
    v
}

pub fn strings2(a: &str, b: &str) -> (v: Vec<String>)
    ensures
        strings_view(v@) == seq![a@, b@],
{
    let mut v: Vec<String> = Vec::new();
    v.push(a.to_string());
    v.push(b.to_string());
    assert(strings_view(v@) =~= seq![a@, b@]);
    v
}

fn evidence1(e: Evidence) -> (v: Vec<Evidence>)
    ensures
        evidence_view(v@) == seq![e@],
        v@ == seq![e],
{
    let mut v: Vec<Evidence> = Vec::new();
    v.push(e);
    assert(evidence_view(v@) =~= seq![e@]);
    assert(v@ =~= seq![e]);
    v
}

fn evidence2(a: Evidence, b: Evidence) -> (v: Vec<Evidence>)
    ensures
        evidence_view(v@) == seq![a@, b@],
        v@ == seq![a, b],
{
    let mut v: Vec<Evidence> = Vec::new();
    v.push(a);
    v.push(b);
    assert(evidence_view(v@) =~= seq![a@, b@]);
    assert(v@ =~= seq![a, b]);
    v
}

// ---------------------------------------------------------------- capped lists

/// `out` extended by as many of `more` as keep it within `MAX_FINDINGS`.
pub open spec fn append_capped(out: Seq<FindingView>, more: Seq<FindingView>) -> Seq<FindingView> {
    if out.len() >= MAX_FINDINGS {
        out
    } else if more.len() <= MAX_FINDINGS - out.len() {
        out + more
    } else {
        out + more.take(MAX_FINDINGS - out.len())
    }
}

/// The first `MAX_FINDINGS` of a list.
pub open spec fn cap_findings(s: Seq<FindingView>) -> Seq<FindingView> {
    if s.len() <= MAX_FINDINGS {
        s
    } else {
        s.take(MAX_FINDINGS as int)
    }
}

proof fn lemma_append_capped_twice(o: Seq<FindingView>, a: Seq<FindingView>, b: Seq<FindingView>)
    requires
        o.len() <= MAX_FINDINGS,
    ensures
        append_capped(append_capped(o, a), b) == cap_findings(o + (a + b)),
        append_capped(o, a).len() <= MAX_FINDINGS,
{
    assert(append_capped(append_capped(o, a), b) =~= cap_findings(o + (a + b)));
}

proof fn lemma_append_capped_empty(a: Seq<FindingView>)
    ensures
        append_capped(Seq::<FindingView>::empty(), a) == cap_findings(a),
{
    assert(append_capped(Seq::<FindingView>::empty(), a) =~= cap_findings(a));
}

proof fn lemma_cap_push(s: Seq<FindingView>, x: FindingView)
    ensures
        cap_findings(cap_findings(s).push(x)) == cap_findings(s.push(x)),
{
    assert(cap_findings(cap_findings(s).push(x)) =~= cap_findings(s.push(x)));
}

proof fn lemma_cap_idem(s: Seq<FindingView>)
    ensures
        cap_findings(cap_findings(s)) == cap_findings(s),
{
    assert(cap_findings(cap_findings(s)) =~= cap_findings(s));
}

// ---------------------------------------------------------------- base64

/// `s` without its trailing `=`.
pub open spec fn trim_pad(s: Seq<u8>) -> Seq<u8>
    decreases s.len(),
{
    if s.len() > 0 && s.last() == 0x3d {
        trim_pad(s.drop_last())
    } else {
        s
    }
}

/// The run re-encodes to itself; for base64url, trailing `=` aside.
pub open spec fn canonical(original: Seq<u8>, reencoded: Seq<u8>, url: bool) -> bool {
    original == reencoded || (url && trim_pad(original) == trim_pad(reencoded))
}

pub open spec fn has_pad(s: Seq<u8>) -> bool {
    exists|k: int| 0 <= k < s.len() && s[k] == 0x3d
}

/// The base64 score: 10, plus 20 for a length that is a multiple of four (or
/// URL alphabet), plus 40 for a matching round trip, plus 20 when a quote
/// precedes the run; 40 off, down to zero, when the round trip fails.
pub open spec fn b64_score(aligned: bool, round: bool, in_string: bool) -> u8 {
    let s = 10 + (if aligned {
        20int
    } else {
        0int
    }) + (if round {
        40int
    } else {
        0int
    }) + (if in_string {
        20int
    } else {
        0int
    });
    let t = if !round {
        if s >= 40 {
            s - 40
        } else {
            0
        }
    } else {
        s
    };
    (if t > 100 {
        100
    } else {
        t
    }) as u8
}

/// The base64 finding for `bytes[start..end]`, if the run decodes and
/// scores at least 30.
pub open spec fn spec_b64_finding(
    artifact: Seq<char>,
    bytes: Seq<u8>,
    start: int,
    end: int,
    url: bool,
) -> Option<FindingView> {
    let text = bytes.subrange(start, end);
    match spec_decode_b64(text, url) {
        None => None,
        Some(decoded) => {
            let re = encode_utf8(spec_encode_b64(decoded, url, has_pad(text)));
            let round = canonical(text, re, url);
            let in_string = start > 0 && (bytes[start - 1] == 0x22 || bytes[start - 1] == 0x27);
            let score = b64_score(text.len() % 4 == 0 || url, round, in_string);
            if score < 30 {
                None
            } else {
                let ident = if round && score >= 80 && !url {
                    Identification::Confirmed
                } else if score >= 60 {
                    Identification::Probable
                } else {
                    Identification::Possible
                };
                let ex = spec_excerpt(bytes, start, end);
                Some(
                    finding_view(
                        artifact,
                        if url {
                            "enc.base64url"@
                        } else {
                            "enc.base64"@
                        },
                        "encoding"@,
                        start,
                        end,
                        ident,
                        score,
                        Transformability::Supported,
                        "wiki.enc.base64.ja"@,
                        seq![
                            ev_view(
                                "alphabet"@,
                                start,
                                end,
                                "Alphabet and length match the profile"@,
                                "supports"@,
                                "charset"@,
                                ex,
                            ),
                            ev_view(
                                "roundtrip"@,
                                start,
                                end,
                                if round {
                                    "strict decode + re-encode matched"@
                                } else {
                                    "re-encode mismatch"@
                                },
                                if round {
                                    "supports"@
                                } else {
                                    "contradicts"@
                                },
                                "roundtrip"@,
                                ex,
                            ),
                        ],
                        seq!["Encoding is not confidentiality."@, "Short tokens can be coincidental."@],
                    ),
                )
            }
        },
    }
}

pub(crate) fn trim_pad_len(s: &[u8]) -> (n: usize)
    ensures
        n <= s@.len(),
        s@.subrange(0, n as int) == trim_pad(s@),
{
    let mut n = s.len();
    assert(s@.subrange(0, n as int) =~= s@);
    while n > 0 && s[n - 1] == 0x3d
        invariant
            n <= s@.len(),
            trim_pad(s@) == trim_pad(s@.subrange(0, n as int)),
        decreases n,
    {
        assert(s@.subrange(0, n as int).drop_last() =~= s@.subrange(0, n - 1));
        n = n - 1;
    }
    n
}

fn canonical_eq(original: &[u8], reencoded: &[u8], url: bool) -> (r: bool)
    ensures
        r == canonical(original@, reencoded@, url),
{
    if bytes_eq(original, reencoded) {
        return true;
    }
    if url {
        let a = trim_pad_len(original);
        let b = trim_pad_len(reencoded);
        return bytes_eq(vstd::slice::slice_subrange(original, 0, a), vstd::slice::slice_subrange(reencoded, 0, b));
    }
    false
}

pub(crate) fn has_pad_exec(s: &[u8]) -> (r: bool)
    ensures
        r == has_pad(s@),
{
    let mut k: usize = 0;
    while k < s.len()
        invariant
            k <= s@.len(),
            forall|m: int| 0 <= m < k ==> s@[m] != 0x3d,
        decreases s.len() - k,
    {
        if s[k] == 0x3d {
            return true;
        }
        k = k + 1;
    }
    false
}

fn b64_finding(artifact_id: &str, bytes: &[u8], start: usize, end: usize, url: bool) -> (r: Option<
    Finding,
>)
    requires
        start <= end <= bytes@.len(),
    ensures
        match spec_b64_finding(artifact_id@, bytes@, start as int, end as int, url) {
            None => r is None,
            Some(v) => r matches Some(f) && f@ == v,
        },
        r matches Some(f) ==> ids_fresh(f),
{
    let text = vstd::slice::slice_subrange(bytes, start, end);
    let decoded = match decode_b64_bytes(text, url) {
        Some(d) => d,
        None => {
            return None;
        },
    };
    let keep = has_pad_exec(text);
    let re = encode_b64(decoded.as_slice(), url, keep);
    let round = canonical_eq(text, re.as_str().as_bytes(), url);
    let aligned = text.len() % 4 == 0 || url;
    let in_string = start > 0 && (bytes[start - 1] == 0x22 || bytes[start - 1] == 0x27);
    let mut score: u8 = 10;
    if aligned {
        score = score + 20;
    }
    if round {
        score = score + 40;
    }
    if in_string {
        score = score + 20;
    }
    if !round {
        score = if score >= 40 {
            score - 40
        } else {
            0
        };
    }
    if score > 100 {
        score = 100;
    }
    assert(score == b64_score(aligned, round, in_string));
    if score < 30 {
        return None;
    }
    let ident = if round && score >= 80 && !url {
        Identification::Confirmed
    } else if score >= 60 {
        Identification::Probable
    } else {
        Identification::Possible
    };
    let tech = if url {
        "enc.base64url"
    } else {
        "enc.base64"
    };
    let e1 = ev(
        "alphabet",
        start as u64,
        end as u64,
        "Alphabet and length match the profile",
        "supports",
        "charset",
        excerpt(bytes, start, end),
    );
    let e2 = ev(
        "roundtrip",
        start as u64,
        end as u64,
        if round {
            "strict decode + re-encode matched"
        } else {
            "re-encode mismatch"
        },
        if round {
            "supports"
        } else {
            "contradicts"
        },
        "roundtrip",
        excerpt(bytes, start, end),
    );
    Some(
        finding(
            artifact_id,
            tech,
            "encoding",
            start as u64,
            end as u64,
            ident,
            score,
            Transformability::Supported,
            "wiki.enc.base64.ja",
            evidence2(e1, e2),
            strings2("Encoding is not confidentiality.", "Short tokens can be coincidental."),
        ),
    )
}


/// The end of the run of base64 (either alphabet) symbols from `j`.
pub open spec fn b64_run_end(bytes: Seq<u8>, j: int) -> int
    decreases bytes.len() - j,
{
    if j < 0 || j >= bytes.len() || !spec_is_b64(bytes[j], true) {
        j
    } else {
        b64_run_end(bytes, j + 1)
    }
}

/// Up to two `=` after position `e`.
pub open spec fn pad_end(bytes: Seq<u8>, e: int) -> int {
    if 0 <= e < bytes.len() && bytes[e] == 0x3d {
        if e + 1 < bytes.len() && bytes[e + 1] == 0x3d {
            e + 2
        } else {
            e + 1
        }
    } else {
        e
    }
}

pub open spec fn has_url_symbol(bytes: Seq<u8>, a: int, b: int) -> bool {
    exists|k: int| a <= k < b && (bytes[k] == 0x2d || bytes[k] == 0x5f)
}

/// The finding for the run starting at `start`: runs shorter than
/// `MIN_B64` are ignored; a run using `-` or `_` is read as base64url; a
/// standard run that also decodes as base64url is only probable.
pub open spec fn b64_run_finding(artifact: Seq<char>, bytes: Seq<u8>, start: int) -> Option<
    FindingView,
> {
    let re = b64_run_end(bytes, start);
    let pe = pad_end(bytes, re);
    if re - start < MIN_B64 {
        None
    } else if has_url_symbol(bytes, start, re) {
        spec_b64_finding(artifact, bytes, start, pe, true)
    } else {
        match spec_b64_finding(artifact, bytes, start, pe, false) {
            None => None,
            Some(f) => if spec_decode_b64(bytes.subrange(start, pe), true) is Some {
                Some(
                    FindingView {
                        identification: Identification::Probable,
                        limitations: f.limitations.push("Base64url is also possible."@),
                        ..f
                    },
                )
            } else {
                Some(f)
            },
        }
    }
}

/// Where the scan resumes after the run at `start`.
pub open spec fn b64_run_next(bytes: Seq<u8>, start: int) -> int {
    let re = b64_run_end(bytes, start);
    let pe = pad_end(bytes, re);
    if re - start < MIN_B64 {
        if pe > re + 1 {
            pe
        } else {
            re + 1
        }
    } else {
        pe
    }
}

/// Base64 findings from position `i` on, in order.
pub open spec fn b64_hits(artifact: Seq<char>, bytes: Seq<u8>, i: int) -> Seq<FindingView>
    decreases bytes.len() - i,
{
    if i < 0 || i >= bytes.len() {
        Seq::<FindingView>::empty()
    } else if !spec_is_b64(bytes[i], false) {
        b64_hits(artifact, bytes, i + 1)
    } else {
        let n = b64_run_next(bytes, i);
        (match b64_run_finding(artifact, bytes, i) {
            Some(f) => seq![f],
            None => Seq::<FindingView>::empty(),
        }) + (if i < n <= bytes.len() {
            b64_hits(artifact, bytes, n)
        } else {
            Seq::<FindingView>::empty()
        })
    }
}

proof fn lemma_b64_run_end(bytes: Seq<u8>, j: int)
    requires
        0 <= j <= bytes.len(),
    ensures
        j <= b64_run_end(bytes, j) <= bytes.len(),
    decreases bytes.len() - j,
{
    if j < bytes.len() && spec_is_b64(bytes[j], true) {
        lemma_b64_run_end(bytes, j + 1);
    }
}

proof fn lemma_take_prefix(e: Seq<FindingView>, rest: Seq<FindingView>, k: int)
    requires
        k == e.len(),
    ensures
        (e + rest).take(k) == e,
{
    assert((e + rest).take(k) =~= e);
}

/// The finding (if any) for the run at `start` and where scanning resumes.
fn b64_run(artifact_id: &str, bytes: &[u8], start: usize) -> (r: (Option<Finding>, usize))
    requires
        start < bytes@.len(),
    ensures
        match b64_run_finding(artifact_id@, bytes@, start as int) {
            None => r.0 is None,
            Some(v) => r.0 matches Some(f) && f@ == v,
        },
        r.0 matches Some(f) ==> ids_fresh(f),
        r.1 as int == b64_run_next(bytes@, start as int) || (r.1 == bytes@.len()
            && b64_run_next(bytes@, start as int) > bytes@.len()),
        start < r.1 <= bytes@.len() + 0,
        b64_run_end(bytes@, start as int) - start >= MIN_B64 ==> r.1 as int == b64_run_next(
            bytes@,
            start as int,
        ),
{
    let n = bytes.len();
    let mut i = start;
    let mut saw_url = false;
    proof {
        lemma_b64_run_end(bytes@, start as int);
    }
    while i < n && is_b64(bytes[i], true)
        invariant
            n == bytes@.len(),
            start <= i <= n,
            b64_run_end(bytes@, start as int) == b64_run_end(bytes@, i as int),
            saw_url == has_url_symbol(bytes@, start as int, i as int),
        decreases n - i,
    {
        if bytes[i] == 0x2d || bytes[i] == 0x5f {
            saw_url = true;
        }
        i = i + 1;
    }
    let run_end = i;
    let mut end = i;
    if end < n && bytes[end] == 0x3d {
        end = end + 1;
        if end < n && bytes[end] == 0x3d {
            end = end + 1;
        }
    }
    assert(end == pad_end(bytes@, run_end as int));
    if run_end - start < MIN_B64 {
        let next = if end - run_end > 1 {
            end
        } else if run_end < n {
            run_end + 1
        } else {
            n
        };
        assert(start < next);
        return (None, next);
    }
    let hit: Option<Finding> = if saw_url {
        b64_finding(artifact_id, bytes, start, end, true)
    } else {
        match b64_finding(artifact_id, bytes, start, end, false) {
            Some(f) => {
                let also_url = decode_b64_bytes(
                    vstd::slice::slice_subrange(bytes, start, end),
                    true,
                ).is_some();
                let mut f = f;
                if also_url {
                    let ghost lim0 = f.limitations@;
                    f.identification = Identification::Probable;
                    f.limitations.push("Base64url is also possible.".to_string());
                    assert(strings_view(f.limitations@) =~= strings_view(lim0).push(
                        "Base64url is also possible."@,
                    ));
                }
                Some(f)
            },
            None => None,
        }
    };
    (hit, end)
}

fn scan_base64(artifact_id: &str, bytes: &[u8], out: &mut Vec<Finding>)
    requires
        old(out)@.len() <= MAX_FINDINGS,
        all_ids_fresh(old(out)@),
    ensures
        final(out)@.len() <= MAX_FINDINGS,
        all_ids_fresh(final(out)@),
        findings_view(final(out)@) == append_capped(
            findings_view(old(out)@),
            b64_hits(artifact_id@, bytes@, 0),
        ),
{
    let ghost o = findings_view(out@);
    let ghost h = b64_hits(artifact_id@, bytes@, 0);
    let ghost mut e: Seq<FindingView> = Seq::empty();
    let n = bytes.len();
    let mut i: usize = 0;
    while i < n && out.len() < MAX_FINDINGS
        invariant
            n == bytes@.len(),
            i <= n,
            out@.len() <= MAX_FINDINGS,
            all_ids_fresh(out@),
            findings_view(out@) == o + e,
            o.len() <= MAX_FINDINGS,
            h == e + b64_hits(artifact_id@, bytes@, i as int),
        decreases n - i,
    {
        if !is_b64(bytes[i], false) {
            i = i + 1;
            continue;
        }
        let ghost before = out@;
        let (hit, next) = b64_run(artifact_id, bytes, i);
        proof {
            let sn = b64_run_next(bytes@, i as int);
            if sn > n {
                assert(b64_hits(artifact_id@, bytes@, n as int) =~= Seq::<FindingView>::empty());
            }
        }
        match hit {
            Some(f) => {
                let ghost fv = f@;
                out.push(f);
                proof {
                    assert(findings_view(out@) =~= findings_view(before).push(fv));
                    assert(e + (seq![fv] + b64_hits(artifact_id@, bytes@, next as int)) =~= e.push(fv)
                        + b64_hits(artifact_id@, bytes@, next as int));
                    e = e.push(fv);
                }
            },
            None => {
                proof {
                    assert(Seq::<FindingView>::empty() + b64_hits(artifact_id@, bytes@, next as int)
                        =~= b64_hits(artifact_id@, bytes@, next as int));
                }
            },
        }
        i = next;
    }
    proof {
        if i >= n {
            assert(b64_hits(artifact_id@, bytes@, i as int) =~= Seq::<FindingView>::empty());
            assert(h =~= e);
        } else {
            lemma_take_prefix(e, b64_hits(artifact_id@, bytes@, i as int), e.len() as int);
        }
    }
}


proof fn lemma_append_capped_cap(x: Seq<FindingView>, y: Seq<FindingView>)
    ensures
        append_capped(cap_findings(x), y) == cap_findings(x + y),
{
    assert(append_capped(cap_findings(x), y) =~= cap_findings(x + y));
}

// ---------------------------------------------------------------- base16

/// The end of the run of hex digits from `j`.
pub open spec fn hex_run_end(bytes: Seq<u8>, j: int) -> int
    decreases bytes.len() - j,
{
    if j < 0 || j >= bytes.len() || !is_hex_digit(bytes[j]) {
        j
    } else {
        hex_run_end(bytes, j + 1)
    }
}

/// An even hex run of at least 16 digits not glued to a base64 symbol;
/// lengths of common hashes (32, 40, 64) score lower.
pub open spec fn hex_run_finding(artifact: Seq<char>, bytes: Seq<u8>, start: int) -> Option<FindingView> {
    let e = hex_run_end(bytes, start);
    let len = e - start;
    if len < 16 || len % 2 != 0 {
        None
    } else if start > 0 && spec_is_b64(bytes[start - 1], true) {
        None
    } else {
        let score: u8 = if len == 32 || len == 40 || len == 64 {
            45
        } else {
            55
        };
        Some(
            finding_view(
                artifact,
                "enc.base16"@,
                "encoding"@,
                start,
                e,
                if score >= 60 {
                    Identification::Probable
                } else {
                    Identification::Possible
                },
                score,
                Transformability::Supported,
                "wiki.enc.base16.ja"@,
                seq![
                    ev_view(
                        "hex-run"@,
                        start,
                        e,
                        "Even-length hex alphabet run"@,
                        "supports"@,
                        "charset"@,
                        spec_excerpt(bytes, start, e),
                    ),
                ],
                seq!["May be a hash fingerprint, not hidden payload."@],
            ),
        )
    }
}

pub open spec fn opt_seq(o: Option<FindingView>) -> Seq<FindingView> {
    match o {
        Some(f) => seq![f],
        None => Seq::<FindingView>::empty(),
    }
}

/// Base16 findings from position `i` on.
pub open spec fn hex_hits(artifact: Seq<char>, bytes: Seq<u8>, i: int) -> Seq<FindingView>
    decreases bytes.len() - i,
{
    if i < 0 || i >= bytes.len() {
        Seq::<FindingView>::empty()
    } else if !is_hex_digit(bytes[i]) {
        hex_hits(artifact, bytes, i + 1)
    } else {
        let e = hex_run_end(bytes, i);
        opt_seq(hex_run_finding(artifact, bytes, i)) + (if i < e <= bytes.len() {
            hex_hits(artifact, bytes, e)
        } else {
            Seq::<FindingView>::empty()
        })
    }
}

proof fn lemma_hex_run_end(bytes: Seq<u8>, j: int)
    requires
        0 <= j <= bytes.len(),
    ensures
        j <= hex_run_end(bytes, j) <= bytes.len(),
    decreases bytes.len() - j,
{
    if j < bytes.len() && is_hex_digit(bytes[j]) {
        lemma_hex_run_end(bytes, j + 1);
    }
}

fn hex_run(artifact_id: &str, bytes: &[u8], start: usize) -> (r: (Option<Finding>, usize))
    requires
        start < bytes@.len(),
        is_hex_digit(bytes@[start as int]),
    ensures
        match hex_run_finding(artifact_id@, bytes@, start as int) {
            None => r.0 is None,
            Some(v) => r.0 matches Some(f) && f@ == v,
        },
        r.0 matches Some(f) ==> ids_fresh(f),
        r.1 as int == hex_run_end(bytes@, start as int),
        start < r.1 <= bytes@.len(),
{
    let n = bytes.len();
    let mut i = start;
    proof {
        lemma_hex_run_end(bytes@, start as int);
    }
    while i < n && is_hex_byte(bytes[i])
        invariant
            n == bytes@.len(),
            start <= i <= n,
            hex_run_end(bytes@, start as int) == hex_run_end(bytes@, i as int),
        decreases n - i,
    {
        i = i + 1;
    }
    let len = i - start;
    if len < 16 || len % 2 != 0 {
        return (None, i);
    }
    if start > 0 && is_b64(bytes[start - 1], true) {
        return (None, i);
    }
    let score: u8 = if len == 32 || len == 40 || len == 64 {
        45
    } else {
        55
    };
    let e1 = ev(
        "hex-run",
        start as u64,
        i as u64,
        "Even-length hex alphabet run",
        "supports",
        "charset",
        excerpt(bytes, start, i),
    );
    let f = finding(
        artifact_id,
        "enc.base16",
        "encoding",
        start as u64,
        i as u64,
        if score >= 60 {
            Identification::Probable
        } else {
            Identification::Possible
        },
        score,
        Transformability::Supported,
        "wiki.enc.base16.ja",
        evidence1(e1),
        strings1("May be a hash fingerprint, not hidden payload."),
    );
    (Some(f), i)
}

fn scan_base16(artifact_id: &str, bytes: &[u8], out: &mut Vec<Finding>)
    requires
        old(out)@.len() <= MAX_FINDINGS,
        all_ids_fresh(old(out)@),
    ensures
        final(out)@.len() <= MAX_FINDINGS,
        all_ids_fresh(final(out)@),
        findings_view(final(out)@) == append_capped(
            findings_view(old(out)@),
            hex_hits(artifact_id@, bytes@, 0),
        ),
{
    let ghost o = findings_view(out@);
    let ghost h = hex_hits(artifact_id@, bytes@, 0);
    let ghost mut e: Seq<FindingView> = Seq::empty();
    let n = bytes.len();
    let mut i: usize = 0;
    while i < n && out.len() < MAX_FINDINGS
        invariant
            n == bytes@.len(),
            i <= n,
            out@.len() <= MAX_FINDINGS,
            all_ids_fresh(out@),
            findings_view(out@) == o + e,
            o.len() <= MAX_FINDINGS,
            h == e + hex_hits(artifact_id@, bytes@, i as int),
        decreases n - i,
    {
        if !is_hex_byte(bytes[i]) {
            i = i + 1;
            continue;
        }
        let ghost before = out@;
        let (hit, next) = hex_run(artifact_id, bytes, i);
        match hit {
            Some(f) => {
                let ghost fv = f@;
                out.push(f);
                proof {
                    assert(findings_view(out@) =~= findings_view(before).push(fv));
                    assert(e + (seq![fv] + hex_hits(artifact_id@, bytes@, next as int)) =~= e.push(fv)
                        + hex_hits(artifact_id@, bytes@, next as int));
                    e = e.push(fv);
                }
            },
            None => {
                proof {
                    assert(Seq::<FindingView>::empty() + hex_hits(artifact_id@, bytes@, next as int)
                        =~= hex_hits(artifact_id@, bytes@, next as int));
                }
            },
        }
        i = next;
    }
    proof {
        if i >= n {
            assert(hex_hits(artifact_id@, bytes@, i as int) =~= Seq::<FindingView>::empty());
            assert(h =~= e);
        } else {
            lemma_take_prefix(e, hex_hits(artifact_id@, bytes@, i as int), e.len() as int);
        }
    }
}

// ---------------------------------------------------------------- percent

/// The end of the run of `%HH` triples from `j`.
pub open spec fn pct_run_end(bytes: Seq<u8>, j: int) -> int
    decreases bytes.len() - j,
{
    if j < 0 || j + 3 > bytes.len() || bytes[j] != 0x25 || !is_hex_digit(bytes[j + 1])
        || !is_hex_digit(bytes[j + 2]) {
        j
    } else {
        pct_run_end(bytes, j + 3)
    }
}

pub open spec fn pct_finding(artifact: Seq<char>, bytes: Seq<u8>, start: int, e: int) -> FindingView {
    finding_view(
        artifact,
        "enc.percent"@,
        "encoding"@,
        start,
        e,
        Identification::Probable,
        70,
        Transformability::Supported,
        "wiki.enc.escapes.ja"@,
        seq![
            ev_view(
                "percent-run"@,
                start,
                e,
                "%HH sequence"@,
                "supports"@,
                "structure"@,
                spec_excerpt(bytes, start, e),
            ),
        ],
        seq!["Does not treat + as space."@],
    )
}

/// Percent findings from position `i` on: runs of at least four `%HH`.
pub open spec fn pct_hits(artifact: Seq<char>, bytes: Seq<u8>, i: int) -> Seq<FindingView>
    decreases bytes.len() - i,
{
    if i < 0 || i + 3 > bytes.len() {
        Seq::<FindingView>::empty()
    } else if bytes[i] != 0x25 {
        pct_hits(artifact, bytes, i + 1)
    } else {
        let e = pct_run_end(bytes, i);
        if e - i >= 12 && e <= bytes.len() {
            seq![pct_finding(artifact, bytes, i, e)] + pct_hits(artifact, bytes, e)
        } else {
            pct_hits(artifact, bytes, i + 1)
        }
    }
}

proof fn lemma_pct_run_end(bytes: Seq<u8>, j: int)
    requires
        0 <= j <= bytes.len(),
    ensures
        j <= pct_run_end(bytes, j) <= bytes.len(),
        (pct_run_end(bytes, j) - j) % 3 == 0,
    decreases bytes.len() - j,
{
    if !(j + 3 > bytes.len() || bytes[j] != 0x25 || !is_hex_digit(bytes[j + 1]) || !is_hex_digit(
        bytes[j + 2],
    )) {
        lemma_pct_run_end(bytes, j + 3);
    }
}

fn scan_percent(artifact_id: &str, bytes: &[u8], out: &mut Vec<Finding>)
    requires
        old(out)@.len() <= MAX_FINDINGS,
        all_ids_fresh(old(out)@),
    ensures
        final(out)@.len() <= MAX_FINDINGS,
        all_ids_fresh(final(out)@),
        findings_view(final(out)@) == append_capped(
            findings_view(old(out)@),
            pct_hits(artifact_id@, bytes@, 0),
        ),
{
    let ghost o = findings_view(out@);
    let ghost h = pct_hits(artifact_id@, bytes@, 0);
    let ghost mut e: Seq<FindingView> = Seq::empty();
    let n = bytes.len();
    let mut i: usize = 0;
    while i < n && n - i >= 3 && out.len() < MAX_FINDINGS
        invariant
            n == bytes@.len(),
            i <= n,
            out@.len() <= MAX_FINDINGS,
            all_ids_fresh(out@),
            findings_view(out@) == o + e,
            o.len() <= MAX_FINDINGS,
            h == e + pct_hits(artifact_id@, bytes@, i as int),
        decreases n - i,
    {
        if bytes[i] != 0x25 {
            i = i + 1;
            continue;
        }
        let start = i;
        let mut count: usize = 0;
        proof {
            lemma_pct_run_end(bytes@, start as int);
        }
        while i < n && n - i >= 3 && bytes[i] == 0x25 && is_hex_byte(bytes[i + 1]) && is_hex_byte(
            bytes[i + 2],
        )
            invariant
                n == bytes@.len(),
                start <= i <= n,
                i == start + 3 * count,
                pct_run_end(bytes@, start as int) == pct_run_end(bytes@, i as int),
            decreases n - i,
        {
            count = count + 1;
            i = i + 3;
        }
        if count >= 4 {
            let ghost before = out@;
            let e1 = ev(
                "percent-run",
                start as u64,
                i as u64,
                "%HH sequence",
                "supports",
                "structure",
                excerpt(bytes, start, i),
            );
            let f = finding(
                artifact_id,
                "enc.percent",
                "encoding",
                start as u64,
                i as u64,
                Identification::Probable,
                70,
                Transformability::Supported,
                "wiki.enc.escapes.ja",
                evidence1(e1),
                strings1("Does not treat + as space."),
            );
            let ghost fv = f@;
            assert(fv == pct_finding(artifact_id@, bytes@, start as int, i as int));
            out.push(f);
            proof {
                assert(findings_view(out@) =~= findings_view(before).push(fv));
                assert(e + (seq![fv] + pct_hits(artifact_id@, bytes@, i as int)) =~= e.push(fv)
                    + pct_hits(artifact_id@, bytes@, i as int));
                e = e.push(fv);
            }
        } else {
            i = start + 1;
        }
    }
    proof {
        if i >= n || n - i < 3 {
            assert(pct_hits(artifact_id@, bytes@, i as int) =~= Seq::<FindingView>::empty());
            assert(h =~= e);
        } else {
            lemma_take_prefix(e, pct_hits(artifact_id@, bytes@, i as int), e.len() as int);
        }
    }
}

// ---------------------------------------------------------------- JavaScript sites

/// The three detectors that report JavaScript sites found by the scanners.
#[derive(Clone, Copy, PartialEq, Eq, Structural)]
pub enum SiteKind {
    JsEscape,
    LiteralConcat,
    DynamicEval,
}

pub open spec fn site_finding(k: SiteKind, artifact: Seq<char>, bytes: Seq<u8>, s: int, e: int) -> FindingView {
    let ex = spec_excerpt(bytes, s, e);
    match k {
        SiteKind::JsEscape => finding_view(
            artifact,
            "enc.js-escape"@,
            "encoding"@,
            s,
            e,
            Identification::Probable,
            72,
            Transformability::Supported,
            "wiki.enc.escapes.ja"@,
            seq![
                ev_view(
                    "js-string-escape"@,
                    s,
                    e,
                    "\\x or \\u inside a JS string literal"@,
                    "supports"@,
                    "syntax"@,
                    ex,
                ),
            ],
            seq!["Not applied to arbitrary non-JS text."@],
        ),
        SiteKind::LiteralConcat => finding_view(
            artifact,
            "data.literal-concat"@,
            "data"@,
            s,
            e,
            Identification::Confirmed,
            88,
            Transformability::Supported,
            "wiki.data.literal-concat.ja"@,
            seq![
                ev_view(
                    "pure-concat"@,
                    s,
                    e,
                    "Adjacent string literals joined by +"@,
                    "supports"@,
                    "syntax"@,
                    ex,
                ),
            ],
            seq!["Variables, calls, and tagged templates are out of scope."@],
        ),
        SiteKind::DynamicEval => finding_view(
            artifact,
            "control.dynamic-eval"@,
            "control"@,
            s,
            e,
            Identification::Possible,
            40,
            Transformability::Unsupported,
            "wiki.vm.overview.ja"@,
            seq![
                ev_view(
                    "eval-syntax"@,
                    s,
                    e,
                    "eval( syntax present; not executed"@,
                    "supports"@,
                    "syntax"@,
                    ex,
                ),
            ],
            seq!["Presence is not proof the call runs."@, "UNVEIL does not evaluate it."@],
        ),
    }
}

pub open spec fn site_findings(k: SiteKind, artifact: Seq<char>, bytes: Seq<u8>, sites: Seq<(int, int)>) -> Seq<FindingView> {
    sites.map_values(|p: (int, int)| site_finding(k, artifact, bytes, p.0, p.1))
}

fn site_finding_exec(k: SiteKind, artifact_id: &str, bytes: &[u8], s: usize, e: usize) -> (f: Finding)
    ensures
        f@ == site_finding(k, artifact_id@, bytes@, s as int, e as int),
        ids_fresh(f),
{
    let ex = excerpt(bytes, s, e);
    match k {
        SiteKind::JsEscape => finding(
            artifact_id,
            "enc.js-escape",
            "encoding",
            s as u64,
            e as u64,
            Identification::Probable,
            72,
            Transformability::Supported,
            "wiki.enc.escapes.ja",
            evidence1(
                ev(
                    "js-string-escape",
                    s as u64,
                    e as u64,
                    "\\x or \\u inside a JS string literal",
                    "supports",
                    "syntax",
                    ex,
                ),
            ),
            strings1("Not applied to arbitrary non-JS text."),
        ),
        SiteKind::LiteralConcat => finding(
            artifact_id,
            "data.literal-concat",
            "data",
            s as u64,
            e as u64,
            Identification::Confirmed,
            88,
            Transformability::Supported,
            "wiki.data.literal-concat.ja",
            evidence1(
                ev(
                    "pure-concat",
                    s as u64,
                    e as u64,
                    "Adjacent string literals joined by +",
                    "supports",
                    "syntax",
                    ex,
                ),
            ),
            strings1("Variables, calls, and tagged templates are out of scope."),
        ),
        SiteKind::DynamicEval => finding(
            artifact_id,
            "control.dynamic-eval",
            "control",
            s as u64,
            e as u64,
            Identification::Possible,
            40,
            Transformability::Unsupported,
            "wiki.vm.overview.ja",
            evidence1(
                ev(
                    "eval-syntax",
                    s as u64,
                    e as u64,
                    "eval( syntax present; not executed",
                    "supports",
                    "syntax",
                    ex,
                ),
            ),
            strings2("Presence is not proof the call runs.", "UNVEIL does not evaluate it."),
        ),
    }
}

/// Appends a finding per site, stopping at `MAX_FINDINGS`.
fn scan_sites(k: SiteKind, artifact_id: &str, bytes: &[u8], sites: &Vec<(usize, usize)>, out: &mut Vec<Finding>)
    requires
        old(out)@.len() <= MAX_FINDINGS,
        all_ids_fresh(old(out)@),
    ensures
        final(out)@.len() <= MAX_FINDINGS,
        all_ids_fresh(final(out)@),
        findings_view(final(out)@) == append_capped(
            findings_view(old(out)@),
            site_findings(k, artifact_id@, bytes@, pairs_view(sites@)),
        ),
{
    let ghost o = findings_view(out@);
    let ghost h = site_findings(k, artifact_id@, bytes@, pairs_view(sites@));
    let mut j: usize = 0;
    while j < sites.len()
        invariant
            j <= sites@.len(),
            h == site_findings(k, artifact_id@, bytes@, pairs_view(sites@)),
            o == findings_view(old(out)@),
            h.len() == sites@.len(),
            out@.len() <= MAX_FINDINGS,
            all_ids_fresh(out@),
            o.len() <= MAX_FINDINGS,
            findings_view(out@) == o + h.take(j as int),
            out@.len() == o.len() + j,
        decreases sites.len() - j,
    {
        if out.len() >= MAX_FINDINGS {
            proof {
                if o.len() < MAX_FINDINGS {
                    assert(j == MAX_FINDINGS - o.len());
                    assert(h.len() > MAX_FINDINGS - o.len());
                }
                assert(findings_view(out@) =~= append_capped(o, h));
            }
            return;
        }
        let (s, e) = sites[j];
        let ghost before = out@;
        let f = site_finding_exec(k, artifact_id, bytes, s, e);
        out.push(f);
        proof {
            let pv = pairs_view(sites@);
            assert(pv[j as int] == (s as int, e as int));
            assert(h[j as int] == site_finding(k, artifact_id@, bytes@, pv[j as int].0, pv[j as int].1));
            assert(findings_view(out@) =~= findings_view(before).push(h[j as int]));
            assert(findings_view(out@) =~= o + h.take(j + 1));
        }
        j = j + 1;
    }
    assert(h.take(j as int) =~= h);
    assert(findings_view(out@) =~= append_capped(o, h));
}

// ---------------------------------------------------------------- whole input

pub open spec fn gzip_view(artifact: Seq<char>, bytes: Seq<u8>) -> FindingView {
    finding_view(
        artifact,
        "compression.gzip"@,
        "compression"@,
        0,
        bytes.len() as int,
        Identification::Confirmed,
        92,
        Transformability::Supported,
        "wiki.compression.gzip.ja"@,
        seq![
            ev_view(
                "magic"@,
                0,
                if bytes.len() < 3 {
                    bytes.len() as int
                } else {
                    3
                },
                "1f 8b gzip magic"@,
                "supports"@,
                "structure"@,
                spec_excerpt(bytes, 0, 8),
            ),
        ],
        seq!["Single-member inflate only."@, "Compression is not obfuscation by itself."@],
    )
}

pub open spec fn minify_view(artifact: Seq<char>, len: int) -> FindingView {
    finding_view(
        artifact,
        "layout.minify"@,
        "layout"@,
        0,
        len,
        Identification::Probable,
        55,
        Transformability::Partial,
        "wiki.layout.minify.ja"@,
        seq![
            ev_view(
                "line-density"@,
                0,
                len,
                "High average line length and low whitespace ratio"@,
                "supports"@,
                "layout"@,
                Seq::<char>::empty(),
            ),
        ],
        seq!["Normal bundled JS looks the same."@, "Pretty-print cannot restore names or comments."@],
    )
}

fn gzip_finding(artifact_id: &str, bytes: &[u8]) -> (f: Finding)
    ensures
        f@ == gzip_view(artifact_id@, bytes@),
        ids_fresh(f),
{
    let n = bytes.len() as u64;
    let e1 = ev(
        "magic",
        0,
        if n < 3 {
            n
        } else {
            3
        },
        "1f 8b gzip magic",
        "supports",
        "structure",
        excerpt(bytes, 0, 8),
    );
    finding(
        artifact_id,
        "compression.gzip",
        "compression",
        0,
        n,
        Identification::Confirmed,
        92,
        Transformability::Supported,
        "wiki.compression.gzip.ja",
        evidence1(e1),
        strings2("Single-member inflate only.", "Compression is not obfuscation by itself."),
    )
}

fn minify_finding(artifact_id: &str, len: usize) -> (f: Finding)
    ensures
        f@ == minify_view(artifact_id@, len as int),
        ids_fresh(f),
{
    let e1 = ev(
        "line-density",
        0,
        len as u64,
        "High average line length and low whitespace ratio",
        "supports",
        "layout",
        String::new(),
    );
    finding(
        artifact_id,
        "layout.minify",
        "layout",
        0,
        len as u64,
        Identification::Probable,
        55,
        Transformability::Partial,
        "wiki.layout.minify.ja",
        evidence1(e1),
        strings2("Normal bundled JS looks the same.", "Pretty-print cannot restore names or comments."),
    )
}

/// Findings from the JavaScript detectors, which run only on UTF-8 text.
pub open spec fn text_findings(artifact: Seq<char>, bytes: Seq<u8>, kind: ProbeKind) -> Seq<FindingView> {
    if valid_utf8(bytes) {
        site_findings(SiteKind::JsEscape, artifact, bytes, escape_hits(bytes, 0)) + (site_findings(
            SiteKind::LiteralConcat,
            artifact,
            bytes,
            concat_hits(bytes, 0),
        ) + (site_findings(SiteKind::DynamicEval, artifact, bytes, eval_hits(bytes, 0)) + (
        if spec_looks_minified(decode_utf8(bytes)) && kind == ProbeKind::JavaScript {
            seq![minify_view(artifact, bytes.len() as int)]
        } else {
            Seq::<FindingView>::empty()
        })))
    } else {
        Seq::<FindingView>::empty()
    }
}

/// All findings for an input of the given kind, in detector order, at most
/// `MAX_FINDINGS` of them. Executables and unknown binary data get none; a
/// gzip stream gets exactly its gzip finding.
pub open spec fn spec_detect(artifact: Seq<char>, bytes: Seq<u8>, kind: ProbeKind) -> Seq<FindingView> {
    if kind.is_opaque_binary() {
        Seq::<FindingView>::empty()
    } else if kind == ProbeKind::Gzip {
        seq![gzip_view(artifact, bytes)]
    } else {
        cap_findings(
            b64_hits(artifact, bytes, 0) + (hex_hits(artifact, bytes, 0) + (pct_hits(artifact, bytes, 0)
                + text_findings(artifact, bytes, kind))),
        )
    }
}

/// Appends the findings of the JavaScript detectors, stopping at `MAX_FINDINGS`.
fn scan_text(artifact_id: &str, bytes: &[u8], kind: ProbeKind, out: &mut Vec<Finding>)
    requires
        old(out)@.len() <= MAX_FINDINGS,
        all_ids_fresh(old(out)@),
    ensures
        final(out)@.len() <= MAX_FINDINGS,
        all_ids_fresh(final(out)@),
        findings_view(final(out)@) == append_capped(
            findings_view(old(out)@),
            text_findings(artifact_id@, bytes@, kind),
        ),
{
    let ghost a = artifact_id@;
    let ghost b = bytes@;
    let ghost o = findings_view(out@);
    match str_from_utf8(bytes) {
        Some(text) => {
            proof {
                vstd::utf8::encode_utf8_decode_utf8(text@);
            }
            let esc = find_js_escapes_bytes(bytes);
            scan_sites(SiteKind::JsEscape, artifact_id, bytes, &esc, out);
            let ghost eh = site_findings(SiteKind::JsEscape, a, b, escape_hits(b, 0));
            let cat = find_literal_concats_bytes(bytes);
            scan_sites(SiteKind::LiteralConcat, artifact_id, bytes, &cat, out);
            let ghost ch = site_findings(SiteKind::LiteralConcat, a, b, concat_hits(b, 0));
            proof {
                lemma_append_capped_twice(o, eh, ch);
            }
            let evs = find_eval_ranges_bytes(bytes);
            scan_sites(SiteKind::DynamicEval, artifact_id, bytes, &evs, out);
            let ghost vh = site_findings(SiteKind::DynamicEval, a, b, eval_hits(b, 0));
            proof {
                lemma_append_capped_cap(o + (eh + ch), vh);
                lemma_append_capped_twice(o, eh, ch);
            }
            let ghost upto = o + (eh + ch) + vh;
            assert(findings_view(out@) == cap_findings(upto));
            if looks_minified(text) && kind == ProbeKind::JavaScript {
                let ghost before = out@;
                let m = minify_finding(artifact_id, bytes.len());
                let ghost mv = m@;
                if out.len() < MAX_FINDINGS {
                    out.push(m);
                    proof {
                        assert(findings_view(out@) =~= findings_view(before).push(mv));
                    }
                }
                proof {
                    lemma_cap_push(upto, mv);
                    assert(findings_view(out@) =~= cap_findings(upto.push(mv)));
                    assert(upto.push(mv) =~= o + (eh + (ch + (vh + seq![mv]))));
                    lemma_append_capped_cap(o, eh + (ch + (vh + seq![mv])));
                    lemma_cap_idem(o);
                }
            } else {
                proof {
                    assert(upto =~= o + (eh + (ch + (vh + Seq::<FindingView>::empty()))));
                    lemma_append_capped_cap(o, eh + (ch + (vh + Seq::<FindingView>::empty())));
                }
            }
        },
        None => {
            assert(findings_view(out@) =~= append_capped(o, Seq::<FindingView>::empty()));
        },
    }
}

/// Runs every detector that applies to the probed kind; see `spec_detect`.
pub fn detect(artifact_id: &str, bytes: &[u8], probe: &Probe) -> (out: Vec<Finding>)
    ensures
        findings_view(out@) == spec_detect(artifact_id@, bytes@, probe.kind),
        all_ids_fresh(out@),
{
    let mut out: Vec<Finding> = Vec::new();
    match probe.kind {
        ProbeKind::Pe | ProbeKind::Elf | ProbeKind::MachO | ProbeKind::UnknownBinary => {
            assert(findings_view(out@) =~= Seq::<FindingView>::empty());
            return out;
        },
        ProbeKind::Gzip => {
            out.push(gzip_finding(artifact_id, bytes));
            assert(findings_view(out@) =~= seq![gzip_view(artifact_id@, bytes@)]);
            return out;
        },
        _ => {},
    }
    let ghost a = artifact_id@;
    let ghost b = bytes@;
    let ghost kind = probe.kind;
    let ghost bh = b64_hits(a, b, 0);
    let ghost hh = hex_hits(a, b, 0);
    let ghost ph = pct_hits(a, b, 0);
    assert(findings_view(out@) =~= Seq::<FindingView>::empty());
    scan_base64(artifact_id, bytes, &mut out);
    proof {
        lemma_append_capped_empty(bh);
    }
    scan_base16(artifact_id, bytes, &mut out);
    proof {
        lemma_append_capped_cap(bh, hh);
    }
    scan_percent(artifact_id, bytes, &mut out);
    proof {
        lemma_append_capped_cap(bh + hh, ph);
        assert(bh + hh + ph =~= bh + (hh + ph));
    }
    let ghost base = bh + (hh + ph);
    assert(findings_view(out@) == cap_findings(base));
    scan_text(artifact_id, bytes, probe.kind, &mut out);
    proof {
        lemma_append_capped_cap(base, text_findings(a, b, kind));
        assert(base + text_findings(a, b, kind) =~= bh + (hh + (ph + text_findings(a, b, kind))));
    }
    out
}

// ---------------------------------------------------------------- ranges

/// The finding's range, and the range of each piece of its evidence, lies
/// within an input of `n` bytes, and every evidence excerpt is at most
/// `MAX_EXCERPT_BYTES` characters long.
pub open spec fn within(f: FindingView, n: int) -> bool {
    &&& f.range.start <= f.range.end <= n
    &&& forall|j: int|
        0 <= j < f.evidence.len() ==> (#[trigger] f.evidence[j]).range.start <= f.evidence[j].range.end <= n
            && f.evidence[j].excerpt.len() <= MAX_EXCERPT_BYTES
}

pub open spec fn all_within(fs: Seq<FindingView>, n: int) -> bool {
    forall|k: int| 0 <= k < fs.len() ==> within(#[trigger] fs[k], n)
}

pub open spec fn pairs_within(ps: Seq<(int, int)>, lo: int, n: int) -> bool {
    forall|k: int| 0 <= k < ps.len() ==> lo <= (#[trigger] ps[k]).0 <= ps[k].1 <= n
}

proof fn lemma_all_within_concat(a: Seq<FindingView>, b: Seq<FindingView>, n: int)
    requires
        all_within(a, n),
        all_within(b, n),
    ensures
        all_within(a + b, n),
{
    assert forall|k: int| 0 <= k < (a + b).len() implies within(#[trigger] (a + b)[k], n) by {
        if k < a.len() {
            assert((a + b)[k] == a[k]);
        } else {
            assert((a + b)[k] == b[k - a.len()]);
        }
    }
}

proof fn lemma_pairs_concat(a: Seq<(int, int)>, b: Seq<(int, int)>, lo: int, lo2: int, n: int)
    requires
        pairs_within(a, lo, n),
        pairs_within(b, lo2, n),
        lo <= lo2,
    ensures
        pairs_within(a + b, lo, n),
{
    assert forall|k: int| 0 <= k < (a + b).len() implies lo <= (#[trigger] (a + b)[k]).0 <= (a + b)[k].1 <= n by {
        if k < a.len() {
            assert((a + b)[k] == a[k]);
        } else {
            assert((a + b)[k] == b[k - a.len()]);
        }
    }
}

proof fn lemma_escape_hits_within(bytes: Seq<u8>, i: int)
    requires
        0 <= i,
    ensures
        pairs_within(escape_hits(bytes, i), i, bytes.len() as int),
    decreases bytes.len() - i,
{
    if i < bytes.len() {
        match spec_parse_string(bytes, i) {
            Some((end, v)) => {
                if i < end <= bytes.len() {
                    lemma_escape_hits_within(bytes, end);
                    let head = if crate::js::has_escape_window(bytes, i, end) && v.len() >= 1 {
                        seq![(i, end)]
                    } else {
                        Seq::<(int, int)>::empty()
                    };
                    lemma_pairs_concat(head, escape_hits(bytes, end), i, end, bytes.len() as int);
                }
            },
            None => {
                lemma_escape_hits_within(bytes, i + 1);
            },
        }
    }
}

proof fn lemma_concat_hits_within(bytes: Seq<u8>, i: int)
    requires
        0 <= i,
    ensures
        pairs_within(concat_hits(bytes, i), i, bytes.len() as int),
    decreases bytes.len() - i,
{
    if i < bytes.len() {
        match spec_parse_string(bytes, i) {
            Some((le, v)) => {
                let c = chain(bytes, le);
                if c.2 {
                    if i < c.0 <= bytes.len() {
                        lemma_concat_hits_within(bytes, c.0);
                        lemma_pairs_concat(seq![(i, c.0)], concat_hits(bytes, c.0), i, c.0, bytes.len() as int);
                    }
                } else if i < le <= bytes.len() {
                    lemma_concat_hits_within(bytes, le);
                }
            },
            None => {
                lemma_concat_hits_within(bytes, i + 1);
            },
        }
    }
}

proof fn lemma_eval_hits_within(bytes: Seq<u8>, i: int)
    requires
        0 <= i,
    ensures
        pairs_within(eval_hits(bytes, i), i, bytes.len() as int),
    decreases bytes.len() - i,
{
    if i + 5 <= bytes.len() {
        match spec_skip(bytes, i) {
            Some(k) => {
                if i < k <= bytes.len() {
                    lemma_eval_hits_within(bytes, k);
                }
            },
            None => {
                lemma_eval_hits_within(bytes, i + 1);
                let head = if is_eval_at(bytes, i) {
                    seq![(i, skip_ws(bytes, i + 4) + 1)]
                } else {
                    Seq::<(int, int)>::empty()
                };
                lemma_skip_ws(bytes, i + 4);
                lemma_pairs_concat(head, eval_hits(bytes, i + 1), i, i + 1, bytes.len() as int);
            },
        }
    }
}

proof fn lemma_site_findings_within(k: SiteKind, artifact: Seq<char>, bytes: Seq<u8>, sites: Seq<(int, int)>)
    requires
        pairs_within(sites, 0, bytes.len() as int),
        bytes.len() <= u64::MAX,
    ensures
        all_within(site_findings(k, artifact, bytes, sites), bytes.len() as int),
{
    assert forall|j: int| 0 <= j < site_findings(k, artifact, bytes, sites).len() implies within(
        #[trigger] site_findings(k, artifact, bytes, sites)[j],
        bytes.len() as int,
    ) by {
        let p = sites[j];
        assert(0 <= p.0 <= p.1 <= bytes.len());
        assert(site_findings(k, artifact, bytes, sites)[j] == site_finding(k, artifact, bytes, p.0, p.1));
    }
}

proof fn lemma_b64_hits_within(artifact: Seq<char>, bytes: Seq<u8>, i: int)
    requires
        0 <= i,
        bytes.len() <= u64::MAX,
    ensures
        all_within(b64_hits(artifact, bytes, i), bytes.len() as int),
    decreases bytes.len() - i,
{
    if i < bytes.len() {
        if !spec_is_b64(bytes[i], false) {
            lemma_b64_hits_within(artifact, bytes, i + 1);
        } else {
            let n = b64_run_next(bytes, i);
            lemma_b64_run_end(bytes, i);
            let head = match b64_run_finding(artifact, bytes, i) {
                Some(f) => seq![f],
                None => Seq::<FindingView>::empty(),
            };
            let rest = if i < n <= bytes.len() {
                b64_hits(artifact, bytes, n)
            } else {
                Seq::<FindingView>::empty()
            };
            if i < n <= bytes.len() {
                lemma_b64_hits_within(artifact, bytes, n);
            }
            assert(all_within(head, bytes.len() as int)) by {
                let re = b64_run_end(bytes, i);
                let pe = pad_end(bytes, re);
                assert(i <= re <= pe <= bytes.len());
            }
            lemma_all_within_concat(head, rest, bytes.len() as int);
        }
    }
}

proof fn lemma_hex_hits_within(artifact: Seq<char>, bytes: Seq<u8>, i: int)
    requires
        0 <= i,
        bytes.len() <= u64::MAX,
    ensures
        all_within(hex_hits(artifact, bytes, i), bytes.len() as int),
    decreases bytes.len() - i,
{
    if i < bytes.len() {
        if !is_hex_digit(bytes[i]) {
            lemma_hex_hits_within(artifact, bytes, i + 1);
        } else {
            let e = hex_run_end(bytes, i);
            lemma_hex_run_end(bytes, i);
            let rest = if i < e <= bytes.len() {
                hex_hits(artifact, bytes, e)
            } else {
                Seq::<FindingView>::empty()
            };
            if i < e <= bytes.len() {
                lemma_hex_hits_within(artifact, bytes, e);
            }
            lemma_all_within_concat(opt_seq(hex_run_finding(artifact, bytes, i)), rest, bytes.len() as int);
        }
    }
}

proof fn lemma_pct_hits_within(artifact: Seq<char>, bytes: Seq<u8>, i: int)
    requires
        0 <= i,
        bytes.len() <= u64::MAX,
    ensures
        all_within(pct_hits(artifact, bytes, i), bytes.len() as int),
    decreases bytes.len() - i,
{
    if i + 3 <= bytes.len() {
        if bytes[i] != 0x25 {
            lemma_pct_hits_within(artifact, bytes, i + 1);
        } else {
            let e = pct_run_end(bytes, i);
            lemma_pct_run_end(bytes, i);
            if e - i >= 12 && e <= bytes.len() {
                lemma_pct_hits_within(artifact, bytes, e);
                lemma_all_within_concat(
                    seq![pct_finding(artifact, bytes, i, e)],
                    pct_hits(artifact, bytes, e),
                    bytes.len() as int,
                );
            } else {
                lemma_pct_hits_within(artifact, bytes, i + 1);
            }
        }
    }
}

/// Every finding the detectors report covers a range of the input
/// (`start <= end <= length`), so does each piece of its evidence, and no
/// evidence excerpt is longer than `MAX_EXCERPT_BYTES` characters.
pub proof fn law_detect_findings_bounded(artifact: Seq<char>, bytes: Seq<u8>, kind: ProbeKind)
    requires
        bytes.len() <= u64::MAX,
    ensures
        all_within(spec_detect(artifact, bytes, kind), bytes.len() as int),
{
    let n = bytes.len() as int;
    if !kind.is_opaque_binary() && kind != ProbeKind::Gzip {
        lemma_b64_hits_within(artifact, bytes, 0);
        lemma_hex_hits_within(artifact, bytes, 0);
        lemma_pct_hits_within(artifact, bytes, 0);
        if valid_utf8(bytes) {
            lemma_escape_hits_within(bytes, 0);
            lemma_concat_hits_within(bytes, 0);
            lemma_eval_hits_within(bytes, 0);
            lemma_site_findings_within(SiteKind::JsEscape, artifact, bytes, escape_hits(bytes, 0));
            lemma_site_findings_within(SiteKind::LiteralConcat, artifact, bytes, concat_hits(bytes, 0));
            lemma_site_findings_within(SiteKind::DynamicEval, artifact, bytes, eval_hits(bytes, 0));
            let m = if spec_looks_minified(decode_utf8(bytes)) && kind == ProbeKind::JavaScript {
                seq![minify_view(artifact, n)]
            } else {
                Seq::<FindingView>::empty()
            };
            lemma_all_within_concat(site_findings(SiteKind::DynamicEval, artifact, bytes, eval_hits(bytes, 0)), m, n);
            lemma_all_within_concat(
                site_findings(SiteKind::LiteralConcat, artifact, bytes, concat_hits(bytes, 0)),
                site_findings(SiteKind::DynamicEval, artifact, bytes, eval_hits(bytes, 0)) + m,
                n,
            );
            lemma_all_within_concat(
                site_findings(SiteKind::JsEscape, artifact, bytes, escape_hits(bytes, 0)),
                site_findings(SiteKind::LiteralConcat, artifact, bytes, concat_hits(bytes, 0)) + (site_findings(
                    SiteKind::DynamicEval,
                    artifact,
                    bytes,
                    eval_hits(bytes, 0),
                ) + m),
                n,
            );
        }
        let t = text_findings(artifact, bytes, kind);
        assert(all_within(t, n));
        lemma_all_within_concat(pct_hits(artifact, bytes, 0), t, n);
        lemma_all_within_concat(hex_hits(artifact, bytes, 0), pct_hits(artifact, bytes, 0) + t, n);
        let all = b64_hits(artifact, bytes, 0) + (hex_hits(artifact, bytes, 0) + (pct_hits(artifact, bytes, 0) + t));
        lemma_all_within_concat(b64_hits(artifact, bytes, 0), hex_hits(artifact, bytes, 0) + (pct_hits(artifact, bytes, 0) + t), n);
        assert(all_within(cap_findings(all), n)) by {
            if all.len() > MAX_FINDINGS {
                assert forall|k: int| 0 <= k < cap_findings(all).len() implies within(#[trigger] cap_findings(all)[k], n) by {
                    assert(cap_findings(all)[k] == all[k]);
                }
            }
        }
    }
    assert(all_within(spec_detect(artifact, bytes, kind), n));
}
} // verus!

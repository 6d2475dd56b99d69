//! One analysis of an input: its kind, features, findings, coverage and the
//! overall assessment; and the preview and validation of a transform.

use vstd::prelude::*;
use crate::detect::within;
use vstd::string::StringSliceAdditionalSpecFns;
use vstd::utf8::{encode_utf8, valid_utf8};

use crate::analysis::{
    all_ids_fresh, ids_fresh, push_str, strings_view, AnalysisResult, AnalysisVersions, Assessment, ByteRange, Coverage,
    CoverageStatus, Feature, Finding, FindingView, Identification, findings_view,
};
use crate::detect::{detect, spec_detect};
use crate::error::{ErrorCode, IpcError};
use crate::info::{KNOWLEDGE_PACK, MAX_TEXT_PARSE_BYTES, PROFILE_STATIC_SAFE, RULE_VERSION, SCHEMA_VERSION};
use crate::plan::{TransformPreview, TransformResultKind, Validation, ValidationCheck, ValidationVerdict};
use crate::probe::{probe, spec_kind_name, spec_probe};
use crate::text::{bytes_eq, spec_text_preview, text_preview};
use crate::transform::{apply_adapter, reencode_range, spec_adapter, spec_apply_adapter, spec_reencode, Adapter};
use crate::codec::{encode_hex, hex_char, spec_encode_hex};
use crate::js::{line_bytes, line_count, line_stats, str_from_utf8};
use crate::outside::{sha256_digest, spec_sha256};
use crate::probe::{Probe, ProbeKind};
use crate::text::str_eq;

verus! {

/// A lower-case hex digit: `0`-`9` or `a`-`f`.
pub open spec fn is_lower_hex_char(c: char) -> bool {
    ('0' <= c && c <= '9') || ('a' <= c && c <= 'f')
}

/// Base16 text is two lower-case hex digits per byte.
pub proof fn law_hex_shape(data: Seq<u8>)
    ensures
        spec_encode_hex(data).len() == 2 * data.len(),
        forall|i: int| 0 <= i < spec_encode_hex(data).len() ==> is_lower_hex_char(#[trigger] spec_encode_hex(data)[i]),
    decreases data.len(),
{
    if data.len() > 0 {
        let dl = data.drop_last();
        law_hex_shape(dl);
        let pair = seq![hex_char((data.last() / 16) as int), hex_char((data.last() % 16) as int)];
        assert(is_lower_hex_char(pair[0]) && is_lower_hex_char(pair[1]));
        let all = spec_encode_hex(data);
        assert(all == spec_encode_hex(dl) + pair);
        assert forall|i: int| 0 <= i < all.len() implies is_lower_hex_char(#[trigger] all[i]) by {
            if i < spec_encode_hex(dl).len() {
                assert(all[i] == spec_encode_hex(dl)[i]);
            } else {
                assert(all[i] == pair[i - spec_encode_hex(dl).len()]);
            }
        }
    }
}

/// The lower-case hex SHA-256 of `bytes`: 64 lower-case hex digits.
pub fn sha256_hex(bytes: &[u8]) -> (s: String)
    ensures
        s@ == spec_encode_hex(spec_sha256(bytes@)),
        s@.len() == 64,
        forall|i: int| 0 <= i < s@.len() ==> is_lower_hex_char(#[trigger] s@[i]),
{
    let d = sha256_digest(bytes);
    proof {
        law_hex_shape(d@);
    }
    encode_hex(d.as_slice())
}

// ---------------------------------------------------------------- features

/// Bytes a person reads as text: tab, line feed, carriage return and
/// printable ASCII.
pub open spec fn printable_byte(b: u8) -> bool {
    b == 0x0a || b == 0x0d || b == 0x09 || (0x20 <= b && b <= 0x7e)
}

pub open spec fn count_printable(b: Seq<u8>) -> nat
    decreases b.len(),
{
    if b.len() == 0 {
        0
    } else {
        count_printable(b.drop_last()) + if printable_byte(b.last()) {
            1nat
        } else {
            0nat
        }
    }
}

/// Text kinds get an average line length, when the input is UTF-8.
pub open spec fn has_line_feature(kind: ProbeKind, bytes: Seq<u8>) -> bool {
    (kind == ProbeKind::Utf8 || kind == ProbeKind::JavaScript || kind == ProbeKind::Json) && valid_utf8(
        bytes,
    )
}

/// The exact features of an input: its length; the share of printable
/// bytes (0 for an empty input); and, for text, the average line length in
/// bytes (0 when there are no lines). The entropy estimate, a real number,
/// is not among them.
pub open spec fn features_ok(v: Seq<Feature>, bytes: Seq<u8>, kind: ProbeKind) -> bool {
    let len = bytes.len() as int;
    let lines = line_count(bytes) as int;
    &&& v.len() == if has_line_feature(kind, bytes) {
        3int
    } else {
        2int
    }
    &&& v[0].is("len"@, len, "length"@, len, 1, "bytes"@)
    &&& v[1].is(
        "printable"@,
        len,
        "printable-ratio"@,
        if len == 0 {
            0
        } else {
            count_printable(bytes) as int
        },
        if len == 0 {
            1
        } else {
            len
        },
        "ratio"@,
    )
    &&& has_line_feature(kind, bytes) ==> v[2].is(
        "avg-line"@,
        len,
        "avg-line-len"@,
        if lines == 0 {
            0
        } else {
            line_bytes(bytes)
        },
        if lines == 0 {
            1
        } else {
            lines
        },
        "chars"@,
    )
}

fn feature(id: &str, len: u64, extractor_id: &str, numerator: u64, denominator: u64, unit: &str) -> (f: Feature)
    ensures
        f.is(id@, len as int, extractor_id@, numerator as int, denominator as int, unit@),
{
    Feature {
        id: id.to_string(),
        range: ByteRange::new(0, len),
        extractor_id: extractor_id.to_string(),
        numerator,
        denominator,
        unit: unit.to_string(),
    }
}

fn printable_count(bytes: &[u8]) -> (n: usize)
    ensures
        n == count_printable(bytes@),
{
    let mut n: usize = 0;
    let mut i: usize = 0;
    while i < bytes.len()
        invariant
            i <= bytes@.len(),
            n == count_printable(bytes@.take(i as int)),
            n <= i,
        decreases bytes.len() - i,
    {
        let b = bytes[i];
        assert(bytes@.take(i + 1).drop_last() =~= bytes@.take(i as int));
        if b == 0x0a || b == 0x0d || b == 0x09 || (0x20 <= b && b <= 0x7e) {
            n = n + 1;
        }
        i = i + 1;
    }
    assert(bytes@.take(i as int) =~= bytes@);
    n
}

/// The features of an input of the given kind; see `features_ok`.
pub fn extract(bytes: &[u8], kind: ProbeKind) -> (v: Vec<Feature>)
    ensures
        features_ok(v@, bytes@, kind),
{
    let len = bytes.len() as u64;
    let mut v: Vec<Feature> = Vec::new();
    v.push(feature("len", len, "length", len, 1, "bytes"));
    let printable = printable_count(bytes) as u64;
    if len == 0 {
        v.push(feature("printable", len, "printable-ratio", 0, 1, "ratio"));
    } else {
        v.push(feature("printable", len, "printable-ratio", printable, len, "ratio"));
    }
    if kind == ProbeKind::Utf8 || kind == ProbeKind::JavaScript || kind == ProbeKind::Json {
        if str_from_utf8(bytes).is_some() {
            let (lines, sum) = line_stats(bytes);
            if lines == 0 {
                v.push(feature("avg-line", len, "avg-line-len", 0, 1, "chars"));
            } else {
                v.push(feature("avg-line", len, "avg-line-len", sum as u64, lines as u64, "chars"));
            }
        }
    }
    v
}

// ---------------------------------------------------------------- coverage

/// How much of the rule set an analysis covered.
pub open spec fn coverage_status(kind: ProbeKind, n_findings: int) -> CoverageStatus {
    if kind.is_opaque_binary() {
        CoverageStatus::Unsupported
    } else if kind == ProbeKind::Gzip {
        CoverageStatus::Full
    } else if n_findings >= 1000 {
        CoverageStatus::Partial
    } else {
        CoverageStatus::Full
    }
}

pub open spec fn checked_rules(kind: ProbeKind) -> Seq<Seq<char>> {
    if kind.is_opaque_binary() {
        seq!["magic"@]
    } else if kind == ProbeKind::Gzip {
        seq!["compression.gzip"@, "magic"@]
    } else {
        seq![
            "enc.base64"@,
            "enc.base64url"@,
            "enc.base16"@,
            "enc.percent"@,
            "enc.js-escape"@,
            "layout.minify"@,
            "data.literal-concat"@,
            "control.dynamic-eval"@,
        ]
    }
}

pub open spec fn skipped_rules(kind: ProbeKind) -> Seq<Seq<char>> {
    if kind.is_opaque_binary() {
        seq!["enc.base64"@, "layout.minify"@, "internal-sections"@]
    } else if kind == ProbeKind::Gzip {
        seq!["multi-member-gzip"@]
    } else {
        Seq::empty()
    }
}

pub open spec fn coverage_notes(kind: ProbeKind) -> Seq<Seq<char>> {
    if kind.is_opaque_binary() {
        seq!["Only magic and coarse entropy. Not a packer identification."@]
    } else {
        Seq::empty()
    }
}

/// Executables and unknown binaries are looked at for their first 192 KiB
/// only; everything else in full.
pub open spec fn inspected_bytes(kind: ProbeKind, len: u64) -> u64 {
    if kind.is_opaque_binary() && len > 196608 {
        196608
    } else {
        len
    }
}

pub open spec fn coverage_ok(c: Coverage, kind: ProbeKind, len: u64, n_findings: int) -> bool {
    &&& c.status == coverage_status(kind, n_findings)
    &&& strings_view(c.checked_rules@) == checked_rules(kind)
    &&& strings_view(c.skipped@) == skipped_rules(kind)
    &&& c.inspected_bytes == inspected_bytes(kind, len)
    &&& strings_view(c.notes@) == coverage_notes(kind)
}

fn coverage_for(probe: &Probe, len: u64, findings: &[Finding]) -> (c: Coverage)
    ensures
        coverage_ok(c, probe.kind, len, findings@.len() as int),
{
    let mut checked: Vec<String> = Vec::new();
    let mut skipped: Vec<String> = Vec::new();
    let mut notes: Vec<String> = Vec::new();
    match probe.kind {
        ProbeKind::Pe | ProbeKind::Elf | ProbeKind::MachO | ProbeKind::UnknownBinary => {
            push_str(&mut checked, "magic");
            push_str(&mut skipped, "enc.base64");
            push_str(&mut skipped, "layout.minify");
            push_str(&mut skipped, "internal-sections");
            push_str(&mut notes, "Only magic and coarse entropy. Not a packer identification.");
            assert(strings_view(checked@) =~= checked_rules(probe.kind));
            assert(strings_view(skipped@) =~= skipped_rules(probe.kind));
            assert(strings_view(notes@) =~= coverage_notes(probe.kind));
            Coverage {
                status: CoverageStatus::Unsupported,
                checked_rules: checked,
                skipped,
                inspected_bytes: if len > 196608 {
                    196608
                } else {
                    len
                },
                notes,
            }
        },
        ProbeKind::Gzip => {
            push_str(&mut checked, "compression.gzip");
            push_str(&mut checked, "magic");
            push_str(&mut skipped, "multi-member-gzip");
            assert(strings_view(checked@) =~= checked_rules(probe.kind));
            assert(strings_view(skipped@) =~= skipped_rules(probe.kind));
            assert(strings_view(notes@) =~= coverage_notes(probe.kind));
            Coverage {
                status: CoverageStatus::Full,
                checked_rules: checked,
                skipped,
                inspected_bytes: len,
                notes,
            }
        },
        _ => {
            push_str(&mut checked, "enc.base64");
            push_str(&mut checked, "enc.base64url");
            push_str(&mut checked, "enc.base16");
            push_str(&mut checked, "enc.percent");
            push_str(&mut checked, "enc.js-escape");
            push_str(&mut checked, "layout.minify");
            push_str(&mut checked, "data.literal-concat");
            push_str(&mut checked, "control.dynamic-eval");
            assert(strings_view(checked@) =~= checked_rules(probe.kind));
            assert(strings_view(skipped@) =~= skipped_rules(probe.kind));
            assert(strings_view(notes@) =~= coverage_notes(probe.kind));
            Coverage {
                status: if findings.len() >= 1000 {
                    CoverageStatus::Partial
                } else {
                    CoverageStatus::Full
                },
                checked_rules: checked,
                skipped,
                inspected_bytes: len,
                notes,
            }
        },
    }
}

// ---------------------------------------------------------------- assessment

/// Techniques that show deliberate obfuscation, not just encoding.
pub open spec fn is_obfuscation_technique(t: Seq<char>) -> bool {
    t == "control.dynamic-eval"@ || t == "data.literal-concat"@ || t == "data.string-table"@
}

/// A confirmed or probable encoding, or minified layout: worth a look, but
/// no indicator by itself.
pub open spec fn is_soft_signal(f: FindingView) -> bool {
    (f.category == "encoding"@ && (f.identification == Identification::Confirmed || f.identification
        == Identification::Probable)) || f.technique_id == "layout.minify"@
}

/// Executables and unknown binaries are inconclusive; any obfuscation
/// technique means indicators are present; an encoding or minified layout
/// alone is inconclusive; otherwise there are no indicators.
pub open spec fn spec_assess(kind: ProbeKind, fs: Seq<FindingView>) -> Assessment {
    if kind.is_opaque_binary() {
        Assessment::Inconclusive
    } else if exists|i: int| 0 <= i < fs.len() && is_obfuscation_technique(#[trigger] fs[i].technique_id) {
        Assessment::IndicatorsPresent
    } else if exists|i: int| 0 <= i < fs.len() && is_soft_signal(#[trigger] fs[i]) {
        Assessment::Inconclusive
    } else {
        Assessment::NoIndicators
    }
}

fn assess(probe: &Probe, findings: &[Finding]) -> (a: Assessment)
    ensures
        a == spec_assess(probe.kind, findings_view(findings@)),
{
    let ghost fs = findings_view(findings@);
    match probe.kind {
        ProbeKind::Pe | ProbeKind::Elf | ProbeKind::MachO | ProbeKind::UnknownBinary => {
            return Assessment::Inconclusive;
        },
        _ => {},
    }
    let mut k: usize = 0;
    while k < findings.len()
        invariant
            k <= findings@.len(),
            fs == findings_view(findings@),
            !probe.kind.is_opaque_binary(),
            forall|i: int| 0 <= i < k ==> !is_obfuscation_technique(#[trigger] fs[i].technique_id),
        decreases findings.len() - k,
    {
        let t = findings[k].technique_id.as_str();
        if str_eq(t, "control.dynamic-eval") || str_eq(t, "data.literal-concat") || str_eq(
            t,
            "data.string-table",
        ) {
            assert(is_obfuscation_technique(fs[k as int].technique_id));
            return Assessment::IndicatorsPresent;
        }
        k = k + 1;
    }
    let mut k: usize = 0;
    while k < findings.len()
        invariant
            k <= findings@.len(),
            fs == findings_view(findings@),
            !probe.kind.is_opaque_binary(),
            forall|i: int| 0 <= i < fs.len() ==> !is_obfuscation_technique(#[trigger] fs[i].technique_id),
            forall|i: int| 0 <= i < k ==> !is_soft_signal(#[trigger] fs[i]),
        decreases findings.len() - k,
    {
        let f = &findings[k];
        let encoding = str_eq(f.category.as_str(), "encoding") && (f.identification == Identification::Confirmed
            || f.identification == Identification::Probable);
        if encoding || str_eq(f.technique_id.as_str(), "layout.minify") {
            assert(is_soft_signal(fs[k as int]));
            return Assessment::Inconclusive;
        }
        k = k + 1;
    }
    Assessment::NoIndicators
}

// ---------------------------------------------------------------- ordering

/// `a` sorts before `b` as byte strings, comparing from position `k` on.
pub open spec fn lex_less_from(a: Seq<u8>, b: Seq<u8>, k: int) -> bool
    decreases a.len() - k,
{
    if k < 0 || k >= a.len() {
        0 <= k < b.len()
    } else if k >= b.len() {
        false
    } else if a[k] != b[k] {
        a[k] < b[k]
    } else {
        lex_less_from(a, b, k + 1)
    }
}

/// `a` sorts before `b` as byte strings.
pub open spec fn lex_less(a: Seq<u8>, b: Seq<u8>) -> bool {
    lex_less_from(a, b, 0)
}

pub proof fn lemma_lex_irreflexive(a: Seq<u8>, k: int)
    requires
        k >= 0,
    ensures
        !lex_less_from(a, a, k),
    decreases a.len() - k,
{
    if k < a.len() {
        lemma_lex_irreflexive(a, k + 1);
    }
}

pub proof fn lemma_lex_transitive(a: Seq<u8>, b: Seq<u8>, c: Seq<u8>, k: int)
    requires
        k >= 0,
        lex_less_from(a, b, k),
        lex_less_from(b, c, k),
    ensures
        lex_less_from(a, c, k),
    decreases a.len() - k,
{
    if k < a.len() && k < b.len() && k < c.len() && a[k] == b[k] && b[k] == c[k] {
        lemma_lex_transitive(a, b, c, k + 1);
    }
}

/// The order of findings in a result: by technique, then start, then id.
pub open spec fn key_less(a: Finding, b: Finding) -> bool {
    let ta = encode_utf8(a.technique_id@);
    let tb = encode_utf8(b.technique_id@);
    lex_less(ta, tb) || (ta == tb && (a.range.start < b.range.start || (a.range.start == b.range.start
        && lex_less(encode_utf8(a.id@), encode_utf8(b.id@)))))
}

pub open spec fn sorted_findings(s: Seq<Finding>) -> bool {
    forall|i: int, j: int| 0 <= i < j < s.len() ==> !key_less(#[trigger] s[j], #[trigger] s[i])
}

proof fn lemma_key_order(a: Finding, b: Finding, c: Finding)
    ensures
        !key_less(a, a),
        key_less(a, b) && key_less(b, c) ==> key_less(a, c),
{
    lemma_lex_irreflexive(encode_utf8(a.technique_id@), 0);
    lemma_lex_irreflexive(encode_utf8(a.id@), 0);
    if key_less(a, b) && key_less(b, c) {
        let (ta, tb, tc) = (encode_utf8(a.technique_id@), encode_utf8(b.technique_id@), encode_utf8(c.technique_id@));
        if lex_less(ta, tb) && lex_less(tb, tc) {
            lemma_lex_transitive(ta, tb, tc, 0);
        }
        let (ia, ib, ic) = (encode_utf8(a.id@), encode_utf8(b.id@), encode_utf8(c.id@));
        if lex_less(ia, ib) && lex_less(ib, ic) {
            lemma_lex_transitive(ia, ib, ic, 0);
        }
    }
}

pub fn bytes_less(a: &[u8], b: &[u8]) -> (r: bool)
    ensures
        r == lex_less(a@, b@),
{
    let mut k: usize = 0;
    loop
        invariant
            lex_less_from(a@, b@, k as int) == lex_less(a@, b@),
            k <= a@.len(),
            k <= b@.len(),
        decreases a@.len() - k,
    {
        if k >= a.len() {
            return k < b.len();
        }
        if k >= b.len() {
            return false;
        }
        if a[k] != b[k] {
            return a[k] < b[k];
        }
        k = k + 1;
    }
}

fn finding_less(a: &Finding, b: &Finding) -> (r: bool)
    ensures
        r == key_less(*a, *b),
{
    let ta = a.technique_id.as_str().as_bytes();
    let tb = b.technique_id.as_str().as_bytes();
    if bytes_less(ta, tb) {
        return true;
    }
    if !crate::text::bytes_eq(ta, tb) {
        return false;
    }
    if a.range.start != b.range.start {
        return a.range.start < b.range.start;
    }
    bytes_less(a.id.as_str().as_bytes(), b.id.as_str().as_bytes())
}

/// The findings in result order, by technique, start and id; a stable sort.
pub fn sort_findings(v: Vec<Finding>) -> (out: Vec<Finding>)
    ensures
        findings_view(out@).to_multiset() == findings_view(v@).to_multiset(),
        sorted_findings(out@),
        all_ids_fresh(v@) ==> all_ids_fresh(out@),
{
    let ghost orig = v@;
    let mut rest = v;
    let mut out: Vec<Finding> = Vec::new();
    let ghost mut k: int = 0;
    assert(findings_view(out@) =~= findings_view(orig.take(0)));
    while rest.len() > 0
        invariant
            0 <= k <= orig.len(),
            rest@ == orig.skip(k),
            sorted_findings(out@),
            findings_view(out@).to_multiset() == findings_view(orig.take(k)).to_multiset(),
            all_ids_fresh(orig) ==> all_ids_fresh(out@),
        decreases rest@.len(),
    {
        let x = rest.remove(0);
        let mut p: usize = 0;
        while p < out.len() && !finding_less(&x, &out[p])
            invariant
                p <= out@.len(),
                forall|m: int| 0 <= m < p ==> !key_less(x, #[trigger] out@[m]),
            decreases out@.len() - p,
        {
            p = p + 1;
        }
        let ghost before = out@;
        out.insert(p, x);
        proof {
            assert(out@ == before.insert(p as int, x));
            assert forall|i: int, j: int| 0 <= i < j < out@.len() implies !key_less(
                #[trigger] out@[j],
                #[trigger] out@[i],
            ) by {
                if i < p && j == p {
                } else if i == p && j > p {
                    lemma_key_order(out@[j], x, before[p as int]);
                    if j - 1 > p {
                        assert(!key_less(before[j - 1], before[p as int]));
                    }
                } else if i < p && j > p {
                    assert(!key_less(before[j - 1], before[i]));
                } else if j < p {
                    assert(!key_less(before[j], before[i]));
                } else {
                    assert(!key_less(before[j - 1], before[i - 1]));
                }
            }
            assert(findings_view(out@) =~= findings_view(before).insert(p as int, x@));
            assert(orig.take(k + 1) =~= orig.take(k).push(x));
            assert(findings_view(orig.take(k + 1)) =~= findings_view(orig.take(k)).push(x@));
            vstd::seq_lib::to_multiset_build(findings_view(orig.take(k)), x@);
            vstd::seq_lib::to_multiset_insert(findings_view(before), p as int, x@);
            if all_ids_fresh(orig) {
                assert(x == orig[k]);
                assert forall|m: int| 0 <= m < out@.len() implies ids_fresh(#[trigger] out@[m]) by {
                    if m < p {
                        assert(out@[m] == before[m]);
                    } else if m > p {
                        assert(out@[m] == before[m - 1]);
                    }
                }
            }
            assert(rest@ =~= orig.skip(k + 1));
            k = k + 1;
        }
    }
    assert(orig.take(k) =~= orig);
    out
}

// ---------------------------------------------------------------- analysis

/// The caveats every result carries, and those for executables and for
/// inputs too large for text analysis.
pub open spec fn analysis_limitations(kind: ProbeKind, len: int) -> Seq<Seq<char>> {
    seq!["Detection is not a safety verdict."@, "Encoding success is not decryption or deobfuscation of intent."@]
        + (if kind.is_executable() {
        seq!["Executable container detected. Internal analysis is PHASE 07 / unsupported."@]
    } else {
        Seq::empty()
    }) + (if len > MAX_TEXT_PARSE_BYTES {
        seq!["Text/AST analysis limited to 10 MiB; coarse features used."@]
    } else {
        Seq::empty()
    })
}

/// Analyses `bytes`: probes its kind, extracts features, runs the detectors
/// and sorts their findings, and derives coverage and the assessment.
/// Everything `analyze` promises of its result for these arguments.
pub open spec fn analysis_ok(r: AnalysisResult, artifact_id: Seq<char>, job_id: Seq<char>, bytes: Seq<u8>) -> bool {
    let kind = spec_probe(bytes).kind;
    &&& r.job_id@ == job_id
    &&& r.artifact_id@ == artifact_id
    &&& r.sha256@ == spec_encode_hex(spec_sha256(bytes))
    &&& findings_view(r.findings@).to_multiset() == spec_detect(artifact_id, bytes, kind).to_multiset()
    &&& r.findings@.len() == spec_detect(artifact_id, bytes, kind).len()
    &&& sorted_findings(r.findings@)
    &&& coverage_ok(r.coverage, kind, bytes.len() as u64, r.findings@.len() as int)
    &&& r.assessment == spec_assess(kind, findings_view(r.findings@))
    &&& features_ok(r.features@, bytes, kind)
    &&& strings_view(r.limitations@) == analysis_limitations(kind, bytes.len() as int)
    &&& r.probe_kind@ == spec_kind_name(kind)
    &&& r.text_preview@ == spec_text_preview(bytes)
    &&& r.versions.schema_version@ == SCHEMA_VERSION@
    &&& r.versions.rule_version@ == RULE_VERSION@
    &&& r.versions.knowledge_pack@ == KNOWLEDGE_PACK@
    &&& r.versions.profile@ == PROFILE_STATIC_SAFE@
}

/// Analyses `bytes`: probes its kind, extracts features, runs the detectors
/// and sorts their findings, and derives coverage and the assessment; see
/// `analysis_ok`.
pub fn analyze(artifact_id: &str, job_id: &str, bytes: &[u8]) -> (r: AnalysisResult)
    ensures
        analysis_ok(r, artifact_id@, job_id@, bytes@),
        all_ids_fresh(r.findings@),
{
    let p = probe(bytes);
    let features = extract(bytes, p.kind);
    let detected = detect(artifact_id, bytes, &p);
    let ghost dv = findings_view(detected@);
    let findings = sort_findings(detected);
    proof {
        vstd::seq_lib::to_multiset_len(findings_view(findings@));
        vstd::seq_lib::to_multiset_len(dv);
    }
    let len = bytes.len() as u64;
    let coverage = coverage_for(&p, len, findings.as_slice());
    let assessment = assess(&p, findings.as_slice());
    let mut limitations: Vec<String> = Vec::new();
    push_str(&mut limitations, "Detection is not a safety verdict.");
    push_str(&mut limitations, "Encoding success is not decryption or deobfuscation of intent.");
    let ghost base = strings_view(limitations@);
    match p.kind {
        ProbeKind::Pe | ProbeKind::Elf | ProbeKind::MachO => {
            push_str(&mut limitations, "Executable container detected. Internal analysis is PHASE 07 / unsupported.");
        },
        _ => {},
    }
    let ghost mid = strings_view(limitations@);
    if len > MAX_TEXT_PARSE_BYTES {
        push_str(&mut limitations, "Text/AST analysis limited to 10 MiB; coarse features used.");
    }
    assert(strings_view(limitations@) =~= analysis_limitations(p.kind, bytes@.len() as int));
    AnalysisResult {
        job_id: job_id.to_string(),
        artifact_id: artifact_id.to_string(),
        sha256: sha256_hex(bytes),
        coverage,
        assessment,
        findings,
        features,
        limitations,
        probe_kind: p.kind.as_str().to_string(),
        text_preview: text_preview(bytes),
        versions: AnalysisVersions {
            schema_version: SCHEMA_VERSION.to_string(),
            rule_version: RULE_VERSION.to_string(),
            knowledge_pack: KNOWLEDGE_PACK.to_string(),
            profile: PROFILE_STATIC_SAFE.to_string(),
        },
    }
}

// ---------------------------------------------------------------- validation

pub open spec fn is_text_encoding(a: Option<Adapter>) -> bool {
    a == Some(Adapter::Base64) || a == Some(Adapter::Base64Url) || a == Some(Adapter::Base16) || a == Some(
        Adapter::Percent,
    )
}

pub open spec fn checks_view(v: Seq<ValidationCheck>) -> Seq<(Seq<char>, Seq<char>)> {
    v.map_values(|c: ValidationCheck| (c.kind@, c.detail@))
}

/// The round trip of a text encoding: `Some(matches)` when the range is in
/// order, lies in the input and is UTF-8, else `None` (no check is recorded
/// then).
pub open spec fn round_trip(original: Seq<u8>, start: int, end: int, id: Seq<char>, output: Seq<u8>) -> Option<
    bool,
> {
    if start <= end <= original.len() {
        match spec_reencode(original.subrange(start, end), id, output) {
            Ok(b) => Some(b),
            Err(_) => None,
        }
    } else {
        None
    }
}

pub open spec fn round_trip_check(ok: bool) -> (Seq<char>, Seq<char>) {
    (
        "round_trip"@,
        if ok {
            "Selected range re-encodes to the same bytes."@
        } else {
            "Re-encode did not match the selected range."@
        },
    )
}

/// The checks a validation of the adapter `id` records.
pub open spec fn validation_checks(original: Seq<u8>, start: int, end: int, id: Seq<char>, output: Seq<u8>) -> Seq<
    (Seq<char>, Seq<char>),
> {
    let a = spec_adapter(id);
    if is_text_encoding(a) {
        match round_trip(original, start, end, id, output) {
            Some(ok) => seq![round_trip_check(ok)],
            None => Seq::empty(),
        }
    } else if a == Some(Adapter::Gzip) {
        seq![("structural"@, "Single-member inflate within size and ratio limits."@)]
    } else if a == Some(Adapter::Minify) {
        seq![("structural"@, "Formatter does not execute JS. Identifier names stay lost."@)]
    } else if a == Some(Adapter::LiteralConcat) {
        seq![("rule_checked"@, "Only adjacent string literals joined by + were rewritten."@)]
    } else {
        seq![("none"@, "No validator for this adapter."@)]
    }
}

/// The caveats a validation of the adapter `id` records.
pub open spec fn validation_limitations(id: Seq<char>) -> Seq<Seq<char>> {
    let a = spec_adapter(id);
    if is_text_encoding(a) {
        seq!["Round-trip does not restore author intent."@]
    } else if a == Some(Adapter::Gzip) {
        seq!["CRC success is not a malice or equivalence proof."@]
    } else if a == Some(Adapter::Minify) {
        seq!["Pretty-print is not semantic equivalence."@]
    } else if a == Some(Adapter::LiteralConcat) {
        seq!["Source text / line numbers may change."@]
    } else {
        Seq::empty()
    }
}

/// Fails on an empty output (but for pretty-printing) and on a failed round
/// trip; not checked for adapters without a validator; else passed.
pub open spec fn validation_verdict(original: Seq<u8>, start: int, end: int, id: Seq<char>, output: Seq<u8>) -> ValidationVerdict {
    let a = spec_adapter(id);
    if output.len() == 0 && id != "layout.minify"@ {
        ValidationVerdict::Failed
    } else if is_text_encoding(a) {
        if round_trip(original, start, end, id, output) == Some(false) {
            ValidationVerdict::Failed
        } else {
            ValidationVerdict::Passed
        }
    } else if a == Some(Adapter::Gzip) || a == Some(Adapter::Minify) || a == Some(Adapter::LiteralConcat) {
        ValidationVerdict::Passed
    } else {
        ValidationVerdict::NotChecked
    }
}

fn check(kind: &str, detail: &str) -> (c: ValidationCheck)
    ensures
        c.kind@ == kind@,
        c.detail@ == detail@,
{
    ValidationCheck { kind: kind.to_string(), detail: detail.to_string() }
}

/// Validates what an adapter produced for `finding` in `original`: the text
/// encodings by encoding the output again, the others by what their rules
/// guarantee. See `validation_checks`, `validation_verdict` and
/// `validation_limitations`.
pub fn validate_adapter(original: &[u8], finding: &Finding, adapter_id: &str, output: &[u8]) -> (v: Validation)
    ensures
        checks_view(v.checks@) == validation_checks(
            original@,
            finding.range.start as int,
            finding.range.end as int,
            adapter_id@,
            output@,
        ),
        v.verdict == validation_verdict(
            original@,
            finding.range.start as int,
            finding.range.end as int,
            adapter_id@,
            output@,
        ),
        strings_view(v.limitations@) == validation_limitations(adapter_id@),
        v.expected_hash is None,
{
    let ghost start_i = finding.range.start as int;
    let ghost end_i = finding.range.end as int;
    let mut checks: Vec<ValidationCheck> = Vec::new();
    let mut verdict = ValidationVerdict::Passed;
    let mut limitations: Vec<String> = Vec::new();
    let a = crate::transform::adapter_of(adapter_id);
    match a {
        Some(Adapter::Base64) | Some(Adapter::Base64Url) | Some(Adapter::Base16) | Some(Adapter::Percent) => {
            if finding.range.start <= finding.range.end && finding.range.end <= original.len() as u64 {
                let start = finding.range.start as usize;
                let end = finding.range.end as usize;
                match reencode_range(original, start, end, adapter_id, output) {
                    Ok(ok) => {
                        if ok {
                            checks.push(check("round_trip", "Selected range re-encodes to the same bytes."));
                        } else {
                            checks.push(check("round_trip", "Re-encode did not match the selected range."));
                            verdict = ValidationVerdict::Failed;
                        }
                    },
                    Err(_) => {},
                }
            }
            push_str(&mut limitations, "Round-trip does not restore author intent.");
        },
        Some(Adapter::Gzip) => {
            checks.push(check("structural", "Single-member inflate within size and ratio limits."));
            push_str(&mut limitations, "CRC success is not a malice or equivalence proof.");
        },
        Some(Adapter::Minify) => {
            checks.push(check("structural", "Formatter does not execute JS. Identifier names stay lost."));
            push_str(&mut limitations, "Pretty-print is not semantic equivalence.");
        },
        Some(Adapter::LiteralConcat) => {
            checks.push(check("rule_checked", "Only adjacent string literals joined by + were rewritten."));
            push_str(&mut limitations, "Source text / line numbers may change.");
        },
        _ => {
            verdict = ValidationVerdict::NotChecked;
            checks.push(check("none", "No validator for this adapter."));
        },
    }
    if output.len() == 0 && !str_eq(adapter_id, "layout.minify") {
        verdict = ValidationVerdict::Failed;
    }
    assert(checks_view(checks@) =~= validation_checks(original@, start_i, end_i, adapter_id@, output@));
    assert(strings_view(limitations@) =~= validation_limitations(adapter_id@));
    Validation { checks, verdict, limitations, expected_hash: None }
}

/// What a preview of the adapter `id` on the range `[start, end)` of
/// `bytes` holds, for the adapter's output `out`.
pub open spec fn preview_ok(p: TransformPreview, bytes: Seq<u8>, start: int, end: int, id: Seq<char>, out: Seq<u8>) -> bool {
    &&& p.plan_id@.len() == 0
    &&& p.candidate_sha256@ == spec_encode_hex(spec_sha256(out))
    &&& p.candidate_preview@ == spec_text_preview(out)
    &&& p.byte_length == out.len()
    &&& checks_view(p.validation.checks@) == validation_checks(bytes, start, end, id, out)
    &&& p.validation.verdict == validation_verdict(bytes, start, end, id, out)
    &&& strings_view(p.validation.limitations@) == validation_limitations(id)
    &&& p.validation.expected_hash is None
    &&& p.result == if out == bytes {
        TransformResultKind::NoChange
    } else {
        TransformResultKind::Transformed
    }
}

/// The preview an adapter run gives: the output's digest, preview text and
/// length, its validation, and whether it changed anything; or the
/// adapter's error.
pub fn preview_from_finding(bytes: &[u8], finding: &Finding, adapter_id: &str) -> (r: Result<TransformPreview, IpcError>)
    ensures
        match spec_apply_adapter(bytes@, finding.range.start as int, finding.range.end as int, adapter_id@) {
            Ok(out) => r matches Ok(p) && preview_ok(
                p,
                bytes@,
                finding.range.start as int,
                finding.range.end as int,
                adapter_id@,
                out,
            ),
            Err(e) => r matches Err(re) && re@ == e,
        },
{
    let output = match apply_adapter(bytes, finding, adapter_id) {
        Ok(o) => o,
        Err(e) => {
            return Err(e);
        },
    };
    let validation = validate_adapter(bytes, finding, adapter_id, output.bytes.as_slice());
    let same = bytes_eq(output.bytes.as_slice(), bytes);
    Ok(TransformPreview {
        plan_id: String::new(),
        candidate_sha256: sha256_hex(output.bytes.as_slice()),
        candidate_preview: text_preview(output.bytes.as_slice()),
        byte_length: output.bytes.len() as u64,
        validation,
        result: if same {
            TransformResultKind::NoChange
        } else {
            TransformResultKind::Transformed
        },
    })
}

// ---------------------------------------------------------------- laws

/// Executables and unknown binary data are never analysed inside: an
/// analysis of them has no findings, is inconclusive, and reports its
/// coverage as unsupported.
pub proof fn law_opaque_input_analysis(r: AnalysisResult, artifact_id: Seq<char>, job_id: Seq<char>, bytes: Seq<u8>)
    requires
        analysis_ok(r, artifact_id, job_id, bytes),
        spec_probe(bytes).kind.is_opaque_binary(),
    ensures
        r.findings@.len() == 0,
        r.assessment == Assessment::Inconclusive,
        r.coverage.status == CoverageStatus::Unsupported,
{
}

/// An analysis reports at most `MAX_FINDINGS` findings.
pub proof fn law_findings_capped(r: AnalysisResult, artifact_id: Seq<char>, job_id: Seq<char>, bytes: Seq<u8>)
    requires
        analysis_ok(r, artifact_id, job_id, bytes),
    ensures
        r.findings@.len() <= crate::detect::MAX_FINDINGS,
{
    let kind = spec_probe(bytes).kind;
    if !kind.is_opaque_binary() && kind != ProbeKind::Gzip {
        let all = crate::detect::b64_hits(artifact_id, bytes, 0) + (crate::detect::hex_hits(artifact_id, bytes, 0) + (
        crate::detect::pct_hits(artifact_id, bytes, 0) + crate::detect::text_findings(artifact_id, bytes, kind)));
        assert(crate::detect::cap_findings(all).len() <= crate::detect::MAX_FINDINGS);
    }
}

/// Every finding of an analysis covers a range of the analysed bytes
/// (`start <= end <= length`), so does each piece of its evidence, and no
/// evidence excerpt is longer than `MAX_EXCERPT_BYTES` characters.
pub proof fn law_findings_within_input(r: AnalysisResult, artifact_id: Seq<char>, job_id: Seq<char>, bytes: Seq<u8>)
    requires
        analysis_ok(r, artifact_id, job_id, bytes),
        bytes.len() <= u64::MAX,
    ensures
        forall|k: int| 0 <= k < r.findings@.len() ==> within(#[trigger] r.findings@[k]@, bytes.len() as int),
{
    broadcast use vstd::seq_lib::group_to_multiset_ensures;

    let kind = spec_probe(bytes).kind;
    let d = crate::detect::spec_detect(artifact_id, bytes, kind);
    crate::detect::law_detect_findings_bounded(artifact_id, bytes, kind);
    assert forall|k: int| 0 <= k < r.findings@.len() implies within(#[trigger] r.findings@[k]@, bytes.len() as int) by {
        let fv = findings_view(r.findings@);
        assert(fv[k] == r.findings@[k]@);
        assert(fv.contains(fv[k]));
        assert(fv.to_multiset().count(fv[k]) > 0);
        assert(d.to_multiset().count(fv[k]) > 0);
        assert(d.contains(fv[k]));
        let j = choose|j: int| 0 <= j < d.len() && d[j] == fv[k];
        assert(within(d[j], bytes.len() as int));
    }
}

} // verus!

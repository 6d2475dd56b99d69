//! Records of one analysis: ranges, findings, evidence, coverage, features.

use vstd::prelude::*;

verus! {

#[derive(Clone, Copy, Debug, PartialEq, Eq, Structural)]
pub enum CoverageStatus {
    Full,
    Partial,
    Unsupported,
}

#[derive(Clone, Copy, Debug, PartialEq, Eq, Structural)]
pub enum Assessment {
    IndicatorsPresent,
    NoIndicators,
    Inconclusive,
}

#[derive(Clone, Copy, Debug, PartialEq, Eq, Structural)]
pub enum Identification {
    Confirmed,
    Probable,
    Possible,
    Unknown,
}

#[derive(Clone, Copy, Debug, PartialEq, Eq, Structural)]
pub enum Transformability {
    Supported,
    Partial,
    NeedsParameters,
    Unsupported,
}

#[derive(Clone, Copy, Debug, PartialEq, Eq, Structural)]
pub enum JobStatus {
    Queued,
    Running,
    Completed,
    Partial,
    Failed,
    Cancelling,
    Cancelled,
}

#[derive(Clone, Copy, Debug, PartialEq, Eq, Structural)]
pub enum JobKind {
    Import,
    Analyze,
    Preview,
    Transform,
    Export,
}

/// A half-open byte range `[start, end)`.
#[derive(Clone, Copy, Debug, PartialEq, Eq, Structural)]
pub struct ByteRange {
    pub start: u64,
    pub end: u64,
}

impl ByteRange {
    pub fn new(start: u64, end: u64) -> (r: ByteRange)
        ensures
            r.start == start,
            r.end == end,
    {
        ByteRange { start, end }
    }

    /// The range is ordered and lies within an input of `len` bytes.
    pub open spec fn spec_contains_ok(self, len: u64) -> bool {
        self.start <= self.end && self.end <= len
    }

    pub fn contains_ok(&self, len: u64) -> (ok: bool)
        ensures
            ok == self.spec_contains_ok(len),
    {
        self.start <= self.end && self.end <= len
    }
}

#[derive(Clone, Debug, PartialEq)]
pub struct Score {
    pub value: u8,
    pub kind: String,
    pub rule_version: String,
}

#[derive(Clone, Debug, PartialEq, Eq)]
pub struct Evidence {
    pub id: String,
    pub source_rule: String,
    pub range: ByteRange,
    pub observation: String,
    pub polarity: String,
    pub group: String,
    pub excerpt: String,
}

#[derive(Clone, Debug, PartialEq)]
pub struct Finding {
    pub id: String,
    pub artifact_id: String,
    pub technique_id: String,
    pub category: String,
    pub range: ByteRange,
    pub identification: Identification,
    pub score: Score,
    pub evidence: Vec<Evidence>,
    pub transformability: Transformability,
    pub limitations: Vec<String>,
    pub article_id: String,
}

/// An evidence record without its random id.
pub struct EvidenceView {
    pub source_rule: Seq<char>,
    pub range: ByteRange,
    pub observation: Seq<char>,
    pub polarity: Seq<char>,
    pub group: Seq<char>,
    pub excerpt: Seq<char>,
}

/// A finding without the random ids of itself and of its evidence.
pub struct FindingView {
    pub artifact_id: Seq<char>,
    pub technique_id: Seq<char>,
    pub category: Seq<char>,
    pub range: ByteRange,
    pub identification: Identification,
    pub score: u8,
    pub score_kind: Seq<char>,
    pub rule_version: Seq<char>,
    pub evidence: Seq<EvidenceView>,
    pub transformability: Transformability,
    pub limitations: Seq<Seq<char>>,
    pub article_id: Seq<char>,
}

impl View for Evidence {
    type V = EvidenceView;

    open spec fn view(&self) -> EvidenceView {
        EvidenceView {
            source_rule: self.source_rule@,
            range: self.range,
            observation: self.observation@,
            polarity: self.polarity@,
            group: self.group@,
            excerpt: self.excerpt@,
        }
    }
}

pub open spec fn strings_view(v: Seq<String>) -> Seq<Seq<char>> {
    v.map_values(|s: String| s@)
}

/// A copy of a list of strings.
pub fn copy_strings(v: &Vec<String>) -> (r: Vec<String>)
    ensures
        r@ == v@,
{
    let mut r: Vec<String> = Vec::new();
    let mut k: usize = 0;
    while k < v.len()
        invariant
            k <= v@.len(),
            r@ == v@.take(k as int),
        decreases v.len() - k,
    {
        r.push(v[k].clone());
        assert(r@ =~= v@.take(k + 1));
        k = k + 1;
    }
    assert(v@.take(k as int) =~= v@);
    r
}

/// A copy of an optional string.
pub fn copy_opt_string(o: &Option<String>) -> (r: Option<String>)
    ensures
        r == *o,
{
    match o {
        Some(s) => Some(s.clone()),
        None => None,
    }
}

/// Appends a copy of `s` to a list of strings.
pub fn push_str(v: &mut Vec<String>, s: &str)
    ensures
        strings_view(final(v)@) == strings_view(old(v)@).push(s@),
{
    v.push(s.to_string());
    assert(strings_view(v@) =~= strings_view(old(v)@).push(s@));
}

pub open spec fn evidence_view(v: Seq<Evidence>) -> Seq<EvidenceView> {
    v.map_values(|e: Evidence| e@)
}

impl Score {
    pub fn duplicate(&self) -> (c: Score)
        ensures
            c == *self,
    {
        Score { value: self.value, kind: self.kind.clone(), rule_version: self.rule_version.clone() }
    }
}

impl Evidence {
    pub fn duplicate(&self) -> (c: Evidence)
        ensures
            c == *self,
    {
        Evidence {
            id: self.id.clone(),
            source_rule: self.source_rule.clone(),
            range: self.range,
            observation: self.observation.clone(),
            polarity: self.polarity.clone(),
            group: self.group.clone(),
            excerpt: self.excerpt.clone(),
        }
    }
}

impl Finding {
    /// Equal field by field, lists by their contents.
    pub open spec fn same(self, other: Finding) -> bool {
        &&& self.id == other.id
        &&& self.artifact_id == other.artifact_id
        &&& self.technique_id == other.technique_id
        &&& self.category == other.category
        &&& self.range == other.range
        &&& self.identification == other.identification
        &&& self.score == other.score
        &&& self.evidence@ == other.evidence@
        &&& self.transformability == other.transformability
        &&& self.limitations@ == other.limitations@
        &&& self.article_id == other.article_id
    }

    pub fn duplicate(&self) -> (c: Finding)
        ensures
            c.same(*self),
            c@ == self@,
    {
        let mut evidence: Vec<Evidence> = Vec::new();
        let mut k: usize = 0;
        while k < self.evidence.len()
            invariant
                k <= self.evidence@.len(),
                evidence@ == self.evidence@.take(k as int),
            decreases self.evidence.len() - k,
        {
            evidence.push(self.evidence[k].duplicate());
            assert(evidence@ =~= self.evidence@.take(k + 1));
            k = k + 1;
        }
        assert(self.evidence@.take(k as int) =~= self.evidence@);
        Finding {
            id: self.id.clone(),
            artifact_id: self.artifact_id.clone(),
            technique_id: self.technique_id.clone(),
            category: self.category.clone(),
            range: self.range,
            identification: self.identification,
            score: self.score.duplicate(),
            evidence,
            transformability: self.transformability,
            limitations: copy_strings(&self.limitations),
            article_id: self.article_id.clone(),
        }
    }
}

impl View for Finding {
    type V = FindingView;

    open spec fn view(&self) -> FindingView {
        FindingView {
            artifact_id: self.artifact_id@,
            technique_id: self.technique_id@,
            category: self.category@,
            range: self.range,
            identification: self.identification,
            score: self.score.value,
            score_kind: self.score.kind@,
            rule_version: self.score.rule_version@,
            evidence: evidence_view(self.evidence@),
            transformability: self.transformability,
            limitations: strings_view(self.limitations@),
            article_id: self.article_id@,
        }
    }
}

/// A finding's id and its evidence's ids are fresh ids, 36 characters each.
pub open spec fn ids_fresh(f: Finding) -> bool {
    &&& f.id@.len() == 36
    &&& forall|k: int| 0 <= k < f.evidence@.len() ==> (#[trigger] f.evidence@[k]).id@.len() == 36
}

/// Every finding of the list has fresh ids.
pub open spec fn all_ids_fresh(v: Seq<Finding>) -> bool {
    forall|k: int| 0 <= k < v.len() ==> ids_fresh(#[trigger] v[k])
}

pub open spec fn findings_view(v: Seq<Finding>) -> Seq<FindingView> {
    v.map_values(|f: Finding| f@)
}

/// A measured quantity. Ratios are kept exact as `numerator / denominator`;
/// a plain count has denominator 1.
#[derive(Clone, Debug, PartialEq, Eq)]
pub struct Feature {
    pub id: String,
    pub range: ByteRange,
    pub extractor_id: String,
    pub numerator: u64,
    pub denominator: u64,
    pub unit: String,
}

impl Feature {
    /// The feature has these fields, over the range `[0, len)`.
    pub open spec fn is(
        self,
        id: Seq<char>,
        len: int,
        extractor_id: Seq<char>,
        numerator: int,
        denominator: int,
        unit: Seq<char>,
    ) -> bool {
        &&& self.id@ == id
        &&& self.range.start == 0
        &&& self.range.end == len
        &&& self.extractor_id@ == extractor_id
        &&& self.numerator == numerator
        &&& self.denominator == denominator
        &&& self.unit@ == unit
    }
}

#[derive(Clone, Debug, PartialEq, Eq)]
pub struct Coverage {
    pub status: CoverageStatus,
    pub checked_rules: Vec<String>,
    pub skipped: Vec<String>,
    pub inspected_bytes: u64,
    pub notes: Vec<String>,
}

#[derive(Clone, Debug, PartialEq)]
pub struct AnalysisResult {
    pub job_id: String,
    pub artifact_id: String,
    pub sha256: String,
    pub coverage: Coverage,
    pub assessment: Assessment,
    pub findings: Vec<Finding>,
    pub features: Vec<Feature>,
    pub limitations: Vec<String>,
    pub probe_kind: String,
    pub text_preview: String,
    pub versions: AnalysisVersions,
}

#[derive(Clone, Debug, PartialEq, Eq)]
pub struct AnalysisVersions {
    pub schema_version: String,
    pub rule_version: String,
    pub knowledge_pack: String,
    pub profile: String,
}

#[derive(Clone, Debug, PartialEq, Eq)]
pub struct JobSnapshot {
    pub job_id: String,
    pub session_id: String,
    pub kind: JobKind,
    pub status: JobStatus,
    pub stage: String,
    pub artifact_id: Option<String>,
    pub error: Option<String>,
}

#[derive(Clone, Debug, PartialEq)]
pub struct ArtifactView {
    pub artifact_id: String,
    pub sha256: String,
    pub byte_length: u64,
    pub kind_hint: String,
    pub display_name: String,
    pub parent_artifact_id: Option<String>,
    pub created_by: String,
    pub preview: String,
    pub is_original: bool,
}

#[derive(Clone, Debug, PartialEq)]
pub struct ComparisonPage {
    pub left_id: String,
    pub right_id: String,
    pub left_preview: String,
    pub right_preview: String,
    pub mapping_mode: String,
    pub notes: Vec<String>,
}

} // verus!

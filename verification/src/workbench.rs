//! The coordinator's record of one session: the artifacts taken in, the
//! latest analysis, and the transform plans with their previews and
//! approvals. A plan runs only after a preview, an approval bound to the
//! plan's hash, and within the limits on tries and chain depth.

use vstd::prelude::*;
use vstd::string::{StringExecFns, StringSliceAdditionalSpecFns};
use vstd::utf8::{decode_utf8, encode_utf8, valid_utf8, is_char_boundary};

use crate::analysis::{
    copy_opt_string, copy_strings, findings_view, strings_view, AnalysisResult, ArtifactView,
    ByteRange, ComparisonPage, Finding, JobKind, JobSnapshot, JobStatus, Transformability, push_str,
};
use crate::codec::{
    b64_chunks, b64_sextet, b64_symbol_ok, b64_value, decode_quad, encode_hex, lemma_padded_encoding, spec_encode_b64,
    spec_encode_hex,
};
use crate::error::{err_is, ErrorCode, IpcError};
use crate::info::{AppInfo, ImportedArtifact, MAX_CHAIN_DEPTH, MAX_PREVIEW_BYTES, MAX_TRANSFORM_TRIES, RULE_VERSION};
use crate::outside::{json_string, new_uuid, sha256_digest, spec_json_string, spec_sha256};
use crate::plan::{Approval, DagNode, PlanState, TransformPlan, TransformPreview, ValidationVerdict};
use crate::isolation::IsolationDiagnosis;
use crate::protocol::WorkerResponse;
use crate::text::{decimal, min_int, nul_as_dot, parse_u64, preview_char, push_char, spec_parse_u64, str_eq, u64_decimal};
use crate::codec::{hex_char, hex_char_exec};
use crate::js::str_from_utf8;

verus! {

/// The application's name and versions.
pub fn app_info() -> (a: AppInfo)
    ensures
        a.name@ == "UNVEIL"@,
        a.version@ == crate::info::APP_VERSION@,
        a.schema_version@ == crate::info::SCHEMA_VERSION@,
        a.phase@ == crate::info::PHASE@,
        a.knowledge_pack@ == crate::info::KNOWLEDGE_PACK@,
        a.rule_version@ == RULE_VERSION@,
{
    AppInfo::current()
}

/// An artifact of the session, where it came from and what made it.
pub struct ArtifactRecord {
    pub imported: ImportedArtifact,
    pub parent: Option<String>,
    pub created_by: String,
}

/// A plan with what has happened to it so far.
pub struct PlanRecord {
    pub plan: TransformPlan,
    pub approval: Option<Approval>,
    pub preview: Option<TransformPreview>,
    pub preview_bytes: Option<Vec<u8>>,
}

/// The state of one session.
pub struct Workbench {
    pub session_id: String,
    pub artifacts: Vec<ArtifactRecord>,
    pub current_id: Option<String>,
    pub analysis: Option<AnalysisResult>,
    pub plans: Vec<PlanRecord>,
    pub tries: u32,
    pub depth: u32,
}

/// Position `i` holds the artifact `id`.
pub open spec fn artifact_at(arts: Seq<ArtifactRecord>, id: Seq<char>, i: int) -> bool {
    0 <= i < arts.len() && arts[i].imported.artifact_id@ == id
}

pub open spec fn has_artifact(arts: Seq<ArtifactRecord>, id: Seq<char>) -> bool {
    exists|i: int| artifact_at(arts, id, i)
}

/// Position `i` holds the plan `id`.
pub open spec fn plan_at(plans: Seq<PlanRecord>, id: Seq<char>, i: int) -> bool {
    0 <= i < plans.len() && plans[i].plan.plan_id@ == id
}

pub open spec fn has_plan(plans: Seq<PlanRecord>, id: Seq<char>) -> bool {
    exists|i: int| plan_at(plans, id, i)
}

impl Workbench {
    /// Artifact ids and plan ids are unique, and every plan's input is an
    /// artifact of the session.
    pub open spec fn wf(&self) -> bool {
        &&& forall|i: int, j: int|
            #![trigger self.artifacts@[i], self.artifacts@[j]]
            0 <= i < j < self.artifacts@.len() ==> self.artifacts@[i].imported.artifact_id@
                != self.artifacts@[j].imported.artifact_id@
        &&& forall|i: int, j: int|
            #![trigger self.plans@[i], self.plans@[j]]
            0 <= i < j < self.plans@.len() ==> self.plans@[i].plan.plan_id@ != self.plans@[j].plan.plan_id@
        &&& forall|i: int|
            0 <= i < self.plans@.len() ==> has_artifact(self.artifacts@, #[trigger] self.plans@[i].plan.input_artifact_id@)
    }

    /// An empty session.
    pub fn new(session_id: String) -> (w: Workbench)
        ensures
            w.wf(),
            w.session_id == session_id,
            w.artifacts@.len() == 0,
            w.plans@.len() == 0,
            w.current_id is None,
            w.analysis is None,
            w.tries == 0,
            w.depth == 0,
    {
        Workbench {
            session_id,
            artifacts: Vec::new(),
            current_id: None,
            analysis: None,
            plans: Vec::new(),
            tries: 0,
            depth: 0,
        }
    }

    /// The position of the artifact `id`, if the session has it.
    pub fn find_artifact(&self, id: &str) -> (r: Option<usize>)
        requires
            self.wf(),
        ensures
            match r {
                Some(i) => artifact_at(self.artifacts@, id@, i as int),
                None => !has_artifact(self.artifacts@, id@),
            },
    {
        let mut k: usize = 0;
        while k < self.artifacts.len()
            invariant
                k <= self.artifacts@.len(),
                forall|m: int| 0 <= m < k ==> !artifact_at(self.artifacts@, id@, m),
            decreases self.artifacts.len() - k,
        {
            if str_eq(self.artifacts[k].imported.artifact_id.as_str(), id) {
                return Some(k);
            }
            k = k + 1;
        }
        None
    }

    /// The position of the plan `id`, if there is one.
    pub fn find_plan(&self, id: &str) -> (r: Option<usize>)
        requires
            self.wf(),
        ensures
            match r {
                Some(i) => plan_at(self.plans@, id@, i as int),
                None => !has_plan(self.plans@, id@),
            },
    {
        let mut k: usize = 0;
        while k < self.plans.len()
            invariant
                k <= self.plans@.len(),
                forall|m: int| 0 <= m < k ==> !plan_at(self.plans@, id@, m),
            decreases self.plans.len() - k,
        {
            if str_eq(self.plans[k].plan.plan_id.as_str(), id) {
                return Some(k);
            }
            k = k + 1;
        }
        None
    }
}

/// The record holds `artifact`, made from `parent` by `created_by`.
pub open spec fn record_is(r: ArtifactRecord, artifact: ImportedArtifact, parent: Option<String>, created_by: Seq<char>) -> bool {
    r.imported == artifact && r.parent == parent && r.created_by@ == created_by
}

impl Workbench {
    /// Takes an artifact into the session, replacing a record with the same
    /// id; it becomes the current artifact, the analysis is dropped and the
    /// chain depth starts again at zero. Returns the artifact.
    pub fn remember(&mut self, artifact: ImportedArtifact, parent: Option<String>, created_by: &str) -> (r:
        ImportedArtifact)
        requires
            old(self).wf(),
        ensures
            final(self).wf(),
            r == artifact,
            final(self).current_id matches Some(c) && c@ == artifact.artifact_id@,
            final(self).analysis is None,
            final(self).depth == 0,
            final(self).tries == old(self).tries,
            final(self).session_id == old(self).session_id,
            final(self).plans@ == old(self).plans@,
            has_artifact(old(self).artifacts@, artifact.artifact_id@) ==> (forall|i: int|
                artifact_at(old(self).artifacts@, artifact.artifact_id@, i) ==> final(self).artifacts@.len()
                    == old(self).artifacts@.len() && record_is(
                    final(self).artifacts@[i],
                    artifact,
                    parent,
                    created_by@,
                ) && (forall|j: int|
                    0 <= j < old(self).artifacts@.len() && j != i ==> final(self).artifacts@[j]
                        == old(self).artifacts@[j])),
            !has_artifact(old(self).artifacts@, artifact.artifact_id@) ==> final(self).artifacts@.len()
                == old(self).artifacts@.len() + 1 && record_is(
                final(self).artifacts@.last(),
                artifact,
                parent,
                created_by@,
            ) && (forall|j: int|
                0 <= j < old(self).artifacts@.len() ==> final(self).artifacts@[j] == old(self).artifacts@[j]),
    {
        let ghost before = self.artifacts@;
        let result = artifact.duplicate();
        let id = artifact.artifact_id.clone();
        let rec = ArtifactRecord { imported: artifact, parent, created_by: created_by.to_string() };
        match self.find_artifact(id.as_str()) {
            Some(i) => {
                self.artifacts.remove(i);
                self.artifacts.insert(i, rec);
                assert(self.artifacts@ =~= before.update(i as int, self.artifacts@[i as int]));
                proof {
                    assert forall|a: int, b: int|
                        #![trigger self.artifacts@[a], self.artifacts@[b]]
                        0 <= a < b < self.artifacts@.len() implies self.artifacts@[a].imported.artifact_id@
                        != self.artifacts@[b].imported.artifact_id@ by {
                        assert(before[a].imported.artifact_id@ != before[b].imported.artifact_id@);
                    }
                }
            },
            None => {
                self.artifacts.push(rec);
                proof {
                    assert forall|a: int, b: int|
                        #![trigger self.artifacts@[a], self.artifacts@[b]]
                        0 <= a < b < self.artifacts@.len() implies self.artifacts@[a].imported.artifact_id@
                        != self.artifacts@[b].imported.artifact_id@ by {
                        if b == before.len() {
                            assert(!artifact_at(before, id@, a));
                        } else {
                            assert(before[a].imported.artifact_id@ != before[b].imported.artifact_id@);
                        }
                    }
                }
            },
        }
        proof {
            assert forall|x: Seq<char>| has_artifact(before, x) implies has_artifact(self.artifacts@, x) by {
                let k = choose|k: int| artifact_at(before, x, k);
                assert(artifact_at(self.artifacts@, x, k));
            }
            assert forall|k: int| 0 <= k < self.plans@.len() implies has_artifact(
                self.artifacts@,
                #[trigger] self.plans@[k].plan.input_artifact_id@,
            ) by {
                assert(has_artifact(before, self.plans@[k].plan.input_artifact_id@));
            }
        }
        self.current_id = Some(id);
        self.analysis = None;
        self.depth = 0;
        result
    }
}

// ---------------------------------------------------------------- plans

/// The eight little-endian bytes of `n`.
pub open spec fn le64(n: u64) -> Seq<u8> {
    seq![
        (n % 256) as u8,
        ((n / 0x100) % 256) as u8,
        ((n / 0x10000) % 256) as u8,
        ((n / 0x1000000) % 256) as u8,
        ((n / 0x100000000) % 256) as u8,
        ((n / 0x10000000000) % 256) as u8,
        ((n / 0x1000000000000) % 256) as u8,
        ((n / 0x100000000000000) % 256) as u8,
    ]
}

/// A plan's parameters as JSON text: the adapter and the rule version.
pub open spec fn plan_params(adapter: Seq<char>) -> Seq<char> {
    "{\"adapter\":"@ + spec_json_string(adapter) + ",\"rule\":"@ + spec_json_string(RULE_VERSION@) + "}"@
}

/// What a plan's hash covers: the input's digest, the range, the adapter
/// and the parameters, in that order.
pub open spec fn plan_hash_input(input_hash: Seq<char>, range: ByteRange, adapter: Seq<char>, params: Seq<char>) -> Seq<u8> {
    encode_utf8(input_hash) + le64(range.start) + le64(range.end) + encode_utf8(adapter) + encode_utf8(params)
}

pub open spec fn plan_hash_of(input_hash: Seq<char>, range: ByteRange, adapter: Seq<char>, params: Seq<char>) -> Seq<char> {
    spec_encode_hex(spec_sha256(plan_hash_input(input_hash, range, adapter, params)))
}

fn append_bytes(v: &mut Vec<u8>, s: &[u8])
    ensures
        final(v)@ == old(v)@ + s@,
{
    let mut k: usize = 0;
    while k < s.len()
        invariant
            k <= s@.len(),
            v@ == old(v)@ + s@.take(k as int),
        decreases s.len() - k,
    {
        v.push(s[k]);
        assert(v@ =~= old(v)@ + s@.take(k + 1));
        k = k + 1;
    }
    assert(s@.take(k as int) =~= s@);
}

fn append_le64(v: &mut Vec<u8>, n: u64)
    ensures
        final(v)@ == old(v)@ + le64(n),
{
    v.push((n % 256) as u8);
    v.push(((n / 0x100) % 256) as u8);
    v.push(((n / 0x10000) % 256) as u8);
    v.push(((n / 0x1000000) % 256) as u8);
    v.push(((n / 0x100000000) % 256) as u8);
    v.push(((n / 0x10000000000) % 256) as u8);
    v.push(((n / 0x1000000000000) % 256) as u8);
    v.push(((n / 0x100000000000000) % 256) as u8);
    assert(v@ =~= old(v)@ + le64(n));
}

fn plan_params_exec(adapter: &str) -> (s: String)
    ensures
        s@ == plan_params(adapter@),
{
    let mut s = "{\"adapter\":".to_string();
    s.append(json_string(adapter).as_str());
    s.append(",\"rule\":");
    s.append(json_string(RULE_VERSION).as_str());
    s.append("}");
    s
}

fn hash_plan(input_hash: &str, range: ByteRange, adapter: &str, params: &str) -> (h: String)
    ensures
        h@ == plan_hash_of(input_hash@, range, adapter@, params@),
{
    let mut v: Vec<u8> = Vec::new();
    append_bytes(&mut v, input_hash.as_bytes());
    append_le64(&mut v, range.start);
    append_le64(&mut v, range.end);
    append_bytes(&mut v, adapter.as_bytes());
    append_bytes(&mut v, params.as_bytes());
    assert(v@ =~= plan_hash_input(input_hash@, range, adapter@, params@));
    let d = sha256_digest(v.as_slice());
    encode_hex(d.as_slice())
}

pub open spec fn finding_matches(f: Finding, finding_id: Seq<char>, artifact_id: Seq<char>) -> bool {
    f.id@ == finding_id && f.artifact_id@ == artifact_id
}

/// `i` is the first finding with this id on this artifact.
pub open spec fn first_finding(fs: Seq<Finding>, finding_id: Seq<char>, artifact_id: Seq<char>, i: int) -> bool {
    0 <= i < fs.len() && finding_matches(fs[i], finding_id, artifact_id) && forall|j: int|
        0 <= j < i ==> !finding_matches(#[trigger] fs[j], finding_id, artifact_id)
}

/// The plan a finding gives: a fresh draft for its range with the chosen
/// adapter, its parameters and hash, the finding's caveats as warnings, and
/// marked lossy when the finding is only partly transformable.
pub open spec fn plan_ok(
    p: TransformPlan,
    session_id: Seq<char>,
    artifact_id: Seq<char>,
    input_hash: Seq<char>,
    f: Finding,
    adapter: Seq<char>,
) -> bool {
    &&& p.plan_id@.len() == 36
    &&& p.session_id@ == session_id
    &&& p.input_artifact_id@ == artifact_id
    &&& p.input_hash@ == input_hash
    &&& p.range == f.range
    &&& p.adapter_id@ == adapter
    &&& p.technique_id == f.technique_id
    &&& p.parameters@ == plan_params(adapter)
    &&& p.plan_hash@ == plan_hash_of(input_hash, f.range, adapter, plan_params(adapter))
    &&& p.state == PlanState::Draft
    &&& p.warnings@ == f.limitations@
    &&& strings_view(p.preconditions@) == seq!["Isolation must remain available."@]
    &&& p.lossy == (f.transformability == Transformability::Partial)
}

/// The plans after storing `rec` under its id: in the slot of an earlier
/// plan with that id, else at the end; every other plan stays.
pub open spec fn stored_plan(before: Seq<PlanRecord>, after: Seq<PlanRecord>, id: Seq<char>, slot: int) -> bool {
    &&& plan_at(after, id, slot)
    &&& if has_plan(before, id) {
        after.len() == before.len() && plan_at(before, id, slot)
    } else {
        after.len() == before.len() + 1 && slot == before.len()
    }
    &&& forall|j: int| 0 <= j < before.len() && j != slot ==> after[j] == before[j]
}

fn find_finding(fs: &Vec<Finding>, finding_id: &str, artifact_id: &str) -> (r: Option<usize>)
    ensures
        match r {
            Some(i) => first_finding(fs@, finding_id@, artifact_id@, i as int),
            None => forall|i: int|
                0 <= i < fs@.len() ==> !finding_matches(#[trigger] fs@[i], finding_id@, artifact_id@),
        },
{
    let mut k: usize = 0;
    while k < fs.len()
        invariant
            k <= fs@.len(),
            forall|j: int| 0 <= j < k ==> !finding_matches(#[trigger] fs@[j], finding_id@, artifact_id@),
        decreases fs.len() - k,
    {
        if str_eq(fs[k].id.as_str(), finding_id) && str_eq(fs[k].artifact_id.as_str(), artifact_id) {
            return Some(k);
        }
        k = k + 1;
    }
    None
}

#[verifier::rlimit(40)]
fn make_plan(session_id: &String, artifact_id: &str, input_hash: &String, f: &Finding, adapter_id: Option<&str>) -> (p:
    TransformPlan)
    ensures
        plan_ok(
            p,
            session_id@,
            artifact_id@,
            input_hash@,
            *f,
            match adapter_id {
                Some(x) => x@,
                None => f.technique_id@,
            },
        ),
{
    let adapter = match adapter_id {
        Some(x) => x.to_string(),
        None => f.technique_id.clone(),
    };
    let params = plan_params_exec(adapter.as_str());
    let plan_hash = hash_plan(input_hash.as_str(), f.range, adapter.as_str(), params.as_str());
    let mut preconditions: Vec<String> = Vec::new();
    push_str(&mut preconditions, "Isolation must remain available.");
    let warnings = copy_strings(&f.limitations);
    let plan_id = new_uuid();
    let p = TransformPlan {
        plan_id,
        session_id: session_id.clone(),
        input_artifact_id: artifact_id.to_string(),
        input_hash: input_hash.clone(),
        range: f.range,
        adapter_id: adapter,
        technique_id: f.technique_id.clone(),
        parameters: params,
        plan_hash,
        state: PlanState::Draft,
        warnings,
        preconditions,
        lossy: f.transformability == Transformability::Partial,
    };
    let ghost ad = match adapter_id {
        Some(x) => x@,
        None => f.technique_id@,
    };
    assert(p.adapter_id@ == ad);
    assert(p.plan_hash@ == plan_hash_of(input_hash@, f.range, ad, plan_params(ad)));
    assert(p.warnings@ == f.limitations@);
    assert(strings_view(p.preconditions@) == seq!["Isolation must remain available."@]);
    p
}

impl Workbench {
    fn store_plan(&mut self, rec: PlanRecord) -> (slot: usize)
        requires
            old(self).wf(),
            has_artifact(old(self).artifacts@, rec.plan.input_artifact_id@),
        ensures
            final(self).wf(),
            stored_plan(old(self).plans@, final(self).plans@, rec.plan.plan_id@, slot as int),
            final(self).plans@[slot as int] == rec,
            final(self).artifacts@ == old(self).artifacts@,
            final(self).session_id == old(self).session_id,
            final(self).current_id == old(self).current_id,
            final(self).analysis == old(self).analysis,
            final(self).tries == old(self).tries,
            final(self).depth == old(self).depth,
    {
        let ghost before = self.plans@;
        let ghost id = rec.plan.plan_id@;
        match self.find_plan(rec.plan.plan_id.as_str()) {
            Some(i) => {
                self.plans.remove(i);
                self.plans.insert(i, rec);
                assert(self.plans@ =~= before.update(i as int, self.plans@[i as int]));
                proof {
                    assert(has_plan(before, id));
                    assert forall|a: int, b: int|
                        #![trigger self.plans@[a], self.plans@[b]]
                        0 <= a < b < self.plans@.len() implies self.plans@[a].plan.plan_id@
                        != self.plans@[b].plan.plan_id@ by {
                        assert(before[a].plan.plan_id@ != before[b].plan.plan_id@);
                    }
                }
                i
            },
            None => {
                let n = self.plans.len();
                self.plans.push(rec);
                proof {
                    assert forall|a: int, b: int|
                        #![trigger self.plans@[a], self.plans@[b]]
                        0 <= a < b < self.plans@.len() implies self.plans@[a].plan.plan_id@
                        != self.plans@[b].plan.plan_id@ by {
                        if b == before.len() {
                            assert(!plan_at(before, id, a));
                        } else {
                            assert(before[a].plan.plan_id@ != before[b].plan.plan_id@);
                        }
                    }
                }
                n
            },
        }
    }

    /// Drafts a plan to transform what a finding of the current analysis
    /// points at, and keeps it. Refused without an analysis, for an unknown
    /// finding or artifact, past the limits on tries and chain depth, and for
    /// a finding that cannot be transformed. The adapter is the one asked for,
    /// else the finding's technique.
    pub fn plan_from_finding(&mut self, artifact_id: &str, finding_id: &str, adapter_id: Option<&str>) -> (r:
        Result<TransformPlan, IpcError>)
        requires
            old(self).wf(),
        ensures
            final(self).wf(),
            final(self).artifacts@ == old(self).artifacts@,
            final(self).analysis == old(self).analysis,
            final(self).session_id == old(self).session_id,
            final(self).current_id == old(self).current_id,
            final(self).tries == old(self).tries,
            final(self).depth == old(self).depth,
            r is Err ==> final(self).plans@ == old(self).plans@,
            old(self).analysis is None ==> err_is(r, ErrorCode::NotFound, "error.no_analysis"@),
            old(self).analysis matches Some(a) ==> {
                &&& (forall|i: int|
                    0 <= i < a.findings@.len() ==> !finding_matches(
                        #[trigger] a.findings@[i],
                        finding_id@,
                        artifact_id@,
                    )) ==> err_is(r, ErrorCode::NotFound, "error.not_found"@)
                &&& (exists|i: int| finding_matches(#[trigger] a.findings@[i], finding_id@, artifact_id@) && 0 <= i
                    < a.findings@.len()) ==> exists|i: int|
                    #[trigger] first_finding(a.findings@, finding_id@, artifact_id@, i) && {
                        let f = a.findings@[i];
                        let adapter = match adapter_id {
                            Some(x) => x@,
                            None => f.technique_id@,
                        };
                        if !has_artifact(old(self).artifacts@, artifact_id@) {
                            err_is(r, ErrorCode::NotFound, "error.not_found"@)
                        } else if old(self).tries >= MAX_TRANSFORM_TRIES || old(self).depth >= MAX_CHAIN_DEPTH {
                            err_is(r, ErrorCode::LimitReached, "error.limit_reached"@)
                        } else if f.transformability == Transformability::Unsupported {
                            err_is(r, ErrorCode::AdapterUnsupported, "error.adapter_unsupported"@)
                        } else {
                            r matches Ok(p) && (forall|k: int|
                                artifact_at(old(self).artifacts@, artifact_id@, k) ==> plan_ok(
                                    p,
                                    old(self).session_id@,
                                    artifact_id@,
                                    old(self).artifacts@[k].imported.sha256@,
                                    f,
                                    adapter,
                                )) && exists|slot: int|
                                stored_plan(old(self).plans@, final(self).plans@, p.plan_id@, slot)
                                    && final(self).plans@[slot].plan.same(p)
                                    && final(self).plans@[slot].approval is None
                                    && final(self).plans@[slot].preview is None
                                    && final(self).plans@[slot].preview_bytes is None
                        }
                    }
            },
    {
        if self.analysis.is_none() {
            return Err(IpcError::new(ErrorCode::NotFound, "error.no_analysis"));
        }
        let fi = match &self.analysis {
            Some(a) => match find_finding(&a.findings, finding_id, artifact_id) {
                Some(i) => i,
                None => {
                    return Err(IpcError::new(ErrorCode::NotFound, "error.not_found"));
                },
            },
            None => {
                return Err(IpcError::new(ErrorCode::NotFound, "error.no_analysis"));
            },
        };
        let ai = match self.find_artifact(artifact_id) {
            Some(i) => i,
            None => {
                return Err(IpcError::new(ErrorCode::NotFound, "error.not_found"));
            },
        };
        if self.tries >= MAX_TRANSFORM_TRIES || self.depth >= MAX_CHAIN_DEPTH {
            return Err(IpcError::new(ErrorCode::LimitReached, "error.limit_reached"));
        }
        let ghost a0 = self.analysis.unwrap();
        let ghost before = self.plans@;
        let transformability = match &self.analysis {
            Some(a) => a.findings[fi].transformability,
            None => {
                return Err(IpcError::new(ErrorCode::NotFound, "error.no_analysis"));
            },
        };
        if transformability == Transformability::Unsupported {
            return Err(IpcError::new(ErrorCode::AdapterUnsupported, "error.adapter_unsupported"));
        }
        let plan = match &self.analysis {
            Some(a) => make_plan(&self.session_id, artifact_id, &self.artifacts[ai].imported.sha256, &a.findings[fi], adapter_id),
            None => {
                return Err(IpcError::new(ErrorCode::NotFound, "error.no_analysis"));
            },
        };
        let stored = plan.duplicate();
        let slot = self.store_plan(PlanRecord { plan: stored, approval: None, preview: None, preview_bytes: None });
        proof {
            assert(first_finding(a0.findings@, finding_id@, artifact_id@, fi as int));
            assert forall|k: int| artifact_at(self.artifacts@, artifact_id@, k) implies k == ai by {
                if k != ai {
                    if k < ai {
                        assert(self.artifacts@[k].imported.artifact_id@ != self.artifacts@[ai as int].imported.artifact_id@);
                    } else {
                        assert(self.artifacts@[ai as int].imported.artifact_id@ != self.artifacts@[k].imported.artifact_id@);
                    }
                }
            }
            assert(stored_plan(before, self.plans@, plan.plan_id@, slot as int));
        }
        Ok(plan)
    }
}

// ---------------------------------------------------------------- approval

/// The record with only its plan's state changed.
pub open spec fn with_state(r: PlanRecord, state: PlanState) -> PlanRecord {
    PlanRecord { plan: TransformPlan { state, ..r.plan }, ..r }
}

/// An approval stamp has passed when the time it holds, read as a decimal
/// number (0 when it is not one), lies before `now`.
pub open spec fn spec_expired(stamp: Seq<char>, now: u64) -> bool {
    match spec_parse_u64(stamp) {
        Some(v) => v < now,
        None => 0 < now,
    }
}

/// Whether an approval stamp has passed; see `spec_expired`.
pub fn expired(stamp: &str, now: u64) -> (b: bool)
    ensures
        b == spec_expired(stamp@, now),
{
    let v = match parse_u64(stamp) {
        Some(v) => v,
        None => 0,
    };
    v < now
}

/// Approvals last ten minutes.
pub const APPROVAL_SECS: u64 = 600;

impl Workbench {
    fn set_plan_state(&mut self, i: usize, state: PlanState)
        requires
            old(self).wf(),
            i < old(self).plans@.len(),
        ensures
            final(self).wf(),
            final(self).plans@ == old(self).plans@.update(i as int, with_state(old(self).plans@[i as int], state)),
            final(self).artifacts@ == old(self).artifacts@,
            final(self).session_id == old(self).session_id,
            final(self).current_id == old(self).current_id,
            final(self).analysis == old(self).analysis,
            final(self).tries == old(self).tries,
            final(self).depth == old(self).depth,
    {
        let ghost before = self.plans@;
        let mut rec = self.plans.remove(i);
        rec.plan.state = state;
        self.plans.insert(i, rec);
        assert(self.plans@ =~= before.update(i as int, with_state(before[i as int], state)));
        proof {
            assert forall|a: int, b: int|
                #![trigger self.plans@[a], self.plans@[b]]
                0 <= a < b < self.plans@.len() implies self.plans@[a].plan.plan_id@ != self.plans@[b].plan.plan_id@ by {
                assert(before[a].plan.plan_id@ != before[b].plan.plan_id@);
            }
            assert forall|k: int| 0 <= k < self.plans@.len() implies has_artifact(
                self.artifacts@,
                #[trigger] self.plans@[k].plan.input_artifact_id@,
            ) by {
                assert(has_artifact(self.artifacts@, before[k].plan.input_artifact_id@));
            }
        }
    }

    /// Approves the plan `plan_id` for ten minutes from `now_secs`. The hash
    /// must be the plan's current hash (else the plan is invalidated and the
    /// approval refused as stale), and the plan must have been previewed.
    pub fn approve_plan(&mut self, plan_id: &str, plan_hash: &str, now_secs: u64) -> (r: Result<Approval, IpcError>)
        requires
            old(self).wf(),
            now_secs <= u64::MAX - APPROVAL_SECS,
        ensures
            final(self).wf(),
            final(self).artifacts@ == old(self).artifacts@,
            final(self).session_id == old(self).session_id,
            final(self).current_id == old(self).current_id,
            final(self).analysis == old(self).analysis,
            final(self).tries == old(self).tries,
            final(self).depth == old(self).depth,
            !has_plan(old(self).plans@, plan_id@) ==> err_is(r, ErrorCode::NotFound, "error.not_found"@)
                && final(self).plans@ == old(self).plans@,
            forall|i: int|
                plan_at(old(self).plans@, plan_id@, i) ==> {
                    let rec = old(self).plans@[i];
                    if rec.plan.plan_hash@ != plan_hash@ {
                        err_is(r, ErrorCode::PlanStale, "error.plan_stale"@) && final(self).plans@ == old(
                            self,
                        ).plans@.update(i, with_state(rec, PlanState::Invalidated))
                    } else if rec.preview is None {
                        err_is(r, ErrorCode::PlanStale, "error.plan_stale"@) && final(self).plans@ == old(
                            self,
                        ).plans@
                    } else {
                        r matches Ok(a) && a.plan_hash@ == plan_hash@ && a.approval_id@.len() == 36
                            && a.expires_at@ == decimal((now_secs + APPROVAL_SECS) as nat)
                            && final(self).plans@ == old(self).plans@.update(
                            i,
                            PlanRecord {
                                approval: Some(a),
                                ..with_state(rec, PlanState::Approved)
                            },
                        )
                    }
                },
    {
        let i = match self.find_plan(plan_id) {
            Some(i) => i,
            None => {
                return Err(IpcError::new(ErrorCode::NotFound, "error.not_found"));
            },
        };
        if !str_eq(self.plans[i].plan.plan_hash.as_str(), plan_hash) {
            self.set_plan_state(i, PlanState::Invalidated);
            return Err(IpcError::new(ErrorCode::PlanStale, "error.plan_stale"));
        }
        if self.plans[i].preview.is_none() {
            return Err(IpcError::new(ErrorCode::PlanStale, "error.plan_stale"));
        }
        let approval = Approval {
            approval_id: new_uuid(),
            plan_hash: plan_hash.to_string(),
            expires_at: u64_decimal(now_secs + APPROVAL_SECS),
        };
        let stored = approval.duplicate();
        let ghost before = self.plans@;
        self.set_plan_state(i, PlanState::Approved);
        let mut rec = self.plans.remove(i);
        rec.approval = Some(stored);
        self.plans.insert(i, rec);
        proof {
            assert(self.plans@ =~= before.update(
                i as int,
                PlanRecord { approval: Some(approval), ..with_state(before[i as int], PlanState::Approved) },
            ));
            assert forall|a: int, b: int|
                #![trigger self.plans@[a], self.plans@[b]]
                0 <= a < b < self.plans@.len() implies self.plans@[a].plan.plan_id@ != self.plans@[b].plan.plan_id@ by {
                assert(before[a].plan.plan_id@ != before[b].plan.plan_id@);
            }
            assert forall|k: int| 0 <= k < self.plans@.len() implies has_artifact(
                self.artifacts@,
                #[trigger] self.plans@[k].plan.input_artifact_id@,
            ) by {
                assert(has_artifact(self.artifacts@, before[k].plan.input_artifact_id@));
            }
        }
        Ok(approval)
    }

    /// Whether the plan may be applied now, checked in this order: it
    /// exists (else not found); the hash is its current hash (else stale);
    /// it holds an approval (else expired); it has not been invalidated
    /// since, which refuses the approval it still holds (else stale); and
    /// the approval has this id and has not expired (else expired).
    pub fn check_apply(&self, plan_id: &str, approval_id: &str, plan_hash: &str, now_secs: u64) -> (r: Result<
        (),
        IpcError,
    >)
        requires
            self.wf(),
        ensures
            !has_plan(self.plans@, plan_id@) ==> err_is(r, ErrorCode::NotFound, "error.not_found"@),
            forall|i: int|
                plan_at(self.plans@, plan_id@, i) ==> {
                    let rec = self.plans@[i];
                    if rec.plan.plan_hash@ != plan_hash@ {
                        err_is(r, ErrorCode::PlanStale, "error.plan_stale"@)
                    } else {
                        match rec.approval {
                            None => err_is(r, ErrorCode::ApprovalExpired, "error.approval_expired"@),
                            Some(a) => if rec.plan.state == PlanState::Invalidated {
                                err_is(r, ErrorCode::PlanStale, "error.plan_stale"@)
                            } else if a.approval_id@ != approval_id@ || spec_expired(a.expires_at@, now_secs) {
                                err_is(r, ErrorCode::ApprovalExpired, "error.approval_expired"@)
                            } else {
                                r is Ok
                            },
                        }
                    }
                },
    {
        let i = match self.find_plan(plan_id) {
            Some(i) => i,
            None => {
                return Err(IpcError::new(ErrorCode::NotFound, "error.not_found"));
            },
        };
        let rec = &self.plans[i];
        if !str_eq(rec.plan.plan_hash.as_str(), plan_hash) {
            return Err(IpcError::new(ErrorCode::PlanStale, "error.plan_stale"));
        }
        match &rec.approval {
            None => Err(IpcError::new(ErrorCode::ApprovalExpired, "error.approval_expired")),
            Some(a) => {
                if rec.plan.state == PlanState::Invalidated {
                    Err(IpcError::new(ErrorCode::PlanStale, "error.plan_stale"))
                } else if !str_eq(a.approval_id.as_str(), approval_id) || expired(a.expires_at.as_str(), now_secs) {
                    Err(IpcError::new(ErrorCode::ApprovalExpired, "error.approval_expired"))
                } else {
                    Ok(())
                }
            },
        }
    }
}

// ---------------------------------------------------------------- transform runs

/// What the worker needs to run a plan: the finding it acts on, the
/// adapter, and the artifact with the name of its stored bytes.
pub struct TransformInput {
    pub finding: Finding,
    pub adapter_id: String,
    pub artifact_id: String,
    pub blob: String,
}

/// The finding still matches the plan: same artifact, technique and range.
pub open spec fn finding_fits(f: Finding, p: TransformPlan) -> bool {
    f.artifact_id@ == p.input_artifact_id@ && f.technique_id@ == p.technique_id@ && f.range == p.range
}

pub open spec fn first_fitting(fs: Seq<Finding>, p: TransformPlan, i: int) -> bool {
    0 <= i < fs.len() && finding_fits(fs[i], p) && forall|j: int| 0 <= j < i ==> !finding_fits(#[trigger] fs[j], p)
}

fn find_fitting(fs: &Vec<Finding>, p: &TransformPlan) -> (r: Option<usize>)
    ensures
        match r {
            Some(i) => first_fitting(fs@, *p, i as int),
            None => forall|i: int| 0 <= i < fs@.len() ==> !finding_fits(#[trigger] fs@[i], *p),
        },
{
    let mut k: usize = 0;
    while k < fs.len()
        invariant
            k <= fs@.len(),
            forall|j: int| 0 <= j < k ==> !finding_fits(#[trigger] fs@[j], *p),
        decreases fs.len() - k,
    {
        let f = &fs[k];
        if str_eq(f.artifact_id.as_str(), p.input_artifact_id.as_str()) && str_eq(
            f.technique_id.as_str(),
            p.technique_id.as_str(),
        ) && f.range == p.range {
            return Some(k);
        }
        k = k + 1;
    }
    None
}

impl Workbench {
    /// The position of the plan's input artifact, which `wf` guarantees.
    fn input_artifact(&self, i: usize) -> (k: usize)
        requires
            self.wf(),
            i < self.plans@.len(),
        ensures
            artifact_at(self.artifacts@, self.plans@[i as int].plan.input_artifact_id@, k as int),
    {
        assert(has_artifact(self.artifacts@, self.plans@[i as int].plan.input_artifact_id@));
        match self.find_artifact(self.plans[i].plan.input_artifact_id.as_str()) {
            Some(k) => k,
            None => {
                assert(false);
                0
            },
        }
    }

    /// What a run of the plan needs, or why it may not run: the try limit is
    /// reached; the plan or the analysis is missing; the analysis no longer
    /// holds a finding for the plan's range; or the input's digest changed.
    pub fn transform_request(&self, plan_id: &str) -> (r: Result<TransformInput, IpcError>)
        requires
            self.wf(),
        ensures
            self.tries >= MAX_TRANSFORM_TRIES ==> err_is(r, ErrorCode::LimitReached, "error.limit_reached"@),
            self.tries < MAX_TRANSFORM_TRIES && !has_plan(self.plans@, plan_id@) ==> err_is(
                r,
                ErrorCode::NotFound,
                "error.not_found"@,
            ),
            self.tries < MAX_TRANSFORM_TRIES && has_plan(self.plans@, plan_id@) && self.analysis is None
                ==> err_is(r, ErrorCode::NotFound, "error.no_analysis"@),
            self.tries < MAX_TRANSFORM_TRIES ==> forall|i: int|
                plan_at(self.plans@, plan_id@, i) ==> (self.analysis matches Some(a) ==> {
                    let p = self.plans@[i].plan;
                    &&& (forall|j: int| 0 <= j < a.findings@.len() ==> !finding_fits(#[trigger] a.findings@[j], p))
                        ==> err_is(r, ErrorCode::PlanStale, "error.plan_stale"@)
                    &&& forall|j: int, k: int|
                        first_fitting(a.findings@, p, j) && artifact_at(self.artifacts@, p.input_artifact_id@, k)
                            ==> if self.artifacts@[k].imported.sha256@ != p.input_hash@ {
                            err_is(r, ErrorCode::PlanStale, "error.plan_stale"@)
                        } else {
                            r matches Ok(t) && t.finding.same(a.findings@[j]) && t.adapter_id@ == p.adapter_id@
                                && t.artifact_id@ == p.input_artifact_id@ && t.blob@
                                == self.artifacts@[k].imported.sha256@
                        }
                }),
    {
        if self.tries >= MAX_TRANSFORM_TRIES {
            return Err(IpcError::new(ErrorCode::LimitReached, "error.limit_reached"));
        }
        let i = match self.find_plan(plan_id) {
            Some(i) => i,
            None => {
                return Err(IpcError::new(ErrorCode::NotFound, "error.not_found"));
            },
        };
        let a = match &self.analysis {
            Some(a) => a,
            None => {
                return Err(IpcError::new(ErrorCode::NotFound, "error.no_analysis"));
            },
        };
        let p = &self.plans[i].plan;
        let fi = match find_fitting(&a.findings, p) {
            Some(j) => j,
            None => {
                return Err(IpcError::new(ErrorCode::PlanStale, "error.plan_stale"));
            },
        };
        let k = self.input_artifact(i);
        let art = &self.artifacts[k].imported;
        if !str_eq(art.sha256.as_str(), p.input_hash.as_str()) {
            proof {
                assert forall|kk: int| artifact_at(self.artifacts@, p.input_artifact_id@, kk) implies kk == k by {
                    if kk < k {
                        assert(self.artifacts@[kk].imported.artifact_id@ != self.artifacts@[k as int].imported.artifact_id@);
                    } else if kk > k {
                        assert(self.artifacts@[k as int].imported.artifact_id@ != self.artifacts@[kk].imported.artifact_id@);
                    }
                }
            }
            return Err(IpcError::new(ErrorCode::PlanStale, "error.plan_stale"));
        }
        proof {
            assert forall|kk: int| artifact_at(self.artifacts@, p.input_artifact_id@, kk) implies kk == k by {
                if kk < k {
                    assert(self.artifacts@[kk].imported.artifact_id@ != self.artifacts@[k as int].imported.artifact_id@);
                } else if kk > k {
                    assert(self.artifacts@[k as int].imported.artifact_id@ != self.artifacts@[kk].imported.artifact_id@);
                }
            }
            assert forall|jj: int| first_fitting(a.findings@, *p, jj) implies jj == fi by {
                if jj < fi {
                    assert(!finding_fits(a.findings@[jj], *p));
                } else if jj > fi {
                    assert(!finding_fits(a.findings@[fi as int], *p));
                }
            }
        }
        Ok(TransformInput {
            finding: a.findings[fi].duplicate(),
            adapter_id: p.adapter_id.clone(),
            artifact_id: p.input_artifact_id.clone(),
            blob: art.sha256.clone(),
        })
    }
}

// ---------------------------------------------------------------- worker runs

/// Jobs run only in the sandbox: an unavailable one refuses them.
pub fn require_sandbox(d: &IsolationDiagnosis) -> (r: Result<(), IpcError>)
    ensures
        !d.available ==> err_is(r, ErrorCode::SandboxUnavailable, "error.sandbox_unavailable"@),
        d.available ==> r is Ok,
{
    if !d.available {
        return Err(IpcError::new(ErrorCode::SandboxUnavailable, "error.sandbox_unavailable"));
    }
    Ok(())
}

/// The analysis an answer to an analysis run carries; an answer without
/// one means the worker crashed.
pub fn analysis_of(resp: WorkerResponse) -> (r: Result<AnalysisResult, IpcError>)
    ensures
        match resp.analysis {
            Some(a) => r == Ok::<AnalysisResult, IpcError>(a),
            None => err_is(r, ErrorCode::WorkerCrashed, "error.worker_crashed"@),
        },
{
    match resp.analysis {
        Some(a) => Ok(a),
        None => Err(IpcError::new(ErrorCode::WorkerCrashed, "error.worker_crashed")),
    }
}

// ---------------------------------------------------------------- worker output

/// A base64 symbol's value; any other byte reads as `0xff`.
pub open spec fn lenient_value(b: u8) -> u32 {
    if 0x41 <= b && b <= 0x5a {
        (b - 0x41) as u32
    } else if 0x61 <= b && b <= 0x7a {
        (b - 0x61 + 26) as u32
    } else if 0x30 <= b && b <= 0x39 {
        (b - 0x30 + 52) as u32
    } else if b == 0x2b {
        62
    } else if b == 0x2f {
        63
    } else {
        0xff
    }
}

/// The bytes a group of four symbols gives: one, then one more for each of
/// the last two symbols that is not `=`.
pub open spec fn lenient_group(c0: u8, c1: u8, c2: u8, c3: u8) -> Seq<u8> {
    let n: u32 = (lenient_value(c0) << 18u32) | (lenient_value(c1) << 12u32) | (lenient_value(c2) << 6u32)
        | lenient_value(c3);
    seq![((n >> 16u32) & 0xff) as u8] + (if c2 != 0x3d {
        seq![((n >> 8u32) & 0xff) as u8]
    } else {
        Seq::empty()
    }) + (if c3 != 0x3d {
        seq![(n & 0xff) as u8]
    } else {
        Seq::empty()
    })
}

/// The groups of four from position `4 * g` on.
pub open spec fn lenient_groups(p: Seq<u8>, g: int) -> Seq<u8>
    decreases p.len() - 4 * g,
{
    if g < 0 || 4 * g + 4 > p.len() {
        Seq::empty()
    } else {
        lenient_group(p[4 * g], p[4 * g + 1], p[4 * g + 2], p[4 * g + 3]) + lenient_groups(p, g + 1)
    }
}

/// How the coordinator reads the worker's base64: padded with `=` to a
/// multiple of four, decoded group by group without rejecting anything.
pub open spec fn spec_decode_lenient(text: Seq<u8>) -> Seq<u8> {
    if text.len() == 0 {
        Seq::empty()
    } else {
        lenient_groups(text + Seq::new(((4 - text.len() % 4) % 4) as nat, |i: int| 0x3du8), 0)
    }
}

/// On a symbol the strict decoder accepts, the lenient value is the
/// symbol's value, and `0xff` for the pad.
proof fn lemma_lenient_value(b: u8)
    requires
        b64_symbol_ok(b),
    ensures
        b == 0x3d ==> lenient_value(b) == 0xff,
        b != 0x3d ==> lenient_value(b) as int == b64_value(b) && b64_value(b) < 64,
{
}

proof fn lemma_quad_bits(v0: u32, v1: u32, v2: u32, v3: u32, w2: u32, w3: u32)
    by (bit_vector)
    requires
        v0 < 64,
        v1 < 64,
        v2 < 64,
        v3 < 64,
        w2 == v2 || w2 == 0xff,
        w3 == v3 || w3 == 0xff,
    ensures
        (((v0 << 18u32) | (v1 << 12u32) | (w2 << 6u32) | w3) >> 16u32) & 0xff == v0 * 4 + v1 / 16,
        w2 == v2 ==> (((v0 << 18u32) | (v1 << 12u32) | (w2 << 6u32) | w3) >> 8u32) & 0xff == (v1 % 16) * 16 + v2
            / 4,
        w2 == v2 && w3 == v3 ==> ((v0 << 18u32) | (v1 << 12u32) | (w2 << 6u32) | w3) & 0xff == (v2 % 4) * 64
            + v3,
{
}

/// On a group the strict decoder accepts, the lenient decoder gives the
/// same bytes.
proof fn lemma_lenient_quad(c0: u8, c1: u8, c2: u8, c3: u8)
    requires
        decode_quad(c0, c1, c2, c3) is Some,
        c0 != 0x3d,
        c1 != 0x3d,
    ensures
        lenient_group(c0, c1, c2, c3) == decode_quad(c0, c1, c2, c3).unwrap(),
{
    lemma_lenient_value(c0);
    lemma_lenient_value(c1);
    lemma_lenient_value(c2);
    lemma_lenient_value(c3);
    let v0 = b64_sextet(c0) as u32;
    let v1 = b64_sextet(c1) as u32;
    let v2 = b64_sextet(c2) as u32;
    let v3 = b64_sextet(c3) as u32;
    lemma_quad_bits(v0, v1, v2, v3, lenient_value(c2), lenient_value(c3));
    assert(lenient_group(c0, c1, c2, c3) =~= decode_quad(c0, c1, c2, c3).unwrap());
}

proof fn lemma_lenient_groups(s: Seq<u8>, g: int)
    requires
        0 <= g,
        4 * g <= s.len(),
        s.len() % 4 == 0,
        forall|i: int| 0 <= i < s.len() ==> b64_symbol_ok(#[trigger] s[i]),
        forall|i: int| 0 <= i < s.len() && #[trigger] s[i] == 0x3d ==> i >= s.len() - 2,
        b64_chunks(s.skip(4 * g)) is Some,
    ensures
        lenient_groups(s, g) == b64_chunks(s.skip(4 * g)).unwrap(),
    decreases s.len() - 4 * g,
{
    let t = s.skip(4 * g);
    if 4 * g + 4 > s.len() {
        assert(t.len() == 0);
    } else {
        assert(t[0] == s[4 * g] && t[1] == s[4 * g + 1] && t[2] == s[4 * g + 2] && t[3] == s[4 * g + 3]);
        assert(t.skip(4) =~= s.skip(4 * (g + 1)));
        assert(s[4 * g] != 0x3d && s[4 * g + 1] != 0x3d);
        lemma_lenient_quad(s[4 * g], s[4 * g + 1], s[4 * g + 2], s[4 * g + 3]);
        lemma_lenient_groups(s, g + 1);
    }
}

/// What the worker writes as its output, the coordinator reads back: the
/// lenient decoding of the padded standard base64 of any bytes is those
/// bytes.
pub proof fn law_worker_output_round_trip(data: Seq<u8>)
    ensures
        spec_decode_lenient(encode_utf8(spec_encode_b64(data, false, true))) == data,
{
    lemma_padded_encoding(data);
    let e = encode_utf8(spec_encode_b64(data, false, true));
    if e.len() == 0 {
        assert(b64_chunks(e) == Some(Seq::<u8>::empty()));
    } else {
        assert(e + Seq::new(((4 - e.len() % 4) % 4) as nat, |i: int| 0x3du8) =~= e);
        assert(e.skip(0) =~= e);
        lemma_lenient_groups(e, 0);
    }
}

fn lenient_value_exec(b: u8) -> (v: u32)
    ensures
        v == lenient_value(b),
{
    if 0x41 <= b && b <= 0x5a {
        (b - 0x41) as u32
    } else if 0x61 <= b && b <= 0x7a {
        (b - 0x61 + 26) as u32
    } else if 0x30 <= b && b <= 0x39 {
        (b - 0x30 + 52) as u32
    } else if b == 0x2b {
        62
    } else if b == 0x2f {
        63
    } else {
        0xff
    }
}

/// Decodes the worker's base64; see `spec_decode_lenient`. Never fails.
pub fn decode_worker_b64(text: &str) -> (r: Option<Vec<u8>>)
    ensures
        r matches Some(v) && v@ == spec_decode_lenient(text.spec_bytes()),
{
    let src = text.as_bytes();
    if src.len() == 0 {
        return Some(Vec::new());
    }
    let mut p: Vec<u8> = vstd::slice::slice_to_vec(src);
    let pad = (4 - src.len() % 4) % 4;
    let mut k: usize = 0;
    while k < pad
        invariant
            k <= pad,
            pad < 4,
            p@ == src@ + Seq::new(k as nat, |i: int| 0x3du8),
        decreases pad - k,
    {
        p.push(0x3d);
        assert(p@ =~= src@ + Seq::new((k + 1) as nat, |i: int| 0x3du8));
        k = k + 1;
    }
    let ghost padded = p@;
    assert(padded.len() % 4 == 0);
    let mut out: Vec<u8> = Vec::new();
    let mut g: usize = 0;
    let groups = p.len() / 4;
    while g < groups
        invariant
            groups * 4 == padded.len(),
            p@ == padded,
            g <= groups,
            out@ + lenient_groups(padded, g as int) == lenient_groups(padded, 0),
        decreases groups - g,
    {
        assert(4 * g + 3 < p@.len()) by (nonlinear_arith)
            requires
                g < groups,
                groups * 4 == p@.len(),
        ;
        let c0 = p[4 * g];
        let c1 = p[4 * g + 1];
        let c2 = p[4 * g + 2];
        let c3 = p[4 * g + 3];
        let n: u32 = (lenient_value_exec(c0) << 18u32) | (lenient_value_exec(c1) << 12u32) | (lenient_value_exec(c2)
            << 6u32) | lenient_value_exec(c3);
        let ghost before = out@;
        out.push(((n >> 16u32) & 0xff) as u8);
        if c2 != 0x3d {
            out.push(((n >> 8u32) & 0xff) as u8);
        }
        if c3 != 0x3d {
            out.push((n & 0xff) as u8);
        }
        assert(out@ =~= before + lenient_group(c0, c1, c2, c3));
        g = g + 1;
    }
    assert(lenient_groups(padded, g as int) =~= Seq::<u8>::empty());
    assert(out@ =~= lenient_groups(padded, 0));
    Some(out)
}

impl Workbench {
    /// Takes the worker's answer to a run of the plan: a refusal passes its
    /// error on (a crash when it gives none); otherwise the output is decoded
    /// and the preview, renamed to the plan and given the output's digest
    /// and length, is kept with the output and the plan awaits approval.
    pub fn accept_transform(&mut self, plan_id: &str, resp: WorkerResponse) -> (r: Result<
        (Vec<u8>, TransformPreview),
        IpcError,
    >)
        requires
            old(self).wf(),
        ensures
            final(self).wf(),
            final(self).artifacts@ == old(self).artifacts@,
            final(self).session_id == old(self).session_id,
            final(self).current_id == old(self).current_id,
            final(self).analysis == old(self).analysis,
            final(self).tries == old(self).tries,
            final(self).depth == old(self).depth,
            !resp.ok ==> final(self).plans@ == old(self).plans@ && match resp.error {
                Some(e) => r matches Err(re) && re@ == e@,
                None => err_is(r, ErrorCode::WorkerCrashed, "error.worker_crashed"@),
            },
            resp.ok && resp.preview is None ==> final(self).plans@ == old(self).plans@ && err_is(
                r,
                ErrorCode::WorkerCrashed,
                "error.worker_crashed"@,
            ),
            resp.ok && resp.preview is Some ==> {
                let out = spec_decode_lenient(
                    match resp.output_b64 {
                        Some(b) => encode_utf8(b@),
                        None => Seq::empty(),
                    },
                );
                let pv = resp.preview.unwrap();
                &&& r matches Ok((bytes, p)) && bytes@ == out && p.plan_id@ == plan_id@
                    && p.candidate_sha256@ == (match resp.output_sha256 {
                    Some(h) => h@,
                    None => pv.candidate_sha256@,
                }) && p.candidate_preview == pv.candidate_preview && p.byte_length == out.len()
                    && p.validation.same(pv.validation) && p.result == pv.result
                &&& !has_plan(old(self).plans@, plan_id@) ==> final(self).plans@ == old(self).plans@
                &&& forall|i: int|
                    plan_at(old(self).plans@, plan_id@, i) ==> final(self).plans@.len() == old(self).plans@.len()
                        && (forall|j: int|
                        0 <= j < old(self).plans@.len() && j != i ==> final(self).plans@[j] == old(self).plans@[j])
                        && final(self).plans@[i].plan == with_state(old(self).plans@[i], PlanState::AwaitingApproval).plan
                        && final(self).plans@[i].approval == old(self).plans@[i].approval
                        && (r matches Ok((bytes, p)) && (final(self).plans@[i].preview matches Some(kept) && kept.same(p))
                        && (final(self).plans@[i].preview_bytes matches Some(kb) && kb@ == bytes@))
            },
    {
        if !resp.ok {
            return match resp.error {
                Some(e) => Err(e),
                None => Err(IpcError::new(ErrorCode::WorkerCrashed, "error.worker_crashed")),
            };
        }
        let text = match &resp.output_b64 {
            Some(b) => b.as_str(),
            None => "",
        };
        proof {
            reveal_strlit("");
            assert(text.spec_bytes() == match resp.output_b64 {
                Some(b) => encode_utf8(b@),
                None => Seq::<u8>::empty(),
            });
        }
        let out = match decode_worker_b64(text) {
            Some(v) => v,
            None => {
                return Err(IpcError::new(ErrorCode::SchemaMismatch, "error.schema_mismatch"));
            },
        };
        let mut preview = match resp.preview {
            Some(p) => p,
            None => {
                return Err(IpcError::new(ErrorCode::WorkerCrashed, "error.worker_crashed"));
            },
        };
        preview.plan_id = plan_id.to_string();
        preview.candidate_sha256 = match resp.output_sha256 {
            Some(h) => h,
            None => preview.candidate_sha256,
        };
        preview.byte_length = out.len() as u64;
        match self.find_plan(plan_id) {
            Some(i) => {
                let ghost before = self.plans@;
                self.set_plan_state(i, PlanState::AwaitingApproval);
                let mut rec = self.plans.remove(i);
                rec.preview = Some(preview.duplicate());
                rec.preview_bytes = Some(vstd::slice::slice_to_vec(out.as_slice()));
                self.plans.insert(i, rec);
                proof {
                    assert forall|a: int, b: int|
                        #![trigger self.plans@[a], self.plans@[b]]
                        0 <= a < b < self.plans@.len() implies self.plans@[a].plan.plan_id@
                        != self.plans@[b].plan.plan_id@ by {
                        assert(before[a].plan.plan_id@ != before[b].plan.plan_id@);
                    }
                    assert forall|k: int| 0 <= k < self.plans@.len() implies has_artifact(
                        self.artifacts@,
                        #[trigger] self.plans@[k].plan.input_artifact_id@,
                    ) by {
                        assert(has_artifact(self.artifacts@, before[k].plan.input_artifact_id@));
                    }
                }
            },
            None => {},
        }
        Ok((out, preview))
    }
}

// ---------------------------------------------------------------- applying

/// The name of a plan's output: the adapter, a dash, and the first eight
/// bytes of the output's digest.
pub open spec fn output_name(adapter: Seq<char>, sha: Seq<char>) -> Seq<char> {
    adapter + "-"@ + decode_utf8(encode_utf8(sha).take(8))
}

impl Workbench {
    /// After a run for applying, names the output and gives its parent and
    /// the adapter; a run whose validation failed is refused.
    pub fn finish_apply(&self, plan_id: &str, preview: &TransformPreview) -> (r: Result<(String, String, String), IpcError>)
        requires
            self.wf(),
            has_plan(self.plans@, plan_id@),
            preview.validation.verdict != ValidationVerdict::Failed ==> is_char_boundary(
                encode_utf8(preview.candidate_sha256@),
                8,
            ),
        ensures
            preview.validation.verdict == ValidationVerdict::Failed ==> err_is(
                r,
                ErrorCode::ValidationFailed,
                "error.validation_failed"@,
            ),
            preview.validation.verdict != ValidationVerdict::Failed ==> forall|i: int|
                plan_at(self.plans@, plan_id@, i) ==> (r matches Ok((name, parent, adapter)) && name@ == output_name(
                    self.plans@[i].plan.adapter_id@,
                    preview.candidate_sha256@,
                ) && parent@ == self.plans@[i].plan.input_artifact_id@ && adapter@ == self.plans@[i].plan.adapter_id@),
    {
        if preview.validation.verdict == ValidationVerdict::Failed {
            return Err(IpcError::new(ErrorCode::ValidationFailed, "error.validation_failed"));
        }
        let i = match self.find_plan(plan_id) {
            Some(i) => i,
            None => {
                assert(false);
                return Err(IpcError::new(ErrorCode::NotFound, "error.not_found"));
            },
        };
        let plan = &self.plans[i].plan;
        let (head, _) = preview.candidate_sha256.as_str().split_at(8);
        proof {
            vstd::utf8::encode_utf8_decode_utf8(head@);
        }
        let mut name = plan.adapter_id.clone();
        name.append("-");
        name.append(head);
        proof {
            assert(head.spec_bytes() == encode_utf8(preview.candidate_sha256@).take(8));
            assert forall|ii: int| plan_at(self.plans@, plan_id@, ii) implies ii == i by {
                if ii < i {
                    assert(self.plans@[ii].plan.plan_id@ != self.plans@[i as int].plan.plan_id@);
                } else if ii > i {
                    assert(self.plans@[i as int].plan.plan_id@ != self.plans@[ii].plan.plan_id@);
                }
            }
        }
        Ok((name, plan.input_artifact_id.clone(), plan.adapter_id.clone()))
    }

    /// Counts an applied run: one more try, one link deeper, and the plan
    /// marked applied.
    pub fn record_applied(&mut self, plan_id: &str)
        requires
            old(self).wf(),
            old(self).tries < u32::MAX,
            old(self).depth < u32::MAX,
        ensures
            final(self).wf(),
            final(self).tries == old(self).tries + 1,
            final(self).depth == old(self).depth + 1,
            final(self).artifacts@ == old(self).artifacts@,
            final(self).session_id == old(self).session_id,
            final(self).current_id == old(self).current_id,
            final(self).analysis == old(self).analysis,
            !has_plan(old(self).plans@, plan_id@) ==> final(self).plans@ == old(self).plans@,
            forall|i: int|
                plan_at(old(self).plans@, plan_id@, i) ==> final(self).plans@ == old(self).plans@.update(
                    i,
                    with_state(old(self).plans@[i], PlanState::Applied),
                ),
    {
        self.tries = self.tries + 1;
        self.depth = self.depth + 1;
        match self.find_plan(plan_id) {
            Some(i) => {
                self.set_plan_state(i, PlanState::Applied);
                proof {
                    assert forall|ii: int| plan_at(old(self).plans@, plan_id@, ii) implies ii == i by {
                        if ii < i {
                            assert(old(self).plans@[ii].plan.plan_id@ != old(self).plans@[i as int].plan.plan_id@);
                        } else if ii > i {
                            assert(old(self).plans@[i as int].plan.plan_id@ != old(self).plans@[ii].plan.plan_id@);
                        }
                    }
                }
            },
            None => {},
        }
    }

    // ------------------------------------------------------------ analysis

    /// The stored name of an artifact's bytes, to be analysed; unknown
    /// artifacts are refused.
    pub fn analysis_input(&self, artifact_id: &str) -> (r: Result<String, IpcError>)
        requires
            self.wf(),
        ensures
            !has_artifact(self.artifacts@, artifact_id@) ==> err_is(r, ErrorCode::InputNotRegular, "error.no_artifact"@),
            forall|k: int|
                artifact_at(self.artifacts@, artifact_id@, k) ==> (r matches Ok(s) && s@ == self.artifacts@[k].imported.sha256@),
    {
        match self.find_artifact(artifact_id) {
            Some(k) => {
                proof {
                    self.lemma_artifact_unique(artifact_id@, k as int);
                }
                Ok(self.artifacts[k].imported.sha256.clone())
            },
            None => Err(IpcError::new(ErrorCode::InputNotRegular, "error.no_artifact")),
        }
    }

    /// Keeps a finished analysis; its artifact becomes the current one.
    pub fn record_analysis(&mut self, artifact_id: &str, analysis: AnalysisResult)
        requires
            old(self).wf(),
        ensures
            final(self).wf(),
            final(self).analysis == Some(analysis),
            final(self).current_id matches Some(c) && c@ == artifact_id@,
            final(self).artifacts@ == old(self).artifacts@,
            final(self).plans@ == old(self).plans@,
            final(self).session_id == old(self).session_id,
            final(self).tries == old(self).tries,
            final(self).depth == old(self).depth,
    {
        self.analysis = Some(analysis);
        self.current_id = Some(artifact_id.to_string());
    }

    proof fn lemma_artifact_unique(&self, id: Seq<char>, k: int)
        requires
            self.wf(),
            artifact_at(self.artifacts@, id, k),
        ensures
            forall|kk: int| artifact_at(self.artifacts@, id, kk) ==> kk == k,
    {
        assert forall|kk: int| artifact_at(self.artifacts@, id, kk) implies kk == k by {
            if kk < k {
                assert(self.artifacts@[kk].imported.artifact_id@ != self.artifacts@[k].imported.artifact_id@);
            } else if kk > k {
                assert(self.artifacts@[k].imported.artifact_id@ != self.artifacts@[kk].imported.artifact_id@);
            }
        }
    }

    /// The stored name of an artifact's bytes, for viewing.
    pub fn artifact_blob(&self, artifact_id: &str) -> (r: Result<String, IpcError>)
        requires
            self.wf(),
        ensures
            !has_artifact(self.artifacts@, artifact_id@) ==> err_is(r, ErrorCode::NotFound, "error.not_found"@),
            forall|k: int|
                artifact_at(self.artifacts@, artifact_id@, k) ==> (r matches Ok(s) && s@ == self.artifacts@[k].imported.sha256@),
    {
        match self.find_artifact(artifact_id) {
            Some(k) => {
                proof {
                    self.lemma_artifact_unique(artifact_id@, k as int);
                }
                Ok(self.artifacts[k].imported.sha256.clone())
            },
            None => Err(IpcError::new(ErrorCode::NotFound, "error.not_found")),
        }
    }

    /// The current artifact, when it is one of the session's.
    pub fn current_artifact(&self) -> (r: Option<ImportedArtifact>)
        requires
            self.wf(),
        ensures
            match self.current_id {
                None => r is None,
                Some(c) => if has_artifact(self.artifacts@, c@) {
                    forall|k: int| artifact_at(self.artifacts@, c@, k) ==> r == Some(self.artifacts@[k].imported)
                } else {
                    r is None
                },
            },
    {
        match &self.current_id {
            None => None,
            Some(c) => match self.find_artifact(c.as_str()) {
                Some(k) => {
                    proof {
                        self.lemma_artifact_unique(c@, k as int);
                    }
                    Some(self.artifacts[k].imported.duplicate())
                },
                None => None,
            },
        }
    }
}

// ---------------------------------------------------------------- views

/// Bytes as lower-case hex pairs separated by single spaces.
pub open spec fn hex_join(b: Seq<u8>) -> Seq<char>
    decreases b.len(),
{
    if b.len() == 0 {
        Seq::empty()
    } else {
        let pair = seq![hex_char((b.last() / 16) as int), hex_char((b.last() % 16) as int)];
        if b.len() == 1 {
            pair
        } else {
            hex_join(b.drop_last()) + seq![' '] + pair
        }
    }
}

/// How an artifact shows: its first `MAX_PREVIEW_BYTES` bytes as text with
/// NUL as a middle dot when they are UTF-8, else its first 256 bytes in hex.
pub open spec fn artifact_preview(bytes: Seq<u8>) -> Seq<char> {
    let head = bytes.take(min_int(bytes.len() as int, MAX_PREVIEW_BYTES as int));
    if valid_utf8(head) {
        decode_utf8(head).map_values(|c: char| preview_char(c))
    } else {
        hex_join(bytes.take(min_int(bytes.len() as int, 256)))
    }
}

fn hex_preview(bytes: &[u8]) -> (s: String)
    ensures
        s@ == hex_join(bytes@.take(min_int(bytes@.len() as int, 256))),
{
    let n = if bytes.len() < 256 {
        bytes.len()
    } else {
        256
    };
    let mut s = String::new();
    let mut k: usize = 0;
    while k < n
        invariant
            k <= n,
            n <= bytes@.len(),
            n == min_int(bytes@.len() as int, 256),
            s@ == hex_join(bytes@.take(k as int)),
        decreases n - k,
    {
        let b = bytes[k];
        if k > 0 {
            push_char(&mut s, ' ');
        }
        push_char(&mut s, hex_char_exec(b / 16, false));
        push_char(&mut s, hex_char_exec(b % 16, false));
        assert(bytes@.take(k + 1).drop_last() =~= bytes@.take(k as int));
        k = k + 1;
    }
    s
}

impl Workbench {
    /// How an artifact of the session shows, from its stored bytes.
    pub fn artifact_view(&self, artifact_id: &str, bytes: &[u8]) -> (v: ArtifactView)
        requires
            self.wf(),
            has_artifact(self.artifacts@, artifact_id@),
        ensures
            forall|k: int|
                artifact_at(self.artifacts@, artifact_id@, k) ==> {
                    let rec = self.artifacts@[k];
                    &&& v.artifact_id == rec.imported.artifact_id
                    &&& v.sha256 == rec.imported.sha256
                    &&& v.byte_length == rec.imported.byte_length
                    &&& v.kind_hint == rec.imported.kind_hint
                    &&& v.display_name == rec.imported.display_name
                    &&& v.parent_artifact_id == rec.parent
                    &&& v.created_by == rec.created_by
                    &&& v.is_original == (rec.parent is None)
                },
            v.preview@ == artifact_preview(bytes@),
    {
        let k = match self.find_artifact(artifact_id) {
            Some(k) => k,
            None => {
                assert(false);
                0
            },
        };
        proof {
            self.lemma_artifact_unique(artifact_id@, k as int);
        }
        let take = if (bytes.len() as u64) < MAX_PREVIEW_BYTES {
            bytes.len()
        } else {
            MAX_PREVIEW_BYTES as usize
        };
        let head = vstd::slice::slice_subrange(bytes, 0, take);
        let preview = match str_from_utf8(head) {
            Some(text) => {
                proof {
                    vstd::utf8::encode_utf8_decode_utf8(text@);
                }
                nul_as_dot(text)
            },
            None => hex_preview(bytes),
        };
        let rec = &self.artifacts[k];
        ArtifactView {
            artifact_id: rec.imported.artifact_id.clone(),
            sha256: rec.imported.sha256.clone(),
            byte_length: rec.imported.byte_length,
            kind_hint: rec.imported.kind_hint.clone(),
            display_name: rec.imported.display_name.clone(),
            parent_artifact_id: copy_opt_string(&rec.parent),
            created_by: rec.created_by.clone(),
            preview,
            is_original: rec.parent.is_none(),
        }
    }

    /// The derivation graph: one node per artifact, with the adapter that
    /// made it (none for imports and the lesson).
    pub fn dag(&self) -> (v: Vec<DagNode>)
        ensures
            v@.len() == self.artifacts@.len(),
            forall|k: int|
                0 <= k < v@.len() ==> {
                    let rec = self.artifacts@[k];
                    let n = #[trigger] v@[k];
                    &&& n.artifact_id == rec.imported.artifact_id
                    &&& n.sha256 == rec.imported.sha256
                    &&& n.label == rec.imported.display_name
                    &&& n.parent_artifact_id == rec.parent
                    &&& n.adapter_id == if rec.created_by@ == "import"@ || rec.created_by@ == "lesson"@ {
                        None::<String>
                    } else {
                        Some(rec.created_by)
                    }
                },
    {
        let mut v: Vec<DagNode> = Vec::new();
        let mut k: usize = 0;
        while k < self.artifacts.len()
            invariant
                k <= self.artifacts@.len(),
                v@.len() == k,
                forall|j: int|
                    0 <= j < k ==> {
                        let rec = self.artifacts@[j];
                        let n = #[trigger] v@[j];
                        &&& n.artifact_id == rec.imported.artifact_id
                        &&& n.sha256 == rec.imported.sha256
                        &&& n.label == rec.imported.display_name
                        &&& n.parent_artifact_id == rec.parent
                        &&& n.adapter_id == if rec.created_by@ == "import"@ || rec.created_by@ == "lesson"@ {
                            None::<String>
                        } else {
                            Some(rec.created_by)
                        }
                    },
            decreases self.artifacts.len() - k,
        {
            let a = &self.artifacts[k];
            let adapter_id = if str_eq(a.created_by.as_str(), "import") || str_eq(a.created_by.as_str(), "lesson") {
                None
            } else {
                Some(a.created_by.clone())
            };
            v.push(
                DagNode {
                    artifact_id: a.imported.artifact_id.clone(),
                    sha256: a.imported.sha256.clone(),
                    label: a.imported.display_name.clone(),
                    parent_artifact_id: copy_opt_string(&a.parent),
                    adapter_id,
                },
            );
            k = k + 1;
        }
        v
    }

    /// A record of a finished analysis job for the current artifact.
    pub fn job_snapshot(&self, job_id: &str) -> (j: JobSnapshot)
        requires
            self.wf(),
        ensures
            j.job_id@ == job_id@,
            j.session_id == self.session_id,
            j.kind == JobKind::Analyze,
            j.status == JobStatus::Completed,
            j.stage@ == "detect"@,
            j.error is None,
            match self.current_id {
                Some(c) if has_artifact(self.artifacts@, c@) => j.artifact_id matches Some(a) && a@ == c@,
                _ => j.artifact_id is None,
            },
    {
        let artifact_id = match self.current_artifact() {
            Some(a) => Some(a.artifact_id),
            None => None,
        };
        JobSnapshot {
            job_id: job_id.to_string(),
            session_id: self.session_id.clone(),
            kind: JobKind::Analyze,
            status: JobStatus::Completed,
            stage: "detect".to_string(),
            artifact_id,
            error: None,
        }
    }
}

/// Two artifacts side by side. The mapping between them is approximate.
pub fn comparison(left: ArtifactView, right: ArtifactView) -> (c: ComparisonPage)
    ensures
        c.left_id == left.artifact_id,
        c.right_id == right.artifact_id,
        c.left_preview == left.preview,
        c.right_preview == right.preview,
        c.mapping_mode@ == "approximate"@,
        strings_view(c.notes@) == seq!["Byte-accurate mapping is omitted when decode expands or contracts."@],
{
    let mut notes: Vec<String> = Vec::new();
    push_str(&mut notes, "Byte-accurate mapping is omitted when decode expands or contracts.");
    ComparisonPage {
        left_id: left.artifact_id,
        right_id: right.artifact_id,
        left_preview: left.preview,
        right_preview: right.preview,
        mapping_mode: "approximate".to_string(),
        notes,
    }
}

// ---------------------------------------------------------------- laws

/// An approval granted at `t` admits applying until `t` plus ten minutes
/// and not after: its stamp reads back as that time.
pub proof fn law_approval_window(t: u64, now: u64)
    requires
        t <= u64::MAX - APPROVAL_SECS,
    ensures
        !spec_expired(decimal((t + APPROVAL_SECS) as nat), now) <==> now <= t + APPROVAL_SECS,
{
    crate::text::law_decimal_round_trip((t + APPROVAL_SECS) as u64);
}

} // verus!

//! Transform plans, their previews and approvals, and the validation that a
//! transform result carries.

use vstd::prelude::*;

use crate::analysis::{copy_opt_string, copy_strings, ByteRange, Finding};
use crate::info::ImportedArtifact;

verus! {

#[derive(Clone, Copy, Debug, PartialEq, Eq, Structural)]
pub enum PlanState {
    Draft,
    Previewing,
    AwaitingApproval,
    Approved,
    Applying,
    Applied,
    Expired,
    Rejected,
    Invalidated,
    Failed,
    Cancelled,
}

#[derive(Clone, Copy, Debug, PartialEq, Eq, Structural)]
pub enum TransformResultKind {
    Transformed,
    Partial,
    NoChange,
    Rejected,
    Failed,
}

#[derive(Clone, Copy, Debug, PartialEq, Eq, Structural)]
pub enum ValidationVerdict {
    Passed,
    Failed,
    NotChecked,
}

/// One check a validator ran, and what it found.
#[derive(Clone, Debug, PartialEq, Eq)]
pub struct ValidationCheck {
    pub kind: String,
    pub detail: String,
}

#[derive(Clone, Debug, PartialEq, Eq)]
pub struct Validation {
    pub checks: Vec<ValidationCheck>,
    pub verdict: ValidationVerdict,
    pub limitations: Vec<String>,
    pub expected_hash: Option<String>,
}

/// A proposed transform of one range of one artifact. `parameters` holds
/// the plan's parameters as JSON text.
#[derive(Clone, Debug, PartialEq)]
pub struct TransformPlan {
    pub plan_id: String,
    pub session_id: String,
    pub input_artifact_id: String,
    pub input_hash: String,
    pub range: ByteRange,
    pub adapter_id: String,
    pub technique_id: String,
    pub parameters: String,
    pub plan_hash: String,
    pub state: PlanState,
    pub warnings: Vec<String>,
    pub preconditions: Vec<String>,
    pub lossy: bool,
}

/// Consent to apply the plan with `plan_hash`, until `expires_at` (seconds
/// since the Unix epoch, as decimal text).
#[derive(Clone, Debug, PartialEq, Eq)]
pub struct Approval {
    pub approval_id: String,
    pub plan_hash: String,
    pub expires_at: String,
}

#[derive(Clone, Debug, PartialEq)]
pub struct TransformPreview {
    pub plan_id: String,
    pub candidate_sha256: String,
    pub candidate_preview: String,
    pub byte_length: u64,
    pub validation: Validation,
    pub result: TransformResultKind,
}

#[derive(Clone, Debug, PartialEq)]
pub struct TransformApplyResult {
    pub plan_id: String,
    pub step_id: String,
    pub output: ImportedArtifact,
    pub validation: Validation,
    pub result: TransformResultKind,
    pub remaining_findings: Vec<Finding>,
}

/// One artifact in the derivation graph.
#[derive(Clone, Debug, PartialEq, Eq)]
pub struct DagNode {
    pub artifact_id: String,
    pub sha256: String,
    pub label: String,
    pub parent_artifact_id: Option<String>,
    pub adapter_id: Option<String>,
}

impl ValidationCheck {
    pub fn duplicate(&self) -> (c: ValidationCheck)
        ensures
            c == *self,
    {
        ValidationCheck { kind: self.kind.clone(), detail: self.detail.clone() }
    }
}

impl Validation {
    /// Equal field by field, lists by their contents.
    pub open spec fn same(self, other: Validation) -> bool {
        &&& self.checks@ == other.checks@
        &&& self.verdict == other.verdict
        &&& self.limitations@ == other.limitations@
        &&& self.expected_hash == other.expected_hash
    }

    pub fn duplicate(&self) -> (c: Validation)
        ensures
            c.same(*self),
    {
        let mut checks: Vec<ValidationCheck> = Vec::new();
        let mut k: usize = 0;
        while k < self.checks.len()
            invariant
                k <= self.checks@.len(),
                checks@ == self.checks@.take(k as int),
            decreases self.checks.len() - k,
        {
            checks.push(self.checks[k].duplicate());
            assert(checks@ =~= self.checks@.take(k + 1));
            k = k + 1;
        }
        assert(self.checks@.take(k as int) =~= self.checks@);
        Validation {
            checks,
            verdict: self.verdict,
            limitations: copy_strings(&self.limitations),
            expected_hash: copy_opt_string(&self.expected_hash),
        }
    }
}

impl TransformPreview {
    /// Equal field by field, lists by their contents.
    pub open spec fn same(self, other: TransformPreview) -> bool {
        &&& self.plan_id == other.plan_id
        &&& self.candidate_sha256 == other.candidate_sha256
        &&& self.candidate_preview == other.candidate_preview
        &&& self.byte_length == other.byte_length
        &&& self.validation.same(other.validation)
        &&& self.result == other.result
    }

    pub fn duplicate(&self) -> (c: TransformPreview)
        ensures
            c.same(*self),
    {
        TransformPreview {
            plan_id: self.plan_id.clone(),
            candidate_sha256: self.candidate_sha256.clone(),
            candidate_preview: self.candidate_preview.clone(),
            byte_length: self.byte_length,
            validation: self.validation.duplicate(),
            result: self.result,
        }
    }
}

impl Approval {
    pub fn duplicate(&self) -> (c: Approval)
        ensures
            c == *self,
    {
        Approval {
            approval_id: self.approval_id.clone(),
            plan_hash: self.plan_hash.clone(),
            expires_at: self.expires_at.clone(),
        }
    }
}

impl TransformPlan {
    /// Equal field by field, lists by their contents.
    pub open spec fn same(self, other: TransformPlan) -> bool {
        &&& self.plan_id == other.plan_id
        &&& self.session_id == other.session_id
        &&& self.input_artifact_id == other.input_artifact_id
        &&& self.input_hash == other.input_hash
        &&& self.range == other.range
        &&& self.adapter_id == other.adapter_id
        &&& self.technique_id == other.technique_id
        &&& self.parameters == other.parameters
        &&& self.plan_hash == other.plan_hash
        &&& self.state == other.state
        &&& self.warnings@ == other.warnings@
        &&& self.preconditions@ == other.preconditions@
        &&& self.lossy == other.lossy
    }

    pub fn duplicate(&self) -> (c: TransformPlan)
        ensures
            c.same(*self),
    {
        TransformPlan {
            plan_id: self.plan_id.clone(),
            session_id: self.session_id.clone(),
            input_artifact_id: self.input_artifact_id.clone(),
            input_hash: self.input_hash.clone(),
            range: self.range,
            adapter_id: self.adapter_id.clone(),
            technique_id: self.technique_id.clone(),
            parameters: self.parameters.clone(),
            plan_hash: self.plan_hash.clone(),
            state: self.state,
            warnings: copy_strings(&self.warnings),
            preconditions: copy_strings(&self.preconditions),
            lossy: self.lossy,
        }
    }
}

} // verus!

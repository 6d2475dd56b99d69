//! What the sandbox self-diagnosis reports.

use vstd::prelude::*;

use vstd::string::StringExecFns;

use crate::analysis::{push_str, strings_view};
use crate::error::{ErrorCode, IpcError};

verus! {

/// One probe of the sandbox and whether it passed.
#[derive(Clone, Debug, PartialEq, Eq)]
pub struct IsolationCheck {
    pub id: String,
    pub passed: bool,
    pub detail: String,
}

/// Whether analysis may run here. An unavailable sandbox always carries the
/// `SandboxUnavailable` code; an available one carries none.
#[derive(Clone, Debug, PartialEq, Eq)]
pub struct IsolationDiagnosis {
    pub available: bool,
    pub platform: String,
    pub error_code: Option<ErrorCode>,
    pub checks: Vec<IsolationCheck>,
}

impl IsolationDiagnosis {
    /// A diagnosis that refuses analysis.
    pub fn fail_closed(platform: &str, checks: Vec<IsolationCheck>) -> (d: IsolationDiagnosis)
        ensures
            !d.available,
            d.platform@ == platform@,
            d.error_code == Some(ErrorCode::SandboxUnavailable),
            d.checks@ == checks@,
    {
        IsolationDiagnosis {
            available: false,
            platform: platform.to_string(),
            error_code: Some(ErrorCode::SandboxUnavailable),
            checks,
        }
    }

    /// A diagnosis that allows analysis.
    pub fn ok(platform: &str, checks: Vec<IsolationCheck>) -> (d: IsolationDiagnosis)
        ensures
            d.available,
            d.platform@ == platform@,
            d.error_code is None,
            d.checks@ == checks@,
    {
        IsolationDiagnosis { available: true, platform: platform.to_string(), error_code: None, checks }
    }
}

/// What the worker found when it tried the things the sandbox must deny.
#[derive(Clone, Debug, PartialEq, Eq)]
pub struct IsolationSelfTestReport {
    pub child_spawn_denied: bool,
    pub network_denied: bool,
    pub extra_read_denied: bool,
    pub extra_write_denied: bool,
    pub notes: Vec<String>,
}

/// Every check passed.
pub open spec fn all_passed(checks: Seq<IsolationCheck>) -> bool {
    forall|i: int| 0 <= i < checks.len() ==> (#[trigger] checks[i]).passed
}

/// The name of an error code, as debug output writes it.
pub open spec fn code_name(c: ErrorCode) -> Seq<char> {
    match c {
        ErrorCode::SandboxUnavailable => "SandboxUnavailable"@,
        ErrorCode::InputNotRegular => "InputNotRegular"@,
        ErrorCode::InputChanged => "InputChanged"@,
        ErrorCode::InputTooLarge => "InputTooLarge"@,
        ErrorCode::LimitReached => "LimitReached"@,
        ErrorCode::WorkerCrashed => "WorkerCrashed"@,
        ErrorCode::Interrupted => "Interrupted"@,
        ErrorCode::SchemaMismatch => "SchemaMismatch"@,
        ErrorCode::PermissionDenied => "PermissionDenied"@,
        ErrorCode::StorageFull => "StorageFull"@,
        ErrorCode::Cancelled => "Cancelled"@,
        ErrorCode::NotFound => "NotFound"@,
        ErrorCode::AdapterUnsupported => "AdapterUnsupported"@,
        ErrorCode::PlanStale => "PlanStale"@,
        ErrorCode::ApprovalExpired => "ApprovalExpired"@,
        ErrorCode::ValidationFailed => "ValidationFailed"@,
        ErrorCode::ParseFailed => "ParseFailed"@,
        ErrorCode::InvalidEncoding => "InvalidEncoding"@,
        ErrorCode::ModuleUnavailable => "ModuleUnavailable"@,
    }
}

pub fn code_text(c: ErrorCode) -> (s: &'static str)
    ensures
        s@ == code_name(c),
{
    match c {
        ErrorCode::SandboxUnavailable => "SandboxUnavailable",
        ErrorCode::InputNotRegular => "InputNotRegular",
        ErrorCode::InputChanged => "InputChanged",
        ErrorCode::InputTooLarge => "InputTooLarge",
        ErrorCode::LimitReached => "LimitReached",
        ErrorCode::WorkerCrashed => "WorkerCrashed",
        ErrorCode::Interrupted => "Interrupted",
        ErrorCode::SchemaMismatch => "SchemaMismatch",
        ErrorCode::PermissionDenied => "PermissionDenied",
        ErrorCode::StorageFull => "StorageFull",
        ErrorCode::Cancelled => "Cancelled",
        ErrorCode::NotFound => "NotFound",
        ErrorCode::AdapterUnsupported => "AdapterUnsupported",
        ErrorCode::PlanStale => "PlanStale",
        ErrorCode::ApprovalExpired => "ApprovalExpired",
        ErrorCode::ValidationFailed => "ValidationFailed",
        ErrorCode::ParseFailed => "ParseFailed",
        ErrorCode::InvalidEncoding => "InvalidEncoding",
        ErrorCode::ModuleUnavailable => "ModuleUnavailable",
    }
}

fn check(id: &str, passed: bool, detail: &str) -> (c: IsolationCheck)
    ensures
        c.id@ == id@,
        c.passed == passed,
        c.detail@ == detail@,
{
    IsolationCheck { id: id.to_string(), passed, detail: detail.to_string() }
}

/// Off the lab platform analysis never runs: the diagnosis fails closed.
pub fn unsupported_platform(platform: &str) -> (d: IsolationDiagnosis)
    ensures
        !d.available,
        d.platform@ == platform@,
        d.error_code == Some(ErrorCode::SandboxUnavailable),
        d.checks@.len() == 1,
        d.checks@[0].id@ == "os_namespaces"@,
        !d.checks@[0].passed,
        d.checks@[0].detail@ == "Runtime OS is not the Windows lab target. Analysis stays fail-closed."@,
{
    let mut checks: Vec<IsolationCheck> = Vec::new();
    checks.push(check("os_namespaces", false, "Runtime OS is not the Windows lab target. Analysis stays fail-closed."));
    IsolationDiagnosis::fail_closed(platform, checks)
}

/// The worker binary is missing: the diagnosis fails closed.
pub fn worker_missing(platform: &str, worker: &str) -> (d: IsolationDiagnosis)
    ensures
        !d.available,
        d.platform@ == platform@,
        d.error_code == Some(ErrorCode::SandboxUnavailable),
        d.checks@.len() == 2,
        d.checks@[0].id@ == "worker_binary"@ && !d.checks@[0].passed && d.checks@[0].detail@ == worker@,
        d.checks@[1].id@ == "appcontainer_job"@ && !d.checks@[1].passed,
{
    let mut checks: Vec<IsolationCheck> = Vec::new();
    checks.push(check("worker_binary", false, worker));
    checks.push(check("appcontainer_job", false, "unveil-worker is not built beside the coordinator."));
    IsolationDiagnosis::fail_closed(platform, checks)
}

/// No scratch workspace could be made: the diagnosis fails closed.
pub fn workspace_failed(platform: &str, worker: &str, error: &str) -> (d: IsolationDiagnosis)
    ensures
        !d.available,
        d.platform@ == platform@,
        d.error_code == Some(ErrorCode::SandboxUnavailable),
        d.checks@.len() == 2,
        d.checks@[0].id@ == "worker_binary"@ && d.checks@[0].passed && d.checks@[0].detail@ == worker@,
        d.checks@[1].id@ == "workspace"@ && !d.checks@[1].passed && d.checks@[1].detail@ == error@,
{
    let mut checks: Vec<IsolationCheck> = Vec::new();
    checks.push(check("worker_binary", true, worker));
    checks.push(check("workspace", false, error));
    IsolationDiagnosis::fail_closed(platform, checks)
}

/// The notes of a report joined by ` | `.
pub open spec fn joined_notes(notes: Seq<Seq<char>>) -> Seq<char>
    decreases notes.len(),
{
    if notes.len() == 0 {
        Seq::empty()
    } else if notes.len() == 1 {
        notes[0]
    } else {
        joined_notes(notes.drop_last()) + " | "@ + notes.last()
    }
}

fn join_notes(notes: &Vec<String>) -> (s: String)
    ensures
        s@ == joined_notes(strings_view(notes@)),
{
    let mut s = String::new();
    let mut k: usize = 0;
    while k < notes.len()
        invariant
            k <= notes@.len(),
            s@ == joined_notes(strings_view(notes@.take(k as int))),
        decreases notes.len() - k,
    {
        if k > 0 {
            s.append(" | ");
        }
        s.append(notes[k].as_str());
        proof {
            let t = strings_view(notes@.take(k + 1));
            assert(t.drop_last() =~= strings_view(notes@.take(k as int)));
            assert(t.last() == notes@[k as int]@);
            if k == 0 {
                assert(t.len() == 1);
            }
        }
        k = k + 1;
    }
    assert(notes@.take(k as int) =~= notes@);
    s
}

/// The diagnosis after the worker ran its self-test in the sandbox: the
/// worker check passed, then the report's four checks, or a failed check
/// saying why there is no report. Analysis is available only when every
/// check passed.
pub fn after_self_test(platform: &str, worker: &str, outcome: Result<Option<IsolationSelfTestReport>, IpcError>) -> (d:
    IsolationDiagnosis)
    ensures
        d.platform@ == platform@,
        d.available == all_passed(d.checks@),
        d.available ==> d.error_code is None,
        !d.available ==> d.error_code == Some(ErrorCode::SandboxUnavailable),
        d.checks@[0].id@ == "worker_binary"@ && d.checks@[0].passed && d.checks@[0].detail@ == worker@,
        match outcome {
            Ok(Some(r)) => d.checks@.len() == 5 && d.checks@[1].id@ == "child_spawn_denied"@ && d.checks@[1].passed
                == r.child_spawn_denied && d.checks@[1].detail@ == joined_notes(strings_view(r.notes@))
                && d.checks@[2].id@ == "network_denied"@ && d.checks@[2].passed == r.network_denied
                && d.checks@[3].id@ == "extra_read_denied"@ && d.checks@[3].passed == r.extra_read_denied
                && d.checks@[4].id@ == "extra_write_denied"@ && d.checks@[4].passed == r.extra_write_denied,
            Ok(None) => d.checks@.len() == 2 && d.checks@[1].id@ == "self_test_report"@ && !d.checks@[1].passed,
            Err(e) => d.checks@.len() == 2 && d.checks@[1].id@ == "spawn_isolated"@ && !d.checks@[1].passed
                && d.checks@[1].detail@ == e.message_key@ + " ("@ + code_name(e.code) + ")"@,
        },
{
    let mut checks: Vec<IsolationCheck> = Vec::new();
    checks.push(check("worker_binary", true, worker));
    match outcome {
        Ok(Some(report)) => {
            checks.push(check("child_spawn_denied", report.child_spawn_denied, join_notes(&report.notes).as_str()));
            checks.push(
                check(
                    "network_denied",
                    report.network_denied,
                    "AppContainer without internetClient must fail connect.",
                ),
            );
            checks.push(
                check(
                    "extra_read_denied",
                    report.extra_read_denied,
                    "Canary outside the granted sandbox must be unreadable.",
                ),
            );
            checks.push(check("extra_write_denied", report.extra_write_denied, "Canary directory must not be writable."));
            if report.child_spawn_denied && report.network_denied && report.extra_read_denied && report.extra_write_denied {
                assert(all_passed(checks@));
                IsolationDiagnosis::ok(platform, checks)
            } else {
                assert(!all_passed(checks@)) by {
                    if !report.child_spawn_denied {
                        assert(!checks@[1].passed);
                    } else if !report.network_denied {
                        assert(!checks@[2].passed);
                    } else if !report.extra_read_denied {
                        assert(!checks@[3].passed);
                    } else {
                        assert(!checks@[4].passed);
                    }
                }
                IsolationDiagnosis::fail_closed(platform, checks)
            }
        },
        Ok(None) => {
            checks.push(check("self_test_report", false, "Worker returned no self-test report."));
            assert(!checks@[1].passed);
            IsolationDiagnosis::fail_closed(platform, checks)
        },
        Err(e) => {
            let mut detail = e.message_key.clone();
            detail.append(" (");
            detail.append(code_text(e.code));
            detail.append(")");
            checks.push(check("spawn_isolated", false, detail.as_str()));
            assert(!checks@[1].passed);
            IsolationDiagnosis::fail_closed(platform, checks)
        },
    }
}

} // verus!

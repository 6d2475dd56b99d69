use unveil::engine::analyze;
use unveil::error::ErrorCode;
use unveil::import::bytes_snapshot;
use unveil::info::{DashboardOverview, ImportedArtifact};
use unveil::plan::PlanState;
use unveil::protocol::{dispatch, WorkerRequest};
use unveil::codec::encode_b64;
use unveil::workbench::{decode_worker_b64, expired, Workbench};
use unveil::report::build_report;
use unveil::analysis::{Assessment, CoverageStatus};
use unveil::import::{PendingSelection, Selections};
use unveil::workbench::analysis_of;
use unveil::workbench::require_sandbox;
use unveil::isolation::{unsupported_platform, IsolationDiagnosis};

const LESSON_JS: &[u8] = b"const token = \"c3BlY2ltZW4ubGFi\";\nconsole.log(token);\n";

fn contains(hay: &[u8], needle: &[u8]) -> bool {
    hay.windows(needle.len()).any(|w| w == needle)
}

fn lesson_session() -> (Workbench, ImportedArtifact) {
    let mut w = Workbench::new("session-test".to_string());
    let art = bytes_snapshot(LESSON_JS, "lesson-base64.js", "session-test").unwrap();
    let kept = w.remember(art.clone(), None, "lesson");
    assert_eq!(kept, art);
    let analysis = analyze(&art.artifact_id, "job-1", LESSON_JS);
    w.record_analysis(&art.artifact_id, analysis);
    (w, art)
}

#[test]
fn lesson_snapshot_does_not_need_isolation() {
    let mut w = Workbench::new("session-test".to_string());
    let art = bytes_snapshot(LESSON_JS, "lesson-base64.js", "session-test").unwrap();
    let artifact = w.remember(art, None, "lesson");
    assert_eq!(artifact.sha256.len(), 64);
    assert_eq!(artifact.display_name, "lesson-base64.js");
}

#[test]
fn overview_starts_empty() {
    let overview = DashboardOverview::empty();
    assert_eq!(overview.saved_sessions, 0);
}

#[test]
fn remembered_artifact_becomes_current() {
    let (w, art) = lesson_session();
    assert_eq!(w.current_artifact(), Some(art.clone()));
    assert_eq!(w.artifact_blob(&art.artifact_id).unwrap(), art.sha256);
    assert_eq!(w.artifact_blob("missing").unwrap_err().code, ErrorCode::NotFound);
    assert_eq!(w.analysis_input(&art.artifact_id).unwrap(), art.sha256);
    assert_eq!(w.dag().len(), 1);
}

#[test]
fn plan_needs_an_analysis() {
    let mut w = Workbench::new("s".to_string());
    let err = w.plan_from_finding("a", "f", None).unwrap_err();
    assert_eq!(err.code, ErrorCode::NotFound);
    assert_eq!(err.message_key, "error.no_analysis");
}

#[test]
fn full_transform_flow_with_approval() {
    let (mut w, art) = lesson_session();
    let finding = w
        .analysis
        .as_ref()
        .unwrap()
        .findings
        .iter()
        .find(|f| f.technique_id == "enc.base64")
        .cloned()
        .expect("base64 finding");
    let plan = w.plan_from_finding(&art.artifact_id, &finding.id, None).unwrap();
    assert_eq!(plan.adapter_id, "enc.base64");
    assert_eq!(plan.input_artifact_id, art.artifact_id);
    assert_eq!(plan.plan_hash.len(), 64);
    assert_eq!(plan.parameters, format!("{{\"adapter\":\"enc.base64\",\"rule\":\"{}\"}}", unveil::info::RULE_VERSION));

    let input = w.transform_request(&plan.plan_id).unwrap();
    assert_eq!(input.blob, art.sha256);
    let req = WorkerRequest::transform(&input.artifact_id, "job-2", &input.adapter_id, input.finding.clone());
    let resp = dispatch(&req, LESSON_JS, None);
    assert!(resp.ok);
    let (bytes, preview) = w.accept_transform(&plan.plan_id, resp).unwrap();
    assert!(contains(&bytes, b"specimen.lab"));
    assert_eq!(preview.plan_id, plan.plan_id);
    assert_eq!(preview.byte_length, bytes.len() as u64);
    assert_eq!(w.plans[0].plan.state, PlanState::AwaitingApproval);

    let approval = w.approve_plan(&plan.plan_id, &plan.plan_hash, 1000).unwrap();
    assert_eq!(approval.expires_at, "1600");
    assert_eq!(approval.approval_id.len(), 36);
    assert_eq!(w.plans[0].plan.state, PlanState::Approved);
    assert!(w.check_apply(&plan.plan_id, &approval.approval_id, &plan.plan_hash, 1600).is_ok());
    assert_eq!(
        w.check_apply(&plan.plan_id, &approval.approval_id, &plan.plan_hash, 1601).unwrap_err().code,
        ErrorCode::ApprovalExpired
    );
    assert_eq!(
        w.check_apply(&plan.plan_id, "other-approval", &plan.plan_hash, 1000).unwrap_err().code,
        ErrorCode::ApprovalExpired
    );

    let (name, parent, adapter) = w.finish_apply(&plan.plan_id, &preview).unwrap();
    assert_eq!(name, format!("enc.base64-{}", &preview.candidate_sha256[..8]));
    assert_eq!(parent, art.artifact_id);
    assert_eq!(adapter, "enc.base64");
    w.record_applied(&plan.plan_id);
    assert_eq!(w.tries, 1);
    assert_eq!(w.depth, 1);
    assert_eq!(w.plans[0].plan.state, PlanState::Applied);
}

#[test]
fn stale_hash_invalidates_the_plan() {
    let (mut w, art) = lesson_session();
    let finding_id = w.analysis.as_ref().unwrap().findings[0].id.clone();
    let plan = w.plan_from_finding(&art.artifact_id, &finding_id, None).unwrap();
    let err = w.approve_plan(&plan.plan_id, "not-the-hash", 10).unwrap_err();
    assert_eq!(err.code, ErrorCode::PlanStale);
    assert_eq!(w.plans[0].plan.state, PlanState::Invalidated);
    let err = w.check_apply(&plan.plan_id, "x", "not-the-hash", 10).unwrap_err();
    assert_eq!(err.code, ErrorCode::PlanStale);
    let err = w.check_apply(&plan.plan_id, "x", &plan.plan_hash, 10).unwrap_err();
    assert_eq!(err.code, ErrorCode::ApprovalExpired);
    let err = w.check_apply("no-such-plan", "x", "y", 10).unwrap_err();
    assert_eq!(err.code, ErrorCode::NotFound);
}

#[test]
fn approval_before_preview_is_refused() {
    let (mut w, art) = lesson_session();
    let finding_id = w.analysis.as_ref().unwrap().findings[0].id.clone();
    let plan = w.plan_from_finding(&art.artifact_id, &finding_id, None).unwrap();
    let err = w.approve_plan(&plan.plan_id, &plan.plan_hash, 10).unwrap_err();
    assert_eq!(err.code, ErrorCode::PlanStale);
    assert_eq!(w.plans[0].plan.state, plan.state);
}

#[test]
fn approval_stamps_expire_after_their_time() {
    assert!(!expired("1600", 1600));
    assert!(expired("1600", 1601));
    assert!(expired("not a number", 1));
    assert!(!expired("not a number", 0));
}

#[test]
fn jobs_need_the_sandbox() {
    assert_eq!(require_sandbox(&unsupported_platform("linux")).unwrap_err().code, ErrorCode::SandboxUnavailable);
    assert!(require_sandbox(&IsolationDiagnosis::ok("windows", vec![])).is_ok());
}

#[test]
fn analysis_answers_must_carry_an_analysis() {
    let req = WorkerRequest::analyze("art", "job");
    let resp = dispatch(&req, b"Hello, UNVEIL!", None);
    let a = analysis_of(resp).unwrap();
    assert_eq!(a.artifact_id, "art");
    let req = WorkerRequest::self_test(None);
    let report = unveil::isolation::IsolationSelfTestReport {
        child_spawn_denied: true,
        network_denied: true,
        extra_read_denied: true,
        extra_write_denied: true,
        notes: vec![],
    };
    let resp = dispatch(&req, b"", Some(report));
    assert_eq!(analysis_of(resp).unwrap_err().code, ErrorCode::WorkerCrashed);
}

#[test]
fn selections_are_taken_once() {
    let mut s = Selections::new();
    let pending = PendingSelection {
        path: "/tmp/a.js".to_string(),
        len: 3,
        modified: None,
        display_name: "a.js".to_string(),
        kind_hint: "js".to_string(),
    };
    s.register("tok-1".to_string(), pending.clone());
    s.register("tok-2".to_string(), pending.clone());
    let mut second = pending.clone();
    second.len = 9;
    s.register("tok-1".to_string(), second);
    assert_eq!(s.entries.len(), 2);
    assert_eq!(s.take("tok-1").unwrap().len, 9);
    let err = s.take("tok-1").unwrap_err();
    assert_eq!(err.code, ErrorCode::InputNotRegular);
    assert_eq!(err.message_key, "error.selection_expired");
    assert_eq!(s.take("tok-2").unwrap().len, 3);
}

#[test]
fn smoke_scenarios() {
    let hello = analyze("h", "j", b"Hello, UNVEIL!");
    assert_eq!(hello.assessment, Assessment::NoIndicators);
    let concat = analyze("c", "j", b"const a = \"He\" + \"llo\";\n");
    assert_eq!(concat.assessment, Assessment::IndicatorsPresent);
    let mut pe = vec![b'M', b'Z'];
    pe.extend(std::iter::repeat(0u8).take(64));
    let pe_a = analyze("p", "j", &pe);
    assert_eq!(pe_a.coverage.status, CoverageStatus::Unsupported);
    assert_eq!(pe_a.assessment, Assessment::Inconclusive);
    let lesson = analyze("l", "j", LESSON_JS);
    assert_ne!(lesson.assessment, Assessment::IndicatorsPresent);
    let report = build_report("s", Some(&lesson), false, "{}".to_string());
    assert!(!report.html.contains("<script"));
    assert!(!report.included_original);
}

#[test]
fn worker_output_reads_back() {
    use_worker_output_round_trip(b"");
    use_worker_output_round_trip(b"a");
    use_worker_output_round_trip(b"ab");
    use_worker_output_round_trip(b"abc");
    use_worker_output_round_trip(&[0xff, 0x00, 0xfb, 0x10, 0x80]);
}

fn use_worker_output_round_trip(data: &[u8]) {
    let text = encode_b64(data, false, true);
    assert_eq!(decode_worker_b64(&text).unwrap(), data.to_vec());
}

#[test]
fn invalidated_plan_refuses_an_earlier_approval() {
    let (mut w, art) = lesson_session();
    let finding_id = w
        .analysis
        .as_ref()
        .unwrap()
        .findings
        .iter()
        .find(|f| f.technique_id == "enc.base64")
        .map(|f| f.id.clone())
        .expect("base64 finding");
    let plan = w.plan_from_finding(&art.artifact_id, &finding_id, None).unwrap();
    let input = w.transform_request(&plan.plan_id).unwrap();
    let req = WorkerRequest::transform(&input.artifact_id, "job-2", &input.adapter_id, input.finding.clone());
    let resp = dispatch(&req, LESSON_JS, None);
    w.accept_transform(&plan.plan_id, resp).unwrap();
    let approval = w.approve_plan(&plan.plan_id, &plan.plan_hash, 1000).unwrap();
    assert!(w.check_apply(&plan.plan_id, &approval.approval_id, &plan.plan_hash, 1000).is_ok());
    let err = w.approve_plan(&plan.plan_id, "not-the-hash", 1000).unwrap_err();
    assert_eq!(err.code, ErrorCode::PlanStale);
    assert_eq!(w.plans[0].plan.state, PlanState::Invalidated);
    let err = w.check_apply(&plan.plan_id, &approval.approval_id, &plan.plan_hash, 1000).unwrap_err();
    assert_eq!(err.code, ErrorCode::PlanStale);
}

use unveil::analysis::{Assessment, ByteRange, Finding, Identification, Score, Transformability};
use unveil::error::ErrorCode;
use unveil::isolation::IsolationSelfTestReport;
use unveil::protocol::{dispatch, needs_self_test, read_body, read_frame, write_frame, FrameError, WorkerRequest};
use unveil::protocol::{worker_reply, WaitOutcome};

fn b64_finding(start: u64, end: u64) -> Finding {
    Finding {
        id: "f".to_string(),
        artifact_id: "a".to_string(),
        technique_id: "enc.base64".to_string(),
        category: "encoding".to_string(),
        range: ByteRange::new(start, end),
        identification: Identification::Confirmed,
        score: Score { value: 80, kind: "rule_match".to_string(), rule_version: "1.0.0".to_string() },
        evidence: vec![],
        transformability: Transformability::Supported,
        limitations: vec![],
        article_id: "wiki.enc.base64.ja".to_string(),
    }
}

#[test]
fn analyze_hello_text() {
    let req = WorkerRequest::analyze("a", "j");
    let resp = dispatch(&req, b"Hello, UNVEIL!", None);
    assert!(resp.ok);
    let analysis = resp.analysis.expect("analysis");
    assert_eq!(analysis.assessment, Assessment::NoIndicators);
}

#[test]
fn worker_refuses_other_schema_and_ops() {
    let mut req = WorkerRequest::analyze("a", "j");
    req.schema_version = "0.9".to_string();
    let resp = dispatch(&req, b"x", None);
    assert!(!resp.ok);
    let e = resp.error.unwrap();
    assert_eq!((e.code, e.message_key.as_str()), (ErrorCode::SchemaMismatch, "error.schema_mismatch"));
    let mut req = WorkerRequest::analyze("a", "j");
    req.op = "explode".to_string();
    let resp = dispatch(&req, b"x", None);
    assert_eq!(resp.error.unwrap().message_key, "error.unknown_op");
    assert_eq!(resp.op, "explode");
}

#[test]
fn worker_transform_returns_output() {
    let req = WorkerRequest::transform("a", "j", "enc.base64", b64_finding(0, 8));
    let resp = dispatch(&req, b"SGVsbG8=", None);
    assert!(resp.ok);
    assert_eq!(resp.output_len, Some(5));
    assert_eq!(resp.output_b64.as_deref(), Some("SGVsbG8="));
    assert_eq!(
        resp.output_sha256.as_deref(),
        Some("185f8db32271fe25f561a6fc938b2e264306ec304eda518007d1764826381969")
    );
    assert!(resp.preview.is_some());
    let mut req = WorkerRequest::transform("a", "j", "enc.base64", b64_finding(0, 8));
    req.finding = None;
    let resp = dispatch(&req, b"SGVsbG8=", None);
    assert_eq!(resp.error.unwrap().message_key, "error.missing_finding");
    let req = WorkerRequest::transform("a", "j", "enc.nothing", b64_finding(0, 8));
    let resp = dispatch(&req, b"SGVsbG8=", None);
    assert!(!resp.ok);
    assert_eq!(resp.error.unwrap().code, ErrorCode::AdapterUnsupported);
}

#[test]
fn worker_self_test_passes_report_through() {
    let req = WorkerRequest::self_test(Some("canary".to_string()));
    assert!(needs_self_test(&req));
    let report = IsolationSelfTestReport {
        child_spawn_denied: true,
        network_denied: true,
        extra_read_denied: false,
        extra_write_denied: true,
        notes: vec!["n".to_string()],
    };
    let resp = dispatch(&req, b"", Some(report.clone()));
    assert!(resp.ok);
    assert_eq!(resp.self_test, Some(report));
    assert!(!needs_self_test(&WorkerRequest::analyze("a", "j")));
}

#[test]
fn frames_round_trip() {
    let frame = write_frame(b"hello").unwrap();
    assert_eq!(frame, vec![5, 0, 0, 0, b'h', b'e', b'l', b'l', b'o']);
    let (body, used) = read_frame(&frame, 16).unwrap();
    assert_eq!(body, b"hello");
    assert_eq!(used, 9);
    let big = vec![0u8; 300];
    let frame = write_frame(&big).unwrap();
    assert_eq!(&frame[..4], &[44, 1, 0, 0]);
    assert_eq!(read_body(&frame).unwrap().0, big);
}

#[test]
fn frames_refuse_short_and_large() {
    assert_eq!(read_frame(&[1, 0], 10), Err(FrameError::Truncated));
    assert_eq!(read_frame(&[5, 0, 0, 0, 1], 10), Err(FrameError::Truncated));
    assert_eq!(read_frame(&[11, 0, 0, 0], 10), Err(FrameError::TooLarge));
    let big = vec![0u8; 8 * 1024 * 1024 + 1];
    assert_eq!(write_frame(&big), Err(FrameError::TooLarge));
}

#[test]
fn worker_reply_frames() {
    let framed = write_frame(b"{\"ok\":true}").unwrap();
    assert_eq!(worker_reply(WaitOutcome::Exited, &framed).unwrap(), b"{\"ok\":true}".to_vec());
    assert_eq!(worker_reply(WaitOutcome::TimedOut, &framed).unwrap_err().code, ErrorCode::LimitReached);
    assert_eq!(worker_reply(WaitOutcome::Failed, &framed).unwrap_err().code, ErrorCode::WorkerCrashed);
    assert_eq!(worker_reply(WaitOutcome::Exited, &[1, 0]).unwrap_err().code, ErrorCode::WorkerCrashed);
    assert_eq!(worker_reply(WaitOutcome::Exited, &[0, 0, 0, 0]).unwrap_err().code, ErrorCode::SchemaMismatch);
    assert_eq!(worker_reply(WaitOutcome::Exited, &[0, 0, 0x81, 0]).unwrap_err().code, ErrorCode::SchemaMismatch);
    assert_eq!(worker_reply(WaitOutcome::Exited, &framed[..framed.len() - 1]).unwrap_err().code, ErrorCode::WorkerCrashed);
}

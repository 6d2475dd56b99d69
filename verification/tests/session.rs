use unveil::capabilities::{
    capability_of, cursor_root, diagnose_module, docker_capability, isolation_capability, magika_capability,
    required_for_jobs, unknown_capability, usb_capability, Capability,
};
use unveil::error::{ErrorCode, IpcError};
use unveil::import::{
    check_selection, check_unchanged, copy_done, copy_step, display_name, kind_hint, preview_from_pending,
    snapshot_record, PendingSelection,
};
use unveil::info::MAX_INPUT_BYTES;
use unveil::isolation::{after_self_test, unsupported_platform, worker_missing, IsolationSelfTestReport};
use unveil::modules::{CapabilityCheck, ModuleSpec};

fn pending(len: u64) -> PendingSelection {
    PendingSelection {
        path: "/tmp/specimen.js".to_string(),
        len,
        modified: Some(42),
        display_name: "specimen.js".to_string(),
        kind_hint: "js".to_string(),
    }
}

fn module(id: &str, capabilities: &[&str]) -> ModuleSpec {
    ModuleSpec {
        id: id.to_string(),
        label_ja: id.to_string(),
        label_en: None,
        route: format!("/{}", id),
        capabilities: capabilities.iter().map(|c| c.to_string()).collect(),
        status: "mvp".to_string(),
        worker: None,
        test_probes: vec![],
    }
}

fn check(id: &str, available: bool) -> CapabilityCheck {
    CapabilityCheck { id: id.to_string(), available, detail: String::new() }
}

#[test]
fn rejects_directory() {
    let err = check_selection(false, true, false, 0).expect_err("dir");
    assert_eq!(err.code, ErrorCode::InputNotRegular);
}

#[test]
fn selection_checks_links_and_size() {
    assert_eq!(check_selection(true, false, true, 1).unwrap_err().code, ErrorCode::InputNotRegular);
    assert_eq!(check_selection(false, false, true, MAX_INPUT_BYTES + 1).unwrap_err().code, ErrorCode::InputTooLarge);
    assert!(check_selection(false, false, true, MAX_INPUT_BYTES).is_ok());
}

#[test]
fn names_and_kinds_of_picked_files() {
    assert_eq!(kind_hint("Specimen.JS"), "js");
    assert_eq!(kind_hint("README"), "unknown");
    assert_eq!(display_name(None), "unnamed");
    assert_eq!(display_name(Some("a.txt")), "a.txt");
    assert_eq!(display_name(Some(&"x".repeat(300))).len(), 255);
}

#[test]
fn copying_stays_within_the_picked_length() {
    let p = pending(10);
    assert!(check_unchanged(10, Some(42), &p).is_ok());
    assert_eq!(check_unchanged(11, Some(42), &p).unwrap_err().code, ErrorCode::InputChanged);
    assert_eq!(check_unchanged(10, None, &p).unwrap_err().code, ErrorCode::InputChanged);
    assert_eq!(copy_step(4, 6, 10), Ok(10));
    assert_eq!(copy_step(4, 7, 10).unwrap_err().code, ErrorCode::InputTooLarge);
    assert_eq!(copy_step(0, MAX_INPUT_BYTES + 1, u64::MAX).unwrap_err().code, ErrorCode::InputTooLarge);
    assert!(copy_done(10, 10).is_ok());
    assert_eq!(copy_done(9, 10).unwrap_err().code, ErrorCode::InputChanged);
}

#[test]
fn snapshot_record_keeps_the_pick() {
    let p = pending(35);
    let preview = preview_from_pending("tok".to_string(), &p);
    assert_eq!(preview.byte_length, 35);
    assert_eq!(preview.kind_hint, "js");
    let a = snapshot_record(&p, "ab".repeat(32), "session-test");
    assert_eq!(a.byte_length, 35);
    assert_eq!(a.sha256.len(), 64);
    assert_eq!(a.session_id, "session-test");
    assert_eq!(a.artifact_id.len(), 36);
}

#[test]
fn self_test_decides_isolation() {
    let report = IsolationSelfTestReport {
        child_spawn_denied: true,
        network_denied: true,
        extra_read_denied: true,
        extra_write_denied: true,
        notes: vec!["a".to_string(), "b".to_string()],
    };
    let d = after_self_test("windows", "w.exe", Ok(Some(report.clone())));
    assert!(d.available);
    assert_eq!(d.error_code, None);
    assert_eq!(d.checks.len(), 5);
    assert_eq!(d.checks[1].detail, "a | b");
    let mut leaky = report;
    leaky.network_denied = false;
    let d = after_self_test("windows", "w.exe", Ok(Some(leaky)));
    assert!(!d.available);
    assert_eq!(d.error_code, Some(ErrorCode::SandboxUnavailable));
    let d = after_self_test("windows", "w.exe", Ok(None));
    assert!(!d.available);
    assert_eq!(d.checks[1].id, "self_test_report");
    let err = IpcError { code: ErrorCode::WorkerCrashed, message_key: "error.worker_crashed".to_string() };
    let d = after_self_test("windows", "w.exe", Err(err));
    assert!(!d.available);
    assert_eq!(d.checks[1].detail, "error.worker_crashed (WorkerCrashed)");
}

#[test]
fn fail_closed_diagnoses() {
    let d = unsupported_platform("linux");
    assert!(!d.available);
    assert_eq!(d.checks[0].id, "os_namespaces");
    let d = worker_missing("windows", "missing.exe");
    assert_eq!(d.checks.len(), 2);
    assert_eq!(d.checks[0].detail, "missing.exe");
    let c = isolation_capability(&d);
    assert!(!c.available);
    assert_eq!(c.detail, "SandboxUnavailable");
}

#[test]
fn capability_checks() {
    assert_eq!(capability_of("C_docker"), Some(Capability::Docker));
    assert_eq!(capability_of("C_nothing"), None);
    assert!(!unknown_capability("C_nothing").available);
    let c = docker_capability(true, true, "ghidra:1");
    assert!(c.available);
    assert_eq!(c.detail, "docker info ok; image ghidra:1 present");
    assert!(!docker_capability(false, true, "ghidra:1").available);
    assert_eq!(usb_capability(false).detail, "USB enumeration is Windows-only");
    assert!(!magika_capability(false, None).available);
    assert!(!magika_capability(true, None).available);
    assert!(magika_capability(true, Some("{\"status\": \"ok\"}")).available);
    assert!(!magika_capability(true, Some("{\"status\": \"error\"}")).available);
}

#[test]
fn module_diagnosis_follows_required_capabilities() {
    let modules = vec![
        module("dashboard", &[]),
        module("deobfuscation", &["C_isolation", "C_magika"]),
        module("malware", &["C_isolation", "C_docker"]),
        module("custom", &["C_yara"]),
    ];
    assert_eq!(required_for_jobs(&modules[2]), vec!["C_isolation", "C_sidecar_malcheck"]);
    assert_eq!(required_for_jobs(&modules[3]), vec!["C_yara"]);
    let d = diagnose_module(&modules, "deobfuscation", vec![check("C_isolation", true), check("C_magika", false)], &vec![])
        .unwrap();
    assert!(d.available);
    let d = diagnose_module(
        &modules,
        "malware",
        vec![check("C_isolation", true), check("C_docker", true)],
        &vec![check("C_sidecar_malcheck", false)],
    )
        .unwrap();
    assert!(!d.available);
    assert!(diagnose_module(&modules, "dashboard", vec![], &vec![]).unwrap().available);
    assert_eq!(diagnose_module(&modules, "nope", vec![], &vec![]).unwrap_err(), "unknown module nope");
}

#[test]
fn sibling_directory_is_the_root_parent() {
    assert_eq!(cursor_root("/home/u/repo"), "/home/u");
    assert_eq!(cursor_root("work/repo"), "work");
    assert_eq!(cursor_root("repo"), "");
    assert_eq!(cursor_root("/"), "/");
    assert_eq!(cursor_root(""), "");
}

use unveil::capabilities::{check_capability, CapabilityFact};
use unveil::engine::analyze;
use unveil::error::ErrorCode;
use unveil::isolation::unsupported_platform;
use unveil::markdown::{deobfuscation_markdown, module_job_markdown};
use unveil::modules::{magika_unavailable, module_disabled, probe_bytes, ModuleJob};
use unveil::sidecar::{
    dynamic_skipped, folder_mode_setting, malcheck_job, report_line, scan_outcome, schema_is_21, usb_scan_args,
    JsonField, SidecarPayload, UsbScanOptions,
};

fn payload() -> SidecarPayload {
    SidecarPayload {
        text: "{\"ok\":true}".to_string(),
        ok: JsonField::Flag(true),
        report_schema_version: JsonField::Text("2.1".to_string()),
        meta_schema_version: JsonField::Missing,
        report_dynamic_status: Some(JsonField::Text("skipped".to_string())),
        dynamic_status: None,
        report_sha256: JsonField::Missing,
        sha256: JsonField::Text("ab".repeat(32)),
    }
}

#[test]
fn scan_arguments_clamp_workers() {
    let args = usb_scan_args("E:\\", &UsbScanOptions { workers: 0, folder_mode: false });
    assert_eq!(args, vec!["--root", "E:\\", "--readonly", "--workers", "1"]);
    let args = usb_scan_args("/mnt/usb", &UsbScanOptions { workers: 32, folder_mode: true });
    assert_eq!(args, vec!["--root", "/mnt/usb", "--readonly", "--workers", "8", "--folder-mode"]);
    let args = usb_scan_args("/mnt/usb", &UsbScanOptions { workers: 4, folder_mode: false });
    assert_eq!(args[4], "4");
    assert!(folder_mode_setting(Some("1")));
    assert!(!folder_mode_setting(Some("true")));
    assert!(!folder_mode_setting(None));
}

#[test]
fn report_line_is_the_last_json_object() {
    let out = "starting\n  {\"first\": 1}\nnoise\r\n{\"ok\": true}\r\ntrailer\n";
    assert_eq!(report_line(out), Some("{\"ok\": true}".to_string()));
    assert_eq!(report_line("no json here\n"), None);
    assert_eq!(report_line(""), None);
    assert_eq!(report_line("{\"only\": 1}"), Some("{\"only\": 1}".to_string()));
}

#[test]
fn report_schema_and_dynamic_phase() {
    let mut p = payload();
    assert!(schema_is_21(&p));
    assert!(dynamic_skipped(&p));
    p.report_schema_version = JsonField::Missing;
    p.meta_schema_version = JsonField::Text("2.1".to_string());
    assert!(schema_is_21(&p));
    p.report_schema_version = JsonField::Other;
    assert!(!schema_is_21(&p));
    p.report_dynamic_status = Some(JsonField::Missing);
    p.dynamic_status = Some(JsonField::Text("skipped".to_string()));
    assert!(!dynamic_skipped(&p));
    p.report_dynamic_status = None;
    assert!(dynamic_skipped(&p));
}

#[test]
fn scan_outcomes() {
    assert_eq!(scan_outcome(None, true).unwrap_err().code, ErrorCode::SchemaMismatch);
    let mut refused = payload();
    refused.ok = JsonField::Flag(false);
    assert_eq!(scan_outcome(Some(refused), true).unwrap_err().code, ErrorCode::ModuleUnavailable);
    assert_eq!(scan_outcome(Some(payload()), false).unwrap_err().code, ErrorCode::WorkerCrashed);
    assert_eq!(scan_outcome(Some(payload()), true).unwrap(), payload());
}

#[test]
fn malcheck_jobs() {
    assert_eq!(malcheck_job(false, Some(payload())).unwrap_err().code, ErrorCode::ModuleUnavailable);
    assert_eq!(malcheck_job(true, None).unwrap_err().code, ErrorCode::WorkerCrashed);
    let mut old_schema = payload();
    old_schema.report_schema_version = JsonField::Text("2.0".to_string());
    assert_eq!(malcheck_job(true, Some(old_schema)).unwrap_err().code, ErrorCode::SchemaMismatch);
    let job = malcheck_job(true, Some(payload())).unwrap();
    assert_eq!(job.module_id, "malware");
    assert_eq!(job.status, "completed");
    assert_eq!(job.sha256, Some("ab".repeat(32)));
    assert_eq!(job.payload, "{\"ok\":true}");
    assert_eq!(job.job_id.len(), 36);
    let mut surface = payload();
    surface.report_sha256 = JsonField::Text("cd".repeat(32));
    assert_eq!(malcheck_job(true, Some(surface)).unwrap().sha256, Some("cd".repeat(32)));
}

#[test]
fn capability_from_facts() {
    let c = check_capability("C_isolation", &CapabilityFact::Isolation(unsupported_platform("linux")));
    assert!(!c.available);
    assert_eq!(c.detail, "SandboxUnavailable");
    let c = check_capability("C_yara", &CapabilityFact::Present(true));
    assert_eq!(c.id, "C_yara");
    assert_eq!(c.detail, "bundled eicar.yar present");
    let c = check_capability("C_sidecar_usb", &CapabilityFact::Present(false));
    assert_eq!(c.detail, "usb sidecar or UGD pipeline missing");
    let c = check_capability("C_other", &CapabilityFact::Unknown);
    assert_eq!(c.id, "C_other");
    assert_eq!(c.detail, "unknown capability");
    let c = check_capability(
        "C_magika",
        &CapabilityFact::Magika { script_present: true, output: Some("{\"status\": \"ok\"}".to_string()) },
    );
    assert!(c.available);
    assert_eq!(c.detail, "Magika model loaded");
}

#[test]
fn content_probe_of_bytes() {
    let p = probe_bytes("art", "notes.TXT", b"MZ\x90\x00", magika_unavailable());
    assert_eq!(p.declared_extension, "txt");
    assert_eq!(p.magic_hint, "PE32 executable");
    assert_eq!(p.mismatch_flags, vec!["extension_vs_magic".to_string()]);
    assert!(p.ghidra_eligible);
    assert_eq!(p.probe_id.len(), 36);
    let p = probe_bytes("art", "app.js", b"MZ", magika_unavailable());
    assert!(!p.ghidra_eligible);
    assert!(module_disabled("planned"));
    assert!(module_disabled("disabled"));
    assert!(!module_disabled("mvp"));
}

#[test]
fn deobfuscation_summary() {
    let analysis = analyze("art", "job", b"SGVsbG8sIFVOVkVJTCE=");
    let probe = probe_bytes("art", "hello.b64", b"SGVsbG8sIFVOVkVJTCE=", magika_unavailable());
    let md = deobfuscation_markdown("hello.b64", "abc", &analysis, Some(&probe));
    assert!(md.starts_with("# 難読化判定レポート\n\n"));
    assert!(md.contains("- 表示名: `hello.b64`\n- SHA-256: `abc`\n"));
    assert!(md.contains("- 拡張子: `b64` / magic: `ASCII text` / Magika: `unavailable`\n"));
    assert!(md.contains(&format!("| {:?} | {:?} | {} |", analysis.coverage.status, analysis.assessment, analysis.findings.len())));
    assert!(md.contains("- `enc.base64` identification="));
    assert!(md.ends_with("\n\n"));
    let plain = deobfuscation_markdown("x", "y", &analysis, None);
    assert!(!plain.contains("拡張子"));
}

#[test]
fn module_job_summary() {
    let job = ModuleJob {
        job_id: "j1".to_string(),
        module_id: "malware".to_string(),
        input_artifact_id: None,
        sha256: None,
        status: "completed".to_string(),
        payload: "{\"a\":1}".to_string(),
    };
    assert_eq!(
        module_job_markdown(&job),
        "# malware レポート\n\n- job_id: `j1`\n- status: completed\n- sha256: -\n\n```json\n{\n  \"a\": 1\n}\n```\n"
    );
    let mut broken = job.clone();
    broken.payload = "not json".to_string();
    broken.sha256 = Some("ff".to_string());
    assert!(module_job_markdown(&broken).ends_with("- sha256: ff\n\n```json\n{}\n```\n"));
}

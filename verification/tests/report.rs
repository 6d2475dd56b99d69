use unveil::engine::analyze;
use unveil::report::{build_report, html_report, push_escaped};

#[test]
fn escaping_covers_markup_characters() {
    let mut out = String::from("x");
    push_escaped(&mut out, "<a href=\"q\">&</a>");
    assert_eq!(out, "x&lt;a href=&quot;q&quot;&gt;&amp;&lt;/a&gt;");
}

#[test]
fn report_without_analysis_is_head_and_json() {
    let html = html_report("{\"k\":1}", None);
    assert!(html.starts_with("<!DOCTYPE html><html lang=\"ja\">"));
    assert!(html.ends_with("<pre>{&quot;k&quot;:1}</pre></body></html>"));
    assert!(!html.contains("<ul>"));
}

#[test]
fn report_lists_findings() {
    let analysis = analyze("art", "job", b"SGVsbG8sIFVOVkVJTCE=");
    let html = html_report("{}", Some(&analysis));
    assert!(html.contains("<p>assessment="));
    assert!(html.contains(&format!("findings={}</p><ul>", analysis.findings.len())));
    assert!(html.contains("<li>enc.base64 "));
}

#[test]
fn report_never_holds_a_script_tag() {
    let mut analysis = analyze("art", "job", b"Hello, UNVEIL!");
    if let Some(f) = analysis.findings.first_mut() {
        f.technique_id = "<script>".to_string();
    }
    let doc = build_report("session", Some(&analysis), false, "{\"x\":\"<script>alert(1)</script>\"}".to_string());
    assert!(!doc.html.contains("<script"));
    assert!(doc.html.contains("&lt;script&gt;alert(1)&lt;/script&gt;"));
}

#[test]
fn report_records_redactions() {
    let doc = build_report("session-1", None, false, "{}".to_string());
    assert_eq!(doc.session_id, "session-1");
    assert_eq!(doc.format, "json+html");
    assert_eq!(doc.report_id.len(), 36);
    assert!(!doc.included_original);
    assert!(!doc.included_bodies);
    assert_eq!(doc.redactions, vec!["original_path", "raw_excerpt_default", "hash_optional", "artifact_bodies"]);
    assert_eq!(doc.reproducibility_gaps.len(), 2);
    let with_bodies = build_report("session-1", None, true, "{}".to_string());
    assert_eq!(with_bodies.redactions, vec!["original_path", "raw_excerpt_default", "hash_optional"]);
    assert_eq!(with_bodies.reproducibility_gaps.len(), 1);
}

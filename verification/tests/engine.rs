use std::io::Write;

use unveil::analysis::{Assessment, ByteRange, CoverageStatus, Finding, Identification, Score, Transformability};
use unveil::engine::{analyze, preview_from_finding, sha256_hex, validate_adapter};
use unveil::error::ErrorCode;
use unveil::info::RULE_VERSION;
use unveil::plan::{TransformResultKind, ValidationVerdict};
use unveil::transform::{apply_adapter, reencode_range};
use unveil::detect::detect;
use unveil::probe::probe;

fn gzip(data: &[u8], level: flate2::Compression) -> Vec<u8> {
    let mut encoder = flate2::write::GzEncoder::new(Vec::new(), level);
    encoder.write_all(data).unwrap();
    encoder.finish().unwrap()
}

fn finding_at(technique: &str, start: u64, end: u64) -> Finding {
    Finding {
        id: "f".to_string(),
        artifact_id: "a".to_string(),
        technique_id: technique.to_string(),
        category: "encoding".to_string(),
        range: ByteRange::new(start, end),
        identification: Identification::Confirmed,
        score: Score { value: 90, kind: "rule_match".to_string(), rule_version: RULE_VERSION.to_string() },
        evidence: vec![],
        transformability: Transformability::Supported,
        limitations: vec![],
        article_id: "wiki.enc.base64.ja".to_string(),
    }
}

#[test]
fn base64_hello_is_probable_or_confirmed() {
    let input = b"SGVsbG8sIFVOVkVJTCE=";
    let result = analyze("art", "job", input);
    let hit = result.findings.iter().find(|f| f.technique_id == "enc.base64").expect("base64");
    assert!(matches!(hit.identification, Identification::Confirmed | Identification::Probable));
    assert_ne!(result.assessment, Assessment::IndicatorsPresent);
}

#[test]
fn hello_text_has_no_indicators() {
    let result = analyze("art", "job", b"Hello, UNVEIL!");
    assert_eq!(result.assessment, Assessment::NoIndicators);
    assert!(result.findings.iter().all(|f| f.technique_id != "enc.base64" || f.score.value < 30));
}

#[test]
fn pe_magic_is_inconclusive_unsupported() {
    let mut bytes = vec![b'M', b'Z'];
    bytes.extend(std::iter::repeat(0u8).take(64));
    let result = analyze("art", "job", &bytes);
    assert_eq!(result.coverage.status, CoverageStatus::Unsupported);
    assert_eq!(result.assessment, Assessment::Inconclusive);
    assert_eq!(result.probe_kind, "pe");
}

#[test]
fn gzip_round_trip_fixture() {
    let gz = gzip(b"Hello, UNVEIL!", flate2::Compression::default());
    let result = analyze("art", "job", &gz);
    assert_eq!(result.probe_kind, "gzip");
    let finding = result.findings.iter().find(|f| f.technique_id == "compression.gzip").expect("gzip");
    let out = apply_adapter(&gz, finding, "compression.gzip").unwrap();
    assert_eq!(out.bytes, b"Hello, UNVEIL!");
}

#[test]
fn literal_concat_rewrites_only_strings() {
    let src = b"const a = \"He\" + \"llo\";\n";
    let result = analyze("art", "job", src);
    let finding = result.findings.iter().find(|f| f.technique_id == "data.literal-concat").expect("concat");
    let out = apply_adapter(src, finding, "data.literal-concat").unwrap();
    let text = String::from_utf8(out.bytes).unwrap();
    assert!(text.contains("\"Hello\""));
    assert!(!text.contains("\"He\" + \"llo\""));
}

#[test]
fn gzip_bomb_hits_limit() {
    let huge = vec![0u8; 2 * 1024 * 1024];
    let gz = gzip(&huge, flate2::Compression::best());
    if (gz.len() as u64) * 100 < huge.len() as u64 {
        let mut finding = finding_at("compression.gzip", 0, gz.len() as u64);
        finding.category = "compression".to_string();
        finding.article_id = "wiki.compression.gzip.ja".to_string();
        let err = apply_adapter(&gz, &finding, "compression.gzip").unwrap_err();
        assert_eq!(err.code, ErrorCode::LimitReached);
    }
}

#[test]
fn analysis_reports_versions_and_limitations() {
    let result = analyze("art", "job", b"Hello, UNVEIL!");
    assert_eq!(result.job_id, "job");
    assert_eq!(result.artifact_id, "art");
    assert_eq!(result.probe_kind, "utf8");
    assert_eq!(result.versions.schema_version, "1.0");
    assert_eq!(result.versions.profile, "static-safe-v1");
    assert_eq!(
        result.limitations,
        vec![
            "Detection is not a safety verdict.".to_string(),
            "Encoding success is not decryption or deobfuscation of intent.".to_string()
        ]
    );
    assert_eq!(result.text_preview, "Hello, UNVEIL!");
    assert_eq!(result.coverage.status, CoverageStatus::Full);
    assert_eq!(result.coverage.checked_rules.len(), 8);
}

#[test]
fn analysis_features_are_exact_ratios() {
    let result = analyze("art", "job", b"ab\ncd\n\x01");
    let len = &result.features[0];
    assert_eq!((len.id.as_str(), len.numerator, len.denominator), ("len", 7, 1));
    let printable = &result.features[1];
    assert_eq!((printable.id.as_str(), printable.numerator, printable.denominator), ("printable", 6, 7));
    let avg = &result.features[2];
    assert_eq!((avg.id.as_str(), avg.numerator, avg.denominator), ("avg-line", 5, 3));
}

#[test]
fn findings_come_sorted_by_technique_then_start() {
    let src = b"var x = \"\\x41\\x42\\x43\\x44\"; var y = \"He\" + \"llo\"; eval(y); SGVsbG8sIFVOVkVJTCE=";
    let result = analyze("art", "job", src);
    assert!(result.findings.len() >= 3);
    for pair in result.findings.windows(2) {
        let a = &pair[0];
        let b = &pair[1];
        assert!(a.technique_id < b.technique_id || (a.technique_id == b.technique_id && a.range.start <= b.range.start));
    }
    assert_eq!(result.assessment, Assessment::IndicatorsPresent);
}

#[test]
fn elf_and_unknown_binary_have_no_findings() {
    let elf = [0x7fu8, b'E', b'L', b'F', 0, 0, 0, 0];
    let r = analyze("a", "j", &elf);
    assert_eq!(r.probe_kind, "elf");
    assert!(r.findings.is_empty());
    assert_eq!(r.coverage.status, CoverageStatus::Unsupported);
    assert_eq!(r.coverage.inspected_bytes, 8);
    let junk = [0xffu8, 0x00, 0xc3, 0x28];
    let r = analyze("a", "j", &junk);
    assert_eq!(r.probe_kind, "unknown-binary");
    assert!(r.findings.is_empty());
    assert_eq!(r.assessment, Assessment::Inconclusive);
}

#[test]
fn sha256_hex_of_abc() {
    assert_eq!(sha256_hex(b"abc"), "ba7816bf8f01cfea414140de5dae2223b00361a396177a9cb410ff61f20015ad");
}

#[test]
fn adapter_rejects_bad_range() {
    let f = finding_at("enc.base64", 5, 2);
    let err = apply_adapter(b"abcdefgh", &f, "enc.base64").unwrap_err();
    assert_eq!((err.code, err.message_key.as_str()), (ErrorCode::ParseFailed, "error.range"));
    let f = finding_at("enc.base64", 0, 9);
    let err = apply_adapter(b"abcdefgh", &f, "enc.base64").unwrap_err();
    assert_eq!(err.message_key, "error.range");
}

#[test]
fn adapter_errors_by_kind() {
    let f = finding_at("enc.base64", 0, 4);
    let err = apply_adapter(b"abcd", &f, "enc.rot13").unwrap_err();
    assert_eq!((err.code, err.message_key.as_str()), (ErrorCode::AdapterUnsupported, "error.adapter_unsupported"));
    let err = apply_adapter(&[0xff, 0xfe, 0x41, 0x41], &f, "enc.base64").unwrap_err();
    assert_eq!((err.code, err.message_key.as_str()), (ErrorCode::InvalidEncoding, "error.invalid_encoding"));
    let err = apply_adapter(b"ab!d", &f, "enc.base64").unwrap_err();
    assert_eq!((err.code, err.message_key.as_str()), (ErrorCode::ParseFailed, "error.parse_failed"));
    let err = apply_adapter(b"not gzip", &finding_at("compression.gzip", 0, 8), "compression.gzip").unwrap_err();
    assert_eq!(err.code, ErrorCode::ParseFailed);
    let err = apply_adapter(&[0xffu8, 0xfe], &finding_at("layout.minify", 0, 2), "layout.minify").unwrap_err();
    assert_eq!(err.code, ErrorCode::InvalidEncoding);
}

#[test]
fn adapters_decode_each_encoding() {
    let out = apply_adapter(b"x=48656c6c6f;", &finding_at("enc.base16", 2, 12), "enc.base16").unwrap();
    assert_eq!(out.bytes, b"Hello");
    let out = apply_adapter(b"%48%69", &finding_at("enc.percent", 0, 6), "enc.percent").unwrap();
    assert_eq!(out.bytes, b"Hi");
    let out = apply_adapter(b"SGk", &finding_at("enc.base64url", 0, 3), "enc.base64url").unwrap();
    assert_eq!(out.bytes, b"Hi");
    let out = apply_adapter(b"\"\\x48\\u0069\"", &finding_at("enc.js-escape", 0, 12), "enc.js-escape").unwrap();
    assert_eq!(out.bytes, b"Hi");
    let out = apply_adapter(b"{a;b}", &finding_at("layout.minify", 0, 5), "layout.minify").unwrap();
    assert_ne!(out.bytes, b"{a;b}");
}

#[test]
fn reencode_checks_round_trip() {
    assert_eq!(reencode_range(b"SGVsbG8=", 0, 8, "enc.base64", b"Hello").unwrap(), true);
    assert_eq!(reencode_range(b"SGVsbG8", 0, 7, "enc.base64", b"Hello").unwrap(), true);
    assert_eq!(reencode_range(b"SGVsbG9=", 0, 8, "enc.base64", b"Hello").unwrap(), false);
    assert_eq!(reencode_range(b"48656C6C6F", 0, 10, "enc.base16", b"Hello").unwrap(), true);
    assert_eq!(reencode_range(b"%48%69", 0, 6, "enc.percent", b"Hi").unwrap(), true);
    assert_eq!(reencode_range(b"%4a", 0, 3, "enc.percent", b"J").unwrap(), true);
    assert_eq!(reencode_range(b"%41%42%43%44", 0, 12, "enc.percent", b"ABCD").unwrap(), true);
    assert_eq!(reencode_range(b"%41%42%43%44", 0, 12, "enc.percent", b"A").unwrap(), false);
    assert_eq!(reencode_range(b"%41%42%43%44", 0, 12, "enc.percent", b"").unwrap(), false);
    assert_eq!(reencode_range(b"abc", 0, 3, "layout.minify", b"abc").unwrap(), false);
    let err = reencode_range(&[0xff, 0x41], 0, 2, "enc.base64", b"").unwrap_err();
    assert_eq!(err.code, ErrorCode::InvalidEncoding);
}

#[test]
fn validation_verdicts() {
    let f = finding_at("enc.base64", 0, 8);
    let v = validate_adapter(b"SGVsbG8=", &f, "enc.base64", b"Hello");
    assert_eq!(v.verdict, ValidationVerdict::Passed);
    assert_eq!(v.checks[0].kind, "round_trip");
    let v = validate_adapter(b"SGVsbG8=", &f, "enc.base64", b"Jello");
    assert_eq!(v.verdict, ValidationVerdict::Failed);
    let v = validate_adapter(b"abc", &f, "enc.js-escape", b"x");
    assert_eq!(v.verdict, ValidationVerdict::NotChecked);
    assert_eq!(v.checks[0].detail, "No validator for this adapter.");
    let v = validate_adapter(b"abc", &f, "compression.gzip", b"");
    assert_eq!(v.verdict, ValidationVerdict::Failed);
    let v = validate_adapter(b"abc", &f, "layout.minify", b"");
    assert_eq!(v.verdict, ValidationVerdict::Passed);
    assert_eq!(v.limitations, vec!["Pretty-print is not semantic equivalence.".to_string()]);
}

#[test]
fn preview_reports_output_digest_and_change() {
    let input = b"SGVsbG8=";
    let f = finding_at("enc.base64", 0, 8);
    let p = preview_from_finding(input, &f, "enc.base64").unwrap();
    assert_eq!(p.candidate_sha256, sha256_hex(b"Hello"));
    assert_eq!(p.candidate_preview, "Hello");
    assert_eq!(p.byte_length, 5);
    assert_eq!(p.result, TransformResultKind::Transformed);
    assert_eq!(p.plan_id, "");
    let err = preview_from_finding(input, &f, "enc.unknown").unwrap_err();
    assert_eq!(err.code, ErrorCode::AdapterUnsupported);
}

#[test]
fn findings_stay_within_the_input() {
    let inputs: Vec<&[u8]> = vec![
        b"SGVsbG8sIFVOVkVJTCE=",
        b"const a = \"He\" + \"llo\";\nconsole.log(eval (a));\n",
        b"var s = \"\\x41\\x42\\u0043\"; %41%42%43%44%45 deadbeefdeadbeefdeadbeef",
        b"",
    ];
    for input in inputs {
        let result = analyze("art", "job", input);
        for f in &result.findings {
            assert!(f.range.start <= f.range.end && f.range.end <= input.len() as u64);
            for e in &f.evidence {
                assert!(e.range.start <= e.range.end && e.range.end <= input.len() as u64);
                assert!(e.excerpt.len() <= 2048);
            }
        }
    }
}

#[test]
fn validation_skips_the_round_trip_for_a_bad_range() {
    let inverted = finding_at("enc.base64", 6, 2);
    let v = validate_adapter(b"SGVsbG8=", &inverted, "enc.base64", b"Hello");
    assert!(v.checks.is_empty());
    assert_eq!(v.verdict, ValidationVerdict::Passed);
    let outside = finding_at("enc.base64", 0, 80);
    let v = validate_adapter(b"SGVsbG8=", &outside, "enc.base64", b"Hello");
    assert!(!v.checks.iter().any(|c| c.kind == "round_trip"));
    assert_eq!(v.limitations, vec!["Round-trip does not restore author intent.".to_string()]);
}

#[test]
fn supported_findings_can_be_applied() {
    let text = b"var a = \"SGVsbG8sIHdvcmxkIQ==\";\nvar b = \"\\x68\\x69\";\nvar c = 'ab' + 'cd';\nvar d = \"%41%42%43%44%45\";\nvar e = \"48656c6c6f2c20776f726c6421\";\n";
    let findings = detect("art", text, &probe(text));
    let techniques: Vec<&str> = findings.iter().map(|f| f.technique_id.as_str()).collect();
    for t in ["enc.base64", "enc.js-escape", "data.literal-concat", "enc.percent", "enc.base16"] {
        assert!(techniques.contains(&t), "missing {t} in {techniques:?}");
    }
    for f in &findings {
        if f.transformability == Transformability::Supported && f.technique_id != "compression.gzip" {
            assert!(apply_adapter(text, f, &f.technique_id).is_ok(), "{} failed", f.technique_id);
        }
    }
}

#[test]
fn findings_and_evidence_carry_fresh_ids() {
    let text = b"var a = \"SGVsbG8sIHdvcmxkIQ==\"; var b = 'x' + 'y';";
    let r = analyze("art", "job", text);
    assert!(!r.findings.is_empty());
    for f in &r.findings {
        assert_eq!(f.id.len(), 36);
        assert!(!f.evidence.is_empty());
        assert!(f.evidence.iter().all(|e| e.id.len() == 36));
    }
}

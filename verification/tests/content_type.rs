use unveil::modules::{declared_extension, ghidra_eligible, magic_hint, mismatch_flags, ContentTypeProbe, MagikaOutput};

fn magika(status: &str, label: Option<&str>) -> MagikaOutput {
    MagikaOutput {
        status: status.to_string(),
        dl_label: label.map(|s| s.to_string()),
        output_label: label.map(|s| s.to_string()),
        score_ppm: None,
        prediction_mode: "high-confidence".to_string(),
        mime_type: None,
        is_text: None,
    }
}

fn probe(ext: &str, magic: &str, m: MagikaOutput) -> ContentTypeProbe {
    ContentTypeProbe {
        probe_id: "p".to_string(),
        artifact_id: "a".to_string(),
        declared_extension: ext.to_string(),
        magic_hint: magic.to_string(),
        magika: m,
        mismatch_flags: vec![],
        ghidra_eligible: false,
    }
}

#[test]
fn js_is_never_ghidra() {
    let p = probe("js", "ASCII text", magika("unavailable", None));
    assert!(!ghidra_eligible(&p));
}

#[test]
fn txt_pe_mismatch() {
    let m = magika("unavailable", None);
    let flags = mismatch_flags("txt", "PE32 executable", &m);
    assert!(flags.contains(&"extension_vs_magic".to_string()));
}

#[test]
fn magika_js_blocks_ghidra_even_if_exe_name() {
    let mut m = magika("ok", Some("javascript"));
    m.score_ppm = Some(990000);
    m.mime_type = Some("text/javascript".to_string());
    m.is_text = Some(true);
    let mut p = probe("exe", "ASCII text", m);
    p.ghidra_eligible = true;
    assert!(!ghidra_eligible(&p));
}

#[test]
fn pe_routing_and_flags() {
    let p = probe("dll", "PE32 executable", magika("unavailable", None));
    assert!(ghidra_eligible(&p));
    let p = probe("bin", "ELF", magika("ok", Some("elf"))).compute_mismatch_and_routing();
    assert!(p.ghidra_eligible);
    assert_eq!(p.mismatch_flags, vec!["magic_vs_magika".to_string()]);
    let flags = mismatch_flags("js", "ASCII text", &magika("ok", Some("pebin")));
    assert_eq!(flags, vec!["magic_vs_magika".to_string(), "extension_vs_magika".to_string()]);
}

#[test]
fn magic_hints() {
    assert_eq!(magic_hint(b""), "empty");
    assert_eq!(magic_hint(b"MZ\x90\x00"), "PE32 executable");
    assert_eq!(magic_hint(b"\x7fELF\x02"), "ELF");
    assert_eq!(magic_hint(&[0x1f, 0x8b, 8]), "gzip compressed");
    assert_eq!(magic_hint(b"%PDF-1.7"), "PDF document");
    assert_eq!(magic_hint(b"plain words\n"), "ASCII text");
    assert_eq!(magic_hint(&[1, 2, 3, 4, 5]), "Unknown binary data");
}

#[test]
fn declared_extensions() {
    assert_eq!(declared_extension("Sample.TXT"), "txt");
    assert_eq!(declared_extension("archive.tar.GZ"), "gz");
    assert_eq!(declared_extension("README"), "");
}

#[test]
fn mislabelled_pe_raises_all_three_flags() {
    let mut m = magika("ok", Some("pebin"));
    m.dl_label = Some("pebin".to_string());
    m.prediction_mode = "high-confidence".to_string();
    m.mime_type = Some("application/x-dosexec".to_string());
    m.is_text = Some(false);
    let flags = mismatch_flags("txt", "PE32 executable", &m);
    assert_eq!(
        flags,
        vec!["extension_vs_magic".to_string(), "magic_vs_magika".to_string(), "extension_vs_magika".to_string()]
    );
    let flags = mismatch_flags("exe", "PE32 executable", &m);
    assert!(flags.is_empty());
}

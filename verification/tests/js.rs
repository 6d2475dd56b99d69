use unveil::analysis::{ByteRange, Finding, Identification, Score, Transformability};
use unveil::codec::is_alnum_byte;
use unveil::js::{
    find_eval_ranges, find_js_escapes, find_literal_concats, fold_literal_concats, parse_string, pretty_print,
};
use unveil::transform::preview_adapter;
use unveil::workbench::Workbench;

#[test]
fn eval_sites_skip_strings_and_comments() {
    assert_eq!(find_eval_ranges("x = eval (a);"), vec![(4, 10)]);
    assert_eq!(find_eval_ranges("s = \"eval(a)\"; // eval(b)\n"), vec![]);
    assert_eq!(find_eval_ranges("medieval(x); evaluate(y);"), vec![]);
}

#[test]
fn literal_chains_and_escapes() {
    assert_eq!(find_literal_concats("const a = \"He\" + \"llo\";"), vec![(10, 22)]);
    assert_eq!(find_literal_concats("const a = \"He\" + b;"), vec![]);
    assert_eq!(find_js_escapes("var s = \"\\x41\";"), vec![(8, 14)]);
    assert_eq!(find_js_escapes("var s = \"plain\";"), vec![]);
    assert_eq!(fold_literal_concats("a = 'x' + \"y\" + 'z';"), "a = \"xyz\";");
}

#[test]
fn strings_decode_their_escapes() {
    assert_eq!(parse_string(b"'a\\x41'", 0), Some((7, "aA".to_string())));
    assert_eq!(parse_string(b"\"line\nbreak\"", 0), None);
    assert_eq!(parse_string(b"x'a'", 0), None);
    assert_eq!(parse_string(b"\"\\u0042\\n\"", 0), Some((10, "B\n".to_string())));
}

#[test]
fn pretty_print_breaks_blocks_and_statements() {
    assert_eq!(pretty_print("function f(){return 1;}"), "function f(){\n  return 1;\n  \n}");
    assert_eq!(pretty_print("a  =\t1"), "a = 1");
}

#[test]
fn preview_matches_apply() {
    let input = b"SGVsbG8sIFVOVkVJTCE=";
    let finding = Finding {
        id: "f".to_string(),
        artifact_id: "a".to_string(),
        technique_id: "enc.base64".to_string(),
        category: "encoding".to_string(),
        range: ByteRange::new(0, input.len() as u64),
        identification: Identification::Confirmed,
        score: Score { value: 90, kind: "rule_match".to_string(), rule_version: "1.0.0".to_string() },
        evidence: vec![],
        transformability: Transformability::Supported,
        limitations: vec![],
        article_id: "wiki.enc.base64.ja".to_string(),
    };
    assert_eq!(preview_adapter(input, &finding, "enc.base64").unwrap().bytes, b"Hello, UNVEIL!".to_vec());
    assert!(finding.range.contains_ok(20));
    assert!(!finding.range.contains_ok(19));
    assert!(!ByteRange::new(5, 4).contains_ok(10));
}

#[test]
fn small_helpers() {
    assert!(is_alnum_byte(b'a') && is_alnum_byte(b'Z') && is_alnum_byte(b'0'));
    assert!(!is_alnum_byte(b'-'));
    let w = Workbench::new("s".to_string());
    let j = w.job_snapshot("job-9");
    assert_eq!(j.job_id, "job-9");
    assert_eq!(j.session_id, "s");
    assert_eq!(j.artifact_id, None);
}

#[test]
fn fold_keeps_text_without_chains() {
    let text = "const café = 'naïve'; // コメント\nlet x = 1;";
    assert!(find_literal_concats(text).is_empty());
    assert_eq!(fold_literal_concats(text), text);
    assert_eq!(fold_literal_concats("é = 'a' + 'b';"), "é = \"ab\";");
}

#[test]
fn pretty_print_keeps_unicode_and_line_comments() {
    assert_eq!(pretty_print("a//c\nb"), "a//c\nb");
    assert_eq!(pretty_print("x = 'é'; y = ü"), "x = 'é';\ny = ü");
    assert_eq!(pretty_print("{a// c\nb}"), "{\n  a// c\n  b\n}");
    assert_eq!(pretty_print("a // end"), "a // end");
}

#[test]
fn fold_leaves_unjoined_literals_whole() {
    let text = "s = \"'a'+'b'\";";
    assert!(find_literal_concats(text).is_empty());
    assert_eq!(fold_literal_concats(text), text);
    assert_eq!(fold_literal_concats("\"'a'+'b'\" + 'c'"), "\"'a'+'b'c\"");
}

#[test]
fn pretty_print_only_relays_the_code() {
    let text = "function f(a){if(a){return 'x y';}// note é\nvar s=\"{;}\";/* c */g();}";
    let out = pretty_print(text);
    let keep = |s: &str| s.chars().filter(|c| !matches!(c, ' ' | '\n' | '\r' | '\t')).collect::<String>();
    assert_eq!(keep(&out), keep(text));
    assert!(out.contains("// note é\n"));
    assert!(out.contains("\"{;}\""));
}

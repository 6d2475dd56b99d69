use unveil::wiki::{parse_article, parse_list, WikiArticle, WikiPack};

const BASE64_ARTICLE: &str = "---\narticle_id: \"wiki.enc.base64.ja\"\ntitle: \"Base64 encoding\"\nrevision: 3\ncategory: encoding\ntechnique_ids: [\"enc.base64\", \"enc.base64url\"]\naliases: [b64, \"radix-64\"]\ncitations: []\n---\n\nBase64 maps three bytes onto four printable characters.\n";

const GZIP_ARTICLE: &str = "---\narticle_id: wiki.compression.gzip.ja\ntitle: Gzip streams\ntechnique_ids: [compression.gzip]\n---\nA gzip stream starts with 1f 8b. Base64 often wraps it.\n";

fn pack() -> WikiPack {
    let a = parse_article(BASE64_ARTICLE).unwrap();
    let b = parse_article(GZIP_ARTICLE).unwrap();
    WikiPack::new(vec![b, a], vec![], vec![], "knowledge".to_string())
}

#[test]
fn parse_list_trims_brackets_quotes_and_blanks() {
    assert_eq!(parse_list("[\"a\", b , \"\" ,c]"), vec!["a".to_string(), "b".to_string(), "c".to_string()]);
    assert_eq!(parse_list("[]"), Vec::<String>::new());
    assert_eq!(parse_list("  single "), vec!["single".to_string()]);
}

#[test]
fn parse_article_reads_front_matter() {
    let a: WikiArticle = parse_article(BASE64_ARTICLE).unwrap();
    assert_eq!(a.article_id, "wiki.enc.base64.ja");
    assert_eq!(a.title, "Base64 encoding");
    assert_eq!(a.revision, 3);
    assert_eq!(a.category, "encoding");
    assert_eq!(a.technique_ids, vec!["enc.base64".to_string(), "enc.base64url".to_string()]);
    assert_eq!(a.aliases, vec!["b64".to_string(), "radix-64".to_string()]);
    assert!(a.citations.is_empty());
    assert_eq!(a.body_markdown, "Base64 maps three bytes onto four printable characters.");
    assert_eq!(a.locale, "ja-JP");
    assert_eq!(a.difficulty, "beginner");
    assert_eq!(a.engine_support, "wiki_only");
}

#[test]
fn parse_article_defaults_revision_on_bad_number() {
    let a = parse_article("---\narticle_id: x\nrevision: many\n---\nbody").unwrap();
    assert_eq!(a.revision, 1);
    assert_eq!(a.body_markdown, "body");
}

#[test]
fn parse_article_rejects_missing_parts() {
    assert!(parse_article("no front matter").is_none());
    assert!(parse_article("---\narticle_id: x\n").is_none());
    assert!(parse_article("---\ntitle: no id\n---\nbody").is_none());
}

#[test]
fn pack_orders_articles_and_finds_them() {
    let p = pack();
    assert_eq!(p.articles[0].article_id, "wiki.compression.gzip.ja");
    assert_eq!(p.articles[1].article_id, "wiki.enc.base64.ja");
    assert!(p.get("wiki.enc.base64.ja").is_some());
    assert!(p.get("wiki.missing").is_none());
    assert_eq!(p.by_technique("compression.gzip").unwrap().article_id, "wiki.compression.gzip.ja");
    assert!(p.by_technique("enc.hex").is_none());
}

#[test]
fn search_ranks_by_score_then_id() {
    let p = pack();
    let hits = p.search("  BASE64 ");
    assert_eq!(hits.len(), 2);
    assert_eq!(hits[0].article_id, "wiki.enc.base64.ja");
    assert_eq!(hits[1].article_id, "wiki.compression.gzip.ja");
    assert!(hits[1].excerpt.contains("Base64 often wraps it."));
    assert!(p.search("nothing matches this").is_empty());
}

#[test]
fn empty_search_lists_the_index() {
    let p = pack();
    let hits = p.search("   ");
    assert_eq!(hits.len(), 2);
    assert!(hits.iter().all(|h| h.excerpt == "index"));
}

#[test]
fn load_keeps_only_articles_in_id_order() {
    let texts = vec![BASE64_ARTICLE.to_string(), "not an article".to_string(), GZIP_ARTICLE.to_string()];
    let p = WikiPack::load(&texts, vec![], vec![], "root".to_string());
    assert_eq!(p.articles.len(), 2);
    assert_eq!(p.articles[0].article_id, "wiki.compression.gzip.ja");
    assert_eq!(p.articles[1].article_id, "wiki.enc.base64.ja");
    assert!(p.get("wiki.enc.base64.ja").is_some());
    assert_eq!(p.root, "root");
}

#[test]
fn exact_technique_match_outranks_text_matches() {
    let by_technique = parse_article("---\narticle_id: z.technique\ntitle: Other\ntechnique_ids: [xor]\n---\nnothing here").unwrap();
    let by_text = parse_article("---\narticle_id: a.text\ntitle: xor tricks\naliases: [xor]\n---\nxor everywhere").unwrap();
    let p = WikiPack::new(vec![by_text, by_technique], vec![], vec![], "knowledge".to_string());
    let hits = p.search("XOR");
    assert_eq!(hits.len(), 2);
    assert_eq!(hits[0].article_id, "z.technique");
    assert_eq!(hits[1].article_id, "a.text");
}

#[test]
fn excerpt_shows_the_match_in_multibyte_text() {
    let body = format!("{}base64 tail", "あ".repeat(100));
    let text = format!("---\narticle_id: wiki.ja\ntitle: Japanese\n---\n{}", body);
    let p = WikiPack::new(vec![parse_article(&text).unwrap()], vec![], vec![], "knowledge".to_string());
    let hits = p.search("base64");
    assert_eq!(hits.len(), 1);
    assert!(hits[0].excerpt.contains("base64"));
    assert!(hits[0].excerpt.starts_with(&"あ".repeat(40)));
    assert_eq!(hits[0].excerpt.chars().count(), 40 + "base64 tail".len());
}

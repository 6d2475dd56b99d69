//! The offline knowledge pack: articles with a front matter block, their
//! lookup by id and by technique, and a ranked search.

use vstd::prelude::*;
use vstd::string::StringSliceAdditionalSpecFns;
use vstd::utf8::encode_utf8;

use crate::analysis::{copy_strings, strings_view};
use crate::engine::{bytes_less, lemma_lex_irreflexive, lemma_lex_transitive, lex_less};
use crate::outside::{spec_to_lowercase, to_lowercase};
use crate::text::{
    bytes_contain, chars_of, end_by, find_bytes, find_from, lines_from, min_int, next_char, next_char_exec,
    parse_u64, pieces_from, seq_contains, spec_parse_u64, start_by, str_eq, string_of, trim_both_bounds,
    trim_both_by, trim_end_by, trim_start_by, trim_ws, trim_ws_bounds, lemma_next_char,
};

verus! {

#[derive(Clone, Debug, PartialEq, Eq)]
pub struct WikiHit {
    pub article_id: String,
    pub title: String,
    pub locale: String,
    pub excerpt: String,
    pub engine_support: String,
    pub technique_ids: Vec<String>,
}

#[derive(Clone, Debug, PartialEq, Eq)]
pub struct WikiArticle {
    pub article_id: String,
    pub title: String,
    pub locale: String,
    pub revision: u32,
    pub category: String,
    pub technique_ids: Vec<String>,
    pub aliases: Vec<String>,
    pub difficulty: String,
    pub engine_support: String,
    pub citations: Vec<String>,
    pub body_markdown: String,
    pub license: String,
}

#[derive(Clone, Debug, PartialEq, Eq)]
pub struct TimelineItem {
    pub year: String,
    pub title: String,
    pub note: String,
    pub citation: String,
}

#[derive(Clone, Debug, PartialEq, Eq)]
pub struct GlossaryEntry {
    pub term: String,
    pub definition: String,
}

/// An article as plain text values.
pub struct ArticleView {
    pub article_id: Seq<char>,
    pub title: Seq<char>,
    pub locale: Seq<char>,
    pub revision: u32,
    pub category: Seq<char>,
    pub technique_ids: Seq<Seq<char>>,
    pub aliases: Seq<Seq<char>>,
    pub difficulty: Seq<char>,
    pub engine_support: Seq<char>,
    pub citations: Seq<Seq<char>>,
    pub body_markdown: Seq<char>,
    pub license: Seq<char>,
}

impl View for WikiArticle {
    type V = ArticleView;

    open spec fn view(&self) -> ArticleView {
        ArticleView {
            article_id: self.article_id@,
            title: self.title@,
            locale: self.locale@,
            revision: self.revision,
            category: self.category@,
            technique_ids: strings_view(self.technique_ids@),
            aliases: strings_view(self.aliases@),
            difficulty: self.difficulty@,
            engine_support: self.engine_support@,
            citations: strings_view(self.citations@),
            body_markdown: self.body_markdown@,
            license: self.license@,
        }
    }
}

/// A search hit as plain text values.
pub struct HitView {
    pub article_id: Seq<char>,
    pub title: Seq<char>,
    pub locale: Seq<char>,
    pub excerpt: Seq<char>,
    pub engine_support: Seq<char>,
    pub technique_ids: Seq<Seq<char>>,
}

impl View for WikiHit {
    type V = HitView;

    open spec fn view(&self) -> HitView {
        HitView {
            article_id: self.article_id@,
            title: self.title@,
            locale: self.locale@,
            excerpt: self.excerpt@,
            engine_support: self.engine_support@,
            technique_ids: strings_view(self.technique_ids@),
        }
    }
}

impl WikiArticle {
    pub fn duplicate(&self) -> (c: WikiArticle)
        ensures
            c@ == self@,
    {
        WikiArticle {
            article_id: self.article_id.clone(),
            title: self.title.clone(),
            locale: self.locale.clone(),
            revision: self.revision,
            category: self.category.clone(),
            technique_ids: copy_strings(&self.technique_ids),
            aliases: copy_strings(&self.aliases),
            difficulty: self.difficulty.clone(),
            engine_support: self.engine_support.clone(),
            citations: copy_strings(&self.citations),
            body_markdown: self.body_markdown.clone(),
            license: self.license.clone(),
        }
    }
}

// ---------------------------------------------------------------- lists

/// The list items of the pieces: each trimmed of white space and quotes,
/// empty ones dropped.
pub open spec fn list_items(pieces: Seq<Seq<char>>) -> Seq<Seq<char>>
    decreases pieces.len(),
{
    if pieces.len() == 0 {
        Seq::empty()
    } else {
        let t = trim_both_by(trim_ws(pieces[0]), '"');
        (if t.len() > 0 {
            seq![t]
        } else {
            Seq::empty()
        }) + list_items(pieces.skip(1))
    }
}

/// A front matter list such as `["a", "b"]`: the brackets dropped, split at
/// commas, each item trimmed of white space and quotes, empty items dropped.
pub open spec fn spec_parse_list(val: Seq<char>) -> Seq<Seq<char>> {
    let inner = trim_end_by(trim_start_by(trim_ws(val), '['), ']');
    list_items(pieces_from(inner, 0, ','))
}

fn sub_vec(s: &Vec<char>, lo: usize, hi: usize) -> (v: Vec<char>)
    requires
        lo <= hi <= s@.len(),
    ensures
        v@ == s@.subrange(lo as int, hi as int),
{
    let mut v: Vec<char> = Vec::new();
    let mut k = lo;
    while k < hi
        invariant
            lo <= k <= hi,
            hi <= s@.len(),
            v@ == s@.subrange(lo as int, k as int),
        decreases hi - k,
    {
        v.push(s[k]);
        assert(v@ =~= s@.subrange(lo as int, k + 1));
        k = k + 1;
    }
    v
}

fn parse_list_chars(val: &Vec<char>) -> (out: Vec<String>)
    ensures
        strings_view(out@) == spec_parse_list(val@),
{
    let n = val.len();
    let (a, b) = trim_ws_bounds(val, 0, n);
    assert(val@.subrange(0, n as int) =~= val@);
    let a2 = start_by(val, a, b, '[');
    let b2 = end_by(val, a2, b, ']');
    let w = sub_vec(val, a2, b2);
    let ghost all = pieces_from(w@, 0, ',');
    assert(w@ == trim_end_by(trim_start_by(trim_ws(val@), '['), ']'));
    let mut out: Vec<String> = Vec::new();
    let mut start: usize = 0;
    loop
        invariant
            start <= w@.len(),
            w@ == trim_end_by(trim_start_by(trim_ws(val@), '['), ']'),
            all == pieces_from(w@, 0, ','),
            strings_view(out@) + list_items(pieces_from(w@, start as int, ',')) == list_items(all),
        decreases w@.len() - start,
    {
        let e = next_char_exec(&w, start, ',');
        proof {
            lemma_next_char(w@, start as int, ',');
        }
        let (p0, p1) = trim_ws_bounds(&w, start, e);
        let (q0, q1) = trim_both_bounds(&w, p0, p1, '"');
        let ghost piece = w@.subrange(start as int, e as int);
        let ghost rest = if e >= w@.len() {
            Seq::<Seq<char>>::empty()
        } else {
            pieces_from(w@, e + 1, ',')
        };
        assert(pieces_from(w@, start as int, ',') == seq![piece] + rest);
        assert((seq![piece] + rest).skip(1) =~= rest);
        let ghost before = strings_view(out@);
        if q0 < q1 {
            out.push(string_of(&w, q0, q1));
            assert(strings_view(out@) =~= before.push(w@.subrange(q0 as int, q1 as int)));
        }
        if e >= w.len() {
            assert(list_items(rest) =~= Seq::<Seq<char>>::empty());
            assert(strings_view(out@) =~= list_items(all));
            return out;
        }
        start = e + 1;
    }
}

/// Reads a front matter list; see `spec_parse_list`.
pub fn parse_list(val: &str) -> (out: Vec<String>)
    ensures
        strings_view(out@) == spec_parse_list(val@),
{
    parse_list_chars(&chars_of(val))
}

// ---------------------------------------------------------------- articles

pub open spec fn spec_parse_u32(s: Seq<char>) -> Option<u32> {
    match spec_parse_u64(s) {
        Some(v) => if v <= u32::MAX {
            Some(v as u32)
        } else {
            None
        },
        None => None,
    }
}

/// One front matter field set on the article; unknown keys change nothing.
pub open spec fn apply_field(v: ArticleView, key: Seq<char>, val: Seq<char>) -> ArticleView {
    if key == "article_id"@ {
        ArticleView { article_id: val, ..v }
    } else if key == "title"@ {
        ArticleView { title: val, ..v }
    } else if key == "locale"@ {
        ArticleView { locale: val, ..v }
    } else if key == "revision"@ {
        ArticleView {
            revision: match spec_parse_u32(val) {
                Some(n) => n,
                None => 1,
            },
            ..v
        }
    } else if key == "category"@ {
        ArticleView { category: val, ..v }
    } else if key == "difficulty"@ {
        ArticleView { difficulty: val, ..v }
    } else if key == "engine_support"@ {
        ArticleView { engine_support: val, ..v }
    } else if key == "technique_ids"@ {
        ArticleView { technique_ids: spec_parse_list(val), ..v }
    } else if key == "aliases"@ {
        ArticleView { aliases: spec_parse_list(val), ..v }
    } else if key == "citations"@ {
        ArticleView { citations: spec_parse_list(val), ..v }
    } else {
        v
    }
}

/// One front matter line `key: value`, trimmed, the value's quotes
/// dropped; a line without a colon changes nothing.
pub open spec fn apply_line(v: ArticleView, line: Seq<char>) -> ArticleView {
    let t = trim_ws(line);
    let p = next_char(t, 0, ':');
    if p >= t.len() {
        v
    } else {
        apply_field(v, trim_ws(t.take(p)), trim_both_by(trim_ws(t.skip(p + 1)), '"'))
    }
}

#[verifier::opaque]
pub open spec fn apply_lines(v: ArticleView, lines: Seq<Seq<char>>) -> ArticleView
    decreases lines.len(),
{
    if lines.len() == 0 {
        v
    } else {
        apply_lines(apply_line(v, lines[0]), lines.skip(1))
    }
}

/// An article before its front matter is read.
pub open spec fn article_defaults(body: Seq<char>) -> ArticleView {
    ArticleView {
        article_id: Seq::empty(),
        title: Seq::empty(),
        locale: "ja-JP"@,
        revision: 1,
        category: Seq::empty(),
        technique_ids: Seq::empty(),
        aliases: Seq::empty(),
        difficulty: "beginner"@,
        engine_support: "wiki_only"@,
        citations: Seq::empty(),
        body_markdown: trim_ws(body),
        license: "CC-BY-4.0 research notes. Citations remain with original authors."@,
    }
}

/// Where the front matter ends: the first line feed followed by `---`,
/// searching from `i`.
pub open spec fn marker_from(s: Seq<char>, i: int) -> Option<int>
    decreases s.len() - i,
{
    if i < 0 || i + 4 > s.len() {
        None
    } else if s[i] == '\n' && s[i + 1] == '-' && s[i + 2] == '-' && s[i + 3] == '-' {
        Some(i)
    } else {
        marker_from(s, i + 1)
    }
}

pub open spec fn front_matter_end(rest: Seq<char>) -> Option<int> {
    marker_from(rest, 0)
}

proof fn lemma_marker_from(s: Seq<char>, i: int)
    requires
        0 <= i,
    ensures
        marker_from(s, i) matches Some(p) ==> i <= p && p + 4 <= s.len(),
    decreases s.len() - i,
{
    if i + 4 <= s.len() && !(s[i] == '\n' && s[i + 1] == '-' && s[i + 2] == '-' && s[i + 3] == '-') {
        lemma_marker_from(s, i + 1);
    }
}

fn find_marker(s: &Vec<char>) -> (r: Option<usize>)
    ensures
        match marker_from(s@, 0) {
            None => r is None,
            Some(p) => r == Some(p as usize),
        },
{
    let mut i: usize = 0;
    while i < s.len() && s.len() - i >= 4
        invariant
            marker_from(s@, 0) == marker_from(s@, i as int),
            i <= s@.len(),
        decreases s@.len() - i,
    {
        if s[i] == '\n' && s[i + 1] == '-' && s[i + 2] == '-' && s[i + 3] == '-' {
            return Some(i);
        }
        i = i + 1;
    }
    None
}

/// The article read from the text after the opening marker, whose front
/// matter ends at `p`.
#[verifier::opaque]
pub open spec fn article_result(rest: Seq<char>, p: int) -> Option<ArticleView> {
    let v = apply_lines(article_defaults(rest.skip(p + 4)), lines_from(rest.take(p), 0));
    if v.article_id.len() == 0 {
        None
    } else {
        Some(v)
    }
}

/// An article file: `---`, front matter lines, a line starting `---`, then
/// the body. Files without both markers, or without an `article_id`, give
/// nothing.
pub open spec fn spec_parse_article(text: Seq<char>) -> Option<ArticleView> {
    if text.len() < 3 || text[0] != '-' || text[1] != '-' || text[2] != '-' {
        None
    } else {
        let rest = text.skip(3);
        match front_matter_end(rest) {
            None => None,
            Some(p) => article_result(rest, p),
        }
    }
}

fn apply_line_exec(a: &mut WikiArticle, line: &Vec<char>)
    ensures
        final(a)@ == apply_line(old(a)@, line@),
{
    let n = line.len();
    let (t0, t1) = trim_ws_bounds(line, 0, n);
    assert(line@.subrange(0, n as int) =~= line@);
    let t = sub_vec(line, t0, t1);
    let p = next_char_exec(&t, 0, ':');
    proof {
        lemma_next_char(t@, 0, ':');
    }
    if p >= t.len() {
        return;
    }
    let (k0, k1) = trim_ws_bounds(&t, 0, p);
    assert(t@.take(p as int) =~= t@.subrange(0, p as int));
    let key = string_of(&t, k0, k1);
    let (v0, v1) = trim_ws_bounds(&t, p + 1, t.len());
    assert(t@.skip(p + 1) =~= t@.subrange(p + 1, t@.len() as int));
    let (w0, w1) = trim_both_bounds(&t, v0, v1, '"');
    let val = sub_vec(&t, w0, w1);
    let k = key.as_str();
    if str_eq(k, "article_id") {
        a.article_id = string_of(&val, 0, val.len());
    } else if str_eq(k, "title") {
        a.title = string_of(&val, 0, val.len());
    } else if str_eq(k, "locale") {
        a.locale = string_of(&val, 0, val.len());
    } else if str_eq(k, "revision") {
        let text = string_of(&val, 0, val.len());
        a.revision = match parse_u64(text.as_str()) {
            Some(v) => if v <= u32::MAX as u64 {
                v as u32
            } else {
                1
            },
            None => 1,
        };
    } else if str_eq(k, "category") {
        a.category = string_of(&val, 0, val.len());
    } else if str_eq(k, "difficulty") {
        a.difficulty = string_of(&val, 0, val.len());
    } else if str_eq(k, "engine_support") {
        a.engine_support = string_of(&val, 0, val.len());
    } else if str_eq(k, "technique_ids") {
        a.technique_ids = parse_list_chars(&val);
    } else if str_eq(k, "aliases") {
        a.aliases = parse_list_chars(&val);
    } else if str_eq(k, "citations") {
        a.citations = parse_list_chars(&val);
    }
    assert(val@.subrange(0, val@.len() as int) =~= val@);
    assert(a@ =~~= apply_line(old(a)@, line@));
}

fn article_with_body(body: &Vec<char>) -> (a: WikiArticle)
    ensures
        a@ == article_defaults(body@),
{
    let (b0, b1) = trim_ws_bounds(body, 0, body.len());
    assert(body@.subrange(0, body@.len() as int) =~= body@);
    let technique_ids: Vec<String> = Vec::new();
    let aliases: Vec<String> = Vec::new();
    let citations: Vec<String> = Vec::new();
    assert(strings_view(technique_ids@) =~= Seq::<Seq<char>>::empty());
    assert(strings_view(aliases@) =~= Seq::<Seq<char>>::empty());
    assert(strings_view(citations@) =~= Seq::<Seq<char>>::empty());
    let a = WikiArticle {
        article_id: String::new(),
        title: String::new(),
        locale: "ja-JP".to_string(),
        revision: 1,
        category: String::new(),
        technique_ids,
        aliases,
        difficulty: "beginner".to_string(),
        engine_support: "wiki_only".to_string(),
        citations,
        body_markdown: string_of(body, b0, b1),
        license: "CC-BY-4.0 research notes. Citations remain with original authors.".to_string(),
    };
    assert(a@ =~~= article_defaults(body@));
    a
}

fn apply_front_matter(a: &mut WikiArticle, fm: &Vec<char>)
    ensures
        final(a)@ == apply_lines(old(a)@, lines_from(fm@, 0)),
{
    reveal(apply_lines);
    let ghost start_view = a@;
    let ghost goal = apply_lines(start_view, lines_from(fm@, 0));
    let mut pos: usize = 0;
    while pos < fm.len()
        invariant
            pos <= fm@.len(),
            goal == apply_lines(start_view, lines_from(fm@, 0)),
            apply_lines(a@, lines_from(fm@, pos as int)) == goal,
        decreases fm@.len() - pos,
    {
        let e = next_char_exec(fm, pos, '\n');
        proof {
            lemma_next_char(fm@, pos as int, '\n');
        }
        let le = if e < fm.len() && e > pos && fm[e - 1] == '\r' {
            e - 1
        } else {
            e
        };
        let line = sub_vec(fm, pos, le);
        let ghost rest_lines = if e < fm@.len() {
            lines_from(fm@, e + 1)
        } else {
            Seq::<Seq<char>>::empty()
        };
        proof {
            let raw = fm@.subrange(pos as int, e as int);
            if e < fm@.len() && raw.len() > 0 && raw.last() == '\r' {
                assert(raw.drop_last() =~= line@);
            } else {
                assert(raw =~= line@);
            }
            assert(lines_from(fm@, pos as int) == seq![line@] + rest_lines);
            assert((seq![line@] + rest_lines).skip(1) =~= rest_lines);
        }
        proof {
            reveal(apply_lines);
        }
        apply_line_exec(a, &line);
        if e >= fm.len() {
            pos = fm.len();
            assert(lines_from(fm@, pos as int) =~= Seq::<Seq<char>>::empty());
        } else {
            pos = e + 1;
        }
    }
    assert(lines_from(fm@, pos as int) =~= Seq::<Seq<char>>::empty());
}

fn article_from(rest: &Vec<char>, p: usize) -> (r: Option<WikiArticle>)
    requires
        p + 4 <= rest@.len(),
        rest@.len() <= usize::MAX,
    ensures
        match article_result(rest@, p as int) {
            None => r is None,
            Some(v) => r matches Some(a) && a@ == v,
        },
{
    let fm = sub_vec(rest, 0, p);
    let body = sub_vec(rest, p + 4, rest.len());
    assert(fm@ =~= rest@.take(p as int));
    assert(body@ =~= rest@.skip(p + 4));
    let mut a = article_with_body(&body);
    apply_front_matter(&mut a, &fm);
    proof {
        reveal(article_result);
    }
    if a.article_id.as_str().is_empty() {
        None
    } else {
        Some(a)
    }
}

/// Reads an article file; see `spec_parse_article`.
pub fn parse_article(text: &str) -> (r: Option<WikiArticle>)
    ensures
        match spec_parse_article(text@) {
            None => r is None,
            Some(v) => r matches Some(a) && a@ == v,
        },
{
    let cs = chars_of(text);
    if cs.len() < 3 || cs[0] != '-' || cs[1] != '-' || cs[2] != '-' {
        return None;
    }
    let rest = sub_vec(&cs, 3, cs.len());
    assert(rest@ =~= text@.skip(3));
    let p = match find_marker(&rest) {
        Some(p) => p,
        None => {
            return None;
        },
    };
    proof {
        lemma_marker_from(rest@, 0);
    }
    article_from(&rest, p)
}

// ---------------------------------------------------------------- the pack

/// The knowledge pack: articles in order of id, the timeline and the
/// glossary.
pub struct WikiPack {
    pub articles: Vec<WikiArticle>,
    pub timeline: Vec<TimelineItem>,
    pub glossary: Vec<GlossaryEntry>,
    pub root: String,
}

pub open spec fn articles_view(v: Seq<WikiArticle>) -> Seq<ArticleView> {
    v.map_values(|a: WikiArticle| a@)
}

pub open spec fn hits_view(v: Seq<WikiHit>) -> Seq<HitView> {
    v.map_values(|h: WikiHit| h@)
}

/// Articles ordered by id, as byte strings.
pub open spec fn sorted_by_id(s: Seq<ArticleView>) -> bool {
    forall|i: int, j: int|
        0 <= i < j < s.len() ==> !lex_less(encode_utf8((#[trigger] s[j]).article_id), encode_utf8((#[trigger] s[i]).article_id))
}

fn sort_articles(v: Vec<WikiArticle>) -> (out: Vec<WikiArticle>)
    ensures
        articles_view(out@).to_multiset() == articles_view(v@).to_multiset(),
        sorted_by_id(articles_view(out@)),
{
    let ghost orig = v@;
    let mut rest = v;
    let mut out: Vec<WikiArticle> = Vec::new();
    let ghost mut k: int = 0;
    assert(articles_view(out@) =~= articles_view(orig.take(0)));
    while rest.len() > 0
        invariant
            0 <= k <= orig.len(),
            rest@ == orig.skip(k),
            sorted_by_id(articles_view(out@)),
            articles_view(out@).to_multiset() == articles_view(orig.take(k)).to_multiset(),
        decreases rest@.len(),
    {
        let x = rest.remove(0);
        let mut p: usize = 0;
        while p < out.len() && !bytes_less(x.article_id.as_str().as_bytes(), out[p].article_id.as_str().as_bytes())
            invariant
                p <= out@.len(),
                forall|m: int|
                    0 <= m < p ==> !lex_less(encode_utf8(x.article_id@), encode_utf8((#[trigger] out@[m]).article_id@)),
            decreases out@.len() - p,
        {
            p = p + 1;
        }
        let ghost before = out@;
        out.insert(p, x);
        proof {
            let bv = articles_view(before);
            let nv = articles_view(out@);
            assert(nv =~= bv.insert(p as int, x@));
            assert forall|i: int, j: int| 0 <= i < j < nv.len() implies !lex_less(
                encode_utf8((#[trigger] nv[j]).article_id),
                encode_utf8((#[trigger] nv[i]).article_id),
            ) by {
                let xi = encode_utf8(x.article_id@);
                if i == p && j > p {
                    lemma_lex_irreflexive(encode_utf8(bv[p as int].article_id), 0);
                    if lex_less(encode_utf8(nv[j].article_id), xi) {
                        lemma_lex_transitive(encode_utf8(nv[j].article_id), xi, encode_utf8(bv[p as int].article_id), 0);
                        if j - 1 > p {
                            assert(!lex_less(encode_utf8(bv[j - 1].article_id), encode_utf8(bv[p as int].article_id)));
                        }
                    }
                } else if i < p && j == p {
                } else if i < p && j > p {
                    assert(!lex_less(encode_utf8(bv[j - 1].article_id), encode_utf8(bv[i].article_id)));
                } else if j < p {
                    assert(!lex_less(encode_utf8(bv[j].article_id), encode_utf8(bv[i].article_id)));
                } else {
                    assert(!lex_less(encode_utf8(bv[j - 1].article_id), encode_utf8(bv[i - 1].article_id)));
                }
            }
            assert(orig.take(k + 1) =~= orig.take(k).push(x));
            assert(articles_view(orig.take(k + 1)) =~= articles_view(orig.take(k)).push(x@));
            vstd::seq_lib::to_multiset_build(articles_view(orig.take(k)), x@);
            vstd::seq_lib::to_multiset_insert(bv, p as int, x@);
            assert(rest@ =~= orig.skip(k + 1));
            k = k + 1;
        }
    }
    assert(orig.take(k) =~= orig);
    out
}

/// The articles that the texts read as, in the texts' order.
pub open spec fn parsed_articles(texts: Seq<Seq<char>>) -> Seq<ArticleView>
    decreases texts.len(),
{
    if texts.len() == 0 {
        Seq::empty()
    } else {
        parsed_articles(texts.drop_last()) + match spec_parse_article(texts.last()) {
            Some(a) => seq![a],
            None => Seq::empty(),
        }
    }
}

impl WikiPack {
    /// A pack of the given contents, its articles put in order of id.
    pub fn new(articles: Vec<WikiArticle>, timeline: Vec<TimelineItem>, glossary: Vec<GlossaryEntry>, root: String) -> (p:
        WikiPack)
        ensures
            articles_view(p.articles@).to_multiset() == articles_view(articles@).to_multiset(),
            sorted_by_id(articles_view(p.articles@)),
            p.timeline == timeline,
            p.glossary == glossary,
            p.root == root,
    {
        WikiPack { articles: sort_articles(articles), timeline, glossary, root }
    }

    /// The pack from the texts of its article files, in any order: the
    /// texts that read as articles, ordered by id; the others are left out.
    pub fn load(texts: &Vec<String>, timeline: Vec<TimelineItem>, glossary: Vec<GlossaryEntry>, root: String) -> (p:
        WikiPack)
        ensures
            articles_view(p.articles@).to_multiset() == parsed_articles(strings_view(texts@)).to_multiset(),
            sorted_by_id(articles_view(p.articles@)),
            p.timeline == timeline,
            p.glossary == glossary,
            p.root == root,
    {
        let mut articles: Vec<WikiArticle> = Vec::new();
        let mut k: usize = 0;
        while k < texts.len()
            invariant
                k <= texts@.len(),
                articles_view(articles@) == parsed_articles(strings_view(texts@.take(k as int))),
            decreases texts.len() - k,
        {
            let ghost before = articles@;
            proof {
                assert(strings_view(texts@.take(k + 1)) =~= strings_view(texts@.take(k as int)).push(texts@[k as int]@));
                assert(strings_view(texts@.take(k + 1)).drop_last() =~= strings_view(texts@.take(k as int)));
            }
            match parse_article(texts[k].as_str()) {
                Some(a) => {
                    articles.push(a);
                    assert(articles_view(articles@) =~= articles_view(before).push(a@));
                },
                None => {},
            }
            k = k + 1;
        }
        assert(texts@.take(k as int) =~= texts@);
        WikiPack::new(articles, timeline, glossary, root)
    }

    /// The first article with this id.
    pub fn get(&self, article_id: &str) -> (r: Option<WikiArticle>)
        ensures
            match r {
                Some(a) => exists|i: int|
                    0 <= i < self.articles@.len() && self.articles@[i].article_id@ == article_id@ && a@
                        == self.articles@[i]@ && forall|j: int|
                        0 <= j < i ==> (#[trigger] self.articles@[j]).article_id@ != article_id@,
                None => forall|i: int|
                    0 <= i < self.articles@.len() ==> (#[trigger] self.articles@[i]).article_id@ != article_id@,
            },
    {
        let mut k: usize = 0;
        while k < self.articles.len()
            invariant
                k <= self.articles@.len(),
                forall|j: int| 0 <= j < k ==> (#[trigger] self.articles@[j]).article_id@ != article_id@,
            decreases self.articles.len() - k,
        {
            if str_eq(self.articles[k].article_id.as_str(), article_id) {
                return Some(self.articles[k].duplicate());
            }
            k = k + 1;
        }
        None
    }

    /// The first article that lists this technique.
    pub fn by_technique(&self, technique_id: &str) -> (r: Option<WikiArticle>)
        ensures
            match r {
                Some(a) => exists|i: int|
                    0 <= i < self.articles@.len() && self.articles@[i]@.technique_ids.contains(technique_id@) && a@
                        == self.articles@[i]@ && forall|j: int|
                        0 <= j < i ==> !(#[trigger] self.articles@[j])@.technique_ids.contains(technique_id@),
                None => forall|i: int|
                    0 <= i < self.articles@.len() ==> !(#[trigger] self.articles@[i])@.technique_ids.contains(
                        technique_id@,
                    ),
            },
    {
        let mut k: usize = 0;
        while k < self.articles.len()
            invariant
                k <= self.articles@.len(),
                forall|j: int| 0 <= j < k ==> !(#[trigger] self.articles@[j])@.technique_ids.contains(technique_id@),
            decreases self.articles.len() - k,
        {
            let ts = &self.articles[k].technique_ids;
            let mut t: usize = 0;
            while t < ts.len()
                invariant
                    t <= ts@.len(),
                    k < self.articles@.len(),
                    ts@ == self.articles@[k as int].technique_ids@,
                    forall|j: int| 0 <= j < k ==> !(#[trigger] self.articles@[j])@.technique_ids.contains(technique_id@),
                    forall|m: int| 0 <= m < t ==> (#[trigger] ts@[m])@ != technique_id@,
                decreases ts.len() - t,
            {
                if str_eq(ts[t].as_str(), technique_id) {
                    assert(strings_view(ts@)[t as int] == technique_id@);
                    return Some(self.articles[k].duplicate());
                }
                t = t + 1;
            }
            assert(!strings_view(ts@).contains(technique_id@)) by {
                if strings_view(ts@).contains(technique_id@) {
                    let w = choose|w: int| 0 <= w < strings_view(ts@).len() && strings_view(ts@)[w] == technique_id@;
                    assert(ts@[w]@ == technique_id@);
                }
            }
            k = k + 1;
        }
        None
    }
}

// ---------------------------------------------------------------- search

/// At most this many hits come back.
pub const MAX_HITS: usize = 20;

pub open spec fn lower_bytes(s: Seq<char>) -> Seq<u8> {
    encode_utf8(spec_to_lowercase(s))
}

/// The text contains the query, ignoring case.
pub open spec fn mentions(hay: Seq<char>, q: Seq<char>) -> bool {
    seq_contains(lower_bytes(hay), encode_utf8(q))
}

/// One of the article's techniques, lower-cased, is the query.
pub open spec fn technique_match(a: ArticleView, q: Seq<char>) -> bool {
    exists|i: int| 0 <= i < a.technique_ids.len() && spec_to_lowercase(#[trigger] a.technique_ids[i]) == q
}

/// How well an article answers a query: 1000 when one of its techniques is
/// the query, so that exact technique matches always rank first, then 50
/// when its title mentions it, 40 when an alias does, 10 when its body does.
pub open spec fn article_score(a: ArticleView, q: Seq<char>) -> int {
    (if technique_match(a, q) {
        1000int
    } else {
        0int
    }) + (if mentions(a.title, q) {
        50int
    } else {
        0int
    }) + (if exists|i: int| 0 <= i < a.aliases.len() && mentions(#[trigger] a.aliases[i], q) {
        40int
    } else {
        0int
    }) + (if mentions(a.body_markdown, q) {
        10int
    } else {
        0int
    })
}

/// The number of characters that start among the first `n` bytes of UTF-8
/// text: the bytes that are not continuation bytes.
pub open spec fn chars_before(b: Seq<u8>, n: int) -> int
    decreases n,
{
    if n <= 0 || n > b.len() {
        0
    } else {
        chars_before(b, n - 1) + if b[n - 1] >= 0x80 && b[n - 1] < 0xc0 {
            0int
        } else {
            1int
        }
    }
}

/// The body around the query's first mention: up to 160 characters from
/// 40 characters before the one where the lower-cased body mentions it.
pub open spec fn spec_excerpt_for(body: Seq<char>, q: Seq<char>) -> Seq<char> {
    let st = match find_from(lower_bytes(body), encode_utf8(q), 0) {
        Some(pos) => {
            let c = chars_before(lower_bytes(body), pos);
            if c >= 40 {
                c - 40
            } else {
                0
            }
        },
        None => 0,
    };
    let rest = if st <= body.len() {
        body.skip(st)
    } else {
        Seq::empty()
    };
    rest.take(min_int(rest.len() as int, 160))
}

fn chars_before_exec(b: &[u8], n: usize) -> (c: usize)
    requires
        n <= b@.len(),
    ensures
        c == chars_before(b@, n as int),
        c <= n,
{
    let mut c: usize = 0;
    let mut k: usize = 0;
    while k < n
        invariant
            k <= n <= b@.len(),
            c == chars_before(b@, k as int),
            c <= k,
        decreases n - k,
    {
        if !(b[k] >= 0x80 && b[k] < 0xc0) {
            c = c + 1;
        }
        k = k + 1;
    }
    c
}

/// A hit for an article, its excerpt cut to 180 characters.
pub open spec fn hit_view(a: ArticleView, excerpt: Seq<char>) -> HitView {
    HitView {
        article_id: a.article_id,
        title: a.title,
        locale: a.locale,
        excerpt: excerpt.take(min_int(excerpt.len() as int, 180)),
        engine_support: a.engine_support,
        technique_ids: a.technique_ids,
    }
}

/// The articles that score, with their scores and hits, in article order.
pub open spec fn scored_hits(arts: Seq<ArticleView>, q: Seq<char>) -> Seq<(int, HitView)>
    decreases arts.len(),
{
    if arts.len() == 0 {
        Seq::empty()
    } else {
        let a = arts[0];
        let sc = article_score(a, q);
        (if sc > 0 {
            seq![(sc, hit_view(a, spec_excerpt_for(a.body_markdown, q)))]
        } else {
            Seq::empty()
        }) + scored_hits(arts.skip(1), q)
    }
}

/// `x` ranks above `y`: a higher score, or the same score and a smaller id.
pub open spec fn hit_before(x: (int, HitView), y: (int, HitView)) -> bool {
    x.0 > y.0 || (x.0 == y.0 && lex_less(encode_utf8(x.1.article_id), encode_utf8(y.1.article_id)))
}

pub open spec fn ranked(s: Seq<(int, HitView)>) -> bool {
    forall|i: int, j: int| 0 <= i < j < s.len() ==> !hit_before(#[trigger] s[j], #[trigger] s[i])
}

pub open spec fn scored_view(v: Seq<(u32, WikiHit)>) -> Seq<(int, HitView)> {
    v.map_values(|p: (u32, WikiHit)| (p.0 as int, p.1@))
}

/// In a ranked list of scored hits, the hit of an article whose technique
/// is the query comes before the hit of an article whose technique is not:
/// an exact technique match outranks any mention in title, aliases or body.
pub proof fn law_technique_match_ranks_first(
    s: Seq<(int, HitView)>,
    i: int,
    j: int,
    a1: ArticleView,
    a2: ArticleView,
    q: Seq<char>,
)
    requires
        ranked(s),
        0 <= i < s.len(),
        0 <= j < s.len(),
        s[i].0 == article_score(a1, q),
        s[j].0 == article_score(a2, q),
        technique_match(a1, q),
        !technique_match(a2, q),
    ensures
        i < j,
{
    assert(article_score(a1, q) >= 1000);
    assert(article_score(a2, q) <= 100);
    if j < i {
        assert(!hit_before(s[i], s[j]));
    }
}

/// The search query: trimmed and lower-cased.
pub open spec fn search_query(query: Seq<char>) -> Seq<char> {
    spec_to_lowercase(trim_ws(query))
}

fn take_chars(s: &str, n: usize) -> (r: String)
    ensures
        r@ == s@.take(min_int(s@.len() as int, n as int)),
{
    let cs = chars_of(s);
    let m = if cs.len() < n {
        cs.len()
    } else {
        n
    };
    let r = string_of(&cs, 0, m);
    assert(cs@.subrange(0, m as int) =~= s@.take(min_int(s@.len() as int, n as int)));
    r
}

fn hit(a: &WikiArticle, excerpt: &str) -> (h: WikiHit)
    ensures
        h@ == hit_view(a@, excerpt@),
{
    WikiHit {
        article_id: a.article_id.clone(),
        title: a.title.clone(),
        locale: a.locale.clone(),
        excerpt: take_chars(excerpt, 180),
        engine_support: a.engine_support.clone(),
        technique_ids: copy_strings(&a.technique_ids),
    }
}

fn mentions_exec(hay: &str, q: &String) -> (b: bool)
    ensures
        b == mentions(hay@, q@),
{
    let lower = to_lowercase(hay);
    bytes_contain(lower.as_str().as_bytes(), q.as_str().as_bytes())
}

fn excerpt_for(body: &str, q: &String) -> (e: String)
    ensures
        e@ == spec_excerpt_for(body@, q@),
{
    let lower = to_lowercase(body);
    let hay = lower.as_str().as_bytes();
    let nb = q.as_str().as_bytes();
    assert(hay@ == lower_bytes(body@));
    assert(nb@ == encode_utf8(q@));
    let found = find_bytes(hay, nb);
    let st = match found {
        Some(pos) => {
            let c = chars_before_exec(hay, pos);
            if c >= 40 {
                c - 40
            } else {
                0
            }
        },
        None => 0,
    };
    let cs = chars_of(body);
    let from = if st <= cs.len() {
        st
    } else {
        cs.len()
    };
    let to = if cs.len() - from < 160 {
        cs.len()
    } else {
        from + 160
    };
    let r = string_of(&cs, from, to);
    proof {
        assert(encode_utf8(lower@) == lower_bytes(body@));
        assert(st as int == match find_from(lower_bytes(body@), encode_utf8(q@), 0) {
            Some(pos) => {
                let c = chars_before(lower_bytes(body@), pos);
                if c >= 40 {
                    c - 40
                } else {
                    0
                }
            },
            None => 0,
        });
        let rest = if st <= body@.len() {
            body@.skip(st as int)
        } else {
            Seq::<char>::empty()
        };
        assert(cs@.subrange(from as int, to as int) =~= rest.take(min_int(rest.len() as int, 160)));
    }
    r
}

fn score(a: &WikiArticle, q: &String) -> (sc: u32)
    ensures
        sc == article_score(a@, q@),
{
    let mut sc: u32 = 0;
    let ts = &a.technique_ids;
    let mut named = false;
    let mut t: usize = 0;
    while t < ts.len()
        invariant
            t <= ts@.len(),
            named == exists|i: int| 0 <= i < t && spec_to_lowercase((#[trigger] ts@[i])@) == q@,
        decreases ts.len() - t,
    {
        let l = to_lowercase(ts[t].as_str());
        if l == *q {
            named = true;
        }
        t = t + 1;
    }
    assert(named == exists|i: int| 0 <= i < a@.technique_ids.len() && spec_to_lowercase(#[trigger] a@.technique_ids[i]) == q@) by {
        if named {
            let w = choose|i: int| 0 <= i < t && spec_to_lowercase((#[trigger] ts@[i])@) == q@;
            assert(a@.technique_ids[w] == ts@[w]@);
        }
        if exists|i: int| 0 <= i < a@.technique_ids.len() && spec_to_lowercase(#[trigger] a@.technique_ids[i]) == q@ {
            let w = choose|i: int| 0 <= i < a@.technique_ids.len() && spec_to_lowercase(#[trigger] a@.technique_ids[i]) == q@;
            assert(a@.technique_ids[w] == ts@[w]@);
        }
    }
    if named {
        sc = sc + 1000;
    }
    if mentions_exec(a.title.as_str(), q) {
        sc = sc + 50;
    }
    let als = &a.aliases;
    let mut aliased = false;
    let mut k: usize = 0;
    while k < als.len()
        invariant
            k <= als@.len(),
            aliased == exists|i: int| 0 <= i < k && mentions((#[trigger] als@[i])@, q@),
        decreases als.len() - k,
    {
        if mentions_exec(als[k].as_str(), q) {
            aliased = true;
        }
        k = k + 1;
    }
    assert(aliased == exists|i: int| 0 <= i < a@.aliases.len() && mentions(#[trigger] a@.aliases[i], q@)) by {
        if aliased {
            let w = choose|i: int| 0 <= i < k && mentions((#[trigger] als@[i])@, q@);
            assert(a@.aliases[w] == als@[w]@);
        }
        if exists|i: int| 0 <= i < a@.aliases.len() && mentions(#[trigger] a@.aliases[i], q@) {
            let w = choose|i: int| 0 <= i < a@.aliases.len() && mentions(#[trigger] a@.aliases[i], q@);
            assert(a@.aliases[w] == als@[w]@);
        }
    }
    if aliased {
        sc = sc + 40;
    }
    if mentions_exec(a.body_markdown.as_str(), q) {
        sc = sc + 10;
    }
    sc
}

proof fn lemma_hit_order(a: (int, HitView), b: (int, HitView), c: (int, HitView))
    ensures
        !hit_before(a, a),
        hit_before(a, b) && hit_before(b, c) ==> hit_before(a, c),
{
    lemma_lex_irreflexive(encode_utf8(a.1.article_id), 0);
    if hit_before(a, b) && hit_before(b, c) {
        let (ia, ib, ic) = (encode_utf8(a.1.article_id), encode_utf8(b.1.article_id), encode_utf8(c.1.article_id));
        if lex_less(ia, ib) && lex_less(ib, ic) {
            lemma_lex_transitive(ia, ib, ic, 0);
        }
    }
}

fn rank_less(x: &(u32, WikiHit), y: &(u32, WikiHit)) -> (r: bool)
    ensures
        r == hit_before((x.0 as int, x.1@), (y.0 as int, y.1@)),
{
    x.0 > y.0 || (x.0 == y.0 && bytes_less(x.1.article_id.as_str().as_bytes(), y.1.article_id.as_str().as_bytes()))
}

fn rank_hits(v: Vec<(u32, WikiHit)>) -> (out: Vec<(u32, WikiHit)>)
    ensures
        scored_view(out@).to_multiset() == scored_view(v@).to_multiset(),
        ranked(scored_view(out@)),
{
    let ghost orig = v@;
    let mut rest = v;
    let mut out: Vec<(u32, WikiHit)> = Vec::new();
    let ghost mut k: int = 0;
    assert(scored_view(out@) =~= scored_view(orig.take(0)));
    while rest.len() > 0
        invariant
            0 <= k <= orig.len(),
            rest@ == orig.skip(k),
            ranked(scored_view(out@)),
            scored_view(out@).to_multiset() == scored_view(orig.take(k)).to_multiset(),
        decreases rest@.len(),
    {
        let x = rest.remove(0);
        let ghost xv = (x.0 as int, x.1@);
        let mut p: usize = 0;
        while p < out.len() && !rank_less(&x, &out[p])
            invariant
                p <= out@.len(),
                xv == (x.0 as int, x.1@),
                forall|m: int| 0 <= m < p ==> !hit_before(xv, #[trigger] scored_view(out@)[m]),
            decreases out@.len() - p,
        {
            p = p + 1;
        }
        let ghost before = scored_view(out@);
        out.insert(p, x);
        proof {
            let nv = scored_view(out@);
            assert(nv =~= before.insert(p as int, xv));
            assert forall|i: int, j: int| 0 <= i < j < nv.len() implies !hit_before(#[trigger] nv[j], #[trigger] nv[i]) by {
                if i == p && j > p {
                    lemma_hit_order(nv[j], xv, before[p as int]);
                    if j - 1 > p {
                        assert(!hit_before(before[j - 1], before[p as int]));
                    }
                } else if i < p && j == p {
                } else if i < p && j > p {
                    assert(!hit_before(before[j - 1], before[i]));
                } else if j < p {
                    assert(!hit_before(before[j], before[i]));
                } else {
                    assert(!hit_before(before[j - 1], before[i - 1]));
                }
            }
            assert(orig.take(k + 1) =~= orig.take(k).push(x));
            assert(scored_view(orig.take(k + 1)) =~= scored_view(orig.take(k)).push(xv));
            vstd::seq_lib::to_multiset_build(scored_view(orig.take(k)), xv);
            vstd::seq_lib::to_multiset_insert(before, p as int, xv);
            assert(rest@ =~= orig.skip(k + 1));
            k = k + 1;
        }
    }
    assert(orig.take(k) =~= orig);
    out
}

impl WikiPack {
    /// Searches the articles. An empty query lists the first twenty articles
    /// with the excerpt `index`. Otherwise the articles that score for the
    /// trimmed, lower-cased query come back ranked by score (an exact
    /// technique match outweighs every other match) and then id, at
    /// most twenty, each with an excerpt around the first mention in its
    /// body; see `article_score` and `spec_excerpt_for`.
    pub fn search(&self, query: &str) -> (r: Vec<WikiHit>)
        ensures
            ({
                let q = search_query(query@);
                let arts = articles_view(self.articles@);
                if q.len() == 0 {
                    hits_view(r@) == arts.take(min_int(arts.len() as int, 20)).map_values(
                        |a: ArticleView| hit_view(a, "index"@),
                    )
                } else {
                    let sc = scored_hits(arts, q);
                    r@.len() == min_int(sc.len() as int, 20) && exists|s: Seq<(int, HitView)>|
                        s.to_multiset() == sc.to_multiset() && ranked(s) && s.len() == sc.len() && forall|i: int|
                            0 <= i < r@.len() ==> (#[trigger] r@[i])@ == s[i].1
                }
            }),
    {
        let cs = chars_of(query);
        let (t0, t1) = trim_ws_bounds(&cs, 0, cs.len());
        assert(cs@.subrange(0, cs@.len() as int) =~= query@);
        let trimmed = string_of(&cs, t0, t1);
        let q = to_lowercase(trimmed.as_str());
        let ghost arts = articles_view(self.articles@);
        if q.as_str().is_empty() {
            let n = if self.articles.len() < MAX_HITS {
                self.articles.len()
            } else {
                MAX_HITS
            };
            let mut out: Vec<WikiHit> = Vec::new();
            let mut k: usize = 0;
            while k < n
                invariant
                    k <= n,
                    n <= self.articles@.len(),
                    arts == articles_view(self.articles@),
                    hits_view(out@) == arts.take(k as int).map_values(|a: ArticleView| hit_view(a, "index"@)),
                decreases n - k,
            {
                let ghost before = hits_view(out@);
                let h = hit(&self.articles[k], "index");
                out.push(h);
                proof {
                    assert(arts[k as int] == self.articles@[k as int]@);
                    assert(hits_view(out@) =~= before.push(h@));
                    assert(arts.take(k + 1) =~= arts.take(k as int).push(arts[k as int]));
                    assert(arts.take(k + 1).map_values(|a: ArticleView| hit_view(a, "index"@)) =~= arts.take(
                        k as int,
                    ).map_values(|a: ArticleView| hit_view(a, "index"@)).push(hit_view(arts[k as int], "index"@)));
                }
                k = k + 1;
            }
            return out;
        }
        let mut scored: Vec<(u32, WikiHit)> = Vec::new();
        assert(arts.skip(0) =~= arts);
        assert(scored_view(scored@) + scored_hits(arts.skip(0), q@) =~= scored_hits(arts, q@));
        let mut k: usize = 0;
        while k < self.articles.len()
            invariant
                k <= self.articles@.len(),
                arts == articles_view(self.articles@),
                scored_view(scored@) + scored_hits(arts.skip(k as int), q@) == scored_hits(arts, q@),
            decreases self.articles.len() - k,
        {
            let a = &self.articles[k];
            let sc = score(a, &q);
            let ghost tail = arts.skip(k + 1);
            assert(arts.skip(k as int).skip(1) =~= tail);
            assert(arts.skip(k as int)[0] == a@);
            if sc > 0 {
                let e = excerpt_for(a.body_markdown.as_str(), &q);
                let ghost before = scored_view(scored@);
                scored.push((sc, hit(a, e.as_str())));
                assert(scored_view(scored@) =~= before.push((sc as int, hit_view(a@, spec_excerpt_for(a@.body_markdown, q@)))));
            }
            k = k + 1;
        }
        assert(arts.skip(k as int) =~= Seq::<ArticleView>::empty());
        assert(scored_view(scored@) =~= scored_hits(arts, q@));
        let ranked_hits = rank_hits(scored);
        let ghost s = scored_view(ranked_hits@);
        proof {
            vstd::seq_lib::to_multiset_len(s);
            vstd::seq_lib::to_multiset_len(scored_hits(arts, q@));
        }
        let n = if ranked_hits.len() < MAX_HITS {
            ranked_hits.len()
        } else {
            MAX_HITS
        };
        let mut rest = ranked_hits;
        let mut out: Vec<WikiHit> = Vec::new();
        let mut k: usize = 0;
        while k < n
            invariant
                k <= n,
                n <= s.len(),
                rest@.len() == s.len() - k,
                forall|i: int| 0 <= i < rest@.len() ==> (rest@[i].0 as int, rest@[i].1@) == s[k + i],
                out@.len() == k,
                forall|i: int| 0 <= i < k ==> (#[trigger] out@[i])@ == s[i].1,
            decreases n - k,
        {
            let (_, h) = rest.remove(0);
            out.push(h);
            k = k + 1;
        }
        out
    }
}

} // verus!

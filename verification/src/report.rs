//! Session reports: a JSON document and a static HTML page without scripts.

use vstd::prelude::*;
use vstd::string::StringExecFns;

use crate::analysis::{push_str, strings_view, AnalysisResult, Assessment, CoverageStatus, Identification};
use crate::outside::new_uuid;
use crate::text::{chars_of, decimal, push_char, seq_contains, u64_decimal};

verus! {

#[derive(Clone, Debug, PartialEq, Eq)]
pub struct ReportDocument {
    pub report_id: String,
    pub session_id: String,
    pub format: String,
    pub json: String,
    pub html: String,
    pub included_original: bool,
    pub included_bodies: bool,
    pub redactions: Vec<String>,
    pub reproducibility_gaps: Vec<String>,
}

/// How one character shows in HTML text: `&`, `<`, `>` and `"` as
/// entities, anything else as itself.
pub open spec fn escape_char(c: char) -> Seq<char> {
    if c == '&' {
        seq!['&', 'a', 'm', 'p', ';']
    } else if c == '<' {
        seq!['&', 'l', 't', ';']
    } else if c == '>' {
        seq!['&', 'g', 't', ';']
    } else if c == '"' {
        seq!['&', 'q', 'u', 'o', 't', ';']
    } else {
        seq![c]
    }
}

pub open spec fn spec_escape(s: Seq<char>) -> Seq<char>
    decreases s.len(),
{
    if s.len() == 0 {
        Seq::empty()
    } else {
        spec_escape(s.drop_last()) + escape_char(s.last())
    }
}

/// Appends `text` escaped for HTML.
pub fn push_escaped(out: &mut String, text: &str)
    ensures
        final(out)@ == old(out)@ + spec_escape(text@),
{
    let cs = chars_of(text);
    let mut k: usize = 0;
    while k < cs.len()
        invariant
            k <= cs@.len(),
            cs@ == text@,
            out@ == old(out)@ + spec_escape(cs@.take(k as int)),
        decreases cs.len() - k,
    {
        let c = cs[k];
        if c == '&' {
            out.append("&amp;");
        } else if c == '<' {
            out.append("&lt;");
        } else if c == '>' {
            out.append("&gt;");
        } else if c == '"' {
            out.append("&quot;");
        } else {
            push_char(out, c);
        }
        proof {
            reveal_strlit("&amp;");
            reveal_strlit("&lt;");
            reveal_strlit("&gt;");
            reveal_strlit("&quot;");
            assert(cs@.take(k + 1).drop_last() =~= cs@.take(k as int));
            assert(out@ =~= old(out)@ + spec_escape(cs@.take(k + 1)));
        }
        k = k + 1;
    }
    assert(cs@.take(k as int) =~= cs@);
}

/// The assessment as the report writes it: its name in lower case.
pub open spec fn assessment_word(a: Assessment) -> Seq<char> {
    match a {
        Assessment::IndicatorsPresent => "indicatorspresent"@,
        Assessment::NoIndicators => "noindicators"@,
        Assessment::Inconclusive => "inconclusive"@,
    }
}

/// The coverage status as the report writes it: its name.
pub open spec fn coverage_word(c: CoverageStatus) -> Seq<char> {
    match c {
        CoverageStatus::Full => "Full"@,
        CoverageStatus::Partial => "Partial"@,
        CoverageStatus::Unsupported => "Unsupported"@,
    }
}

/// An identification as the report writes it: its name in lower case.
pub open spec fn identification_word(i: Identification) -> Seq<char> {
    match i {
        Identification::Confirmed => "confirmed"@,
        Identification::Probable => "probable"@,
        Identification::Possible => "possible"@,
        Identification::Unknown => "unknown"@,
    }
}

fn assessment_text(a: Assessment) -> (s: &'static str)
    ensures
        s@ == assessment_word(a),
{
    match a {
        Assessment::IndicatorsPresent => "indicatorspresent",
        Assessment::NoIndicators => "noindicators",
        Assessment::Inconclusive => "inconclusive",
    }
}

pub(crate) fn coverage_text(c: CoverageStatus) -> (s: &'static str)
    ensures
        s@ == coverage_word(c),
{
    match c {
        CoverageStatus::Full => "Full",
        CoverageStatus::Partial => "Partial",
        CoverageStatus::Unsupported => "Unsupported",
    }
}

fn identification_text(i: Identification) -> (s: &'static str)
    ensures
        s@ == identification_word(i),
{
    match i {
        Identification::Confirmed => "confirmed",
        Identification::Probable => "probable",
        Identification::Possible => "possible",
        Identification::Unknown => "unknown",
    }
}

pub open spec fn html_head() -> Seq<char> {
    "<!DOCTYPE html><html lang=\"ja\"><head><meta charset=\"utf-8\"><title>UNVEIL report</title></head><body><h1>UNVEIL report</h1><p>This HTML contains no scripts. It is not a safety verdict.</p>"@
}

/// One list item per finding: technique, identification and score.
pub open spec fn finding_items(a: AnalysisResult, n: int) -> Seq<char>
    decreases n,
{
    if n <= 0 || n > a.findings@.len() {
        Seq::empty()
    } else {
        let f = a.findings@[n - 1];
        finding_items(a, n - 1) + "<li>"@ + spec_escape(f.technique_id@) + " "@ + identification_word(
            f.identification,
        ) + " score "@ + decimal(f.score.value as nat) + "</li>"@
    }
}

/// The summary of an analysis: assessment, coverage, count, and the list
/// of findings.
pub open spec fn analysis_section(a: AnalysisResult) -> Seq<char> {
    "<p>assessment="@ + assessment_word(a.assessment) + " coverage="@ + coverage_word(a.coverage.status)
        + " findings="@ + decimal(a.findings@.len()) + "</p><ul>"@ + finding_items(a, a.findings@.len() as int)
        + "</ul>"@
}

/// The report page: a fixed head, the analysis summary when there is one,
/// and the JSON document escaped inside `<pre>`.
pub open spec fn spec_html_report(json: Seq<char>, analysis: Option<AnalysisResult>) -> Seq<char> {
    html_head() + (match analysis {
        Some(a) => analysis_section(a),
        None => Seq::empty(),
    }) + "<pre>"@ + spec_escape(json) + "</pre></body></html>"@
}

/// Writes the report page; see `spec_html_report`.
pub fn html_report(json: &str, analysis: Option<&AnalysisResult>) -> (s: String)
    ensures
        s@ == spec_html_report(
            json@,
            match analysis {
                Some(a) => Some(*a),
                None => None,
            },
        ),
{
    let mut body = String::new();
    body.append(
        "<!DOCTYPE html><html lang=\"ja\"><head><meta charset=\"utf-8\"><title>UNVEIL report</title></head><body><h1>UNVEIL report</h1><p>This HTML contains no scripts. It is not a safety verdict.</p>",
    );
    match analysis {
        Some(a) => {
            let ghost start = body@;
            body.append("<p>assessment=");
            body.append(assessment_text(a.assessment));
            body.append(" coverage=");
            body.append(coverage_text(a.coverage.status));
            body.append(" findings=");
            body.append(u64_decimal(a.findings.len() as u64).as_str());
            body.append("</p><ul>");
            let ghost items_start = body@;
            let mut k: usize = 0;
            while k < a.findings.len()
                invariant
                    k <= a.findings@.len(),
                    body@ == items_start + finding_items(*a, k as int),
                decreases a.findings.len() - k,
            {
                let f = &a.findings[k];
                body.append("<li>");
                push_escaped(&mut body, f.technique_id.as_str());
                body.append(" ");
                body.append(identification_text(f.identification));
                body.append(" score ");
                body.append(u64_decimal(f.score.value as u64).as_str());
                body.append("</li>");
                k = k + 1;
                assert(body@ =~= items_start + finding_items(*a, k as int));
            }
            body.append("</ul>");
            assert(body@ =~= start + analysis_section(*a));
        },
        None => {},
    }
    body.append("<pre>");
    push_escaped(&mut body, json);
    body.append("</pre></body></html>");
    body
}

/// The report on a session: its JSON document (as written by the caller),
/// the page, and the record of what was left out. The original input is
/// never included; without bodies, artifact bodies are redacted too.
pub fn build_report(session_id: &str, analysis: Option<&AnalysisResult>, include_bodies: bool, json: String) -> (r:
    ReportDocument)
    ensures
        r.report_id@.len() == 36,
        r.session_id@ == session_id@,
        r.format@ == "json+html"@,
        r.json@ == json@,
        r.html@ == spec_html_report(
            json@,
            match analysis {
                Some(a) => Some(*a),
                None => None,
            },
        ),
        !r.included_original,
        r.included_bodies == include_bodies,
        strings_view(r.redactions@) == seq!["original_path"@, "raw_excerpt_default"@, "hash_optional"@] + (
        if include_bodies {
            Seq::empty()
        } else {
            seq!["artifact_bodies"@]
        }),
        strings_view(r.reproducibility_gaps@) == seq![
            "Original bytes are omitted unless a reproduce package is approved."@,
        ] + (if include_bodies {
            Seq::empty()
        } else {
            seq!["Bodies omitted: not fully reproducible from this report."@]
        }),
{
    let mut redactions: Vec<String> = Vec::new();
    push_str(&mut redactions, "original_path");
    push_str(&mut redactions, "raw_excerpt_default");
    push_str(&mut redactions, "hash_optional");
    let mut gaps: Vec<String> = Vec::new();
    push_str(&mut gaps, "Original bytes are omitted unless a reproduce package is approved.");
    if !include_bodies {
        push_str(&mut redactions, "artifact_bodies");
        push_str(&mut gaps, "Bodies omitted: not fully reproducible from this report.");
    }
    let html = html_report(json.as_str(), analysis);
    ReportDocument {
        report_id: new_uuid(),
        session_id: session_id.to_string(),
        format: "json+html".to_string(),
        json,
        html,
        included_original: false,
        included_bodies: include_bodies,
        redactions,
        reproducibility_gaps: gaps,
    }
}

// ---------------------------------------------------------------- no scripts

/// Every `<` is followed by a character other than `s`: no tag in the text
/// can open a script.
pub open spec fn no_script_tag(s: Seq<char>) -> bool {
    forall|i: int| 0 <= i < s.len() && #[trigger] s[i] == '<' ==> i + 1 < s.len() && s[i + 1] != 's'
}

proof fn lemma_no_tag_concat(a: Seq<char>, b: Seq<char>)
    requires
        no_script_tag(a),
        no_script_tag(b),
    ensures
        no_script_tag(a + b),
{
    assert forall|i: int| 0 <= i < (a + b).len() && #[trigger] (a + b)[i] == '<' implies i + 1 < (a + b).len()
        && (a + b)[i + 1] != 's' by {
        if i < a.len() {
            assert(a[i] == '<');
        } else {
            assert(b[i - a.len()] == '<');
        }
    }
}

proof fn lemma_escape_no_lt(s: Seq<char>)
    ensures
        forall|i: int| 0 <= i < spec_escape(s).len() ==> #[trigger] spec_escape(s)[i] != '<',
    decreases s.len(),
{
    if s.len() > 0 {
        lemma_escape_no_lt(s.drop_last());
        let p = spec_escape(s.drop_last());
        let e = escape_char(s.last());
        assert(forall|i: int| 0 <= i < e.len() ==> e[i] != '<');
        assert forall|i: int| 0 <= i < spec_escape(s).len() implies #[trigger] spec_escape(s)[i] != '<' by {
            assert(spec_escape(s) == p + e);
            if i < p.len() {
                assert(spec_escape(s)[i] == p[i]);
            } else {
                assert(spec_escape(s)[i] == e[i - p.len()]);
            }
        }
    }
}

proof fn lemma_decimal_no_lt(n: nat)
    ensures
        forall|i: int| 0 <= i < decimal(n).len() ==> #[trigger] decimal(n)[i] != '<',
    decreases n,
{
    if n >= 10 {
        lemma_decimal_no_lt(n / 10);
        assert forall|i: int| 0 <= i < decimal(n).len() implies #[trigger] decimal(n)[i] != '<' by {
            if i < decimal(n / 10).len() {
                assert(decimal(n)[i] == decimal(n / 10)[i]);
            }
        }
    }
}

proof fn lemma_no_lt(s: Seq<char>)
    requires
        forall|i: int| 0 <= i < s.len() ==> #[trigger] s[i] != '<',
    ensures
        no_script_tag(s),
{
}

proof fn lemma_head_safe()
    ensures
        no_script_tag(html_head()),
{
    reveal_strlit(
        "<!DOCTYPE html><html lang=\"ja\"><head><meta charset=\"utf-8\"><title>UNVEIL report</title></head><body><h1>UNVEIL report</h1><p>This HTML contains no scripts. It is not a safety verdict.</p>",
    );
}

proof fn lemma_markup_safe()
    ensures
        no_script_tag("<p>assessment="@),
        no_script_tag(" coverage="@),
        no_script_tag(" findings="@),
        no_script_tag("</p><ul>"@),
        no_script_tag("</ul>"@),
        no_script_tag("<li>"@),
        no_script_tag(" "@),
        no_script_tag(" score "@),
        no_script_tag("</li>"@),
        no_script_tag("<pre>"@),
        no_script_tag("</pre></body></html>"@),
        forall|a: Assessment| no_script_tag(#[trigger] assessment_word(a)),
        forall|c: CoverageStatus| no_script_tag(#[trigger] coverage_word(c)),
        forall|d: Identification| no_script_tag(#[trigger] identification_word(d)),
{
    reveal_strlit("<p>assessment=");
    reveal_strlit(" coverage=");
    reveal_strlit(" findings=");
    reveal_strlit("</p><ul>");
    reveal_strlit("</ul>");
    reveal_strlit("<li>");
    reveal_strlit(" ");
    reveal_strlit(" score ");
    reveal_strlit("</li>");
    reveal_strlit("<pre>");
    reveal_strlit("</pre></body></html>");
    reveal_strlit("indicatorspresent");
    reveal_strlit("noindicators");
    reveal_strlit("inconclusive");
    reveal_strlit("Full");
    reveal_strlit("Partial");
    reveal_strlit("Unsupported");
    reveal_strlit("confirmed");
    reveal_strlit("probable");
    reveal_strlit("possible");
    reveal_strlit("unknown");
}

proof fn lemma_items_safe(a: AnalysisResult, n: int)
    ensures
        no_script_tag(finding_items(a, n)),
    decreases n,
{
    if n > 0 && n <= a.findings@.len() {
        lemma_items_safe(a, n - 1);
        lemma_markup_safe();
        let f = a.findings@[n - 1];
        lemma_escape_no_lt(f.technique_id@);
        lemma_no_lt(spec_escape(f.technique_id@));
        lemma_decimal_no_lt(f.score.value as nat);
        lemma_no_lt(decimal(f.score.value as nat));
        let w = identification_word(f.identification);
        lemma_no_tag_concat(finding_items(a, n - 1), "<li>"@);
        lemma_no_tag_concat(finding_items(a, n - 1) + "<li>"@, spec_escape(f.technique_id@));
        lemma_no_tag_concat(finding_items(a, n - 1) + "<li>"@ + spec_escape(f.technique_id@), " "@);
        lemma_no_tag_concat(finding_items(a, n - 1) + "<li>"@ + spec_escape(f.technique_id@) + " "@, w);
        lemma_no_tag_concat(finding_items(a, n - 1) + "<li>"@ + spec_escape(f.technique_id@) + " "@ + w, " score "@);
        lemma_no_tag_concat(
            finding_items(a, n - 1) + "<li>"@ + spec_escape(f.technique_id@) + " "@ + w + " score "@,
            decimal(f.score.value as nat),
        );
        lemma_no_tag_concat(
            finding_items(a, n - 1) + "<li>"@ + spec_escape(f.technique_id@) + " "@ + w + " score "@ + decimal(
                f.score.value as nat,
            ),
            "</li>"@,
        );
    }
}

/// The report page never opens a script: every `<` in it belongs to its
/// fixed markup, which starts no `<s` tag, and all text taken from the
/// analysis or the JSON document is escaped.
pub proof fn law_report_has_no_script(json: Seq<char>, analysis: Option<AnalysisResult>)
    ensures
        !seq_contains(spec_html_report(json, analysis), "<script"@),
{
    lemma_markup_safe();
    lemma_head_safe();
    let mid = match analysis {
        Some(a) => analysis_section(a),
        None => Seq::<char>::empty(),
    };
    match analysis {
        Some(a) => {
            lemma_decimal_no_lt(a.findings@.len());
            lemma_no_lt(decimal(a.findings@.len()));
            lemma_items_safe(a, a.findings@.len() as int);
            let aw = assessment_word(a.assessment);
            let cw = coverage_word(a.coverage.status);
            let d = decimal(a.findings@.len());
            let items = finding_items(a, a.findings@.len() as int);
            lemma_no_tag_concat("<p>assessment="@, aw);
            lemma_no_tag_concat("<p>assessment="@ + aw, " coverage="@);
            lemma_no_tag_concat("<p>assessment="@ + aw + " coverage="@, cw);
            lemma_no_tag_concat("<p>assessment="@ + aw + " coverage="@ + cw, " findings="@);
            lemma_no_tag_concat("<p>assessment="@ + aw + " coverage="@ + cw + " findings="@, d);
            lemma_no_tag_concat("<p>assessment="@ + aw + " coverage="@ + cw + " findings="@ + d, "</p><ul>"@);
            lemma_no_tag_concat("<p>assessment="@ + aw + " coverage="@ + cw + " findings="@ + d + "</p><ul>"@, items);
            lemma_no_tag_concat(
                "<p>assessment="@ + aw + " coverage="@ + cw + " findings="@ + d + "</p><ul>"@ + items,
                "</ul>"@,
            );
        },
        None => {},
    }
    lemma_escape_no_lt(json);
    lemma_no_lt(spec_escape(json));
    lemma_no_tag_concat(html_head(), mid);
    lemma_no_tag_concat(html_head() + mid, "<pre>"@);
    lemma_no_tag_concat(html_head() + mid + "<pre>"@, spec_escape(json));
    lemma_no_tag_concat(html_head() + mid + "<pre>"@ + spec_escape(json), "</pre></body></html>"@);
    let h = spec_html_report(json, analysis);
    assert(no_script_tag(h));
    reveal_strlit("<script");
    if seq_contains(h, "<script"@) {
        let k = choose|k: int| crate::text::occurs_at(h, "<script"@, k);
        assert(h.subrange(k, k + 7)[0] == '<');
        assert(h[k] == '<');
        assert(h.subrange(k, k + 7)[1] == 's');
        assert(h[k + 1] == 's');
    }
}

} // verus!

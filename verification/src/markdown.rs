//! Markdown summaries of a deobfuscation analysis and of a module job. The
//! original path of an input never appears in them.

use vstd::prelude::*;
use vstd::string::StringExecFns;

use crate::analysis::{AnalysisResult, Assessment, Identification};
use crate::modules::{ContentTypeProbe, ModuleJob};
use crate::outside::{json_pretty, spec_json_pretty};
use crate::report::{coverage_text, coverage_word};
use crate::text::{decimal, u64_decimal};

verus! {

/// An assessment as its variant's name.
pub open spec fn assessment_name(a: Assessment) -> Seq<char> {
    match a {
        Assessment::IndicatorsPresent => "IndicatorsPresent"@,
        Assessment::NoIndicators => "NoIndicators"@,
        Assessment::Inconclusive => "Inconclusive"@,
    }
}

/// An identification as its variant's name.
pub open spec fn identification_name(i: Identification) -> Seq<char> {
    match i {
        Identification::Confirmed => "Confirmed"@,
        Identification::Probable => "Probable"@,
        Identification::Possible => "Possible"@,
        Identification::Unknown => "Unknown"@,
    }
}

fn assessment_name_text(a: Assessment) -> (s: &'static str)
    ensures
        s@ == assessment_name(a),
{
    match a {
        Assessment::IndicatorsPresent => "IndicatorsPresent",
        Assessment::NoIndicators => "NoIndicators",
        Assessment::Inconclusive => "Inconclusive",
    }
}

fn identification_name_text(i: Identification) -> (s: &'static str)
    ensures
        s@ == identification_name(i),
{
    match i {
        Identification::Confirmed => "Confirmed",
        Identification::Probable => "Probable",
        Identification::Possible => "Possible",
        Identification::Unknown => "Unknown",
    }
}

pub open spec fn markdown_head() -> Seq<char> {
    "# 難読化判定レポート\n\n- 未検出は安全の証明ではない\n- Magika score はタイプ信頼度であり悪意確率ではない\n\n## 対象\n\n"@
}

/// One line per finding among the first `n`: technique, identification,
/// score and score kind.
pub open spec fn finding_lines(a: AnalysisResult, n: int) -> Seq<char>
    decreases n,
{
    if n <= 0 || n > a.findings@.len() {
        Seq::empty()
    } else {
        let f = a.findings@[n - 1];
        finding_lines(a, n - 1) + "- `"@ + f.technique_id@ + "` identification="@ + identification_name(
            f.identification,
        ) + " score="@ + decimal(f.score.value as nat) + " kind="@ + f.score.kind@ + "\n"@
    }
}

/// The analysis summary: a fixed caution, the input's shown name and
/// digest, the content-type probe when there is one, the four-axis table
/// and one line per finding.
pub open spec fn spec_deobfuscation_markdown(
    display_name: Seq<char>,
    sha256: Seq<char>,
    a: AnalysisResult,
    probe: Option<ContentTypeProbe>,
) -> Seq<char> {
    markdown_head() + "- 表示名: `"@ + display_name + "`\n- SHA-256: `"@ + sha256 + "`\n"@ + (match probe {
        Some(p) => "- 拡張子: `"@ + p.declared_extension@ + "` / magic: `"@ + p.magic_hint@ + "` / Magika: `"@
            + p.magika.status@ + "`\n"@,
        None => Seq::empty(),
    }) + "\n## 四軸\n\n| coverage | assessment | findings |\n|---|---|---|\n| "@ + coverage_word(a.coverage.status)
        + " | "@ + assessment_name(a.assessment) + " | "@ + decimal(a.findings@.len()) + " |\n\n## Finding\n\n"@
        + finding_lines(a, a.findings@.len() as int) + "\n"@
}

/// Writes the analysis summary; see `spec_deobfuscation_markdown`.
pub fn deobfuscation_markdown(
    display_name: &str,
    sha256: &str,
    analysis: &AnalysisResult,
    probe: Option<&ContentTypeProbe>,
) -> (s: String)
    ensures
        s@ == spec_deobfuscation_markdown(
            display_name@,
            sha256@,
            *analysis,
            match probe {
                Some(p) => Some(*p),
                None => None,
            },
        ),
{
    let mut out = String::new();
    out.append(
        "# 難読化判定レポート\n\n- 未検出は安全の証明ではない\n- Magika score はタイプ信頼度であり悪意確率ではない\n\n## 対象\n\n",
    );
    out.append("- 表示名: `");
    out.append(display_name);
    out.append("`\n- SHA-256: `");
    out.append(sha256);
    out.append("`\n");
    match probe {
        Some(p) => {
            out.append("- 拡張子: `");
            out.append(p.declared_extension.as_str());
            out.append("` / magic: `");
            out.append(p.magic_hint.as_str());
            out.append("` / Magika: `");
            out.append(p.magika.status.as_str());
            out.append("`\n");
        },
        None => {},
    }
    out.append("\n## 四軸\n\n| coverage | assessment | findings |\n|---|---|---|\n| ");
    out.append(coverage_text(analysis.coverage.status));
    out.append(" | ");
    out.append(assessment_name_text(analysis.assessment));
    out.append(" | ");
    out.append(u64_decimal(analysis.findings.len() as u64).as_str());
    out.append(" |\n\n## Finding\n\n");
    let ghost items_start = out@;
    let mut k: usize = 0;
    while k < analysis.findings.len()
        invariant
            k <= analysis.findings@.len(),
            out@ == items_start + finding_lines(*analysis, k as int),
        decreases analysis.findings.len() - k,
    {
        let f = &analysis.findings[k];
        out.append("- `");
        out.append(f.technique_id.as_str());
        out.append("` identification=");
        out.append(identification_name_text(f.identification));
        out.append(" score=");
        out.append(u64_decimal(f.score.value as u64).as_str());
        out.append(" kind=");
        out.append(f.score.kind.as_str());
        out.append("\n");
        k = k + 1;
        assert(out@ =~= items_start + finding_lines(*analysis, k as int));
    }
    out.append("\n");
    out
}

/// The summary of a module job: module, job id, status, the sample's
/// digest (`-` when unknown) and the job's report, pretty-printed (`{}`
/// when it is not JSON).
pub open spec fn spec_module_job_markdown(job: ModuleJob) -> Seq<char> {
    "# "@ + job.module_id@ + " レポート\n\n- job_id: `"@ + job.job_id@ + "`\n- status: "@ + job.status@
        + "\n- sha256: "@ + (match job.sha256 {
        Some(s) => s@,
        None => "-"@,
    }) + "\n\n```json\n"@ + (match spec_json_pretty(job.payload@) {
        Some(p) => p,
        None => "{}"@,
    }) + "\n```\n"@
}

/// Writes the summary of a module job; see `spec_module_job_markdown`.
pub fn module_job_markdown(job: &ModuleJob) -> (s: String)
    ensures
        s@ == spec_module_job_markdown(*job),
{
    let mut out = String::new();
    out.append("# ");
    out.append(job.module_id.as_str());
    out.append(" レポート\n\n- job_id: `");
    out.append(job.job_id.as_str());
    out.append("`\n- status: ");
    out.append(job.status.as_str());
    out.append("\n- sha256: ");
    match &job.sha256 {
        Some(d) => out.append(d.as_str()),
        None => out.append("-"),
    }
    out.append("\n\n```json\n");
    match json_pretty(job.payload.as_str()) {
        Some(p) => out.append(p.as_str()),
        None => out.append("{}"),
    }
    out.append("\n```\n");
    out
}

} // verus!

//! Versions, limits and the records the user interface shows about the
//! application, its sessions and its detectors.

use vstd::prelude::*;

verus! {

pub const SCHEMA_VERSION: &'static str = "1.0";
pub const APP_VERSION: &'static str = "0.1.0";
pub const PHASE: &'static str = "06-mvp";
pub const MAX_INPUT_BYTES: u64 = 52428800;
pub const MAX_TEXT_PARSE_BYTES: u64 = 10485760;
pub const MAX_PREVIEW_BYTES: u64 = 204800;
pub const MAX_GZIP_OUTPUT: u64 = 52428800;
pub const MAX_GZIP_RATIO: u64 = 100;
pub const MAX_CHAIN_DEPTH: u32 = 5;
pub const MAX_TRANSFORM_TRIES: u32 = 20;
pub const JOB_WALL_SECS: u64 = 60;
pub const TRANSFORM_WALL_SECS: u64 = 10;
pub const RULE_VERSION: &'static str = "1.0.0";
pub const KNOWLEDGE_PACK: &'static str = "1.0.0";
pub const PROFILE_STATIC_SAFE: &'static str = "static-safe-v1";


/// Name and versions of the application.
#[derive(Clone, Debug, PartialEq, Eq)]
pub struct AppInfo {
    pub name: String,
    pub version: String,
    pub schema_version: String,
    pub phase: String,
    pub knowledge_pack: String,
    pub rule_version: String,
}

impl AppInfo {
    /// The running application's name and versions.
    pub fn current() -> (a: AppInfo)
        ensures
            a.name@ == "UNVEIL"@,
            a.version@ == APP_VERSION@,
            a.schema_version@ == SCHEMA_VERSION@,
            a.phase@ == PHASE@,
            a.knowledge_pack@ == KNOWLEDGE_PACK@,
            a.rule_version@ == RULE_VERSION@,
    {
        AppInfo {
            name: "UNVEIL".to_string(),
            version: APP_VERSION.to_string(),
            schema_version: SCHEMA_VERSION.to_string(),
            phase: PHASE.to_string(),
            knowledge_pack: KNOWLEDGE_PACK.to_string(),
            rule_version: RULE_VERSION.to_string(),
        }
    }
}

/// A file picked for import, before it is copied.
#[derive(Clone, Debug, PartialEq, Eq)]
pub struct SelectionPreview {
    pub token: String,
    pub display_name: String,
    pub byte_length: u64,
    pub kind_hint: String,
}

/// A snapshot taken into a session.
#[derive(Clone, Debug, PartialEq, Eq)]
pub struct ImportedArtifact {
    pub artifact_id: String,
    pub session_id: String,
    pub display_name: String,
    pub byte_length: u64,
    pub sha256: String,
    pub kind_hint: String,
    pub save_mode: String,
}

impl ImportedArtifact {
    pub fn duplicate(&self) -> (c: ImportedArtifact)
        ensures
            c == *self,
    {
        ImportedArtifact {
            artifact_id: self.artifact_id.clone(),
            session_id: self.session_id.clone(),
            display_name: self.display_name.clone(),
            byte_length: self.byte_length,
            sha256: self.sha256.clone(),
            kind_hint: self.kind_hint.clone(),
            save_mode: self.save_mode.clone(),
        }
    }
}

#[derive(Clone, Debug, PartialEq, Eq)]
pub struct NamedCount {
    pub id: String,
    pub count: u32,
}

#[derive(Clone, Debug, PartialEq, Eq)]
pub struct SessionRow {
    pub session_id: String,
    pub name: String,
    pub findings: u32,
    pub status: String,
}

/// Totals shown on the dashboard.
#[derive(Clone, Debug, PartialEq, Eq)]
pub struct DashboardOverview {
    pub saved_sessions: u32,
    pub jobs_total: u32,
    pub findings_total: u32,
    pub isolation_passed: u32,
    pub categories: Vec<NamedCount>,
    pub techniques: Vec<NamedCount>,
    pub job_outcomes: Vec<NamedCount>,
    pub module_jobs: Vec<NamedCount>,
    pub sessions: Vec<SessionRow>,
}

impl DashboardOverview {
    /// All totals zero and every list empty.
    pub fn empty() -> (d: DashboardOverview)
        ensures
            d.saved_sessions == 0,
            d.jobs_total == 0,
            d.findings_total == 0,
            d.isolation_passed == 0,
            d.categories@.len() == 0,
            d.techniques@.len() == 0,
            d.job_outcomes@.len() == 0,
            d.module_jobs@.len() == 0,
            d.sessions@.len() == 0,
    {
        DashboardOverview {
            saved_sessions: 0,
            jobs_total: 0,
            findings_total: 0,
            isolation_passed: 0,
            categories: Vec::new(),
            techniques: Vec::new(),
            job_outcomes: Vec::new(),
            module_jobs: Vec::new(),
            sessions: Vec::new(),
        }
    }
}

#[derive(Clone, Copy, Debug, PartialEq, Eq, Structural)]
pub enum DetectorId {
    EncBase64,
    EncBase64Url,
    EncBase16,
    EncPercent,
    EncJsEscape,
    CompressionGzip,
    LayoutMinifyJs,
    DataLiteralConcat,
    ControlDynamicEval,
    PeElfPacker,
}

/// A detector as the settings screen lists it.
#[derive(Clone, Debug, PartialEq, Eq)]
pub struct DetectorToggle {
    pub id: DetectorId,
    pub enabled: bool,
    pub mvp: bool,
    pub summary: String,
}

/// The detector at position `i` of the shipped set: its id, and whether it
/// is enabled and part of this release. All are, but the packer detector.
pub open spec fn mvp_detector(i: int) -> (DetectorId, bool, bool) {
    if i == 0 {
        (DetectorId::EncBase64, true, true)
    } else if i == 1 {
        (DetectorId::EncBase64Url, true, true)
    } else if i == 2 {
        (DetectorId::EncBase16, true, true)
    } else if i == 3 {
        (DetectorId::EncPercent, true, true)
    } else if i == 4 {
        (DetectorId::EncJsEscape, true, true)
    } else if i == 5 {
        (DetectorId::CompressionGzip, true, true)
    } else if i == 6 {
        (DetectorId::LayoutMinifyJs, true, true)
    } else if i == 7 {
        (DetectorId::DataLiteralConcat, true, true)
    } else if i == 8 {
        (DetectorId::ControlDynamicEval, true, true)
    } else {
        (DetectorId::PeElfPacker, false, false)
    }
}

/// The summary shown for the `i`-th detector of `mvp_set`.
pub open spec fn mvp_summary(i: int) -> Seq<char> {
    if i == 0 {
        "字種・padding・strict decode の往復。短い一致は難読化陽性にしない。"@
    } else if i == 1 {
        "URL-safe 字種。通常 Base64 と両立する場合は確定しない。"@
    } else if i == 2 {
        "偶数長 hex。ハッシュ表記の可能性を併記する。"@
    } else if i == 3 {
        "%HH 構造。+ を空白へ変えない。"@
    } else if i == 4 {
        "JS 文字列内の \\x / \\u。任意本文には当てない。"@
    } else if i == 5 {
        "マジックと上限付き単一ストリーム。爆弾は LIMIT_REACHED。"@
    } else if i == 6 {
        "行長と空白比。整形のみ。元の識別子は戻せない。"@
    } else if i == 7 {
        "純粋な文字列リテラル同士の + のみ連結。"@
    } else if i == 8 {
        "eval 等の構文の存在。実行しない。"@
    } else {
        "PHASE 07。基本マジックのみ。内部解析しない。"@
    }
}

fn toggle(id: DetectorId, on: bool, summary: &str) -> (t: DetectorToggle)
    ensures
        t.id == id,
        t.enabled == on,
        t.mvp == on,
        t.summary@ == summary@,
{
    DetectorToggle { id, enabled: on, mvp: on, summary: summary.to_string() }
}

impl DetectorToggle {
    /// The detectors this release ships, in display order; see `mvp_detector`.
    pub fn mvp_set() -> (v: Vec<DetectorToggle>)
        ensures
            v@.len() == 10,
            forall|i: int|
                0 <= i < 10 ==> (#[trigger] v@[i]).id == mvp_detector(i).0 && v@[i].enabled
                    == mvp_detector(i).1 && v@[i].mvp == mvp_detector(i).2 && v@[i].summary@ == mvp_summary(i),
    {
        let mut v: Vec<DetectorToggle> = Vec::new();
        v.push(toggle(DetectorId::EncBase64, true, "字種・padding・strict decode の往復。短い一致は難読化陽性にしない。"));
        v.push(toggle(DetectorId::EncBase64Url, true, "URL-safe 字種。通常 Base64 と両立する場合は確定しない。"));
        v.push(toggle(DetectorId::EncBase16, true, "偶数長 hex。ハッシュ表記の可能性を併記する。"));
        v.push(toggle(DetectorId::EncPercent, true, "%HH 構造。+ を空白へ変えない。"));
        v.push(toggle(DetectorId::EncJsEscape, true, "JS 文字列内の \\x / \\u。任意本文には当てない。"));
        v.push(toggle(DetectorId::CompressionGzip, true, "マジックと上限付き単一ストリーム。爆弾は LIMIT_REACHED。"));
        v.push(toggle(DetectorId::LayoutMinifyJs, true, "行長と空白比。整形のみ。元の識別子は戻せない。"));
        v.push(toggle(DetectorId::DataLiteralConcat, true, "純粋な文字列リテラル同士の + のみ連結。"));
        v.push(toggle(DetectorId::ControlDynamicEval, true, "eval 等の構文の存在。実行しない。"));
        v.push(toggle(DetectorId::PeElfPacker, false, "PHASE 07。基本マジックのみ。内部解析しない。"));
        v
    }
}

} // verus!

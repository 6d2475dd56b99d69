//! The helper programs of the modules: how a drive scan is asked for,
//! which line of a helper's output holds its report, what a report says of
//! itself, and what a run comes to.

use vstd::prelude::*;

use crate::analysis::{push_str, strings_view};
use crate::error::{err_is, ErrorCode, IpcError};
use crate::modules::ModuleJob;
use crate::outside::new_uuid;
use crate::text::{
    chars_of, decimal, lemma_next_char, lines_from, next_char_exec, str_eq, string_of, trim_ws, trim_ws_bounds,
    u64_decimal,
};

verus! {

// ---------------------------------------------------------------- drive scans

/// How a read-only scan of a removable drive is run.
#[derive(Clone, Copy, Debug, PartialEq, Eq)]
pub struct UsbScanOptions {
    pub workers: u32,
    pub folder_mode: bool,
}

/// The number of workers a scan uses: the number asked for, kept between
/// one and eight.
pub open spec fn scan_workers(w: u32) -> nat {
    if w < 1 {
        1
    } else if w > 8 {
        8
    } else {
        w as nat
    }
}

/// The scan helper's arguments for a read-only scan of `root`.
pub open spec fn spec_usb_scan_args(root: Seq<char>, opts: UsbScanOptions) -> Seq<Seq<char>> {
    seq!["--root"@, root, "--readonly"@, "--workers"@, decimal(scan_workers(opts.workers))] + if opts.folder_mode {
        seq!["--folder-mode"@]
    } else {
        Seq::empty()
    }
}

/// The scan helper's arguments; see `spec_usb_scan_args`.
pub fn usb_scan_args(root: &str, opts: &UsbScanOptions) -> (v: Vec<String>)
    ensures
        strings_view(v@) == spec_usb_scan_args(root@, *opts),
{
    let w: u32 = if opts.workers < 1 {
        1
    } else if opts.workers > 8 {
        8
    } else {
        opts.workers
    };
    let mut v: Vec<String> = Vec::new();
    push_str(&mut v, "--root");
    push_str(&mut v, root);
    push_str(&mut v, "--readonly");
    push_str(&mut v, "--workers");
    push_str(&mut v, u64_decimal(w as u64).as_str());
    if opts.folder_mode {
        push_str(&mut v, "--folder-mode");
    }
    assert(strings_view(v@) =~= spec_usb_scan_args(root@, *opts));
    v
}

/// Folder mode is on when its setting holds exactly `1`.
pub fn folder_mode_setting(value: Option<&str>) -> (b: bool)
    ensures
        b == (value matches Some(v) && v@ == "1"@),
{
    match value {
        Some(v) => str_eq(v, "1"),
        None => false,
    }
}

// ---------------------------------------------------------------- output

/// A line that, trimmed, starts with `{`.
pub open spec fn opens_json(line: Seq<char>) -> bool {
    trim_ws(line).len() > 0 && trim_ws(line)[0] == '{'
}

/// The last of `lines` that opens a JSON object, else `found`.
pub open spec fn last_json(found: Option<Seq<char>>, lines: Seq<Seq<char>>) -> Option<Seq<char>>
    decreases lines.len(),
{
    if lines.len() == 0 {
        found
    } else {
        last_json(
            if opens_json(lines[0]) {
                Some(lines[0])
            } else {
                found
            },
            lines.skip(1),
        )
    }
}

/// The line of a helper's output that holds its report: the last line
/// that, trimmed, starts with `{`.
pub open spec fn spec_report_line(out: Seq<char>) -> Option<Seq<char>> {
    last_json(None, lines_from(out, 0))
}

/// Finds the report line of a helper's output; see `spec_report_line`.
pub fn report_line(out: &str) -> (r: Option<String>)
    ensures
        match spec_report_line(out@) {
            None => r is None,
            Some(l) => r matches Some(s) && s@ == l,
        },
{
    let cs = chars_of(out);
    let ghost goal = spec_report_line(out@);
    let mut found: Option<String> = None;
    let mut pos: usize = 0;
    while pos < cs.len()
        invariant
            cs@ == out@,
            pos <= cs@.len(),
            goal == spec_report_line(out@),
            last_json(
                match found {
                    Some(s) => Some(s@),
                    None => None,
                },
                lines_from(cs@, pos as int),
            ) == goal,
        decreases cs@.len() - pos,
    {
        let e = next_char_exec(&cs, pos, '\n');
        proof {
            lemma_next_char(cs@, pos as int, '\n');
        }
        let le = if e < cs.len() && e > pos && cs[e - 1] == '\r' {
            e - 1
        } else {
            e
        };
        let ghost line = cs@.subrange(pos as int, le as int);
        let ghost rest_lines = if e < cs@.len() {
            lines_from(cs@, e + 1)
        } else {
            Seq::<Seq<char>>::empty()
        };
        proof {
            let raw = cs@.subrange(pos as int, e as int);
            if e < cs@.len() && raw.len() > 0 && raw.last() == '\r' {
                assert(raw.drop_last() =~= line);
            } else {
                assert(raw =~= line);
            }
            assert(lines_from(cs@, pos as int) == seq![line] + rest_lines);
            assert((seq![line] + rest_lines).skip(1) =~= rest_lines);
            assert((seq![line] + rest_lines)[0] == line);
        }
        let (t0, t1) = trim_ws_bounds(&cs, pos, le);
        if t0 < t1 && cs[t0] == '{' {
            found = Some(string_of(&cs, pos, le));
        }
        if e >= cs.len() {
            pos = cs.len();
            assert(lines_from(cs@, pos as int) =~= Seq::<Seq<char>>::empty());
        } else {
            pos = e + 1;
        }
    }
    assert(lines_from(cs@, pos as int) =~= Seq::<Seq<char>>::empty());
    found
}

// ---------------------------------------------------------------- reports

/// One value read from a helper's JSON report: absent, a string, a
/// boolean, or anything else.
#[derive(Clone, Debug, PartialEq, Eq)]
pub enum JsonField {
    Missing,
    Text(String),
    Flag(bool),
    Other,
}

/// What the modules read from a helper's JSON report, with the report's
/// text. The dynamic statuses are present when the object they belong to
/// is, and then hold its `status` member.
#[derive(Clone, Debug, PartialEq, Eq)]
pub struct SidecarPayload {
    /// The report as JSON text.
    pub text: String,
    /// The member `ok`.
    pub ok: JsonField,
    /// The value at `/report/meta/schema_version`.
    pub report_schema_version: JsonField,
    /// The value at `/meta/schema_version`.
    pub meta_schema_version: JsonField,
    /// The member `status` of `/report/phase2_dynamic`, when that exists.
    pub report_dynamic_status: Option<JsonField>,
    /// The member `status` of `/phase2_dynamic`, when that exists.
    pub dynamic_status: Option<JsonField>,
    /// The value at `/report/phase1_surface/hashes/sha256`.
    pub report_sha256: JsonField,
    /// The member `sha256`.
    pub sha256: JsonField,
}

/// The string a value holds, if it is one.
pub open spec fn text_of(f: JsonField) -> Option<Seq<char>> {
    match f {
        JsonField::Text(s) => Some(s@),
        _ => None,
    }
}

/// The report refuses the job: its `ok` is `false`.
pub open spec fn spec_refused(p: SidecarPayload) -> bool {
    p.ok == JsonField::Flag(false)
}

/// The report is of schema 2.1, read under `report` when it is there and
/// else at the top.
pub open spec fn spec_schema_is_21(p: SidecarPayload) -> bool {
    text_of(
        if p.report_schema_version is Missing {
            p.meta_schema_version
        } else {
            p.report_schema_version
        },
    ) == Some("2.1"@)
}

/// The report's dynamic phase was skipped, read under `report` when it is
/// there and else at the top.
pub open spec fn spec_dynamic_skipped(p: SidecarPayload) -> bool {
    match (match p.report_dynamic_status {
        Some(f) => Some(f),
        None => p.dynamic_status,
    }) {
        Some(f) => text_of(f) == Some("skipped"@),
        None => false,
    }
}

/// The digest a report gives for its sample: the surface phase's, else the
/// top-level one.
pub open spec fn report_digest(p: SidecarPayload) -> Option<Seq<char>> {
    match text_of(p.report_sha256) {
        Some(s) => Some(s),
        None => text_of(p.sha256),
    }
}

fn text_field(f: &JsonField) -> (r: Option<String>)
    ensures
        match text_of(*f) {
            Some(s) => r matches Some(t) && t@ == s,
            None => r is None,
        },
{
    match f {
        JsonField::Text(s) => Some(s.clone()),
        _ => None,
    }
}

/// Whether the report refuses the job; see `spec_refused`.
pub fn refused(p: &SidecarPayload) -> (b: bool)
    ensures
        b == spec_refused(*p),
{
    match p.ok {
        JsonField::Flag(v) => !v,
        _ => false,
    }
}

/// Whether the report is of schema 2.1; see `spec_schema_is_21`.
pub fn schema_is_21(p: &SidecarPayload) -> (b: bool)
    ensures
        b == spec_schema_is_21(*p),
{
    let f = match &p.report_schema_version {
        JsonField::Missing => &p.meta_schema_version,
        other => other,
    };
    match f {
        JsonField::Text(s) => str_eq(s.as_str(), "2.1"),
        _ => false,
    }
}

/// Whether the report's dynamic phase was skipped; see
/// `spec_dynamic_skipped`.
pub fn dynamic_skipped(p: &SidecarPayload) -> (b: bool)
    ensures
        b == spec_dynamic_skipped(*p),
{
    let f = match &p.report_dynamic_status {
        Some(f) => Some(f),
        None => match &p.dynamic_status {
            Some(f) => Some(f),
            None => None,
        },
    };
    match f {
        Some(JsonField::Text(s)) => str_eq(s.as_str(), "skipped"),
        _ => false,
    }
}

/// What a drive scan comes to, from the report found in its output (none
/// when no line held a JSON object) and whether the helper exited cleanly:
/// a missing report is a schema mismatch, a refusing one means the module
/// is unavailable, and a failed exit is a crash.
pub fn scan_outcome(payload: Option<SidecarPayload>, exit_ok: bool) -> (r: Result<SidecarPayload, IpcError>)
    ensures
        match payload {
            None => err_is(r, ErrorCode::SchemaMismatch, "error.schema_mismatch"@),
            Some(p) => if spec_refused(p) {
                err_is(r, ErrorCode::ModuleUnavailable, "error.module_unavailable"@)
            } else if !exit_ok {
                err_is(r, ErrorCode::WorkerCrashed, "error.worker_crashed"@)
            } else {
                r == Ok::<SidecarPayload, IpcError>(p)
            },
        },
{
    match payload {
        None => Err(IpcError::new(ErrorCode::SchemaMismatch, "error.schema_mismatch")),
        Some(p) => {
            if refused(&p) {
                Err(IpcError::new(ErrorCode::ModuleUnavailable, "error.module_unavailable"))
            } else if !exit_ok {
                Err(IpcError::new(ErrorCode::WorkerCrashed, "error.worker_crashed"))
            } else {
                Ok(p)
            }
        },
    }
}

/// What a helper run comes to when its script may be missing: the module
/// is unavailable without it, and a run that gave no report crashed.
pub fn helper_outcome(script_present: bool, payload: Option<SidecarPayload>) -> (r: Result<SidecarPayload, IpcError>)
    ensures
        !script_present ==> err_is(r, ErrorCode::ModuleUnavailable, "error.module_unavailable"@),
        script_present && payload is None ==> err_is(r, ErrorCode::WorkerCrashed, "error.worker_crashed"@),
        script_present && payload is Some ==> r == Ok::<SidecarPayload, IpcError>(payload.unwrap()),
{
    if !script_present {
        return Err(IpcError::new(ErrorCode::ModuleUnavailable, "error.module_unavailable"));
    }
    match payload {
        None => Err(IpcError::new(ErrorCode::WorkerCrashed, "error.worker_crashed")),
        Some(p) => Ok(p),
    }
}

/// The malware module's job from its helper's run: the helper must exist
/// and give a report that does not refuse, is of schema 2.1 and skipped
/// the dynamic phase. The job is completed, carries the report and the
/// sample's digest as the report gives it.
pub fn malcheck_job(script_present: bool, payload: Option<SidecarPayload>) -> (r: Result<ModuleJob, IpcError>)
    ensures
        !script_present ==> err_is(r, ErrorCode::ModuleUnavailable, "error.module_unavailable"@),
        script_present ==> match payload {
            None => err_is(r, ErrorCode::WorkerCrashed, "error.worker_crashed"@),
            Some(p) => if spec_refused(p) {
                err_is(r, ErrorCode::ModuleUnavailable, "error.module_unavailable"@)
            } else if !spec_schema_is_21(p) || !spec_dynamic_skipped(p) {
                err_is(r, ErrorCode::SchemaMismatch, "error.schema_mismatch"@)
            } else {
                r matches Ok(j) && j.job_id@.len() == 36 && j.module_id@ == "malware"@ && j.input_artifact_id is None
                    && j.status@ == "completed"@ && j.payload == p.text && match report_digest(p) {
                    Some(d) => j.sha256 matches Some(s) && s@ == d,
                    None => j.sha256 is None,
                }
            },
        },
{
    let p = match helper_outcome(script_present, payload) {
        Ok(p) => p,
        Err(e) => {
            return Err(e);
        },
    };
    if refused(&p) {
        return Err(IpcError::new(ErrorCode::ModuleUnavailable, "error.module_unavailable"));
    }
    if !schema_is_21(&p) || !dynamic_skipped(&p) {
        return Err(IpcError::new(ErrorCode::SchemaMismatch, "error.schema_mismatch"));
    }
    let sha256 = match text_field(&p.report_sha256) {
        Some(s) => Some(s),
        None => text_field(&p.sha256),
    };
    Ok(
        ModuleJob {
            job_id: new_uuid(),
            module_id: "malware".to_string(),
            input_artifact_id: None,
            sha256,
            status: "completed".to_string(),
            payload: p.text,
        },
    )
}

} // verus!

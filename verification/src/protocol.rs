//! The worker protocol: requests, responses, length-prefixed frames, and the
//! worker's dispatch of one request.

use vstd::prelude::*;

use crate::analysis::{AnalysisResult, Finding};
use crate::codec::{encode_b64, spec_encode_b64};
use crate::engine::{analysis_ok, analyze, preview_from_finding, preview_ok, sha256_hex};
use crate::error::{err_is, ErrorCode, IpcError};
use crate::info::{MAX_INPUT_BYTES, SCHEMA_VERSION};
use crate::isolation::IsolationSelfTestReport;
use crate::codec::spec_encode_hex;
use crate::outside::spec_sha256;
use crate::plan::TransformPreview;
use crate::text::str_eq;
use crate::transform::{apply_adapter, spec_apply_adapter};

verus! {

/// One request from the coordinator to the worker.
#[derive(Clone, Debug)]
pub struct WorkerRequest {
    pub schema_version: String,
    pub op: String,
    pub artifact_id: String,
    pub job_id: String,
    pub adapter_id: Option<String>,
    pub finding: Option<Finding>,
    pub canary_path: Option<String>,
}

impl WorkerRequest {
    /// A request to analyse the body sent with it.
    pub fn analyze(artifact_id: &str, job_id: &str) -> (r: WorkerRequest)
        ensures
            r.schema_version@ == SCHEMA_VERSION@,
            r.op@ == "analyze"@,
            r.artifact_id@ == artifact_id@,
            r.job_id@ == job_id@,
            r.adapter_id is None,
            r.finding is None,
            r.canary_path is None,
    {
        WorkerRequest {
            schema_version: SCHEMA_VERSION.to_string(),
            op: "analyze".to_string(),
            artifact_id: artifact_id.to_string(),
            job_id: job_id.to_string(),
            adapter_id: None,
            finding: None,
            canary_path: None,
        }
    }

    /// A request to run an adapter on what `finding` points at in the body.
    pub fn transform(artifact_id: &str, job_id: &str, adapter_id: &str, finding: Finding) -> (r: WorkerRequest)
        ensures
            r.schema_version@ == SCHEMA_VERSION@,
            r.op@ == "transform"@,
            r.artifact_id@ == artifact_id@,
            r.job_id@ == job_id@,
            r.adapter_id matches Some(a) && a@ == adapter_id@,
            r.finding == Some(finding),
            r.canary_path is None,
    {
        WorkerRequest {
            schema_version: SCHEMA_VERSION.to_string(),
            op: "transform".to_string(),
            artifact_id: artifact_id.to_string(),
            job_id: job_id.to_string(),
            adapter_id: Some(adapter_id.to_string()),
            finding: Some(finding),
            canary_path: None,
        }
    }

    /// A request to test the sandbox, reading the canary file if given.
    pub fn self_test(canary_path: Option<String>) -> (r: WorkerRequest)
        ensures
            r.schema_version@ == SCHEMA_VERSION@,
            r.op@ == "self_test"@,
            r.artifact_id@.len() == 0,
            r.job_id@.len() == 0,
            r.adapter_id is None,
            r.finding is None,
            r.canary_path == canary_path,
    {
        WorkerRequest {
            schema_version: SCHEMA_VERSION.to_string(),
            op: "self_test".to_string(),
            artifact_id: String::new(),
            job_id: String::new(),
            adapter_id: None,
            finding: None,
            canary_path,
        }
    }
}

/// The worker's answer to one request.
#[derive(Clone, Debug)]
pub struct WorkerResponse {
    pub schema_version: String,
    pub ok: bool,
    pub op: String,
    pub analysis: Option<AnalysisResult>,
    pub preview: Option<TransformPreview>,
    pub output_sha256: Option<String>,
    pub output_len: Option<u64>,
    pub output_b64: Option<String>,
    pub self_test: Option<IsolationSelfTestReport>,
    pub error: Option<IpcError>,
}

/// A response that carries nothing but the error `(code, key)`.
pub open spec fn is_failure(r: WorkerResponse, op: Seq<char>, code: ErrorCode, key: Seq<char>) -> bool {
    &&& r.schema_version@ == SCHEMA_VERSION@
    &&& !r.ok
    &&& r.op@ == op
    &&& r.analysis is None
    &&& r.preview is None
    &&& r.output_sha256 is None
    &&& r.output_len is None
    &&& r.output_b64 is None
    &&& r.self_test is None
    &&& r.error matches Some(e) && e@ == (code, key)
}

/// A successful response with only the given parts set.
pub open spec fn is_success(r: WorkerResponse, op: Seq<char>) -> bool {
    &&& r.schema_version@ == SCHEMA_VERSION@
    &&& r.ok
    &&& r.op@ == op
    &&& r.error is None
}

fn fail(op: &str, code: ErrorCode, key: &str) -> (r: WorkerResponse)
    ensures
        is_failure(r, op@, code, key@),
{
    WorkerResponse {
        schema_version: SCHEMA_VERSION.to_string(),
        ok: false,
        op: op.to_string(),
        analysis: None,
        preview: None,
        output_sha256: None,
        output_len: None,
        output_b64: None,
        self_test: None,
        error: Some(IpcError::new(code, key)),
    }
}

/// The request asks for the sandbox self-test, which the caller runs and
/// hands to `dispatch`.
pub open spec fn spec_needs_self_test(req: WorkerRequest) -> bool {
    req.schema_version@ == SCHEMA_VERSION@ && req.op@ == "self_test"@
}

pub fn needs_self_test(req: &WorkerRequest) -> (b: bool)
    ensures
        b == spec_needs_self_test(*req),
{
    str_eq(req.schema_version.as_str(), SCHEMA_VERSION) && str_eq(req.op.as_str(), "self_test")
}

/// Answers one request: a schema mismatch is refused; `self_test` returns
/// the report of the self-test the caller ran; `analyze` analyses the body;
/// `transform` runs the request's adapter on its finding and returns the
/// output with its digest, length, base64 and preview; any other operation
/// is refused.
pub fn dispatch(req: &WorkerRequest, body: &[u8], self_test: Option<IsolationSelfTestReport>) -> (r: WorkerResponse)
    requires
        spec_needs_self_test(*req) ==> self_test is Some,
    ensures
        req.schema_version@ != SCHEMA_VERSION@ ==> is_failure(
            r,
            req.op@,
            ErrorCode::SchemaMismatch,
            "error.schema_mismatch"@,
        ),
        req.schema_version@ == SCHEMA_VERSION@ ==> if req.op@ == "self_test"@ {
            &&& is_success(r, req.op@)
            &&& r.analysis is None && r.preview is None && r.output_sha256 is None
            &&& r.output_len is None && r.output_b64 is None
            &&& r.self_test == self_test
        } else if req.op@ == "analyze"@ {
            &&& is_success(r, req.op@)
            &&& r.analysis matches Some(a) && analysis_ok(a, req.artifact_id@, req.job_id@, body@)
            &&& r.preview is None && r.output_sha256 is None && r.output_len is None
            &&& r.output_b64 is None && r.self_test is None
        } else if req.op@ == "transform"@ {
            match (req.finding, req.adapter_id) {
                (None, _) => is_failure(r, req.op@, ErrorCode::ParseFailed, "error.missing_finding"@),
                (Some(_), None) => is_failure(
                    r,
                    req.op@,
                    ErrorCode::AdapterUnsupported,
                    "error.adapter_unsupported"@,
                ),
                (Some(f), Some(a)) => match spec_apply_adapter(
                    body@,
                    f.range.start as int,
                    f.range.end as int,
                    a@,
                ) {
                    Ok(out) => {
                        &&& is_success(r, req.op@)
                        &&& r.analysis is None && r.self_test is None
                        &&& r.preview matches Some(p) && preview_ok(
                            p,
                            body@,
                            f.range.start as int,
                            f.range.end as int,
                            a@,
                            out,
                        )
                        &&& r.output_sha256 matches Some(h) && h@ == spec_encode_hex(spec_sha256(out))
                        &&& r.output_len == Some(out.len() as u64)
                        &&& r.output_b64 matches Some(b) && b@ == spec_encode_b64(out, false, true)
                    },
                    Err(e) => is_failure(r, req.op@, e.0, e.1),
                },
            }
        } else {
            is_failure(r, req.op@, ErrorCode::ParseFailed, "error.unknown_op"@)
        },
{
    let op = req.op.as_str();
    if !str_eq(req.schema_version.as_str(), SCHEMA_VERSION) {
        return fail(op, ErrorCode::SchemaMismatch, "error.schema_mismatch");
    }
    if str_eq(op, "self_test") {
        WorkerResponse {
            schema_version: SCHEMA_VERSION.to_string(),
            ok: true,
            op: op.to_string(),
            analysis: None,
            preview: None,
            output_sha256: None,
            output_len: None,
            output_b64: None,
            self_test,
            error: None,
        }
    } else if str_eq(op, "analyze") {
        WorkerResponse {
            schema_version: SCHEMA_VERSION.to_string(),
            ok: true,
            op: op.to_string(),
            analysis: Some(analyze(req.artifact_id.as_str(), req.job_id.as_str(), body)),
            preview: None,
            output_sha256: None,
            output_len: None,
            output_b64: None,
            self_test: None,
            error: None,
        }
    } else if str_eq(op, "transform") {
        let finding = match &req.finding {
            Some(f) => f,
            None => {
                return fail(op, ErrorCode::ParseFailed, "error.missing_finding");
            },
        };
        let adapter = match &req.adapter_id {
            Some(a) => a.as_str(),
            None => {
                return fail(op, ErrorCode::AdapterUnsupported, "error.adapter_unsupported");
            },
        };
        match apply_adapter(body, finding, adapter) {
            Ok(out) => {
                let preview = match preview_from_finding(body, finding, adapter) {
                    Ok(p) => Some(p),
                    Err(_) => None,
                };
                WorkerResponse {
                    schema_version: SCHEMA_VERSION.to_string(),
                    ok: true,
                    op: op.to_string(),
                    analysis: None,
                    preview,
                    output_sha256: Some(sha256_hex(out.bytes.as_slice())),
                    output_len: Some(out.bytes.len() as u64),
                    output_b64: Some(encode_b64(out.bytes.as_slice(), false, true)),
                    self_test: None,
                    error: None,
                }
            },
            Err(err) => WorkerResponse {
                schema_version: SCHEMA_VERSION.to_string(),
                ok: false,
                op: op.to_string(),
                analysis: None,
                preview: None,
                output_sha256: None,
                output_len: None,
                output_b64: None,
                self_test: None,
                error: Some(err),
            },
        }
    } else {
        fail(op, ErrorCode::ParseFailed, "error.unknown_op")
    }
}

// ---------------------------------------------------------------- frames

/// Frames sent by the worker carry at most 8 MiB.
pub const MAX_FRAME_WRITE: usize = 8388608;

/// Why a frame could not be read or written.
#[derive(Clone, Copy, Debug, PartialEq, Eq, Structural)]
pub enum FrameError {
    /// The input ended before the frame did.
    Truncated,
    /// The frame is longer than allowed.
    TooLarge,
}

/// The little-endian value of four bytes.
pub open spec fn le_u32(b: Seq<u8>) -> int {
    b[0] + 256 * b[1] + 65536 * b[2] + 16777216 * b[3]
}

/// The length prefix of `n`: its four little-endian bytes.
pub open spec fn le_bytes(n: int) -> Seq<u8> {
    seq![(n % 256) as u8, ((n / 256) % 256) as u8, ((n / 65536) % 256) as u8, ((n / 16777216) % 256) as u8]
}

/// A frame: the body's length as four little-endian bytes, then the body.
/// Bodies over `MAX_FRAME_WRITE` bytes are refused.
pub fn write_frame(bytes: &[u8]) -> (r: Result<Vec<u8>, FrameError>)
    ensures
        bytes@.len() > MAX_FRAME_WRITE ==> r == Err::<Vec<u8>, FrameError>(FrameError::TooLarge),
        bytes@.len() <= MAX_FRAME_WRITE ==> (r matches Ok(v) && v@ == le_bytes(bytes@.len() as int) + bytes@),
{
    let n = bytes.len();
    if n > MAX_FRAME_WRITE {
        return Err(FrameError::TooLarge);
    }
    let mut v: Vec<u8> = Vec::new();
    v.push((n % 256) as u8);
    v.push(((n / 256) % 256) as u8);
    v.push(((n / 65536) % 256) as u8);
    v.push(((n / 16777216) % 256) as u8);
    let mut k: usize = 0;
    while k < n
        invariant
            k <= n,
            n == bytes@.len(),
            v@ == le_bytes(n as int) + bytes@.take(k as int),
        decreases n - k,
    {
        v.push(bytes[k]);
        assert(bytes@.take(k + 1) =~= bytes@.take(k as int).push(bytes@[k as int]));
        assert(v@ =~= le_bytes(n as int) + bytes@.take(k + 1));
        k = k + 1;
    }
    assert(bytes@.take(n as int) =~= bytes@);
    Ok(v)
}

/// The body length a frame header announces, when it is at most `max`.
pub fn frame_len(header: &[u8], max: usize) -> (r: Result<usize, FrameError>)
    ensures
        header@.len() < 4 ==> r == Err::<usize, FrameError>(FrameError::Truncated),
        header@.len() >= 4 ==> (if le_u32(header@) > max {
            r == Err::<usize, FrameError>(FrameError::TooLarge)
        } else {
            r == Ok::<usize, FrameError>(le_u32(header@) as usize)
        }),
{
    if header.len() < 4 {
        return Err(FrameError::Truncated);
    }
    let n: u64 = header[0] as u64 + 256 * (header[1] as u64) + 65536 * (header[2] as u64) + 16777216 * (
    header[3] as u64);
    if n > max as u64 {
        return Err(FrameError::TooLarge);
    }
    Ok(n as usize)
}

/// Reads one frame from the start of `input`: its body and the number of
/// bytes the frame took up.
pub fn read_frame(input: &[u8], max: usize) -> (r: Result<(Vec<u8>, usize), FrameError>)
    ensures
        input@.len() < 4 ==> r == Err::<(Vec<u8>, usize), FrameError>(FrameError::Truncated),
        input@.len() >= 4 ==> ({
            let n = le_u32(input@);
            if n > max {
                r == Err::<(Vec<u8>, usize), FrameError>(FrameError::TooLarge)
            } else if 4 + n > input@.len() {
                r == Err::<(Vec<u8>, usize), FrameError>(FrameError::Truncated)
            } else {
                r matches Ok((body, used)) && body@ == input@.subrange(4, 4 + n) && used == 4 + n
            }
        }),
{
    let n = match frame_len(input, max) {
        Ok(n) => n,
        Err(e) => {
            return Err(e);
        },
    };
    if n > input.len() - 4 {
        return Err(FrameError::Truncated);
    }
    let body = vstd::slice::slice_to_vec(vstd::slice::slice_subrange(input, 4, 4 + n));
    Ok((body, 4 + n))
}

/// Reads the sample's frame, which may carry up to `MAX_INPUT_BYTES`.
pub fn read_body(input: &[u8]) -> (r: Result<(Vec<u8>, usize), FrameError>)
    ensures
        input@.len() < 4 ==> r == Err::<(Vec<u8>, usize), FrameError>(FrameError::Truncated),
        input@.len() >= 4 ==> ({
            let n = le_u32(input@);
            if n > MAX_INPUT_BYTES {
                r == Err::<(Vec<u8>, usize), FrameError>(FrameError::TooLarge)
            } else if 4 + n > input@.len() {
                r == Err::<(Vec<u8>, usize), FrameError>(FrameError::Truncated)
            } else {
                r matches Ok((body, used)) && body@ == input@.subrange(4, 4 + n) && used == 4 + n
            }
        }),
{
    read_frame(input, MAX_INPUT_BYTES as usize)
}

/// How waiting for the isolated worker ended.
#[derive(Clone, Copy, Debug, PartialEq, Eq, Structural)]
pub enum WaitOutcome {
    /// The worker exited.
    Exited,
    /// The wall-clock limit passed first; the worker was stopped.
    TimedOut,
    /// Waiting failed.
    Failed,
}

/// The worker's reply frame from what it wrote: a run past its time limit
/// is refused, a failed wait or a reply cut short is a crash, and a reply
/// announced empty or over `MAX_FRAME_WRITE` bytes breaks the schema.
/// Returns the reply's body.
pub fn worker_reply(wait: WaitOutcome, output: &[u8]) -> (r: Result<Vec<u8>, IpcError>)
    ensures
        wait == WaitOutcome::TimedOut ==> err_is(r, ErrorCode::LimitReached, "error.limit_reached"@),
        wait == WaitOutcome::Failed ==> err_is(r, ErrorCode::WorkerCrashed, "error.worker_crashed"@),
        wait == WaitOutcome::Exited ==> if output@.len() < 4 {
            err_is(r, ErrorCode::WorkerCrashed, "error.worker_crashed"@)
        } else if le_u32(output@) == 0 || le_u32(output@) > MAX_FRAME_WRITE {
            err_is(r, ErrorCode::SchemaMismatch, "error.schema_mismatch"@)
        } else if 4 + le_u32(output@) > output@.len() {
            err_is(r, ErrorCode::WorkerCrashed, "error.worker_crashed"@)
        } else {
            r matches Ok(body) && body@ == output@.subrange(4, 4 + le_u32(output@))
        },
{
    match wait {
        WaitOutcome::TimedOut => {
            return Err(IpcError::new(ErrorCode::LimitReached, "error.limit_reached"));
        },
        WaitOutcome::Failed => {
            return Err(IpcError::new(ErrorCode::WorkerCrashed, "error.worker_crashed"));
        },
        WaitOutcome::Exited => {},
    }
    match read_frame(output, MAX_FRAME_WRITE) {
        Ok((body, _)) => {
            if body.len() == 0 {
                Err(IpcError::new(ErrorCode::SchemaMismatch, "error.schema_mismatch"))
            } else {
                Ok(body)
            }
        },
        Err(FrameError::TooLarge) => Err(IpcError::new(ErrorCode::SchemaMismatch, "error.schema_mismatch")),
        Err(FrameError::Truncated) => Err(IpcError::new(ErrorCode::WorkerCrashed, "error.worker_crashed")),
    }
}

proof fn lemma_le_bytes(x: u32)
    ensures
        (x % 256) + 256 * ((x / 256) % 256) + 65536 * ((x / 65536) % 256) + 16777216 * ((x / 16777216) % 256) == x,
{
    assert((x % 256) + 256 * ((x / 256) % 256) + 65536 * ((x / 65536) % 256) + 16777216 * ((x / 16777216) % 256)
        == x) by (bit_vector);
}

/// Reading a frame that `write_frame` wrote gives back its body: the
/// header announces the body's length, and the body follows it.
pub proof fn law_frame_round_trip(body: Seq<u8>)
    requires
        body.len() <= MAX_FRAME_WRITE,
    ensures
        ({
            let frame = le_bytes(body.len() as int) + body;
            &&& frame.len() >= 4
            &&& le_u32(frame) == body.len()
            &&& frame.subrange(4, 4 + body.len() as int) == body
        }),
{
    let n = body.len() as int;
    let frame = le_bytes(n) + body;
    let x = n as u32;
    lemma_le_bytes(x);
    assert(frame[0] == (n % 256) as u8);
    assert(frame[1] == ((n / 256) % 256) as u8);
    assert(frame[2] == ((n / 65536) % 256) as u8);
    assert(frame[3] == ((n / 16777216) % 256) as u8);
    assert(frame.subrange(4, 4 + n) =~= body);
}

} // verus!

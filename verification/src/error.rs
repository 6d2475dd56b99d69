//! Error codes shared by every operation.

use vstd::prelude::*;

verus! {

#[derive(Clone, Copy, Debug, PartialEq, Eq, Structural)]
pub enum ErrorCode {
    SandboxUnavailable,
    InputNotRegular,
    InputChanged,
    InputTooLarge,
    LimitReached,
    WorkerCrashed,
    Interrupted,
    SchemaMismatch,
    PermissionDenied,
    StorageFull,
    Cancelled,
    NotFound,
    AdapterUnsupported,
    PlanStale,
    ApprovalExpired,
    ValidationFailed,
    ParseFailed,
    InvalidEncoding,
    ModuleUnavailable,
}

/// An error as the interface reports it: a code and a message key.
#[derive(Clone, Debug, PartialEq, Eq)]
pub struct IpcError {
    pub code: ErrorCode,
    pub message_key: String,
}

impl View for IpcError {
    type V = (ErrorCode, Seq<char>);

    open spec fn view(&self) -> (ErrorCode, Seq<char>) {
        (self.code, self.message_key@)
    }
}

impl IpcError {
    pub fn new(code: ErrorCode, message_key: &str) -> (e: IpcError)
        ensures
            e.code == code,
            e.message_key@ == message_key@,
    {
        IpcError { code, message_key: message_key.to_string() }
    }
}

/// The result is the error with this code and message key.
pub open spec fn err_is<T>(r: Result<T, IpcError>, code: ErrorCode, key: Seq<char>) -> bool {
    match r {
        Err(e) => e.code == code && e.message_key@ == key,
        Ok(_) => false,
    }
}

} // verus!

//! The error taxonomy of the gateway and its mapping to HTTP status codes
//! and wire-level error envelopes.

use vstd::prelude::*;

use crate::models::ErrorResponse;

verus! {

/// Errors raised while dispatching a task or event.
///
/// Allow-list and authentication failures are raised by the dispatch layer
/// and never reach the registry or the worker channel; registry lookup
/// misses surface as `NotFound`; handler and worker failures surface as
/// `InternalError` with the underlying message preserved — unless the
/// worker supplied its own structured code and code name, which
/// `WorkerReported` passes through verbatim.
#[derive(Debug, PartialEq)]
pub enum TunnelError {
    Unauthorized,
    Forbidden,
    NotFound,
    MethodNotAllowed,
    InvalidJson(String),
    InternalError(String),
    WorkerReported { code: u16, code_name: String, message: String },
}

/// Result type for tunnel operations.
pub type TunnelResult<T> = Result<T, TunnelError>;

/// The HTTP status code that each error maps to.
pub open spec fn spec_http_status(e: TunnelError) -> u16 {
    match e {
        TunnelError::Unauthorized => 401,
        TunnelError::Forbidden => 403,
        TunnelError::NotFound => 404,
        TunnelError::MethodNotAllowed => 405,
        TunnelError::InvalidJson(_) => 400,
        TunnelError::InternalError(_) => 500,
        TunnelError::WorkerReported { code, .. } => code,
    }
}

/// The stable machine-readable name that each error maps to.
pub open spec fn spec_code_name(e: TunnelError) -> Seq<char> {
    match e {
        TunnelError::Unauthorized => "UNAUTHORIZED"@,
        TunnelError::Forbidden => "FORBIDDEN"@,
        TunnelError::NotFound => "NOT_FOUND"@,
        TunnelError::MethodNotAllowed => "METHOD_NOT_ALLOWED"@,
        TunnelError::InvalidJson(_) => "INVALID_JSON"@,
        TunnelError::InternalError(_) => "INTERNAL_ERROR"@,
        TunnelError::WorkerReported { code_name, .. } => code_name@,
    }
}

/// The human-readable message that each error maps to.
pub open spec fn spec_error_message(e: TunnelError) -> Seq<char> {
    match e {
        TunnelError::Unauthorized => "Invalid or missing token"@,
        TunnelError::Forbidden => "Task or event not in allow-list"@,
        TunnelError::NotFound => "Task or event not found"@,
        TunnelError::MethodNotAllowed => "Method not allowed"@,
        TunnelError::InvalidJson(msg) => msg@,
        TunnelError::InternalError(msg) => msg@,
        TunnelError::WorkerReported { message, .. } => message@,
    }
}

impl TunnelError {
    /// The HTTP status code carried by the response for this error.
    pub fn to_http_status(&self) -> (r: u16)
        ensures
            r == spec_http_status(*self),
    {
        match self {
            TunnelError::Unauthorized => 401,
            TunnelError::Forbidden => 403,
            TunnelError::NotFound => 404,
            TunnelError::MethodNotAllowed => 405,
            TunnelError::InvalidJson(_) => 400,
            TunnelError::InternalError(_) => 500,
            TunnelError::WorkerReported { code, .. } => *code,
        }
    }

    /// The wire-level error envelope for this error: code, stable code
    /// name, and message.
    pub fn to_error_response(&self) -> (r: ErrorResponse)
        ensures
            !r.ok,
            r.error.code == spec_http_status(*self),
            r.error.code_name@ == spec_code_name(*self),
            r.error.message@ == spec_error_message(*self),
    {
        match self {
            TunnelError::Unauthorized => ErrorResponse::unauthorized(),
            TunnelError::Forbidden => ErrorResponse::forbidden(),
            TunnelError::NotFound => ErrorResponse::not_found(),
            TunnelError::MethodNotAllowed => ErrorResponse::method_not_allowed(),
            TunnelError::InvalidJson(msg) => ErrorResponse::invalid_json(msg.as_str()),
            TunnelError::InternalError(msg) => ErrorResponse::internal_error(msg.as_str()),
            TunnelError::WorkerReported { code, code_name, message } => ErrorResponse::new(
                *code,
                code_name.as_str(),
                message.as_str(),
            ),
        }
    }
}

} // verus!

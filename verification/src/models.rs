//! The protocol envelope types of the HTTP surface: success and error
//! responses, request bodies, the allow-list, the discovery payload and the
//! server configuration.

use vstd::prelude::*;

use crate::json::JsonValue;

verus! {

/// Envelope for successful responses: the `ok` flag plus an optional result.
pub struct SuccessResponse<T> {
    pub ok: bool,
    pub result: Option<T>,
}

impl<T> SuccessResponse<T> {
    /// A success envelope carrying a result.
    pub fn new(result: T) -> (r: Self)
        ensures
            r.ok,
            r.result == Some(result),
    {
        SuccessResponse { ok: true, result: Some(result) }
    }

    /// A success envelope with no result (used for event emission).
    pub fn empty() -> (r: Self)
        ensures
            r.ok,
            r.result is None,
    {
        SuccessResponse { ok: true, result: None::<T> }
    }
}

/// Error details in the protocol envelope.
#[derive(Debug)]
pub struct ErrorDetails {
    pub code: u16,
    pub message: String,
    pub code_name: String,
}

/// Envelope for error responses: `ok` is false and `error` gives the
/// stable numeric code, the machine-readable code name, and a message.
#[derive(Debug)]
pub struct ErrorResponse {
    pub ok: bool,
    pub error: ErrorDetails,
}

impl ErrorResponse {
    /// An error envelope with the given code, code name and message.
    pub fn new(code: u16, code_name: &str, message: &str) -> (r: Self)
        ensures
            !r.ok,
            r.error.code == code,
            r.error.code_name@ == code_name@,
            r.error.message@ == message@,
    {
        ErrorResponse {
            ok: false,
            error: ErrorDetails {
                code,
                code_name: code_name.to_owned(),
                message: message.to_owned(),
            },
        }
    }

    pub fn unauthorized() -> (r: Self)
        ensures
            !r.ok,
            r.error.code == 401,
            r.error.code_name@ == "UNAUTHORIZED"@,
            r.error.message@ == "Invalid or missing token"@,
    {
        Self::new(401, "UNAUTHORIZED", "Invalid or missing token")
    }

    pub fn forbidden() -> (r: Self)
        ensures
            !r.ok,
            r.error.code == 403,
            r.error.code_name@ == "FORBIDDEN"@,
            r.error.message@ == "Task or event not in allow-list"@,
    {
        Self::new(403, "FORBIDDEN", "Task or event not in allow-list")
    }

    pub fn not_found() -> (r: Self)
        ensures
            !r.ok,
            r.error.code == 404,
            r.error.code_name@ == "NOT_FOUND"@,
            r.error.message@ == "Task or event not found"@,
    {
        Self::new(404, "NOT_FOUND", "Task or event not found")
    }

    pub fn method_not_allowed() -> (r: Self)
        ensures
            !r.ok,
            r.error.code == 405,
            r.error.code_name@ == "METHOD_NOT_ALLOWED"@,
            r.error.message@ == "Method not allowed"@,
    {
        Self::new(405, "METHOD_NOT_ALLOWED", "Method not allowed")
    }

    pub fn invalid_json(msg: &str) -> (r: Self)
        ensures
            !r.ok,
            r.error.code == 400,
            r.error.code_name@ == "INVALID_JSON"@,
            r.error.message@ == msg@,
    {
        Self::new(400, "INVALID_JSON", msg)
    }

    pub fn internal_error(msg: &str) -> (r: Self)
        ensures
            !r.ok,
            r.error.code == 500,
            r.error.code_name@ == "INTERNAL_ERROR"@,
            r.error.message@ == msg@,
    {
        Self::new(500, "INTERNAL_ERROR", msg)
    }
}

/// Request body for task invocation: `{"input": <json>}`.
#[derive(Debug, PartialEq)]
pub struct TaskRequest {
    pub input: JsonValue,
}

/// Request body for event emission: `{"payload": <json>}`.
#[derive(Debug, PartialEq)]
pub struct EventRequest {
    pub payload: JsonValue,
}

/// True iff some string in `s` reads as `id`.
pub open spec fn seq_contains_str(s: Seq<String>, id: Seq<char>) -> bool {
    exists|i: int| 0 <= i < s.len() && s[i]@ == id
}

/// The configured allow-list: when `enabled` is false every id is
/// permitted; when true, only the listed ids are.
#[derive(Debug, Clone)]
pub struct AllowList {
    pub enabled: bool,
    pub tasks: Vec<String>,
    pub events: Vec<String>,
}

impl AllowList {
    /// Whether `task_id` may be dispatched: always when the list is
    /// disabled, otherwise exactly when it is listed.
    pub fn contains_task(&self, task_id: &str) -> (r: bool)
        ensures
            r == (!self.enabled || seq_contains_str(self.tasks@, task_id@)),
    {
        if !self.enabled {
            return true;
        }
        contains_string(&self.tasks, task_id)
    }

    /// Whether `event_id` may be dispatched: always when the list is
    /// disabled, otherwise exactly when it is listed.
    pub fn contains_event(&self, event_id: &str) -> (r: bool)
        ensures
            r == (!self.enabled || seq_contains_str(self.events@, event_id@)),
    {
        if !self.enabled {
            return true;
        }
        contains_string(&self.events, event_id)
    }
}

/// Whether any element of `v` reads as `id`.
pub fn contains_string(v: &Vec<String>, id: &str) -> (r: bool)
    ensures
        r == seq_contains_str(v@, id@),
{
    let key: String = id.to_owned();
    let n = v.len();
    let mut i: usize = 0;
    while i < n
        invariant
            n == v@.len(),
            i <= n,
            key@ == id@,
            forall|j: int| 0 <= j < i ==> v@[j]@ != id@,
        decreases n - i,
    {
        if v[i] == key {
            return true;
        }
        i = i + 1;
    }
    false
}

/// Discovery payload: the allow-list as served by the discovery endpoint.
#[derive(Debug)]
pub struct DiscoveryResult {
    pub allow_list: AllowList,
}

/// Configuration for the tunnel server.
#[derive(Debug, Clone)]
pub struct TunnelConfig {
    pub base_path: String,
    pub port: u16,
    pub auth_token: String,
    pub auth_header: String,
    /// When false, every id is implicitly permitted and the two lists are
    /// ignored; when true, only the listed ids are permitted.
    pub allow_list_enabled: bool,
    pub allowed_tasks: Vec<String>,
    pub allowed_events: Vec<String>,
    pub cors_origin: Option<String>,
    /// When true, authentication is delegated to the worker process;
    /// when false, the dispatch layer checks the configured token itself.
    pub delegate_auth: bool,
}

impl Default for TunnelConfig {
    /// The default configuration: base path `/__runner`, port 7070, token
    /// auth on header `x-runner-token`, allow-list disabled (everything
    /// permitted), permissive CORS, and authentication delegated to the
    /// worker.
    fn default() -> (r: Self)
        ensures
            r.base_path@ == "/__runner"@,
            r.port == 7070,
            r.auth_token@ == "secret"@,
            r.auth_header@ == "x-runner-token"@,
            !r.allow_list_enabled,
            r.allowed_tasks@.len() == 0,
            r.allowed_events@.len() == 0,
            r.cors_origin matches Some(o) && o@ == "*"@,
            r.delegate_auth,
    {
        TunnelConfig {
            base_path: "/__runner".to_owned(),
            port: 7070,
            auth_token: "secret".to_owned(),
            auth_header: "x-runner-token".to_owned(),
            allow_list_enabled: false,
            allowed_tasks: Vec::new(),
            allowed_events: Vec::new(),
            cors_origin: Some("*".to_owned()),
            delegate_auth: true,
        }
    }
}

} // verus!

//! The dispatch pipeline: request-body parsing, allow-list enforcement,
//! routing into the registry, and the HTTP response envelopes.
//!
//! The HTTP server itself lives outside the library; it hands these
//! functions the operation id from the path and the raw request body, and
//! sends back the returned envelope text with the matching status code.
//! Authentication runs before dispatch (see [`crate::auth`]); allow-list
//! and authentication failures never reach the registry.

use vstd::prelude::*;

use crate::error::{spec_code_name, spec_error_message, spec_http_status, TunnelError};
use crate::json::{
    dec_line, encode_value, enc_val, lemma_view_of_members, spec_get, view_of, view_of_members,
    JVal, JsonValue,
};
use crate::models::{seq_contains_str, EventRequest, TaskRequest, TunnelConfig};
use crate::registry::{spec_lookup, EventHandler, TaskHandler, TaskRegistry};

verus! {

/// Application state shared across handlers: the configuration and the
/// registry.
pub struct AppState<T, E> {
    pub config: TunnelConfig,
    pub registry: TaskRegistry<T, E>,
}

impl<T: TaskHandler, E: EventHandler> AppState<T, E> {
    pub fn new(config: TunnelConfig, registry: TaskRegistry<T, E>) -> (r: Self)
        ensures
            r.config == config,
            r.registry == registry,
    {
        AppState { config, registry }
    }
}

/// The task input carried by a request body: the `input` member of the
/// body's JSON object, or nothing when the body is not such an object.
pub open spec fn task_body_input(s: Seq<char>) -> Option<JVal> {
    match dec_line(s) {
        Some(j) => spec_get(j, "input"@),
        None => None,
    }
}

/// The event payload carried by a request body.
pub open spec fn event_body_payload(s: Seq<char>) -> Option<JVal> {
    match dec_line(s) {
        Some(j) => spec_get(j, "payload"@),
        None => None,
    }
}

/// Parses a task invocation body `{"input": <json>}`; any other body is
/// invalid JSON for this endpoint. The body grammar is the library's
/// JSON model: numbers are 64-bit integers, so a body with a fractional
/// or out-of-range number is rejected as invalid JSON.
pub fn parse_task_request(body: &str) -> (r: Result<TaskRequest, TunnelError>)
    ensures
        match r {
            Ok(tr) => task_body_input(body@) == Some(tr.input@),
            Err(e) => {
                &&& task_body_input(body@) is None
                &&& e is InvalidJson
                &&& spec_error_message(e) == "invalid task request body"@
            },
        },
{
    match crate::json::decode_line(body) {
        Some(v) => match v.get("input") {
            Some(x) => Ok(TaskRequest { input: x.duplicate() }),
            None => Err(TunnelError::InvalidJson("invalid task request body".to_owned())),
        },
        None => Err(TunnelError::InvalidJson("invalid task request body".to_owned())),
    }
}

/// Parses an event emission body `{"payload": <json>}`, with the same
/// integer-only number grammar as task bodies.
pub fn parse_event_request(body: &str) -> (r: Result<EventRequest, TunnelError>)
    ensures
        match r {
            Ok(er) => event_body_payload(body@) == Some(er.payload@),
            Err(e) => {
                &&& event_body_payload(body@) is None
                &&& e is InvalidJson
                &&& spec_error_message(e) == "invalid event request body"@
            },
        },
{
    match crate::json::decode_line(body) {
        Some(v) => match v.get("payload") {
            Some(x) => Ok(EventRequest { payload: x.duplicate() }),
            None => Err(TunnelError::InvalidJson("invalid event request body".to_owned())),
        },
        None => Err(TunnelError::InvalidJson("invalid event request body".to_owned())),
    }
}

/// Whether `id` may be dispatched as a task under this configuration:
/// with the allow-list disabled every id is permitted, with it enabled
/// exactly the listed ids.
pub open spec fn task_allowed(cfg: TunnelConfig, id: Seq<char>) -> bool {
    !cfg.allow_list_enabled || seq_contains_str(cfg.allowed_tasks@, id)
}

/// Whether `id` may be dispatched as an event under this configuration.
pub open spec fn event_allowed(cfg: TunnelConfig, id: Seq<char>) -> bool {
    !cfg.allow_list_enabled || seq_contains_str(cfg.allowed_events@, id)
}

/// Whether the configured allow-list permits dispatching task `id`.
pub fn task_is_allowed(cfg: &TunnelConfig, id: &str) -> (r: bool)
    ensures
        r == task_allowed(*cfg, id@),
{
    !cfg.allow_list_enabled || crate::models::contains_string(&cfg.allowed_tasks, id)
}

/// Whether the configured allow-list permits dispatching event `id`.
pub fn event_is_allowed(cfg: &TunnelConfig, id: &str) -> (r: bool)
    ensures
        r == event_allowed(*cfg, id@),
{
    !cfg.allow_list_enabled || crate::models::contains_string(&cfg.allowed_events, id)
}

/// The success envelope carrying a result: `{"ok":true,"result":...}`.
pub open spec fn success_body_of(res: JVal) -> Seq<char> {
    enc_val(JVal::Obj(seq![("ok"@, JVal::Bool(true)), ("result"@, res)]))
}

/// The empty success envelope: `{"ok":true}`.
pub open spec fn empty_success_body_of() -> Seq<char> {
    enc_val(JVal::Obj(seq![("ok"@, JVal::Bool(true))]))
}

/// The error envelope:
/// `{"ok":false,"error":{"code":...,"codeName":...,"message":...}}`.
pub open spec fn error_body_of(e: TunnelError) -> Seq<char> {
    enc_val(
        JVal::Obj(
            seq![
                ("ok"@, JVal::Bool(false)),
                (
                    "error"@,
                    JVal::Obj(
                        seq![
                            ("code"@, JVal::Int(spec_http_status(e) as int)),
                            ("codeName"@, JVal::Str(spec_code_name(e))),
                            ("message"@, JVal::Str(spec_error_message(e))),
                        ],
                    ),
                ),
            ],
        ),
    )
}

/// Writes the success envelope for a result value.
pub fn success_body(res: &JsonValue) -> (r: String)
    ensures
        r@ == success_body_of(view_of(*res)),
{
    let mut ms: Vec<(String, JsonValue)> = Vec::new();
    ms.push(("ok".to_owned(), JsonValue::Bool(true)));
    ms.push(("result".to_owned(), res.duplicate()));
    let v = JsonValue::Obj(ms);
    proof {
        lemma_view_of_members(v->Obj_0@);
        assert(v->Obj_0@.len() == 2);
        assert(v->Obj_0@[0].0@ == "ok"@ && view_of(v->Obj_0@[0].1) == JVal::Bool(true));
        assert(v->Obj_0@[1].0@ == "result"@ && view_of(v->Obj_0@[1].1) == view_of(*res));
        assert(view_of_members(v->Obj_0@) =~~= seq![
            ("ok"@, JVal::Bool(true)),
            ("result"@, view_of(*res)),
        ]);
        assert(view_of(v) =~~= JVal::Obj(seq![("ok"@, JVal::Bool(true)), ("result"@, view_of(*res))]));
    }
    encode_value(&v)
}

/// Writes the empty success envelope.
pub fn empty_success_body() -> (r: String)
    ensures
        r@ == empty_success_body_of(),
{
    let mut ms: Vec<(String, JsonValue)> = Vec::new();
    ms.push(("ok".to_owned(), JsonValue::Bool(true)));
    let v = JsonValue::Obj(ms);
    proof {
        lemma_view_of_members(v->Obj_0@);
        assert(v->Obj_0@.len() == 1);
        assert(v->Obj_0@[0].0@ == "ok"@ && view_of(v->Obj_0@[0].1) == JVal::Bool(true));
        assert(view_of_members(v->Obj_0@) =~~= seq![("ok"@, JVal::Bool(true))]);
        assert(view_of(v) =~~= JVal::Obj(seq![("ok"@, JVal::Bool(true))]));
    }
    encode_value(&v)
}

/// Writes the error envelope for an error, with its stable numeric code
/// and code name.
pub fn error_body(e: &TunnelError) -> (r: String)
    ensures
        r@ == error_body_of(*e),
{
    let resp = e.to_error_response();
    let mut ems: Vec<(String, JsonValue)> = Vec::new();
    ems.push(("code".to_owned(), JsonValue::Int(resp.error.code as i64)));
    ems.push(("codeName".to_owned(), JsonValue::Str(resp.error.code_name)));
    ems.push(("message".to_owned(), JsonValue::Str(resp.error.message)));
    proof {
        lemma_view_of_members(ems@);
        assert(ems@.len() == 3);
        assert(ems@[0].0@ == "code"@ && view_of(ems@[0].1) == JVal::Int(
            spec_http_status(*e) as int,
        ));
        assert(ems@[1].0@ == "codeName"@ && view_of(ems@[1].1) == JVal::Str(spec_code_name(*e)));
        assert(ems@[2].0@ == "message"@ && view_of(ems@[2].1) == JVal::Str(
            spec_error_message(*e),
        ));
        assert(view_of_members(ems@) =~~= seq![
            ("code"@, JVal::Int(spec_http_status(*e) as int)),
            ("codeName"@, JVal::Str(spec_code_name(*e))),
            ("message"@, JVal::Str(spec_error_message(*e))),
        ]);
    }
    let mut ms: Vec<(String, JsonValue)> = Vec::new();
    ms.push(("ok".to_owned(), JsonValue::Bool(false)));
    ms.push(("error".to_owned(), JsonValue::Obj(ems)));
    let v = JsonValue::Obj(ms);
    proof {
        lemma_view_of_members(v->Obj_0@);
        assert(v->Obj_0@.len() == 2);
        assert(v->Obj_0@[0].0@ == "ok"@ && view_of(v->Obj_0@[0].1) == JVal::Bool(false));
        assert(v->Obj_0@[1].0@ == "error"@);
        assert(view_of(v->Obj_0@[1].1) == JVal::Obj(view_of_members(ems@)));
        assert(view_of_members(v->Obj_0@) =~~= seq![
            ("ok"@, JVal::Bool(false)),
            ("error"@, JVal::Obj(view_of_members(ems@))),
        ]);
        assert(view_of(v) =~~= JVal::Obj(
            seq![
                ("ok"@, JVal::Bool(false)),
                (
                    "error"@,
                    JVal::Obj(
                        seq![
                            ("code"@, JVal::Int(spec_http_status(*e) as int)),
                            ("codeName"@, JVal::Str(spec_code_name(*e))),
                            ("message"@, JVal::Str(spec_error_message(*e))),
                        ],
                    ),
                ),
            ],
        ));
    }
    encode_value(&v)
}

/// Handles `POST {base}/task/{taskId}` after authentication: parses the
/// body, enforces the allow-list, executes the registered handler, and
/// wraps its result in the success envelope. A body without an `input`
/// object member is invalid JSON; an id not permitted by the allow-list is
/// forbidden and never reaches the registry; an unregistered id is not
/// found; a handler failure propagates unchanged.
pub fn handle_task<T: TaskHandler, E: EventHandler>(
    state: &AppState<T, E>,
    task_id: &str,
    body: &str,
) -> (r: Result<String, TunnelError>)
    ensures
        task_body_input(body@) is None ==> (r matches Err(e) && e is InvalidJson),
        task_body_input(body@) is Some && !task_allowed(state.config, task_id@) ==> (r matches Err(
            e,
        ) && e is Forbidden),
        task_allowed(state.config, task_id@) ==> (task_body_input(body@) matches Some(input)
            ==> (match spec_lookup(state.registry.tasks@, task_id@) {
            None => r matches Err(e) && e is NotFound,
            Some(h) => match r {
                Ok(s) => exists|v: JsonValue|
                    #[trigger] h.task_post(input, Ok(v)) && s@ == success_body_of(view_of(v)),
                Err(e) => h.task_post(input, Err(e)),
            },
        })),
{
    let req = match parse_task_request(body) {
        Ok(req) => req,
        Err(e) => {
            return Err(e);
        },
    };
    let allowed = task_is_allowed(&state.config, task_id);
    if !allowed {
        return Err(TunnelError::Forbidden);
    }
    match state.registry.execute_task(task_id, &req.input) {
        Ok(v) => {
            let s = success_body(&v);
            proof {
                let ghost input = task_body_input(body@)->0;
                match spec_lookup(state.registry.tasks@, task_id@) {
                    Some(h) => {
                        assert(h.task_post(input, Ok(v)));
                    },
                    None => {},
                }
            }
            Ok(s)
        },
        Err(e) => Err(e),
    }
}

/// Handles `POST {base}/event/{eventId}` after authentication: parses the
/// body, enforces the allow-list, emits through the registered handler,
/// and answers with the empty success envelope.
pub fn handle_event<T: TaskHandler, E: EventHandler>(
    state: &AppState<T, E>,
    event_id: &str,
    body: &str,
) -> (r: Result<String, TunnelError>)
    ensures
        event_body_payload(body@) is None ==> (r matches Err(e) && e is InvalidJson),
        event_body_payload(body@) is Some && !event_allowed(state.config, event_id@) ==> (r matches
            Err(e) && e is Forbidden),
        event_allowed(state.config, event_id@) ==> (event_body_payload(body@) matches Some(
            payload,
        ) ==> (match spec_lookup(state.registry.events@, event_id@) {
            None => r matches Err(e) && e is NotFound,
            Some(h) => match r {
                Ok(s) => h.event_post(payload, Ok(())) && s@ == empty_success_body_of(),
                Err(e) => h.event_post(payload, Err(e)),
            },
        })),
{
    let req = match parse_event_request(body) {
        Ok(req) => req,
        Err(e) => {
            return Err(e);
        },
    };
    let allowed = event_is_allowed(&state.config, event_id);
    if !allowed {
        return Err(TunnelError::Forbidden);
    }
    match state.registry.emit_event(event_id, &req.payload) {
        Ok(u) => {
            let s = empty_success_body();
            proof {
                let ghost payload = event_body_payload(body@)->0;
                match spec_lookup(state.registry.events@, event_id@) {
                    Some(h) => {
                        assert(Ok::<(), TunnelError>(u) == Ok::<(), TunnelError>(()));
                        assert(h.event_post(payload, Ok(())));
                    },
                    None => {},
                }
            }
            Ok(s)
        },
        Err(e) => Err(e),
    }
}

/// The JSON array of the given id strings.
pub open spec fn str_arr_of(ss: Seq<String>) -> JVal {
    JVal::Arr(ss.map_values(|s: String| JVal::Str(s@)))
}

/// The discovery envelope:
/// `{"ok":true,"result":{"allowList":{"enabled":...,"tasks":[...],"events":[...]}}}`,
/// with the configured enabled flag and the configured id lists in their
/// configured order.
pub open spec fn discovery_body_of(cfg: TunnelConfig) -> Seq<char> {
    enc_val(
        JVal::Obj(
            seq![
                ("ok"@, JVal::Bool(true)),
                (
                    "result"@,
                    JVal::Obj(
                        seq![
                            (
                                "allowList"@,
                                JVal::Obj(
                                    seq![
                                        ("enabled"@, JVal::Bool(cfg.allow_list_enabled)),
                                        ("tasks"@, str_arr_of(cfg.allowed_tasks@)),
                                        ("events"@, str_arr_of(cfg.allowed_events@)),
                                    ],
                                ),
                            ),
                        ],
                    ),
                ),
            ],
        ),
    )
}

/// The JSON array of id strings, as a value.
fn ids_to_value(ids: &Vec<String>) -> (r: JsonValue)
    ensures
        view_of(r) == str_arr_of(ids@),
{
    let mut es: Vec<JsonValue> = Vec::new();
    let n = ids.len();
    let mut i: usize = 0;
    while i < n
        invariant
            n == ids@.len(),
            i <= n,
            es@.len() == i,
            forall|j: int| 0 <= j < i ==> #[trigger] es@[j] == JsonValue::Str(ids@[j]),
        decreases n - i,
    {
        es.push(JsonValue::Str(ids[i].clone()));
        i = i + 1;
    }
    proof {
        crate::json::lemma_view_of_elems(es@);
        assert(crate::json::view_of_elems(es@) =~= str_arr_of(ids@)->Arr_0);
    }
    JsonValue::Arr(es)
}

/// Handles `GET|POST {base}/discovery`: returns the success envelope
/// holding exactly the configured allow-list, so clients can
/// self-configure without hardcoding ids. The id lists come back in their
/// configured order.
pub fn handle_discovery<T: TaskHandler, E: EventHandler>(state: &AppState<T, E>) -> (r: String)
    ensures
        r@ == discovery_body_of(state.config),
{
    let tasks = ids_to_value(&state.config.allowed_tasks);
    let events = ids_to_value(&state.config.allowed_events);
    let mut al: Vec<(String, JsonValue)> = Vec::new();
    al.push(("enabled".to_owned(), JsonValue::Bool(state.config.allow_list_enabled)));
    al.push(("tasks".to_owned(), tasks));
    al.push(("events".to_owned(), events));
    proof {
        lemma_view_of_members(al@);
        assert(view_of_members(al@) =~~= seq![
            ("enabled"@, JVal::Bool(state.config.allow_list_enabled)),
            ("tasks"@, str_arr_of(state.config.allowed_tasks@)),
            ("events"@, str_arr_of(state.config.allowed_events@)),
        ]);
    }
    let ghost gal = al@;
    let mut res: Vec<(String, JsonValue)> = Vec::new();
    res.push(("allowList".to_owned(), JsonValue::Obj(al)));
    proof {
        lemma_view_of_members(res@);
        assert(res@.len() == 1);
        assert(res@[0].0@ == "allowList"@);
        assert(res@[0].1->Obj_0@ == gal);
        assert(view_of(res@[0].1) == JVal::Obj(view_of_members(gal)));
    }
    let ghost gres = res@;
    let mut ms: Vec<(String, JsonValue)> = Vec::new();
    ms.push(("ok".to_owned(), JsonValue::Bool(true)));
    ms.push(("result".to_owned(), JsonValue::Obj(res)));
    let v = JsonValue::Obj(ms);
    proof {
        lemma_view_of_members(v->Obj_0@);
        assert(v->Obj_0@.len() == 2);
        assert(v->Obj_0@[0].0@ == "ok"@ && view_of(v->Obj_0@[0].1) == JVal::Bool(true));
        assert(v->Obj_0@[1].0@ == "result"@);
        assert(v->Obj_0@[1].1->Obj_0@ == gres);
        assert(view_of(v->Obj_0@[1].1) == JVal::Obj(view_of_members(gres)));
        assert(view_of_members(v->Obj_0@) =~~= seq![
            ("ok"@, JVal::Bool(true)),
            ("result"@, JVal::Obj(view_of_members(gres))),
        ]);
        assert(view_of(v) =~~= JVal::Obj(
            seq![
                ("ok"@, JVal::Bool(true)),
                (
                    "result"@,
                    JVal::Obj(
                        seq![
                            (
                                "allowList"@,
                                JVal::Obj(
                                    seq![
                                        ("enabled"@, JVal::Bool(state.config.allow_list_enabled)),
                                        ("tasks"@, str_arr_of(state.config.allowed_tasks@)),
                                        ("events"@, str_arr_of(state.config.allowed_events@)),
                                    ],
                                ),
                            ),
                        ],
                    ),
                ),
            ],
        ));
    }
    encode_value(&v)
}

} // verus!

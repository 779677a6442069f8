//! The wire envelopes exchanged with the worker process, and their line
//! codec.
//!
//! Requests carry a discriminating `type` field (`task`, `event`, `auth`,
//! `shutdown`), a correlation `id`, the operation id, the value, and an
//! optional HTTP request context; responses carry the echoed `id`, the `ok`
//! flag, and either a `result` or a structured `error`. Field names are a
//! stable external contract.

use vstd::prelude::*;

use crate::json::{
    dec_line, decode_line, enc_val, encode_value, jval_get, lemma_codec_round_trip,
    lemma_view_of_members, view_of, view_of_members, wf_members, wf_val, JVal, JsonValue,
};

verus! {

/// HTTP request context forwarded to the worker for authentication or
/// execution: method, path, and header / query pairs.
#[derive(Debug, Clone, PartialEq)]
pub struct RequestContext {
    pub method: String,
    pub path: String,
    pub headers: Vec<(String, String)>,
    pub query: Vec<(String, String)>,
}

/// The model of a [`RequestContext`].
#[verifier::ext_equal]
pub struct CtxView {
    pub method: Seq<char>,
    pub path: Seq<char>,
    pub headers: Seq<(Seq<char>, Seq<char>)>,
    pub query: Seq<(Seq<char>, Seq<char>)>,
}

/// The models of a list of string pairs.
pub open spec fn pairs_view(ps: Seq<(String, String)>) -> Seq<(Seq<char>, Seq<char>)> {
    ps.map_values(|p: (String, String)| (p.0@, p.1@))
}

/// The model of a request context.
pub open spec fn ctx_view(c: RequestContext) -> CtxView {
    CtxView {
        method: c.method@,
        path: c.path@,
        headers: pairs_view(c.headers@),
        query: pairs_view(c.query@),
    }
}

/// A request from the gateway to the worker.
#[derive(Debug, PartialEq)]
pub enum WorkerRequest {
    /// Authenticate an HTTP request.
    Auth { id: u64, context: RequestContext },
    /// Execute a task.
    Task { id: u64, task_id: String, input: JsonValue, context: Option<RequestContext> },
    /// Emit an event.
    Event { id: u64, event_id: String, payload: JsonValue, context: Option<RequestContext> },
    /// Ask the worker to shut down.
    Shutdown { id: u64 },
}

/// The model of a [`WorkerRequest`].
#[verifier::ext_equal]
pub enum ReqView {
    Auth { id: int, context: CtxView },
    Task { id: int, task_id: Seq<char>, input: JVal, context: Option<CtxView> },
    Event { id: int, event_id: Seq<char>, payload: JVal, context: Option<CtxView> },
    Shutdown { id: int },
}

/// The model of a worker request.
pub open spec fn req_view(r: WorkerRequest) -> ReqView {
    match r {
        WorkerRequest::Auth { id, context } => ReqView::Auth {
            id: id as int,
            context: ctx_view(context),
        },
        WorkerRequest::Task { id, task_id, input, context } => ReqView::Task {
            id: id as int,
            task_id: task_id@,
            input: view_of(input),
            context: match context {
                Some(c) => Some(ctx_view(c)),
                None => None,
            },
        },
        WorkerRequest::Event { id, event_id, payload, context } => ReqView::Event {
            id: id as int,
            event_id: event_id@,
            payload: view_of(payload),
            context: match context {
                Some(c) => Some(ctx_view(c)),
                None => None,
            },
        },
        WorkerRequest::Shutdown { id } => ReqView::Shutdown { id: id as int },
    }
}

impl WorkerRequest {
    /// The correlation id of this request.
    pub fn id(&self) -> (r: u64)
        ensures
            r as int == spec_req_id(req_view(*self)),
    {
        match self {
            WorkerRequest::Auth { id, .. } => *id,
            WorkerRequest::Task { id, .. } => *id,
            WorkerRequest::Event { id, .. } => *id,
            WorkerRequest::Shutdown { id } => *id,
        }
    }
}

/// The correlation id of a request model.
pub open spec fn spec_req_id(v: ReqView) -> int {
    match v {
        ReqView::Auth { id, .. } => id,
        ReqView::Task { id, .. } => id,
        ReqView::Event { id, .. } => id,
        ReqView::Shutdown { id } => id,
    }
}

/// Structured error carried by a failing worker response.
#[derive(Debug, PartialEq)]
pub struct WorkerError {
    pub message: String,
    pub code: u16,
    pub code_name: String,
}

/// The model of a [`WorkerError`].
#[verifier::ext_equal]
pub struct ErrView {
    pub message: Seq<char>,
    pub code: int,
    pub code_name: Seq<char>,
}

/// The model of a worker error.
pub open spec fn err_view(e: WorkerError) -> ErrView {
    ErrView { message: e.message@, code: e.code as int, code_name: e.code_name@ }
}

/// A response from the worker to the gateway. Exactly one of `result` and
/// `error` is meaningful, according to `ok`.
#[derive(Debug, PartialEq)]
pub struct WorkerResponse {
    pub id: u64,
    pub ok: bool,
    pub result: Option<JsonValue>,
    pub error: Option<WorkerError>,
}

/// The model of a [`WorkerResponse`].
#[verifier::ext_equal]
pub struct RespView {
    pub id: int,
    pub ok: bool,
    pub result: Option<JVal>,
    pub error: Option<ErrView>,
}

/// The model of a worker response.
pub open spec fn resp_view(r: WorkerResponse) -> RespView {
    RespView {
        id: r.id as int,
        ok: r.ok,
        result: match r.result {
            Some(v) => Some(view_of(v)),
            None => None,
        },
        error: match r.error {
            Some(e) => Some(err_view(e)),
            None => None,
        },
    }
}

// ------------------------------------------------------------------
// The wire shape: envelopes as JSON values
// ------------------------------------------------------------------

/// String pairs as the members of a JSON object of strings.
pub open spec fn str_obj(ps: Seq<(Seq<char>, Seq<char>)>) -> Seq<(Seq<char>, JVal)> {
    ps.map_values(|p: (Seq<char>, Seq<char>)| (p.0, JVal::Str(p.1)))
}

/// A request context as a JSON value.
pub open spec fn ctx_to_jval(c: CtxView) -> JVal {
    JVal::Obj(
        seq![
            ("method"@, JVal::Str(c.method)),
            ("path"@, JVal::Str(c.path)),
            ("headers"@, JVal::Obj(str_obj(c.headers))),
            ("query"@, JVal::Obj(str_obj(c.query))),
        ],
    )
}

/// A request envelope as a JSON value, with the stable field names and
/// order of the wire contract.
pub open spec fn req_to_jval(v: ReqView) -> JVal {
    match v {
        ReqView::Auth { id, context } => JVal::Obj(
            seq![
                ("type"@, JVal::Str("auth"@)),
                ("id"@, JVal::Int(id)),
                ("context"@, ctx_to_jval(context)),
            ],
        ),
        ReqView::Task { id, task_id, input, context } => match context {
            Some(c) => JVal::Obj(
                seq![
                    ("type"@, JVal::Str("task"@)),
                    ("id"@, JVal::Int(id)),
                    ("taskId"@, JVal::Str(task_id)),
                    ("input"@, input),
                    ("context"@, ctx_to_jval(c)),
                ],
            ),
            None => JVal::Obj(
                seq![
                    ("type"@, JVal::Str("task"@)),
                    ("id"@, JVal::Int(id)),
                    ("taskId"@, JVal::Str(task_id)),
                    ("input"@, input),
                ],
            ),
        },
        ReqView::Event { id, event_id, payload, context } => match context {
            Some(c) => JVal::Obj(
                seq![
                    ("type"@, JVal::Str("event"@)),
                    ("id"@, JVal::Int(id)),
                    ("eventId"@, JVal::Str(event_id)),
                    ("payload"@, payload),
                    ("context"@, ctx_to_jval(c)),
                ],
            ),
            None => JVal::Obj(
                seq![
                    ("type"@, JVal::Str("event"@)),
                    ("id"@, JVal::Int(id)),
                    ("eventId"@, JVal::Str(event_id)),
                    ("payload"@, payload),
                ],
            ),
        },
        ReqView::Shutdown { id } => JVal::Obj(
            seq![("type"@, JVal::Str("shutdown"@)), ("id"@, JVal::Int(id))],
        ),
    }
}

/// A response envelope as a JSON value.
pub open spec fn resp_to_jval(v: RespView) -> JVal {
    let base = seq![("id"@, JVal::Int(v.id)), ("ok"@, JVal::Bool(v.ok))];
    let with_result = match v.result {
        Some(res) => base + seq![("result"@, res)],
        None => base,
    };
    let with_error = match v.error {
        Some(e) => with_result + seq![
            (
                "error"@,
                JVal::Obj(
                    seq![
                        ("message"@, JVal::Str(e.message)),
                        ("code"@, JVal::Int(e.code)),
                        ("codeName"@, JVal::Str(e.code_name)),
                    ],
                ),
            ),
        ],
        None => with_result,
    };
    JVal::Obj(with_error)
}

/// Well-formedness of a request model: the correlation id fits in the
/// codec's integer range, and a task input or event payload is itself
/// well formed.
pub open spec fn req_wf(v: ReqView) -> bool {
    match v {
        ReqView::Auth { id, .. } => 0 <= id <= i64::MAX,
        ReqView::Task { id, input, .. } => 0 <= id <= i64::MAX && wf_val(input),
        ReqView::Event { id, payload, .. } => 0 <= id <= i64::MAX && wf_val(payload),
        ReqView::Shutdown { id } => 0 <= id <= i64::MAX,
    }
}

/// Well-formedness of a response model.
pub open spec fn resp_wf(v: RespView) -> bool {
    &&& 0 <= v.id <= i64::MAX
    &&& match v.result {
        Some(r) => wf_val(r),
        None => true,
    }
    &&& match v.error {
        Some(e) => 0 <= e.code <= 0xFFFF,
        None => true,
    }
}

/// The encoded line of a request envelope.
pub open spec fn enc_request(v: ReqView) -> Seq<char> {
    enc_val(req_to_jval(v))
}

/// The encoded line of a response envelope.
pub open spec fn enc_response(v: RespView) -> Seq<char> {
    enc_val(resp_to_jval(v))
}

// ------------------------------------------------------------------
// Encoding (executable)
// ------------------------------------------------------------------

/// A JSON object of strings from a list of string pairs.
fn pairs_to_value(ps: &Vec<(String, String)>) -> (r: JsonValue)
    ensures
        view_of(r) == JVal::Obj(str_obj(pairs_view(ps@))),
{
    let mut ms: Vec<(String, JsonValue)> = Vec::new();
    let n = ps.len();
    let mut i: usize = 0;
    while i < n
        invariant
            n == ps@.len(),
            i <= n,
            ms@.len() == i,
            forall|j: int| 0 <= j < i ==> (#[trigger] ms@[j]).0@ == ps@[j].0@ && ms@[j].1
                == JsonValue::Str(ps@[j].1),
        decreases n - i,
    {
        ms.push((ps[i].0.clone(), JsonValue::Str(ps[i].1.clone())));
        i = i + 1;
    }
    proof {
        lemma_view_of_members(ms@);
        assert(view_of_members(ms@) =~= str_obj(pairs_view(ps@)));
    }
    JsonValue::Obj(ms)
}

/// A request context as an executable JSON value.
fn ctx_to_value(c: &RequestContext) -> (r: JsonValue)
    ensures
        view_of(r) == ctx_to_jval(ctx_view(*c)),
{
    let mut ms: Vec<(String, JsonValue)> = Vec::new();
    ms.push(("method".to_owned(), JsonValue::Str(c.method.clone())));
    ms.push(("path".to_owned(), JsonValue::Str(c.path.clone())));
    ms.push(("headers".to_owned(), pairs_to_value(&c.headers)));
    ms.push(("query".to_owned(), pairs_to_value(&c.query)));
    proof {
        lemma_view_of_members(ms@);
        assert(view_of_members(ms@) =~= ctx_to_jval(ctx_view(*c))->Obj_0);
    }
    JsonValue::Obj(ms)
}

/// The single-line encoding of a request envelope.
#[verifier::rlimit(100)]
pub fn encode_request(req: &WorkerRequest) -> (r: String)
    requires
        req_wf(req_view(*req)),
    ensures
        r@ == enc_request(req_view(*req)),
{
    match req {
        WorkerRequest::Auth { id, context } => {
            let mut ms: Vec<(String, JsonValue)> = Vec::new();
            ms.push(("type".to_owned(), JsonValue::Str("auth".to_owned())));
            ms.push(("id".to_owned(), JsonValue::Int(*id as i64)));
            ms.push(("context".to_owned(), ctx_to_value(context)));
            let v = JsonValue::Obj(ms);
            proof {
                lemma_view_of_members(v->Obj_0@);
                assert(v->Obj_0@.len() == 3);
                assert(v->Obj_0@[0].0@ == "type"@);
                assert(view_of(v->Obj_0@[0].1) == JVal::Str("auth"@));
                assert(v->Obj_0@[1].0@ == "id"@);
                assert(view_of(v->Obj_0@[1].1) == JVal::Int(*id as int));
                assert(v->Obj_0@[2].0@ == "context"@);
                assert(view_of(v->Obj_0@[2].1) == ctx_to_jval(ctx_view(*context)));
                assert(view_of_members(v->Obj_0@) =~~= req_to_jval(req_view(*req))->Obj_0);
                assert(view_of(v) =~~= req_to_jval(req_view(*req)));
            }
            encode_value(&v)
        },
        WorkerRequest::Task { id, task_id, input, context } => {
            let mut ms: Vec<(String, JsonValue)> = Vec::new();
            ms.push(("type".to_owned(), JsonValue::Str("task".to_owned())));
            ms.push(("id".to_owned(), JsonValue::Int(*id as i64)));
            ms.push(("taskId".to_owned(), JsonValue::Str(task_id.clone())));
            ms.push(("input".to_owned(), input.duplicate()));
            match context {
                Some(c) => {
                    ms.push(("context".to_owned(), ctx_to_value(c)));
                    let v = JsonValue::Obj(ms);
                    proof {
                        lemma_view_of_members(v->Obj_0@);
                        assert(v->Obj_0@.len() == 5);
                        assert(v->Obj_0@[0].0@ == "type"@);
                        assert(view_of(v->Obj_0@[0].1) == JVal::Str("task"@));
                        assert(v->Obj_0@[1].0@ == "id"@);
                        assert(view_of(v->Obj_0@[1].1) == JVal::Int(*id as int));
                        assert(v->Obj_0@[2].0@ == "taskId"@);
                        assert(view_of(v->Obj_0@[2].1) == JVal::Str(task_id@));
                        assert(v->Obj_0@[3].0@ == "input"@);
                        assert(view_of(v->Obj_0@[3].1) == view_of(*input));
                        assert(v->Obj_0@[4].0@ == "context"@);
                        assert(view_of(v->Obj_0@[4].1) == ctx_to_jval(ctx_view(*c)));
                        assert(view_of_members(v->Obj_0@) =~~= req_to_jval(
                            req_view(*req),
                        )->Obj_0);
                        assert(view_of(v) =~~= req_to_jval(req_view(*req)));
                    }
                    encode_value(&v)
                },
                None => {
                    let v = JsonValue::Obj(ms);
                    proof {
                        lemma_view_of_members(v->Obj_0@);
                        assert(v->Obj_0@.len() == 4);
                        assert(v->Obj_0@[0].0@ == "type"@);
                        assert(view_of(v->Obj_0@[0].1) == JVal::Str("task"@));
                        assert(v->Obj_0@[1].0@ == "id"@);
                        assert(view_of(v->Obj_0@[1].1) == JVal::Int(*id as int));
                        assert(v->Obj_0@[2].0@ == "taskId"@);
                        assert(view_of(v->Obj_0@[2].1) == JVal::Str(task_id@));
                        assert(v->Obj_0@[3].0@ == "input"@);
                        assert(view_of(v->Obj_0@[3].1) == view_of(*input));
                        assert(view_of_members(v->Obj_0@) =~~= req_to_jval(
                            req_view(*req),
                        )->Obj_0);
                        assert(view_of(v) =~~= req_to_jval(req_view(*req)));
                    }
                    encode_value(&v)
                },
            }
        },
        WorkerRequest::Event { id, event_id, payload, context } => {
            let mut ms: Vec<(String, JsonValue)> = Vec::new();
            ms.push(("type".to_owned(), JsonValue::Str("event".to_owned())));
            ms.push(("id".to_owned(), JsonValue::Int(*id as i64)));
            ms.push(("eventId".to_owned(), JsonValue::Str(event_id.clone())));
            ms.push(("payload".to_owned(), payload.duplicate()));
            match context {
                Some(c) => {
                    ms.push(("context".to_owned(), ctx_to_value(c)));
                    let v = JsonValue::Obj(ms);
                    proof {
                        lemma_view_of_members(v->Obj_0@);
                        assert(v->Obj_0@.len() == 5);
                        assert(v->Obj_0@[0].0@ == "type"@);
                        assert(view_of(v->Obj_0@[0].1) == JVal::Str("event"@));
                        assert(v->Obj_0@[1].0@ == "id"@);
                        assert(view_of(v->Obj_0@[1].1) == JVal::Int(*id as int));
                        assert(v->Obj_0@[2].0@ == "eventId"@);
                        assert(view_of(v->Obj_0@[2].1) == JVal::Str(event_id@));
                        assert(v->Obj_0@[3].0@ == "payload"@);
                        assert(view_of(v->Obj_0@[3].1) == view_of(*payload));
                        assert(v->Obj_0@[4].0@ == "context"@);
                        assert(view_of(v->Obj_0@[4].1) == ctx_to_jval(ctx_view(*c)));
                        assert(view_of_members(v->Obj_0@) =~~= req_to_jval(
                            req_view(*req),
                        )->Obj_0);
                        assert(view_of(v) =~~= req_to_jval(req_view(*req)));
                    }
                    encode_value(&v)
                },
                None => {
                    let v = JsonValue::Obj(ms);
                    proof {
                        lemma_view_of_members(v->Obj_0@);
                        assert(v->Obj_0@.len() == 4);
                        assert(v->Obj_0@[0].0@ == "type"@);
                        assert(view_of(v->Obj_0@[0].1) == JVal::Str("event"@));
                        assert(v->Obj_0@[1].0@ == "id"@);
                        assert(view_of(v->Obj_0@[1].1) == JVal::Int(*id as int));
                        assert(v->Obj_0@[2].0@ == "eventId"@);
                        assert(view_of(v->Obj_0@[2].1) == JVal::Str(event_id@));
                        assert(v->Obj_0@[3].0@ == "payload"@);
                        assert(view_of(v->Obj_0@[3].1) == view_of(*payload));
                        assert(view_of_members(v->Obj_0@) =~~= req_to_jval(
                            req_view(*req),
                        )->Obj_0);
                        assert(view_of(v) =~~= req_to_jval(req_view(*req)));
                    }
                    encode_value(&v)
                },
            }
        },
        WorkerRequest::Shutdown { id } => {
            let mut ms: Vec<(String, JsonValue)> = Vec::new();
            ms.push(("type".to_owned(), JsonValue::Str("shutdown".to_owned())));
            ms.push(("id".to_owned(), JsonValue::Int(*id as i64)));
            let v = JsonValue::Obj(ms);
            proof {
                lemma_view_of_members(v->Obj_0@);
                assert(v->Obj_0@.len() == 2);
                assert(v->Obj_0@[0].0@ == "type"@);
                assert(view_of(v->Obj_0@[0].1) == JVal::Str("shutdown"@));
                assert(v->Obj_0@[1].0@ == "id"@);
                assert(view_of(v->Obj_0@[1].1) == JVal::Int(*id as int));
                assert(view_of_members(v->Obj_0@) =~~= req_to_jval(req_view(*req))->Obj_0);
                assert(view_of(v) =~~= req_to_jval(req_view(*req)));
            }
            encode_value(&v)
        },
    }
}

/// The single-line encoding of a response envelope.
#[verifier::rlimit(100)]
pub fn encode_response(resp: &WorkerResponse) -> (r: String)
    requires
        resp_wf(resp_view(*resp)),
    ensures
        r@ == enc_response(resp_view(*resp)),
{
    let ghost rv = resp_view(*resp);
    let ghost base = seq![("id"@, JVal::Int(rv.id)), ("ok"@, JVal::Bool(rv.ok))];
    let ghost with_result: Seq<(Seq<char>, JVal)> = match rv.result {
        Some(res) => base + seq![("result"@, res)],
        None => base,
    };
    let mut ms: Vec<(String, JsonValue)> = Vec::new();
    ms.push(("id".to_owned(), JsonValue::Int(resp.id as i64)));
    ms.push(("ok".to_owned(), JsonValue::Bool(resp.ok)));
    proof {
        lemma_view_of_members(ms@);
        assert(ms@.len() == 2);
        assert(ms@[0].0@ == "id"@);
        assert(view_of(ms@[0].1) == JVal::Int(rv.id));
        assert(ms@[1].0@ == "ok"@);
        assert(view_of(ms@[1].1) == JVal::Bool(rv.ok));
        assert(view_of_members(ms@) =~~= base);
    }
    match &resp.result {
        Some(res) => {
            ms.push(("result".to_owned(), res.duplicate()));
            proof {
                lemma_view_of_members(ms@);
                assert(ms@.len() == 3);
                assert(ms@[2].0@ == "result"@);
                assert(view_of(ms@[2].1) == view_of(*res));
                assert(view_of_members(ms@) =~~= with_result);
            }
        },
        None => {
            proof {
                assert(view_of_members(ms@) =~~= with_result);
            }
        },
    }
    let ghost k = ms@.len() as int;
    let ghost pre_err = ms@;
    match &resp.error {
        Some(e) => {
            let mut ems: Vec<(String, JsonValue)> = Vec::new();
            ems.push(("message".to_owned(), JsonValue::Str(e.message.clone())));
            ems.push(("code".to_owned(), JsonValue::Int(e.code as i64)));
            ems.push(("codeName".to_owned(), JsonValue::Str(e.code_name.clone())));
            proof {
                lemma_view_of_members(ems@);
                assert(ems@.len() == 3);
                assert(ems@[0].0@ == "message"@);
                assert(view_of(ems@[0].1) == JVal::Str(e.message@));
                assert(ems@[1].0@ == "code"@);
                assert(view_of(ems@[1].1) == JVal::Int(e.code as int));
                assert(ems@[2].0@ == "codeName"@);
                assert(view_of(ems@[2].1) == JVal::Str(e.code_name@));
                assert(view_of_members(ems@) =~~= seq![
                    ("message"@, JVal::Str(e.message@)),
                    ("code"@, JVal::Int(e.code as int)),
                    ("codeName"@, JVal::Str(e.code_name@)),
                ]);
            }
            let ghost gems = ems@;
            ms.push(("error".to_owned(), JsonValue::Obj(ems)));
            proof {
                lemma_view_of_members(ms@);
                assert(ms@.len() == k + 1);
                assert(ms@[k].0@ == "error"@);
                assert(ms@[k].1->Obj_0@ == gems);
                assert(view_of(ms@[k].1) == JVal::Obj(view_of_members(gems)));
                assert(forall|j: int| 0 <= j < k ==> ms@[j] == pre_err[j]);
                assert(view_of_members(ms@) =~~= resp_to_jval(rv)->Obj_0);
            }
        },
        None => {
            proof {
                assert(view_of_members(ms@) =~~= resp_to_jval(rv)->Obj_0);
            }
        },
    }
    let v = JsonValue::Obj(ms);
    proof {
        assert(view_of(v) =~~= resp_to_jval(rv));
    }
    encode_value(&v)
}

// ------------------------------------------------------------------
// Decoding (specification)
// ------------------------------------------------------------------

/// Object members read back as string pairs: `None` when any member value
/// is not a string.
pub open spec fn str_pairs(ms: Seq<(Seq<char>, JVal)>) -> Option<Seq<(Seq<char>, Seq<char>)>>
    decreases ms,
{
    if ms.len() == 0 {
        Some(Seq::empty())
    } else {
        match ms[0].1 {
            JVal::Str(v) => match str_pairs(ms.drop_first()) {
                Some(t) => Some(seq![(ms[0].0, v)] + t),
                None => None,
            },
            _ => None,
        }
    }
}

/// A request context read from a JSON value.
pub open spec fn jval_to_ctx(j: JVal) -> Option<CtxView> {
    match j {
        JVal::Obj(ms) => match (
            jval_get(ms, "method"@),
            jval_get(ms, "path"@),
            jval_get(ms, "headers"@),
            jval_get(ms, "query"@),
        ) {
            (
                Some(JVal::Str(method)),
                Some(JVal::Str(path)),
                Some(JVal::Obj(hs)),
                Some(JVal::Obj(qs)),
            ) => match (str_pairs(hs), str_pairs(qs)) {
                (Some(headers), Some(query)) => Some(
                    CtxView { method, path, headers, query },
                ),
                _ => None,
            },
            _ => None,
        },
        _ => None,
    }
}

/// A request envelope read from a JSON value: the `type` field selects the
/// variant, the other fields are looked up by name, and out-of-range ids
/// or malformed contexts are rejected.
pub open spec fn jval_to_req(j: JVal) -> Option<ReqView> {
    match j {
        JVal::Obj(ms) => match jval_get(ms, "type"@) {
            Some(JVal::Str(t)) => if t == "auth"@ {
                match (jval_get(ms, "id"@), jval_get(ms, "context"@)) {
                    (Some(JVal::Int(id)), Some(cj)) => if 0 <= id <= i64::MAX {
                        match jval_to_ctx(cj) {
                            Some(c) => Some(ReqView::Auth { id, context: c }),
                            None => None,
                        }
                    } else {
                        None
                    },
                    _ => None,
                }
            } else if t == "task"@ {
                match (jval_get(ms, "id"@), jval_get(ms, "taskId"@), jval_get(ms, "input"@)) {
                    (Some(JVal::Int(id)), Some(JVal::Str(task_id)), Some(input)) => if 0 <= id
                        <= i64::MAX {
                        match jval_get(ms, "context"@) {
                            None => Some(
                                ReqView::Task { id, task_id, input, context: None },
                            ),
                            Some(cj) => match jval_to_ctx(cj) {
                                Some(c) => Some(
                                    ReqView::Task { id, task_id, input, context: Some(c) },
                                ),
                                None => None,
                            },
                        }
                    } else {
                        None
                    },
                    _ => None,
                }
            } else if t == "event"@ {
                match (jval_get(ms, "id"@), jval_get(ms, "eventId"@), jval_get(ms, "payload"@)) {
                    (Some(JVal::Int(id)), Some(JVal::Str(event_id)), Some(payload)) => if 0 <= id
                        <= i64::MAX {
                        match jval_get(ms, "context"@) {
                            None => Some(
                                ReqView::Event { id, event_id, payload, context: None },
                            ),
                            Some(cj) => match jval_to_ctx(cj) {
                                Some(c) => Some(
                                    ReqView::Event { id, event_id, payload, context: Some(c) },
                                ),
                                None => None,
                            },
                        }
                    } else {
                        None
                    },
                    _ => None,
                }
            } else if t == "shutdown"@ {
                match jval_get(ms, "id"@) {
                    Some(JVal::Int(id)) => if 0 <= id <= i64::MAX {
                        Some(ReqView::Shutdown { id })
                    } else {
                        None
                    },
                    _ => None,
                }
            } else {
                None
            },
            _ => None,
        },
        _ => None,
    }
}

/// A structured error read from a JSON value.
pub open spec fn jval_to_err(j: JVal) -> Option<ErrView> {
    match j {
        JVal::Obj(ms) => match (
            jval_get(ms, "message"@),
            jval_get(ms, "code"@),
            jval_get(ms, "codeName"@),
        ) {
            (Some(JVal::Str(message)), Some(JVal::Int(code)), Some(JVal::Str(code_name))) => if 0
                <= code <= 0xFFFF {
                Some(ErrView { message, code, code_name })
            } else {
                None
            },
            _ => None,
        },
        _ => None,
    }
}

/// A response envelope read from a JSON value.
pub open spec fn jval_to_resp(j: JVal) -> Option<RespView> {
    match j {
        JVal::Obj(ms) => match (jval_get(ms, "id"@), jval_get(ms, "ok"@)) {
            (Some(JVal::Int(id)), Some(JVal::Bool(ok))) => if 0 <= id <= i64::MAX {
                let result = jval_get(ms, "result"@);
                match jval_get(ms, "error"@) {
                    None => Some(RespView { id, ok, result, error: None }),
                    Some(ej) => match jval_to_err(ej) {
                        Some(e) => Some(RespView { id, ok, result, error: Some(e) }),
                        None => None,
                    },
                }
            } else {
                None
            },
            _ => None,
        },
        _ => None,
    }
}

/// Decoding of a request line.
pub open spec fn dec_request(s: Seq<char>) -> Option<ReqView> {
    match dec_line(s) {
        Some(j) => jval_to_req(j),
        None => None,
    }
}

/// Decoding of a response line.
pub open spec fn dec_response(s: Seq<char>) -> Option<RespView> {
    match dec_line(s) {
        Some(j) => jval_to_resp(j),
        None => None,
    }
}

// ------------------------------------------------------------------
// The envelope round trip
// ------------------------------------------------------------------

/// Lookup finds the first member whose key matches.
proof fn lemma_jval_get_at(ms: Seq<(Seq<char>, JVal)>, k: Seq<char>, i: int)
    requires
        0 <= i < ms.len(),
        ms[i].0 == k,
        forall|j: int| 0 <= j < i ==> ms[j].0 != k,
    ensures
        jval_get(ms, k) == Some(ms[i].1),
    decreases i,
{
    if i > 0 {
        lemma_jval_get_at(ms.drop_first(), k, i - 1);
    }
}

/// Lookup misses when no member has the key.
proof fn lemma_jval_get_none(ms: Seq<(Seq<char>, JVal)>, k: Seq<char>)
    requires
        forall|j: int| 0 <= j < ms.len() ==> ms[j].0 != k,
    ensures
        jval_get(ms, k) is None,
    decreases ms.len(),
{
    if ms.len() > 0 {
        lemma_jval_get_none(ms.drop_first(), k);
    }
}

/// A member list whose values are all well formed is well formed.
proof fn lemma_wf_members_elts(ms: Seq<(Seq<char>, JVal)>)
    requires
        forall|i: int| 0 <= i < ms.len() ==> wf_val((#[trigger] ms[i]).1),
    ensures
        wf_members(ms),
    decreases ms.len(),
{
    if ms.len() > 0 {
        lemma_wf_members_elts(ms.drop_first());
    }
}

/// An object of strings is well formed.
proof fn lemma_wf_str_obj(ps: Seq<(Seq<char>, Seq<char>)>)
    ensures
        wf_members(str_obj(ps)),
{
    assert(forall|i: int| 0 <= i < str_obj(ps).len() ==> wf_val((#[trigger] str_obj(ps)[i]).1));
    lemma_wf_members_elts(str_obj(ps));
}

/// A context value is well formed.
proof fn lemma_wf_ctx_jval(c: CtxView)
    ensures
        wf_val(ctx_to_jval(c)),
{
    lemma_wf_str_obj(c.headers);
    lemma_wf_str_obj(c.query);
    let ms = ctx_to_jval(c)->Obj_0;
    assert(forall|i: int| 0 <= i < ms.len() ==> wf_val((#[trigger] ms[i]).1));
    lemma_wf_members_elts(ms);
}

/// Reading an object of strings back yields the pairs it was made of.
proof fn lemma_str_pairs_rt(ps: Seq<(Seq<char>, Seq<char>)>)
    ensures
        str_pairs(str_obj(ps)) == Some(ps),
    decreases ps.len(),
{
    if ps.len() == 0 {
        assert(str_obj(ps).len() == 0);
        assert(str_pairs(str_obj(ps)) == Some(Seq::<(Seq<char>, Seq<char>)>::empty()));
        assert(Seq::<(Seq<char>, Seq<char>)>::empty() =~= ps);
        assert(str_pairs(str_obj(ps)) =~~= Some(ps));
    } else {
        lemma_str_pairs_rt(ps.drop_first());
        assert(str_obj(ps).drop_first() =~= str_obj(ps.drop_first()));
        assert(str_obj(ps)[0] == (ps[0].0, JVal::Str(ps[0].1)));
        assert(seq![(ps[0].0, ps[0].1)] + ps.drop_first() =~= ps);
        assert(str_pairs(str_obj(ps)) =~~= Some(ps));
    }
}

/// Reading a written context back yields the context.
proof fn lemma_ctx_jval_rt(c: CtxView)
    ensures
        jval_to_ctx(ctx_to_jval(c)) == Some(c),
{
    proof_strlits();
    let ms = ctx_to_jval(c)->Obj_0;
    lemma_jval_get_at(ms, "method"@, 0);
    lemma_jval_get_at(ms, "path"@, 1);
    lemma_jval_get_at(ms, "headers"@, 2);
    lemma_jval_get_at(ms, "query"@, 3);
    lemma_str_pairs_rt(c.headers);
    lemma_str_pairs_rt(c.query);
    assert(jval_to_ctx(ctx_to_jval(c)) =~~= Some(c));
}

/// Reveals the wire field names and type tags, so that distinct literals
/// compare as distinct character sequences.
#[verifier::rlimit(100)]
proof fn proof_strlits()
    ensures
        "type"@ != "id"@ && "type"@ != "taskId"@ && "type"@ != "input"@ && "type"@ != "context"@
            && "type"@ != "eventId"@ && "type"@ != "payload"@,
        "id"@ != "taskId"@ && "id"@ != "input"@ && "id"@ != "context"@ && "id"@ != "eventId"@
            && "id"@ != "payload"@,
        "taskId"@ != "input"@ && "taskId"@ != "context"@,
        "eventId"@ != "payload"@ && "eventId"@ != "context"@,
        "input"@ != "context"@,
        "payload"@ != "context"@,
        "method"@ != "path"@ && "method"@ != "headers"@ && "method"@ != "query"@,
        "path"@ != "headers"@ && "path"@ != "query"@,
        "headers"@ != "query"@,
        "ok"@ != "id"@ && "ok"@ != "result"@ && "ok"@ != "error"@,
        "id"@ != "result"@ && "id"@ != "error"@,
        "result"@ != "error"@,
        "message"@ != "code"@ && "message"@ != "codeName"@,
        "code"@ != "codeName"@,
        "task"@ != "auth"@ && "event"@ != "auth"@ && "event"@ != "task"@ && "shutdown"@
            != "auth"@ && "shutdown"@ != "task"@ && "shutdown"@ != "event"@,
{
    reveal_strlit("type");
    reveal_strlit("id");
    reveal_strlit("taskId");
    reveal_strlit("input");
    reveal_strlit("context");
    reveal_strlit("eventId");
    reveal_strlit("payload");
    reveal_strlit("method");
    reveal_strlit("path");
    reveal_strlit("headers");
    reveal_strlit("query");
    reveal_strlit("ok");
    reveal_strlit("result");
    reveal_strlit("error");
    reveal_strlit("message");
    reveal_strlit("code");
    reveal_strlit("codeName");
    reveal_strlit("task");
    reveal_strlit("event");
    reveal_strlit("auth");
    reveal_strlit("shutdown");
    assert("code"@.len() == 4 && "codeName"@.len() == 8);
    assert("task"@[0] == 't' && "auth"@[0] == 'a' && "event"@[0] == 'e' && "shutdown"@[0] == 's');
    assert("taskId"@[0] == 't' && "type"@[1] == 'y' && "taskId"@[1] == 'a');
    assert("input"@[0] == 'i' && "id"@.len() == 2 && "input"@.len() == 5);
    assert("eventId"@[0] == 'e' && "payload"@[0] == 'p' && "context"@[0] == 'c');
    assert("message"@[0] == 'm' && "headers"@[0] == 'h');
    assert("ok"@[0] == 'o' && "id"@[0] == 'i');
    assert("method"@.len() == 6 && "path"@.len() == 4 && "headers"@.len() == 7 && "query"@.len()
        == 5);
    assert("type"@.len() == 4 && "taskId"@.len() == 6 && "context"@.len() == 7
        && "eventId"@.len() == 7 && "payload"@.len() == 7);
    assert("ok"@.len() == 2 && "result"@.len() == 6 && "error"@.len() == 5 && "message"@.len()
        == 7);
    assert("task"@.len() == 4 && "auth"@.len() == 4 && "event"@.len() == 5 && "shutdown"@.len()
        == 8);
}

/// A written request value is well formed.
proof fn lemma_wf_req_jval(v: ReqView)
    requires
        req_wf(v),
    ensures
        wf_val(req_to_jval(v)),
{
    match v {
        ReqView::Auth { id, context } => {
            lemma_wf_ctx_jval(context);
            let ms = req_to_jval(v)->Obj_0;
            assert(forall|i: int| 0 <= i < ms.len() ==> wf_val((#[trigger] ms[i]).1));
            lemma_wf_members_elts(ms);
        },
        ReqView::Task { id, task_id, input, context } => {
            match context {
                Some(c) => {
                    lemma_wf_ctx_jval(c);
                },
                None => {},
            }
            let ms = req_to_jval(v)->Obj_0;
            assert(forall|i: int| 0 <= i < ms.len() ==> wf_val((#[trigger] ms[i]).1));
            lemma_wf_members_elts(ms);
        },
        ReqView::Event { id, event_id, payload, context } => {
            match context {
                Some(c) => {
                    lemma_wf_ctx_jval(c);
                },
                None => {},
            }
            let ms = req_to_jval(v)->Obj_0;
            assert(forall|i: int| 0 <= i < ms.len() ==> wf_val((#[trigger] ms[i]).1));
            lemma_wf_members_elts(ms);
        },
        ReqView::Shutdown { id } => {
            let ms = req_to_jval(v)->Obj_0;
            assert(forall|i: int| 0 <= i < ms.len() ==> wf_val((#[trigger] ms[i]).1));
            lemma_wf_members_elts(ms);
        },
    }
}

/// A written response value is well formed.
proof fn lemma_wf_resp_jval(v: RespView)
    requires
        resp_wf(v),
    ensures
        wf_val(resp_to_jval(v)),
{
    let ms = resp_to_jval(v)->Obj_0;
    assert(forall|i: int| 0 <= i < ms.len() ==> wf_val((#[trigger] ms[i]).1)) by {
        match v.error {
            Some(e) => {
                let ems = seq![
                    ("message"@, JVal::Str(e.message)),
                    ("code"@, JVal::Int(e.code)),
                    ("codeName"@, JVal::Str(e.code_name)),
                ];
                assert(forall|i: int| 0 <= i < ems.len() ==> wf_val((#[trigger] ems[i]).1));
                lemma_wf_members_elts(ems);
            },
            None => {},
        }
    }
    lemma_wf_members_elts(ms);
}

/// Reading a written request value back yields the request.
#[verifier::rlimit(100)]
proof fn lemma_req_jval_rt(v: ReqView)
    requires
        req_wf(v),
    ensures
        jval_to_req(req_to_jval(v)) == Some(v),
{
    proof_strlits();
    let ms = req_to_jval(v)->Obj_0;
    match v {
        ReqView::Auth { id, context } => {
            lemma_jval_get_at(ms, "type"@, 0);
            lemma_jval_get_at(ms, "id"@, 1);
            lemma_jval_get_at(ms, "context"@, 2);
            lemma_ctx_jval_rt(context);
            assert(jval_to_req(req_to_jval(v)) =~~= Some(v));
        },
        ReqView::Task { id, task_id, input, context } => {
            lemma_jval_get_at(ms, "type"@, 0);
            lemma_jval_get_at(ms, "id"@, 1);
            lemma_jval_get_at(ms, "taskId"@, 2);
            lemma_jval_get_at(ms, "input"@, 3);
            match context {
                Some(c) => {
                    lemma_jval_get_at(ms, "context"@, 4);
                    lemma_ctx_jval_rt(c);
                },
                None => {
                    lemma_jval_get_none(ms, "context"@);
                },
            }
            assert(jval_to_req(req_to_jval(v)) =~~= Some(v));
        },
        ReqView::Event { id, event_id, payload, context } => {
            lemma_jval_get_at(ms, "type"@, 0);
            lemma_jval_get_at(ms, "id"@, 1);
            lemma_jval_get_at(ms, "eventId"@, 2);
            lemma_jval_get_at(ms, "payload"@, 3);
            match context {
                Some(c) => {
                    lemma_jval_get_at(ms, "context"@, 4);
                    lemma_ctx_jval_rt(c);
                },
                None => {
                    lemma_jval_get_none(ms, "context"@);
                },
            }
            assert(jval_to_req(req_to_jval(v)) =~~= Some(v));
        },
        ReqView::Shutdown { id } => {
            lemma_jval_get_at(ms, "type"@, 0);
            lemma_jval_get_at(ms, "id"@, 1);
            assert(jval_to_req(req_to_jval(v)) =~~= Some(v));
        },
    }
}

/// Reading a written response value back yields the response.
#[verifier::rlimit(100)]
proof fn lemma_resp_jval_rt(v: RespView)
    requires
        resp_wf(v),
    ensures
        jval_to_resp(resp_to_jval(v)) == Some(v),
{
    proof_strlits();
    let ms = resp_to_jval(v)->Obj_0;
    lemma_jval_get_at(ms, "id"@, 0);
    lemma_jval_get_at(ms, "ok"@, 1);
    match v.result {
        Some(r) => {
            lemma_jval_get_at(ms, "result"@, 2);
            match v.error {
                Some(e) => {
                    lemma_jval_get_at(ms, "error"@, 3);
                    let ej = ms[3].1;
                    let ems = ej->Obj_0;
                    lemma_jval_get_at(ems, "message"@, 0);
                    lemma_jval_get_at(ems, "code"@, 1);
                    lemma_jval_get_at(ems, "codeName"@, 2);
                },
                None => {
                    lemma_jval_get_none(ms, "error"@);
                },
            }
        },
        None => {
            lemma_jval_get_none(ms, "result"@);
            match v.error {
                Some(e) => {
                    lemma_jval_get_at(ms, "error"@, 2);
                    let ej = ms[2].1;
                    let ems = ej->Obj_0;
                    lemma_jval_get_at(ems, "message"@, 0);
                    lemma_jval_get_at(ems, "code"@, 1);
                    lemma_jval_get_at(ems, "codeName"@, 2);
                },
                None => {
                    lemma_jval_get_none(ms, "error"@);
                },
            }
        },
    }
    assert(jval_to_resp(resp_to_jval(v)) =~~= Some(v));
}

/// The envelope round trip for requests: encoding a well-formed request
/// and decoding the line yields the request back, for every payload shape.
pub proof fn lemma_request_round_trip(v: ReqView)
    requires
        req_wf(v),
    ensures
        dec_request(enc_request(v)) == Some(v),
{
    lemma_wf_req_jval(v);
    lemma_codec_round_trip(req_to_jval(v));
    lemma_req_jval_rt(v);
}

/// The envelope round trip for responses: encoding a well-formed response
/// and decoding the line yields the response back, for every payload shape.
pub proof fn lemma_response_round_trip(v: RespView)
    requires
        resp_wf(v),
    ensures
        dec_response(enc_response(v)) == Some(v),
{
    lemma_wf_resp_jval(v);
    lemma_codec_round_trip(resp_to_jval(v));
    lemma_resp_jval_rt(v);
}

// ------------------------------------------------------------------
// Decoding (executable)
// ------------------------------------------------------------------

/// String pairs read from a JSON value: `None` on anything but an object
/// of strings.
pub open spec fn jval_to_pairs(j: JVal) -> Option<Seq<(Seq<char>, Seq<char>)>> {
    match j {
        JVal::Obj(ms) => str_pairs(ms),
        _ => None,
    }
}

/// Already-read pairs put in front of a pair-list reading.
pub open spec fn prepend_pairs(
    pre: Seq<(Seq<char>, Seq<char>)>,
    o: Option<Seq<(Seq<char>, Seq<char>)>>,
) -> Option<Seq<(Seq<char>, Seq<char>)>> {
    match o {
        Some(t) => Some(pre + t),
        None => None,
    }
}

/// Reads an object of strings back into pairs.
#[verifier::loop_isolation(false)]
fn pairs_from_value(v: &JsonValue) -> (r: Option<Vec<(String, String)>>)
    ensures
        match r {
            Some(ps) => jval_to_pairs(view_of(*v)) == Some(pairs_view(ps@)),
            None => jval_to_pairs(view_of(*v)) is None,
        },
{
    match v {
        JsonValue::Obj(o) => {
            let ghost vms = view_of_members(o@);
            proof {
                lemma_view_of_members(o@);
                assert(vms.skip(0) =~= vms);
            }
            let mut acc: Vec<(String, String)> = Vec::new();
            let n = o.len();
            let mut i: usize = 0;
            proof {
                assert(pairs_view(acc@) =~= Seq::<(Seq<char>, Seq<char>)>::empty());
            }
            while i < n
                invariant
                    i <= n,
                    str_pairs(vms) == prepend_pairs(pairs_view(acc@), str_pairs(vms.skip(i as int))),
                decreases n - i,
            {
                proof {
                    assert(vms.skip(i as int)[0] == vms[i as int]);
                }
                match &o[i].1 {
                    JsonValue::Str(sv) => {
                        let ghost pre = acc@;
                        acc.push((o[i].0.clone(), sv.clone()));
                        proof {
                            assert(vms.skip(i as int).drop_first() =~= vms.skip(i + 1 as int));
                            assert(pairs_view(acc@) =~= pairs_view(pre) + seq![
                                (o@[i as int].0@, sv@),
                            ]);
                            match str_pairs(vms.skip(i + 1 as int)) {
                                Some(t) => {
                                    assert(pairs_view(pre) + (seq![(o@[i as int].0@, sv@)] + t)
                                        =~= pairs_view(acc@) + t);
                                },
                                None => {},
                            }
                        }
                        i = i + 1;
                    },
                    _ => {
                        return None;
                    },
                }
            }
            proof {
                assert(vms.skip(n as int).len() == 0);
                assert(pairs_view(acc@) + Seq::<(Seq<char>, Seq<char>)>::empty() =~= pairs_view(
                    acc@,
                ));
            }
            Some(acc)
        },
        _ => None,
    }
}

/// Reads a request context back from a JSON value.
fn ctx_from_value(v: &JsonValue) -> (r: Option<RequestContext>)
    ensures
        match r {
            Some(c) => jval_to_ctx(view_of(*v)) == Some(ctx_view(c)),
            None => jval_to_ctx(view_of(*v)) is None,
        },
{
    let method = match v.get("method") {
        Some(JsonValue::Str(m)) => m.clone(),
        _ => {
            return None;
        },
    };
    let path = match v.get("path") {
        Some(JsonValue::Str(p)) => p.clone(),
        _ => {
            return None;
        },
    };
    let headers = match v.get("headers") {
        Some(h) => match pairs_from_value(h) {
            Some(ps) => ps,
            None => {
                return None;
            },
        },
        None => {
            return None;
        },
    };
    let query = match v.get("query") {
        Some(q) => match pairs_from_value(q) {
            Some(ps) => ps,
            None => {
                return None;
            },
        },
        None => {
            return None;
        },
    };
    let c = RequestContext { method, path, headers, query };
    proof {
        assert(jval_to_ctx(view_of(*v)) =~~= Some(ctx_view(c)));
    }
    Some(c)
}

/// Decoding of one request line: `Some` exactly when the line is a
/// well-formed request envelope.
#[verifier::rlimit(100)]
pub fn decode_request(line: &str) -> (r: Option<WorkerRequest>)
    ensures
        match r {
            Some(req) => dec_request(line@) == Some(req_view(req)) && req_wf(req_view(req)),
            None => dec_request(line@) is None,
        },
{
    let jv = match decode_line(line) {
        Some(jv) => jv,
        None => {
            return None;
        },
    };
    proof {
        crate::json::lemma_view_wf(jv);
    }
    let tname = match jv.get("type") {
        Some(JsonValue::Str(t)) => t.clone(),
        _ => {
            return None;
        },
    };
    let id: u64 = match jv.get("id") {
        Some(JsonValue::Int(i)) => if *i >= 0 {
            *i as u64
        } else {
            return None;
        },
        _ => {
            return None;
        },
    };
    if tname == "auth".to_owned() {
        let context = match jv.get("context") {
            Some(cj) => match ctx_from_value(cj) {
                Some(c) => c,
                None => {
                    return None;
                },
            },
            None => {
                return None;
            },
        };
        let req = WorkerRequest::Auth { id, context };
        proof {
            assert(jval_to_req(jv@) =~~= Some(req_view(req)));
        }
        Some(req)
    } else if tname == "task".to_owned() {
        let task_id = match jv.get("taskId") {
            Some(JsonValue::Str(t)) => t.clone(),
            _ => {
                return None;
            },
        };
        let input = match jv.get("input") {
            Some(x) => x.duplicate(),
            None => {
                return None;
            },
        };
        proof {
            crate::json::lemma_view_wf(input);
        }
        let context = match jv.get("context") {
            Some(cj) => match ctx_from_value(cj) {
                Some(c) => Some(c),
                None => {
                    return None;
                },
            },
            None => None,
        };
        let req = WorkerRequest::Task { id, task_id, input, context };
        proof {
            assert(jval_to_req(jv@) =~~= Some(req_view(req)));
        }
        Some(req)
    } else if tname == "event".to_owned() {
        let event_id = match jv.get("eventId") {
            Some(JsonValue::Str(t)) => t.clone(),
            _ => {
                return None;
            },
        };
        let payload = match jv.get("payload") {
            Some(x) => x.duplicate(),
            None => {
                return None;
            },
        };
        proof {
            crate::json::lemma_view_wf(payload);
        }
        let context = match jv.get("context") {
            Some(cj) => match ctx_from_value(cj) {
                Some(c) => Some(c),
                None => {
                    return None;
                },
            },
            None => None,
        };
        let req = WorkerRequest::Event { id, event_id, payload, context };
        proof {
            assert(jval_to_req(jv@) =~~= Some(req_view(req)));
        }
        Some(req)
    } else if tname == "shutdown".to_owned() {
        let req = WorkerRequest::Shutdown { id };
        proof {
            assert(jval_to_req(jv@) =~~= Some(req_view(req)));
        }
        Some(req)
    } else {
        None
    }
}

/// Decoding of one response line: `Some` exactly when the line is a
/// well-formed response envelope.
#[verifier::rlimit(100)]
pub fn decode_response(line: &str) -> (r: Option<WorkerResponse>)
    ensures
        match r {
            Some(resp) => dec_response(line@) == Some(resp_view(resp)) && resp_wf(
                resp_view(resp),
            ),
            None => dec_response(line@) is None,
        },
{
    let jv = match decode_line(line) {
        Some(jv) => jv,
        None => {
            return None;
        },
    };
    proof {
        crate::json::lemma_view_wf(jv);
    }
    let id: u64 = match jv.get("id") {
        Some(JsonValue::Int(i)) => if *i >= 0 {
            *i as u64
        } else {
            return None;
        },
        _ => {
            return None;
        },
    };
    let ok: bool = match jv.get("ok") {
        Some(JsonValue::Bool(b)) => *b,
        _ => {
            return None;
        },
    };
    let result: Option<JsonValue> = match jv.get("result") {
        Some(x) => {
            let d = x.duplicate();
            proof {
                crate::json::lemma_view_wf(d);
            }
            Some(d)
        },
        None => None,
    };
    let error: Option<WorkerError> = match jv.get("error") {
        Some(ej) => {
            let message = match ej.get("message") {
                Some(JsonValue::Str(m)) => m.clone(),
                _ => {
                    return None;
                },
            };
            let code: u16 = match ej.get("code") {
                Some(JsonValue::Int(i)) => if 0 <= *i && *i <= 0xFFFF {
                    *i as u16
                } else {
                    return None;
                },
                _ => {
                    return None;
                },
            };
            let code_name = match ej.get("codeName") {
                Some(JsonValue::Str(m)) => m.clone(),
                _ => {
                    return None;
                },
            };
            Some(WorkerError { message, code, code_name })
        },
        None => None,
    };
    let resp = WorkerResponse { id, ok, result, error };
    proof {
        assert(jval_to_resp(jv@) =~~= Some(resp_view(resp)));
    }
    Some(resp)
}

} // verus!

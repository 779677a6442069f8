//! The worker channel's correlation state machine.
//!
//! One channel owns one worker process. The surrounding runtime spawns the
//! process, writes encoded request lines to its input stream and reads
//! response lines from its output stream; this module holds the verified
//! decisions: correlation-id allocation, the pending table, response
//! matching, and teardown. The lifecycle is `Running` (from construction,
//! once the process is spawned), `Draining` (entered when the worker exits,
//! its output stream closes, or shutdown is requested; every pending caller
//! is handed a synthetic internal error), and `Terminated`.

use vstd::prelude::*;

use crate::error::TunnelError;
use crate::json::{view_of, JsonValue};
use crate::protocol::{
    dec_response, decode_response, enc_request, encode_request, req_view, req_wf, resp_view,
    ReqView, RequestContext, WorkerRequest, WorkerResponse,
};

verus! {

/// Lifecycle state of a worker channel.
#[derive(Debug, Clone, Copy, PartialEq, Eq, Structural)]
pub enum ChannelState {
    Running,
    Draining,
    Terminated,
}

/// The largest correlation id the channel will allocate: ids must fit the
/// codec's signed 64-bit integer range.
pub const MAX_CORRELATION_ID: u64 = 0x7fff_ffff_ffff_ffff;

/// No id occurs twice.
pub open spec fn no_dups(s: Seq<u64>) -> bool {
    forall|i: int, j: int| 0 <= i < j < s.len() ==> s[i] != s[j]
}

/// Whether some pending id equals `id`.
pub open spec fn pending_has(s: Seq<u64>, id: int) -> bool {
    exists|i: int| 0 <= i < s.len() && (#[trigger] s[i]) as int == id
}

/// The correlation state of one worker channel: the lifecycle state, the
/// next id to allocate, the ids of requests whose responses are still
/// outstanding, and a diagnostic count of malformed lines that were
/// dropped.
pub struct WorkerChannel {
    pub state: ChannelState,
    pub next_id: u64,
    pub pending: Vec<u64>,
    pub malformed: u64,
}

/// Well-formedness: ids start at one, every pending id was allocated
/// before `next_id`, and no id is pending twice.
pub open spec fn wf_channel(c: WorkerChannel) -> bool {
    &&& 1 <= c.next_id <= MAX_CORRELATION_ID
    &&& forall|i: int| 0 <= i < c.pending@.len() ==> (#[trigger] c.pending@[i]) < c.next_id
    &&& no_dups(c.pending@)
}

/// The outcome of one line read from the worker's output stream.
pub enum LineOutcome {
    /// A response for a pending request: hand it to that caller.
    Delivered(WorkerResponse),
    /// A well-formed response whose id is not pending (its caller is gone):
    /// dropped.
    Stale,
    /// Not a well-formed response line: dropped and counted.
    Malformed,
}

/// The synthetic error every pending caller receives when the channel
/// drains, and every later send fails with.
pub fn drain_error() -> (e: TunnelError)
    ensures
        e matches TunnelError::InternalError(m) && m@ == "worker terminated"@,
{
    TunnelError::InternalError("worker terminated".to_owned())
}

impl WorkerChannel {
    /// A channel for a freshly spawned worker: running, no pending
    /// requests, ids starting at one.
    pub fn new() -> (r: Self)
        ensures
            wf_channel(r),
            r.state is Running,
            r.next_id == 1,
            r.pending@.len() == 0,
            r.malformed == 0,
    {
        WorkerChannel {
            state: ChannelState::Running,
            next_id: 1,
            pending: Vec::new(),
            malformed: 0,
        }
    }

    /// Allocates the next correlation id and marks it pending. Fails
    /// immediately when the channel is no longer running (with the drain
    /// error) or when the id space is exhausted; the state is then
    /// unchanged.
    pub fn begin_send(&mut self) -> (r: Result<u64, TunnelError>)
        requires
            wf_channel(*old(self)),
        ensures
            wf_channel(*final(self)),
            old(self).state is Running && old(self).next_id < MAX_CORRELATION_ID ==> ({
                &&& r matches Ok(id)
                &&& r matches Ok(id) ==> id == old(self).next_id && !pending_has(
                    old(self).pending@,
                    id as int,
                ) && final(self).pending@ == old(self).pending@.push(id)
                &&& final(self).next_id == old(self).next_id + 1
                &&& final(self).state == old(self).state
                &&& final(self).malformed == old(self).malformed
            }),
            !(old(self).state is Running) ==> ({
                &&& r matches Err(e) && e matches TunnelError::InternalError(m) && m@
                    == "worker terminated"@
                &&& *final(self) == *old(self)
            }),
            old(self).state is Running && old(self).next_id >= MAX_CORRELATION_ID ==> ({
                &&& r matches Err(e) && e matches TunnelError::InternalError(m) && m@
                    == "correlation ids exhausted"@
                &&& *final(self) == *old(self)
            }),
    {
        if !matches!(self.state, ChannelState::Running) {
            return Err(drain_error());
        }
        if self.next_id >= MAX_CORRELATION_ID {
            return Err(TunnelError::InternalError("correlation ids exhausted".to_owned()));
        }
        let id = self.next_id;
        proof {
            assert(forall|i: int| 0 <= i < self.pending@.len() ==> (#[trigger] self.pending@[i])
                != id);
        }
        self.next_id = self.next_id + 1;
        self.pending.push(id);
        Ok(id)
    }

    /// Handles one line read from the worker's output stream: a malformed
    /// line is dropped and counted, a response for a pending id is
    /// delivered and that id (and only that id) stops being pending, and a
    /// response for an unknown id is dropped. Each response is delivered
    /// at most once: its id leaves the table with it.
    #[verifier::loop_isolation(false)]
    pub fn accept_line(&mut self, line: &str) -> (r: LineOutcome)
        requires
            wf_channel(*old(self)),
        ensures
            wf_channel(*final(self)),
            final(self).state == old(self).state,
            final(self).next_id == old(self).next_id,
            match dec_response(line@) {
                None => {
                    &&& r is Malformed
                    &&& final(self).pending@ == old(self).pending@
                    &&& final(self).malformed == (if old(self).malformed < u64::MAX {
                        old(self).malformed + 1
                    } else {
                        old(self).malformed as int
                    })
                },
                Some(rv) => {
                    &&& final(self).malformed == old(self).malformed
                    &&& if pending_has(old(self).pending@, rv.id) {
                        &&& r matches LineOutcome::Delivered(resp) && resp_view(resp) == rv
                        &&& final(self).pending@.len() == old(self).pending@.len() - 1
                        &&& forall|x: u64|
                            pending_has(final(self).pending@, x as int) <==> (pending_has(
                                old(self).pending@,
                                x as int,
                            ) && x as int != rv.id)
                    } else {
                        &&& r is Stale
                        &&& final(self).pending@ == old(self).pending@
                    }
                },
            },
    {
        let resp = match decode_response(line) {
            Some(resp) => resp,
            None => {
                if self.malformed < u64::MAX {
                    self.malformed = self.malformed + 1;
                }
                return LineOutcome::Malformed;
            },
        };
        let n = self.pending.len();
        let mut i: usize = 0;
        while i < n
            invariant
                n == self.pending@.len(),
                i <= n,
                forall|j: int| 0 <= j < i ==> (#[trigger] self.pending@[j]) != resp.id,
                wf_channel(*self),
                *self == *old(self),
            decreases n - i,
        {
            if self.pending[i] == resp.id {
                let ghost before = self.pending@;
                self.pending.remove(i);
                proof {
                    lemma_remove_pending(before, i as int);
                    assert(before[i as int] as int == resp_view(resp).id);
                }
                return LineOutcome::Delivered(resp);
            }
            i = i + 1;
        }
        proof {
            assert(!pending_has(self.pending@, resp_view(resp).id));
        }
        LineOutcome::Stale
    }

    /// Tears the pending table down: every pending id is returned exactly
    /// once, nothing stays pending, and the channel is left draining. The
    /// caller completes each returned id with [`drain_error`], then calls
    /// [`Self::finish_drain`]. So when the worker exits with requests
    /// outstanding, every one of their callers receives the internal
    /// error and none is left waiting.
    #[verifier::loop_isolation(false)]
    pub fn begin_drain(&mut self) -> (drained: Vec<u64>)
        requires
            wf_channel(*old(self)),
        ensures
            wf_channel(*final(self)),
            drained@ == old(self).pending@,
            final(self).pending@.len() == 0,
            final(self).state is Draining,
            final(self).next_id == old(self).next_id,
            final(self).malformed == old(self).malformed,
    {
        let mut drained: Vec<u64> = Vec::new();
        let n = self.pending.len();
        let mut i: usize = 0;
        while i < n
            invariant
                n == self.pending@.len(),
                i <= n,
                drained@ == self.pending@.take(i as int),
                *self == *old(self),
            decreases n - i,
        {
            drained.push(self.pending[i]);
            proof {
                assert(self.pending@.take(i + 1 as int) =~= self.pending@.take(i as int).push(
                    self.pending@[i as int],
                ));
            }
            i = i + 1;
        }
        proof {
            assert(self.pending@.take(n as int) =~= self.pending@);
        }
        self.pending.clear();
        self.state = ChannelState::Draining;
        drained
    }

    /// Completes the teardown: a drained channel becomes terminated.
    pub fn finish_drain(&mut self)
        requires
            wf_channel(*old(self)),
            old(self).state is Draining,
        ensures
            wf_channel(*final(self)),
            final(self).state is Terminated,
            final(self).pending@ == old(self).pending@,
            final(self).next_id == old(self).next_id,
            final(self).malformed == old(self).malformed,
    {
        self.state = ChannelState::Terminated;
    }

    /// Allocates an id and builds the encoded task request line. Succeeds
    /// exactly when a fresh id can be had: on a running channel with id
    /// space left this returns `Ok`. The caller writes the line
    /// (newline-terminated) to the worker and suspends on the returned id.
    pub fn prepare_task(
        &mut self,
        task_id: &str,
        input: &JsonValue,
        context: Option<RequestContext>,
    ) -> (r: Result<(u64, String), TunnelError>)
        requires
            wf_channel(*old(self)),
        ensures
            wf_channel(*final(self)),
            old(self).state is Running && old(self).next_id < MAX_CORRELATION_ID ==> r is Ok,
            match r {
                Ok(p) => {
                    &&& old(self).state is Running
                    &&& p.0 == old(self).next_id
                    &&& final(self).pending@ == old(self).pending@.push(p.0)
                    &&& final(self).next_id == old(self).next_id + 1
                    &&& final(self).state == old(self).state
                    &&& final(self).malformed == old(self).malformed
                    &&& p.1@ == enc_request(
                        ReqView::Task {
                            id: p.0 as int,
                            task_id: task_id@,
                            input: view_of(*input),
                            context: match context {
                                Some(c) => Some(crate::protocol::ctx_view(c)),
                                None => None,
                            },
                        },
                    )
                },
                Err(e) => {
                    &&& e is InternalError
                    &&& *final(self) == *old(self)
                    &&& !(old(self).state is Running) ==> crate::error::spec_error_message(e)
                        == "worker terminated"@
                    &&& old(self).state is Running ==> crate::error::spec_error_message(e)
                        == "correlation ids exhausted"@
                },
            },
    {
        let id = match self.begin_send() {
            Ok(id) => id,
            Err(e) => {
                return Err(e);
            },
        };
        let req = WorkerRequest::Task {
            id,
            task_id: task_id.to_owned(),
            input: input.duplicate(),
            context,
        };
        proof {
            crate::json::lemma_view_wf(*input);
            assert(req_wf(req_view(req)));
            assert(req_view(req) =~~= ReqView::Task {
                id: id as int,
                task_id: task_id@,
                input: view_of(*input),
                context: match context {
                    Some(c) => Some(crate::protocol::ctx_view(c)),
                    None => None,
                },
            });
        }
        let line = encode_request(&req);
        Ok((id, line))
    }

    /// Allocates an id and builds the encoded event request line; succeeds
    /// exactly as [`Self::prepare_task`] does.
    pub fn prepare_event(
        &mut self,
        event_id: &str,
        payload: &JsonValue,
        context: Option<RequestContext>,
    ) -> (r: Result<(u64, String), TunnelError>)
        requires
            wf_channel(*old(self)),
        ensures
            wf_channel(*final(self)),
            old(self).state is Running && old(self).next_id < MAX_CORRELATION_ID ==> r is Ok,
            match r {
                Ok(p) => {
                    &&& old(self).state is Running
                    &&& p.0 == old(self).next_id
                    &&& final(self).pending@ == old(self).pending@.push(p.0)
                    &&& final(self).next_id == old(self).next_id + 1
                    &&& final(self).state == old(self).state
                    &&& final(self).malformed == old(self).malformed
                    &&& p.1@ == enc_request(
                        ReqView::Event {
                            id: p.0 as int,
                            event_id: event_id@,
                            payload: view_of(*payload),
                            context: match context {
                                Some(c) => Some(crate::protocol::ctx_view(c)),
                                None => None,
                            },
                        },
                    )
                },
                Err(e) => {
                    &&& e is InternalError
                    &&& *final(self) == *old(self)
                    &&& !(old(self).state is Running) ==> crate::error::spec_error_message(e)
                        == "worker terminated"@
                    &&& old(self).state is Running ==> crate::error::spec_error_message(e)
                        == "correlation ids exhausted"@
                },
            },
    {
        let id = match self.begin_send() {
            Ok(id) => id,
            Err(e) => {
                return Err(e);
            },
        };
        let req = WorkerRequest::Event {
            id,
            event_id: event_id.to_owned(),
            payload: payload.duplicate(),
            context,
        };
        proof {
            crate::json::lemma_view_wf(*payload);
            assert(req_wf(req_view(req)));
            assert(req_view(req) =~~= ReqView::Event {
                id: id as int,
                event_id: event_id@,
                payload: view_of(*payload),
                context: match context {
                    Some(c) => Some(crate::protocol::ctx_view(c)),
                    None => None,
                },
            });
        }
        let line = encode_request(&req);
        Ok((id, line))
    }

    /// Allocates an id and builds the encoded authentication request line;
    /// succeeds exactly as [`Self::prepare_task`] does.
    pub fn prepare_auth(&mut self, context: RequestContext) -> (r: Result<
        (u64, String),
        TunnelError,
    >)
        requires
            wf_channel(*old(self)),
        ensures
            wf_channel(*final(self)),
            old(self).state is Running && old(self).next_id < MAX_CORRELATION_ID ==> r is Ok,
            match r {
                Ok(p) => {
                    &&& old(self).state is Running
                    &&& p.0 == old(self).next_id
                    &&& final(self).pending@ == old(self).pending@.push(p.0)
                    &&& final(self).next_id == old(self).next_id + 1
                    &&& final(self).state == old(self).state
                    &&& final(self).malformed == old(self).malformed
                    &&& p.1@ == enc_request(
                        ReqView::Auth { id: p.0 as int, context: crate::protocol::ctx_view(context) },
                    )
                },
                Err(e) => {
                    &&& e is InternalError
                    &&& *final(self) == *old(self)
                    &&& !(old(self).state is Running) ==> crate::error::spec_error_message(e)
                        == "worker terminated"@
                    &&& old(self).state is Running ==> crate::error::spec_error_message(e)
                        == "correlation ids exhausted"@
                },
            },
    {
        let id = match self.begin_send() {
            Ok(id) => id,
            Err(e) => {
                return Err(e);
            },
        };
        let ghost cv = crate::protocol::ctx_view(context);
        let req = WorkerRequest::Auth { id, context };
        proof {
            assert(req_wf(req_view(req)));
            assert(req_view(req) =~~= ReqView::Auth { id: id as int, context: cv });
        }
        let line = encode_request(&req);
        Ok((id, line))
    }

    /// Builds the encoded shutdown request line, sent on graceful
    /// teardown with no reply expected; no id is left pending for it.
    /// Succeeds exactly when a fresh id can be had.
    pub fn prepare_shutdown(&mut self) -> (r: Result<String, TunnelError>)
        requires
            wf_channel(*old(self)),
        ensures
            wf_channel(*final(self)),
            old(self).state is Running && old(self).next_id < MAX_CORRELATION_ID ==> r is Ok,
            match r {
                Ok(line) => {
                    &&& old(self).state is Running
                    &&& line@ == enc_request(ReqView::Shutdown { id: old(self).next_id as int })
                    &&& final(self).pending@ == old(self).pending@
                    &&& final(self).next_id == old(self).next_id + 1
                    &&& final(self).state == old(self).state
                    &&& final(self).malformed == old(self).malformed
                },
                Err(e) => {
                    &&& e is InternalError
                    &&& *final(self) == *old(self)
                    &&& !(old(self).state is Running) ==> crate::error::spec_error_message(e)
                        == "worker terminated"@
                    &&& old(self).state is Running ==> crate::error::spec_error_message(e)
                        == "correlation ids exhausted"@
                },
            },
    {
        if !matches!(self.state, ChannelState::Running) {
            return Err(drain_error());
        }
        if self.next_id >= MAX_CORRELATION_ID {
            return Err(TunnelError::InternalError("correlation ids exhausted".to_owned()));
        }
        let id = self.next_id;
        self.next_id = self.next_id + 1;
        let req = WorkerRequest::Shutdown { id };
        proof {
            assert(req_wf(req_view(req)));
        }
        let line = encode_request(&req);
        Ok(line)
    }
}

/// Removing the entry at `i` from a duplicate-free id list removes exactly
/// that id.
proof fn lemma_remove_pending(s: Seq<u64>, i: int)
    requires
        0 <= i < s.len(),
        no_dups(s),
    ensures
        no_dups(s.remove(i)),
        forall|x: u64|
            pending_has(s.remove(i), x as int) <==> (pending_has(s, x as int) && x != s[i]),
        s.remove(i).len() == s.len() - 1,
{
    let t = s.remove(i);
    assert forall|x: u64| pending_has(t, x as int) implies (pending_has(s, x as int) && x
        != s[i]) by {
        let j = choose|j: int| 0 <= j < t.len() && (t[j] as int == x as int);
        if j < i {
            assert(s[j] == t[j]);
        } else {
            assert(s[j + 1] == t[j]);
        }
    }
    assert forall|x: u64| (pending_has(s, x as int) && x != s[i]) implies pending_has(
        t,
        x as int,
    ) by {
        let j = choose|j: int| 0 <= j < s.len() && (s[j] as int == x as int);
        if j < i {
            assert(t[j] == s[j]);
        } else {
            assert(j > i);
            assert(t[j - 1] == s[j]);
        }
    }
    assert forall|a: int, b: int| 0 <= a < b < t.len() implies t[a] != t[b] by {
        if b < i {
        } else if a < i {
            assert(t[a] == s[a] && t[b] == s[b + 1]);
        } else {
            assert(t[a] == s[a + 1] && t[b] == s[b + 1]);
        }
    }
}

/// Interprets a task response: a successful response yields its result
/// (`null` when the result is omitted); a failing one passes the worker's
/// structured code, code name and message through verbatim, or surfaces
/// as an internal error with a placeholder when the worker supplied no
/// structured error at all.
pub fn interpret_task_response(resp: &WorkerResponse) -> (r: Result<JsonValue, TunnelError>)
    ensures
        resp.ok ==> (r matches Ok(v) && view_of(v) == (match resp_view(*resp).result {
            Some(x) => x,
            None => crate::json::JVal::Null,
        })),
        !resp.ok ==> (r matches Err(e) && worker_failure(resp_view(*resp).error, e)),
{
    if resp.ok {
        match &resp.result {
            Some(v) => Ok(v.duplicate()),
            None => Ok(JsonValue::Null),
        }
    } else {
        Err(worker_error_of(resp))
    }
}

/// How a failing worker response surfaces: a structured error passes
/// through verbatim; an unstructured one becomes a placeholder internal
/// error.
pub open spec fn worker_failure(ev: Option<crate::protocol::ErrView>, e: TunnelError) -> bool {
    match ev {
        Some(we) => e matches TunnelError::WorkerReported { code, code_name, message }
            && code as int == we.code && code_name@ == we.code_name && message@ == we.message,
        None => e matches TunnelError::InternalError(m) && m@ == "Unknown error"@,
    }
}

/// The error a failing worker response maps to.
fn worker_error_of(resp: &WorkerResponse) -> (e: TunnelError)
    ensures
        worker_failure(resp_view(*resp).error, e),
{
    match &resp.error {
        Some(we) => TunnelError::WorkerReported {
            code: we.code,
            code_name: we.code_name.clone(),
            message: we.message.clone(),
        },
        None => TunnelError::InternalError("Unknown error".to_owned()),
    }
}

/// Interprets an event response: success yields nothing; failure surfaces
/// exactly as for tasks.
pub fn interpret_event_response(resp: &WorkerResponse) -> (r: Result<(), TunnelError>)
    ensures
        resp.ok <==> r is Ok,
        !resp.ok ==> (r matches Err(e) && worker_failure(resp_view(*resp).error, e)),
{
    if resp.ok {
        Ok(())
    } else {
        Err(worker_error_of(resp))
    }
}

/// Interprets an authentication response: a successful response means the
/// request is authorized; anything else is unauthorized.
pub fn interpret_auth_response(resp: &WorkerResponse) -> (r: Result<(), TunnelError>)
    ensures
        resp.ok <==> r is Ok,
        !resp.ok ==> (r matches Err(e) && e is Unauthorized),
{
    if resp.ok {
        Ok(())
    } else {
        Err(TunnelError::Unauthorized)
    }
}

/// Correlation is order-independent: with two distinct outstanding ids,
/// delivering a response for one of them leaves the other outstanding, and
/// delivering both responses in either order completes the same pair of
/// callers and leaves the same ids outstanding. Together with
/// [`WorkerChannel::accept_line`], which completes exactly the id carried
/// by the decoded response, each caller receives exactly the response
/// whose id matches its own request, however responses interleave.
pub proof fn lemma_correlation_order_independent(p: Set<u64>, a: u64, b: u64)
    requires
        a != b,
        p.contains(a),
        p.contains(b),
    ensures
        p.remove(a).contains(b),
        p.remove(b).contains(a),
        p.remove(a).remove(b) == p.remove(b).remove(a),
{
    assert(p.remove(a).remove(b) =~= p.remove(b).remove(a));
}

} // verus!

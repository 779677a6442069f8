//! The task/event registry: an in-process mapping from operation id to a
//! handler capability.
//!
//! Tasks (request/response) and events (fire-and-forget) live in separate
//! namespaces. Registration is last-writer-wins: re-registering an id
//! silently replaces the previous handler and keeps the id's position, so
//! the id lists stay in first-registration order.

use vstd::prelude::*;

use crate::error::TunnelError;
use crate::json::{JVal, JsonValue};

verus! {

/// A task handler: a capability that turns an input value into a result
/// or an error. `task_post` is the handler's own contract: everything its
/// `execute` may return for a given input.
pub trait TaskHandler: Sized {
    /// The relation between an input model and a possible outcome.
    spec fn task_post(&self, input: JVal, r: Result<JsonValue, TunnelError>) -> bool;

    /// Runs the handler on `input`.
    fn execute(&self, input: &JsonValue) -> (r: Result<JsonValue, TunnelError>)
        ensures
            self.task_post(input@, r),
    ;
}

/// An event handler: a capability that consumes a payload value.
/// `event_post` is the handler's own contract for `emit`.
pub trait EventHandler: Sized {
    /// The relation between a payload model and a possible outcome.
    spec fn event_post(&self, payload: JVal, r: Result<(), TunnelError>) -> bool;

    /// Runs the handler on `payload`.
    fn emit(&self, payload: &JsonValue) -> (r: Result<(), TunnelError>)
        ensures
            self.event_post(payload@, r),
    ;
}

/// The handler registered under `id`: the first (and, in a well-formed
/// registry, only) entry with that key.
pub open spec fn spec_lookup<H>(s: Seq<(String, H)>, id: Seq<char>) -> Option<H>
    decreases s,
{
    if s.len() == 0 {
        None
    } else if s[0].0@ == id {
        Some(s[0].1)
    } else {
        spec_lookup(s.drop_first(), id)
    }
}

/// The keys of an entry list, in order.
pub open spec fn reg_keys<H>(s: Seq<(String, H)>) -> Seq<Seq<char>> {
    s.map_values(|p: (String, H)| p.0@)
}

/// No key occurs twice.
pub open spec fn unique_keys<H>(s: Seq<(String, H)>) -> bool {
    forall|i: int, j: int| 0 <= i < j < s.len() ==> s[i].0@ != s[j].0@
}

/// The registry: handlers for tasks and events, each namespace keyed by
/// operation id.
pub struct TaskRegistry<T, E> {
    pub tasks: Vec<(String, T)>,
    pub events: Vec<(String, E)>,
}

impl<T: TaskHandler, E: EventHandler> TaskRegistry<T, E> {
    /// Both namespaces hold each id at most once.
    pub open spec fn wf(&self) -> bool {
        unique_keys(self.tasks@) && unique_keys(self.events@)
    }

    /// An empty registry.
    pub fn new() -> (r: Self)
        ensures
            r.wf(),
            r.tasks@.len() == 0,
            r.events@.len() == 0,
    {
        TaskRegistry { tasks: Vec::new(), events: Vec::new() }
    }

    /// Registers a task handler under `id`. A handler already registered
    /// under `id` is silently replaced (last-writer-wins, no error);
    /// every other id keeps its handler, and the key order is unchanged
    /// but for a new id appended at the end.
    pub fn register_task(&mut self, id: String, handler: T)
        requires
            old(self).wf(),
        ensures
            final(self).wf(),
            spec_lookup(final(self).tasks@, id@) == Some(handler),
            forall|k: Seq<char>|
                k != id@ ==> #[trigger] spec_lookup(final(self).tasks@, k) == spec_lookup(
                    old(self).tasks@,
                    k,
                ),
            reg_keys(final(self).tasks@) == (if spec_lookup(old(self).tasks@, id@) is Some {
                reg_keys(old(self).tasks@)
            } else {
                reg_keys(old(self).tasks@).push(id@)
            }),
            final(self).events@ == old(self).events@,
    {
        register_entry(&mut self.tasks, id, handler);
    }

    /// Registers an event handler under `id`, with the same replacement
    /// semantics as for tasks.
    pub fn register_event(&mut self, id: String, handler: E)
        requires
            old(self).wf(),
        ensures
            final(self).wf(),
            spec_lookup(final(self).events@, id@) == Some(handler),
            forall|k: Seq<char>|
                k != id@ ==> #[trigger] spec_lookup(final(self).events@, k) == spec_lookup(
                    old(self).events@,
                    k,
                ),
            reg_keys(final(self).events@) == (if spec_lookup(old(self).events@, id@) is Some {
                reg_keys(old(self).events@)
            } else {
                reg_keys(old(self).events@).push(id@)
            }),
            final(self).tasks@ == old(self).tasks@,
    {
        register_entry(&mut self.events, id, handler);
    }

    /// Executes the task registered under `id` on `input`: the result is
    /// whatever that handler's own contract admits; an unregistered id
    /// fails with `NotFound`.
    pub fn execute_task(&self, id: &str, input: &JsonValue) -> (r: Result<JsonValue, TunnelError>)
        ensures
            match spec_lookup(self.tasks@, id@) {
                Some(h) => h.task_post(input@, r),
                None => r matches Err(e) && e is NotFound,
            },
    {
        match find_entry(&self.tasks, id) {
            Some(i) => self.tasks[i].1.execute(input),
            None => Err(TunnelError::NotFound),
        }
    }

    /// Emits the event registered under `id` with `payload`: the result is
    /// whatever that handler's own contract admits; an unregistered id
    /// fails with `NotFound`.
    pub fn emit_event(&self, id: &str, payload: &JsonValue) -> (r: Result<(), TunnelError>)
        ensures
            match spec_lookup(self.events@, id@) {
                Some(h) => h.event_post(payload@, r),
                None => r matches Err(e) && e is NotFound,
            },
    {
        match find_entry(&self.events, id) {
            Some(i) => self.events[i].1.emit(payload),
            None => Err(TunnelError::NotFound),
        }
    }

    /// The registered task ids, in first-registration order.
    pub fn get_task_ids(&self) -> (r: Vec<String>)
        ensures
            r@.len() == self.tasks@.len(),
            forall|i: int| 0 <= i < r@.len() ==> (#[trigger] r@[i])@ == self.tasks@[i].0@,
    {
        collect_keys(&self.tasks)
    }

    /// The registered event ids, in first-registration order.
    pub fn get_event_ids(&self) -> (r: Vec<String>)
        ensures
            r@.len() == self.events@.len(),
            forall|i: int| 0 <= i < r@.len() ==> (#[trigger] r@[i])@ == self.events@[i].0@,
    {
        collect_keys(&self.events)
    }
}

impl<T: TaskHandler, E: EventHandler> Default for TaskRegistry<T, E> {
    /// The empty registry.
    fn default() -> (r: Self)
        ensures
            r.wf(),
            r.tasks@.len() == 0,
            r.events@.len() == 0,
    {
        TaskRegistry::new()
    }
}

/// The index of the first entry keyed `id`, if any.
#[verifier::loop_isolation(false)]
fn find_entry<H>(s: &Vec<(String, H)>, id: &str) -> (r: Option<usize>)
    ensures
        match r {
            Some(i) => i < s@.len() && s@[i as int].0@ == id@ && spec_lookup(s@, id@) == Some(
                s@[i as int].1,
            ),
            None => spec_lookup(s@, id@) is None,
        },
{
    let key: String = id.to_owned();
    let n = s.len();
    let mut i: usize = 0;
    proof {
        assert(s@.skip(0) =~= s@);
    }
    while i < n
        invariant
            i <= n,
            spec_lookup(s@, id@) == spec_lookup(s@.skip(i as int), id@),
        decreases n - i,
    {
        proof {
            assert(s@.skip(i as int)[0] == s@[i as int]);
        }
        if s[i].0 == key {
            return Some(i);
        }
        proof {
            assert(s@.skip(i as int).drop_first() =~= s@.skip(i + 1 as int));
        }
        i = i + 1;
    }
    proof {
        assert(s@.skip(n as int).len() == 0);
    }
    None
}

/// Inserts or replaces the entry keyed `id`.
#[verifier::loop_isolation(false)]
fn register_entry<H>(s: &mut Vec<(String, H)>, id: String, handler: H)
    requires
        unique_keys(old(s)@),
    ensures
        unique_keys(final(s)@),
        spec_lookup(final(s)@, id@) == Some(handler),
        forall|k: Seq<char>|
            k != id@ ==> #[trigger] spec_lookup(final(s)@, k) == spec_lookup(old(s)@, k),
        reg_keys(final(s)@) == (if spec_lookup(old(s)@, id@) is Some {
            reg_keys(old(s)@)
        } else {
            reg_keys(old(s)@).push(id@)
        }),
{
    let n = s.len();
    let mut i: usize = 0;
    proof {
        assert(s@.skip(0) =~= s@);
    }
    while i < n
        invariant
            i <= n,
            *s == *old(s),
            spec_lookup(s@, id@) == spec_lookup(s@.skip(i as int), id@),
            forall|j: int| 0 <= j < i ==> (#[trigger] s@[j]).0@ != id@,
        decreases n - i,
    {
        proof {
            assert(s@.skip(i as int)[0] == s@[i as int]);
        }
        if s[i].0 == id {
            let ghost before = s@;
            s.remove(i);
            s.insert(i, (id, handler));
            proof {
                assert(s@ =~= before.update(i as int, (id, handler)));
                lemma_lookup_update(before, i as int, (id, handler));
                assert(reg_keys(s@) =~= reg_keys(before));
            }
            return ;
        }
        proof {
            assert(s@.skip(i as int).drop_first() =~= s@.skip(i + 1 as int));
        }
        i = i + 1;
    }
    proof {
        assert(s@.skip(n as int).len() == 0);
    }
    let ghost before = s@;
    s.push((id, handler));
    proof {
        lemma_lookup_push(before, (id, handler));
        assert(reg_keys(s@) =~= reg_keys(before).push(id@));
    }
}

/// Replacing the first entry with a given key rebinds exactly that key.
proof fn lemma_lookup_update<H>(s: Seq<(String, H)>, i: int, e: (String, H))
    requires
        0 <= i < s.len(),
        s[i].0@ == e.0@,
        forall|j: int| 0 <= j < i ==> (#[trigger] s[j]).0@ != e.0@,
        unique_keys(s),
    ensures
        unique_keys(s.update(i, e)),
        spec_lookup(s.update(i, e), e.0@) == Some(e.1),
        forall|k: Seq<char>|
            k != e.0@ ==> #[trigger] spec_lookup(s.update(i, e), k) == spec_lookup(s, k),
    decreases i,
{
    let t = s.update(i, e);
    assert(forall|a: int, b: int| 0 <= a < b < t.len() ==> t[a].0@ != t[b].0@);
    if i == 0 {
        assert(t[0] == e);
        assert(t.drop_first() =~= s.drop_first());
        assert forall|k: Seq<char>| k != e.0@ implies #[trigger] spec_lookup(t, k)
            == spec_lookup(s, k) by {
            assert(spec_lookup(t, k) == spec_lookup(t.drop_first(), k));
            assert(spec_lookup(s, k) == spec_lookup(s.drop_first(), k));
        }
    } else {
        assert(t[0] == s[0]);
        assert(t.drop_first() =~= s.drop_first().update(i - 1, e));
        lemma_lookup_update(s.drop_first(), i - 1, e);
        assert forall|k: Seq<char>| k != e.0@ implies #[trigger] spec_lookup(t, k)
            == spec_lookup(s, k) by {
            if s[0].0@ != k {
                assert(spec_lookup(t, k) == spec_lookup(t.drop_first(), k));
                assert(spec_lookup(s, k) == spec_lookup(s.drop_first(), k));
            }
        }
    }
}

/// Appending an entry with a fresh key binds exactly that key.
proof fn lemma_lookup_push<H>(s: Seq<(String, H)>, e: (String, H))
    requires
        forall|j: int| 0 <= j < s.len() ==> (#[trigger] s[j]).0@ != e.0@,
        unique_keys(s),
    ensures
        unique_keys(s.push(e)),
        spec_lookup(s.push(e), e.0@) == Some(e.1),
        forall|k: Seq<char>| k != e.0@ ==> #[trigger] spec_lookup(s.push(e), k) == spec_lookup(s, k),
    decreases s.len(),
{
    let t = s.push(e);
    assert(forall|a: int, b: int| 0 <= a < b < t.len() ==> t[a].0@ != t[b].0@);
    if s.len() == 0 {
        assert(t[0] == e);
        assert(t.drop_first() =~= Seq::<(String, H)>::empty());
        assert forall|k: Seq<char>| k != e.0@ implies #[trigger] spec_lookup(t, k)
            == spec_lookup(s, k) by {
            assert(spec_lookup(t, k) == spec_lookup(t.drop_first(), k));
        }
    } else {
        assert(t[0] == s[0]);
        assert(t.drop_first() =~= s.drop_first().push(e));
        lemma_lookup_push(s.drop_first(), e);
        assert forall|k: Seq<char>| k != e.0@ implies #[trigger] spec_lookup(t, k)
            == spec_lookup(s, k) by {
            if s[0].0@ != k {
                assert(spec_lookup(t, k) == spec_lookup(t.drop_first(), k));
                assert(spec_lookup(s, k) == spec_lookup(s.drop_first(), k));
            }
        }
    }
}

/// Clones the keys of an entry list, in order.
#[verifier::loop_isolation(false)]
fn collect_keys<H>(s: &Vec<(String, H)>) -> (r: Vec<String>)
    ensures
        r@.len() == s@.len(),
        forall|i: int| 0 <= i < r@.len() ==> (#[trigger] r@[i])@ == s@[i].0@,
{
    let mut r: Vec<String> = Vec::new();
    let n = s.len();
    let mut i: usize = 0;
    while i < n
        invariant
            i <= n,
            r@.len() == i,
            forall|j: int| 0 <= j < i ==> (#[trigger] r@[j])@ == s@[j].0@,
        decreases n - i,
    {
        r.push(s[i].0.clone());
        i = i + 1;
    }
    r
}

} // verus!

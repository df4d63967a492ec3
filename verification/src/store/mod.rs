//! The session store's tables and the rules of every operation on them.
//!
//! `SessionStore` holds the sessions, executions, events, messages and warm
//! sandboxes of the store as plain tables. Each operation is one atomic
//! step: it reads and writes the tables exactly as the store's
//! transactional statements do, with the caller's clock `now` standing for
//! the database clock (nanoseconds since the Unix epoch).
use vstd::prelude::*;

use serde_json::Value;

use crate::records::{
    EventV, ExecutionV, MessageV, Session, SessionEvent, SessionExecution, SessionMessage, SessionV,
};
use crate::types::{opt_clone, opt_string_view};

pub mod executions;
pub mod fences;
pub mod events;
pub mod messages;
pub mod sessions;
pub mod warm;
pub mod sweeps;
pub mod capacity;

verus! {

/// The model of a stored session: the session and its metadata document.
pub struct SessionRecV {
    pub session: SessionV,
    pub metadata: Value,
}

pub struct SessionRecord {
    pub session: Session,
    pub metadata: Value,
}

impl View for SessionRecord {
    type V = SessionRecV;

    open spec fn view(&self) -> SessionRecV {
        SessionRecV { session: self.session@, metadata: self.metadata }
    }
}

/// The model of a stored execution: the execution and its stdout-owner
/// lease.
pub struct ExecRecV {
    pub execution: ExecutionV,
    pub stdout_owner_id: Option<Seq<char>>,
    pub stdout_owner_lease_expires_at: Option<i128>,
}

pub struct ExecutionRecord {
    pub execution: SessionExecution,
    pub stdout_owner_id: Option<String>,
    pub stdout_owner_lease_expires_at: Option<i128>,
}

impl View for ExecutionRecord {
    type V = ExecRecV;

    open spec fn view(&self) -> ExecRecV {
        ExecRecV {
            execution: self.execution@,
            stdout_owner_id: opt_string_view(self.stdout_owner_id),
            stdout_owner_lease_expires_at: self.stdout_owner_lease_expires_at,
        }
    }
}

impl ExecutionRecord {
    pub fn duplicate(&self) -> (r: ExecutionRecord)
        ensures
            r@ == self@,
    {
        ExecutionRecord {
            execution: self.execution.duplicate(),
            stdout_owner_id: opt_clone(&self.stdout_owner_id),
            stdout_owner_lease_expires_at: self.stdout_owner_lease_expires_at,
        }
    }
}

/// Where a warm sandbox is in the pool.
#[derive(Clone, Copy, Debug, PartialEq, Eq, Structural)]
pub enum WarmStatus {
    Ready,
    Claimed,
    Evicting,
    Failed,
}

/// The model of a warm sandbox.
pub struct WarmV {
    pub sandbox_id: Seq<char>,
    pub workload_key: Seq<char>,
    pub status: WarmStatus,
    pub claimed_thread_key: Option<Seq<char>>,
    pub claimed_at: Option<i128>,
    pub last_error: Option<Seq<char>>,
    pub created_at: i128,
    pub updated_at: i128,
}

/// A pre-started sandbox waiting in the warm pool.
pub struct WarmSandbox {
    pub sandbox_id: String,
    pub workload_key: String,
    pub status: WarmStatus,
    pub claimed_thread_key: Option<String>,
    pub claimed_at: Option<i128>,
    pub last_error: Option<String>,
    pub created_at: i128,
    pub updated_at: i128,
}

impl View for WarmSandbox {
    type V = WarmV;

    open spec fn view(&self) -> WarmV {
        WarmV {
            sandbox_id: self.sandbox_id@,
            workload_key: self.workload_key@,
            status: self.status,
            claimed_thread_key: opt_string_view(self.claimed_thread_key),
            claimed_at: self.claimed_at,
            last_error: opt_string_view(self.last_error),
            created_at: self.created_at,
            updated_at: self.updated_at,
        }
    }
}

/// The model of the whole store. `last_event_id` is the last event id the
/// identity sequence handed out.
pub struct StoreV {
    pub sessions: Seq<SessionRecV>,
    pub executions: Seq<ExecRecV>,
    pub events: Seq<EventV>,
    pub messages: Seq<MessageV>,
    pub warm: Seq<WarmV>,
    pub last_event_id: i64,
}

/// The store's tables.
pub struct SessionStore {
    sessions: Vec<SessionRecord>,
    executions: Vec<ExecutionRecord>,
    events: Vec<SessionEvent>,
    messages: Vec<SessionMessage>,
    warm: Vec<WarmSandbox>,
    last_event_id: i64,
}

impl View for SessionStore {
    type V = StoreV;

    closed spec fn view(&self) -> StoreV {
        StoreV {
            sessions: self.sessions@.map_values(|r: SessionRecord| r@),
            executions: self.executions@.map_values(|r: ExecutionRecord| r@),
            events: self.events@.map_values(|r: SessionEvent| r@),
            messages: self.messages@.map_values(|r: SessionMessage| r@),
            warm: self.warm@.map_values(|r: WarmSandbox| r@),
            last_event_id: self.last_event_id,
        }
    }
}

impl StoreV {
    /// The position of the session with key `key`.
    pub open spec fn session_pos(self, key: Seq<char>) -> Option<int> {
        if exists|i: int| 0 <= i < self.sessions.len() && self.sessions[i].session.thread_key == key {
            Some(
                choose|i: int|
                    0 <= i < self.sessions.len() && self.sessions[i].session.thread_key == key,
            )
        } else {
            None
        }
    }

    /// The position of the execution with id `id`.
    pub open spec fn exec_pos(self, id: Seq<char>) -> Option<int> {
        if exists|i: int|
            0 <= i < self.executions.len() && self.executions[i].execution.execution_id == id {
            Some(
                choose|i: int|
                    0 <= i < self.executions.len() && self.executions[i].execution.execution_id
                        == id,
            )
        } else {
            None
        }
    }

    /// The position of the warm sandbox with id `id`.
    pub open spec fn warm_pos(self, id: Seq<char>) -> Option<int> {
        if exists|i: int| 0 <= i < self.warm.len() && self.warm[i].sandbox_id == id {
            Some(choose|i: int| 0 <= i < self.warm.len() && self.warm[i].sandbox_id == id)
        } else {
            None
        }
    }

    pub open spec fn has_session(self, key: Seq<char>) -> bool {
        self.session_pos(key) is Some
    }

    /// The session with key `key`; meaningful when it exists.
    pub open spec fn session(self, key: Seq<char>) -> SessionV {
        self.sessions[self.session_pos(key)->0].session
    }

    /// The execution record with id `id`; meaningful when it exists.
    pub open spec fn exec(self, id: Seq<char>) -> ExecRecV {
        self.executions[self.exec_pos(id)->0]
    }

    /// Keys are unique, event ids rise in log order and none exceeds the
    /// last id handed out, and idempotency keys and client message ids are
    /// unique within a thread.
    pub open spec fn wf(self) -> bool {
        &&& forall|i: int, j: int|
            0 <= i < self.sessions.len() && 0 <= j < self.sessions.len() && i != j
                ==> self.sessions[i].session.thread_key != self.sessions[j].session.thread_key
        &&& forall|i: int, j: int|
            0 <= i < self.executions.len() && 0 <= j < self.executions.len() && i != j
                ==> self.executions[i].execution.execution_id
                != self.executions[j].execution.execution_id
        &&& forall|i: int, j: int|
            0 <= i < self.warm.len() && 0 <= j < self.warm.len() && i != j
                ==> self.warm[i].sandbox_id != self.warm[j].sandbox_id
        &&& forall|i: int, j: int|
            0 <= i < j < self.events.len() ==> self.events[i].event_id < self.events[j].event_id
        &&& forall|i: int|
            0 <= i < self.events.len() ==> 0 < #[trigger] self.events[i].event_id
                <= self.last_event_id
        &&& self.last_event_id >= 0
        &&& messages::messages_unique(self.messages)
        &&& forall|i: int, j: int|
            0 <= i < self.executions.len() && 0 <= j < self.executions.len() && i != j
                && self.executions[i].execution.thread_key == self.executions[j].execution.thread_key
                && self.executions[i].execution.idempotency_key is Some
                ==> self.executions[i].execution.idempotency_key
                != self.executions[j].execution.idempotency_key
    }

    /// The store with session `i` replaced by `s`, metadata kept.
    pub open spec fn with_session(self, i: int, s: SessionV) -> StoreV {
        StoreV {
            sessions: self.sessions.update(
                i,
                SessionRecV { session: s, metadata: self.sessions[i].metadata },
            ),
            ..self
        }
    }

    /// The store with execution record `i` replaced by `e`.
    pub open spec fn with_exec(self, i: int, e: ExecRecV) -> StoreV {
        StoreV { executions: self.executions.update(i, e), ..self }
    }

    /// The store with warm sandbox `i` replaced by `w`.
    pub open spec fn with_warm(self, i: int, w: WarmV) -> StoreV {
        StoreV { warm: self.warm.update(i, w), ..self }
    }
}

impl SessionStore {
    /// An empty store.
    pub fn new() -> (r: SessionStore)
        ensures
            r@.wf(),
            r@.sessions.len() == 0,
            r@.executions.len() == 0,
            r@.events.len() == 0,
            r@.messages.len() == 0,
            r@.warm.len() == 0,
            r@.last_event_id == 0,
    {
        let r = SessionStore {
            sessions: Vec::new(),
            executions: Vec::new(),
            events: Vec::new(),
            messages: Vec::new(),
            warm: Vec::new(),
            last_event_id: 0,
        };
        assert(r@.sessions =~= Seq::<SessionRecV>::empty());
        assert(r@.executions =~= Seq::<ExecRecV>::empty());
        assert(r@.events =~= Seq::<EventV>::empty());
        assert(r@.messages =~= Seq::<MessageV>::empty());
        assert(r@.warm =~= Seq::<WarmV>::empty());
        r
    }

    /// The position of the session with key `key`.
    fn find_session(&self, key: &str) -> (r: Option<usize>)
        requires
            self@.wf(),
        ensures
            match r {
                Some(i) => self@.session_pos(key@) == Some(i as int) && i < self@.sessions.len(),
                None => self@.session_pos(key@) is None,
            },
    {
        let mut i: usize = 0;
        while i < self.sessions.len()
            invariant
                self@.wf(),
                0 <= i <= self.sessions.len(),
                self@.sessions.len() == self.sessions.len(),
                forall|j: int| 0 <= j < i ==> self@.sessions[j].session.thread_key != key@,
            decreases self.sessions.len() - i,
        {
            if crate::types::text_eq(self.sessions[i].session.thread_key.as_str(), key) {
                let ghost v = self@;
                assert(v.sessions[i as int].session.thread_key == key@);
                let ghost c = choose|k: int|
                    0 <= k < v.sessions.len() && v.sessions[k].session.thread_key == key@;
                assert(c == i);
                return Some(i);
            }
            i = i + 1;
        }
        None
    }

    /// The position of the execution with id `id`.
    fn find_exec(&self, id: &str) -> (r: Option<usize>)
        requires
            self@.wf(),
        ensures
            match r {
                Some(i) => self@.exec_pos(id@) == Some(i as int) && i < self@.executions.len(),
                None => self@.exec_pos(id@) is None,
            },
    {
        let mut i: usize = 0;
        while i < self.executions.len()
            invariant
                self@.wf(),
                0 <= i <= self.executions.len(),
                self@.executions.len() == self.executions.len(),
                forall|j: int|
                    0 <= j < i ==> self@.executions[j].execution.execution_id != id@,
            decreases self.executions.len() - i,
        {
            if crate::types::text_eq(self.executions[i].execution.execution_id.as_str(), id) {
                let ghost v = self@;
                assert(v.executions[i as int].execution.execution_id == id@);
                let ghost c = choose|k: int|
                    0 <= k < v.executions.len() && v.executions[k].execution.execution_id
                        == id@;
                assert(c == i);
                return Some(i);
            }
            i = i + 1;
        }
        None
    }

    /// The position of the warm sandbox with id `id`.
    fn find_warm(&self, id: &str) -> (r: Option<usize>)
        requires
            self@.wf(),
        ensures
            match r {
                Some(i) => self@.warm_pos(id@) == Some(i as int) && i < self@.warm.len(),
                None => self@.warm_pos(id@) is None,
            },
    {
        let mut i: usize = 0;
        while i < self.warm.len()
            invariant
                self@.wf(),
                0 <= i <= self.warm.len(),
                self@.warm.len() == self.warm.len(),
                forall|j: int| 0 <= j < i ==> self@.warm[j].sandbox_id != id@,
            decreases self.warm.len() - i,
        {
            if crate::types::text_eq(self.warm[i].sandbox_id.as_str(), id) {
                let ghost v = self@;
                assert(v.warm[i as int].sandbox_id == id@);
                let ghost c = choose|k: int| 0 <= k < v.warm.len() && v.warm[k].sandbox_id == id@;
                assert(c == i);
                return Some(i);
            }
            i = i + 1;
        }
        None
    }

    /// Replaces session `i`, keeping its key and metadata.
    fn put_session(&mut self, i: usize, s: Session)
        requires
            old(self)@.wf(),
            i < old(self)@.sessions.len(),
            s@.thread_key == old(self)@.sessions[i as int].session.thread_key,
        ensures
            final(self)@ == old(self)@.with_session(i as int, s@),
            final(self)@.wf(),
    {
        let ghost before = self@;
        let metadata = crate::json::clone_json(&self.sessions[i].metadata);
        self.sessions.set(i, SessionRecord { session: s, metadata });
        assert(self@.sessions =~= before.with_session(i as int, s@).sessions);
    }

    /// Replaces execution record `i`, keeping its id.
    fn put_exec(&mut self, i: usize, e: ExecutionRecord)
        requires
            old(self)@.wf(),
            i < old(self)@.executions.len(),
            e@.execution.execution_id == old(self)@.executions[i as int].execution.execution_id,
            e@.execution.thread_key == old(self)@.executions[i as int].execution.thread_key,
            e@.execution.idempotency_key == old(self)@.executions[i as int].execution.idempotency_key,
        ensures
            final(self)@ == old(self)@.with_exec(i as int, e@),
            final(self)@.wf(),
    {
        let ghost before = self@;
        self.executions.set(i, e);
        assert(self@.executions =~= before.with_exec(i as int, e@).executions);
    }

    /// Replaces warm sandbox `i`, keeping its id.
    fn put_warm(&mut self, i: usize, w: WarmSandbox)
        requires
            old(self)@.wf(),
            i < old(self)@.warm.len(),
            w@.sandbox_id == old(self)@.warm[i as int].sandbox_id,
        ensures
            final(self)@ == old(self)@.with_warm(i as int, w@),
            final(self)@.wf(),
    {
        let ghost before = self@;
        self.warm.set(i, w);
        assert(self@.warm =~= before.with_warm(i as int, w@).warm);
    }
}

} // verus!

//! Executions: idempotent creation, the queued-to-running claim, the
//! stdout-owner lease, and the terminal transitions with their fences.
use vstd::prelude::*;

use serde_json::Value;

use super::{ExecRecV, ExecutionRecord, SessionStore, StoreV};
use crate::error::{DatabaseFailure, SessionStoreError};
use crate::ids::{drawn_id, is_lower_hex, prefixed_id};
use crate::lease::{lease_deadline, valid_deadline};
use crate::order::{
    in_key_order, is_permutation, key_less, key_lt, lemma_key_lt_transitive, lemma_text_lt_total,
    sort_rows, KeyedRow,
};
use crate::records::{ClaimExecutionResult, CreateExecutionResult, ExecutionV, SessionExecution};
use crate::store::sessions::is_not_found;
use crate::types::{
    opt_as_str, opt_string_view, opt_text_eq, opt_to_owned, opt_view, text_eq, ExecutionStatus,
    SessionStatus, ThreadKey,
};

verus! {

/// An execution whose stdout lease was released by
/// `release_stdout_owned_executions`.
#[derive(Debug)]
pub struct ReleasedExecution {
    pub execution_id: String,
    pub thread_key: ThreadKey,
}

/// An active execution with its stdout-owner lease. The lease snapshot is
/// advisory — only the conditional claim of an expired owner decides
/// ownership — but it lets an adoption scan skip executions with a live
/// owner.
#[derive(Debug)]
pub struct ActiveExecutionOwnership {
    pub execution: SessionExecution,
    pub stdout_owner_id: Option<String>,
    /// True when a stdout-owner lease exists and has not expired yet.
    pub stdout_owner_lease_active: bool,
}

/// The keys executions are listed by: when each was created, then its id.
pub open spec fn exec_keys(s: Seq<ExecRecV>) -> Seq<(i128, Seq<char>)> {
    s.map_values(|e: ExecRecV| (e.execution.created_at, e.execution.execution_id))
}

impl KeyedRow for SessionExecution {
    open spec fn row_key(&self) -> (i128, Seq<char>) {
        (self.created_at, self.execution_id@)
    }

    fn sorts_before(&self, other: &Self) -> (r: bool) {
        key_less(self.created_at, self.execution_id.as_str(), other.created_at, other.execution_id.as_str())
    }
}

impl KeyedRow for ActiveExecutionOwnership {
    open spec fn row_key(&self) -> (i128, Seq<char>) {
        (self.execution.created_at, self.execution.execution_id@)
    }

    fn sorts_before(&self, other: &Self) -> (r: bool) {
        key_less(
            self.execution.created_at,
            self.execution.execution_id.as_str(),
            other.execution.created_at,
            other.execution.execution_id.as_str(),
        )
    }
}

/// `owner` may take the stdout lease of `e` at `now`: the execution is
/// active and unowned, already owned by `owner`, or its lease has expired.
pub open spec fn owner_claimable(e: ExecRecV, owner: Seq<char>, now: i128) -> bool {
    &&& e.execution.status.spec_is_active()
    &&& {
        ||| e.stdout_owner_id is None
        ||| e.stdout_owner_id == Some(owner)
        ||| (e.stdout_owner_lease_expires_at matches Some(t) && t < now)
    }
}

/// Another owner may take the stdout lease of `e` at `now`: the execution is
/// active and unowned or its lease has expired.
pub open spec fn expired_owner_claimable(e: ExecRecV, now: i128) -> bool {
    &&& e.execution.status.spec_is_active()
    &&& {
        ||| e.stdout_owner_id is None
        ||| (e.stdout_owner_lease_expires_at matches Some(t) && t < now)
    }
}

/// `owner` holds the stdout lease of active execution `e`.
pub open spec fn held_by(e: ExecRecV, owner: Seq<char>) -> bool {
    e.execution.status.spec_is_active() && e.stdout_owner_id == Some(owner)
}

/// `owner` holds an unexpired stdout lease of active execution `e` at `now`.
pub open spec fn held_live_by(e: ExecRecV, owner: Seq<char>, now: i128) -> bool {
    &&& held_by(e, owner)
    &&& e.stdout_owner_lease_expires_at matches Some(t) && t > now
}

/// `e` leased to `owner` until `deadline`.
pub open spec fn leased(e: ExecRecV, owner: Seq<char>, deadline: i128, now: i128) -> ExecRecV {
    ExecRecV {
        execution: ExecutionV { updated_at: now, ..e.execution },
        stdout_owner_id: Some(owner),
        stdout_owner_lease_expires_at: Some(deadline),
    }
}

/// `e` with no stdout owner.
pub open spec fn unowned(e: ExecRecV, now: i128) -> ExecRecV {
    ExecRecV {
        execution: ExecutionV { updated_at: now, ..e.execution },
        stdout_owner_id: None,
        stdout_owner_lease_expires_at: None,
    }
}

/// `e` moved to terminal `status`; `error`, when given, replaces the error;
/// the first completion time is kept; the owner is cleared on request.
pub open spec fn finished(
    e: ExecRecV,
    status: ExecutionStatus,
    error: Option<Seq<char>>,
    clear_owner: bool,
    now: i128,
) -> ExecRecV {
    ExecRecV {
        execution: ExecutionV {
            status,
            error: if error is Some {
                error
            } else {
                e.execution.error
            },
            completed_at: if e.execution.completed_at is Some {
                e.execution.completed_at
            } else {
                Some(now)
            },
            updated_at: now,
            ..e.execution
        },
        stdout_owner_id: if clear_owner {
            None
        } else {
            e.stdout_owner_id
        },
        stdout_owner_lease_expires_at: if clear_owner {
            None
        } else {
            e.stdout_owner_lease_expires_at
        },
    }
}

/// `e` with its lease cleared when `owner` holds it.
pub open spec fn released_if_held(e: ExecRecV, owner: Seq<char>, now: i128) -> ExecRecV {
    if held_by(e, owner) {
        unowned(e, now)
    } else {
        e
    }
}

/// A newly created, queued execution.
pub open spec fn new_execution_v(
    id: Seq<char>,
    key: Seq<char>,
    idempotency_key: Option<Seq<char>>,
    metadata: Value,
    now: i128,
) -> ExecRecV {
    ExecRecV {
        execution: ExecutionV {
            execution_id: id,
            idempotency_key,
            thread_key: key,
            status: ExecutionStatus::Queued,
            metadata,
            error: None,
            created_at: now,
            updated_at: now,
            started_at: None,
            completed_at: None,
        },
        stdout_owner_id: None,
        stdout_owner_lease_expires_at: None,
    }
}

/// What inserting a new execution under id `id` does, from store `s0` to
/// store `s1` with result `r`: an id already stored is refused as a unique
/// violation and changes nothing; any other id adds the queued execution.
pub open spec fn exec_insert_outcome(
    s0: StoreV,
    s1: StoreV,
    r: Result<CreateExecutionResult, SessionStoreError>,
    id: Seq<char>,
    key: Seq<char>,
    idempotency_key: Option<Seq<char>>,
    metadata: Value,
    now: i128,
) -> bool {
    if s0.exec_pos(id) is Some {
        &&& s1 == s0
        &&& r matches Err(e) && e matches SessionStoreError::Sqlx(DatabaseFailure::UniqueViolation)
    } else {
        &&& s1 == s0.with_new_exec(new_execution_v(id, key, idempotency_key, metadata, now))
        &&& r matches Ok(x) && x.created && x.execution@ == new_execution_v(
            id,
            key,
            idempotency_key,
            metadata,
            now,
        ).execution
    }
}

impl StoreV {
    /// The store with execution record `e` appended.
    pub open spec fn with_new_exec(self, e: ExecRecV) -> StoreV {
        StoreV { executions: self.executions.push(e), ..self }
    }

    /// The store after execution `i` moved to a terminal status and its
    /// session to `session_status`.
    pub open spec fn finish_at(
        self,
        i: int,
        status: ExecutionStatus,
        error: Option<Seq<char>>,
        clear_owner: bool,
        session_status: SessionStatus,
        now: i128,
    ) -> StoreV {
        self.with_exec(i, finished(self.executions[i], status, error, clear_owner, now)).with_session_status(
            self.executions[i].execution.thread_key,
            session_status,
            now,
        )
    }

    /// The position of the execution of thread `key` created with
    /// idempotency key `k`.
    pub open spec fn idempotent_pos(self, key: Seq<char>, k: Seq<char>) -> Option<int> {
        if exists|i: int|
            0 <= i < self.executions.len() && self.executions[i].execution.thread_key == key
                && self.executions[i].execution.idempotency_key == Some(k) {
            Some(
                choose|i: int|
                    0 <= i < self.executions.len() && self.executions[i].execution.thread_key
                        == key && self.executions[i].execution.idempotency_key == Some(k),
            )
        } else {
            None
        }
    }

    /// Execution `i` is the newest of thread `key` (among active ones when
    /// `active_only`): no other such execution was created later, and of
    /// those created at the same time it is the last stored.
    pub open spec fn is_latest_exec(self, key: Seq<char>, i: int, active_only: bool) -> bool {
        &&& 0 <= i < self.executions.len()
        &&& self.executions[i].execution.thread_key == key
        &&& active_only ==> self.executions[i].execution.status.spec_is_active()
        &&& forall|j: int|
            0 <= j < self.executions.len() && #[trigger] self.executions[j].execution.thread_key
                == key && (active_only ==> self.executions[j].execution.status.spec_is_active())
                ==> (j == i || self.exec_before(j, i))
    }

    /// Execution `j` sorts before execution `i`: it was created earlier, or
    /// at the same time with a smaller execution id.
    pub open spec fn exec_before(self, j: int, i: int) -> bool {
        key_lt(
            self.executions[j].execution.created_at,
            self.executions[j].execution.execution_id,
            self.executions[i].execution.created_at,
            self.executions[i].execution.execution_id,
        )
    }
}

/// The filter of active executions.
pub open spec fn active_pred() -> spec_fn(ExecRecV) -> bool {
    |e: ExecRecV| e.execution.status.spec_is_active()
}

/// The filter of active executions leased by `owner`.
pub open spec fn owned_pred(owner: Seq<char>) -> spec_fn(ExecRecV) -> bool {
    |e: ExecRecV| held_by(e, owner)
}

impl SessionStore {
    /// Appends a new execution record.
    fn push_exec(&mut self, e: ExecutionRecord)
        requires
            old(self)@.wf(),
            old(self)@.exec_pos(e@.execution.execution_id) is None,
            e@.execution.idempotency_key is Some ==> old(self)@.idempotent_pos(
                e@.execution.thread_key,
                e@.execution.idempotency_key->0,
            ) is None,
        ensures
            final(self)@ == old(self)@.with_new_exec(e@),
            final(self)@.wf(),
    {
        let ghost before = self@;
        self.executions.push(e);
        assert(self@.executions =~= before.with_new_exec(e@).executions);
        assert forall|i: int, j: int|
            0 <= i < self@.executions.len() && 0 <= j < self@.executions.len() && i != j
                && self@.executions[i].execution.thread_key
                == self@.executions[j].execution.thread_key
                && self@.executions[i].execution.idempotency_key is Some
                implies self@.executions[i].execution.idempotency_key
                != self@.executions[j].execution.idempotency_key by {
            let n = before.executions.len() as int;
            if i == n {
                if before.executions[j].execution.idempotency_key == e@.execution.idempotency_key {
                    assert(before.executions[j].execution.thread_key == e@.execution.thread_key);
                }
            } else if j == n {
                if before.executions[i].execution.idempotency_key == e@.execution.idempotency_key {
                    assert(before.executions[i].execution.thread_key == e@.execution.thread_key);
                }
            }
        }
        assert forall|i: int, j: int|
            0 <= i < self@.executions.len() && 0 <= j < self@.executions.len() && i != j
                implies self@.executions[i].execution.execution_id
                != self@.executions[j].execution.execution_id by {
            if i == before.executions.len() {
                assert(before.executions[j].execution.execution_id != e@.execution.execution_id);
            } else if j == before.executions.len() {
                assert(before.executions[i].execution.execution_id != e@.execution.execution_id);
            }
        }
    }

    /// The position of the execution of `thread_key` with idempotency key `k`.
    fn find_idempotent(&self, thread_key: &str, k: &str) -> (r: Option<usize>)
        requires
            self@.wf(),
        ensures
            match r {
                Some(i) => self@.idempotent_pos(thread_key@, k@) == Some(i as int) && i
                    < self@.executions.len(),
                None => self@.idempotent_pos(thread_key@, k@) is None,
            },
    {
        let mut i: usize = 0;
        while i < self.executions.len()
            invariant
                self@.wf(),
                    0 <= i <= self.executions.len(),
                self@.executions.len() == self.executions.len(),
                forall|j: int|
                    0 <= j < i ==> !(self@.executions[j].execution.thread_key == thread_key@
                        && self@.executions[j].execution.idempotency_key == Some(k@)),
            decreases self.executions.len() - i,
        {
            let e = &self.executions[i].execution;
            if text_eq(e.thread_key.as_str(), thread_key) && opt_text_eq(
                opt_as_str(&e.idempotency_key),
                Some(k),
            ) {
                let ghost v = self@;
                let ghost c = choose|m: int|
                    0 <= m < v.executions.len() && v.executions[m].execution.thread_key
                        == thread_key@ && v.executions[m].execution.idempotency_key == Some(k@);
                assert(v.executions[i as int].execution.thread_key == thread_key@);
                assert(c == i);
                return Some(i);
            }
            i = i + 1;
        }
        None
    }

    /// Creates a queued execution of session `thread_key`, or, when an
    /// execution of that session already carries `idempotency_key`, returns
    /// that one with `created = false`.
    pub fn create_execution(
        &mut self,
        thread_key: &ThreadKey,
        idempotency_key: Option<&str>,
        metadata: Value,
        now: i128,
    ) -> (r: Result<CreateExecutionResult, SessionStoreError>)
        requires
            old(self)@.wf(),
        ensures
            final(self)@.wf(),
            !old(self)@.has_session(thread_key@) ==> final(self)@ == old(self)@ && (r matches Err(
                e,
            ) && is_not_found(e, thread_key@)),
            old(self)@.has_session(thread_key@) && idempotency_key is Some
                && old(self)@.idempotent_pos(thread_key@, idempotency_key->0@) is Some ==> {
                let i = old(self)@.idempotent_pos(thread_key@, idempotency_key->0@)->0;
                &&& final(self)@ == old(self)@
                &&& r matches Ok(x) && !x.created && x.execution@
                    == old(self)@.executions[i].execution
            },
            old(self)@.has_session(thread_key@) && (idempotency_key is None
                || old(self)@.idempotent_pos(thread_key@, idempotency_key->0@) is None) ==> exists|
                id: Seq<char>,
            |
                drawn_id(id, "exe"@) && #[trigger] exec_insert_outcome(
                    old(self)@,
                    final(self)@,
                    r,
                    id,
                    thread_key@,
                    opt_view(idempotency_key),
                    metadata,
                    now,
                ),
    {
        if self.find_session(thread_key.as_str()).is_none() {
            return Err(SessionStoreError::NotFound { thread_key: thread_key.as_str().to_owned() });
        }
        if let Some(k) = idempotency_key {
            if let Some(i) = self.find_idempotent(thread_key.as_str(), k) {
                return Ok(
                    CreateExecutionResult {
                        execution: self.executions[i].execution.duplicate(),
                        created: false,
                    },
                );
            }
        }
        let execution_id = prefixed_id("exe");
        proof {
            reveal_strlit("exe");
            assert(drawn_id(execution_id@, "exe"@));
        }
        self.insert_drawn_execution(execution_id, thread_key, idempotency_key, metadata, now)
    }

    /// Inserts a queued execution of session `thread_key` under the drawn id
    /// `execution_id`. An id the store already holds is refused as a unique
    /// violation, changing nothing.
    pub fn insert_drawn_execution(
        &mut self,
        execution_id: String,
        thread_key: &ThreadKey,
        idempotency_key: Option<&str>,
        metadata: Value,
        now: i128,
    ) -> (r: Result<CreateExecutionResult, SessionStoreError>)
        requires
            old(self)@.wf(),
            idempotency_key is None || old(self)@.idempotent_pos(thread_key@, idempotency_key->0@)
                is None,
        ensures
            final(self)@.wf(),
            exec_insert_outcome(
                old(self)@,
                final(self)@,
                r,
                execution_id@,
                thread_key@,
                opt_view(idempotency_key),
                metadata,
                now,
            ),
    {
        if self.find_exec(execution_id.as_str()).is_some() {
            return Err(SessionStoreError::Sqlx(DatabaseFailure::UniqueViolation));
        }
        let execution = SessionExecution {
            execution_id,
            idempotency_key: opt_to_owned(idempotency_key),
            thread_key: thread_key.duplicate(),
            status: ExecutionStatus::Queued,
            metadata,
            error: None,
            created_at: now,
            updated_at: now,
            started_at: None,
            completed_at: None,
        };
        let out = execution.duplicate();
        self.push_exec(
            ExecutionRecord {
                execution,
                stdout_owner_id: None,
                stdout_owner_lease_expires_at: None,
            },
        );
        Ok(CreateExecutionResult { execution: out, created: true })
    }

    /// The newest execution of `thread_key`, among the active ones when
    /// `active_only`.
    pub(crate) fn latest_exec(&self, thread_key: &ThreadKey, active_only: bool) -> (r: Option<usize>)
        requires
            self@.wf(),
        ensures
            match r {
                Some(i) => self@.is_latest_exec(thread_key@, i as int, active_only),
                None => forall|j: int|
                    0 <= j < self@.executions.len() && #[trigger] self@.executions[j].execution.thread_key
                        == thread_key@ ==> (active_only
                        && !self@.executions[j].execution.status.spec_is_active()),
            },
    {
        let mut best: Option<usize> = None;
        let mut i: usize = 0;
        while i < self.executions.len()
            invariant
                self@.wf(),
                0 <= i <= self.executions.len(),
                self@.executions.len() == self.executions.len(),
                match best {
                    Some(b) => {
                        &&& b < i
                        &&& self@.executions[b as int].execution.thread_key == thread_key@
                        &&& active_only
                            ==> self@.executions[b as int].execution.status.spec_is_active()
                        &&& forall|j: int|
                            0 <= j < i && #[trigger] self@.executions[j].execution.thread_key
                                == thread_key@ && (active_only
                                ==> self@.executions[j].execution.status.spec_is_active())
                                ==> (j == b || self@.exec_before(j, b as int))
                    },
                    None => forall|j: int|
                        0 <= j < i && #[trigger] self@.executions[j].execution.thread_key
                            == thread_key@ ==> (active_only
                            && !self@.executions[j].execution.status.spec_is_active()),
                },
            decreases self.executions.len() - i,
        {
            let e = &self.executions[i].execution;
            if text_eq(e.thread_key.as_str(), thread_key.as_str()) && (!active_only
                || e.status.is_active()) {
                match best {
                    Some(b) => {
                        let ghost v = self@;
                        let eb = &self.executions[b].execution;
                        if key_less(
                            eb.created_at,
                            eb.execution_id.as_str(),
                            e.created_at,
                            e.execution_id.as_str(),
                        ) {
                            best = Some(i);
                            assert forall|j: int|
                                0 <= j < i + 1 && #[trigger] v.executions[j].execution.thread_key
                                    == thread_key@ && (active_only
                                    ==> v.executions[j].execution.status.spec_is_active()) implies (j
                                == i || v.exec_before(j, i as int)) by {
                                if j != i && j != b {
                                    lemma_key_lt_transitive(
                                        v.executions[j].execution.created_at,
                                        v.executions[j].execution.execution_id,
                                        v.executions[b as int].execution.created_at,
                                        v.executions[b as int].execution.execution_id,
                                        v.executions[i as int].execution.created_at,
                                        v.executions[i as int].execution.execution_id,
                                    );
                                }
                            }
                        } else {
                            proof {
                                assert(v.executions[i as int].execution.execution_id
                                    != v.executions[b as int].execution.execution_id);
                                lemma_text_lt_total(
                                    v.executions[i as int].execution.execution_id,
                                    v.executions[b as int].execution.execution_id,
                                );
                            }
                            assert(v.exec_before(i as int, b as int));
                        }
                    },
                    None => {
                        best = Some(i);
                    },
                }
            }
            i = i + 1;
        }
        best
    }

    /// The newest active (queued or running) execution of `thread_key`.
    pub fn active_execution_for_thread(&self, thread_key: &ThreadKey) -> (r: Option<SessionExecution>)
        requires
            self@.wf(),
        ensures
            match r {
                Some(x) => exists|i: int|
                    self@.is_latest_exec(thread_key@, i, true) && x@
                        == #[trigger] self@.executions[i].execution,
                None => forall|j: int|
                    0 <= j < self@.executions.len() && #[trigger] self@.executions[j].execution.thread_key
                        == thread_key@ ==> !self@.executions[j].execution.status.spec_is_active(),
            },
    {
        match self.latest_exec(thread_key, true) {
            Some(i) => Some(self.executions[i].execution.duplicate()),
            None => None,
        }
    }

    /// The newest execution of `thread_key`, whatever its status.
    pub fn latest_execution_for_thread(&self, thread_key: &ThreadKey) -> (r: Option<SessionExecution>)
        requires
            self@.wf(),
        ensures
            match r {
                Some(x) => exists|i: int|
                    self@.is_latest_exec(thread_key@, i, false) && x@
                        == #[trigger] self@.executions[i].execution,
                None => forall|j: int|
                    0 <= j < self@.executions.len() ==> #[trigger] self@.executions[j].execution.thread_key
                        != thread_key@,
            },
    {
        match self.latest_exec(thread_key, false) {
            Some(i) => Some(self.executions[i].execution.duplicate()),
            None => None,
        }
    }

    /// Every active execution, oldest first, ties by execution id.
    pub fn list_active_executions(&self) -> (r: Vec<SessionExecution>)
        requires
            self@.wf(),
        ensures
            r.len() == self@.executions.filter(active_pred()).len(),
            exists|p: Seq<usize>|
                #[trigger] in_key_order(p, exec_keys(self@.executions.filter(active_pred())))
                    && forall|k: int|
                    0 <= k < r.len() ==> r[k]@ == self@.executions.filter(
                        active_pred(),
                    )[p[k] as int].execution,
    {
        let mut out: Vec<SessionExecution> = Vec::new();
        let mut i: usize = 0;
        while i < self.executions.len()
            invariant
                0 <= i <= self.executions.len(),
                self@.executions.len() == self.executions.len(),
                out.len() == self@.executions.subrange(0, i as int).filter(active_pred()).len(),
                forall|k: int|
                    0 <= k < out.len() ==> out[k]@ == (#[trigger] self@.executions.subrange(
                        0,
                        i as int,
                    ).filter(active_pred())[k]).execution,
            decreases self.executions.len() - i,
        {
            let ghost pre = self@.executions.subrange(0, i as int);
            let ghost e = self@.executions[i as int];
            assert(self@.executions.subrange(0, i + 1) =~= pre.push(e));
            proof {
                pre.lemma_filter_push(e, active_pred());
            }
            if self.executions[i].execution.status.is_active() {
                out.push(self.executions[i].execution.duplicate());
            }
            i = i + 1;
        }
        assert(self@.executions.subrange(0, self.executions.len() as int) =~= self@.executions);
        let ghost found = out@;
        let r = sort_rows(out);
        proof {
            let f = self@.executions.filter(active_pred());
            let p = choose|p: Seq<usize>|
                #[trigger] is_permutation(p, found.len()) && forall|k: int|
                    0 <= k < r@.len() ==> r@[k] == found[p[k] as int];
            assert forall|k: int| 0 <= k < r.len() implies r[k]@ == f[p[k] as int].execution by {
                assert(r@[k] == found[p[k] as int]);
            }
            assert forall|a: int, b: int| 0 <= a < b < p.len() implies !crate::order::key_lt(
                exec_keys(f)[p[b] as int].0,
                exec_keys(f)[p[b] as int].1,
                exec_keys(f)[p[a] as int].0,
                exec_keys(f)[p[a] as int].1,
            ) by {
                assert(r@[a] == found[p[a] as int] && r@[b] == found[p[b] as int]);
                assert(!crate::order::row_lt(r@[b], r@[a]));
            }
            assert(in_key_order(p, exec_keys(f)));
        }
        r
    }

    /// Every active execution with its stdout lease as seen at `now`, oldest
    /// first, ties by execution id.
    pub fn list_active_executions_with_ownership(&self, now: i128) -> (r: Vec<
        ActiveExecutionOwnership,
    >)
        requires
            self@.wf(),
        ensures
            r.len() == self@.executions.filter(active_pred()).len(),
            exists|p: Seq<usize>|
                #[trigger] in_key_order(p, exec_keys(self@.executions.filter(active_pred())))
                    && forall|k: int|
                    0 <= k < r.len() ==> {
                    let e = self@.executions.filter(active_pred())[p[k] as int];
                    &&& (#[trigger] r[k]).execution@ == e.execution
                    &&& opt_string_view(r[k].stdout_owner_id) == e.stdout_owner_id
                    &&& r[k].stdout_owner_lease_active == (e.stdout_owner_lease_expires_at matches Some(
                        t,
                    ) && t > now)
                },
    {
        let mut out: Vec<ActiveExecutionOwnership> = Vec::new();
        let mut i: usize = 0;
        while i < self.executions.len()
            invariant
                0 <= i <= self.executions.len(),
                self@.executions.len() == self.executions.len(),
                out.len() == self@.executions.subrange(0, i as int).filter(active_pred()).len(),
                forall|k: int|
                    0 <= k < out.len() ==> {
                        let e = #[trigger] self@.executions.subrange(0, i as int).filter(
                            active_pred(),
                        )[k];
                        &&& out[k].execution@ == e.execution
                        &&& opt_string_view(out[k].stdout_owner_id) == e.stdout_owner_id
                        &&& out[k].stdout_owner_lease_active == (
                        e.stdout_owner_lease_expires_at matches Some(t) && t > now)
                    },
            decreases self.executions.len() - i,
        {
            let ghost pre = self@.executions.subrange(0, i as int);
            let ghost e = self@.executions[i as int];
            assert(self@.executions.subrange(0, i + 1) =~= pre.push(e));
            proof {
                pre.lemma_filter_push(e, active_pred());
            }
            let rec = &self.executions[i];
            if rec.execution.status.is_active() {
                let lease_active = match rec.stdout_owner_lease_expires_at {
                    Some(t) => t > now,
                    None => false,
                };
                out.push(
                    ActiveExecutionOwnership {
                        execution: rec.execution.duplicate(),
                        stdout_owner_id: crate::types::opt_clone(&rec.stdout_owner_id),
                        stdout_owner_lease_active: lease_active,
                    },
                );
            }
            i = i + 1;
        }
        assert(self@.executions.subrange(0, self.executions.len() as int) =~= self@.executions);
        let ghost found = out@;
        let r = sort_rows(out);
        proof {
            let f = self@.executions.filter(active_pred());
            let p = choose|p: Seq<usize>|
                #[trigger] is_permutation(p, found.len()) && forall|k: int|
                    0 <= k < r@.len() ==> r@[k] == found[p[k] as int];
            assert forall|k: int| 0 <= k < r.len() implies {
                let e = f[p[k] as int];
                &&& (#[trigger] r[k]).execution@ == e.execution
                &&& opt_string_view(r[k].stdout_owner_id) == e.stdout_owner_id
                &&& r[k].stdout_owner_lease_active == (e.stdout_owner_lease_expires_at matches Some(
                    t,
                ) && t > now)
            } by {
                assert(r@[k] == found[p[k] as int]);
            }
            assert forall|a: int, b: int| 0 <= a < b < p.len() implies !crate::order::key_lt(
                exec_keys(f)[p[b] as int].0,
                exec_keys(f)[p[b] as int].1,
                exec_keys(f)[p[a] as int].0,
                exec_keys(f)[p[a] as int].1,
            ) by {
                assert(r@[a] == found[p[a] as int] && r@[b] == found[p[b] as int]);
                assert(!crate::order::row_lt(r@[b], r@[a]));
            }
            assert(in_key_order(p, exec_keys(f)));
        }
        r
    }

    /// Moves a queued execution to running and its session to executing.
    /// An execution that is not queued is reported unchanged with
    /// `claimed = false`: another request already claimed it, or it ended.
    pub fn mark_execution_running(&mut self, execution_id: &str, now: i128) -> (r: Result<
        ClaimExecutionResult,
        SessionStoreError,
    >)
        requires
            old(self)@.wf(),
        ensures
            final(self)@.wf(),
            match old(self)@.exec_pos(execution_id@) {
                None => final(self)@ == old(self)@ && (r matches Err(e) && e matches SessionStoreError::Sqlx(
                    DatabaseFailure::RowNotFound,
                )),
                Some(i) => {
                    let e = old(self)@.executions[i];
                    if e.execution.status == ExecutionStatus::Queued {
                        let x = ExecutionV {
                            status: ExecutionStatus::Running,
                            started_at: if e.execution.started_at is Some {
                                e.execution.started_at
                            } else {
                                Some(now)
                            },
                            updated_at: now,
                            ..e.execution
                        };
                        &&& final(self)@ == old(self)@.with_exec(
                            i,
                            ExecRecV { execution: x, ..e },
                        ).with_session_status(e.execution.thread_key, SessionStatus::Executing, now)
                        &&& r matches Ok(c) && c.claimed && c.execution@ == x
                    } else {
                        &&& final(self)@ == old(self)@
                        &&& r matches Ok(c) && !c.claimed && c.execution@ == e.execution
                    }
                },
            },
    {
        let i = match self.find_exec(execution_id) {
            Some(i) => i,
            None => return Err(SessionStoreError::Sqlx(DatabaseFailure::RowNotFound)),
        };
        match self.executions[i].execution.status {
            ExecutionStatus::Queued => {},
            _ => {
                return Ok(
                    ClaimExecutionResult {
                        execution: self.executions[i].execution.duplicate(),
                        claimed: false,
                    },
                );
            },
        }
        let mut rec = self.executions[i].duplicate();
        rec.execution.status = ExecutionStatus::Running;
        if rec.execution.started_at.is_none() {
            rec.execution.started_at = Some(now);
        }
        rec.execution.updated_at = now;
        let out = rec.execution.duplicate();
        let key = rec.execution.thread_key.duplicate();
        self.put_exec(i, rec);
        self.set_session_status(key.as_str(), SessionStatus::Executing, now);
        Ok(ClaimExecutionResult { execution: out, claimed: true })
    }

    /// Leases stdout of an active execution to `owner_id` until `now + lease`
    /// when it is unowned, already owned by `owner_id`, or its lease expired.
    pub fn claim_stdout_owner(
        &mut self,
        execution_id: &str,
        owner_id: &str,
        lease: u128,
        now: i128,
    ) -> (r: bool)
        requires
            old(self)@.wf(),
            valid_deadline(now, lease),
        ensures
            final(self)@.wf(),
            match old(self)@.exec_pos(execution_id@) {
                Some(i) => if owner_claimable(old(self)@.executions[i], owner_id@, now) {
                    r && final(self)@ == old(self)@.with_exec(
                        i,
                        leased(old(self)@.executions[i], owner_id@, (now + lease) as i128, now),
                    )
                } else {
                    !r && final(self)@ == old(self)@
                },
                None => !r && final(self)@ == old(self)@,
            },
    {
        let deadline = lease_deadline(now, lease);
        let i = match self.find_exec(execution_id) {
            Some(i) => i,
            None => return false,
        };
        let rec = &self.executions[i];
        let claimable = rec.execution.status.is_active() && (rec.stdout_owner_id.is_none()
            || opt_text_eq(opt_as_str(&rec.stdout_owner_id), Some(owner_id)) || match rec.stdout_owner_lease_expires_at {
            Some(t) => t < now,
            None => false,
        });
        if !claimable {
            return false;
        }
        let mut rec = self.executions[i].duplicate();
        rec.stdout_owner_id = Some(owner_id.to_owned());
        rec.stdout_owner_lease_expires_at = Some(deadline);
        rec.execution.updated_at = now;
        self.put_exec(i, rec);
        true
    }

    /// Leases stdout of an active execution to `owner_id` only when it is
    /// unowned or its lease expired: a live owner, even `owner_id` itself,
    /// keeps it.
    pub fn claim_expired_stdout_owner(
        &mut self,
        execution_id: &str,
        owner_id: &str,
        lease: u128,
        now: i128,
    ) -> (r: bool)
        requires
            old(self)@.wf(),
            valid_deadline(now, lease),
        ensures
            final(self)@.wf(),
            match old(self)@.exec_pos(execution_id@) {
                Some(i) => if expired_owner_claimable(old(self)@.executions[i], now) {
                    r && final(self)@ == old(self)@.with_exec(
                        i,
                        leased(old(self)@.executions[i], owner_id@, (now + lease) as i128, now),
                    )
                } else {
                    !r && final(self)@ == old(self)@
                },
                None => !r && final(self)@ == old(self)@,
            },
    {
        let deadline = lease_deadline(now, lease);
        let i = match self.find_exec(execution_id) {
            Some(i) => i,
            None => return false,
        };
        let rec = &self.executions[i];
        let claimable = rec.execution.status.is_active() && (rec.stdout_owner_id.is_none()
            || match rec.stdout_owner_lease_expires_at {
            Some(t) => t < now,
            None => false,
        });
        if !claimable {
            return false;
        }
        let mut rec = self.executions[i].duplicate();
        rec.stdout_owner_id = Some(owner_id.to_owned());
        rec.stdout_owner_lease_expires_at = Some(deadline);
        rec.execution.updated_at = now;
        self.put_exec(i, rec);
        true
    }

    /// Extends the lease of `owner_id` to `now + lease` while it owns the
    /// active execution.
    pub fn renew_stdout_owner(&mut self, execution_id: &str, owner_id: &str, lease: u128, now: i128) -> (r:
        bool)
        requires
            old(self)@.wf(),
            valid_deadline(now, lease),
        ensures
            final(self)@.wf(),
            match old(self)@.exec_pos(execution_id@) {
                Some(i) => if held_by(old(self)@.executions[i], owner_id@) {
                    r && final(self)@ == old(self)@.with_exec(
                        i,
                        leased(old(self)@.executions[i], owner_id@, (now + lease) as i128, now),
                    )
                } else {
                    !r && final(self)@ == old(self)@
                },
                None => !r && final(self)@ == old(self)@,
            },
    {
        let deadline = lease_deadline(now, lease);
        let i = match self.find_exec(execution_id) {
            Some(i) => i,
            None => return false,
        };
        let rec = &self.executions[i];
        if !(rec.execution.status.is_active() && opt_text_eq(
            opt_as_str(&rec.stdout_owner_id),
            Some(owner_id),
        )) {
            return false;
        }
        let mut rec = self.executions[i].duplicate();
        rec.stdout_owner_lease_expires_at = Some(deadline);
        rec.execution.updated_at = now;
        self.put_exec(i, rec);
        true
    }

    /// Gives up the stdout lease of `owner_id`, whatever the status.
    pub fn release_stdout_owner(&mut self, execution_id: &str, owner_id: &str, now: i128) -> (r: bool)
        requires
            old(self)@.wf(),
        ensures
            final(self)@.wf(),
            match old(self)@.exec_pos(execution_id@) {
                Some(i) => if old(self)@.executions[i].stdout_owner_id == Some(owner_id@) {
                    r && final(self)@ == old(self)@.with_exec(
                        i,
                        unowned(old(self)@.executions[i], now),
                    )
                } else {
                    !r && final(self)@ == old(self)@
                },
                None => !r && final(self)@ == old(self)@,
            },
    {
        let i = match self.find_exec(execution_id) {
            Some(i) => i,
            None => return false,
        };
        if !opt_text_eq(opt_as_str(&self.executions[i].stdout_owner_id), Some(owner_id)) {
            return false;
        }
        let mut rec = self.executions[i].duplicate();
        rec.stdout_owner_id = None;
        rec.stdout_owner_lease_expires_at = None;
        rec.execution.updated_at = now;
        self.put_exec(i, rec);
        true
    }

    /// How many active executions `owner_id` holds the stdout lease of.
    pub fn count_executions_with_stdout_owner(&self, owner_id: &str) -> (r: u64)
        requires
            self@.wf(),
        ensures
            r == self@.executions.filter(owned_pred(owner_id@)).len(),
    {
        let mut count: usize = 0;
        let mut i: usize = 0;
        while i < self.executions.len()
            invariant
                0 <= i <= self.executions.len(),
                self@.executions.len() == self.executions.len(),
                count == self@.executions.subrange(0, i as int).filter(owned_pred(owner_id@)).len(),
                count <= i,
            decreases self.executions.len() - i,
        {
            let ghost pre = self@.executions.subrange(0, i as int);
            let ghost e = self@.executions[i as int];
            assert(self@.executions.subrange(0, i + 1) =~= pre.push(e));
            proof {
                pre.lemma_filter_push(e, owned_pred(owner_id@));
            }
            let rec = &self.executions[i];
            if rec.execution.status.is_active() && opt_text_eq(
                opt_as_str(&rec.stdout_owner_id),
                Some(owner_id),
            ) {
                count = count + 1;
            }
            i = i + 1;
        }
        assert(self@.executions.subrange(0, self.executions.len() as int) =~= self@.executions);
        count as u64
    }

    /// Releases every active stdout lease held by `owner_id` at once and
    /// reports the executions released, in store order, so that a peer can
    /// adopt them without waiting for the leases to expire.
    pub fn release_stdout_owned_executions(&mut self, owner_id: &str, now: i128) -> (r: Vec<
        ReleasedExecution,
    >)
        requires
            old(self)@.wf(),
        ensures
            final(self)@.wf(),
            final(self)@ == (StoreV {
                executions: old(self)@.executions.map_values(
                    |e: ExecRecV| released_if_held(e, owner_id@, now),
                ),
                ..old(self)@
            }),
            r.len() == old(self)@.executions.filter(owned_pred(owner_id@)).len(),
            forall|k: int|
                0 <= k < r.len() ==> {
                    let e = #[trigger] old(self)@.executions.filter(owned_pred(owner_id@))[k];
                    &&& r[k].execution_id@ == e.execution.execution_id
                    &&& r[k].thread_key@ == e.execution.thread_key
                },
    {
        let ghost before = self@;
        let mut out: Vec<ReleasedExecution> = Vec::new();
        let mut i: usize = 0;
        while i < self.executions.len()
            invariant
                0 <= i <= self.executions.len(),
                self@.wf(),
                self@.executions.len() == self.executions.len(),
                self@.executions.len() == before.executions.len(),
                self@ == (StoreV { executions: self@.executions, ..before }),
                forall|j: int| 0 <= j < i ==> self@.executions[j] == released_if_held(before.executions[j], owner_id@, now),
                forall|j: int| i <= j < self@.executions.len() ==> self@.executions[j] == before.executions[j],
                out.len() == before.executions.subrange(0, i as int).filter(owned_pred(owner_id@)).len(),
                forall|k: int|
                    0 <= k < out.len() ==> {
                        let e = #[trigger] before.executions.subrange(0, i as int).filter(
                            owned_pred(owner_id@),
                        )[k];
                        &&& out[k].execution_id@ == e.execution.execution_id
                        &&& out[k].thread_key@ == e.execution.thread_key
                    },
            decreases self.executions.len() - i,
        {
            let ghost pre = before.executions.subrange(0, i as int);
            let ghost e = before.executions[i as int];
            assert(before.executions.subrange(0, i + 1) =~= pre.push(e));
            proof {
                pre.lemma_filter_push(e, owned_pred(owner_id@));
            }
            assert(self@.executions[i as int] == before.executions[i as int]);
            let owned = self.executions[i].execution.status.is_active() && opt_text_eq(
                opt_as_str(&self.executions[i].stdout_owner_id),
                Some(owner_id),
            );
            if owned {
                out.push(
                    ReleasedExecution {
                        execution_id: self.executions[i].execution.execution_id.clone(),
                        thread_key: self.executions[i].execution.thread_key.duplicate(),
                    },
                );
                let mut rec = self.executions[i].duplicate();
                rec.stdout_owner_id = None;
                rec.stdout_owner_lease_expires_at = None;
                rec.execution.updated_at = now;
                assert(rec@ == unowned(before.executions[i as int], now));
                self.put_exec(i, rec);
            }
            assert(held_by(before.executions[i as int], owner_id@) == owned);
            assert(self@.executions[i as int] == released_if_held(before.executions[i as int], owner_id@, now));
            i = i + 1;
        }
        assert(before.executions.subrange(0, before.executions.len() as int)
            =~= before.executions);
        assert(self@.executions =~= before.executions.map_values(
            |e: ExecRecV| released_if_held(e, owner_id@, now),
        ));
        out
    }

    /// Moves execution `i` to a terminal status and its session to
    /// `session_status`, returning the execution as stored.
    fn finish(
        &mut self,
        i: usize,
        status: ExecutionStatus,
        error: Option<&str>,
        clear_owner: bool,
        session_status: SessionStatus,
        now: i128,
    ) -> (r: SessionExecution)
        requires
            old(self)@.wf(),
            i < old(self)@.executions.len(),
        ensures
            final(self)@.wf(),
            final(self)@ == old(self)@.finish_at(
                i as int,
                status,
                opt_view(error),
                clear_owner,
                session_status,
                now,
            ),
            r@ == finished(
                old(self)@.executions[i as int],
                status,
                opt_view(error),
                clear_owner,
                now,
            ).execution,
    {
        let mut rec = self.executions[i].duplicate();
        rec.execution.status = status;
        if error.is_some() {
            rec.execution.error = opt_to_owned(error);
        }
        if rec.execution.completed_at.is_none() {
            rec.execution.completed_at = Some(now);
        }
        rec.execution.updated_at = now;
        if clear_owner {
            rec.stdout_owner_id = None;
            rec.stdout_owner_lease_expires_at = None;
        }
        let out = rec.execution.duplicate();
        let key = rec.execution.thread_key.duplicate();
        self.put_exec(i, rec);
        self.set_session_status(key.as_str(), session_status, now);
        out
    }

    /// Completes an execution whatever its status; its session becomes
    /// idle.
    pub fn complete_execution(&mut self, execution_id: &str, now: i128) -> (r: Result<
        SessionExecution,
        SessionStoreError,
    >)
        requires
            old(self)@.wf(),
        ensures
            final(self)@.wf(),
            match old(self)@.exec_pos(execution_id@) {
                Some(i) => {
                    &&& final(self)@ == old(self)@.finish_at(
                        i,
                        ExecutionStatus::Completed,
                        None,
                        false,
                        SessionStatus::Idle,
                        now,
                    )
                    &&& r matches Ok(x) && x@ == finished(
                        old(self)@.executions[i],
                        ExecutionStatus::Completed,
                        None,
                        false,
                        now,
                    ).execution
                },
                None => final(self)@ == old(self)@ && (r matches Err(e) && e matches SessionStoreError::Sqlx(
                    DatabaseFailure::RowNotFound,
                )),
            },
    {
        match self.find_exec(execution_id) {
            Some(i) => Ok(
                self.finish(i, ExecutionStatus::Completed, None, false, SessionStatus::Idle, now),
            ),
            None => Err(SessionStoreError::Sqlx(DatabaseFailure::RowNotFound)),
        }
    }

    /// Completes an execution only while it is active.
    pub fn complete_execution_if_active(&mut self, execution_id: &str, now: i128) -> (r: Option<
        SessionExecution,
    >)
        requires
            old(self)@.wf(),
        ensures
            final(self)@.wf(),
            match old(self)@.exec_pos(execution_id@) {
                Some(i) => if old(self)@.executions[i].execution.status.spec_is_active() {
                    &&& final(self)@ == old(self)@.finish_at(
                        i,
                        ExecutionStatus::Completed,
                        None,
                        false,
                        SessionStatus::Idle,
                        now,
                    )
                    &&& r matches Some(x) && x@ == finished(
                        old(self)@.executions[i],
                        ExecutionStatus::Completed,
                        None,
                        false,
                        now,
                    ).execution
                } else {
                    r is None && final(self)@ == old(self)@
                },
                None => r is None && final(self)@ == old(self)@,
            },
    {
        match self.find_exec(execution_id) {
            Some(i) => {
                if !self.executions[i].execution.status.is_active() {
                    return None;
                }
                Some(
                    self.finish(
                        i,
                        ExecutionStatus::Completed,
                        None,
                        false,
                        SessionStatus::Idle,
                        now,
                    ),
                )
            },
            None => None,
        }
    }

    /// Moves an active execution that `owner_id` holds the stdout lease of to
    /// `status`, clearing the lease; any other caller is fenced out.
    fn finish_if_owner(
        &mut self,
        execution_id: &str,
        owner_id: &str,
        status: ExecutionStatus,
        error: Option<&str>,
        session_status: SessionStatus,
        now: i128,
    ) -> (r: Option<SessionExecution>)
        requires
            old(self)@.wf(),
        ensures
            final(self)@.wf(),
            match old(self)@.exec_pos(execution_id@) {
                Some(i) => if held_by(old(self)@.executions[i], owner_id@) {
                    &&& final(self)@ == old(self)@.finish_at(
                        i,
                        status,
                        opt_view(error),
                        true,
                        session_status,
                        now,
                    )
                    &&& r matches Some(x) && x@ == finished(
                        old(self)@.executions[i],
                        status,
                        opt_view(error),
                        true,
                        now,
                    ).execution
                } else {
                    r is None && final(self)@ == old(self)@
                },
                None => r is None && final(self)@ == old(self)@,
            },
    {
        match self.find_exec(execution_id) {
            Some(i) => {
                let rec = &self.executions[i];
                if !(rec.execution.status.is_active() && opt_text_eq(
                    opt_as_str(&rec.stdout_owner_id),
                    Some(owner_id),
                )) {
                    return None;
                }
                Some(self.finish(i, status, error, true, session_status, now))
            },
            None => None,
        }
    }

    /// Completes an active execution only for the holder of its stdout
    /// lease, clearing the lease.
    pub fn complete_execution_if_active_and_stdout_owner(
        &mut self,
        execution_id: &str,
        owner_id: &str,
        now: i128,
    ) -> (r: Option<SessionExecution>)
        requires
            old(self)@.wf(),
        ensures
            final(self)@.wf(),
            match old(self)@.exec_pos(execution_id@) {
                Some(i) => if held_by(old(self)@.executions[i], owner_id@) {
                    &&& final(self)@ == old(self)@.finish_at(
                        i,
                        ExecutionStatus::Completed,
                        None,
                        true,
                        SessionStatus::Idle,
                        now,
                    )
                    &&& r matches Some(x) && x@ == finished(
                        old(self)@.executions[i],
                        ExecutionStatus::Completed,
                        None,
                        true,
                        now,
                    ).execution
                } else {
                    r is None && final(self)@ == old(self)@
                },
                None => r is None && final(self)@ == old(self)@,
            },
    {
        self.finish_if_owner(
            execution_id,
            owner_id,
            ExecutionStatus::Completed,
            None,
            SessionStatus::Idle,
            now,
        )
    }

    /// Fails an execution whatever its status, recording `error`; its
    /// session becomes failed.
    pub fn fail_execution(&mut self, execution_id: &str, error: &str, now: i128) -> (r: Result<
        SessionExecution,
        SessionStoreError,
    >)
        requires
            old(self)@.wf(),
        ensures
            final(self)@.wf(),
            match old(self)@.exec_pos(execution_id@) {
                Some(i) => {
                    &&& final(self)@ == old(self)@.finish_at(
                        i,
                        ExecutionStatus::Failed,
                        Some(error@),
                        false,
                        SessionStatus::Failed,
                        now,
                    )
                    &&& r matches Ok(x) && x@ == finished(
                        old(self)@.executions[i],
                        ExecutionStatus::Failed,
                        Some(error@),
                        false,
                        now,
                    ).execution
                },
                None => final(self)@ == old(self)@ && (r matches Err(e) && e matches SessionStoreError::Sqlx(
                    DatabaseFailure::RowNotFound,
                )),
            },
    {
        match self.find_exec(execution_id) {
            Some(i) => Ok(
                self.finish(
                    i,
                    ExecutionStatus::Failed,
                    Some(error),
                    false,
                    SessionStatus::Failed,
                    now,
                ),
            ),
            None => Err(SessionStoreError::Sqlx(DatabaseFailure::RowNotFound)),
        }
    }

    /// Fails an execution only while it is active.
    pub fn fail_execution_if_active(&mut self, execution_id: &str, error: &str, now: i128) -> (r:
        Option<SessionExecution>)
        requires
            old(self)@.wf(),
        ensures
            final(self)@.wf(),
            match old(self)@.exec_pos(execution_id@) {
                Some(i) => if old(self)@.executions[i].execution.status.spec_is_active() {
                    &&& final(self)@ == old(self)@.finish_at(
                        i,
                        ExecutionStatus::Failed,
                        Some(error@),
                        false,
                        SessionStatus::Failed,
                        now,
                    )
                    &&& r matches Some(x) && x@ == finished(
                        old(self)@.executions[i],
                        ExecutionStatus::Failed,
                        Some(error@),
                        false,
                        now,
                    ).execution
                } else {
                    r is None && final(self)@ == old(self)@
                },
                None => r is None && final(self)@ == old(self)@,
            },
    {
        match self.find_exec(execution_id) {
            Some(i) => {
                if !self.executions[i].execution.status.is_active() {
                    return None;
                }
                Some(
                    self.finish(
                        i,
                        ExecutionStatus::Failed,
                        Some(error),
                        false,
                        SessionStatus::Failed,
                        now,
                    ),
                )
            },
            None => None,
        }
    }

    /// Fails an active execution only for the holder of its stdout lease,
    /// clearing the lease.
    pub fn fail_execution_if_active_and_stdout_owner(
        &mut self,
        execution_id: &str,
        owner_id: &str,
        error: &str,
        now: i128,
    ) -> (r: Option<SessionExecution>)
        requires
            old(self)@.wf(),
        ensures
            final(self)@.wf(),
            match old(self)@.exec_pos(execution_id@) {
                Some(i) => if held_by(old(self)@.executions[i], owner_id@) {
                    &&& final(self)@ == old(self)@.finish_at(
                        i,
                        ExecutionStatus::Failed,
                        Some(error@),
                        true,
                        SessionStatus::Failed,
                        now,
                    )
                    &&& r matches Some(x) && x@ == finished(
                        old(self)@.executions[i],
                        ExecutionStatus::Failed,
                        Some(error@),
                        true,
                        now,
                    ).execution
                } else {
                    r is None && final(self)@ == old(self)@
                },
                None => r is None && final(self)@ == old(self)@,
            },
    {
        self.finish_if_owner(
            execution_id,
            owner_id,
            ExecutionStatus::Failed,
            Some(error),
            SessionStatus::Failed,
            now,
        )
    }

    /// Cancels an active execution only for the holder of its stdout lease,
    /// recording `reason` and clearing the lease; its session becomes idle.
    pub fn cancel_execution_if_active_and_stdout_owner(
        &mut self,
        execution_id: &str,
        owner_id: &str,
        reason: &str,
        now: i128,
    ) -> (r: Option<SessionExecution>)
        requires
            old(self)@.wf(),
        ensures
            final(self)@.wf(),
            match old(self)@.exec_pos(execution_id@) {
                Some(i) => if held_by(old(self)@.executions[i], owner_id@) {
                    &&& final(self)@ == old(self)@.finish_at(
                        i,
                        ExecutionStatus::Cancelled,
                        Some(reason@),
                        true,
                        SessionStatus::Idle,
                        now,
                    )
                    &&& r matches Some(x) && x@ == finished(
                        old(self)@.executions[i],
                        ExecutionStatus::Cancelled,
                        Some(reason@),
                        true,
                        now,
                    ).execution
                } else {
                    r is None && final(self)@ == old(self)@
                },
                None => r is None && final(self)@ == old(self)@,
            },
    {
        self.finish_if_owner(
            execution_id,
            owner_id,
            ExecutionStatus::Cancelled,
            Some(reason),
            SessionStatus::Idle,
            now,
        )
    }
}

} // verus!

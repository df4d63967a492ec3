//! The fenced session transitions that touch a session and its execution
//! together: the canonical release, and binding or clearing a sandbox for
//! the execution that holds the stdout lease.
use vstd::prelude::*;

use super::{SessionStore, StoreV};
use crate::error::SessionStoreError;
use crate::records::{Session, SessionExecution, SessionV};
use crate::store::executions::{finished, held_live_by};
use crate::store::sessions::{is_not_found, with_sandbox, without_sandbox};
use crate::types::{
    opt_as_str, opt_clone, opt_string_view, opt_text_eq, opt_to_owned, opt_view, text_eq,
    ExecutionStatus, SandboxCapabilities, SessionStatus, ThreadKey,
};

verus! {

/// The outcome of the transactional release of a session's sandbox.
/// Locking the session row serializes release with execution creation,
/// while the sandbox snapshot keeps an old release request from clearing a
/// newly assigned sandbox.
#[derive(Debug)]
pub enum ReleaseSessionResult {
    Released { session: Box<Session>, cancelled_execution: Option<SessionExecution> },
    ActiveExecution(SessionExecution),
    SandboxMismatch { current_sandbox_id: Option<String> },
}

/// What a release does once the session is locked.
#[derive(Clone, Copy, Debug, PartialEq, Eq, Structural)]
pub enum ReleasePlan {
    /// The session's sandbox is not the one the request saw.
    SandboxMismatch,
    /// Work is in flight and the request did not ask to cancel it.
    RefuseActive,
    /// Clear the sandbox, cancelling the in-flight execution when there is
    /// one.
    Release { cancel_active: bool },
}

/// The release decision: the sandbox snapshot must match, then in-flight
/// work is refused unless cancellation was asked for.
pub open spec fn spec_release_plan(
    current_sandbox_id: Option<Seq<char>>,
    expected_sandbox_id: Option<Seq<char>>,
    has_active: bool,
    cancel_inflight: bool,
) -> ReleasePlan {
    if current_sandbox_id != expected_sandbox_id {
        ReleasePlan::SandboxMismatch
    } else if has_active && !cancel_inflight {
        ReleasePlan::RefuseActive
    } else {
        ReleasePlan::Release { cancel_active: has_active }
    }
}

pub fn release_plan(
    current_sandbox_id: Option<&str>,
    expected_sandbox_id: Option<&str>,
    has_active: bool,
    cancel_inflight: bool,
) -> (r: ReleasePlan)
    ensures
        r == spec_release_plan(
            opt_view(current_sandbox_id),
            opt_view(expected_sandbox_id),
            has_active,
            cancel_inflight,
        ),
{
    if !opt_text_eq(current_sandbox_id, expected_sandbox_id) {
        ReleasePlan::SandboxMismatch
    } else if has_active && !cancel_inflight {
        ReleasePlan::RefuseActive
    } else {
        ReleasePlan::Release { cancel_active: has_active }
    }
}

/// The fence on binding or clearing a sandbox for an execution: the
/// execution is queued or running and the caller's stdout lease is live.
pub open spec fn spec_execution_fence(status: Seq<char>, owner_active: bool) -> bool {
    owner_active && (status == ExecutionStatus::Queued.spec_str() || status
        == ExecutionStatus::Running.spec_str())
}

/// Checks the execution fence on a stored status text and lease flag.
pub fn execution_fence(status: &str, owner_active: bool) -> (r: bool)
    ensures
        r == spec_execution_fence(status@, owner_active),
{
    owner_active && (text_eq(status, ExecutionStatus::Queued.as_str()) || text_eq(
        status,
        ExecutionStatus::Running.as_str(),
    ))
}

/// The session after a release: no sandbox, no harness thread, idle.
pub open spec fn released_session(s: SessionV, now: i128) -> SessionV {
    SessionV { harness_thread_id: None, status: SessionStatus::Idle, ..without_sandbox(s, now) }
}

impl StoreV {
    /// The newest active execution of thread `key`, if any.
    pub open spec fn active_pos(self, key: Seq<char>) -> Option<int> {
        if exists|i: int| self.is_latest_exec(key, i, true) {
            Some(choose|i: int| self.is_latest_exec(key, i, true))
        } else {
            None
        }
    }

    /// Execution `id` belongs to thread `key` and `owner` holds its live
    /// stdout lease at `now`.
    pub open spec fn fence_holds(self, key: Seq<char>, id: Seq<char>, owner: Seq<char>, now: i128) -> bool {
        self.exec_of_thread(id, key) && held_live_by(self.exec(id), owner, now)
    }
}

impl SessionStore {
    /// The newest active execution of `thread_key`.
    pub(crate) fn find_active(&self, thread_key: &ThreadKey) -> (r: Option<usize>)
        requires
            self@.wf(),
        ensures
            match r {
                Some(i) => self@.active_pos(thread_key@) == Some(i as int) && i
                    < self@.executions.len(),
                None => self@.active_pos(thread_key@) is None,
            },
    {
        let r = self.latest_exec(thread_key, true);
        match r {
            Some(i) => {
                let ghost v = self@;
                assert(v.is_latest_exec(thread_key@, i as int, true));
                let ghost c = choose|k: int| v.is_latest_exec(thread_key@, k, true);
                assert(c == i) by {
                    assert(v.is_latest_exec(thread_key@, c, true));
                    v.lemma_latest_unique(thread_key@, c, i as int, true);
                }
            },
            None => {
                let ghost v = self@;
                assert forall|k: int| !v.is_latest_exec(thread_key@, k, true) by {
                    if 0 <= k < v.executions.len() && v.executions[k].execution.thread_key
                        == thread_key@ {
                    }
                }
            },
        }
        r
    }

    /// The canonical release of session `thread_key`'s sandbox. The session
    /// must still hold `expected_sandbox_id`; in-flight work is refused
    /// unless `cancel_inflight`, in which case the newest active execution
    /// is cancelled with `cancellation_reason` and its stdout lease cleared.
    /// The released session keeps no sandbox and no harness thread and is
    /// idle.
    pub fn release_session_if_sandbox_matches(
        &mut self,
        thread_key: &ThreadKey,
        expected_sandbox_id: Option<&str>,
        cancel_inflight: bool,
        cancellation_reason: &str,
        now: i128,
    ) -> (r: Result<ReleaseSessionResult, SessionStoreError>)
        requires
            old(self)@.wf(),
        ensures
            final(self)@.wf(),
            match old(self)@.session_pos(thread_key@) {
                None => final(self)@ == old(self)@ && (r matches Err(e) && is_not_found(e, thread_key@)),
                Some(si) => {
                    let s = old(self)@.sessions[si].session;
                    let active = old(self)@.active_pos(thread_key@);
                    match spec_release_plan(
                        s.sandbox_id,
                        opt_view(expected_sandbox_id),
                        active is Some,
                        cancel_inflight,
                    ) {
                        ReleasePlan::SandboxMismatch => final(self)@ == old(self)@ && (r matches Ok(
                            ReleaseSessionResult::SandboxMismatch { current_sandbox_id },
                        ) && opt_string_view(current_sandbox_id) == s.sandbox_id),
                        ReleasePlan::RefuseActive => final(self)@ == old(self)@ && (r matches Ok(
                            ReleaseSessionResult::ActiveExecution(x),
                        ) && x@ == old(self)@.executions[active->0].execution),
                        ReleasePlan::Release { cancel_active } => {
                            let cancelled = if cancel_active {
                                old(self)@.with_exec(
                                    active->0,
                                    finished(
                                        old(self)@.executions[active->0],
                                        ExecutionStatus::Cancelled,
                                        Some(cancellation_reason@),
                                        true,
                                        now,
                                    ),
                                )
                            } else {
                                old(self)@
                            };
                            &&& final(self)@ == cancelled.with_session(si, released_session(s, now))
                            &&& r matches Ok(
                                ReleaseSessionResult::Released { session, cancelled_execution },
                            )
                            &&& session@ == released_session(s, now)
                            &&& cancel_active ==> (cancelled_execution matches Some(x) && x@
                                == cancelled.executions[active->0].execution)
                            &&& !cancel_active ==> cancelled_execution is None
                        },
                    }
                },
            },
    {
        let si = match self.find_session(thread_key.as_str()) {
            Some(si) => si,
            None => {
                return Err(
                    SessionStoreError::NotFound { thread_key: thread_key.as_str().to_owned() },
                );
            },
        };
        let active = self.find_active(thread_key);
        let plan = release_plan(
            opt_as_str(&self.sessions[si].session.sandbox_id),
            expected_sandbox_id,
            active.is_some(),
            cancel_inflight,
        );
        match plan {
            ReleasePlan::SandboxMismatch => {
                return Ok(
                    ReleaseSessionResult::SandboxMismatch {
                        current_sandbox_id: opt_clone(&self.sessions[si].session.sandbox_id),
                    },
                );
            },
            ReleasePlan::RefuseActive => {
                let ai = active.unwrap();
                return Ok(
                    ReleaseSessionResult::ActiveExecution(self.executions[ai].execution.duplicate()),
                );
            },
            ReleasePlan::Release { cancel_active } => {
                let mut cancelled_execution: Option<SessionExecution> = None;
                if cancel_active {
                    let ai = active.unwrap();
                    let mut rec = self.executions[ai].duplicate();
                    rec.execution.status = ExecutionStatus::Cancelled;
                    rec.execution.error = Some(cancellation_reason.to_owned());
                    if rec.execution.completed_at.is_none() {
                        rec.execution.completed_at = Some(now);
                    }
                    rec.execution.updated_at = now;
                    rec.stdout_owner_id = None;
                    rec.stdout_owner_lease_expires_at = None;
                    cancelled_execution = Some(rec.execution.duplicate());
                    self.put_exec(ai, rec);
                }
                let mut s = self.sessions[si].session.duplicate();
                s.sandbox_id = None;
                s.sandbox_content_revision = None;
                s.sandbox_capabilities = None;
                s.sandbox_last_active_at = None;
                s.harness_thread_id = None;
                s.status = SessionStatus::Idle;
                s.updated_at = now;
                let out = s.duplicate();
                self.put_session(si, s);
                Ok(ReleaseSessionResult::Released { session: Box::new(out), cancelled_execution })
            },
        }
    }

    /// Checks the fence for execution `execution_id` of `thread_key` and
    /// owner `owner_id` at `now`.
    fn fence_check(&self, thread_key: &ThreadKey, execution_id: &str, owner_id: &str, now: i128) -> (r:
        bool)
        requires
            self@.wf(),
        ensures
            r == self@.fence_holds(thread_key@, execution_id@, owner_id@, now),
    {
        match self.find_exec(execution_id) {
            Some(i) => {
                let rec = &self.executions[i];
                text_eq(rec.execution.thread_key.as_str(), thread_key.as_str())
                    && rec.execution.status.is_active() && opt_text_eq(
                    opt_as_str(&rec.stdout_owner_id),
                    Some(owner_id),
                ) && match rec.stdout_owner_lease_expires_at {
                    Some(t) => t > now,
                    None => false,
                }
            },
            None => false,
        }
    }

    /// Binds sandbox `sandbox_id` to session `thread_key` only while the
    /// session still holds `expected_sandbox_id` and execution
    /// `execution_id` of that session is active with `stdout_owner_id`
    /// holding its live stdout lease; otherwise nothing changes (`None`).
    pub fn assign_sandbox_to_active_execution(
        &mut self,
        thread_key: &ThreadKey,
        execution_id: &str,
        stdout_owner_id: &str,
        expected_sandbox_id: Option<&str>,
        sandbox_id: &str,
        content_revision: Option<&str>,
        capabilities: &SandboxCapabilities,
        now: i128,
    ) -> (r: Result<Option<Session>, SessionStoreError>)
        requires
            old(self)@.wf(),
        ensures
            final(self)@.wf(),
            match old(self)@.session_pos(thread_key@) {
                None => final(self)@ == old(self)@ && (r matches Err(e) && is_not_found(e, thread_key@)),
                Some(si) => {
                    let s = old(self)@.sessions[si].session;
                    if s.sandbox_id == opt_view(expected_sandbox_id) && old(self)@.fence_holds(
                        thread_key@,
                        execution_id@,
                        stdout_owner_id@,
                        now,
                    ) {
                        let t = with_sandbox(
                            s,
                            sandbox_id@,
                            opt_view(content_revision),
                            *capabilities,
                            now,
                        );
                        final(self)@ == old(self)@.with_session(si, t) && (r matches Ok(Some(x))
                            && x@ == t)
                    } else {
                        final(self)@ == old(self)@ && (r matches Ok(x) && x is None)
                    }
                },
            },
    {
        let si = match self.find_session(thread_key.as_str()) {
            Some(si) => si,
            None => {
                return Err(
                    SessionStoreError::NotFound { thread_key: thread_key.as_str().to_owned() },
                );
            },
        };
        if !opt_text_eq(opt_as_str(&self.sessions[si].session.sandbox_id), expected_sandbox_id) {
            return Ok(None);
        }
        if !self.fence_check(thread_key, execution_id, stdout_owner_id, now) {
            return Ok(None);
        }
        let mut s = self.sessions[si].session.duplicate();
        s.sandbox_id = Some(sandbox_id.to_owned());
        s.sandbox_content_revision = opt_to_owned(content_revision);
        s.sandbox_capabilities = Some(*capabilities);
        s.sandbox_last_active_at = Some(now);
        s.updated_at = now;
        let out = s.duplicate();
        self.put_session(si, s);
        Ok(Some(out))
    }

    /// Clears sandbox `expected_sandbox_id` from session `thread_key` only
    /// while the session still holds it and execution `execution_id` of that
    /// session is active with `stdout_owner_id` holding its live stdout
    /// lease; otherwise nothing changes (`None`).
    pub fn clear_sandbox_from_active_execution(
        &mut self,
        thread_key: &ThreadKey,
        execution_id: &str,
        stdout_owner_id: &str,
        expected_sandbox_id: &str,
        now: i128,
    ) -> (r: Result<Option<Session>, SessionStoreError>)
        requires
            old(self)@.wf(),
        ensures
            final(self)@.wf(),
            match old(self)@.session_pos(thread_key@) {
                None => final(self)@ == old(self)@ && (r matches Err(e) && is_not_found(e, thread_key@)),
                Some(si) => {
                    let s = old(self)@.sessions[si].session;
                    if s.sandbox_id == Some(expected_sandbox_id@) && old(self)@.fence_holds(
                        thread_key@,
                        execution_id@,
                        stdout_owner_id@,
                        now,
                    ) {
                        final(self)@ == old(self)@.with_session(si, without_sandbox(s, now)) && (r matches Ok(
                            Some(x),
                        ) && x@ == without_sandbox(s, now))
                    } else {
                        final(self)@ == old(self)@ && (r matches Ok(x) && x is None)
                    }
                },
            },
    {
        let si = match self.find_session(thread_key.as_str()) {
            Some(si) => si,
            None => {
                return Err(
                    SessionStoreError::NotFound { thread_key: thread_key.as_str().to_owned() },
                );
            },
        };
        if !opt_text_eq(opt_as_str(&self.sessions[si].session.sandbox_id), Some(expected_sandbox_id)) {
            return Ok(None);
        }
        if !self.fence_check(thread_key, execution_id, stdout_owner_id, now) {
            return Ok(None);
        }
        let mut s = self.sessions[si].session.duplicate();
        s.sandbox_id = None;
        s.sandbox_content_revision = None;
        s.sandbox_capabilities = None;
        s.sandbox_last_active_at = None;
        s.updated_at = now;
        let out = s.duplicate();
        self.put_session(si, s);
        Ok(Some(out))
    }
}

} // verus!

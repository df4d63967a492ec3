//! The durable event log: appends, idempotent delivery receipts, appends
//! fenced by the stdout lease, and reads after a cursor.
use vstd::prelude::*;

use serde_json::Value;

use super::{ExecutionRecord, SessionStore, StoreV};
use crate::error::{DatabaseFailure, SessionStoreError};
use crate::lease::{lease_deadline, valid_deadline};
use crate::records::{EventV, RecordExecutionDeliveryResult, SessionEvent};
use crate::store::executions::{held_by, leased};
use crate::types::{opt_as_str, opt_text_eq, opt_to_owned, opt_view, text_eq, ThreadKey};

verus! {

/// `e` reports that the event id sequence is used up.
pub open spec fn is_exhausted(e: SessionStoreError) -> bool {
    e matches SessionStoreError::Sqlx(DatabaseFailure::SequenceExhausted)
}

/// The event the next append writes.
pub open spec fn next_event_v(
    s: StoreV,
    key: Seq<char>,
    execution_id: Option<Seq<char>>,
    event_type: Seq<char>,
    payload: Value,
    now: i128,
) -> EventV {
    EventV {
        event_id: (s.last_event_id + 1) as i64,
        thread_key: key,
        execution_id,
        event_type,
        payload,
        created_at: now,
    }
}

impl StoreV {
    /// The store with event `e` appended and its id taken.
    pub open spec fn with_event(self, e: EventV) -> StoreV {
        StoreV { events: self.events.push(e), last_event_id: e.event_id, ..self }
    }

    /// The store after an insert that took an event id and then failed.
    pub open spec fn with_id_taken(self) -> StoreV {
        StoreV { last_event_id: (self.last_event_id + 1) as i64, ..self }
    }

    /// The position of the first logged event of execution `id` with type
    /// `event_type`.
    pub open spec fn first_event_pos(self, id: Seq<char>, event_type: Seq<char>) -> Option<int> {
        if exists|i: int|
            0 <= i < self.events.len() && self.events[i].execution_id == Some(id)
                && self.events[i].event_type == event_type {
            Some(
                choose|i: int|
                    0 <= i < self.events.len() && self.events[i].execution_id == Some(id)
                        && self.events[i].event_type == event_type && forall|j: int|
                        0 <= j < i ==> !(self.events[j].execution_id == Some(id)
                            && self.events[j].event_type == event_type),
            )
        } else {
            None
        }
    }

    /// Execution `id` exists and belongs to thread `key`.
    pub open spec fn exec_of_thread(self, id: Seq<char>, key: Seq<char>) -> bool {
        self.exec_pos(id) matches Some(i) && self.executions[i].execution.thread_key == key
    }
}

/// What a delivery receipt's statements have found so far: whether the
/// session exists, whether the execution is one of its own, and whether a
/// receipt of that type is already logged for it.
#[derive(Clone, Copy, Debug, PartialEq, Eq, Structural)]
pub enum DeliveryFinding {
    Session(bool),
    Execution(bool),
    Receipt(bool),
}

/// What a delivery receipt does next.
#[derive(Clone, Copy, Debug, PartialEq, Eq, Structural)]
pub enum DeliveryAction {
    /// Lock the execution and check that it belongs to the session.
    LockExecution,
    /// Look for the first receipt of the type already logged.
    FindReceipt,
    /// Log the receipt.
    InsertReceipt,
    /// Return the receipt already logged, unchanged.
    ReturnReceipt,
    /// Record nothing and return `None`.
    ReturnNothing,
}

/// The next step of a delivery receipt after `found`.
pub open spec fn spec_delivery_next(found: DeliveryFinding) -> DeliveryAction {
    match found {
        DeliveryFinding::Session(true) => DeliveryAction::LockExecution,
        DeliveryFinding::Execution(true) => DeliveryAction::FindReceipt,
        DeliveryFinding::Receipt(true) => DeliveryAction::ReturnReceipt,
        DeliveryFinding::Receipt(false) => DeliveryAction::InsertReceipt,
        _ => DeliveryAction::ReturnNothing,
    }
}

/// The last step a delivery receipt takes on a store where the session
/// exists or not (`session`), the execution is its own or not
/// (`execution`), and a receipt is logged or not (`receipt`).
pub open spec fn delivery_final_action(session: bool, execution: bool, receipt: bool) -> DeliveryAction {
    let a = spec_delivery_next(DeliveryFinding::Session(session));
    if a != DeliveryAction::LockExecution {
        a
    } else {
        let b = spec_delivery_next(DeliveryFinding::Execution(execution));
        if b != DeliveryAction::FindReceipt {
            b
        } else {
            spec_delivery_next(DeliveryFinding::Receipt(receipt))
        }
    }
}

/// Decides the next step of a delivery receipt.
pub fn delivery_next(found: DeliveryFinding) -> (r: DeliveryAction)
    ensures
        r == spec_delivery_next(found),
{
    match found {
        DeliveryFinding::Session(true) => DeliveryAction::LockExecution,
        DeliveryFinding::Execution(true) => DeliveryAction::FindReceipt,
        DeliveryFinding::Receipt(true) => DeliveryAction::ReturnReceipt,
        DeliveryFinding::Receipt(false) => DeliveryAction::InsertReceipt,
        _ => DeliveryAction::ReturnNothing,
    }
}

/// What an owner-fenced append's statements have found so far: whether the
/// session exists, and how many executions the conditional lease renewal
/// changed.
#[derive(Clone, Copy, Debug, PartialEq, Eq, Structural)]
pub enum FencedAppendFinding {
    Session(bool),
    Renewed(u64),
}

/// What an owner-fenced append does next.
#[derive(Clone, Copy, Debug, PartialEq, Eq, Structural)]
pub enum FencedAppendAction {
    /// Renew the lease where the caller still holds it on an active
    /// execution of the session.
    RenewLease,
    /// Append the event.
    InsertEvent,
    /// Append nothing and return `None`.
    ReturnNothing,
}

/// The next step of an owner-fenced append after `found`.
pub open spec fn spec_fenced_append_next(found: FencedAppendFinding) -> FencedAppendAction {
    match found {
        FencedAppendFinding::Session(true) => FencedAppendAction::RenewLease,
        FencedAppendFinding::Renewed(n) => if n > 0 {
            FencedAppendAction::InsertEvent
        } else {
            FencedAppendAction::ReturnNothing
        },
        _ => FencedAppendAction::ReturnNothing,
    }
}

/// Decides the next step of an owner-fenced append.
pub fn fenced_append_next(found: FencedAppendFinding) -> (r: FencedAppendAction)
    ensures
        r == spec_fenced_append_next(found),
{
    match found {
        FencedAppendFinding::Session(true) => FencedAppendAction::RenewLease,
        FencedAppendFinding::Renewed(n) => if n > 0 {
            FencedAppendAction::InsertEvent
        } else {
            FencedAppendAction::ReturnNothing
        },
        _ => FencedAppendAction::ReturnNothing,
    }
}

/// Events of thread `key` after `after`, of execution `only` when given.
pub open spec fn events_after_pred(key: Seq<char>, after: i64, only: Option<Seq<char>>) -> spec_fn(
    EventV,
) -> bool {
    |e: EventV|
        e.thread_key == key && e.event_id > after && (only is None || e.execution_id == only)
}

impl SessionStore {
    /// Appends an event with the next id.
    fn push_event(&mut self, e: SessionEvent)
        requires
            old(self)@.wf(),
            old(self)@.last_event_id < i64::MAX,
            e.event_id == old(self)@.last_event_id + 1,
        ensures
            final(self)@ == old(self)@.with_event(e@),
            final(self)@.wf(),
    {
        let ghost before = self@;
        self.last_event_id = e.event_id;
        self.events.push(e);
        assert(self@.events =~= before.with_event(e@).events);
    }

    /// Inserts an event of thread `thread_key`. The id is taken before the
    /// insert runs, so an insert that fails still uses one up.
    fn insert_event(
        &mut self,
        thread_key: &ThreadKey,
        execution_id: Option<&str>,
        event_type: &str,
        payload: Value,
        now: i128,
    ) -> (r: Result<SessionEvent, SessionStoreError>)
        requires
            old(self)@.wf(),
        ensures
            final(self)@.wf(),
            if old(self)@.last_event_id == i64::MAX {
                final(self)@ == old(self)@ && (r matches Err(e) && is_exhausted(e))
            } else if !old(self)@.has_session(thread_key@) {
                final(self)@ == old(self)@.with_id_taken() && (r matches Err(e) && e matches SessionStoreError::Sqlx(
                    DatabaseFailure::ForeignKeyViolation,
                ))
            } else {
                let ev = next_event_v(
                    old(self)@,
                    thread_key@,
                    opt_view(execution_id),
                    event_type@,
                    payload,
                    now,
                );
                final(self)@ == old(self)@.with_event(ev) && (r matches Ok(x) && x@ == ev)
            },
    {
        if self.last_event_id == i64::MAX {
            return Err(SessionStoreError::Sqlx(DatabaseFailure::SequenceExhausted));
        }
        let id = self.last_event_id + 1;
        if self.find_session(thread_key.as_str()).is_none() {
            self.last_event_id = id;
            return Err(SessionStoreError::Sqlx(DatabaseFailure::ForeignKeyViolation));
        }
        let e = SessionEvent {
            event_id: id,
            thread_key: thread_key.duplicate(),
            execution_id: opt_to_owned(execution_id),
            event_type: event_type.to_owned(),
            payload,
            created_at: now,
        };
        let out = e.duplicate();
        self.push_event(e);
        Ok(out)
    }

    /// Appends an event to the log of session `thread_key`.
    pub fn append_event(
        &mut self,
        thread_key: &ThreadKey,
        execution_id: Option<&str>,
        event_type: &str,
        payload: Value,
        now: i128,
    ) -> (r: Result<SessionEvent, SessionStoreError>)
        requires
            old(self)@.wf(),
        ensures
            final(self)@.wf(),
            if old(self)@.last_event_id == i64::MAX {
                final(self)@ == old(self)@ && (r matches Err(e) && is_exhausted(e))
            } else if !old(self)@.has_session(thread_key@) {
                final(self)@ == old(self)@.with_id_taken() && (r matches Err(e) && e matches SessionStoreError::Sqlx(
                    DatabaseFailure::ForeignKeyViolation,
                ))
            } else {
                let ev = next_event_v(
                    old(self)@,
                    thread_key@,
                    opt_view(execution_id),
                    event_type@,
                    payload,
                    now,
                );
                final(self)@ == old(self)@.with_event(ev) && (r matches Ok(x) && x@ == ev)
            },
    {
        self.insert_event(thread_key, execution_id, event_type, payload, now)
    }

    /// The position of the first logged event of execution `execution_id`
    /// with type `event_type`.
    fn find_first_event(&self, execution_id: &str, event_type: &str) -> (r: Option<usize>)
        requires
            self@.wf(),
        ensures
            match r {
                Some(i) => self@.first_event_pos(execution_id@, event_type@) == Some(i as int)
                    && i < self@.events.len(),
                None => self@.first_event_pos(execution_id@, event_type@) is None,
            },
    {
        let mut i: usize = 0;
        while i < self.events.len()
            invariant
                0 <= i <= self.events.len(),
                self@.events.len() == self.events.len(),
                forall|j: int|
                    0 <= j < i ==> !(self@.events[j].execution_id == Some(execution_id@)
                        && self@.events[j].event_type == event_type@),
            decreases self.events.len() - i,
        {
            let e = &self.events[i];
            if opt_text_eq(opt_as_str(&e.execution_id), Some(execution_id)) && text_eq(
                e.event_type.as_str(),
                event_type,
            ) {
                let ghost v = self@;
                assert(v.events[i as int].execution_id == Some(execution_id@));
                let ghost c = choose|k: int|
                    0 <= k < v.events.len() && v.events[k].execution_id == Some(execution_id@)
                        && v.events[k].event_type == event_type@ && forall|j: int|
                        0 <= j < k ==> !(v.events[j].execution_id == Some(execution_id@)
                            && v.events[j].event_type == event_type@);
                assert(c == i) by {
                    if c < i {
                    } else if c > i {
                        assert(!(v.events[i as int].execution_id == Some(execution_id@)
                            && v.events[i as int].event_type == event_type@));
                    }
                }
                return Some(i);
            }
            i = i + 1;
        }
        None
    }

    /// Records one delivery receipt of type `event_type` for execution
    /// `execution_id` of session `thread_key`. Nothing is recorded (`None`)
    /// unless the session exists and the execution belongs to it. A replay
    /// returns the first receipt already logged, unchanged, with
    /// `created = false`.
    pub fn record_execution_delivery(
        &mut self,
        thread_key: &ThreadKey,
        execution_id: &str,
        event_type: &str,
        payload: Value,
        now: i128,
    ) -> (r: Result<Option<RecordExecutionDeliveryResult>, SessionStoreError>)
        requires
            old(self)@.wf(),
        ensures
            final(self)@.wf(),
            !old(self)@.has_session(thread_key@) || !old(self)@.exec_of_thread(
                execution_id@,
                thread_key@,
            ) ==> final(self)@ == old(self)@ && (r matches Ok(x) && x is None),
            old(self)@.has_session(thread_key@) && old(self)@.exec_of_thread(
                execution_id@,
                thread_key@,
            ) ==> match old(self)@.first_event_pos(execution_id@, event_type@) {
                Some(k) => final(self)@ == old(self)@ && (r matches Ok(Some(x)) && !x.created
                    && x.event@ == old(self)@.events[k]),
                None => if old(self)@.last_event_id == i64::MAX {
                    final(self)@ == old(self)@ && (r matches Err(e) && is_exhausted(e))
                } else {
                    let ev = next_event_v(
                        old(self)@,
                        thread_key@,
                        Some(execution_id@),
                        event_type@,
                        payload,
                        now,
                    );
                    final(self)@ == old(self)@.with_event(ev) && (r matches Ok(Some(x))
                        && x.created && x.event@ == ev)
                },
            },
    {
        if self.find_session(thread_key.as_str()).is_none() {
            return Ok(None);
        }
        match self.find_exec(execution_id) {
            Some(i) => {
                if !text_eq(self.executions[i].execution.thread_key.as_str(), thread_key.as_str()) {
                    return Ok(None);
                }
            },
            None => return Ok(None),
        }
        if let Some(k) = self.find_first_event(execution_id, event_type) {
            return Ok(
                Some(RecordExecutionDeliveryResult { event: self.events[k].duplicate(), created: false }),
            );
        }
        match self.insert_event(thread_key, Some(execution_id), event_type, payload, now) {
            Ok(event) => Ok(Some(RecordExecutionDeliveryResult { event, created: true })),
            Err(e) => Err(e),
        }
    }

    /// Appends an event of execution `execution_id` only while `owner_id`
    /// holds its stdout lease and it is an active execution of session
    /// `thread_key`; the append renews the lease to `now + lease`. Any other
    /// caller is fenced out with `None` and nothing changes.
    pub fn append_event_if_stdout_owner(
        &mut self,
        thread_key: &ThreadKey,
        execution_id: &str,
        owner_id: &str,
        lease: u128,
        event_type: &str,
        payload: Value,
        now: i128,
    ) -> (r: Result<Option<SessionEvent>, SessionStoreError>)
        requires
            old(self)@.wf(),
            valid_deadline(now, lease),
        ensures
            final(self)@.wf(),
            !(old(self)@.has_session(thread_key@) && old(self)@.exec_of_thread(
                execution_id@,
                thread_key@,
            ) && held_by(old(self)@.exec(execution_id@), owner_id@)) ==> final(self)@ == old(
                self,
            )@ && (r matches Ok(x) && x is None),
            old(self)@.has_session(thread_key@) && old(self)@.exec_of_thread(
                execution_id@,
                thread_key@,
            ) && held_by(old(self)@.exec(execution_id@), owner_id@) ==> if old(self)@.last_event_id
                == i64::MAX {
                final(self)@ == old(self)@ && (r matches Err(e) && is_exhausted(e))
            } else {
                let i = old(self)@.exec_pos(execution_id@)->0;
                let ev = next_event_v(
                    old(self)@,
                    thread_key@,
                    Some(execution_id@),
                    event_type@,
                    payload,
                    now,
                );
                &&& final(self)@ == old(self)@.with_exec(
                    i,
                    leased(old(self)@.executions[i], owner_id@, (now + lease) as i128, now),
                ).with_event(ev)
                &&& r matches Ok(Some(x)) && x@ == ev
            },
    {
        let deadline = lease_deadline(now, lease);
        if self.find_session(thread_key.as_str()).is_none() {
            return Ok(None);
        }
        let i = match self.find_exec(execution_id) {
            Some(i) => i,
            None => return Ok(None),
        };
        let rec = &self.executions[i];
        if !(text_eq(rec.execution.thread_key.as_str(), thread_key.as_str())
            && rec.execution.status.is_active() && opt_text_eq(
            opt_as_str(&rec.stdout_owner_id),
            Some(owner_id),
        )) {
            return Ok(None);
        }
        if self.last_event_id == i64::MAX {
            return Err(SessionStoreError::Sqlx(DatabaseFailure::SequenceExhausted));
        }
        let mut rec: ExecutionRecord = self.executions[i].duplicate();
        rec.stdout_owner_lease_expires_at = Some(deadline);
        rec.execution.updated_at = now;
        self.put_exec(i, rec);
        let e = SessionEvent {
            event_id: self.last_event_id + 1,
            thread_key: thread_key.duplicate(),
            execution_id: Some(execution_id.to_owned()),
            event_type: event_type.to_owned(),
            payload,
            created_at: now,
        };
        let out = e.duplicate();
        self.push_event(e);
        Ok(Some(out))
    }

    /// The events of session `thread_key` with ids above `after_event_id`,
    /// of execution `execution_id` when given, in id order, at most `limit`
    /// of them. A negative limit is refused, as the database refuses it.
    pub fn list_events_after(
        &self,
        thread_key: &ThreadKey,
        after_event_id: i64,
        execution_id: Option<&str>,
        limit: i64,
    ) -> (r: Result<Vec<SessionEvent>, SessionStoreError>)
        requires
            self@.wf(),
        ensures
            limit < 0 ==> r is Err,
            limit >= 0 ==> (r matches Ok(v) && {
                let all = self@.events.filter(
                    events_after_pred(thread_key@, after_event_id, opt_view(execution_id)),
                );
                &&& v.len() == if all.len() < limit {
                    all.len() as int
                } else {
                    limit as int
                }
                &&& forall|k: int| 0 <= k < v.len() ==> v[k]@ == #[trigger] all[k]
            }),
    {
        if limit < 0 {
            return Err(
                SessionStoreError::Sqlx(
                    DatabaseFailure::Other("LIMIT must not be negative".to_owned()),
                ),
            );
        }
        let ghost pred = events_after_pred(thread_key@, after_event_id, opt_view(execution_id));
        let mut out: Vec<SessionEvent> = Vec::new();
        let mut i: usize = 0;
        while i < self.events.len() && (out.len() as i64) < limit
            invariant
                0 <= i <= self.events.len(),
                self@.events.len() == self.events.len(),
                limit >= 0,
                pred == events_after_pred(thread_key@, after_event_id, opt_view(execution_id)),
                out.len() <= limit,
                out.len() < limit ==> out.len() == self@.events.subrange(0, i as int).filter(pred).len(),
                out.len() <= self@.events.subrange(0, i as int).filter(pred).len(),
                forall|k: int|
                    0 <= k < out.len() ==> out[k]@ == #[trigger] self@.events.subrange(
                        0,
                        i as int,
                    ).filter(pred)[k],
            decreases self.events.len() - i,
        {
            let ghost pre = self@.events.subrange(0, i as int);
            let ghost e = self@.events[i as int];
            assert(self@.events.subrange(0, i + 1) =~= pre.push(e));
            proof {
                pre.lemma_filter_push(e, pred);
            }
            let ev = &self.events[i];
            let keep = text_eq(ev.thread_key.as_str(), thread_key.as_str())
                && ev.event_id > after_event_id && (execution_id.is_none() || opt_text_eq(
                opt_as_str(&ev.execution_id),
                execution_id,
            ));
            if keep {
                out.push(ev.duplicate());
            }
            i = i + 1;
        }
        proof {
            let all = self@.events.filter(pred);
            if out.len() < limit {
                assert(i == self.events.len());
                assert(self@.events.subrange(0, i as int) =~= self@.events);
            } else {
                assert forall|k: int| 0 <= k < out.len() implies out[k]@ == #[trigger] all[k] by {
                    let pre = self@.events.subrange(0, i as int);
                    assert(self@.events =~= pre + self@.events.subrange(i as int, self@.events.len() as int));
                    Seq::filter_distributes_over_add(
                        pre,
                        self@.events.subrange(i as int, self@.events.len() as int),
                        pred,
                    );
                }
                let pre = self@.events.subrange(0, i as int);
                assert(self@.events =~= pre + self@.events.subrange(i as int, self@.events.len() as int));
                Seq::filter_distributes_over_add(
                    pre,
                    self@.events.subrange(i as int, self@.events.len() as int),
                    pred,
                );
            }
        }
        Ok(out)
    }

    /// True when an event of execution `execution_id` with type
    /// `event_type` is logged.
    pub fn execution_event_exists(&self, execution_id: &str, event_type: &str) -> (r: bool)
        requires
            self@.wf(),
        ensures
            r == (self@.first_event_pos(execution_id@, event_type@) is Some),
    {
        self.find_first_event(execution_id, event_type).is_some()
    }
}

} // verus!

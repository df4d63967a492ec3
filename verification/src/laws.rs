//! What holds of the store across operations: the stdout lease fences
//! stale writers, terminal executions take no more sandbox changes, replays
//! of idempotent requests return the first answer, event ids only grow, and
//! a bound session answers its own principal and no other.
use vstd::prelude::*;

use crate::config::{has_control_key, is_first_repeat, repeats_earlier, separation_verdict};
use crate::idle::{spec_effective_idle_timeout, spec_idle_deadline_elapsed, NANOS_PER_MILLI};
use crate::store::fences::{spec_release_plan, ReleasePlan};
use crate::lease::valid_deadline;
use crate::error::SessionStoreError;
use crate::records::{EventV, ExecutionV, MessageV, Session, SessionMessageInput};
use crate::store::events::{
    delivery_final_action, events_after_pred, next_event_v, spec_fenced_append_next, DeliveryAction,
    FencedAppendAction, FencedAppendFinding,
};
use crate::store::executions::{
    expired_owner_claimable, finished, held_by, held_live_by, leased, new_execution_v,
    owner_claimable, owned_pred, released_if_held,
};
use crate::store::messages::{added_message, batch_added, is_repeat};
use crate::store::sessions::{new_session_v, principal_binding_outcome};
use crate::store::{ExecRecV, SessionRecV, StoreV, WarmStatus, WarmV};
use crate::order::{distinct_by, distinct_texts, in_key_order, lemma_filter_distinct_by, lemma_key_order_unique};
use crate::store::executions::{active_pred, exec_keys};
use crate::store::messages::{msg_keys, of_thread};
use crate::store::sweeps::{idle_keys, owned_by_run_pred, owned_keys};
use crate::store::warm::{created_keys, ready, stale_evicting, touched_keys};
use crate::types::{ExecutionStatus, HarnessType, SandboxCapabilities, SessionStatus};
use crate::records::spec_decode_capabilities;
use crate::store::fences::spec_execution_fence;
use crate::checks::turn_event_kind;

use serde_json::Value;

verus! {

/// Replacing execution `i` by a record with the same id leaves every id at
/// the position it had.
proof fn lemma_exec_pos_kept(s: StoreV, i: int, e: ExecRecV, id: Seq<char>)
    requires
        s.wf(),
        0 <= i < s.executions.len(),
        e.execution.execution_id == s.executions[i].execution.execution_id,
    ensures
        s.with_exec(i, e).exec_pos(id) == s.exec_pos(id),
{
    let s2 = s.with_exec(i, e);
    assert forall|k: int| 0 <= k < s.executions.len() implies (
    #[trigger] s2.executions[k]).execution.execution_id == s.executions[k].execution.execution_id by {
    }
    if s.exec_pos(id) is Some {
        let p = s.exec_pos(id)->0;
        assert(s2.executions[p].execution.execution_id == id);
        let q = s2.exec_pos(id)->0;
        assert(s.executions[q].execution.execution_id == id);
    } else {
        if s2.exec_pos(id) is Some {
            let q = s2.exec_pos(id)->0;
            assert(s.executions[q].execution.execution_id == id);
        }
    }
}

/// Setting a session's status leaves the executions as they were.
proof fn lemma_status_keeps_executions(s: StoreV, key: Seq<char>, status: SessionStatus, now: i128)
    ensures
        s.with_session_status(key, status, now).executions == s.executions,
{
}

/// Once another owner has taken over an execution's stdout lease, the
/// previous owner holds it no more: its appends, renewals and owner-fenced
/// terminal writes are refused, and the new owner holds it while the
/// execution is active.
pub proof fn law_takeover_fences_previous_owner(
    s: StoreV,
    id: Seq<char>,
    previous: Seq<char>,
    next: Seq<char>,
    lease: u128,
    now: i128,
)
    requires
        s.wf(),
        s.exec_pos(id) is Some,
        previous != next,
        valid_deadline(now, lease),
    ensures
        ({
            let i = s.exec_pos(id)->0;
            let after = s.with_exec(
                i,
                leased(s.executions[i], next, (now + lease) as i128, now),
            );
            &&& !held_by(after.exec(id), previous)
            &&& held_by(after.exec(id), next) == s.executions[i].execution.status.spec_is_active()
        }),
{
    let i = s.exec_pos(id)->0;
    lemma_exec_pos_kept(s, i, leased(s.executions[i], next, (now + lease) as i128, now), id);
}

/// A lease that has not expired cannot be taken by another owner.
pub proof fn law_live_lease_blocks_takeover(e: ExecRecV, owner: Seq<char>, now: i128)
    requires
        held_live_by(e, owner, now),
    ensures
        !expired_owner_claimable(e, now),
{
}

/// Once an execution has reached a terminal status, no owner holds its
/// stdout lease any more, so no fenced write, and no sandbox assignment or
/// clearing, is accepted for it again.
pub proof fn law_terminal_execution_is_fenced(
    s: StoreV,
    id: Seq<char>,
    status: ExecutionStatus,
    error: Option<Seq<char>>,
    clear_owner: bool,
    session_status: SessionStatus,
    now: i128,
    key: Seq<char>,
    owner: Seq<char>,
    later: i128,
)
    requires
        s.wf(),
        s.exec_pos(id) is Some,
        !status.spec_is_active(),
    ensures
        ({
            let after = s.finish_at(
                s.exec_pos(id)->0,
                status,
                error,
                clear_owner,
                session_status,
                now,
            );
            &&& !held_by(after.exec(id), owner)
            &&& !after.fence_holds(key, id, owner, later)
        }),
{
    let i = s.exec_pos(id)->0;
    let f = finished(s.executions[i], status, error, clear_owner, now);
    lemma_exec_pos_kept(s, i, f, id);
    lemma_status_keeps_executions(
        s.with_exec(i, f),
        s.executions[i].execution.thread_key,
        session_status,
        now,
    );
}

/// After an owner releases all its leases, it holds none.
pub proof fn law_release_all_leaves_none_owned(s: StoreV, owner: Seq<char>, now: i128)
    ensures
        s.executions.map_values(|e: ExecRecV| released_if_held(e, owner, now)).filter(
            owned_pred(owner),
        ).len() == 0,
{
    let m = s.executions.map_values(|e: ExecRecV| released_if_held(e, owner, now));
    let f = m.filter(owned_pred(owner));
    if f.len() > 0 {
        m.lemma_filter_pred(owned_pred(owner), 0);
        assert(f.contains(f[0]));
        m.lemma_filter_contains_rev(owned_pred(owner), f[0]);
        let k = choose|k: int| 0 <= k < m.len() && m[k] == f[0];
        assert(!held_by(m[k], owner));
    }
}

/// Recording a delivery again finds the receipt the first recording wrote,
/// so the replay answers with that event and writes nothing.
pub proof fn law_delivery_replay_finds_receipt(
    s: StoreV,
    key: Seq<char>,
    id: Seq<char>,
    event_type: Seq<char>,
    payload: Value,
    now: i128,
)
    requires
        s.wf(),
        s.has_session(key),
        s.exec_of_thread(id, key),
        s.first_event_pos(id, event_type) is None,
        s.last_event_id < i64::MAX,
    ensures
        ({
            let ev = next_event_v(s, key, Some(id), event_type, payload, now);
            let after = s.with_event(ev);
            &&& after.has_session(key)
            &&& after.exec_of_thread(id, key)
            &&& after.first_event_pos(id, event_type) == Some(s.events.len() as int)
            &&& after.events[s.events.len() as int] == ev
        }),
{
    let ev = next_event_v(s, key, Some(id), event_type, payload, now);
    let after = s.with_event(ev);
    let n = s.events.len() as int;
    assert(after.sessions == s.sessions);
    assert(after.executions == s.executions);
    assert(after.events[n].execution_id == Some(id) && after.events[n].event_type == event_type);
    assert forall|j: int| 0 <= j < n implies !(after.events[j].execution_id == Some(id)
        && after.events[j].event_type == event_type) by {
        assert(after.events[j] == s.events[j]);
    }
    let p = after.first_event_pos(id, event_type)->0;
    if p < n {
        assert(after.events[p] == s.events[p]);
    }
}

/// Each appended event takes the next id, above every id already logged,
/// and becomes the last id handed out.
pub proof fn law_event_ids_increase(
    s: StoreV,
    key: Seq<char>,
    execution_id: Option<Seq<char>>,
    event_type: Seq<char>,
    payload: Value,
    now: i128,
)
    requires
        s.wf(),
        s.last_event_id < i64::MAX,
    ensures
        ({
            let ev = next_event_v(s, key, execution_id, event_type, payload, now);
            &&& ev.event_id == s.last_event_id + 1
            &&& forall|k: int| 0 <= k < s.events.len() ==> (#[trigger] s.events[k]).event_id < ev.event_id
            &&& s.with_event(ev).last_event_id == ev.event_id
        }),
{
}

/// Creating an execution again with the same idempotency key finds the
/// execution the first create made.
pub proof fn law_idempotent_create_replays(
    s: StoreV,
    id: Seq<char>,
    key: Seq<char>,
    idempotency_key: Seq<char>,
    metadata: Value,
    now: i128,
)
    requires
        s.wf(),
        s.idempotent_pos(key, idempotency_key) is None,
    ensures
        ({
            let e = new_execution_v(id, key, Some(idempotency_key), metadata, now);
            let after = s.with_new_exec(e);
            &&& after.idempotent_pos(key, idempotency_key) == Some(s.executions.len() as int)
            &&& after.executions[s.executions.len() as int].execution == e.execution
        }),
{
    let e = new_execution_v(id, key, Some(idempotency_key), metadata, now);
    let after = s.with_new_exec(e);
    let n = s.executions.len() as int;
    assert(after.executions[n] == e);
    let p = after.idempotent_pos(key, idempotency_key)->0;
    if p < n {
        assert(after.executions[p] == s.executions[p]);
    }
}

/// The queued-to-running claim succeeds once: afterwards the execution is
/// running, so a second claim finds it no longer queued.
pub proof fn law_running_claim_happens_once(s: StoreV, id: Seq<char>, now: i128)
    requires
        s.wf(),
        s.exec_pos(id) is Some,
    ensures
        ({
            let i = s.exec_pos(id)->0;
            let e = s.executions[i];
            let x = ExecutionV {
                status: ExecutionStatus::Running,
                started_at: if e.execution.started_at is Some {
                    e.execution.started_at
                } else {
                    Some(now)
                },
                updated_at: now,
                ..e.execution
            };
            let after = s.with_exec(i, ExecRecV { execution: x, ..e }).with_session_status(
                e.execution.thread_key,
                SessionStatus::Executing,
                now,
            );
            &&& after.exec_pos(id) == Some(i)
            &&& after.exec(id).execution.status != ExecutionStatus::Queued
        }),
{
    let i = s.exec_pos(id)->0;
    let e = s.executions[i];
    let x = ExecutionV {
        status: ExecutionStatus::Running,
        started_at: if e.execution.started_at is Some {
            e.execution.started_at
        } else {
            Some(now)
        },
        updated_at: now,
        ..e.execution
    };
    lemma_exec_pos_kept(s, i, ExecRecV { execution: x, ..e }, id);
    lemma_status_keeps_executions(
        s.with_exec(i, ExecRecV { execution: x, ..e }),
        e.execution.thread_key,
        SessionStatus::Executing,
        now,
    );
}

/// A session created for a principal answers a repeated request of that
/// principal with itself, and refuses every other principal.
pub proof fn law_bound_session_answers_its_principal(
    key: Seq<char>,
    harness_type: HarnessType,
    persona_id: Option<Seq<char>>,
    principal: Seq<char>,
    other: Seq<char>,
    now: i128,
    r: Result<Session, SessionStoreError>,
)
    requires
        other != principal,
    ensures
        ({
            let s = new_session_v(key, harness_type, persona_id, Some(principal), now);
            &&& principal_binding_outcome(r, s, harness_type, persona_id, principal) <==> (r matches Ok(
                x,
            ) && x@ == s)
            &&& principal_binding_outcome(r, s, harness_type, persona_id, other) ==> r is Err
        }),
{
}

/// The service credentials are accepted exactly when the control credential
/// is configured and no two kept credentials share a value.
pub proof fn law_credentials_accepted_iff_distinct(k: Seq<(Seq<char>, Seq<char>)>)
    ensures
        separation_verdict(k) is Ok <==> (has_control_key(k) && forall|i: int, j: int|
            0 <= i < j < k.len() ==> (#[trigger] k[i]).1 != (#[trigger] k[j]).1),
{
    if has_control_key(k) && !(forall|i: int, j: int|
        0 <= i < j < k.len() ==> (#[trigger] k[i]).1 != (#[trigger] k[j]).1) {
        let (i, j) = choose|i: int, j: int| 0 <= i < j < k.len() && k[i].1 == k[j].1;
        lemma_some_first_repeat(k, j);
        assert(repeats_earlier(k, j));
    }
    if has_control_key(k) && (forall|i: int, j: int|
        0 <= i < j < k.len() ==> (#[trigger] k[i]).1 != (#[trigger] k[j]).1) {
        assert forall|j: int| !is_first_repeat(k, j) by {
            if is_first_repeat(k, j) {
                let i = choose|i: int| 0 <= i < j && (#[trigger] k[i]).1 == k[j].1;
                assert(k[i].1 == k[j].1);
            }
        }
    }
}

/// Where some credential repeats an earlier one, a first one does.
proof fn lemma_some_first_repeat(k: Seq<(Seq<char>, Seq<char>)>, j: int)
    requires
        0 <= j < k.len(),
        repeats_earlier(k, j),
    ensures
        exists|m: int| is_first_repeat(k, m),
    decreases j,
{
    if forall|m: int| 0 <= m < j ==> !#[trigger] repeats_earlier(k, m) {
        assert(is_first_repeat(k, j));
    } else {
        let m = choose|m: int| 0 <= m < j && #[trigger] repeats_earlier(k, m);
        lemma_some_first_repeat(k, m);
    }
}

/// A warm sandbox that has been claimed, reserved for eviction or failed is
/// out of the ready pool: no later claim or reservation picks it.
pub proof fn law_taken_sandbox_leaves_pool(
    s: StoreV,
    i: int,
    taken: WarmV,
    workload: Option<Seq<char>>,
)
    requires
        0 <= i < s.warm.len(),
        taken.status != WarmStatus::Ready,
    ensures
        !s.with_warm(i, taken).is_oldest_ready(i, workload),
{
}

/// A lease released by its owner's release-all can be claimed at once by
/// any peer, without waiting for it to expire.
pub proof fn law_released_lease_is_claimable_at_once(
    e: ExecRecV,
    owner: Seq<char>,
    peer: Seq<char>,
    now: i128,
    later: i128,
)
    requires
        held_by(e, owner),
    ensures
        owner_claimable(released_if_held(e, owner, now), peer, later),
        expired_owner_claimable(released_if_held(e, owner, now), later),
{
}

/// A release-all touches only the leases of the owner named: another
/// owner's lease, and every terminal execution, stay as they were.
pub proof fn law_release_all_is_scoped_to_its_owner(e: ExecRecV, owner: Seq<char>, now: i128)
    requires
        e.stdout_owner_id != Some(owner) || !e.execution.status.spec_is_active(),
    ensures
        released_if_held(e, owner, now) == e,
{
}

/// A release that saw another sandbox than the session holds now is
/// refused, whatever else it asks: an old release cannot clear a sandbox
/// assigned since.
pub proof fn law_stale_release_keeps_the_new_sandbox(
    current: Option<Seq<char>>,
    expected: Option<Seq<char>>,
    has_active: bool,
    cancel_inflight: bool,
)
    requires
        current != expected,
    ensures
        spec_release_plan(current, expected, has_active, cancel_inflight)
            == ReleasePlan::SandboxMismatch,
{
}

/// An execution's own positive idle timeout wins over the backstop, and
/// no timeout is shorter than a millisecond.
pub proof fn law_persisted_idle_timeout_wins(ms: u64, idle_backstop: u128)
    requires
        ms > 0,
    ensures
        spec_effective_idle_timeout(Some(ms), idle_backstop) == ms * NANOS_PER_MILLI,
        spec_effective_idle_timeout(None, idle_backstop) >= NANOS_PER_MILLI,
        spec_effective_idle_timeout(Some(0), idle_backstop) == spec_effective_idle_timeout(
            None,
            idle_backstop,
        ),
{
}

/// Once a sandbox's idle deadline has passed it stays passed, and a longer
/// timeout never passes before a shorter one.
pub proof fn law_idle_deadline_is_monotone(
    completed_at: i128,
    idle_timeout: u128,
    shorter: u128,
    now: i128,
    later: i128,
)
    requires
        now <= later,
        shorter <= idle_timeout,
        spec_idle_deadline_elapsed(completed_at, idle_timeout, now),
    ensures
        spec_idle_deadline_elapsed(completed_at, idle_timeout, later),
        spec_idle_deadline_elapsed(completed_at, shorter, now),
{
}

/// Appending a message again under a client message id its thread already
/// holds adds nothing, and the id of the held message is returned for it;
/// a message without a client message id is always added.
pub proof fn law_client_message_replay_adds_nothing(
    stored: Seq<MessageV>,
    key: Seq<char>,
    input: SessionMessageInput,
    ids: Seq<String>,
    now: i128,
)
    requires
        ids.len() == 1,
    ensures
        is_repeat(stored, key, input) ==> batch_added(stored, key, seq![input], ids, now, 1)
            == Seq::<MessageV>::empty(),
        input.client_message_id is None ==> batch_added(stored, key, seq![input], ids, now, 1)
            == seq![added_message(input, ids[0]@, key, now)],
{
    assert(stored + Seq::<MessageV>::empty() =~= stored);
    assert(batch_added(stored, key, seq![input], ids, now, 0) == Seq::<MessageV>::empty());
    assert(seq![input][0] == input);
}

/// Keeping some events of a log whose ids rise keeps the ids rising.
proof fn lemma_filter_keeps_ids_rising(s: Seq<EventV>, p: spec_fn(EventV) -> bool)
    requires
        forall|i: int, j: int| 0 <= i < j < s.len() ==> s[i].event_id < s[j].event_id,
    ensures
        forall|a: int, b: int|
            0 <= a < b < s.filter(p).len() ==> s.filter(p)[a].event_id < s.filter(p)[b].event_id,
    decreases s.len(),
{
    if s.len() > 0 {
        let d = s.drop_last();
        let x = s.last();
        lemma_filter_keeps_ids_rising(d, p);
        assert(s =~= d.push(x));
        d.lemma_filter_push(x, p);
        if p(x) {
            let f = d.filter(p);
            assert forall|a: int, b: int| 0 <= a < b < f.push(x).len() implies f.push(x)[a].event_id
                < f.push(x)[b].event_id by {
                if b == f.len() {
                    assert(f.contains(f[a]));
                    d.lemma_filter_contains_rev(p, f[a]);
                    let k = choose|k: int| 0 <= k < d.len() && d[k] == f[a];
                    assert(s[k] == d[k]);
                    assert(s[s.len() - 1] == x);
                } else {
                    assert(f.push(x)[a] == f[a] && f.push(x)[b] == f[b]);
                }
            }
        }
    }
}

/// The events listed after an id are the thread's (and the execution's,
/// when one is named), all later than that id, in rising id order.
pub proof fn law_listed_events_rise_after_the_cursor(
    s: StoreV,
    key: Seq<char>,
    after: i64,
    only: Option<Seq<char>>,
)
    requires
        s.wf(),
    ensures
        ({
            let listed = s.events.filter(events_after_pred(key, after, only));
            &&& forall|k: int|
                0 <= k < listed.len() ==> (#[trigger] listed[k]).thread_key == key
                    && listed[k].event_id > after && (only is Some ==> listed[k].execution_id
                    == only)
            &&& forall|a: int, b: int|
                0 <= a < b < listed.len() ==> listed[a].event_id < listed[b].event_id
        }),
{
    let p = events_after_pred(key, after, only);
    lemma_filter_keeps_ids_rising(s.events, p);
    assert forall|k: int| 0 <= k < s.events.filter(p).len() implies p(
        #[trigger] s.events.filter(p)[k],
    ) by {
        s.events.lemma_filter_pred(p, k);
    }
}

/// The active executions of a well-formed store have a single listing
/// order: any two listings in the order `list_active_executions` promises
/// take them in the same order.
pub proof fn law_active_listing_order_is_unique(s: StoreV, p: Seq<usize>, q: Seq<usize>)
    requires
        s.wf(),
        in_key_order(p, exec_keys(s.executions.filter(active_pred()))),
        in_key_order(q, exec_keys(s.executions.filter(active_pred()))),
    ensures
        p == q,
{
    let text = |e: ExecRecV| e.execution.execution_id;
    assert(distinct_by(s.executions, text));
    lemma_filter_distinct_by(s.executions, active_pred(), text);
    let f = s.executions.filter(active_pred());
    assert(distinct_texts(exec_keys(f))) by {
        assert forall|i: int, j: int|
            0 <= i < exec_keys(f).len() && 0 <= j < exec_keys(f).len() && i != j implies exec_keys(f)[i].1
            != exec_keys(f)[j].1 by {
            assert(text(f[i]) != text(f[j]));
        }
    }
    lemma_key_order_unique(exec_keys(f), p, q);
}

/// The messages of a thread have a single listing order.
pub proof fn law_message_listing_order_is_unique(s: StoreV, key: Seq<char>, p: Seq<usize>, q: Seq<usize>)
    requires
        s.wf(),
        in_key_order(p, msg_keys(s.messages.filter(of_thread(key)))),
        in_key_order(q, msg_keys(s.messages.filter(of_thread(key)))),
    ensures
        p == q,
{
    let text = |m: MessageV| m.message_id;
    assert(distinct_by(s.messages, text));
    lemma_filter_distinct_by(s.messages, of_thread(key), text);
    let f = s.messages.filter(of_thread(key));
    assert(distinct_texts(msg_keys(f))) by {
        assert forall|i: int, j: int|
            0 <= i < msg_keys(f).len() && 0 <= j < msg_keys(f).len() && i != j implies msg_keys(f)[i].1
            != msg_keys(f)[j].1 by {
            assert(text(f[i]) != text(f[j]));
        }
    }
    lemma_key_order_unique(msg_keys(f), p, q);
}

/// The ready warm sandboxes have a single listing order, and so have the
/// stale evicting ones.
pub proof fn law_warm_listing_orders_are_unique(
    s: StoreV,
    cutoff: int,
    p: Seq<usize>,
    q: Seq<usize>,
    p2: Seq<usize>,
    q2: Seq<usize>,
)
    requires
        s.wf(),
        in_key_order(p, created_keys(s.warm.filter(ready()))),
        in_key_order(q, created_keys(s.warm.filter(ready()))),
        in_key_order(p2, touched_keys(s.warm.filter(stale_evicting(cutoff)))),
        in_key_order(q2, touched_keys(s.warm.filter(stale_evicting(cutoff)))),
    ensures
        p == q,
        p2 == q2,
{
    let text = |w: WarmV| w.sandbox_id;
    assert(distinct_by(s.warm, text));
    lemma_filter_distinct_by(s.warm, ready(), text);
    lemma_filter_distinct_by(s.warm, stale_evicting(cutoff), text);
    let f = s.warm.filter(ready());
    let g = s.warm.filter(stale_evicting(cutoff));
    assert(distinct_texts(created_keys(f))) by {
        assert forall|i: int, j: int|
            0 <= i < created_keys(f).len() && 0 <= j < created_keys(f).len() && i != j implies created_keys(
            f,
        )[i].1 != created_keys(f)[j].1 by {
            assert(text(f[i]) != text(f[j]));
        }
    }
    assert(distinct_texts(touched_keys(g))) by {
        assert forall|i: int, j: int|
            0 <= i < touched_keys(g).len() && 0 <= j < touched_keys(g).len() && i != j implies touched_keys(
            g,
        )[i].1 != touched_keys(g)[j].1 by {
            assert(text(g[i]) != text(g[j]));
        }
    }
    lemma_key_order_unique(created_keys(f), p, q);
    lemma_key_order_unique(touched_keys(g), p2, q2);
}

/// The sessions a workflow run owns have a single listing order.
pub proof fn law_workflow_listing_order_is_unique(s: StoreV, run_id: Seq<char>, p: Seq<usize>, q: Seq<usize>)
    requires
        s.wf(),
        in_key_order(p, owned_keys(s.sessions.filter(owned_by_run_pred(run_id)))),
        in_key_order(q, owned_keys(s.sessions.filter(owned_by_run_pred(run_id)))),
    ensures
        p == q,
{
    let text = |r: SessionRecV| r.session.thread_key;
    assert(distinct_by(s.sessions, text));
    lemma_filter_distinct_by(s.sessions, owned_by_run_pred(run_id), text);
    let f = s.sessions.filter(owned_by_run_pred(run_id));
    assert(distinct_texts(owned_keys(f))) by {
        assert forall|i: int, j: int|
            0 <= i < owned_keys(f).len() && 0 <= j < owned_keys(f).len() && i != j implies owned_keys(f)[i].1
            != owned_keys(f)[j].1 by {
            assert(text(f[i]) != text(f[j]));
        }
    }
    lemma_key_order_unique(owned_keys(f), p, q);
}

/// Each idle candidate among the first `n` sessions comes from one of them,
/// and no two share a thread key.
proof fn lemma_idle_candidates_distinct(s: StoreV, n: nat, idle_backstop: u128, now: i128)
    requires
        s.wf(),
        n <= s.sessions.len(),
    ensures
        forall|k: int|
            #![trigger s.idle_candidates_upto(n, idle_backstop, now)[k]]
            0 <= k < s.idle_candidates_upto(n, idle_backstop, now).len() ==> exists|j: int|
                0 <= j < n && #[trigger] s.sessions[j].session.thread_key == s.idle_candidates_upto(
                    n,
                    idle_backstop,
                    now,
                )[k].1.0,
        distinct_texts(idle_keys(s.idle_candidates_upto(n, idle_backstop, now))),
    decreases n,
{
    if n > 0 {
        let m = (n - 1) as nat;
        lemma_idle_candidates_distinct(s, m, idle_backstop, now);
        let prev = s.idle_candidates_upto(m, idle_backstop, now);
        let all = s.idle_candidates_upto(n, idle_backstop, now);
        match s.idle_candidate_at(m as int, idle_backstop, now) {
            Some(c) => {
                assert(all == prev.push((s.idle_completed_at(m as int), c)));
                assert(c.0 == s.sessions[m as int].session.thread_key);
                assert forall|k: int| #![trigger all[k]] 0 <= k < all.len() implies exists|j: int|
                    0 <= j < n && #[trigger] s.sessions[j].session.thread_key == all[k].1.0 by {
                    if k < prev.len() {
                        let j = choose|j: int| 0 <= j < m && #[trigger] s.sessions[j].session.thread_key == prev[k].1.0;
                        assert(s.sessions[j].session.thread_key == all[k].1.0);
                    } else {
                        assert(s.sessions[m as int].session.thread_key == all[k].1.0);
                    }
                }
                assert forall|a: int, b: int|
                    0 <= a < idle_keys(all).len() && 0 <= b < idle_keys(all).len() && a != b implies idle_keys(
                    all,
                )[a].1 != idle_keys(all)[b].1 by {
                    if a < prev.len() && b < prev.len() {
                        assert(idle_keys(prev)[a].1 != idle_keys(prev)[b].1);
                    } else if a < prev.len() {
                        let j = choose|j: int| 0 <= j < m && #[trigger] s.sessions[j].session.thread_key == prev[a].1.0;
                        assert(s.sessions[j].session.thread_key != s.sessions[m as int].session.thread_key);
                    } else {
                        let j = choose|j: int| 0 <= j < m && #[trigger] s.sessions[j].session.thread_key == prev[b].1.0;
                        assert(s.sessions[j].session.thread_key != s.sessions[m as int].session.thread_key);
                    }
                }
            },
            None => {
                assert(all == prev);
                assert forall|k: int| #![trigger all[k]] 0 <= k < all.len() implies exists|j: int|
                    0 <= j < n && #[trigger] s.sessions[j].session.thread_key == all[k].1.0 by {
                    let j = choose|j: int| 0 <= j < m && #[trigger] s.sessions[j].session.thread_key == prev[k].1.0;
                    assert(s.sessions[j].session.thread_key == all[k].1.0);
                }
            },
        }
    }
}

/// The idle sweep's candidates have a single listing order.
pub proof fn law_idle_listing_order_is_unique(
    s: StoreV,
    idle_backstop: u128,
    now: i128,
    p: Seq<usize>,
    q: Seq<usize>,
)
    requires
        s.wf(),
        in_key_order(p, idle_keys(s.idle_candidates_upto(s.sessions.len() as nat, idle_backstop, now))),
        in_key_order(q, idle_keys(s.idle_candidates_upto(s.sessions.len() as nat, idle_backstop, now))),
    ensures
        p == q,
{
    lemma_idle_candidates_distinct(s, s.sessions.len() as nat, idle_backstop, now);
    lemma_key_order_unique(
        idle_keys(s.idle_candidates_upto(s.sessions.len() as nat, idle_backstop, now)),
        p,
        q,
    );
}

/// The steps of a delivery receipt, fed what the store holds, end where
/// the store's own receipt does: nothing when the session is missing or the
/// execution is not its own, the logged receipt on a replay, and a new
/// receipt otherwise.
pub proof fn law_delivery_steps_agree_with_the_store(
    s: StoreV,
    key: Seq<char>,
    execution_id: Seq<char>,
    event_type: Seq<char>,
)
    ensures
        ({
            let a = delivery_final_action(
                s.has_session(key),
                s.exec_of_thread(execution_id, key),
                s.first_event_pos(execution_id, event_type) is Some,
            );
            &&& a == DeliveryAction::ReturnNothing <==> !(s.has_session(key) && s.exec_of_thread(
                execution_id,
                key,
            ))
            &&& a == DeliveryAction::ReturnReceipt <==> (s.has_session(key) && s.exec_of_thread(
                execution_id,
                key,
            ) && s.first_event_pos(execution_id, event_type) is Some)
            &&& a == DeliveryAction::InsertReceipt <==> (s.has_session(key) && s.exec_of_thread(
                execution_id,
                key,
            ) && s.first_event_pos(execution_id, event_type) is None)
        }),
{
}

/// The steps of an owner-fenced append, fed what the store holds (the
/// renewal changes the execution exactly when it is one of the session's
/// and the caller holds its lease on it while active), append exactly when
/// the store's own fenced append does.
pub proof fn law_fenced_append_steps_agree_with_the_store(
    s: StoreV,
    key: Seq<char>,
    execution_id: Seq<char>,
    owner: Seq<char>,
)
    ensures
        ({
            let renewed: u64 = if s.exec_of_thread(execution_id, key) && held_by(
                s.exec(execution_id),
                owner,
            ) {
                1
            } else {
                0
            };
            (spec_fenced_append_next(FencedAppendFinding::Session(s.has_session(key)))
                == FencedAppendAction::RenewLease && spec_fenced_append_next(
                FencedAppendFinding::Renewed(renewed),
            ) == FencedAppendAction::InsertEvent) <==> (s.has_session(key) && s.exec_of_thread(
                execution_id,
                key,
            ) && held_by(s.exec(execution_id), owner))
        }),
{
}

/// A session's recorded sandbox activity decides when it was last active,
/// whatever its newest execution: the capacity candidate carries that
/// instant, and a session active after the cutoff is never eligible.
pub proof fn law_recorded_sandbox_activity_decides_capacity(
    s: StoreV,
    i: int,
    excluded: Option<Seq<char>>,
    cutoff: int,
    t: i128,
)
    requires
        0 <= i < s.sessions.len(),
        s.sessions[i].session.sandbox_last_active_at == Some(t),
    ensures
        s.last_active_at(i) == t,
        s.capacity_candidate_of(i).3 == t,
        t > cutoff ==> !s.capacity_eligible(i, excluded, cutoff),
{
}

/// Without recorded sandbox activity, a session was last active when its
/// newest execution ended, if that execution has ended.
pub proof fn law_without_recorded_activity_the_newest_completion_counts(
    s: StoreV,
    i: int,
    l: int,
    c: i128,
)
    requires
        s.wf(),
        0 <= i < s.sessions.len(),
        s.sessions[i].session.sandbox_last_active_at is None,
        s.is_latest_exec(s.sessions[i].session.thread_key, l, false),
        s.executions[l].execution.completed_at == Some(c),
    ensures
        s.last_active_at(i) == c,
{
    let key = s.sessions[i].session.thread_key;
    let m = choose|m: int| s.is_latest_exec(key, m, false);
    s.lemma_latest_unique(key, m, l, false);
}

/// Without a positive persisted idle timeout, the idle timeout is the
/// larger of the backstop and one millisecond: never shorter than either,
/// and equal to one of them.
pub proof fn law_idle_timeout_defaults_to_the_backstop(persisted_ms: Option<u64>, idle_backstop: u128)
    requires
        !(persisted_ms matches Some(ms) && ms > 0),
    ensures
        spec_effective_idle_timeout(persisted_ms, idle_backstop) >= idle_backstop,
        spec_effective_idle_timeout(persisted_ms, idle_backstop) >= NANOS_PER_MILLI,
        spec_effective_idle_timeout(persisted_ms, idle_backstop) == idle_backstop
            || spec_effective_idle_timeout(persisted_ms, idle_backstop) == NANOS_PER_MILLI,
{
}

/// The sandbox fence holds for a status text exactly when the caller's
/// lease is live and the text is the status of an active (queued or
/// running) execution: a completed, failed or cancelled execution, or an
/// unknown status, is always refused.
pub proof fn law_sandbox_fence_admits_only_active_executions(status: Seq<char>, owner_active: bool)
    ensures
        spec_execution_fence(status, owner_active) <==> (owner_active && (ExecutionStatus::spec_parse(
            status,
        ) matches Some(st) && st.spec_is_active())),
{
}

/// Capabilities written to the four columns read back as written, and
/// each flag is read from its own column.
pub proof fn law_capabilities_read_back_as_written(
    c: SandboxCapabilities,
    repo_cache_enabled: bool,
    repo_cache_access: Option<Seq<char>>,
    observability_enabled: bool,
    api_server_enabled: bool,
)
    ensures
        spec_decode_capabilities(
            Some(c.spec_repo_cache_enabled()),
            Some(c.repo_cache.spec_str()),
            Some(c.observability_enabled),
            Some(c.api_server_enabled),
        ) == Some(c),
        spec_decode_capabilities(
            Some(repo_cache_enabled),
            repo_cache_access,
            Some(observability_enabled),
            Some(api_server_enabled),
        ) matches Some(d) && d.observability_enabled == observability_enabled
            && d.api_server_enabled == api_server_enabled,
{
    crate::types::SandboxRepoCacheAccess::parse_round_trip(c.repo_cache);
}

/// The events that end a turn in failure are the execution's failure and
/// its cancellation, and no other event: a cancelled execution ends the
/// watch as a failed one does.
pub proof fn law_failure_and_cancellation_end_a_turn(name: Seq<char>)
    ensures
        turn_event_kind(name) == 2 <==> (name == "session.execution_failed"@ || name
            == "session.execution_cancelled"@),
{
    reveal_strlit("session.output.line");
    reveal_strlit("session.execution_completed");
    reveal_strlit("session.execution_failed");
    reveal_strlit("session.execution_cancelled");
    assert("session.output.line"@.len() != "session.execution_failed"@.len());
    assert("session.output.line"@.len() != "session.execution_cancelled"@.len());
    assert("session.execution_completed"@.len() != "session.execution_failed"@.len());
    assert("session.execution_completed"@[19] != "session.execution_cancelled"@[19]);
}

} // verus!

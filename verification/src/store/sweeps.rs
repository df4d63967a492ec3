//! The sweeps over sessions: the idle sweep, which finds sandboxes unused
//! since their last execution ended for longer than that execution's idle
//! timeout, and the sessions a workflow run owns.
use vstd::prelude::*;

use serde_json::Value;

use super::{SessionRecV, SessionStore, StoreV};
use crate::checks::{bool_member, bool_member_of, text_member};
use crate::error::SessionStoreError;
use crate::idle::{
    effective_idle_timeout, idle_deadline_elapsed, persisted_idle_timeout_ms,
    spec_effective_idle_timeout, spec_idle_deadline_elapsed, IdleSandboxCandidate,
    WorkflowOwnedSandbox,
};
use crate::notification::text_member_of;
use crate::decimal::{is_decimal_of_i64, is_decimal_of_u64, spec_signed_decimal};
use crate::json::{json_as_i64, json_as_u64, json_i64_of, json_member, json_member_of, json_u64_of};
use crate::order::{in_key_order, is_permutation, key_less, sort_rows, KeyedRow};
use crate::types::{opt_clone, opt_string_view, text_eq, ThreadKey};

verus! {

/// A candidate of the idle sweep: thread key, sandbox id, execution id and
/// idle timeout in nanoseconds.
pub type IdleCandidateV = (Seq<char>, Seq<char>, Seq<char>, u128);

impl StoreV {
    /// Session `i` holds a sandbox, its thread has no queued or running
    /// execution, and its newest execution `l` ended at a recorded time.
    pub open spec fn idle_source(self, i: int, l: int) -> bool {
        &&& 0 <= i < self.sessions.len()
        &&& self.sessions[i].session.sandbox_id is Some
        &&& self.is_latest_exec(self.sessions[i].session.thread_key, l, false)
        &&& !self.executions[l].execution.status.spec_is_active()
        &&& self.executions[l].execution.completed_at is Some
        &&& self.active_pos(self.sessions[i].session.thread_key) is None
    }

    /// The candidate session `i` gives at `now`, if its idle timeout has
    /// passed since its newest execution ended.
    pub open spec fn idle_candidate_at(self, i: int, idle_backstop: u128, now: i128) -> Option<
        IdleCandidateV,
    > {
        if exists|l: int| self.idle_source(i, l) {
            let l = choose|l: int| self.idle_source(i, l);
            let e = self.executions[l].execution;
            let t = spec_effective_idle_timeout(persisted_idle_timeout_ms(e.metadata), idle_backstop);
            if spec_idle_deadline_elapsed(e.completed_at->0, t, now) {
                Some(
                    (
                        self.sessions[i].session.thread_key,
                        self.sessions[i].session.sandbox_id->0,
                        e.execution_id,
                        t,
                    ),
                )
            } else {
                None
            }
        } else {
            None
        }
    }

    /// When the newest execution behind session `i`'s candidate ended.
    pub open spec fn idle_completed_at(self, i: int) -> i128 {
        self.executions[choose|l: int| self.idle_source(i, l)].execution.completed_at->0
    }

    /// The candidates of the first `n` sessions in store order, each with
    /// the time its newest execution ended.
    pub open spec fn idle_candidates_upto(self, n: nat, idle_backstop: u128, now: i128) -> Seq<
        (i128, IdleCandidateV),
    >
        decreases n,
    {
        if n == 0 {
            Seq::empty()
        } else {
            let prev = self.idle_candidates_upto((n - 1) as nat, idle_backstop, now);
            match self.idle_candidate_at(n - 1, idle_backstop, now) {
                Some(c) => prev.push((self.idle_completed_at(n - 1), c)),
                None => prev,
            }
        }
    }

    /// Two newest executions of one thread are the same one.
    pub proof fn lemma_latest_unique(self, key: Seq<char>, a: int, b: int, active_only: bool)
        requires
            self.is_latest_exec(key, a, active_only),
            self.is_latest_exec(key, b, active_only),
        ensures
            a == b,
    {
        assert(self.executions[a].execution.thread_key == key);
        assert(self.executions[b].execution.thread_key == key);
        crate::order::lemma_text_lt_asymmetric(
            self.executions[a].execution.execution_id,
            self.executions[b].execution.execution_id,
        );
    }
}

/// The view of a candidate.
pub open spec fn candidate_view(c: IdleSandboxCandidate) -> IdleCandidateV {
    (c.thread_key@, c.sandbox_id@, c.execution_id@, c.idle_timeout)
}

/// The keys idle candidates are listed by: when the newest execution ended,
/// then the thread key.
pub open spec fn idle_keys(s: Seq<(i128, IdleCandidateV)>) -> Seq<(i128, Seq<char>)> {
    s.map_values(|e: (i128, IdleCandidateV)| (e.0, e.1.0))
}

impl KeyedRow for (i128, IdleSandboxCandidate) {
    open spec fn row_key(&self) -> (i128, Seq<char>) {
        (self.0, self.1.thread_key@)
    }

    fn sorts_before(&self, other: &Self) -> (r: bool) {
        key_less(self.0, self.1.thread_key.as_str(), other.0, other.1.thread_key.as_str())
    }
}

/// The keys workflow-owned sessions are listed by: the thread key alone.
pub open spec fn owned_keys(s: Seq<SessionRecV>) -> Seq<(i128, Seq<char>)> {
    s.map_values(|r: SessionRecV| (0i128, r.session.thread_key))
}

impl KeyedRow for WorkflowOwnedSandbox {
    open spec fn row_key(&self) -> (i128, Seq<char>) {
        (0i128, self.thread_key@)
    }

    fn sorts_before(&self, other: &Self) -> (r: bool) {
        key_less(0, self.thread_key.as_str(), 0, other.thread_key.as_str())
    }
}

impl SessionStore {
    /// The idle sweep at `now`: every session holding a sandbox whose thread
    /// has nothing queued or running and whose newest execution ended at
    /// least its idle timeout ago, with `idle_backstop` as the fallback
    /// timeout; listed by when that execution ended, ties by thread key.
    pub fn list_idle_sandbox_candidates(&self, idle_backstop: u128, now: i128) -> (r: Result<
        Vec<IdleSandboxCandidate>,
        SessionStoreError,
    >)
        requires
            self@.wf(),
        ensures
            r matches Ok(v) && {
                let all = self@.idle_candidates_upto(self@.sessions.len() as nat, idle_backstop, now);
                &&& v.len() == all.len()
                &&& exists|p: Seq<usize>|
                    #[trigger] in_key_order(p, idle_keys(all)) && forall|k: int|
                        0 <= k < v.len() ==> candidate_view(#[trigger] v[k]) == all[p[k] as int].1
            },
    {
        let ghost v = self@;
        let mut out: Vec<(i128, IdleSandboxCandidate)> = Vec::new();
        let mut i: usize = 0;
        while i < self.sessions.len()
            invariant
                v == self@,
                v.wf(),
                i <= self.sessions.len(),
                v.sessions.len() == self.sessions.len(),
                out.len() == v.idle_candidates_upto(i as nat, idle_backstop, now).len(),
                forall|k: int|
                    0 <= k < out.len() ==> (#[trigger] out[k]).0 == v.idle_candidates_upto(
                        i as nat,
                        idle_backstop,
                        now,
                    )[k].0 && candidate_view(out[k].1) == v.idle_candidates_upto(
                        i as nat,
                        idle_backstop,
                        now,
                    )[k].1,
            decreases self.sessions.len() - i,
        {
            let ghost out_before = out@;
            let found = self.idle_candidate(i, idle_backstop, now);
            match found {
                Some(c) => {
                    out.push(c);
                    assert forall|k: int| 0 <= k < out.len() implies (#[trigger] out[k]).0
                        == v.idle_candidates_upto((i + 1) as nat, idle_backstop, now)[k].0
                        && candidate_view(out[k].1) == v.idle_candidates_upto(
                        (i + 1) as nat,
                        idle_backstop,
                        now,
                    )[k].1 by {
                        if k < out_before.len() {
                            assert(out[k] == out_before[k]);
                        }
                    }
                },
                None => {},
            }
            i = i + 1;
        }
        let ghost all = v.idle_candidates_upto(self.sessions.len() as nat, idle_backstop, now);
        let ghost found = out@;
        let mut rest = sort_rows(out);
        let ghost sorted = rest@;
        let ghost p = choose|p: Seq<usize>|
            #[trigger] is_permutation(p, found.len()) && forall|k: int|
                0 <= k < sorted.len() ==> sorted[k] == found[p[k] as int];
        let n = rest.len();
        let mut list: Vec<IdleSandboxCandidate> = Vec::new();
        let mut j: usize = 0;
        while j < n
            invariant
                n == sorted.len(),
                j <= n,
                rest@ == sorted.subrange(j as int, n as int),
                list.len() == j,
                forall|k: int| 0 <= k < j ==> #[trigger] list[k] == sorted[k].1,
            decreases n - j,
        {
            assert(rest@[0] == sorted[j as int]);
            let (_, c) = rest.remove(0);
            assert(rest@ =~= sorted.subrange(j + 1, n as int));
            list.push(c);
            j = j + 1;
        }
        proof {
            assert forall|k: int| 0 <= k < list.len() implies candidate_view(#[trigger] list[k])
                == all[p[k] as int].1 by {
                assert(sorted[k] == found[p[k] as int]);
            }
            assert forall|a: int, b: int| 0 <= a < b < p.len() implies !crate::order::key_lt(
                idle_keys(all)[p[b] as int].0,
                idle_keys(all)[p[b] as int].1,
                idle_keys(all)[p[a] as int].0,
                idle_keys(all)[p[a] as int].1,
            ) by {
                assert(sorted[a] == found[p[a] as int] && sorted[b] == found[p[b] as int]);
                assert(!crate::order::row_lt(sorted[b], sorted[a]));
            }
            assert(in_key_order(p, idle_keys(all)));
        }
        Ok(list)
    }

    /// The candidate session `i` gives at `now`.
    fn idle_candidate(&self, i: usize, idle_backstop: u128, now: i128) -> (r: Option<
        (i128, IdleSandboxCandidate),
    >)
        requires
            self@.wf(),
            i < self@.sessions.len(),
        ensures
            match r {
                Some(c) => self@.idle_candidate_at(i as int, idle_backstop, now) == Some(
                    candidate_view(c.1),
                ) && c.0 == self@.idle_completed_at(i as int),
                None => self@.idle_candidate_at(i as int, idle_backstop, now) is None,
            },
    {
        let ghost v = self@;
        let session = &self.sessions[i].session;
        let sandbox_id = match &session.sandbox_id {
            Some(s) => s,
            None => {
                assert forall|l: int| !v.idle_source(i as int, l) by {}
                return None;
            },
        };
        let key: &ThreadKey = &session.thread_key;
        assert(v.sessions[i as int].session.thread_key == key@);
        let latest = match self.latest_exec(key, false) {
            Some(l) => l,
            None => {
                assert forall|l: int| !v.idle_source(i as int, l) by {
                    if v.is_latest_exec(key@, l, false) {
                        assert(v.executions[l].execution.thread_key == key@);
                    }
                }
                return None;
            },
        };
        let execution = &self.executions[latest].execution;
        let completed_at = match execution.completed_at {
            Some(c) => c,
            None => {
                assert forall|l: int| !v.idle_source(i as int, l) by {
                    if v.idle_source(i as int, l) {
                        v.lemma_latest_unique(key@, l, latest as int, false);
                    }
                }
                return None;
            },
        };
        if execution.status.is_active() || self.find_active(key).is_some() {
            assert forall|l: int| !v.idle_source(i as int, l) by {
                if v.idle_source(i as int, l) {
                    v.lemma_latest_unique(key@, l, latest as int, false);
                }
            }
            return None;
        }
        assert(v.idle_source(i as int, latest as int));
        let ghost chosen = choose|l: int| v.idle_source(i as int, l);
        proof {
            v.lemma_latest_unique(key@, chosen, latest as int, false);
        }
        let idle_timeout = effective_idle_timeout(&execution.metadata, idle_backstop);
        if !idle_deadline_elapsed(completed_at, idle_timeout, now) {
            return None;
        }
        Some(
            (
                completed_at,
                IdleSandboxCandidate {
                    thread_key: key.duplicate(),
                    sandbox_id: sandbox_id.clone(),
                    execution_id: execution.execution_id.clone(),
                    idle_timeout,
                },
            ),
        )
    }
}

/// The decimal text of the integer member `key` of a document, as the
/// database reads a JSON integer as text.
pub open spec fn integer_member_text(doc: Value, key: Seq<char>) -> Option<Seq<char>> {
    match json_member_of(doc, key) {
        Some(v) => match json_u64_of(v) {
            Some(n) => Some(spec_signed_decimal(n as int)),
            None => match json_i64_of(v) {
                Some(n) => Some(spec_signed_decimal(n as int)),
                None => None,
            },
        },
        None => None,
    }
}

/// The metadata marks a session as owned by workflow run `run_id`: its
/// `workflow_owned_thread` member is `true` or the text `"true"`, and its
/// `workflow_run_id` member reads as the text `run_id`: it is that text, or
/// an integer written so.
pub open spec fn owned_by_run(metadata: Value, run_id: Seq<char>) -> bool {
    &&& (text_member_of(metadata, "workflow_owned_thread"@) == Some("true"@) || bool_member_of(
        metadata,
        "workflow_owned_thread"@,
    ) == Some(true))
    &&& (text_member_of(metadata, "workflow_run_id"@) == Some(run_id) || integer_member_text(
        metadata,
        "workflow_run_id"@,
    ) == Some(run_id))
}

/// True when the integer member `key` of `doc` is written `t` in decimal.
fn integer_member_is(doc: &Value, key: &str, t: &str) -> (r: bool)
    ensures
        r == (integer_member_text(*doc, key@) == Some(t@)),
{
    match json_member(doc, key) {
        Some(v) => match json_as_u64(&v) {
            Some(n) => is_decimal_of_u64(n, t),
            None => match json_as_i64(&v) {
                Some(n) => is_decimal_of_i64(n, t),
                None => false,
            },
        },
        None => false,
    }
}

/// The filter of sessions owned by workflow run `run_id`.
pub open spec fn owned_by_run_pred(run_id: Seq<char>) -> spec_fn(SessionRecV) -> bool {
    |r: SessionRecV| owned_by_run(r.metadata, run_id)
}

fn is_owned_by_run(metadata: &Value, run_id: &str) -> (r: bool)
    ensures
        r == owned_by_run(*metadata, run_id@),
{
    proof {
        reveal_strlit("true");
    }
    let marked = match text_member(metadata, "workflow_owned_thread") {
        Some(t) => text_eq(t.as_str(), "true"),
        None => false,
    } || bool_member(metadata, "workflow_owned_thread") == Some(true);
    let run = match text_member(metadata, "workflow_run_id") {
        Some(t) => text_eq(t.as_str(), run_id),
        None => false,
    } || integer_member_is(metadata, "workflow_run_id", run_id);
    marked && run
}

impl SessionStore {
    /// The sessions workflow run `run_id` owns, with their sandboxes, by
    /// thread key.
    pub fn list_workflow_owned_sandboxes(&self, workflow_run_id: &str) -> (r: Result<
        Vec<WorkflowOwnedSandbox>,
        SessionStoreError,
    >)
        requires
            self@.wf(),
        ensures
            r matches Ok(v) && {
                let owned = self@.sessions.filter(owned_by_run_pred(workflow_run_id@));
                &&& v.len() == owned.len()
                &&& exists|p: Seq<usize>|
                    #[trigger] in_key_order(p, owned_keys(owned)) && forall|k: int|
                        0 <= k < v.len() ==> (#[trigger] v[k]).thread_key@ == owned[p[k] as int].session.thread_key
                            && opt_string_view(v[k].sandbox_id) == owned[p[k] as int].session.sandbox_id
            },
    {
        let ghost v = self@;
        let ghost pred = owned_by_run_pred(workflow_run_id@);
        let mut out: Vec<WorkflowOwnedSandbox> = Vec::new();
        let mut i: usize = 0;
        assert(v.sessions.subrange(0, 0).filter(pred) =~= Seq::<SessionRecV>::empty());
        while i < self.sessions.len()
            invariant
                v == self@,
                pred == owned_by_run_pred(workflow_run_id@),
                i <= self.sessions.len(),
                v.sessions.len() == self.sessions.len(),
                out.len() == v.sessions.subrange(0, i as int).filter(pred).len(),
                forall|k: int|
                    0 <= k < out.len() ==> (#[trigger] out[k]).thread_key@ == v.sessions.subrange(
                        0,
                        i as int,
                    ).filter(pred)[k].session.thread_key && opt_string_view(out[k].sandbox_id)
                        == v.sessions.subrange(0, i as int).filter(pred)[k].session.sandbox_id,
            decreases self.sessions.len() - i,
        {
            let ghost pre = v.sessions.subrange(0, i as int);
            let ghost rec = v.sessions[i as int];
            assert(v.sessions.subrange(0, i + 1) =~= pre.push(rec));
            proof {
                pre.lemma_filter_push(rec, pred);
            }
            let ghost out_before = out@;
            let record = &self.sessions[i];
            assert(record@ == rec);
            if is_owned_by_run(&record.metadata, workflow_run_id) {
                out.push(
                    WorkflowOwnedSandbox {
                        thread_key: record.session.thread_key.duplicate(),
                        sandbox_id: opt_clone(&record.session.sandbox_id),
                    },
                );
                assert forall|k: int| 0 <= k < out.len() implies (#[trigger] out[k]).thread_key@
                    == v.sessions.subrange(0, i + 1).filter(pred)[k].session.thread_key
                    && opt_string_view(out[k].sandbox_id) == v.sessions.subrange(0, i + 1).filter(
                    pred,
                )[k].session.sandbox_id by {
                    if k < out_before.len() {
                        assert(out[k] == out_before[k]);
                    }
                }
            }
            i = i + 1;
        }
        assert(v.sessions.subrange(0, v.sessions.len() as int) =~= v.sessions);
        let ghost found = out@;
        let r = sort_rows(out);
        proof {
            let f = v.sessions.filter(pred);
            let p = choose|p: Seq<usize>|
                #[trigger] is_permutation(p, found.len()) && forall|k: int|
                    0 <= k < r@.len() ==> r@[k] == found[p[k] as int];
            assert forall|k: int| 0 <= k < r.len() implies (#[trigger] r[k]).thread_key@
                == f[p[k] as int].session.thread_key && opt_string_view(r[k].sandbox_id)
                == f[p[k] as int].session.sandbox_id by {
                assert(r@[k] == found[p[k] as int]);
            }
            assert forall|a: int, b: int| 0 <= a < b < p.len() implies !crate::order::key_lt(
                owned_keys(f)[p[b] as int].0,
                owned_keys(f)[p[b] as int].1,
                owned_keys(f)[p[a] as int].0,
                owned_keys(f)[p[a] as int].1,
            ) by {
                assert(r@[a] == found[p[a] as int] && r@[b] == found[p[b] as int]);
                assert(!crate::order::row_lt(r@[b], r@[a]));
            }
            assert(in_key_order(p, owned_keys(f)));
        }
        Ok(r)
    }
}

} // verus!

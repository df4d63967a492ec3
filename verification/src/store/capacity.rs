//! The capacity sweep: when sandboxes run short, the sessions whose sandbox
//! has been unused the longest, past a grace period, and is not paused.
use vstd::prelude::*;

use super::{SessionStore, StoreV};
use crate::checks::text_member;
use crate::error::{DatabaseFailure, SessionStoreError};
use crate::idle::SandboxCapacityCandidate;
use crate::lease::elapsed_at_least;
use crate::notification::text_member_of;
use crate::order::{key_less, key_lt, lemma_key_lt_transitive, lemma_text_lt_total};
use crate::records::EventV;
use crate::types::{opt_string_view, text_eq, ThreadKey};

verus! {

/// `e` is a pause, ready or resume event of thread `key` for sandbox `sb`.
pub open spec fn is_lifecycle_event(e: EventV, key: Seq<char>, sb: Seq<char>) -> bool {
    &&& e.thread_key == key
    &&& text_member_of(e.payload, "sandbox_id"@) == Some(sb)
    &&& {
        ||| e.event_type == "session.sandbox_paused"@
        ||| e.event_type == "session.sandbox_ready"@
        ||| e.event_type == "session.sandbox_resumed"@
    }
}

/// A capacity candidate: thread key, sandbox id, newest execution id and
/// the time the sandbox was last active.
pub type CapacityCandidateV = (Seq<char>, Seq<char>, Option<Seq<char>>, i128);

/// The view of a candidate.
pub open spec fn capacity_view(c: SandboxCapacityCandidate) -> CapacityCandidateV {
    (c.thread_key@, c.sandbox_id@, opt_string_view(c.latest_execution_id), c.last_active_at)
}

impl StoreV {
    /// Event `p` is the newest lifecycle event of thread `key` for sandbox
    /// `sb`, by time and then by id.
    pub open spec fn latest_lifecycle(self, key: Seq<char>, sb: Seq<char>, p: int) -> bool {
        &&& 0 <= p < self.events.len()
        &&& is_lifecycle_event(self.events[p], key, sb)
        &&& forall|q: int|
            0 <= q < self.events.len() && #[trigger] is_lifecycle_event(self.events[q], key, sb)
                ==> (self.events[q].created_at < self.events[p].created_at || (
            self.events[q].created_at == self.events[p].created_at && self.events[q].event_id
                <= self.events[p].event_id))
    }

    /// The sandbox `sb` of thread `key` is paused: its newest lifecycle
    /// event is a pause.
    pub open spec fn sandbox_paused(self, key: Seq<char>, sb: Seq<char>) -> bool {
        exists|p: int|
            #[trigger] self.latest_lifecycle(key, sb, p) && self.events[p].event_type
                == "session.sandbox_paused"@
    }

    /// The position of the newest execution of thread `key`.
    pub open spec fn latest_pos(self, key: Seq<char>) -> Option<int> {
        if exists|l: int| self.is_latest_exec(key, l, false) {
            Some(choose|l: int| self.is_latest_exec(key, l, false))
        } else {
            None
        }
    }

    /// When the sandbox of session `i` was last active: its recorded
    /// activity, else the end of its newest execution, else the session's
    /// last update.
    pub open spec fn last_active_at(self, i: int) -> i128 {
        let s = self.sessions[i].session;
        match s.sandbox_last_active_at {
            Some(t) => t,
            None => match self.latest_pos(s.thread_key) {
                Some(l) => match self.executions[l].execution.completed_at {
                    Some(c) => c,
                    None => s.updated_at,
                },
                None => s.updated_at,
            },
        }
    }

    /// Session `i` may give up its sandbox: it holds one, is not the
    /// excluded thread, its sandbox is not paused, it has been inactive
    /// since `cutoff`, and nothing of its thread is queued or running.
    pub open spec fn capacity_eligible(self, i: int, excluded: Option<Seq<char>>, cutoff: int) -> bool {
        &&& 0 <= i < self.sessions.len()
        &&& self.sessions[i].session.sandbox_id is Some
        &&& excluded != Some(self.sessions[i].session.thread_key)
        &&& !self.sandbox_paused(
            self.sessions[i].session.thread_key,
            self.sessions[i].session.sandbox_id->0,
        )
        &&& self.last_active_at(i) <= cutoff
        &&& self.active_pos(self.sessions[i].session.thread_key) is None
    }

    /// Session `a` was last active before session `b`, or at the same time
    /// with a smaller thread key.
    pub open spec fn cap_before(self, a: int, b: int) -> bool {
        key_lt(
            self.last_active_at(a),
            self.sessions[a].session.thread_key,
            self.last_active_at(b),
            self.sessions[b].session.thread_key,
        )
    }

    /// `c` is the candidate of some eligible session.
    pub open spec fn listed_from_eligible(
        self,
        c: SandboxCapacityCandidate,
        ex: Option<Seq<char>>,
        cutoff: int,
    ) -> bool {
        exists|i: int| #[trigger]
            self.capacity_eligible(i, ex, cutoff) && capacity_view(c) == self.capacity_candidate_of(i)
    }

    /// The candidate session `i` gives.
    pub open spec fn capacity_candidate_of(self, i: int) -> CapacityCandidateV {
        let s = self.sessions[i].session;
        (
            s.thread_key,
            s.sandbox_id->0,
            match self.latest_pos(s.thread_key) {
                Some(l) => Some(self.executions[l].execution.execution_id),
                None => None,
            },
            self.last_active_at(i),
        )
    }
}

/// The thread keys of a list of candidates.
pub open spec fn candidate_keys(v: Seq<SandboxCapacityCandidate>) -> Seq<Seq<char>> {
    v.map_values(|c: SandboxCapacityCandidate| c.thread_key@)
}

/// The session keys at the positions of `chosen`.
pub open spec fn keys_at(s: StoreV, chosen: Seq<usize>) -> Seq<Seq<char>> {
    chosen.map_values(|i: usize| s.sessions[i as int].session.thread_key)
}

impl SessionStore {
    /// The position of the newest execution of `thread_key`.
    fn latest_position(&self, thread_key: &ThreadKey) -> (r: Option<usize>)
        requires
            self@.wf(),
        ensures
            match r {
                Some(l) => self@.latest_pos(thread_key@) == Some(l as int) && l
                    < self@.executions.len(),
                None => self@.latest_pos(thread_key@) is None,
            },
    {
        let ghost v = self@;
        match self.latest_exec(thread_key, false) {
            Some(l) => {
                let ghost c = choose|k: int| v.is_latest_exec(thread_key@, k, false);
                proof {
                    v.lemma_latest_unique(thread_key@, c, l as int, false);
                }
                Some(l)
            },
            None => {
                assert forall|k: int| !v.is_latest_exec(thread_key@, k, false) by {
                    if v.is_latest_exec(thread_key@, k, false) {
                        assert(v.executions[k].execution.thread_key == thread_key@);
                    }
                }
                None
            },
        }
    }

    /// True when event `p` is a lifecycle event of `key` for `sb`.
    fn lifecycle_event(&self, p: usize, key: &str, sb: &str) -> (r: bool)
        requires
            p < self@.events.len(),
        ensures
            r == is_lifecycle_event(self@.events[p as int], key@, sb@),
    {
        let e = &self.events[p];
        if !text_eq(e.thread_key.as_str(), key) {
            return false;
        }
        let t = e.event_type.as_str();
        if !(text_eq(t, "session.sandbox_paused") || text_eq(t, "session.sandbox_ready") || text_eq(
            t,
            "session.sandbox_resumed",
        )) {
            return false;
        }
        match text_member(&e.payload, "sandbox_id") {
            Some(id) => text_eq(id.as_str(), sb),
            None => false,
        }
    }

    /// True when the sandbox `sb` of thread `key` is paused.
    fn paused(&self, key: &str, sb: &str) -> (r: bool)
        requires
            self@.wf(),
        ensures
            r == self@.sandbox_paused(key@, sb@),
    {
        let ghost v = self@;
        let mut best: Option<usize> = None;
        let mut p: usize = 0;
        while p < self.events.len()
            invariant
                v == self@,
                v.wf(),
                p <= self.events.len(),
                v.events.len() == self.events.len(),
                match best {
                    Some(b) => b < p && is_lifecycle_event(v.events[b as int], key@, sb@) && forall|
                        q: int,
                    |
                        0 <= q < p && #[trigger] is_lifecycle_event(v.events[q], key@, sb@) ==> (
                        v.events[q].created_at < v.events[b as int].created_at || (
                        v.events[q].created_at == v.events[b as int].created_at
                            && v.events[q].event_id <= v.events[b as int].event_id)),
                    None => forall|q: int|
                        0 <= q < p ==> !#[trigger] is_lifecycle_event(v.events[q], key@, sb@),
                },
            decreases self.events.len() - p,
        {
            if self.lifecycle_event(p, key, sb) {
                let better = match best {
                    Some(b) => {
                        let eb = &self.events[b];
                        let ep = &self.events[p];
                        ep.created_at > eb.created_at || (ep.created_at == eb.created_at
                            && ep.event_id >= eb.event_id)
                    },
                    None => true,
                };
                if better {
                    best = Some(p);
                }
            }
            p = p + 1;
        }
        match best {
            Some(b) => {
                assert(v.latest_lifecycle(key@, sb@, b as int));
                proof {
                    assert forall|q: int| #[trigger] v.latest_lifecycle(key@, sb@, q) implies q
                        == b by {
                        if q != b as int {
                            if q < b {
                                assert(v.events[q].event_id < v.events[b as int].event_id);
                            } else {
                                assert(v.events[b as int].event_id < v.events[q].event_id);
                            }
                        }
                    }
                }
                text_eq(self.events[b].event_type.as_str(), "session.sandbox_paused")
            },
            None => {
                assert forall|q: int| !#[trigger] v.latest_lifecycle(key@, sb@, q) by {}
                false
            },
        }
    }

    /// When the sandbox of session `i` was last active.
    fn last_active(&self, i: usize) -> (r: i128)
        requires
            self@.wf(),
            i < self@.sessions.len(),
        ensures
            r == self@.last_active_at(i as int),
    {
        let s = &self.sessions[i].session;
        match s.sandbox_last_active_at {
            Some(t) => t,
            None => match self.latest_position(&s.thread_key) {
                Some(l) => match self.executions[l].execution.completed_at {
                    Some(c) => c,
                    None => s.updated_at,
                },
                None => s.updated_at,
            },
        }
    }

    /// True when session `i` may give up its sandbox.
    fn eligible(&self, i: usize, excluded: Option<&ThreadKey>, grace: u128, now: i128) -> (r: bool)
        requires
            self@.wf(),
            i < self@.sessions.len(),
        ensures
            r == self@.capacity_eligible(i as int, opt_key(excluded), now - grace),
    {
        let s = &self.sessions[i].session;
        let sb = match &s.sandbox_id {
            Some(sb) => sb,
            None => return false,
        };
        let is_excluded = match excluded {
            Some(k) => k.same(&s.thread_key),
            None => false,
        };
        if is_excluded {
            return false;
        }
        if self.paused(s.thread_key.as_str(), sb.as_str()) {
            return false;
        }
        if !elapsed_at_least(self.last_active(i), grace, now) {
            return false;
        }
        self.find_active(&s.thread_key).is_none()
    }

    /// The candidate session `i` gives.
    fn capacity_candidate(&self, i: usize) -> (r: SandboxCapacityCandidate)
        requires
            self@.wf(),
            i < self@.sessions.len(),
            self@.sessions[i as int].session.sandbox_id is Some,
        ensures
            capacity_view(r) == self@.capacity_candidate_of(i as int),
    {
        let s = &self.sessions[i].session;
        let latest_execution_id = match self.latest_position(&s.thread_key) {
            Some(l) => Some(self.executions[l].execution.execution_id.clone()),
            None => None,
        };
        let sandbox_id = match &s.sandbox_id {
            Some(sb) => sb.clone(),
            None => String::new(),
        };
        SandboxCapacityCandidate {
            thread_key: s.thread_key.duplicate(),
            sandbox_id,
            latest_execution_id,
            last_active_at: self.last_active(i),
        }
    }
}

/// The characters of an optional key.
pub open spec fn opt_key(k: Option<&ThreadKey>) -> Option<Seq<char>> {
    match k {
        Some(t) => Some(t@),
        None => None,
    }
}

/// True when `chosen` holds `i`.
fn holds(chosen: &Vec<usize>, i: usize) -> (r: bool)
    ensures
        r == chosen@.contains(i),
{
    let mut k: usize = 0;
    while k < chosen.len()
        invariant
            k <= chosen.len(),
            forall|j: int| 0 <= j < k ==> chosen@[j] != i,
        decreases chosen.len() - k,
    {
        if chosen[k] == i {
            return true;
        }
        k = k + 1;
    }
    false
}

impl SessionStore {
    /// The capacity sweep at `now`: up to `limit` sessions that may give up
    /// their sandbox (see `capacity_eligible`, with the cutoff
    /// `now - hot_idle_grace`), the longest inactive first, ties by thread
    /// key; every eligible session left out sorts after every listed one. A
    /// negative limit is refused.
    pub fn list_sandbox_capacity_candidates(
        &self,
        excluded_thread_key: Option<&ThreadKey>,
        hot_idle_grace: u128,
        limit: i64,
        now: i128,
    ) -> (r: Result<Vec<SandboxCapacityCandidate>, SessionStoreError>)
        requires
            self@.wf(),
        ensures
            limit < 0 ==> r is Err,
            limit >= 0 ==> (r matches Ok(v) && {
                let ex = opt_key(excluded_thread_key);
                let cutoff = now - hot_idle_grace;
                &&& v.len() <= limit
                &&& forall|k: int|
                    0 <= k < v.len() ==> self@.listed_from_eligible(#[trigger] v[k], ex, cutoff)
                &&& forall|a: int, b: int|
                    0 <= a < b < v.len() ==> v[a].thread_key@ != v[b].thread_key@ && key_lt(
                        v[a].last_active_at,
                        v[a].thread_key@,
                        v[b].last_active_at,
                        v[b].thread_key@,
                    )
                &&& forall|i: int|
                    #[trigger] self@.capacity_eligible(i, ex, cutoff) && !candidate_keys(v@).contains(
                        self@.sessions[i].session.thread_key,
                    ) ==> forall|k: int|
                        0 <= k < v.len() ==> key_lt(
                            v[k].last_active_at,
                            v[k].thread_key@,
                            self@.last_active_at(i),
                            self@.sessions[i].session.thread_key,
                        )
                &&& v.len() < limit ==> forall|i: int|
                    #[trigger] self@.capacity_eligible(i, ex, cutoff) ==> candidate_keys(
                        v@,
                    ).contains(self@.sessions[i].session.thread_key)
            }),
    {
        if limit < 0 {
            return Err(
                SessionStoreError::Sqlx(
                    DatabaseFailure::Other("LIMIT must not be negative".to_owned()),
                ),
            );
        }
        let ghost v = self@;
        let ghost ex = opt_key(excluded_thread_key);
        let ghost cutoff = now - hot_idle_grace;
        let mut pool: Vec<usize> = Vec::new();
        let mut i: usize = 0;
        while i < self.sessions.len()
            invariant
                v == self@,
                v.wf(),
                i <= self.sessions.len(),
                v.sessions.len() == self.sessions.len(),
                ex == opt_key(excluded_thread_key),
                cutoff == now - hot_idle_grace,
                forall|k: int| 0 <= k < pool.len() ==> v.capacity_eligible(#[trigger] pool@[k] as int, ex, cutoff) && pool@[k] < i,
                forall|j: int| 0 <= j < i && #[trigger] v.capacity_eligible(j, ex, cutoff) ==> pool@.contains(j as usize),
            decreases self.sessions.len() - i,
        {
            if self.eligible(i, excluded_thread_key, hot_idle_grace, now) {
                let ghost before = pool@;
                pool.push(i);
                assert forall|j: int| 0 <= j < i + 1 && #[trigger] v.capacity_eligible(j, ex, cutoff) implies pool@.contains(j as usize) by {
                    if j < i {
                        let k = choose|k: int| 0 <= k < before.len() && before[k] == j as usize;
                        assert(pool@[k] == j as usize);
                    } else {
                        assert(pool@[before.len() as int] == i);
                    }
                }
            }
            i = i + 1;
        }
        let mut chosen: Vec<usize> = Vec::new();
        let mut done = false;
        while !done && (chosen.len() as i64) < limit
            invariant
                v == self@,
                v.wf(),
                limit >= 0,
                chosen.len() <= limit,
                v.sessions.len() == self.sessions.len(),
                forall|k: int| 0 <= k < pool.len() ==> v.capacity_eligible(#[trigger] pool@[k] as int, ex, cutoff),
                forall|j: int| 0 <= j < v.sessions.len() && #[trigger] v.capacity_eligible(j, ex, cutoff) ==> pool@.contains(j as usize),
                forall|k: int| 0 <= k < chosen.len() ==> pool@.contains(#[trigger] chosen@[k]),
                forall|a: int, b: int| 0 <= a < b < chosen.len() ==> chosen@[a] != chosen@[b],
                forall|a: int, b: int| 0 <= a < b < chosen.len() ==> v.cap_before(chosen@[a] as int, chosen@[b] as int),
                forall|e: int, k: int| 0 <= e < pool.len() && !chosen@.contains(#[trigger] pool@[e]) && 0 <= k < chosen.len() ==> v.cap_before(#[trigger] chosen@[k] as int, pool@[e] as int),
                done ==> forall|e: int| 0 <= e < pool.len() ==> chosen@.contains(#[trigger] pool@[e]),
            decreases (if done { 0int } else { 1int }) + limit - chosen.len(),
        {
            let mut best: Option<usize> = None;
            let mut best_at: i128 = 0;
            let mut e: usize = 0;
            while e < pool.len()
                invariant
                    v == self@,
                    v.wf(),
                    e <= pool.len(),
                    v.sessions.len() == self.sessions.len(),
                    forall|k: int| 0 <= k < pool.len() ==> v.capacity_eligible(#[trigger] pool@[k] as int, ex, cutoff),
                    match best {
                        Some(b) => pool@.contains(b) && !chosen@.contains(b) && best_at == v.last_active_at(b as int)
                            && (b as int) < v.sessions.len()
                            && forall|j: int| 0 <= j < e && !chosen@.contains(#[trigger] pool@[j]) ==> pool@[j] == b || v.cap_before(b as int, pool@[j] as int),
                        None => forall|j: int| 0 <= j < e ==> chosen@.contains(#[trigger] pool@[j]),
                    },
                decreases pool.len() - e,
            {
                let candidate = pool[e];
                if !holds(&chosen, candidate) {
                    assert(v.capacity_eligible(pool@[e as int] as int, ex, cutoff));
                    let at = self.last_active(candidate);
                    let better = match best {
                        Some(b) => key_less(
                            at,
                            self.sessions[candidate].session.thread_key.as_str(),
                            best_at,
                            self.sessions[b].session.thread_key.as_str(),
                        ),
                        None => true,
                    };
                    let ghost old_best = best;
                    if better {
                        assert(pool@.contains(candidate)) by {
                            assert(pool@[e as int] == candidate);
                        }
                        best = Some(candidate);
                        best_at = at;
                        proof {
                            if let Some(b) = old_best {
                                assert forall|j: int| 0 <= j < e + 1 && !chosen@.contains(#[trigger] pool@[j]) implies pool@[j] == candidate || v.cap_before(candidate as int, pool@[j] as int) by {
                                    if pool@[j] != candidate && pool@[j] != b {
                                        let c = candidate as int;
                                        let x = pool@[j] as int;
                                        lemma_key_lt_transitive(
                                            v.last_active_at(c),
                                            v.sessions[c].session.thread_key,
                                            v.last_active_at(b as int),
                                            v.sessions[b as int].session.thread_key,
                                            v.last_active_at(x),
                                            v.sessions[x].session.thread_key,
                                        );
                                    }
                                }
                            }
                        }
                    } else {
                        proof {
                            if let Some(b) = old_best {
                                if candidate != b {
                                    lemma_text_lt_total(
                                        v.sessions[candidate as int].session.thread_key,
                                        v.sessions[b as int].session.thread_key,
                                    );
                                    assert(v.cap_before(b as int, candidate as int));
                                }
                            }
                        }
                    }
                }
                e = e + 1;
            }
            match best {
                Some(b) => {
                    let ghost old_chosen = chosen@;
                    chosen.push(b);
                    proof {
                        assert forall|x: usize| chosen@.contains(x) <==> (old_chosen.contains(x) || x == b) by {
                            if chosen@.contains(x) {
                                let k = choose|k: int| 0 <= k < chosen@.len() && chosen@[k] == x;
                                if k < old_chosen.len() {
                                    assert(old_chosen[k] == x);
                                }
                            }
                            if old_chosen.contains(x) {
                                let k = choose|k: int| 0 <= k < old_chosen.len() && old_chosen[k] == x;
                                assert(chosen@[k] == x);
                            }
                            if x == b {
                                assert(chosen@[old_chosen.len() as int] == b);
                            }
                        }
                        assert forall|k: int| 0 <= k < chosen.len() implies pool@.contains(#[trigger] chosen@[k]) by {
                            if k < old_chosen.len() {
                                assert(chosen@[k] == old_chosen[k]);
                            }
                        }
                        assert forall|a: int, c: int| 0 <= a < c < chosen.len() implies chosen@[a] != chosen@[c] by {
                            if c == old_chosen.len() {
                                assert(chosen@[a] == old_chosen[a]);
                                assert(old_chosen.contains(old_chosen[a]));
                            } else {
                                assert(chosen@[a] == old_chosen[a] && chosen@[c] == old_chosen[c]);
                            }
                        }
                        let kb = choose|k: int| 0 <= k < pool@.len() && pool@[k] == b;
                        assert forall|a: int, c: int| 0 <= a < c < chosen.len() implies v.cap_before(chosen@[a] as int, chosen@[c] as int) by {
                            if c == old_chosen.len() {
                                assert(chosen@[a] == old_chosen[a]);
                                assert(!old_chosen.contains(pool@[kb]));
                            } else {
                                assert(chosen@[a] == old_chosen[a] && chosen@[c] == old_chosen[c]);
                            }
                        }
                        assert forall|x: int, k: int| 0 <= x < pool.len() && !chosen@.contains(#[trigger] pool@[x]) && 0 <= k < chosen.len() implies v.cap_before(#[trigger] chosen@[k] as int, pool@[x] as int) by {
                            assert(!old_chosen.contains(pool@[x]));
                            assert(pool@[x] != b);
                            if k < old_chosen.len() {
                                assert(chosen@[k] == old_chosen[k]);
                            }
                        }
                    }
                },
                None => {
                    done = true;
                },
            }
        }
        let mut out: Vec<SandboxCapacityCandidate> = Vec::new();
        let mut k: usize = 0;
        while k < chosen.len()
            invariant
                v == self@,
                v.wf(),
                k <= chosen.len(),
                v.sessions.len() == self.sessions.len(),
                out.len() == k,
                forall|j: int| 0 <= j < pool.len() ==> v.capacity_eligible(#[trigger] pool@[j] as int, ex, cutoff),
                forall|j: int| 0 <= j < chosen.len() ==> pool@.contains(#[trigger] chosen@[j]),
                forall|j: int| 0 <= j < k ==> capacity_view(#[trigger] out@[j]) == v.capacity_candidate_of(chosen@[j] as int),
            decreases chosen.len() - k,
        {
            let idx = chosen[k];
            assert(pool@.contains(idx));
            proof {
                let j = choose|j: int| 0 <= j < pool@.len() && pool@[j] == idx;
                assert(v.capacity_eligible(pool@[j] as int, ex, cutoff));
            }
            let c = self.capacity_candidate(idx);
            out.push(c);
            k = k + 1;
        }
        proof {
            lemma_capacity_result(v, out@, chosen@, pool@, ex, cutoff, limit, done);
        }
        Ok(out)
    }
}

/// The selected candidates meet the sweep's contract.
proof fn lemma_capacity_result(
    v: StoreV,
    out: Seq<SandboxCapacityCandidate>,
    chosen: Seq<usize>,
    pool: Seq<usize>,
    ex: Option<Seq<char>>,
    cutoff: int,
    limit: i64,
    done: bool,
)
    requires
        v.wf(),
        v.sessions.len() <= usize::MAX,
        limit >= 0,
        chosen.len() <= limit,
        !(!done && chosen.len() < limit),
        out.len() == chosen.len(),
        forall|k: int| 0 <= k < pool.len() ==> v.capacity_eligible(#[trigger] pool[k] as int, ex, cutoff),
        forall|j: int| 0 <= j < v.sessions.len() && #[trigger] v.capacity_eligible(j, ex, cutoff) ==> pool.contains(j as usize),
        forall|k: int| 0 <= k < chosen.len() ==> pool.contains(#[trigger] chosen[k]),
        forall|a: int, b: int| 0 <= a < b < chosen.len() ==> chosen[a] != chosen[b],
        forall|a: int, b: int| 0 <= a < b < chosen.len() ==> v.cap_before(chosen[a] as int, chosen[b] as int),
        forall|e: int, k: int| 0 <= e < pool.len() && !chosen.contains(#[trigger] pool[e]) && 0 <= k < chosen.len() ==> v.cap_before(#[trigger] chosen[k] as int, pool[e] as int),
        done ==> forall|e: int| 0 <= e < pool.len() ==> chosen.contains(#[trigger] pool[e]),
        forall|j: int| 0 <= j < out.len() ==> capacity_view(#[trigger] out[j]) == v.capacity_candidate_of(chosen[j] as int),
    ensures
        out.len() <= limit,
        forall|k: int| 0 <= k < out.len() ==> v.listed_from_eligible(#[trigger] out[k], ex, cutoff),
        forall|a: int, b: int|
            0 <= a < b < out.len() ==> out[a].thread_key@ != out[b].thread_key@ && key_lt(
                out[a].last_active_at,
                out[a].thread_key@,
                out[b].last_active_at,
                out[b].thread_key@,
            ),
        forall|i: int|
            #[trigger] v.capacity_eligible(i, ex, cutoff) && !candidate_keys(out).contains(
                v.sessions[i].session.thread_key,
            ) ==> forall|k: int|
                0 <= k < out.len() ==> key_lt(
                    out[k].last_active_at,
                    out[k].thread_key@,
                    v.last_active_at(i),
                    v.sessions[i].session.thread_key,
                ),
        out.len() < limit ==> forall|i: int|
            #[trigger] v.capacity_eligible(i, ex, cutoff) ==> candidate_keys(out).contains(
                v.sessions[i].session.thread_key,
            ),
{
    assert forall|k: int| 0 <= k < out.len() implies v.listed_from_eligible(#[trigger] out[k], ex, cutoff) by {
        let j = choose|j: int| 0 <= j < pool.len() && pool[j] == chosen[k];
        let w = chosen[k] as int;
        assert(v.capacity_eligible(pool[j] as int, ex, cutoff));
        assert(v.capacity_eligible(w, ex, cutoff) && capacity_view(out[k]) == v.capacity_candidate_of(w));
    }
    assert forall|a: int, b: int| 0 <= a < b < out.len() implies out[a].thread_key@
        != out[b].thread_key@ && key_lt(
        out[a].last_active_at,
        out[a].thread_key@,
        out[b].last_active_at,
        out[b].thread_key@,
    ) by {
        assert(capacity_view(out[a]) == v.capacity_candidate_of(chosen[a] as int));
        assert(capacity_view(out[b]) == v.capacity_candidate_of(chosen[b] as int));
        assert(v.cap_before(chosen[a] as int, chosen[b] as int));
        let ja = choose|j: int| 0 <= j < pool.len() && pool[j] == chosen[a];
        let jb = choose|j: int| 0 <= j < pool.len() && pool[j] == chosen[b];
        assert(v.capacity_eligible(pool[ja] as int, ex, cutoff));
        assert(v.capacity_eligible(pool[jb] as int, ex, cutoff));
    }
    assert forall|i: int|
        #[trigger] v.capacity_eligible(i, ex, cutoff) && !candidate_keys(out).contains(
            v.sessions[i].session.thread_key,
        ) implies forall|k: int|
        0 <= k < out.len() ==> key_lt(
            out[k].last_active_at,
            out[k].thread_key@,
            v.last_active_at(i),
            v.sessions[i].session.thread_key,
        ) by {
        assert(pool.contains(i as usize));
        let e = choose|e: int| 0 <= e < pool.len() && pool[e] == i as usize;
        if chosen.contains(i as usize) {
            let k = choose|k: int| 0 <= k < chosen.len() && chosen[k] == i as usize;
            assert(chosen[k] as int == i);
            assert(capacity_view(out[k]) == v.capacity_candidate_of(chosen[k] as int));
            assert(candidate_keys(out)[k] == out[k].thread_key@);
            assert(candidate_keys(out)[k] == v.sessions[i].session.thread_key);
        }
        assert forall|k: int| 0 <= k < out.len() implies key_lt(
            out[k].last_active_at,
            out[k].thread_key@,
            v.last_active_at(i),
            v.sessions[i].session.thread_key,
        ) by {
            assert(capacity_view(out[k]) == v.capacity_candidate_of(chosen[k] as int));
            assert(!chosen.contains(pool[e]));
        }
    }
    if out.len() < limit {
        assert forall|i: int| #[trigger] v.capacity_eligible(i, ex, cutoff) implies candidate_keys(
            out,
        ).contains(v.sessions[i].session.thread_key) by {
            assert(pool.contains(i as usize));
            let e = choose|e: int| 0 <= e < pool.len() && pool[e] == i as usize;
            assert(chosen.contains(pool[e]));
            let k = choose|k: int| 0 <= k < chosen.len() && chosen[k] == i as usize;
            assert(chosen[k] as int == i);
            assert(capacity_view(out[k]) == v.capacity_candidate_of(chosen[k] as int));
            assert(candidate_keys(out)[k] == out[k].thread_key@);
            assert(candidate_keys(out)[k] == v.sessions[i].session.thread_key);
        }
    }
}

} // verus!

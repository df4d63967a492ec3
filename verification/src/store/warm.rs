//! The warm sandbox pool: insertion, oldest-first claims, atomic eviction
//! reservations that never take a claimed or bound sandbox, and failure
//! marking that a concurrent claim always wins over.
use vstd::prelude::*;

use super::{SessionStore, StoreV, WarmSandbox, WarmStatus, WarmV};
use crate::error::{DatabaseFailure, SessionStoreError};
use crate::order::{
    in_key_order, is_permutation, key_less, key_lt, lemma_key_lt_transitive,
    lemma_text_lt_total, sort_rows, KeyedRow,
};
use crate::types::{opt_as_str, opt_text_eq, text_eq};

verus! {

/// The characters of each text.
pub open spec fn ids_of(v: Seq<String>) -> Seq<Seq<char>> {
    v.map_values(|s: String| s@)
}

/// `w` in state `status`, touched at `now`.
pub open spec fn warm_moved(w: WarmV, status: WarmStatus, now: i128) -> WarmV {
    WarmV { status, updated_at: now, ..w }
}

impl StoreV {
    /// Some session is assigned sandbox `id`.
    pub open spec fn sandbox_bound(self, id: Seq<char>) -> bool {
        exists|i: int| 0 <= i < self.sessions.len() && self.sessions[i].session.sandbox_id == Some(id)
    }

    /// Warm sandbox `i` sorts before warm sandbox `j`: it was created
    /// earlier, or at the same time with a smaller sandbox id.
    pub open spec fn warm_before(self, i: int, j: int) -> bool {
        key_lt(
            self.warm[i].created_at,
            self.warm[i].sandbox_id,
            self.warm[j].created_at,
            self.warm[j].sandbox_id,
        )
    }

    /// Warm sandbox `i` is the oldest ready one built for `workload`: every
    /// other one ready for it was created later, or at the same time with a
    /// larger sandbox id.
    pub open spec fn is_oldest_ready(self, i: int, workload: Option<Seq<char>>) -> bool {
        &&& 0 <= i < self.warm.len()
        &&& self.warm[i].status == WarmStatus::Ready
        &&& (workload matches Some(k) ==> self.warm[i].workload_key == k)
        &&& forall|j: int|
            0 <= j < self.warm.len() && #[trigger] self.warm[j].status == WarmStatus::Ready && (
            workload matches Some(k) ==> self.warm[j].workload_key == k) ==> (i == j
                || self.warm_before(i, j))
    }

    /// One of the first `n` sessions is assigned sandbox `x`.
    pub open spec fn bound_before(self, x: Seq<char>, n: int) -> bool {
        exists|j: int| 0 <= j < n && self.sessions[j].session.sandbox_id == Some(x)
    }

    /// One of the first `n` warm sandboxes is `x` and has not failed.
    pub open spec fn live_warm_before(self, x: Seq<char>, n: int) -> bool {
        exists|j: int|
            0 <= j < n && self.warm[j].sandbox_id == x && self.warm[j].status != WarmStatus::Failed
    }

    pub proof fn lemma_bound_step(self, x: Seq<char>, n: int)
        requires
            0 <= n < self.sessions.len(),
        ensures
            self.bound_before(x, n + 1) == (self.bound_before(x, n)
                || self.sessions[n].session.sandbox_id == Some(x)),
    {
        if self.bound_before(x, n + 1) {
            let j = choose|j: int| 0 <= j < n + 1 && self.sessions[j].session.sandbox_id == Some(x);
            if j < n {
                assert(0 <= j < n && self.sessions[j].session.sandbox_id == Some(x));
            }
        }
        if self.bound_before(x, n) {
            let j = choose|j: int| 0 <= j < n && self.sessions[j].session.sandbox_id == Some(x);
            assert(0 <= j < n + 1 && self.sessions[j].session.sandbox_id == Some(x));
        }
        if self.sessions[n].session.sandbox_id == Some(x) {
            assert(0 <= n < n + 1 && self.sessions[n].session.sandbox_id == Some(x));
        }
    }

    pub proof fn lemma_live_warm_step(self, x: Seq<char>, n: int)
        requires
            0 <= n < self.warm.len(),
        ensures
            self.live_warm_before(x, n + 1) == (self.live_warm_before(x, n) || (
            self.warm[n].sandbox_id == x && self.warm[n].status != WarmStatus::Failed)),
    {
        if self.live_warm_before(x, n + 1) {
            let j = choose|j: int|
                0 <= j < n + 1 && self.warm[j].sandbox_id == x && self.warm[j].status
                    != WarmStatus::Failed;
            if j < n {
                assert(0 <= j < n && self.warm[j].sandbox_id == x && self.warm[j].status
                    != WarmStatus::Failed);
            }
        }
        if self.live_warm_before(x, n) {
            let j = choose|j: int|
                0 <= j < n && self.warm[j].sandbox_id == x && self.warm[j].status
                    != WarmStatus::Failed;
            assert(0 <= j < n + 1 && self.warm[j].sandbox_id == x && self.warm[j].status
                != WarmStatus::Failed);
        }
        if self.warm[n].sandbox_id == x && self.warm[n].status != WarmStatus::Failed {
            assert(0 <= n < n + 1 && self.warm[n].sandbox_id == x && self.warm[n].status
                != WarmStatus::Failed);
        }
    }

    /// Scanning warm sandbox `k` keeps the set of referenced ids exact.
    pub proof fn lemma_referenced_step(self, before: Seq<String>, after: Seq<String>, k: int)
        requires
            0 <= k < self.warm.len(),
            forall|x: Seq<char>|
                ids_of(before).contains(x) <==> (self.sandbox_bound(x) || self.live_warm_before(
                    x,
                    k,
                )),
            forall|x: Seq<char>|
                ids_of(after).contains(x) <==> (ids_of(before).contains(x) || (
                self.warm[k].status != WarmStatus::Failed && x == self.warm[k].sandbox_id)),
        ensures
            forall|x: Seq<char>|
                ids_of(after).contains(x) <==> (self.sandbox_bound(x) || self.live_warm_before(
                    x,
                    k + 1,
                )),
    {
        assert forall|x: Seq<char>|
            ids_of(after).contains(x) <==> (self.sandbox_bound(x) || self.live_warm_before(
                x,
                k + 1,
            )) by {
            self.lemma_live_warm_step(x, k);
            assert(ids_of(before).contains(x) <==> (self.sandbox_bound(x) || self.live_warm_before(
                x,
                k,
            )));
            assert(ids_of(after).contains(x) <==> (ids_of(before).contains(x) || (
            self.warm[k].status != WarmStatus::Failed && x == self.warm[k].sandbox_id)));
        }
    }

    /// The store with warm sandbox `w` appended.
    pub open spec fn with_new_warm(self, w: WarmV) -> StoreV {
        StoreV { warm: self.warm.push(w), ..self }
    }
}

/// Some pool row of `s` is sandbox `id`, ready, built for another workload
/// than `workload`, and assigned to no session.
pub open spec fn mismatch_row(s: StoreV, id: Seq<char>, workload: Seq<char>) -> bool {
    exists|i: int|
        0 <= i < s.warm.len() && #[trigger] s.warm[i].sandbox_id == id && s.warm[i].status
            == WarmStatus::Ready && s.warm[i].workload_key != workload && !s.sandbox_bound(id)
}

/// Some pool row of `s` is sandbox `id` and ready.
pub open spec fn ready_row(s: StoreV, id: Seq<char>) -> bool {
    exists|i: int|
        0 <= i < s.warm.len() && #[trigger] s.warm[i].sandbox_id == id && s.warm[i].status
            == WarmStatus::Ready
}

/// Wherever sandboxes `x` and `y` stand in the pool of `s`, `x` sorts
/// before `y`.
pub open spec fn warm_id_before(s: StoreV, x: Seq<char>, y: Seq<char>) -> bool {
    forall|i: int, j: int|
        0 <= i < s.warm.len() && 0 <= j < s.warm.len() && #[trigger] s.warm[i].sandbox_id == x
            && #[trigger] s.warm[j].sandbox_id == y ==> s.warm_before(i, j)
}

/// Ready sandboxes built for `workload`.
pub open spec fn ready_for(workload: Seq<char>) -> spec_fn(WarmV) -> bool {
    |w: WarmV| w.status == WarmStatus::Ready && w.workload_key == workload
}

/// Ready sandboxes.
pub open spec fn ready() -> spec_fn(WarmV) -> bool {
    |w: WarmV| w.status == WarmStatus::Ready
}

/// Evicting sandboxes untouched since `cutoff`.
pub open spec fn stale_evicting(cutoff: int) -> spec_fn(WarmV) -> bool {
    |w: WarmV| w.status == WarmStatus::Evicting && w.updated_at <= cutoff
}

/// The keys of pairs of a timestamp and a text.
pub open spec fn pair_keys(s: Seq<(i128, String)>) -> Seq<(i128, Seq<char>)> {
    s.map_values(|e: (i128, String)| (e.0, e.1@))
}

/// The keys ready sandboxes are listed by: when each was created, then its
/// id.
pub open spec fn created_keys(s: Seq<WarmV>) -> Seq<(i128, Seq<char>)> {
    s.map_values(|w: WarmV| (w.created_at, w.sandbox_id))
}

/// The keys evicting sandboxes are listed by: when each was last touched,
/// then its id.
pub open spec fn touched_keys(s: Seq<WarmV>) -> Seq<(i128, Seq<char>)> {
    s.map_values(|w: WarmV| (w.updated_at, w.sandbox_id))
}

impl KeyedRow for (i128, String) {
    open spec fn row_key(&self) -> (i128, Seq<char>) {
        (self.0, self.1@)
    }

    fn sorts_before(&self, other: &Self) -> (r: bool) {
        key_less(self.0, self.1.as_str(), other.0, other.1.as_str())
    }
}

/// The texts of `rows`, in the order of the keys they come with.
fn texts_in_key_order(rows: Vec<(i128, String)>) -> (r: Vec<String>)
    ensures
        r.len() == rows.len(),
        exists|p: Seq<usize>|
            #[trigger] in_key_order(p, pair_keys(rows@)) && forall|k: int|
                0 <= k < r.len() ==> r[k] == rows@[p[k] as int].1,
{
    let ghost found = rows@;
    let mut rest = sort_rows(rows);
    let ghost sorted = rest@;
    let ghost p = choose|p: Seq<usize>|
        #[trigger] is_permutation(p, found.len()) && forall|k: int|
            0 <= k < sorted.len() ==> sorted[k] == found[p[k] as int];
    let n = rest.len();
    let mut out: Vec<String> = Vec::new();
    let mut j: usize = 0;
    while j < n
        invariant
            n == sorted.len(),
            j <= n,
            rest@ == sorted.subrange(j as int, n as int),
            out.len() == j,
            forall|k: int| 0 <= k < j ==> #[trigger] out[k] == sorted[k].1,
        decreases n - j,
    {
        assert(rest@[0] == sorted[j as int]);
        let (_, text) = rest.remove(0);
        assert(rest@ =~= sorted.subrange(j + 1, n as int));
        out.push(text);
        j = j + 1;
    }
    proof {
        assert forall|k: int| 0 <= k < out.len() implies out[k] == found[p[k] as int].1 by {
            assert(sorted[k] == found[p[k] as int]);
        }
        assert forall|a: int, b: int| 0 <= a < b < p.len() implies !key_lt(
            pair_keys(found)[p[b] as int].0,
            pair_keys(found)[p[b] as int].1,
            pair_keys(found)[p[a] as int].0,
            pair_keys(found)[p[a] as int].1,
        ) by {
            assert(sorted[a] == found[p[a] as int] && sorted[b] == found[p[b] as int]);
            assert(!crate::order::row_lt(sorted[b], sorted[a]));
        }
        assert(in_key_order(p, pair_keys(found)));
    }
    out
}

impl SessionStore {
    /// True when some session is assigned sandbox `id`.
    fn is_bound(&self, id: &str) -> (r: bool)
        requires
            self@.wf(),
        ensures
            r == self@.sandbox_bound(id@),
    {
        let mut i: usize = 0;
        while i < self.sessions.len()
            invariant
                0 <= i <= self.sessions.len(),
                self@.sessions.len() == self.sessions.len(),
                forall|j: int| 0 <= j < i ==> self@.sessions[j].session.sandbox_id != Some(id@),
            decreases self.sessions.len() - i,
        {
            if opt_text_eq(opt_as_str(&self.sessions[i].session.sandbox_id), Some(id)) {
                assert(self@.sessions[i as int].session.sandbox_id == Some(id@));
                return true;
            }
            i = i + 1;
        }
        false
    }

    /// Adds a ready sandbox built for `workload_key` to the pool. A sandbox
    /// id already in the pool is refused.
    pub fn insert_ready_warm_sandbox(
        &mut self,
        sandbox_id: &str,
        workload_key: &str,
        now: i128,
    ) -> (r: Result<(), SessionStoreError>)
        requires
            old(self)@.wf(),
        ensures
            final(self)@.wf(),
            old(self)@.warm_pos(sandbox_id@) is Some ==> final(self)@ == old(self)@ && (r matches Err(
                e,
            ) && e matches SessionStoreError::Sqlx(DatabaseFailure::UniqueViolation)),
            old(self)@.warm_pos(sandbox_id@) is None ==> r is Ok && final(self)@ == old(
                self,
            )@.with_new_warm(
                WarmV {
                    sandbox_id: sandbox_id@,
                    workload_key: workload_key@,
                    status: WarmStatus::Ready,
                    claimed_thread_key: None,
                    claimed_at: None,
                    last_error: None,
                    created_at: now,
                    updated_at: now,
                },
            ),
    {
        if self.find_warm(sandbox_id).is_some() {
            return Err(SessionStoreError::Sqlx(DatabaseFailure::UniqueViolation));
        }
        let w = WarmSandbox {
            sandbox_id: sandbox_id.to_owned(),
            workload_key: workload_key.to_owned(),
            status: WarmStatus::Ready,
            claimed_thread_key: None,
            claimed_at: None,
            last_error: None,
            created_at: now,
            updated_at: now,
        };
        let ghost before = self@;
        self.warm.push(w);
        assert(self@.warm =~= before.with_new_warm(w@).warm);
        assert forall|i: int, j: int|
            0 <= i < self@.warm.len() && 0 <= j < self@.warm.len() && i != j
                implies self@.warm[i].sandbox_id != self@.warm[j].sandbox_id by {
            if i == before.warm.len() {
                assert(before.warm[j].sandbox_id != sandbox_id@);
            } else if j == before.warm.len() {
                assert(before.warm[i].sandbox_id != sandbox_id@);
            }
        }
        Ok(())
    }

    /// How many ready sandboxes are built for `workload_key`.
    pub fn count_ready_warm_sandboxes(&self, workload_key: &str) -> (r: i64)
        requires
            self@.wf(),
            self@.warm.len() <= i64::MAX,
        ensures
            r == self@.warm.filter(ready_for(workload_key@)).len(),
    {
        let mut count: i64 = 0;
        let mut i: usize = 0;
        while i < self.warm.len()
            invariant
                0 <= i <= self.warm.len(),
                self@.warm.len() == self.warm.len(),
                self@.warm.len() <= i64::MAX,
                count == self@.warm.subrange(0, i as int).filter(ready_for(workload_key@)).len(),
                count <= i,
            decreases self.warm.len() - i,
        {
            let ghost pre = self@.warm.subrange(0, i as int);
            let ghost w = self@.warm[i as int];
            assert(self@.warm.subrange(0, i + 1) =~= pre.push(w));
            proof {
                pre.lemma_filter_push(w, ready_for(workload_key@));
            }
            if self.warm[i].status == WarmStatus::Ready && text_eq(
                self.warm[i].workload_key.as_str(),
                workload_key,
            ) {
                count = count + 1;
            }
            i = i + 1;
        }
        assert(self@.warm.subrange(0, self.warm.len() as int) =~= self@.warm);
        count
    }

    /// The ids of the ready sandboxes, oldest first, ties by sandbox id.
    pub fn list_ready_warm_sandbox_ids(&self) -> (r: Vec<String>)
        requires
            self@.wf(),
        ensures
            r.len() == self@.warm.filter(ready()).len(),
            exists|p: Seq<usize>|
                #[trigger] in_key_order(p, created_keys(self@.warm.filter(ready()))) && forall|k: int|
                    0 <= k < r.len() ==> (#[trigger] r[k])@ == self@.warm.filter(ready())[p[k] as int].sandbox_id,
    {
        let mut out: Vec<(i128, String)> = Vec::new();
        let mut i: usize = 0;
        while i < self.warm.len()
            invariant
                0 <= i <= self.warm.len(),
                self@.warm.len() == self.warm.len(),
                out.len() == self@.warm.subrange(0, i as int).filter(ready()).len(),
                forall|k: int|
                    0 <= k < out.len() ==> (#[trigger] out[k]).1@ == self@.warm.subrange(
                        0,
                        i as int,
                    ).filter(ready())[k].sandbox_id && out[k].0 == self@.warm.subrange(
                        0,
                        i as int,
                    ).filter(ready())[k].created_at,
            decreases self.warm.len() - i,
        {
            let ghost pre = self@.warm.subrange(0, i as int);
            let ghost w = self@.warm[i as int];
            assert(self@.warm.subrange(0, i + 1) =~= pre.push(w));
            proof {
                pre.lemma_filter_push(w, ready());
            }
            if self.warm[i].status == WarmStatus::Ready {
                out.push((self.warm[i].created_at, self.warm[i].sandbox_id.clone()));
            }
            i = i + 1;
        }
        assert(self@.warm.subrange(0, self.warm.len() as int) =~= self@.warm);
        let ghost found = out@;
        let r = texts_in_key_order(out);
        proof {
            let f = self@.warm.filter(ready());
            assert(pair_keys(found) =~= created_keys(f));
            let p = choose|p: Seq<usize>|
                #[trigger] in_key_order(p, pair_keys(found)) && forall|k: int|
                    0 <= k < r.len() ==> r[k] == found[p[k] as int].1;
            assert forall|k: int| 0 <= k < r.len() implies (#[trigger] r[k])@ == f[p[k] as int].sandbox_id by {
                assert(r[k] == found[p[k] as int].1);
            }
        }
        r
    }

    /// The oldest ready sandbox, built for `workload_key` when given.
    fn oldest_ready(&self, workload_key: Option<&str>) -> (r: Option<usize>)
        requires
            self@.wf(),
        ensures
            match r {
                Some(i) => self@.is_oldest_ready(
                    i as int,
                    crate::types::opt_view(workload_key),
                ),
                None => forall|j: int|
                    0 <= j < self@.warm.len() && #[trigger] self@.warm[j].status
                        == WarmStatus::Ready ==> (workload_key matches Some(k)
                        && self@.warm[j].workload_key != k@),
            },
    {
        let ghost wk = crate::types::opt_view(workload_key);
        let mut best: Option<usize> = None;
        let mut i: usize = 0;
        while i < self.warm.len()
            invariant
                0 <= i <= self.warm.len(),
                self@.wf(),
                self@.warm.len() == self.warm.len(),
                wk == crate::types::opt_view(workload_key),
                match best {
                    Some(b) => {
                        &&& b < i
                        &&& self@.warm[b as int].status == WarmStatus::Ready
                        &&& (wk matches Some(k) ==> self@.warm[b as int].workload_key == k)
                        &&& forall|j: int|
                            0 <= j < i && #[trigger] self@.warm[j].status == WarmStatus::Ready && (
                            wk matches Some(k) ==> self@.warm[j].workload_key == k) ==> (b == j
                                || self@.warm_before(b as int, j))
                    },
                    None => forall|j: int|
                        0 <= j < i && #[trigger] self@.warm[j].status == WarmStatus::Ready ==> (
                        workload_key matches Some(k) && self@.warm[j].workload_key != k@),
                },
            decreases self.warm.len() - i,
        {
            let w = &self.warm[i];
            let fits = w.status == WarmStatus::Ready && match workload_key {
                Some(k) => text_eq(w.workload_key.as_str(), k),
                None => true,
            };
            if fits {
                match best {
                    Some(b) => {
                        let ghost v = self@;
                        if key_less(
                            w.created_at,
                            w.sandbox_id.as_str(),
                            self.warm[b].created_at,
                            self.warm[b].sandbox_id.as_str(),
                        ) {
                            best = Some(i);
                            assert forall|j: int|
                                0 <= j < i + 1 && #[trigger] v.warm[j].status == WarmStatus::Ready
                                    && (wk matches Some(k) ==> v.warm[j].workload_key == k) implies (
                            i == j || v.warm_before(i as int, j)) by {
                                if j != i && j != b {
                                    lemma_key_lt_transitive(
                                        v.warm[i as int].created_at,
                                        v.warm[i as int].sandbox_id,
                                        v.warm[b as int].created_at,
                                        v.warm[b as int].sandbox_id,
                                        v.warm[j].created_at,
                                        v.warm[j].sandbox_id,
                                    );
                                }
                            }
                        } else {
                            proof {
                                assert(v.warm[i as int].sandbox_id != v.warm[b as int].sandbox_id);
                                lemma_text_lt_total(
                                    v.warm[i as int].sandbox_id,
                                    v.warm[b as int].sandbox_id,
                                );
                            }
                            assert(v.warm_before(b as int, i as int));
                        }
                    },
                    None => {
                        best = Some(i);
                    },
                }
            }
            i = i + 1;
        }
        best
    }

    /// Claims the oldest ready sandbox built for `workload_key` for thread
    /// `thread_key`, or `None` when there is none.
    pub fn claim_ready_warm_sandbox(&mut self, workload_key: &str, thread_key: &str, now: i128) -> (r:
        Option<String>)
        requires
            old(self)@.wf(),
        ensures
            final(self)@.wf(),
            match r {
                Some(id) => exists|i: int|
                    #[trigger] old(self)@.is_oldest_ready(i, Some(workload_key@)) && id@ == old(
                        self,
                    )@.warm[i].sandbox_id && final(self)@ == old(self)@.with_warm(
                        i,
                        WarmV {
                            status: WarmStatus::Claimed,
                            claimed_thread_key: Some(thread_key@),
                            claimed_at: Some(now),
                            updated_at: now,
                            ..old(self)@.warm[i]
                        },
                    ),
                None => final(self)@ == old(self)@ && forall|j: int|
                    0 <= j < old(self)@.warm.len() ==> !#[trigger] ready_for(workload_key@)(
                        old(self)@.warm[j],
                    ),
            },
    {
        match self.oldest_ready(Some(workload_key)) {
            Some(i) => {
                let w = &self.warm[i];
                let claimed = WarmSandbox {
                    sandbox_id: w.sandbox_id.clone(),
                    workload_key: w.workload_key.clone(),
                    status: WarmStatus::Claimed,
                    claimed_thread_key: Some(thread_key.to_owned()),
                    claimed_at: Some(now),
                    last_error: crate::types::opt_clone(&w.last_error),
                    created_at: w.created_at,
                    updated_at: now,
                };
                let id = w.sandbox_id.clone();
                self.put_warm(i, claimed);
                Some(id)
            },
            None => {
                proof {
                    assert forall|j: int| 0 <= j < old(self)@.warm.len() implies !#[trigger] ready_for(
                        workload_key@,
                    )(old(self)@.warm[j]) by {
                        if old(self)@.warm[j].status == WarmStatus::Ready {
                        }
                    }
                }
                None
            },
        }
    }

    /// Moves warm sandbox `i` to `status` at `now`.
    fn move_warm(&mut self, i: usize, status: WarmStatus, now: i128)
        requires
            old(self)@.wf(),
            i < old(self)@.warm.len(),
        ensures
            final(self)@.wf(),
            final(self)@ == old(self)@.with_warm(
                i as int,
                warm_moved(old(self)@.warm[i as int], status, now),
            ),
    {
        let w = &self.warm[i];
        let moved = WarmSandbox {
            sandbox_id: w.sandbox_id.clone(),
            workload_key: w.workload_key.clone(),
            status,
            claimed_thread_key: crate::types::opt_clone(&w.claimed_thread_key),
            claimed_at: w.claimed_at,
            last_error: crate::types::opt_clone(&w.last_error),
            created_at: w.created_at,
            updated_at: now,
        };
        self.put_warm(i, moved);
    }

    /// Reserves for eviction, in one step, every ready sandbox built for a
    /// workload other than `workload_key` that no session is assigned.
    /// Claimed or bound sandboxes are never returned. The reserved ids are
    /// returned in pool order.
    pub fn reserve_ready_warm_sandboxes_for_workload_mismatch(&mut self, workload_key: &str, now: i128) -> (r:
        Vec<String>)
        requires
            old(self)@.wf(),
        ensures
            final(self)@.wf(),
            final(self)@.warm.len() == old(self)@.warm.len(),
            final(self)@ == (StoreV { warm: final(self)@.warm, ..old(self)@ }),
            forall|a: int, b: int| 0 <= a < b < r.len() ==> r[a]@ != r[b]@,
            forall|k: int| 0 <= k < r.len() ==> mismatch_row(old(self)@, #[trigger] r[k]@, workload_key@),
            forall|i: int|
                0 <= i < old(self)@.warm.len() ==> {
                    let w = #[trigger] old(self)@.warm[i];
                    if w.status == WarmStatus::Ready && w.workload_key != workload_key@ && !old(
                        self,
                    )@.sandbox_bound(w.sandbox_id) {
                        &&& final(self)@.warm[i] == warm_moved(w, WarmStatus::Evicting, now)
                        &&& ids_of(r@).contains(w.sandbox_id)
                    } else {
                        &&& final(self)@.warm[i] == w
                        &&& !ids_of(r@).contains(w.sandbox_id)
                    }
                },
    {
        let ghost before = self@;
        let mut out: Vec<String> = Vec::new();
        let mut i: usize = 0;
        while i < self.warm.len()
            invariant
                0 <= i <= self.warm.len(),
                self@.wf(),
                self@.warm.len() == self.warm.len(),
                self@.warm.len() == before.warm.len(),
                self@ == (StoreV { warm: self@.warm, ..before }),
                forall|j: int| i <= j < self@.warm.len() ==> self@.warm[j] == before.warm[j],
                forall|j: int|
                    0 <= j < i ==> {
                        let w = #[trigger] before.warm[j];
                        if w.status == WarmStatus::Ready && w.workload_key != workload_key@
                            && !before.sandbox_bound(w.sandbox_id) {
                            &&& self@.warm[j] == warm_moved(w, WarmStatus::Evicting, now)
                            &&& ids_of(out@).contains(w.sandbox_id)
                        } else {
                            &&& self@.warm[j] == w
                            &&& !ids_of(out@).contains(w.sandbox_id)
                        }
                    },
                forall|k: int|
                    #![trigger out@[k]]
                    0 <= k < out.len() ==> exists|j: int|
                        0 <= j < i && #[trigger] before.warm[j].sandbox_id == out@[k]@,
                before.wf(),
                forall|a: int, b: int| 0 <= a < b < out.len() ==> out@[a]@ != out@[b]@,
            decreases self.warm.len() - i,
        {
            let ghost out_before = out@;
            assert(self@.warm[i as int] == before.warm[i as int]);
            let take = self.warm[i].status == WarmStatus::Ready && !text_eq(
                self.warm[i].workload_key.as_str(),
                workload_key,
            ) && !self.is_bound(self.warm[i].sandbox_id.as_str());
            if take {
                out.push(self.warm[i].sandbox_id.clone());
                self.move_warm(i, WarmStatus::Evicting, now);
                assert(ids_of(out@) =~= ids_of(out_before).push(before.warm[i as int].sandbox_id));
                assert forall|a: int, b: int| 0 <= a < b < out.len() implies out@[a]@ != out@[b]@ by {
                    if b == out_before.len() {
                        assert(out@[a] == out_before[a]);
                        let j = choose|j: int| 0 <= j < i && before.warm[j].sandbox_id == out_before[a]@;
                        assert(before.warm[j].sandbox_id != before.warm[i as int].sandbox_id);
                    } else {
                        assert(out@[a] == out_before[a] && out@[b] == out_before[b]);
                    }
                }
            }
            proof {
                assert forall|j: int| 0 <= j < i implies {
                    let w = #[trigger] before.warm[j];
                    if w.status == WarmStatus::Ready && w.workload_key != workload_key@
                        && !before.sandbox_bound(w.sandbox_id) {
                        &&& self@.warm[j] == warm_moved(w, WarmStatus::Evicting, now)
                        &&& ids_of(out@).contains(w.sandbox_id)
                    } else {
                        &&& self@.warm[j] == w
                        &&& !ids_of(out@).contains(w.sandbox_id)
                    }
                } by {
                    let w = before.warm[j];
                    if take {
                        assert(w.sandbox_id != before.warm[i as int].sandbox_id);
                        if ids_of(out_before).contains(w.sandbox_id) {
                            let m = ids_of(out_before).index_of(w.sandbox_id);
                            assert(ids_of(out@)[m] == w.sandbox_id);
                        }
                        if ids_of(out@).contains(w.sandbox_id) {
                            let m = ids_of(out@).index_of(w.sandbox_id);
                            if m < out_before.len() {
                                assert(ids_of(out_before)[m] == w.sandbox_id);
                            }
                        }
                    }
                }
                if !take {
                    let w = before.warm[i as int];
                    if ids_of(out@).contains(w.sandbox_id) {
                        let m = ids_of(out@).index_of(w.sandbox_id);
                        let j = choose|j: int| 0 <= j < i && before.warm[j].sandbox_id == out@[m]@;
                        assert(before.warm[j].sandbox_id == w.sandbox_id);
                    }
                } else {
                    assert(ids_of(out@)[out@.len() - 1] == before.warm[i as int].sandbox_id);
                }
                assert forall|k: int| #![trigger out@[k]] 0 <= k < out.len() implies exists|j: int|
                    0 <= j < i + 1 && #[trigger] before.warm[j].sandbox_id == out@[k]@ by {
                    if k < out_before.len() {
                        let j = choose|j: int| 0 <= j < i && before.warm[j].sandbox_id == out@[k]@;
                        assert(before.warm[j].sandbox_id == out@[k]@);
                    } else {
                        assert(before.warm[i as int].sandbox_id == out@[k]@);
                    }
                }
            }
            i = i + 1;
        }
        assert forall|k: int| 0 <= k < out.len() implies mismatch_row(before, #[trigger] out@[k]@, workload_key@) by {
            let j = choose|j: int| 0 <= j < self@.warm.len() && #[trigger] before.warm[j].sandbox_id == out@[k]@;
            assert(ids_of(out@)[k] == out@[k]@);
            assert(ids_of(out@).contains(before.warm[j].sandbox_id));
        }
        out
    }

    /// Reserves for eviction the `limit` oldest ready sandboxes (ties by
    /// sandbox id), or all of them when there are fewer, returning their ids
    /// oldest first. A negative limit is refused, as the database refuses
    /// it.
    pub fn reserve_ready_warm_sandboxes_for_eviction(&mut self, limit: i64, now: i128) -> (r: Result<
        Vec<String>,
        SessionStoreError,
    >)
        requires
            old(self)@.wf(),
        ensures
            final(self)@.wf(),
            limit < 0 ==> final(self)@ == old(self)@ && r is Err,
            limit >= 0 ==> (r matches Ok(v) && {
                &&& v.len() <= limit
                &&& forall|a: int, b: int| 0 <= a < b < v.len() ==> v[a]@ != v[b]@
                &&& forall|k: int| 0 <= k < v.len() ==> ready_row(old(self)@, #[trigger] v[k]@)
                &&& final(self)@.warm.len() == old(self)@.warm.len()
                &&& final(self)@ == (StoreV { warm: final(self)@.warm, ..old(self)@ })
                &&& forall|i: int|
                    0 <= i < old(self)@.warm.len() ==> {
                        let w = #[trigger] old(self)@.warm[i];
                        if ids_of(v@).contains(w.sandbox_id) {
                            w.status == WarmStatus::Ready && final(self)@.warm[i] == warm_moved(
                                w,
                                WarmStatus::Evicting,
                                now,
                            )
                        } else {
                            final(self)@.warm[i] == w
                        }
                    }
                &&& forall|i: int, j: int|
                    0 <= i < old(self)@.warm.len() && 0 <= j < old(self)@.warm.len()
                        && ids_of(v@).contains(#[trigger] old(self)@.warm[i].sandbox_id)
                        && old(self)@.warm[j].status == WarmStatus::Ready && !ids_of(v@).contains(
                        #[trigger] old(self)@.warm[j].sandbox_id,
                    ) ==> old(self)@.warm_before(i, j)
                &&& forall|a: int, b: int|
                    0 <= a < b < v.len() ==> warm_id_before(old(self)@, #[trigger] v[a]@, #[trigger] v[b]@)
                &&& v.len() < limit ==> forall|j: int|
                    0 <= j < old(self)@.warm.len() && #[trigger] old(self)@.warm[j].status
                        == WarmStatus::Ready ==> ids_of(v@).contains(old(self)@.warm[j].sandbox_id)
            }),
    {
        if limit < 0 {
            return Err(
                SessionStoreError::Sqlx(
                    DatabaseFailure::Other("LIMIT must not be negative".to_owned()),
                ),
            );
        }
        let ghost before = self@;
        let mut out: Vec<String> = Vec::new();
        let mut done = false;
        while !done && (out.len() as i64) < limit
            invariant
                self@.wf(),
                limit >= 0,
                out.len() <= limit,
                forall|a: int, b: int| 0 <= a < b < out.len() ==> out[a]@ != out[b]@,
                forall|k: int| 0 <= k < out.len() ==> ready_row(before, #[trigger] out@[k]@),
                self@.warm.len() == before.warm.len(),
                self@ == (StoreV { warm: self@.warm, ..before }),
                forall|i: int|
                    0 <= i < before.warm.len() ==> {
                        let w = #[trigger] before.warm[i];
                        if ids_of(out@).contains(w.sandbox_id) {
                            w.status == WarmStatus::Ready && self@.warm[i] == warm_moved(
                                w,
                                WarmStatus::Evicting,
                                now,
                            )
                        } else {
                            self@.warm[i] == w
                        }
                    },
                forall|i: int, j: int|
                    0 <= i < before.warm.len() && 0 <= j < before.warm.len() && ids_of(
                        out@,
                    ).contains(#[trigger] before.warm[i].sandbox_id) && before.warm[j].status
                        == WarmStatus::Ready && !ids_of(out@).contains(
                        #[trigger] before.warm[j].sandbox_id,
                    ) ==> before.warm_before(i, j),
                forall|a: int, b: int|
                    0 <= a < b < out.len() ==> warm_id_before(before, #[trigger] out@[a]@, #[trigger] out@[b]@),
                done ==> forall|j: int|
                    0 <= j < before.warm.len() && #[trigger] before.warm[j].status
                        == WarmStatus::Ready ==> ids_of(out@).contains(before.warm[j].sandbox_id),
            decreases (if done { 0int } else { 1int }) + limit - out.len(),
        {
            match self.oldest_ready(None) {
                Some(i) => {
                    let ghost out_before = out@;
                    let ghost cur = self@;
                    let ghost chosen = before.warm[i as int];
                    assert(!ids_of(out_before).contains(chosen.sandbox_id)) by {
                        if ids_of(out_before).contains(chosen.sandbox_id) {
                            assert(cur.warm[i as int].status == WarmStatus::Evicting);
                        }
                    }
                    assert(cur.warm[i as int] == chosen);
                    out.push(self.warm[i].sandbox_id.clone());
                    self.move_warm(i, WarmStatus::Evicting, now);
                    proof {
                        assert(ids_of(out@) =~= ids_of(out_before).push(chosen.sandbox_id));
                        assert(cur.warm[i as int].status == WarmStatus::Ready);
                        assert forall|k: int| 0 <= k < out.len() implies ready_row(before, #[trigger] out@[k]@) by {
                            if k < out_before.len() {
                                assert(out@[k] == out_before[k]);
                            } else {
                                assert(before.warm[i as int].sandbox_id == out@[k]@);
                            }
                        }
                        assert forall|a: int, b: int| 0 <= a < b < out.len() implies out[a]@
                            != out[b]@ by {
                            if b == out.len() - 1 {
                                assert(ids_of(out_before)[a] == out[a]@);
                            } else {
                                assert(out[a] == out_before[a] && out[b] == out_before[b]);
                            }
                        }
                        assert forall|x: Seq<char>|
                            ids_of(out@).contains(x) <==> (ids_of(out_before).contains(x) || x
                                == chosen.sandbox_id) by {
                            lemma_push_contains(ids_of(out_before), chosen.sandbox_id, x);
                        }
                        assert forall|m: int|
                            0 <= m < before.warm.len() implies {
                            let w = #[trigger] before.warm[m];
                            if ids_of(out@).contains(w.sandbox_id) {
                                w.status == WarmStatus::Ready && self@.warm[m] == warm_moved(
                                    w,
                                    WarmStatus::Evicting,
                                    now,
                                )
                            } else {
                                self@.warm[m] == w
                            }
                        } by {
                            let w = before.warm[m];
                            if m != i {
                                assert(w.sandbox_id != chosen.sandbox_id);
                            }
                        }
                        assert forall|a: int, b: int|
                            0 <= a < before.warm.len() && 0 <= b < before.warm.len() && ids_of(
                                out@,
                            ).contains(#[trigger] before.warm[a].sandbox_id)
                                && before.warm[b].status == WarmStatus::Ready && !ids_of(
                                out@,
                            ).contains(#[trigger] before.warm[b].sandbox_id) implies before.warm_before(
                            a,
                            b,
                        ) by {
                            let wb = before.warm[b];
                            assert(!ids_of(out_before).contains(wb.sandbox_id));
                            assert(cur.warm[b] == wb);
                            if a != i {
                                assert(before.warm[a].sandbox_id != chosen.sandbox_id);
                                assert(ids_of(out_before).contains(before.warm[a].sandbox_id));
                            } else {
                                assert(cur.warm[b].status == WarmStatus::Ready);
                            }
                        }
                        assert forall|a: int, b: int|
                            0 <= a < b < out.len() implies warm_id_before(
                            before,
                            #[trigger] out@[a]@,
                            #[trigger] out@[b]@,
                        ) by {
                            if b < out_before.len() {
                                assert(out@[a] == out_before[a] && out@[b] == out_before[b]);
                            } else {
                                assert(out@[a] == out_before[a]);
                                assert(out@[b]@ == chosen.sandbox_id);
                                assert(ids_of(out_before)[a] == out@[a]@);
                                assert forall|x: int, y: int|
                                    0 <= x < before.warm.len() && 0 <= y < before.warm.len()
                                        && before.warm[x].sandbox_id == out@[a]@
                                        && before.warm[y].sandbox_id == out@[b]@ implies before.warm_before(
                                    x,
                                    y,
                                ) by {
                                    assert(y == i);
                                    assert(ids_of(out_before).contains(before.warm[x].sandbox_id));
                                    assert(ids_of(out@).contains(before.warm[x].sandbox_id));
                                    assert(!ids_of(out_before).contains(before.warm[y].sandbox_id));
                                    assert(cur.warm[y].status == WarmStatus::Ready);
                                    assert(cur.warm[x].status == WarmStatus::Evicting);
                                }
                            }
                        }
                    }
                },
                None => {
                    proof {
                        assert forall|j: int|
                            0 <= j < before.warm.len() && #[trigger] before.warm[j].status
                                == WarmStatus::Ready implies ids_of(out@).contains(
                            before.warm[j].sandbox_id,
                        ) by {
                            if !ids_of(out@).contains(before.warm[j].sandbox_id) {
                                assert(self@.warm[j].status == WarmStatus::Ready);
                            }
                        }
                    }
                    done = true;
                },
            }
        }
        Ok(out)
    }

    /// The ids of evicting sandboxes untouched for at least `min_age`
    /// nanoseconds at `now`, least recently touched first, ties by sandbox
    /// id.
    pub fn list_stale_evicting_warm_sandbox_ids(&self, min_age: u128, now: i128) -> (r: Vec<String>)
        requires
            self@.wf(),
        ensures
            r.len() == self@.warm.filter(stale_evicting(now - min_age)).len(),
            exists|p: Seq<usize>|
                #[trigger] in_key_order(p, touched_keys(self@.warm.filter(stale_evicting(now - min_age))))
                    && forall|k: int|
                    0 <= k < r.len() ==> (#[trigger] r[k])@ == self@.warm.filter(
                        stale_evicting(now - min_age),
                    )[p[k] as int].sandbox_id,
    {
        let ghost pred = stale_evicting(now - min_age);
        let mut out: Vec<(i128, String)> = Vec::new();
        let mut i: usize = 0;
        while i < self.warm.len()
            invariant
                pred == stale_evicting(now - min_age),
                0 <= i <= self.warm.len(),
                self@.warm.len() == self.warm.len(),
                out.len() == self@.warm.subrange(0, i as int).filter(pred).len(),
                forall|k: int|
                    0 <= k < out.len() ==> (#[trigger] out[k]).1@ == self@.warm.subrange(
                        0,
                        i as int,
                    ).filter(pred)[k].sandbox_id && out[k].0 == self@.warm.subrange(
                        0,
                        i as int,
                    ).filter(pred)[k].updated_at,
            decreases self.warm.len() - i,
        {
            let ghost pre = self@.warm.subrange(0, i as int);
            let ghost w = self@.warm[i as int];
            assert(self@.warm.subrange(0, i + 1) =~= pre.push(w));
            proof {
                pre.lemma_filter_push(w, pred);
            }
            let wi = &self.warm[i];
            let stale = wi.status == WarmStatus::Evicting && crate::lease::elapsed_at_least(wi.updated_at, min_age, now);
            if stale {
                out.push((wi.updated_at, wi.sandbox_id.clone()));
            }
            i = i + 1;
        }
        assert(self@.warm.subrange(0, self.warm.len() as int) =~= self@.warm);
        let ghost found = out@;
        let r = texts_in_key_order(out);
        proof {
            let f = self@.warm.filter(pred);
            assert(pair_keys(found) =~= touched_keys(f));
            let p = choose|p: Seq<usize>|
                #[trigger] in_key_order(p, pair_keys(found)) && forall|k: int|
                    0 <= k < r.len() ==> r[k] == found[p[k] as int].1;
            assert forall|k: int| 0 <= k < r.len() implies (#[trigger] r[k])@ == f[p[k] as int].sandbox_id by {
                assert(r[k] == found[p[k] as int].1);
            }
        }
        r
    }

    /// Marks sandbox `sandbox_id` failed with `error`, whatever its state.
    pub fn mark_warm_sandbox_failed(&mut self, sandbox_id: &str, error: &str, now: i128)
        requires
            old(self)@.wf(),
        ensures
            final(self)@.wf(),
            match old(self)@.warm_pos(sandbox_id@) {
                Some(i) => final(self)@ == old(self)@.with_warm(
                    i,
                    WarmV {
                        status: WarmStatus::Failed,
                        last_error: Some(error@),
                        updated_at: now,
                        ..old(self)@.warm[i]
                    },
                ),
                None => final(self)@ == old(self)@,
            },
    {
        match self.find_warm(sandbox_id) {
            Some(i) => {
                let w = &self.warm[i];
                let failed = WarmSandbox {
                    sandbox_id: w.sandbox_id.clone(),
                    workload_key: w.workload_key.clone(),
                    status: WarmStatus::Failed,
                    claimed_thread_key: crate::types::opt_clone(&w.claimed_thread_key),
                    claimed_at: w.claimed_at,
                    last_error: Some(error.to_owned()),
                    created_at: w.created_at,
                    updated_at: now,
                };
                self.put_warm(i, failed);
            },
            None => {},
        }
    }

    /// Marks sandbox `sandbox_id` failed only while it is still ready,
    /// unclaimed and assigned to no session: a concurrent claim always wins
    /// over a stale probe result.
    pub fn mark_ready_warm_sandbox_failed_if_unclaimed(&mut self, sandbox_id: &str, error: &str, now: i128) -> (r:
        bool)
        requires
            old(self)@.wf(),
        ensures
            final(self)@.wf(),
            match old(self)@.warm_pos(sandbox_id@) {
                Some(i) => {
                    let w = old(self)@.warm[i];
                    if w.status == WarmStatus::Ready && w.claimed_thread_key is None && !old(
                        self,
                    )@.sandbox_bound(sandbox_id@) {
                        r && final(self)@ == old(self)@.with_warm(
                            i,
                            WarmV {
                                status: WarmStatus::Failed,
                                last_error: Some(error@),
                                updated_at: now,
                                ..w
                            },
                        )
                    } else {
                        !r && final(self)@ == old(self)@
                    }
                },
                None => !r && final(self)@ == old(self)@,
            },
    {
        match self.find_warm(sandbox_id) {
            Some(i) => {
                let w = &self.warm[i];
                if !(w.status == WarmStatus::Ready && w.claimed_thread_key.is_none()) {
                    return false;
                }
                if self.is_bound(sandbox_id) {
                    return false;
                }
                let w = &self.warm[i];
                let failed = WarmSandbox {
                    sandbox_id: w.sandbox_id.clone(),
                    workload_key: w.workload_key.clone(),
                    status: WarmStatus::Failed,
                    claimed_thread_key: None,
                    claimed_at: w.claimed_at,
                    last_error: Some(error.to_owned()),
                    created_at: w.created_at,
                    updated_at: now,
                };
                self.put_warm(i, failed);
                true
            },
            None => false,
        }
    }

    /// Every sandbox id the store still refers to: the sandboxes assigned to
    /// sessions and the warm sandboxes that are ready, claimed or evicting;
    /// each id once.
    pub fn list_referenced_sandbox_ids(&self) -> (r: Vec<String>)
        requires
            self@.wf(),
        ensures
            forall|x: Seq<char>|
                ids_of(r@).contains(x) <==> (self@.sandbox_bound(x) || self@.live_warm_before(
                    x,
                    self@.warm.len() as int,
                )),
            forall|a: int, b: int| 0 <= a < b < r.len() ==> r[a]@ != r[b]@,
    {
        let mut out: Vec<String> = Vec::new();
        let mut i: usize = 0;
        while i < self.sessions.len()
            invariant
                0 <= i <= self.sessions.len(),
                self@.sessions.len() == self.sessions.len(),
                forall|x: Seq<char>| ids_of(out@).contains(x) <==> self@.bound_before(x, i as int),
                forall|a: int, b: int| 0 <= a < b < out.len() ==> out[a]@ != out[b]@,
            decreases self.sessions.len() - i,
        {
            let ghost out_before = out@;
            match &self.sessions[i].session.sandbox_id {
                Some(id) => {
                    push_unique(&mut out, id);
                },
                None => {},
            }
            proof {
                assert forall|x: Seq<char>|
                    ids_of(out@).contains(x) <==> self@.bound_before(x, i + 1) by {
                    self@.lemma_bound_step(x, i as int);
                }
            }
            i = i + 1;
        }
        proof {
            assert forall|x: Seq<char>| self@.bound_before(x, self@.sessions.len() as int)
                == self@.sandbox_bound(x) by {}
        }
        let mut k: usize = 0;
        while k < self.warm.len()
            invariant
                0 <= k <= self.warm.len(),
                self@.warm.len() == self.warm.len(),
                forall|x: Seq<char>|
                    ids_of(out@).contains(x) <==> (self@.sandbox_bound(x) || self@.live_warm_before(
                        x,
                        k as int,
                    )),
                forall|a: int, b: int| 0 <= a < b < out.len() ==> out[a]@ != out[b]@,
            decreases self.warm.len() - k,
        {
            let ghost out_before = out@;
            let ghost wk = self@.warm[k as int];
            assert(wk.sandbox_id == self.warm@[k as int].sandbox_id@);
            assert(wk.status == self.warm@[k as int].status);
            let live = self.warm[k].status != WarmStatus::Failed;
            if live {
                push_unique(&mut out, &self.warm[k].sandbox_id);
            }
            proof {
                assert forall|x: Seq<char>|
                    ids_of(out@).contains(x) <==> (ids_of(out_before).contains(x) || (wk.status
                        != WarmStatus::Failed && x == wk.sandbox_id)) by {}
                self@.lemma_referenced_step(out_before, out@, k as int);
            }
            let ghost k1: int = k as int + 1;
            k = k + 1;
            proof {
                assert forall|x: Seq<char>|
                    ids_of(out@).contains(x) <==> (self@.sandbox_bound(x) || self@.live_warm_before(
                        x,
                        k as int,
                    )) by {
                    assert(ids_of(out@).contains(x) <==> (self@.sandbox_bound(x)
                        || self@.live_warm_before(x, k1)));
                    assert(k as int == k1);
                }
            }
        }
        out
    }
}

/// Pushing `y` adds exactly `y` to what a sequence contains.
proof fn lemma_push_contains<A>(s: Seq<A>, y: A, x: A)
    ensures
        s.push(y).contains(x) <==> (s.contains(x) || x == y),
{
    if s.contains(x) {
        let i = choose|i: int| 0 <= i < s.len() && s[i] == x;
        assert(s.push(y)[i] == x);
    }
    if x == y {
        assert(s.push(y)[s.len() as int] == y);
    }
    if s.push(y).contains(x) {
        let i = choose|i: int| 0 <= i < s.len() + 1 && s.push(y)[i] == x;
        if i < s.len() {
            assert(s[i] == x);
        }
    }
}

/// Appends `id` to `out` unless it is there already.
fn push_unique(out: &mut Vec<String>, id: &String)
    requires
        forall|a: int, b: int| 0 <= a < b < old(out).len() ==> old(out)[a]@ != old(out)[b]@,
    ensures
        forall|a: int, b: int| 0 <= a < b < final(out).len() ==> final(out)[a]@ != final(out)[b]@,
        forall|x: Seq<char>|
            ids_of(final(out)@).contains(x) <==> (ids_of(old(out)@).contains(x) || x == id@),
{
    let ghost before = out@;
    let mut i: usize = 0;
    while i < out.len()
        invariant
            0 <= i <= out.len(),
            out@ == before,
            before == old(out)@,
            forall|a: int, b: int| 0 <= a < b < before.len() ==> before[a]@ != before[b]@,
            forall|j: int| 0 <= j < i ==> out[j]@ != id@,
        decreases out.len() - i,
    {
        if out[i] == *id {
            assert(ids_of(out@)[i as int] == id@);
            assert(ids_of(out@).contains(id@));
            assert(out@ == old(out)@);
            assert forall|a: int, b: int| 0 <= a < b < out.len() implies out[a]@ != out[b]@ by {
                assert(out@[a] == old(out)@[a] && out@[b] == old(out)@[b]);
            }
            return;
        }
        i = i + 1;
    }
    out.push(id.clone());
    proof {
        assert forall|a: int, b: int| 0 <= a < b < out.len() implies out[a]@ != out[b]@ by {
            if b == before.len() {
                assert(out[a]@ == before[a]@);
                assert(before[a]@ != id@);
            } else {
                assert(out[a]@ == before[a]@ && out[b]@ == before[b]@);
            }
        }
        assert(ids_of(out@) =~= ids_of(old(out)@).push(id@));
        assert forall|x: Seq<char>|
            ids_of(out@).contains(x) <==> (ids_of(old(out)@).contains(x) || x == id@) by {
            lemma_push_contains(ids_of(old(out)@), id@, x);
        }
    }
}

} // verus!

//! When a session's idle sandbox may be reclaimed.
use vstd::prelude::*;

use serde_json::Value;

use crate::error::SessionStoreError;
use crate::json::{json_as_u64, json_member, json_member_of, json_u64_of};
use crate::lease::elapsed_at_least;
use crate::records::parse_persisted;
use crate::types::{is_valid_thread_key, ThreadKey};

verus! {

/// Nanoseconds in a millisecond.
pub const NANOS_PER_MILLI: u128 = 1_000_000u128;

/// A session whose sandbox has been idle long enough to be reclaimed,
/// with the idle timeout that applied (in nanoseconds).
#[derive(Debug)]
pub struct IdleSandboxCandidate {
    pub thread_key: ThreadKey,
    pub sandbox_id: String,
    pub execution_id: String,
    pub idle_timeout: u128,
}

/// A session with a sandbox whose newest execution has ended, as the
/// store reads it: `completed_at` of that execution, and its metadata.
pub struct IdleSandboxCandidateRow {
    pub thread_key: String,
    pub sandbox_id: String,
    pub execution_id: String,
    pub completed_at: i128,
    pub metadata: Value,
}

/// The idle timeout: the execution's own positive `idle_timeout_ms`, else
/// the backstop, but never less than a millisecond.
pub open spec fn spec_effective_idle_timeout(persisted_ms: Option<u64>, idle_backstop: u128) -> u128 {
    match persisted_ms {
        Some(ms) if ms > 0 => (ms * NANOS_PER_MILLI) as u128,
        _ => if idle_backstop > NANOS_PER_MILLI {
            idle_backstop
        } else {
            NANOS_PER_MILLI
        },
    }
}

pub fn effective_idle_timeout_nanos(persisted_ms: Option<u64>, idle_backstop: u128) -> (r: u128)
    ensures
        r == spec_effective_idle_timeout(persisted_ms, idle_backstop),
        r >= NANOS_PER_MILLI,
{
    match persisted_ms {
        Some(ms) if ms > 0 => {
            assert(ms * NANOS_PER_MILLI <= u64::MAX * NANOS_PER_MILLI) by (nonlinear_arith)
                requires ms <= u64::MAX;
            (ms as u128) * NANOS_PER_MILLI
        },
        _ => if idle_backstop > NANOS_PER_MILLI {
            idle_backstop
        } else {
            NANOS_PER_MILLI
        },
    }
}

/// The `idle_timeout_ms` member of an execution's metadata, when it is an
/// unsigned integer.
pub open spec fn persisted_idle_timeout_ms(metadata: Value) -> Option<u64> {
    match json_member_of(metadata, "idle_timeout_ms"@) {
        Some(v) => json_u64_of(v),
        None => None,
    }
}

/// The idle timeout of an execution with `metadata`: its `idle_timeout_ms`
/// member when that is a positive integer, else the backstop, at least a
/// millisecond.
pub fn effective_idle_timeout(metadata: &Value, idle_backstop: u128) -> (r: u128)
    ensures
        r == spec_effective_idle_timeout(persisted_idle_timeout_ms(*metadata), idle_backstop),
        r >= NANOS_PER_MILLI,
{
    let persisted = match json_member(metadata, "idle_timeout_ms") {
        Some(v) => json_as_u64(&v),
        None => None,
    };
    effective_idle_timeout_nanos(persisted, idle_backstop)
}

/// At `now`, `idle_timeout` has passed since `completed_at`; an end in the
/// future has not elapsed.
pub open spec fn spec_idle_deadline_elapsed(completed_at: i128, idle_timeout: u128, now: i128) -> bool {
    completed_at <= now - idle_timeout
}

pub fn idle_deadline_elapsed(completed_at: i128, idle_timeout: u128, now: i128) -> (r: bool)
    ensures
        r == spec_idle_deadline_elapsed(completed_at, idle_timeout, now),
{
    elapsed_at_least(completed_at, idle_timeout, now)
}

/// The candidate a row gives under `idle_timeout`: none until the timeout
/// has passed since the execution ended.
pub fn idle_candidate_with_timeout(
    row: IdleSandboxCandidateRow,
    idle_timeout: u128,
    now: i128,
) -> (r: Result<Option<IdleSandboxCandidate>, SessionStoreError>)
    ensures
        !spec_idle_deadline_elapsed(row.completed_at, idle_timeout, now) ==> (r matches Ok(x)
            && x is None),
        spec_idle_deadline_elapsed(row.completed_at, idle_timeout, now) && !is_valid_thread_key(
            row.thread_key@,
        ) ==> (r matches Err(e) && e is InvalidPersistedValue),
        spec_idle_deadline_elapsed(row.completed_at, idle_timeout, now) && is_valid_thread_key(
            row.thread_key@,
        ) ==> (r matches Ok(Some(c)) && c.thread_key@ == row.thread_key@ && c.sandbox_id
            == row.sandbox_id && c.execution_id == row.execution_id && c.idle_timeout
            == idle_timeout),
{
    if !idle_deadline_elapsed(row.completed_at, idle_timeout, now) {
        return Ok(None);
    }
    let thread_key: ThreadKey = parse_persisted(row.thread_key)?;
    Ok(
        Some(
            IdleSandboxCandidate {
                thread_key,
                sandbox_id: row.sandbox_id,
                execution_id: row.execution_id,
                idle_timeout,
            },
        ),
    )
}

/// The candidate a row gives at `now` under the idle timeout of its
/// execution's metadata, with `idle_backstop` as the fallback.
pub fn idle_candidate_from_row(
    row: IdleSandboxCandidateRow,
    idle_backstop: u128,
    now: i128,
) -> (r: Result<Option<IdleSandboxCandidate>, SessionStoreError>)
    ensures
        ({
            let t = spec_effective_idle_timeout(persisted_idle_timeout_ms(row.metadata), idle_backstop);
            &&& !spec_idle_deadline_elapsed(row.completed_at, t, now) ==> (r matches Ok(x) && x is None)
            &&& spec_idle_deadline_elapsed(row.completed_at, t, now) && !is_valid_thread_key(
                row.thread_key@,
            ) ==> (r matches Err(e) && e is InvalidPersistedValue)
            &&& spec_idle_deadline_elapsed(row.completed_at, t, now) && is_valid_thread_key(
                row.thread_key@,
            ) ==> (r matches Ok(Some(c)) && c.thread_key@ == row.thread_key@ && c.sandbox_id
                == row.sandbox_id && c.execution_id == row.execution_id && c.idle_timeout == t)
        }),
{
    let idle_timeout = effective_idle_timeout(&row.metadata, idle_backstop);
    idle_candidate_with_timeout(row, idle_timeout, now)
}

/// The idle candidates among `rows`, in order, at `now`; the first row
/// that is due but names an invalid thread key fails the whole listing.
pub fn idle_candidates_from_rows(
    rows: Vec<IdleSandboxCandidateRow>,
    idle_backstop: u128,
    now: i128,
) -> (r: Result<Vec<IdleSandboxCandidate>, SessionStoreError>)
    ensures
        r matches Ok(v) ==> v.len() == rows@.filter(due_pred(idle_backstop, now)).len(),
        r matches Ok(v) ==> forall|k: int|
            0 <= k < v.len() ==> {
                let row = #[trigger] rows@.filter(due_pred(idle_backstop, now))[k];
                &&& v[k].thread_key@ == row.thread_key@
                &&& v[k].sandbox_id == row.sandbox_id
                &&& v[k].execution_id == row.execution_id
                &&& v[k].idle_timeout == spec_effective_idle_timeout(
                    persisted_idle_timeout_ms(row.metadata),
                    idle_backstop,
                )
            },
        r is Err <==> exists|k: int|
            0 <= k < rows@.len() && is_due(#[trigger] rows@[k], idle_backstop, now)
                && !is_valid_thread_key(rows@[k].thread_key@),
        r matches Err(e) ==> e is InvalidPersistedValue,
{
    let ghost pred = due_pred(idle_backstop, now);
    let ghost all = rows@;
    let mut out: Vec<IdleSandboxCandidate> = Vec::new();
    let mut rest = rows;
    let mut i: usize = 0;
    let n = rest.len();
    assert(all.subrange(0, 0).filter(pred) =~= Seq::<IdleSandboxCandidateRow>::empty());
    assert(rest@ =~= all.subrange(0, n as int));
    while i < n
        invariant
            n == all.len(),
            all == rows@,
            i <= n,
            rest@ == all.subrange(i as int, n as int),
            pred == due_pred(idle_backstop, now),
            out.len() == all.subrange(0, i as int).filter(pred).len(),
            forall|k: int|
                0 <= k < out.len() ==> {
                    let row = #[trigger] all.subrange(0, i as int).filter(pred)[k];
                    &&& out[k].thread_key@ == row.thread_key@
                    &&& out[k].sandbox_id == row.sandbox_id
                    &&& out[k].execution_id == row.execution_id
                    &&& out[k].idle_timeout == spec_effective_idle_timeout(
                        persisted_idle_timeout_ms(row.metadata),
                        idle_backstop,
                    )
                },
            forall|j: int|
                0 <= j < i ==> !(is_due(#[trigger] all[j], idle_backstop, now)
                    && !is_valid_thread_key(all[j].thread_key@)),
        decreases n - i,
    {
        let row = rest.remove(0);
        assert(rest@ =~= all.subrange(i + 1, n as int));
        assert(row == all[i as int]);
        assert(all.subrange(0, i + 1) =~= all.subrange(0, i as int).push(all[i as int]));
        proof {
            all.subrange(0, i as int).lemma_filter_push(all[i as int], pred);
        }
        match idle_candidate_from_row(row, idle_backstop, now) {
            Ok(Some(c)) => {
                out.push(c);
            },
            Ok(None) => {},
            Err(e) => {
                assert(is_due(all[i as int], idle_backstop, now) && !is_valid_thread_key(
                    all[i as int].thread_key@,
                ));
                return Err(e);
            },
        }
        i = i + 1;
    }
    assert(all.subrange(0, n as int) =~= all);
    Ok(out)
}

/// The row is due for reclaiming at `now`: its idle timeout has passed.
pub open spec fn is_due(row: IdleSandboxCandidateRow, idle_backstop: u128, now: i128) -> bool {
    spec_idle_deadline_elapsed(
        row.completed_at,
        spec_effective_idle_timeout(persisted_idle_timeout_ms(row.metadata), idle_backstop),
        now,
    )
}

/// The filter of rows due for reclaiming.
pub open spec fn due_pred(idle_backstop: u128, now: i128) -> spec_fn(IdleSandboxCandidateRow) -> bool {
    |row: IdleSandboxCandidateRow| is_due(row, idle_backstop, now)
}

/// A session holding a sandbox that may be reclaimed for capacity.
#[derive(Debug)]
pub struct SandboxCapacityCandidate {
    pub thread_key: ThreadKey,
    pub sandbox_id: String,
    pub latest_execution_id: Option<String>,
    /// When the sandbox was last active, in Unix nanoseconds.
    pub last_active_at: i128,
}

/// A capacity candidate as stored.
#[derive(Debug)]
pub struct SandboxCapacityCandidateRow {
    pub thread_key: String,
    pub sandbox_id: String,
    pub latest_execution_id: Option<String>,
    pub last_active_at: i128,
}

/// Reads a capacity candidate; its thread key must be valid.
pub fn capacity_candidate_from_row(row: SandboxCapacityCandidateRow) -> (r: Result<
    SandboxCapacityCandidate,
    SessionStoreError,
>)
    ensures
        r is Ok <==> is_valid_thread_key(row.thread_key@),
        r matches Ok(c) ==> c.thread_key@ == row.thread_key@ && c.sandbox_id == row.sandbox_id
            && c.latest_execution_id == row.latest_execution_id && c.last_active_at
            == row.last_active_at,
        r matches Err(e) ==> e is InvalidPersistedValue,
{
    let thread_key: ThreadKey = parse_persisted(row.thread_key)?;
    Ok(
        SandboxCapacityCandidate {
            thread_key,
            sandbox_id: row.sandbox_id,
            latest_execution_id: row.latest_execution_id,
            last_active_at: row.last_active_at,
        },
    )
}

/// A session that a workflow run owns, with its sandbox if it has one.
#[derive(Debug)]
pub struct WorkflowOwnedSandbox {
    pub thread_key: ThreadKey,
    pub sandbox_id: Option<String>,
}

/// A workflow-owned session as stored.
#[derive(Debug)]
pub struct WorkflowOwnedSandboxRow {
    pub thread_key: String,
    pub sandbox_id: Option<String>,
}

/// Reads a workflow-owned session; its thread key must be valid.
pub fn workflow_owned_sandbox_from_row(row: WorkflowOwnedSandboxRow) -> (r: Result<
    WorkflowOwnedSandbox,
    SessionStoreError,
>)
    ensures
        r is Ok <==> is_valid_thread_key(row.thread_key@),
        r matches Ok(w) ==> w.thread_key@ == row.thread_key@ && w.sandbox_id == row.sandbox_id,
        r matches Err(e) ==> e is InvalidPersistedValue,
{
    let thread_key: ThreadKey = parse_persisted(row.thread_key)?;
    Ok(WorkflowOwnedSandbox { thread_key, sandbox_id: row.sandbox_id })
}

} // verus!

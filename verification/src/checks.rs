//! The verdicts of the API integration check: what each response of the
//! API must hold for a check to pass, and how the watch over a session's
//! event stream moves from event to event. Requests, waiting and the event
//! stream itself belong to the program that runs the checks.
use vstd::prelude::*;

use serde_json::Value;

use crate::json::{
    json_as_bool, json_as_string, json_bool_of, json_document_of, json_member, json_member_of,
    json_parse,
};
use crate::notification::text_member_of;
use crate::types::{opt_string_view, opt_view, text_eq};

verus! {

/// The model every turn check asks the harness to report.
pub const TEST_MODEL: &'static str = "gpt-api-integration-test";

/// `needle` occurs in `hay` at `i`.
pub open spec fn occurs_at(hay: Seq<char>, needle: Seq<char>, i: int) -> bool {
    0 <= i && i + needle.len() <= hay.len() && hay.subrange(i, i + needle.len()) == needle
}

/// `needle` occurs somewhere in `hay`.
pub open spec fn occurs_in(hay: Seq<char>, needle: Seq<char>) -> bool {
    exists|i: int| occurs_at(hay, needle, i)
}

/// True when `needle` occurs in `hay`.
pub fn contains(hay: &str, needle: &str) -> (r: bool)
    ensures
        r == occurs_in(hay@, needle@),
{
    let n = hay.unicode_len();
    let m = needle.unicode_len();
    if m > n {
        assert forall|i: int| !occurs_at(hay@, needle@, i) by {}
        return false;
    }
    let mut i: usize = 0;
    while i <= n - m
        invariant
            n == hay@.len(),
            m == needle@.len(),
            m <= n,
            i <= n - m + 1,
            forall|k: int| 0 <= k < i ==> !#[trigger] occurs_at(hay@, needle@, k),
        decreases n - m + 1 - i,
    {
        let mut j: usize = 0;
        while j < m && hay.get_char(i + j) == needle.get_char(j)
            invariant
                n == hay@.len(),
                m == needle@.len(),
                i + m <= n,
                j <= m,
                forall|k: int| 0 <= k < j ==> hay@[i + k] == needle@[k],
            decreases m - j,
        {
            j = j + 1;
        }
        if j == m {
            assert(hay@.subrange(i as int, i + m) =~= needle@);
            assert(occurs_at(hay@, needle@, i as int));
            return true;
        }
        assert(hay@.subrange(i as int, i + m)[j as int] != needle@[j as int]);
        i = i + 1;
    }
    assert forall|k: int| !occurs_at(hay@, needle@, k) by {
        if 0 <= k && k + m <= n {
            assert(k < i);
        }
    }
    false
}

/// The boolean member `key` of a document.
pub open spec fn bool_member_of(doc: Value, key: Seq<char>) -> Option<bool> {
    match json_member_of(doc, key) {
        Some(v) => json_bool_of(v),
        None => None,
    }
}

/// A boolean member of a document, if it has one.
pub fn bool_member(doc: &Value, key: &str) -> (r: Option<bool>)
    ensures
        r == bool_member_of(*doc, key@),
{
    match json_member(doc, key) {
        Some(v) => json_as_bool(&v),
        None => None,
    }
}

/// A text member of a document, if it has one.
pub fn text_member(doc: &Value, key: &str) -> (r: Option<String>)
    ensures
        opt_string_view(r) == text_member_of(*doc, key@),
{
    match json_member(doc, key) {
        Some(v) => json_as_string(&v),
        None => None,
    }
}

/// The API is healthy when its health body says `"ok": true`.
pub fn health_ok(ok: Option<bool>) -> (r: bool)
    ensures
        r == (ok == Some(true)),
{
    match ok {
        Some(b) => b,
        None => false,
    }
}

/// The API is ready when its readiness body says both `"ok": true` and
/// `"ready": true`.
pub fn readiness_ok(ok: Option<bool>, ready: Option<bool>) -> (r: bool)
    ensures
        r == (ok == Some(true) && ready == Some(true)),
{
    health_ok(ok) && health_ok(ready)
}

/// Why a newly created session failed its check.
#[derive(Clone, Copy, Debug, PartialEq, Eq, Structural)]
pub enum SessionCheckFailure {
    ThreadKeyMismatch,
    HarnessMismatch,
    NotIdle,
}

/// The check of a session the API just created: it must carry the thread
/// key asked for, then the harness asked for, then be idle.
pub fn check_created_session(
    thread_key: Option<&str>,
    harness_type: Option<&str>,
    status: Option<&str>,
    expected_thread_key: &str,
    expected_harness: &str,
) -> (r: Result<(), SessionCheckFailure>)
    ensures
        r == (if opt_view(thread_key) != Some(expected_thread_key@) {
            Err(SessionCheckFailure::ThreadKeyMismatch)
        } else if opt_view(harness_type) != Some(expected_harness@) {
            Err(SessionCheckFailure::HarnessMismatch)
        } else if opt_view(status) != Some("idle"@) {
            Err(SessionCheckFailure::NotIdle)
        } else {
            Ok(())
        }),
{
    if !matches_text(thread_key, expected_thread_key) {
        return Err(SessionCheckFailure::ThreadKeyMismatch);
    }
    if !matches_text(harness_type, expected_harness) {
        return Err(SessionCheckFailure::HarnessMismatch);
    }
    if !matches_text(status, "idle") {
        return Err(SessionCheckFailure::NotIdle);
    }
    Ok(())
}

/// The optional text is there and equals `expected`.
fn matches_text(actual: Option<&str>, expected: &str) -> (r: bool)
    ensures
        r == (opt_view(actual) == Some(expected@)),
{
    match actual {
        Some(a) => text_eq(a, expected),
        None => false,
    }
}

/// An append of the one test message succeeded: the body says `"ok": true`
/// and lists exactly one message id.
pub fn append_accepted(ok: Option<bool>, message_ids: usize) -> (r: bool)
    ensures
        r == (ok == Some(true) && message_ids == 1),
{
    health_ok(ok) && message_ids == 1
}

/// Why an execute response failed its check.
#[derive(Clone, Copy, Debug, PartialEq, Eq, Structural)]
pub enum ExecuteCheckFailure {
    NotOk,
    ThreadKeyMismatch,
    MissingExecutionId,
}

/// The check of an execute response: it must say `"ok": true`, carry the
/// session's thread key, and name the execution, whose id is returned.
pub fn check_execute_response(
    ok: Option<bool>,
    thread_key: Option<&str>,
    execution_id: Option<String>,
    expected_thread_key: &str,
) -> (r: Result<String, ExecuteCheckFailure>)
    ensures
        ok != Some(true) ==> r == Err::<String, _>(ExecuteCheckFailure::NotOk),
        ok == Some(true) && opt_view(thread_key) != Some(expected_thread_key@) ==> r == Err::<
            String,
            _,
        >(ExecuteCheckFailure::ThreadKeyMismatch),
        ok == Some(true) && opt_view(thread_key) == Some(expected_thread_key@) ==> match execution_id {
            Some(id) => r == Ok::<String, ExecuteCheckFailure>(id),
            None => r == Err::<String, _>(ExecuteCheckFailure::MissingExecutionId),
        },
{
    if !health_ok(ok) {
        return Err(ExecuteCheckFailure::NotOk);
    }
    if !matches_text(thread_key, expected_thread_key) {
        return Err(ExecuteCheckFailure::ThreadKeyMismatch);
    }
    match execution_id {
        Some(id) => Ok(id),
        None => Err(ExecuteCheckFailure::MissingExecutionId),
    }
}

/// A replayed execute must name the execution the first one created.
pub fn replay_matches(replayed: Option<&str>, execution_id: &str) -> (r: bool)
    ensures
        r == (opt_view(replayed) == Some(execution_id@)),
{
    matches_text(replayed, execution_id)
}

/// An event of a session's stream, as far as the turn check reads it.
#[derive(Debug)]
pub enum TurnEvent {
    /// A line of harness output, with its `type` and `delta` members.
    OutputLine { line_type: Option<String>, delta: Option<String> },
    /// A completed execution, with the id it names.
    Completed { execution_id: Option<String> },
    /// A failed or cancelled execution, with the event's data.
    Terminal { data: String },
    /// Any other event.
    Other,
}

/// The kind of event named `name`.
pub open spec fn turn_event_kind(name: Seq<char>) -> int {
    if name == "session.output.line"@ {
        0
    } else if name == "session.execution_completed"@ {
        1
    } else if name == "session.execution_failed"@ || name == "session.execution_cancelled"@ {
        2
    } else {
        3
    }
}

/// The kind of a read event, numbered as `turn_event_kind` numbers names.
pub open spec fn read_event_kind(e: TurnEvent) -> int {
    match e {
        TurnEvent::OutputLine { .. } => 0,
        TurnEvent::Completed { .. } => 1,
        TurnEvent::Terminal { .. } => 2,
        TurnEvent::Other => 3,
    }
}

/// Reads an event named `name` with data `data`. The data of output lines
/// and completions is read as JSON by `serde_json`; the members found are
/// not stated here, but the kind of event is decided by the name alone,
/// and a terminal event keeps its data as it came.
pub fn read_turn_event(name: &str, data: &str) -> (r: Result<TurnEvent, String>)
    ensures
        r matches Ok(e) ==> read_event_kind(e) == turn_event_kind(name@),
        turn_event_kind(name@) <= 1 ==> match json_document_of(data@) {
            None => r matches Err(m) && m@ == "parse event payload as JSON: "@ + data@,
            Some(doc) => match r {
                Ok(TurnEvent::OutputLine { line_type, delta }) => opt_string_view(line_type)
                    == text_member_of(doc, "type"@) && opt_string_view(delta) == text_member_of(
                    doc,
                    "delta"@,
                ),
                Ok(TurnEvent::Completed { execution_id }) => opt_string_view(execution_id)
                    == text_member_of(doc, "execution_id"@),
                _ => false,
            },
        },
        turn_event_kind(name@) >= 2 ==> r is Ok,
        r matches Ok(TurnEvent::Terminal { data: d }) ==> d@ == data@,
{
    proof {
        reveal_strlit("session.output.line");
        reveal_strlit("session.execution_completed");
        reveal_strlit("session.execution_failed");
        reveal_strlit("session.execution_cancelled");
    }
    if text_eq(name, "session.output.line") {
        match json_parse(data) {
            Ok(line) => Ok(
                TurnEvent::OutputLine {
                    line_type: text_member(&line, "type"),
                    delta: text_member(&line, "delta"),
                },
            ),
            Err(_) => Err(parse_failure(data)),
        }
    } else if text_eq(name, "session.execution_completed") {
        match json_parse(data) {
            Ok(payload) => Ok(
                TurnEvent::Completed { execution_id: text_member(&payload, "execution_id") },
            ),
            Err(_) => Err(parse_failure(data)),
        }
    } else if text_eq(name, "session.execution_failed") || text_eq(
        name,
        "session.execution_cancelled",
    ) {
        Ok(TurnEvent::Terminal { data: data.to_owned() })
    } else {
        Ok(TurnEvent::Other)
    }
}

/// `"parse event payload as JSON: <data>"`.
fn parse_failure(data: &str) -> (r: String)
    ensures
        r@ == "parse event payload as JSON: "@ + data@,
{
    let mut s = "parse event payload as JSON: ".to_owned();
    s.append(data);
    s
}

/// An output line shows the turn's answer: an agent message delta that
/// says `PONG` and names the model and the harness.
pub open spec fn is_expected_output(
    line_type: Option<Seq<char>>,
    delta: Option<Seq<char>>,
    model: Seq<char>,
    harness: Seq<char>,
) -> bool {
    &&& line_type == Some("item.agentMessage.delta"@)
    &&& delta matches Some(d) && {
        &&& occurs_in(d, "PONG"@)
        &&& occurs_in(d, "model="@ + model)
        &&& occurs_in(d, "harness="@ + harness)
    }
}

/// The next step of the watch over a turn's events.
#[derive(Debug, PartialEq, Eq)]
pub enum TurnStep {
    /// Keep reading, having or not yet having seen the answer.
    Continue { saw_output: bool },
    /// The execution completed after its answer was seen.
    Done,
    /// The execution completed before any answer was seen.
    CompletedWithoutOutput,
    /// The execution failed or was cancelled; the event's data.
    Failed { data: String },
}

/// One step of the turn watch: an output line with the answer marks it
/// seen; the completion of the watched execution ends the watch, well only
/// when the answer was seen; a failure or cancellation ends it badly; any
/// other event changes nothing.
pub fn turn_step(
    saw_output: bool,
    event: TurnEvent,
    execution_id: &str,
    model: &str,
    harness: &str,
) -> (r: TurnStep)
    ensures
        match event {
            TurnEvent::OutputLine { line_type, delta } => r == (TurnStep::Continue {
                saw_output: saw_output || is_expected_output(
                    opt_string_view(line_type),
                    opt_string_view(delta),
                    model@,
                    harness@,
                ),
            }),
            TurnEvent::Completed { execution_id: id } => if opt_string_view(id) == Some(
                execution_id@,
            ) {
                if saw_output {
                    r == TurnStep::Done
                } else {
                    r == TurnStep::CompletedWithoutOutput
                }
            } else {
                r == (TurnStep::Continue { saw_output })
            },
            TurnEvent::Terminal { data } => r == (TurnStep::Failed { data }),
            TurnEvent::Other => r == (TurnStep::Continue { saw_output }),
        },
{
    match event {
        TurnEvent::OutputLine { line_type, delta } => {
            let seen = saw_output || expected_output(&line_type, &delta, model, harness);
            TurnStep::Continue { saw_output: seen }
        },
        TurnEvent::Completed { execution_id: id } => {
            let same = match &id {
                Some(x) => text_eq(x.as_str(), execution_id),
                None => false,
            };
            if same {
                if saw_output {
                    TurnStep::Done
                } else {
                    TurnStep::CompletedWithoutOutput
                }
            } else {
                TurnStep::Continue { saw_output }
            }
        },
        TurnEvent::Terminal { data } => TurnStep::Failed { data },
        TurnEvent::Other => TurnStep::Continue { saw_output },
    }
}


fn expected_output(
    line_type: &Option<String>,
    delta: &Option<String>,
    model: &str,
    harness: &str,
) -> (r: bool)
    ensures
        r == is_expected_output(opt_string_view(*line_type), opt_string_view(*delta), model@, harness@),
{
    let is_delta = match line_type {
        Some(t) => text_eq(t.as_str(), "item.agentMessage.delta"),
        None => false,
    };
    if !is_delta {
        return false;
    }
    match delta {
        Some(d) => {
            let mut model_tag = "model=".to_owned();
            model_tag.append(model);
            let mut harness_tag = "harness=".to_owned();
            harness_tag.append(harness);
            contains(d.as_str(), "PONG") && contains(d.as_str(), model_tag.as_str()) && contains(
                d.as_str(),
                harness_tag.as_str(),
            )
        },
        None => false,
    }
}

/// The request counters the metrics page must show, in the order checked.
pub open spec fn expected_metrics() -> Seq<Seq<char>> {
    seq![
        "http_server_requests_total{method=\"GET\",route=\"/healthz\",status=\"200\"}"@,
        "http_server_requests_total{method=\"POST\",route=\"/api/session/{thread_key}\",status=\"200\"}"@,
        "http_server_requests_total{method=\"POST\",route=\"/api/session/{thread_key}/execute\",status=\"200\"}"@,
    ]
}

/// The first expected request counter that the metrics page lacks.
pub fn first_missing_metric(body: &str) -> (r: Option<&'static str>)
    ensures
        match r {
            None => forall|k: int| 0 <= k < 3 ==> occurs_in(body@, #[trigger] expected_metrics()[k]),
            Some(m) => exists|k: int|
                0 <= k < 3 && m@ == #[trigger] expected_metrics()[k] && !occurs_in(body@, m@) && forall|
                    j: int,
                | 0 <= j < k ==> occurs_in(body@, #[trigger] expected_metrics()[j]),
        },
{
    let first = "http_server_requests_total{method=\"GET\",route=\"/healthz\",status=\"200\"}";
    let second = "http_server_requests_total{method=\"POST\",route=\"/api/session/{thread_key}\",status=\"200\"}";
    let third = "http_server_requests_total{method=\"POST\",route=\"/api/session/{thread_key}/execute\",status=\"200\"}";
    let ghost e = expected_metrics();
    assert(e[0] == first@ && e[1] == second@ && e[2] == third@);
    if !contains(body, first) {
        assert(!occurs_in(body@, e[0]));
        return Some(first);
    }
    if !contains(body, second) {
        assert(occurs_in(body@, e[0]) && !occurs_in(body@, e[1]));
        return Some(second);
    }
    if !contains(body, third) {
        assert(occurs_in(body@, e[0]) && occurs_in(body@, e[1]) && !occurs_in(body@, e[2]));
        return Some(third);
    }
    assert(occurs_in(body@, e[0]) && occurs_in(body@, e[1]) && occurs_in(body@, e[2]));
    None
}

/// Where a workflow run stands against the statuses waited for.
#[derive(Clone, Copy, Debug, PartialEq, Eq, Structural)]
pub enum RunStatusStep {
    /// The run reached one of the statuses waited for.
    Reached,
    /// The run ended in another status.
    Terminal,
    /// Keep waiting.
    Pending,
}

/// A run status that no run leaves.
pub open spec fn is_terminal_run_status(status: Seq<char>) -> bool {
    status == "completed"@ || status == "failed"@ || status == "cancelled"@
}

/// The step of a wait for a run to reach one of `expected`.
pub fn run_status_step(status: &str, expected: &[&str]) -> (r: RunStatusStep)
    ensures
        (exists|k: int| 0 <= k < expected@.len() && (#[trigger] expected@[k])@ == status@) ==> r
            == RunStatusStep::Reached,
        !(exists|k: int| 0 <= k < expected@.len() && (#[trigger] expected@[k])@ == status@) ==> r
            == (if is_terminal_run_status(status@) {
            RunStatusStep::Terminal
        } else {
            RunStatusStep::Pending
        }),
{
    let mut k: usize = 0;
    while k < expected.len()
        invariant
            k <= expected@.len(),
            forall|j: int| 0 <= j < k ==> (#[trigger] expected@[j])@ != status@,
        decreases expected@.len() - k,
    {
        if text_eq(expected[k], status) {
            return RunStatusStep::Reached;
        }
        k = k + 1;
    }
    if text_eq(status, "completed") || text_eq(status, "failed") || text_eq(status, "cancelled") {
        RunStatusStep::Terminal
    } else {
        RunStatusStep::Pending
    }
}

/// Some listed schedule has id `schedule_id`.
pub fn schedule_listed(schedule_ids: &[Option<String>], schedule_id: &str) -> (r: bool)
    ensures
        r == exists|k: int|
            0 <= k < schedule_ids@.len() && opt_string_view(#[trigger] schedule_ids@[k]) == Some(
                schedule_id@,
            ),
{
    let mut k: usize = 0;
    while k < schedule_ids.len()
        invariant
            k <= schedule_ids@.len(),
            forall|j: int|
                0 <= j < k ==> opt_string_view(#[trigger] schedule_ids@[j]) != Some(schedule_id@),
        decreases schedule_ids@.len() - k,
    {
        let listed = match &schedule_ids[k] {
            Some(id) => text_eq(id.as_str(), schedule_id),
            None => false,
        };
        if listed {
            return true;
        }
        k = k + 1;
    }
    false
}

/// Why a workflow run creation failed its check.
#[derive(Clone, Copy, Debug, PartialEq, Eq, Structural)]
pub enum RunCreateFailure {
    NotOk,
    NotCreated,
    MissingRunId,
}

/// The check of a workflow run creation: the body must say `"ok": true`,
/// then `"created": true`, and name the run, whose id is returned.
pub fn check_created_run(
    ok: Option<bool>,
    created: Option<bool>,
    run_id: Option<String>,
) -> (r: Result<String, RunCreateFailure>)
    ensures
        r == (if ok != Some(true) {
            Err(RunCreateFailure::NotOk)
        } else if created != Some(true) {
            Err(RunCreateFailure::NotCreated)
        } else {
            match run_id {
                Some(id) => Ok(id),
                None => Err(RunCreateFailure::MissingRunId),
            }
        }),
{
    if !health_ok(ok) {
        return Err(RunCreateFailure::NotOk);
    }
    if !health_ok(created) {
        return Err(RunCreateFailure::NotCreated);
    }
    match run_id {
        Some(id) => Ok(id),
        None => Err(RunCreateFailure::MissingRunId),
    }
}

/// Why a completed workflow run's output failed its check.
#[derive(Clone, Copy, Debug, PartialEq, Eq, Structural)]
pub enum RunOutputFailure {
    WorkflowNameNotEchoed,
    InputNotEchoed,
}

/// The check of a completed run's output: it must echo the workflow's name,
/// then the `case` of its input.
pub fn check_run_output(
    workflow_name: Option<&str>,
    received_case: Option<&str>,
    expected_workflow: &str,
    expected_case: &str,
) -> (r: Result<(), RunOutputFailure>)
    ensures
        r == (if opt_view(workflow_name) != Some(expected_workflow@) {
            Err(RunOutputFailure::WorkflowNameNotEchoed)
        } else if opt_view(received_case) != Some(expected_case@) {
            Err(RunOutputFailure::InputNotEchoed)
        } else {
            Ok(())
        }),
{
    if !matches_text(workflow_name, expected_workflow) {
        return Err(RunOutputFailure::WorkflowNameNotEchoed);
    }
    if !matches_text(received_case, expected_case) {
        return Err(RunOutputFailure::InputNotEchoed);
    }
    Ok(())
}

/// A filtered run list holds exactly the run `run_id`.
pub fn only_run(run_ids: &[Option<String>], run_id: &str) -> (r: bool)
    ensures
        r == (run_ids@.len() == 1 && opt_string_view(run_ids@[0]) == Some(run_id@)),
{
    if run_ids.len() != 1 {
        return false;
    }
    match &run_ids[0] {
        Some(id) => text_eq(id.as_str(), run_id),
        None => false,
    }
}

} // verus!

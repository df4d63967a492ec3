//! The store's records (sessions, executions, events, messages), the rows
//! they are stored as, and the checked conversion from a stored row.
use vstd::prelude::*;

use serde_json::Value;

use crate::error::SessionStoreError;
use crate::json::{clone_json, normalize_parts, parts_list};
use crate::types::{
    opt_clone, opt_string_view, ExecutionStatus, HarnessType, MessageRole, SandboxCapabilities,
    SandboxRepoCacheAccess, SessionStatus, ThreadKey, is_valid_thread_key,
};

verus! {

/// A value that the store writes as text and reads back.
pub trait Persisted: Sized {
    /// The texts that read back as some value.
    spec fn spec_accepts(s: Seq<char>) -> bool;

    /// `s` reads back as `v`.
    spec fn spec_reads_as(s: Seq<char>, v: Self) -> bool;

    /// Why `s` does not read back as a value.
    spec fn spec_reason(s: Seq<char>) -> Seq<char>;

    fn read_persisted(s: &str) -> (r: Result<Self, String>)
        ensures
            r is Ok <==> Self::spec_accepts(s@),
            r matches Ok(v) ==> Self::spec_reads_as(s@, v),
            r matches Err(m) ==> m@ == Self::spec_reason(s@),
    ;
}

impl Persisted for ThreadKey {
    open spec fn spec_accepts(s: Seq<char>) -> bool {
        is_valid_thread_key(s)
    }

    open spec fn spec_reads_as(s: Seq<char>, v: ThreadKey) -> bool {
        v@ == s
    }

    open spec fn spec_reason(s: Seq<char>) -> Seq<char> {
        crate::types::invalid_thread_key_reason(s)
    }

    fn read_persisted(s: &str) -> (r: Result<ThreadKey, String>) {
        ThreadKey::parse(s.to_owned())
    }
}

impl Persisted for HarnessType {
    open spec fn spec_accepts(s: Seq<char>) -> bool {
        HarnessType::spec_parse(s) is Some
    }

    open spec fn spec_reads_as(s: Seq<char>, v: HarnessType) -> bool {
        HarnessType::spec_parse(s) == Some(v)
    }

    open spec fn spec_reason(s: Seq<char>) -> Seq<char> {
        "unknown "@ + "harness type"@ + ": "@ + s
    }

    fn read_persisted(s: &str) -> (r: Result<HarnessType, String>) {
        match HarnessType::parse(s) {
            Some(v) => Ok(v),
            None => Err(unknown_value("harness type", s)),
        }
    }
}

impl Persisted for SessionStatus {
    open spec fn spec_accepts(s: Seq<char>) -> bool {
        SessionStatus::spec_parse(s) is Some
    }

    open spec fn spec_reads_as(s: Seq<char>, v: SessionStatus) -> bool {
        SessionStatus::spec_parse(s) == Some(v)
    }

    open spec fn spec_reason(s: Seq<char>) -> Seq<char> {
        "unknown "@ + "session status"@ + ": "@ + s
    }

    fn read_persisted(s: &str) -> (r: Result<SessionStatus, String>) {
        match SessionStatus::parse(s) {
            Some(v) => Ok(v),
            None => Err(unknown_value("session status", s)),
        }
    }
}

impl Persisted for ExecutionStatus {
    open spec fn spec_accepts(s: Seq<char>) -> bool {
        ExecutionStatus::spec_parse(s) is Some
    }

    open spec fn spec_reads_as(s: Seq<char>, v: ExecutionStatus) -> bool {
        ExecutionStatus::spec_parse(s) == Some(v)
    }

    open spec fn spec_reason(s: Seq<char>) -> Seq<char> {
        "unknown "@ + "execution status"@ + ": "@ + s
    }

    fn read_persisted(s: &str) -> (r: Result<ExecutionStatus, String>) {
        match ExecutionStatus::parse(s) {
            Some(v) => Ok(v),
            None => Err(unknown_value("execution status", s)),
        }
    }
}

impl Persisted for MessageRole {
    open spec fn spec_accepts(s: Seq<char>) -> bool {
        MessageRole::spec_parse(s) is Some
    }

    open spec fn spec_reads_as(s: Seq<char>, v: MessageRole) -> bool {
        MessageRole::spec_parse(s) == Some(v)
    }

    open spec fn spec_reason(s: Seq<char>) -> Seq<char> {
        "unknown "@ + "message role"@ + ": "@ + s
    }

    fn read_persisted(s: &str) -> (r: Result<MessageRole, String>) {
        match MessageRole::parse(s) {
            Some(v) => Ok(v),
            None => Err(unknown_value("message role", s)),
        }
    }
}

/// `unknown <what>: <text>`.
fn unknown_value(what: &str, text: &str) -> (r: String)
    ensures
        r@ == "unknown "@ + what@ + ": "@ + text@,
{
    let mut s = "unknown ".to_owned();
    s.append(what);
    s.append(": ");
    s.append(text);
    s
}

/// Reads a stored text back as a value, or reports it as an invalid
/// persisted value.
pub fn parse_persisted<T: Persisted>(value: String) -> (r: Result<T, SessionStoreError>)
    ensures
        r is Ok <==> T::spec_accepts(value@),
        r matches Ok(v) ==> T::spec_reads_as(value@, v),
        r matches Err(e) ==> (e matches SessionStoreError::InvalidPersistedValue(m) && m@
            == T::spec_reason(value@)),
{
    match T::read_persisted(value.as_str()) {
        Ok(v) => Ok(v),
        Err(reason) => Err(SessionStoreError::InvalidPersistedValue(reason)),
    }
}

/// The capabilities that the four stored capability columns describe: none
/// unless the three flags are all present; the access column wins when it
/// holds a known access, else the legacy flag decides.
pub open spec fn spec_decode_capabilities(
    repo_cache_enabled: Option<bool>,
    repo_cache_access: Option<Seq<char>>,
    observability_enabled: Option<bool>,
    api_server_enabled: Option<bool>,
) -> Option<SandboxCapabilities> {
    match (repo_cache_enabled, observability_enabled, api_server_enabled) {
        (Some(e), Some(o), Some(a)) => Some(
            SandboxCapabilities {
                repo_cache: match repo_cache_access {
                    Some(t) => match SandboxRepoCacheAccess::spec_parse(t) {
                        Some(x) => x,
                        None => SandboxRepoCacheAccess::spec_from_legacy_enabled(e),
                    },
                    None => SandboxRepoCacheAccess::spec_from_legacy_enabled(e),
                },
                observability_enabled: o,
                api_server_enabled: a,
            },
        ),
        _ => None,
    }
}

pub fn decode_capabilities(
    repo_cache_enabled: Option<bool>,
    repo_cache_access: &Option<String>,
    observability_enabled: Option<bool>,
    api_server_enabled: Option<bool>,
) -> (r: Option<SandboxCapabilities>)
    ensures
        r == spec_decode_capabilities(
            repo_cache_enabled,
            opt_string_view(*repo_cache_access),
            observability_enabled,
            api_server_enabled,
        ),
{
    match (repo_cache_enabled, observability_enabled, api_server_enabled) {
        (Some(e), Some(o), Some(a)) => {
            let parsed = match repo_cache_access {
                Some(t) => SandboxRepoCacheAccess::parse(t.as_str()),
                None => None,
            };
            let repo_cache = match parsed {
                Some(x) => x,
                None => SandboxRepoCacheAccess::from_legacy_enabled(e),
            };
            Some(
                SandboxCapabilities {
                    repo_cache,
                    observability_enabled: o,
                    api_server_enabled: a,
                },
            )
        },
        _ => None,
    }
}

/// The model of a session.
pub struct SessionV {
    pub thread_key: Seq<char>,
    pub title: Option<Seq<char>>,
    pub sandbox_id: Option<Seq<char>>,
    pub sandbox_content_revision: Option<Seq<char>>,
    pub sandbox_capabilities: Option<SandboxCapabilities>,
    pub harness_type: HarnessType,
    pub harness_thread_id: Option<Seq<char>>,
    pub persona_id: Option<Seq<char>>,
    pub status: SessionStatus,
    pub iron_control_principal: Option<Seq<char>>,
    pub sandbox_last_active_at: Option<i128>,
    pub created_at: i128,
    pub updated_at: i128,
}

/// One conversation thread and the sandbox and harness state bound to it.
/// Times are nanoseconds since the Unix epoch.
#[derive(Debug)]
pub struct Session {
    pub thread_key: ThreadKey,
    pub title: Option<String>,
    pub sandbox_id: Option<String>,
    pub sandbox_content_revision: Option<String>,
    pub sandbox_capabilities: Option<SandboxCapabilities>,
    pub harness_type: HarnessType,
    pub harness_thread_id: Option<String>,
    pub persona_id: Option<String>,
    pub status: SessionStatus,
    pub iron_control_principal: Option<String>,
    pub sandbox_last_active_at: Option<i128>,
    pub created_at: i128,
    pub updated_at: i128,
}

impl View for Session {
    type V = SessionV;

    open spec fn view(&self) -> SessionV {
        SessionV {
            thread_key: self.thread_key@,
            title: opt_string_view(self.title),
            sandbox_id: opt_string_view(self.sandbox_id),
            sandbox_content_revision: opt_string_view(self.sandbox_content_revision),
            sandbox_capabilities: self.sandbox_capabilities,
            harness_type: self.harness_type,
            harness_thread_id: opt_string_view(self.harness_thread_id),
            persona_id: opt_string_view(self.persona_id),
            status: self.status,
            iron_control_principal: opt_string_view(self.iron_control_principal),
            sandbox_last_active_at: self.sandbox_last_active_at,
            created_at: self.created_at,
            updated_at: self.updated_at,
        }
    }
}

impl Session {
    pub fn duplicate(&self) -> (r: Session)
        ensures
            r@ == self@,
    {
        Session {
            thread_key: self.thread_key.duplicate(),
            title: opt_clone(&self.title),
            sandbox_id: opt_clone(&self.sandbox_id),
            sandbox_content_revision: opt_clone(&self.sandbox_content_revision),
            sandbox_capabilities: self.sandbox_capabilities,
            harness_type: self.harness_type,
            harness_thread_id: opt_clone(&self.harness_thread_id),
            persona_id: opt_clone(&self.persona_id),
            status: self.status,
            iron_control_principal: opt_clone(&self.iron_control_principal),
            sandbox_last_active_at: self.sandbox_last_active_at,
            created_at: self.created_at,
            updated_at: self.updated_at,
        }
    }
}

/// A stored session row, column for column.
pub struct SessionRow {
    pub thread_key: String,
    pub title: Option<String>,
    pub sandbox_id: Option<String>,
    pub sandbox_content_revision: Option<String>,
    pub sandbox_repo_cache_enabled: Option<bool>,
    pub sandbox_repo_cache_access: Option<String>,
    pub sandbox_observability_enabled: Option<bool>,
    pub sandbox_api_server_enabled: Option<bool>,
    pub harness_type: String,
    pub harness_thread_id: Option<String>,
    pub persona_id: Option<String>,
    pub status: String,
    pub iron_control_principal: Option<String>,
    pub sandbox_last_active_at: Option<i128>,
    pub created_at: i128,
    pub updated_at: i128,
}

/// A session row reads back when its key, harness and status read back.
pub open spec fn session_row_readable(row: SessionRow) -> bool {
    &&& is_valid_thread_key(row.thread_key@)
    &&& HarnessType::spec_parse(row.harness_type@) is Some
    &&& SessionStatus::spec_parse(row.status@) is Some
}

/// The session that a readable row describes.
pub open spec fn session_of_row(row: SessionRow) -> SessionV {
    SessionV {
        thread_key: row.thread_key@,
        title: opt_string_view(row.title),
        sandbox_id: opt_string_view(row.sandbox_id),
        sandbox_content_revision: opt_string_view(row.sandbox_content_revision),
        sandbox_capabilities: spec_decode_capabilities(
            row.sandbox_repo_cache_enabled,
            opt_string_view(row.sandbox_repo_cache_access),
            row.sandbox_observability_enabled,
            row.sandbox_api_server_enabled,
        ),
        harness_type: HarnessType::spec_parse(row.harness_type@)->0,
        harness_thread_id: opt_string_view(row.harness_thread_id),
        persona_id: opt_string_view(row.persona_id),
        status: SessionStatus::spec_parse(row.status@)->0,
        iron_control_principal: opt_string_view(row.iron_control_principal),
        sandbox_last_active_at: row.sandbox_last_active_at,
        created_at: row.created_at,
        updated_at: row.updated_at,
    }
}

/// Reads a stored session row.
pub fn session_from_row(row: SessionRow) -> (r: Result<Session, SessionStoreError>)
    ensures
        r is Ok <==> session_row_readable(row),
        r matches Ok(s) ==> s@ == session_of_row(row),
        r matches Err(e) ==> e is InvalidPersistedValue,
{
    let sandbox_capabilities = decode_capabilities(
        row.sandbox_repo_cache_enabled,
        &row.sandbox_repo_cache_access,
        row.sandbox_observability_enabled,
        row.sandbox_api_server_enabled,
    );
    let thread_key: ThreadKey = parse_persisted(row.thread_key)?;
    let harness_type: HarnessType = parse_persisted(row.harness_type)?;
    let status: SessionStatus = parse_persisted(row.status)?;
    Ok(
        Session {
            thread_key,
            title: row.title,
            sandbox_id: row.sandbox_id,
            sandbox_content_revision: row.sandbox_content_revision,
            sandbox_capabilities,
            harness_type,
            harness_thread_id: row.harness_thread_id,
            persona_id: row.persona_id,
            status,
            iron_control_principal: row.iron_control_principal,
            sandbox_last_active_at: row.sandbox_last_active_at,
            created_at: row.created_at,
            updated_at: row.updated_at,
        },
    )
}

/// The model of an execution.
pub struct ExecutionV {
    pub execution_id: Seq<char>,
    pub idempotency_key: Option<Seq<char>>,
    pub thread_key: Seq<char>,
    pub status: ExecutionStatus,
    pub metadata: Value,
    pub error: Option<Seq<char>>,
    pub created_at: i128,
    pub updated_at: i128,
    pub started_at: Option<i128>,
    pub completed_at: Option<i128>,
}

/// One turn of a session, from queued to a terminal status.
#[derive(Debug)]
pub struct SessionExecution {
    pub execution_id: String,
    pub idempotency_key: Option<String>,
    pub thread_key: ThreadKey,
    pub status: ExecutionStatus,
    pub metadata: Value,
    pub error: Option<String>,
    pub created_at: i128,
    pub updated_at: i128,
    pub started_at: Option<i128>,
    pub completed_at: Option<i128>,
}

impl View for SessionExecution {
    type V = ExecutionV;

    open spec fn view(&self) -> ExecutionV {
        ExecutionV {
            execution_id: self.execution_id@,
            idempotency_key: opt_string_view(self.idempotency_key),
            thread_key: self.thread_key@,
            status: self.status,
            metadata: self.metadata,
            error: opt_string_view(self.error),
            created_at: self.created_at,
            updated_at: self.updated_at,
            started_at: self.started_at,
            completed_at: self.completed_at,
        }
    }
}

impl SessionExecution {
    pub fn duplicate(&self) -> (r: SessionExecution)
        ensures
            r@ == self@,
    {
        SessionExecution {
            execution_id: self.execution_id.clone(),
            idempotency_key: opt_clone(&self.idempotency_key),
            thread_key: self.thread_key.duplicate(),
            status: self.status,
            metadata: clone_json(&self.metadata),
            error: opt_clone(&self.error),
            created_at: self.created_at,
            updated_at: self.updated_at,
            started_at: self.started_at,
            completed_at: self.completed_at,
        }
    }
}

/// A stored execution row, column for column.
pub struct SessionExecutionRow {
    pub execution_id: String,
    pub idempotency_key: Option<String>,
    pub thread_key: String,
    pub status: String,
    pub metadata: Value,
    pub error: Option<String>,
    pub created_at: i128,
    pub updated_at: i128,
    pub started_at: Option<i128>,
    pub completed_at: Option<i128>,
}

pub open spec fn execution_row_readable(row: SessionExecutionRow) -> bool {
    &&& is_valid_thread_key(row.thread_key@)
    &&& ExecutionStatus::spec_parse(row.status@) is Some
}

pub open spec fn execution_of_row(row: SessionExecutionRow) -> ExecutionV {
    ExecutionV {
        execution_id: row.execution_id@,
        idempotency_key: opt_string_view(row.idempotency_key),
        thread_key: row.thread_key@,
        status: ExecutionStatus::spec_parse(row.status@)->0,
        metadata: row.metadata,
        error: opt_string_view(row.error),
        created_at: row.created_at,
        updated_at: row.updated_at,
        started_at: row.started_at,
        completed_at: row.completed_at,
    }
}

/// Reads a stored execution row.
pub fn execution_from_row(row: SessionExecutionRow) -> (r: Result<SessionExecution, SessionStoreError>)
    ensures
        r is Ok <==> execution_row_readable(row),
        r matches Ok(x) ==> x@ == execution_of_row(row),
        r matches Err(e) ==> e is InvalidPersistedValue,
{
    let thread_key: ThreadKey = parse_persisted(row.thread_key)?;
    let status: ExecutionStatus = parse_persisted(row.status)?;
    Ok(
        SessionExecution {
            execution_id: row.execution_id,
            idempotency_key: row.idempotency_key,
            thread_key,
            status,
            metadata: row.metadata,
            error: row.error,
            created_at: row.created_at,
            updated_at: row.updated_at,
            started_at: row.started_at,
            completed_at: row.completed_at,
        },
    )
}

/// The outcome of creating an execution: the execution, and whether this
/// call inserted it (false when an execution with the same idempotency key
/// already existed and was returned instead).
#[derive(Debug)]
pub struct CreateExecutionResult {
    pub execution: SessionExecution,
    pub created: bool,
}

/// The stored row that execution creation returns, with its `created` flag.
pub struct CreateExecutionRow {
    pub created: bool,
    pub execution: SessionExecutionRow,
}

/// Reads the row returned by execution creation.
pub fn create_execution_result_from_row(row: CreateExecutionRow) -> (r: Result<
    CreateExecutionResult,
    SessionStoreError,
>)
    ensures
        r is Ok <==> execution_row_readable(row.execution),
        r matches Ok(x) ==> x.execution@ == execution_of_row(row.execution) && x.created
            == row.created,
        r matches Err(e) ==> e is InvalidPersistedValue,
{
    let created = row.created;
    let execution = execution_from_row(row.execution)?;
    Ok(CreateExecutionResult { execution, created })
}

/// The outcome of trying to move an execution from queued to running.
#[derive(Debug)]
pub struct ClaimExecutionResult {
    pub execution: SessionExecution,
    /// True only when this call moved the execution from queued to running.
    /// False means another request already claimed it (or it is terminal),
    /// so the caller must not drive the execution.
    pub claimed: bool,
}

/// The model of an event.
pub struct EventV {
    pub event_id: i64,
    pub thread_key: Seq<char>,
    pub execution_id: Option<Seq<char>>,
    pub event_type: Seq<char>,
    pub payload: Value,
    pub created_at: i128,
}

/// One entry of a session's durable event log.
#[derive(Debug)]
pub struct SessionEvent {
    pub event_id: i64,
    pub thread_key: ThreadKey,
    pub execution_id: Option<String>,
    pub event_type: String,
    pub payload: Value,
    pub created_at: i128,
}

impl View for SessionEvent {
    type V = EventV;

    open spec fn view(&self) -> EventV {
        EventV {
            event_id: self.event_id,
            thread_key: self.thread_key@,
            execution_id: opt_string_view(self.execution_id),
            event_type: self.event_type@,
            payload: self.payload,
            created_at: self.created_at,
        }
    }
}

impl SessionEvent {
    pub fn duplicate(&self) -> (r: SessionEvent)
        ensures
            r@ == self@,
    {
        SessionEvent {
            event_id: self.event_id,
            thread_key: self.thread_key.duplicate(),
            execution_id: opt_clone(&self.execution_id),
            event_type: self.event_type.clone(),
            payload: clone_json(&self.payload),
            created_at: self.created_at,
        }
    }
}

/// A stored event row, column for column.
pub struct SessionEventRow {
    pub event_id: i64,
    pub thread_key: String,
    pub execution_id: Option<String>,
    pub event_type: String,
    pub payload: Value,
    pub created_at: i128,
}

pub open spec fn event_of_row(row: SessionEventRow) -> EventV {
    EventV {
        event_id: row.event_id,
        thread_key: row.thread_key@,
        execution_id: opt_string_view(row.execution_id),
        event_type: row.event_type@,
        payload: row.payload,
        created_at: row.created_at,
    }
}

/// Reads a stored event row.
pub fn event_from_row(row: SessionEventRow) -> (r: Result<SessionEvent, SessionStoreError>)
    ensures
        r is Ok <==> is_valid_thread_key(row.thread_key@),
        r matches Ok(x) ==> x@ == event_of_row(row),
        r matches Err(e) ==> e is InvalidPersistedValue,
{
    let thread_key: ThreadKey = parse_persisted(row.thread_key)?;
    Ok(
        SessionEvent {
            event_id: row.event_id,
            thread_key,
            execution_id: row.execution_id,
            event_type: row.event_type,
            payload: row.payload,
            created_at: row.created_at,
        },
    )
}

/// The outcome of recording a delivery receipt.
#[derive(Debug)]
pub struct RecordExecutionDeliveryResult {
    pub event: SessionEvent,
    /// True only when this call inserted the durable receipt. Replays return
    /// the event the first call wrote, with `created = false`.
    pub created: bool,
}

/// A message as a caller hands it to the store.
#[derive(Debug)]
pub struct SessionMessageInput {
    pub client_message_id: Option<String>,
    pub role: MessageRole,
    pub parts: Vec<Value>,
    pub metadata: Value,
}

/// The model of a message.
pub struct MessageV {
    pub message_id: Seq<char>,
    pub client_message_id: Option<Seq<char>>,
    pub thread_key: Seq<char>,
    pub role: MessageRole,
    pub parts: Seq<Value>,
    pub metadata: Value,
    pub created_at: i128,
}

/// One stored message of a session.
#[derive(Debug)]
pub struct SessionMessage {
    pub message_id: String,
    pub client_message_id: Option<String>,
    pub thread_key: ThreadKey,
    pub role: MessageRole,
    pub parts: Vec<Value>,
    pub metadata: Value,
    pub created_at: i128,
}

impl View for SessionMessage {
    type V = MessageV;

    open spec fn view(&self) -> MessageV {
        MessageV {
            message_id: self.message_id@,
            client_message_id: opt_string_view(self.client_message_id),
            thread_key: self.thread_key@,
            role: self.role,
            parts: self.parts@,
            metadata: self.metadata,
            created_at: self.created_at,
        }
    }
}

/// A copy of a list of JSON documents.
pub fn clone_json_vec(v: &Vec<Value>) -> (r: Vec<Value>)
    ensures
        r@ == v@,
{
    let mut out: Vec<Value> = Vec::new();
    let mut i: usize = 0;
    while i < v.len()
        invariant
            0 <= i <= v.len(),
            out@ == v@.subrange(0, i as int),
        decreases v.len() - i,
    {
        out.push(clone_json(&v[i]));
        i = i + 1;
        assert(out@ =~= v@.subrange(0, i as int));
    }
    assert(v@.subrange(0, v.len() as int) =~= v@);
    out
}

impl SessionMessage {
    pub fn duplicate(&self) -> (r: SessionMessage)
        ensures
            r@ == self@,
    {
        SessionMessage {
            message_id: self.message_id.clone(),
            client_message_id: opt_clone(&self.client_message_id),
            thread_key: self.thread_key.duplicate(),
            role: self.role,
            parts: clone_json_vec(&self.parts),
            metadata: clone_json(&self.metadata),
            created_at: self.created_at,
        }
    }
}

/// A stored message row, column for column. `parts` is one JSON document.
pub struct SessionMessageRow {
    pub message_id: String,
    pub client_message_id: Option<String>,
    pub thread_key: String,
    pub role: String,
    pub parts: Value,
    pub metadata: Value,
    pub created_at: i128,
}

/// Reads a stored message row. A `parts` document that is an array gives
/// its items; any other document is the single part.
pub fn message_from_row(row: SessionMessageRow) -> (r: Result<SessionMessage, SessionStoreError>)
    ensures
        r is Ok <==> is_valid_thread_key(row.thread_key@) && MessageRole::spec_parse(row.role@) is Some,
        r matches Ok(m) ==> {
            &&& m.message_id@ == row.message_id@
            &&& opt_string_view(m.client_message_id) == opt_string_view(row.client_message_id)
            &&& m.thread_key@ == row.thread_key@
            &&& Some(m.role) == MessageRole::spec_parse(row.role@)
            &&& m.parts@ == parts_list(row.parts)
            &&& m.metadata == row.metadata
            &&& m.created_at == row.created_at
        },
        r matches Err(e) ==> e is InvalidPersistedValue,
{
    let parts = normalize_parts(row.parts);
    let thread_key: ThreadKey = parse_persisted(row.thread_key)?;
    let role: MessageRole = parse_persisted(row.role)?;
    Ok(
        SessionMessage {
            message_id: row.message_id,
            client_message_id: row.client_message_id,
            thread_key,
            role,
            parts,
            metadata: row.metadata,
            created_at: row.created_at,
        },
    )
}

} // verus!

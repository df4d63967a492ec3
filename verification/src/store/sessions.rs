//! Session rows: creation with binding checks, reads, and the single-row
//! updates of title, sandbox, harness, principal and activity.
use vstd::prelude::*;

use serde_json::Value;

use super::{SessionRecV, SessionRecord, SessionStore, StoreV};
use crate::error::{DatabaseFailure, SessionStoreError};
use crate::records::{Session, SessionV};
use crate::types::{
    opt_as_str, opt_string_view, opt_text_eq, opt_to_owned, opt_view, text_eq, HarnessType,
    SandboxCapabilities, SessionStatus, ThreadKey,
};

verus! {

/// `e` reports that no session has key `key`.
pub open spec fn is_not_found(e: SessionStoreError, key: Seq<char>) -> bool {
    e matches SessionStoreError::NotFound { thread_key } && thread_key@ == key
}

/// `e` reports that the database found no row to return.
pub open spec fn is_row_not_found(e: SessionStoreError) -> bool {
    e matches SessionStoreError::Sqlx(DatabaseFailure::RowNotFound)
}

/// `e` reports that session `key` runs `existing`, not `requested`.
pub open spec fn is_harness_conflict(
    e: SessionStoreError,
    key: Seq<char>,
    existing: HarnessType,
    requested: HarnessType,
) -> bool {
    e matches SessionStoreError::HarnessConflict { thread_key, existing: x, requested: y }
        && thread_key@ == key && x@ == existing.spec_str() && y@ == requested.spec_str()
}

/// `e` reports that session `key` has persona `existing`, not `requested`.
pub open spec fn is_persona_conflict(
    e: SessionStoreError,
    key: Seq<char>,
    existing: Option<Seq<char>>,
    requested: Option<Seq<char>>,
) -> bool {
    e matches SessionStoreError::PersonaConflict { thread_key, existing: x, requested: y }
        && thread_key@ == key && opt_string_view(x) == existing && opt_string_view(y)
        == requested
}

/// `e` reports that session `key` is bound to `existing`, not `requested`.
pub open spec fn is_principal_conflict(
    e: SessionStoreError,
    key: Seq<char>,
    existing: Option<Seq<char>>,
    requested: Seq<char>,
) -> bool {
    e matches SessionStoreError::PrincipalConflict { thread_key, existing: x, requested: y }
        && thread_key@ == key && opt_string_view(x) == existing && y@ == requested
}

/// What loading an existing session for a request answers: the harness
/// must match, then the persona; else the session itself.
pub open spec fn binding_outcome(
    r: Result<Session, SessionStoreError>,
    s: SessionV,
    harness_type: HarnessType,
    persona_id: Option<Seq<char>>,
) -> bool {
    if s.harness_type != harness_type {
        r matches Err(e) && is_harness_conflict(e, s.thread_key, s.harness_type, harness_type)
    } else if s.persona_id != persona_id {
        r matches Err(e) && is_persona_conflict(e, s.thread_key, s.persona_id, persona_id)
    } else {
        r matches Ok(x) && x@ == s
    }
}

/// As `binding_outcome`, with the session's principal checked first.
pub open spec fn principal_binding_outcome(
    r: Result<Session, SessionStoreError>,
    s: SessionV,
    harness_type: HarnessType,
    persona_id: Option<Seq<char>>,
    principal: Seq<char>,
) -> bool {
    if s.iron_control_principal != Some(principal) {
        r matches Err(e) && is_principal_conflict(
            e,
            s.thread_key,
            s.iron_control_principal,
            principal,
        )
    } else {
        binding_outcome(r, s, harness_type, persona_id)
    }
}

/// The session a create request inserts.
pub open spec fn new_session_v(
    key: Seq<char>,
    harness_type: HarnessType,
    persona_id: Option<Seq<char>>,
    principal: Option<Seq<char>>,
    now: i128,
) -> SessionV {
    SessionV {
        thread_key: key,
        title: None,
        sandbox_id: None,
        sandbox_content_revision: None,
        sandbox_capabilities: None,
        harness_type,
        harness_thread_id: None,
        persona_id,
        status: SessionStatus::Idle,
        iron_control_principal: principal,
        sandbox_last_active_at: None,
        created_at: now,
        updated_at: now,
    }
}

/// `s` with no sandbox assignment.
pub open spec fn without_sandbox(s: SessionV, now: i128) -> SessionV {
    SessionV {
        sandbox_id: None,
        sandbox_content_revision: None,
        sandbox_capabilities: None,
        sandbox_last_active_at: None,
        updated_at: now,
        ..s
    }
}

/// `s` assigned to sandbox `sandbox_id` with the given revision and
/// capabilities.
pub open spec fn with_sandbox(
    s: SessionV,
    sandbox_id: Seq<char>,
    content_revision: Option<Seq<char>>,
    capabilities: SandboxCapabilities,
    now: i128,
) -> SessionV {
    SessionV {
        sandbox_id: Some(sandbox_id),
        sandbox_content_revision: content_revision,
        sandbox_capabilities: Some(capabilities),
        sandbox_last_active_at: Some(now),
        updated_at: now,
        ..s
    }
}

impl StoreV {
    /// The store with session `s` appended.
    pub open spec fn with_new_session(self, s: SessionV, metadata: Value) -> StoreV {
        StoreV {
            sessions: self.sessions.push(SessionRecV { session: s, metadata }),
            ..self
        }
    }

    /// The store after setting the status of session `key`, if it exists.
    pub open spec fn with_session_status(self, key: Seq<char>, status: SessionStatus, now: i128) -> StoreV {
        match self.session_pos(key) {
            Some(i) => self.with_session(
                i,
                SessionV { status, updated_at: now, ..self.sessions[i].session },
            ),
            None => self,
        }
    }
}

/// Checks an existing session against a request: the harness must match,
/// then the persona.
pub fn check_session_binding(
    session: &Session,
    harness_type: &HarnessType,
    persona_id: Option<&str>,
) -> (r: Result<(), SessionStoreError>)
    ensures
        binding_outcome(
            match r {
                Ok(()) => Ok(*session),
                Err(e) => Err(e),
            },
            session@,
            *harness_type,
            opt_view(persona_id),
        ),
{
    if !session.harness_type.same(harness_type) {
        return Err(
            SessionStoreError::HarnessConflict {
                thread_key: session.thread_key.as_str().to_owned(),
                existing: session.harness_type.as_str().to_owned(),
                requested: harness_type.as_str().to_owned(),
            },
        );
    }
    if !opt_text_eq(opt_as_str(&session.persona_id), persona_id) {
        return Err(
            SessionStoreError::PersonaConflict {
                thread_key: session.thread_key.as_str().to_owned(),
                existing: crate::types::opt_clone(&session.persona_id),
                requested: opt_to_owned(persona_id),
            },
        );
    }
    Ok(())
}

/// Checks an existing session against a principal-bound request: the
/// principal must match, then the harness, then the persona.
pub fn check_principal_binding(
    session: &Session,
    harness_type: &HarnessType,
    persona_id: Option<&str>,
    iron_control_principal: &str,
) -> (r: Result<(), SessionStoreError>)
    ensures
        principal_binding_outcome(
            match r {
                Ok(()) => Ok(*session),
                Err(e) => Err(e),
            },
            session@,
            *harness_type,
            opt_view(persona_id),
            iron_control_principal@,
        ),
{
    if !opt_text_eq(opt_as_str(&session.iron_control_principal), Some(iron_control_principal)) {
        return Err(
            SessionStoreError::PrincipalConflict {
                thread_key: session.thread_key.as_str().to_owned(),
                existing: crate::types::opt_clone(&session.iron_control_principal),
                requested: iron_control_principal.to_owned(),
            },
        );
    }
    check_session_binding(session, harness_type, persona_id)
}

impl SessionStore {
    /// Appends a new session.
    fn push_session(&mut self, s: Session, metadata: Value)
        requires
            old(self)@.wf(),
            old(self)@.session_pos(s@.thread_key) is None,
        ensures
            final(self)@ == old(self)@.with_new_session(s@, metadata),
            final(self)@.wf(),
    {
        let ghost before = self@;
        self.sessions.push(SessionRecord { session: s, metadata });
        assert(self@.sessions =~= before.with_new_session(s@, metadata).sessions);
        assert forall|i: int, j: int|
            0 <= i < self@.sessions.len() && 0 <= j < self@.sessions.len() && i != j
                implies self@.sessions[i].session.thread_key
                != self@.sessions[j].session.thread_key by {
            if i == before.sessions.len() {
                assert(before.sessions[j].session.thread_key != s@.thread_key);
            } else if j == before.sessions.len() {
                assert(before.sessions[i].session.thread_key != s@.thread_key);
            }
        }
    }

    /// Inserts the session unless one with the key exists, then loads it and
    /// checks the harness and persona against the request.
    pub fn create_or_get_session(
        &mut self,
        thread_key: &ThreadKey,
        harness_type: &HarnessType,
        persona_id: Option<&str>,
        metadata: Value,
        now: i128,
    ) -> (r: Result<Session, SessionStoreError>)
        requires
            old(self)@.wf(),
        ensures
            final(self)@.wf(),
            match old(self)@.session_pos(thread_key@) {
                Some(i) => final(self)@ == old(self)@ && binding_outcome(
                    r,
                    old(self)@.sessions[i].session,
                    *harness_type,
                    opt_view(persona_id),
                ),
                None => {
                    let s = new_session_v(
                        thread_key@,
                        *harness_type,
                        opt_view(persona_id),
                        None,
                        now,
                    );
                    &&& final(self)@ == old(self)@.with_new_session(s, metadata)
                    &&& r matches Ok(x) && x@ == s
                },
            },
    {
        match self.find_session(thread_key.as_str()) {
            Some(i) => {
                let s = self.sessions[i].session.duplicate();
                match check_session_binding(&s, harness_type, persona_id) {
                    Ok(()) => Ok(s),
                    Err(e) => Err(e),
                }
            },
            None => {
                let s = Session {
                    thread_key: thread_key.duplicate(),
                    title: None,
                    sandbox_id: None,
                    sandbox_content_revision: None,
                    sandbox_capabilities: None,
                    harness_type: *harness_type,
                    harness_thread_id: None,
                    persona_id: opt_to_owned(persona_id),
                    status: SessionStatus::Idle,
                    iron_control_principal: None,
                    sandbox_last_active_at: None,
                    created_at: now,
                    updated_at: now,
                };
                let out = s.duplicate();
                self.push_session(s, metadata);
                Ok(out)
            },
        }
    }

    /// Inserts a session already bound to `iron_control_principal` unless
    /// one with the key exists, then loads it; an existing session must be
    /// bound to the same principal before harness and persona are checked.
    pub fn create_or_get_session_for_principal(
        &mut self,
        thread_key: &ThreadKey,
        harness_type: &HarnessType,
        persona_id: Option<&str>,
        metadata: Value,
        iron_control_principal: &str,
        now: i128,
    ) -> (r: Result<Session, SessionStoreError>)
        requires
            old(self)@.wf(),
        ensures
            final(self)@.wf(),
            match old(self)@.session_pos(thread_key@) {
                Some(i) => final(self)@ == old(self)@ && principal_binding_outcome(
                    r,
                    old(self)@.sessions[i].session,
                    *harness_type,
                    opt_view(persona_id),
                    iron_control_principal@,
                ),
                None => {
                    let s = new_session_v(
                        thread_key@,
                        *harness_type,
                        opt_view(persona_id),
                        Some(iron_control_principal@),
                        now,
                    );
                    &&& final(self)@ == old(self)@.with_new_session(s, metadata)
                    &&& r matches Ok(x) && x@ == s
                },
            },
    {
        match self.find_session(thread_key.as_str()) {
            Some(i) => {
                let s = self.sessions[i].session.duplicate();
                match check_principal_binding(&s, harness_type, persona_id, iron_control_principal) {
                    Ok(()) => Ok(s),
                    Err(e) => Err(e),
                }
            },
            None => {
                let s = Session {
                    thread_key: thread_key.duplicate(),
                    title: None,
                    sandbox_id: None,
                    sandbox_content_revision: None,
                    sandbox_capabilities: None,
                    harness_type: *harness_type,
                    harness_thread_id: None,
                    persona_id: opt_to_owned(persona_id),
                    status: SessionStatus::Idle,
                    iron_control_principal: Some(iron_control_principal.to_owned()),
                    sandbox_last_active_at: None,
                    created_at: now,
                    updated_at: now,
                };
                let out = s.duplicate();
                self.push_session(s, metadata);
                Ok(out)
            },
        }
    }

    /// The session with key `thread_key`.
    pub fn get_session(&self, thread_key: &ThreadKey) -> (r: Result<Session, SessionStoreError>)
        requires
            self@.wf(),
        ensures
            match self@.session_pos(thread_key@) {
                Some(i) => r matches Ok(s) && s@ == self@.sessions[i].session,
                None => r matches Err(e) && is_not_found(e, thread_key@),
            },
    {
        match self.find_session(thread_key.as_str()) {
            Some(i) => Ok(self.sessions[i].session.duplicate()),
            None => Err(
                SessionStoreError::NotFound { thread_key: thread_key.as_str().to_owned() },
            ),
        }
    }

    /// The title of session `thread_key`, when it exists and has one.
    pub fn get_session_title(&self, thread_key: &ThreadKey) -> (r: Option<String>)
        requires
            self@.wf(),
        ensures
            opt_string_view(r) == match self@.session_pos(thread_key@) {
                Some(i) => self@.sessions[i].session.title,
                None => None,
            },
    {
        match self.find_session(thread_key.as_str()) {
            Some(i) => crate::types::opt_clone(&self.sessions[i].session.title),
            None => None,
        }
    }

    /// Sets the title of session `thread_key` only while it has none.
    pub fn set_session_title_if_empty(&mut self, thread_key: &ThreadKey, title: &str, now: i128) -> (r:
        bool)
        requires
            old(self)@.wf(),
        ensures
            final(self)@.wf(),
            match old(self)@.session_pos(thread_key@) {
                Some(i) => if old(self)@.sessions[i].session.title is None {
                    &&& r
                    &&& final(self)@ == old(self)@.with_session(
                        i,
                        SessionV {
                            title: Some(title@),
                            updated_at: now,
                            ..old(self)@.sessions[i].session
                        },
                    )
                } else {
                    !r && final(self)@ == old(self)@
                },
                None => !r && final(self)@ == old(self)@,
            },
    {
        match self.find_session(thread_key.as_str()) {
            Some(i) => {
                if self.sessions[i].session.title.is_some() {
                    return false;
                }
                let mut s = self.sessions[i].session.duplicate();
                s.title = Some(title.to_owned());
                s.updated_at = now;
                self.put_session(i, s);
                true
            },
            None => false,
        }
    }

    /// Points session `thread_key` at `sandbox_id` (or at none), forgetting
    /// the previous assignment's revision and capabilities.
    pub fn update_sandbox_id(
        &mut self,
        thread_key: &ThreadKey,
        sandbox_id: Option<&str>,
        now: i128,
    ) -> (r: Result<Session, SessionStoreError>)
        requires
            old(self)@.wf(),
        ensures
            final(self)@.wf(),
            match old(self)@.session_pos(thread_key@) {
                Some(i) => {
                    let s = SessionV {
                        sandbox_id: opt_view(sandbox_id),
                        sandbox_content_revision: None,
                        sandbox_capabilities: None,
                        sandbox_last_active_at: if sandbox_id is Some {
                            Some(now)
                        } else {
                            None
                        },
                        updated_at: now,
                        ..old(self)@.sessions[i].session
                    };
                    &&& final(self)@ == old(self)@.with_session(i, s)
                    &&& r matches Ok(x) && x@ == s
                },
                None => final(self)@ == old(self)@ && (r matches Err(e) && is_row_not_found(e)),
            },
    {
        match self.find_session(thread_key.as_str()) {
            Some(i) => {
                let mut s = self.sessions[i].session.duplicate();
                s.sandbox_id = opt_to_owned(sandbox_id);
                s.sandbox_content_revision = None;
                s.sandbox_capabilities = None;
                s.sandbox_last_active_at = if sandbox_id.is_some() {
                    Some(now)
                } else {
                    None
                };
                s.updated_at = now;
                let out = s.duplicate();
                self.put_session(i, s);
                Ok(out)
            },
            None => Err(SessionStoreError::Sqlx(DatabaseFailure::RowNotFound)),
        }
    }

    /// Assigns sandbox `sandbox_id` with its revision and capabilities to
    /// session `thread_key`, unconditionally.
    pub fn update_sandbox_assignment(
        &mut self,
        thread_key: &ThreadKey,
        sandbox_id: &str,
        content_revision: Option<&str>,
        capabilities: &SandboxCapabilities,
        now: i128,
    ) -> (r: Result<Session, SessionStoreError>)
        requires
            old(self)@.wf(),
        ensures
            final(self)@.wf(),
            match old(self)@.session_pos(thread_key@) {
                Some(i) => {
                    let s = with_sandbox(
                        old(self)@.sessions[i].session,
                        sandbox_id@,
                        opt_view(content_revision),
                        *capabilities,
                        now,
                    );
                    &&& final(self)@ == old(self)@.with_session(i, s)
                    &&& r matches Ok(x) && x@ == s
                },
                None => final(self)@ == old(self)@ && (r matches Err(e) && is_row_not_found(e)),
            },
    {
        match self.find_session(thread_key.as_str()) {
            Some(i) => {
                let mut s = self.sessions[i].session.duplicate();
                s.sandbox_id = Some(sandbox_id.to_owned());
                s.sandbox_content_revision = opt_to_owned(content_revision);
                s.sandbox_capabilities = Some(*capabilities);
                s.sandbox_last_active_at = Some(now);
                s.updated_at = now;
                let out = s.duplicate();
                self.put_session(i, s);
                Ok(out)
            },
            None => Err(SessionStoreError::Sqlx(DatabaseFailure::RowNotFound)),
        }
    }

    /// Clears the sandbox of session `thread_key` only while it is still
    /// `sandbox_id`.
    pub fn clear_sandbox_id_if_matches(&mut self, thread_key: &ThreadKey, sandbox_id: &str, now: i128) -> (r:
        bool)
        requires
            old(self)@.wf(),
        ensures
            final(self)@.wf(),
            match old(self)@.session_pos(thread_key@) {
                Some(i) => if old(self)@.sessions[i].session.sandbox_id == Some(sandbox_id@) {
                    r && final(self)@ == old(self)@.with_session(
                        i,
                        without_sandbox(old(self)@.sessions[i].session, now),
                    )
                } else {
                    !r && final(self)@ == old(self)@
                },
                None => !r && final(self)@ == old(self)@,
            },
    {
        match self.find_session(thread_key.as_str()) {
            Some(i) => {
                if !opt_text_eq(opt_as_str(&self.sessions[i].session.sandbox_id), Some(sandbox_id)) {
                    return false;
                }
                let mut s = self.sessions[i].session.duplicate();
                s.sandbox_id = None;
                s.sandbox_content_revision = None;
                s.sandbox_capabilities = None;
                s.sandbox_last_active_at = None;
                s.updated_at = now;
                self.put_session(i, s);
                true
            },
            None => false,
        }
    }

    /// Moves session `thread_key` onto another harness: its sandbox and
    /// harness thread belong to the old harness and are cleared, and the
    /// session becomes idle. Messages and events are kept.
    pub fn switch_session_harness(
        &mut self,
        thread_key: &ThreadKey,
        harness_type: &HarnessType,
        now: i128,
    ) -> (r: Result<Session, SessionStoreError>)
        requires
            old(self)@.wf(),
        ensures
            final(self)@.wf(),
            match old(self)@.session_pos(thread_key@) {
                Some(i) => {
                    let s = SessionV {
                        harness_type: *harness_type,
                        harness_thread_id: None,
                        status: SessionStatus::Idle,
                        ..without_sandbox(old(self)@.sessions[i].session, now)
                    };
                    &&& final(self)@ == old(self)@.with_session(i, s)
                    &&& r matches Ok(x) && x@ == s
                },
                None => final(self)@ == old(self)@ && (r matches Err(e) && is_not_found(
                    e,
                    thread_key@,
                )),
            },
    {
        match self.find_session(thread_key.as_str()) {
            Some(i) => {
                let mut s = self.sessions[i].session.duplicate();
                s.harness_type = *harness_type;
                s.harness_thread_id = None;
                s.sandbox_id = None;
                s.sandbox_content_revision = None;
                s.sandbox_capabilities = None;
                s.sandbox_last_active_at = None;
                s.status = SessionStatus::Idle;
                s.updated_at = now;
                let out = s.duplicate();
                self.put_session(i, s);
                Ok(out)
            },
            None => Err(
                SessionStoreError::NotFound { thread_key: thread_key.as_str().to_owned() },
            ),
        }
    }

    /// Binds session `thread_key` to `iron_control_principal` (or unbinds it).
    pub fn set_iron_control_principal(
        &mut self,
        thread_key: &ThreadKey,
        iron_control_principal: Option<&str>,
        now: i128,
    ) -> (r: Result<Session, SessionStoreError>)
        requires
            old(self)@.wf(),
        ensures
            final(self)@.wf(),
            match old(self)@.session_pos(thread_key@) {
                Some(i) => {
                    let s = SessionV {
                        iron_control_principal: opt_view(iron_control_principal),
                        updated_at: now,
                        ..old(self)@.sessions[i].session
                    };
                    &&& final(self)@ == old(self)@.with_session(i, s)
                    &&& r matches Ok(x) && x@ == s
                },
                None => final(self)@ == old(self)@ && (r matches Err(e) && is_row_not_found(e)),
            },
    {
        match self.find_session(thread_key.as_str()) {
            Some(i) => {
                let mut s = self.sessions[i].session.duplicate();
                s.iron_control_principal = opt_to_owned(iron_control_principal);
                s.updated_at = now;
                let out = s.duplicate();
                self.put_session(i, s);
                Ok(out)
            },
            None => Err(SessionStoreError::Sqlx(DatabaseFailure::RowNotFound)),
        }
    }

    /// Records the harness's own thread id for session `thread_key`.
    pub fn update_harness_thread_id(
        &mut self,
        thread_key: &ThreadKey,
        harness_thread_id: Option<&str>,
        now: i128,
    ) -> (r: Result<Session, SessionStoreError>)
        requires
            old(self)@.wf(),
        ensures
            final(self)@.wf(),
            match old(self)@.session_pos(thread_key@) {
                Some(i) => {
                    let s = SessionV {
                        harness_thread_id: opt_view(harness_thread_id),
                        updated_at: now,
                        ..old(self)@.sessions[i].session
                    };
                    &&& final(self)@ == old(self)@.with_session(i, s)
                    &&& r matches Ok(x) && x@ == s
                },
                None => final(self)@ == old(self)@ && (r matches Err(e) && is_row_not_found(e)),
            },
    {
        match self.find_session(thread_key.as_str()) {
            Some(i) => {
                let mut s = self.sessions[i].session.duplicate();
                s.harness_thread_id = opt_to_owned(harness_thread_id);
                s.updated_at = now;
                let out = s.duplicate();
                self.put_session(i, s);
                Ok(out)
            },
            None => Err(SessionStoreError::Sqlx(DatabaseFailure::RowNotFound)),
        }
    }

    /// Marks the sandbox of session `thread_key` active now, when it has one.
    pub fn touch_session_sandbox_activity(&mut self, thread_key: &ThreadKey, now: i128) -> (r: bool)
        requires
            old(self)@.wf(),
        ensures
            final(self)@.wf(),
            match old(self)@.session_pos(thread_key@) {
                Some(i) => if old(self)@.sessions[i].session.sandbox_id is Some {
                    r && final(self)@ == old(self)@.with_session(
                        i,
                        SessionV {
                            sandbox_last_active_at: Some(now),
                            ..old(self)@.sessions[i].session
                        },
                    )
                } else {
                    !r && final(self)@ == old(self)@
                },
                None => !r && final(self)@ == old(self)@,
            },
    {
        match self.find_session(thread_key.as_str()) {
            Some(i) => {
                if self.sessions[i].session.sandbox_id.is_none() {
                    return false;
                }
                let mut s = self.sessions[i].session.duplicate();
                s.sandbox_last_active_at = Some(now);
                self.put_session(i, s);
                true
            },
            None => false,
        }
    }

    /// Marks sandbox `sandbox_id` of session `thread_key` active now, when
    /// it is still the session's sandbox.
    pub fn touch_sandbox_activity(&mut self, thread_key: &ThreadKey, sandbox_id: &str, now: i128) -> (r:
        bool)
        requires
            old(self)@.wf(),
        ensures
            final(self)@.wf(),
            match old(self)@.session_pos(thread_key@) {
                Some(i) => if old(self)@.sessions[i].session.sandbox_id == Some(sandbox_id@) {
                    r && final(self)@ == old(self)@.with_session(
                        i,
                        SessionV {
                            sandbox_last_active_at: Some(now),
                            ..old(self)@.sessions[i].session
                        },
                    )
                } else {
                    !r && final(self)@ == old(self)@
                },
                None => !r && final(self)@ == old(self)@,
            },
    {
        match self.find_session(thread_key.as_str()) {
            Some(i) => {
                if !opt_text_eq(opt_as_str(&self.sessions[i].session.sandbox_id), Some(sandbox_id)) {
                    return false;
                }
                let mut s = self.sessions[i].session.duplicate();
                s.sandbox_last_active_at = Some(now);
                self.put_session(i, s);
                true
            },
            None => false,
        }
    }

    /// Sets the status of session `thread_key`, if it exists.
    pub(crate) fn set_session_status(&mut self, thread_key: &str, status: SessionStatus, now: i128)
        requires
            old(self)@.wf(),
        ensures
            final(self)@.wf(),
            final(self)@ == old(self)@.with_session_status(thread_key@, status, now),
    {
        match self.find_session(thread_key) {
            Some(i) => {
                let mut s = self.sessions[i].session.duplicate();
                s.status = status;
                s.updated_at = now;
                self.put_session(i, s);
            },
            None => {},
        }
    }
}

} // verus!

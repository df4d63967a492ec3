//! Why a store operation failed.
use vstd::prelude::*;

verus! {

/// A failure reported by the database rather than decided by the store.
#[derive(Debug)]
pub enum DatabaseFailure {
    /// A statement that must return a row returned none.
    RowNotFound,
    /// A row referred to a session, or an event to an execution, that does
    /// not exist.
    ForeignKeyViolation,
    /// A row would repeat a key that must be unique.
    UniqueViolation,
    /// An identity sequence has no value left.
    SequenceExhausted,
    /// Any other database or connection failure, described.
    Other(String),
}

/// `None`, or `Some("text")`: how an optional text is shown in a message.
pub open spec fn shown_opt(o: Option<String>) -> Seq<char> {
    match o {
        Some(text) => "Some(\""@ + text@ + "\")"@,
        None => "None"@,
    }
}

/// Appends `None` or `Some("text")` to `out`.
fn append_debug_opt(out: &mut String, o: &Option<String>)
    ensures
        final(out)@ == old(out)@ + shown_opt(*o),
{
    match o {
        Some(text) => {
            out.append("Some(\"");
            out.append(text.as_str());
            out.append("\")");
        },
        None => out.append("None"),
    }
}

/// The store's error type.
#[derive(Debug)]
pub enum SessionStoreError {
    NotFound { thread_key: String },
    HarnessConflict { thread_key: String, existing: String, requested: String },
    PersonaConflict {
        thread_key: String,
        existing: Option<String>,
        requested: Option<String>,
    },
    PrincipalConflict { thread_key: String, existing: Option<String>, requested: String },
    InvalidPersistedValue(String),
    InvalidNotification { channel: String, payload: String, error: String },
    Sqlx(DatabaseFailure),
    Migrate(String),
}

/// The text of a database failure.
pub open spec fn failure_text(f: DatabaseFailure) -> Seq<char> {
    match f {
        DatabaseFailure::RowNotFound => "no rows returned by a query that expected to return at least one row"@,
        DatabaseFailure::ForeignKeyViolation => "database error: foreign key violation"@,
        DatabaseFailure::UniqueViolation => "database error: unique violation"@,
        DatabaseFailure::SequenceExhausted => "database error: sequence exhausted"@,
        DatabaseFailure::Other(text) => text@,
    }
}

/// The text of an error, as the store's users print it.
pub open spec fn message_text(e: SessionStoreError) -> Seq<char> {
    match e {
        SessionStoreError::NotFound { thread_key } => "session not found for thread_key "@
            + thread_key@,
        SessionStoreError::HarnessConflict { thread_key, existing, requested } => "session "@
            + thread_key@ + " already exists with harness_type "@ + existing@ + ", requested "@
            + requested@,
        SessionStoreError::PersonaConflict { thread_key, existing, requested } => "session "@
            + thread_key@ + " already exists with persona_id "@ + shown_opt(existing)
            + ", requested "@ + shown_opt(requested),
        SessionStoreError::PrincipalConflict { thread_key, existing, requested } => "session "@
            + thread_key@ + " is bound to principal "@ + shown_opt(existing)
            + ", requested principal "@ + requested@,
        SessionStoreError::InvalidPersistedValue(v) => "invalid persisted value: "@ + v@,
        SessionStoreError::InvalidNotification { channel, payload, error } =>
            "invalid notification payload on "@ + channel@ + ": "@ + payload@ + ": "@ + error@,
        SessionStoreError::Sqlx(f) => failure_text(f),
        SessionStoreError::Migrate(text) => text@,
    }
}

impl SessionStoreError {
    /// The error's text, as the store's users print it.
    pub fn message(&self) -> (r: String)
        ensures
            r@ == message_text(*self),
    {
        match self {
            SessionStoreError::NotFound { thread_key } => {
                let mut s = "session not found for thread_key ".to_owned();
                s.append(thread_key.as_str());
                s
            },
            SessionStoreError::HarnessConflict { thread_key, existing, requested } => {
                let mut s = "session ".to_owned();
                s.append(thread_key.as_str());
                s.append(" already exists with harness_type ");
                s.append(existing.as_str());
                s.append(", requested ");
                s.append(requested.as_str());
                s
            },
            SessionStoreError::PersonaConflict { thread_key, existing, requested } => {
                let mut s = "session ".to_owned();
                s.append(thread_key.as_str());
                s.append(" already exists with persona_id ");
                append_debug_opt(&mut s, existing);
                s.append(", requested ");
                append_debug_opt(&mut s, requested);
                s
            },
            SessionStoreError::PrincipalConflict { thread_key, existing, requested } => {
                let mut s = "session ".to_owned();
                s.append(thread_key.as_str());
                s.append(" is bound to principal ");
                append_debug_opt(&mut s, existing);
                s.append(", requested principal ");
                s.append(requested.as_str());
                s
            },
            SessionStoreError::InvalidPersistedValue(v) => {
                let mut s = "invalid persisted value: ".to_owned();
                s.append(v.as_str());
                s
            },
            SessionStoreError::InvalidNotification { channel, payload, error } => {
                let mut s = "invalid notification payload on ".to_owned();
                s.append(channel.as_str());
                s.append(": ");
                s.append(payload.as_str());
                s.append(": ");
                s.append(error.as_str());
                s
            },
            SessionStoreError::Sqlx(f) => match f {
                DatabaseFailure::RowNotFound => "no rows returned by a query that expected to return at least one row".to_owned(),
                DatabaseFailure::ForeignKeyViolation => "database error: foreign key violation".to_owned(),
                DatabaseFailure::UniqueViolation => "database error: unique violation".to_owned(),
                DatabaseFailure::SequenceExhausted => "database error: sequence exhausted".to_owned(),
                DatabaseFailure::Other(text) => text.clone(),
            },
            SessionStoreError::Migrate(text) => text.clone(),
        }
    }
}

} // verus!

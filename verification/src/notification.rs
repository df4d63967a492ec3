//! Notifications that announce a new session event, as the database sends
//! them on the session events channel.
use vstd::prelude::*;

use serde_json::Value;

use crate::error::SessionStoreError;
use crate::json::{json_member_of, json_str_of};
use crate::types::text_eq;

verus! {

/// The channel on which the store announces appended events.
pub const SESSION_EVENTS_CHANNEL: &'static str = "centaur_session_events";

/// One announced event: the thread it belongs to and its id.
#[derive(Clone, Debug, PartialEq, Eq)]
pub struct SessionEventNotification {
    pub thread_key: String,
    pub event_id: i64,
}

/// The text member `key` of a document.
pub open spec fn text_member_of(doc: Value, key: Seq<char>) -> Option<Seq<char>> {
    match json_member_of(doc, key) {
        Some(v) => json_str_of(v),
        None => None,
    }
}

/// True when a listener reads notifications that come on `channel`: those of
/// the session events channel, and no other.
pub fn listens_to(channel: &str) -> (r: bool)
    ensures
        r == (channel@ == SESSION_EVENTS_CHANNEL@),
{
    text_eq(channel, SESSION_EVENTS_CHANNEL)
}

/// The outcome of one notification of the session events channel, given
/// what its payload read as: the notification, or, for a payload that is
/// not one, an invalid-notification error that names the channel, the
/// payload and the reason the reading gave.
pub fn notification_result(
    channel: &str,
    payload: &str,
    read: Result<SessionEventNotification, String>,
) -> (r: Result<SessionEventNotification, SessionStoreError>)
    ensures
        match read {
            Ok(n) => r == Ok::<SessionEventNotification, SessionStoreError>(n),
            Err(reason) => r matches Err(SessionStoreError::InvalidNotification { channel: c, payload: p, error: e })
                && c@ == channel@ && p@ == payload@ && e@ == reason@,
        },
{
    match read {
        Ok(n) => Ok(n),
        Err(reason) => Err(
            SessionStoreError::InvalidNotification {
                channel: channel.to_owned(),
                payload: payload.to_owned(),
                error: reason,
            },
        ),
    }
}

} // verus!

//! Lease deadlines and the timestamp range the store can represent.
use vstd::prelude::*;

verus! {

/// The latest representable instant, 9999-12-31T23:59:59.999999999Z, in
/// nanoseconds since the Unix epoch.
pub const MAX_UNIX_NANOS: i128 = 253_402_300_799_999_999_999i128;

/// The earliest representable instant, -9999-01-01T00:00:00Z, in nanoseconds
/// since the Unix epoch.
pub const MIN_UNIX_NANOS: i128 = -377_705_116_800_000_000_000i128;

/// `t` is a representable instant.
pub open spec fn valid_instant(t: int) -> bool {
    MIN_UNIX_NANOS <= t <= MAX_UNIX_NANOS
}

/// A lease of `lease` nanoseconds taken at `now` ends at a representable
/// instant.
pub open spec fn valid_deadline(now: i128, lease: u128) -> bool {
    valid_instant(now as int) && valid_instant(now + lease)
}

/// The end of a lease of `lease` nanoseconds taken at `now`.
pub fn lease_deadline(now: i128, lease: u128) -> (r: i128)
    requires
        valid_deadline(now, lease),
    ensures
        r == now + lease,
{
    now + (lease as i128)
}

/// Calls `time::OffsetDateTime::now_utc()` and reads it as
/// `unix_timestamp_nanos()`. The clock is the machine's: the contract claims
/// only that the instant is in the range an `OffsetDateTime` can hold.
#[verifier::external_body]
pub(crate) fn current_unix_nanos() -> (r: i128)
    ensures
        valid_instant(r as int),
{
    time::OffsetDateTime::now_utc().unix_timestamp_nanos()
}

/// The end of a lease of `lease` nanoseconds taken at `now`, or `None` when
/// it would lie past the last representable instant.
pub open spec fn spec_lease_expiry(now: i128, lease: u128) -> Option<i128> {
    if now + lease <= MAX_UNIX_NANOS {
        Some((now + lease) as i128)
    } else {
        None
    }
}

/// The end of a lease of `lease` nanoseconds taken at the instant `now`,
/// or `None` when it would lie past the last representable instant.
pub fn lease_expiry_from(now: i128, lease: u128) -> (r: Option<i128>)
    requires
        valid_instant(now as int),
    ensures
        r == spec_lease_expiry(now, lease),
{
    if lease > (MAX_UNIX_NANOS - now) as u128 {
        None
    } else {
        Some(lease_deadline(now, lease))
    }
}

/// The end of a stdout lease of `lease` nanoseconds taken now, or `None`
/// when it would lie past the last representable instant. Which instant
/// "now" is rests on the machine's clock; the outcome is the one
/// `lease_expiry_from` gives for that instant.
pub fn stdout_lease_expires_at(lease: u128) -> (r: Option<i128>)
    ensures
        exists|now: i128| valid_instant(now as int) && r == spec_lease_expiry(now, lease),
        lease == 0 ==> r is Some,
{
    let now = current_unix_nanos();
    lease_expiry_from(now, lease)
}

/// At `now`, at least `span` nanoseconds have passed since `start`.
pub fn elapsed_at_least(start: i128, span: u128, now: i128) -> (r: bool)
    ensures
        r == (start <= now - span),
{
    if start > now {
        return false;
    }
    let age: u128 = if start >= 0 || now < 0 {
        (now - start) as u128
    } else {
        let a = now as u128;
        let b = (-(start + 1)) as u128;
        a + b + 1
    };
    age >= span
}

} // verus!

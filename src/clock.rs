use vstd::prelude::*;

use time::OffsetDateTime;
use uuid::Uuid;

verus! {

/// Relies on time::OffsetDateTime::now_utc: the current moment, as Unix
/// nanoseconds. It depends on the clock, so nothing is promised of it.
#[verifier::external_body]
pub(crate) fn now_unix_nanos() -> i128 {
    OffsetDateTime::now_utc().unix_timestamp_nanos()
}

/// Relies on uuid::Uuid::now_v7: a new time-ordered identifier, as its
/// 128-bit value. It depends on the clock and on chance, so nothing is
/// promised of it.
#[verifier::external_body]
pub(crate) fn fresh_alias() -> u128 {
    Uuid::now_v7().as_u128()
}

/// Relies on uuid::Uuid::new_v4: a new random identifier, as its 128-bit
/// value. It depends on chance, so nothing is promised of it.
#[verifier::external_body]
pub(crate) fn fresh_server_id() -> u128 {
    Uuid::new_v4().as_u128()
}

} // verus!

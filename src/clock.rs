//! The current time and fresh output ids, from the system.
use vstd::prelude::*;

verus! {

/// Relies on `chrono::Utc::now().timestamp()`: the current time in whole
/// seconds since the Unix epoch (chrono panics on a system clock set before
/// the epoch).
#[verifier::external_body]
fn unix_seconds() -> (r: i64) {
    chrono::Utc::now().timestamp()
}

/// Relies on `uuid::Uuid::new_v4`: a random version 4 UUID, as a number.
#[verifier::external_body]
fn random_uuid() -> (r: u128) {
    uuid::Uuid::new_v4().as_u128()
}

/// The current time in seconds since the Unix epoch. The count is never
/// negative: chrono stops the process rather than read a clock set before the
/// epoch.
pub fn now() -> (r: u64) {
    unix_seconds() as u64
}

/// A fresh unique id for an output.
pub fn new_unique_id() -> (r: u128) {
    random_uuid()
}

} // verus!

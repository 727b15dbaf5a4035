//! The two places this library leans on outside crates: fresh replica ids
//! and the jittered cron interval.  Each call is behind one trusted wrapper;
//! everything that uses the results is verified for every value they allow.

use vstd::prelude::*;

verus! {

/// Relies on uuid::Uuid::new_v4 and its hyphenated display form: a fresh
/// random id, 36 characters long.  Nothing else is assumed of it — two
/// calls may or may not differ.
#[verifier::external_body]
pub(crate) fn fresh_peer_id() -> (r: String)
    ensures
        r@.len() == 36,
{
    uuid::Uuid::new_v4().to_string()
}

/// Relies on rand::random_range: a sample from the half-open range, which
/// panics only when the range is empty.
#[verifier::external_body]
fn random_in(lo: u64, hi: u64) -> (r: u64)
    requires
        lo < hi,
    ensures
        lo <= r < hi,
{
    rand::random_range(lo..hi)
}

/// The jittered cron interval, in milliseconds: uniformly drawn anew each
/// cycle to desynchronize concurrent leadership attempts across replicas.
pub fn tick_interval_ms() -> (r: u64)
    ensures
        400 <= r < 500,
{
    random_in(400, 500)
}

} // verus!

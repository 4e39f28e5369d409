//! What the interpreter takes from its surroundings: a monotonic clock for the
//! timer gate and a source of random bytes.
use vstd::prelude::*;

verus! {

#[verifier::external_type_specification]
#[verifier::external_body]
pub struct ExInstant(std::time::Instant);

/// Relies on `std::time::Instant::now`: the current reading of the monotonic
/// clock. Nothing is known of the value.
#[verifier::external_body]
pub(crate) fn now() -> (r: std::time::Instant) {
    std::time::Instant::now()
}

/// Relies on `std::time::Instant::elapsed` (with `Duration::as_nanos`): the
/// nanoseconds since `since`. It depends on the clock, so nothing is promised.
#[verifier::external_body]
pub(crate) fn nanos_since(since: &std::time::Instant) -> (r: u128) {
    since.elapsed().as_nanos()
}

/// Relies on `rand::random::<u8>`: a byte drawn from the thread-local
/// generator. Any byte may come back.
#[verifier::external_body]
pub(crate) fn random_byte() -> (r: u8) {
    rand::random::<u8>()
}

} // verus!

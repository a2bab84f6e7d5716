//! The monotonic clock by which records expire.

use std::time::{Duration, Instant};
use vstd::prelude::*;

verus! {

/// A point of time on `std`'s monotonic clock. Nothing is known of what is
/// inside: an instant is only carried from the clock into a record.
#[verifier::external_type_specification]
#[verifier::external_body]
pub struct ExInstant(Instant);

/// `Instant::now` reads the clock. Nothing is promised of what it reads.
pub assume_specification[ Instant::now ]() -> (now: Instant);

/// `Duration::from_secs` makes a span of whole seconds. It accepts every
/// number of seconds; nothing more is stated of the span.
pub assume_specification[ Duration::from_secs ](secs: u64) -> (span: Duration);

/// `Instant::checked_add` moves an instant forward by a span, or gives `None`
/// where the clock cannot represent the sum. Which of the two is not stated:
/// it depends on the platform's clock.
pub assume_specification[ Instant::checked_add ](instant: &Instant, span: Duration) -> (sum:
    Option<Instant>);

/// The instant `ttl` seconds from now, or `None` if the clock cannot
/// represent it.
pub(crate) fn expiry_after(ttl: u64) -> (expires: Option<Instant>) {
    Instant::now().checked_add(Duration::from_secs(ttl))
}

} // verus!

//! What the search reads from outside itself: the time elapsed since it
//! started, and the flags the interface raises.
//!
//! Both change under the search's feet, so nothing is promised of what a
//! read returns: the search's contracts hold whatever comes back.
use vstd::prelude::*;

use std::sync::atomic::AtomicBool;
use std::sync::atomic::Ordering;

verus! {

#[verifier::external_type_specification]
#[verifier::external_body]
pub struct ExInstant(std::time::Instant);

/// The current instant (`Instant::now`).
#[verifier::external_body]
pub(crate) fn now() -> std::time::Instant {
    std::time::Instant::now()
}

/// The whole milliseconds elapsed since `start` (`Instant::elapsed`),
/// saturated to `u64::MAX`.
#[verifier::external_body]
pub(crate) fn millis_since(start: &std::time::Instant) -> u64 {
    u64::try_from(start.elapsed().as_millis()).unwrap_or(u64::MAX)
}

/// Whether a flag is raised, as last written by any thread.
pub fn is_raised(flag: &AtomicBool) -> bool {
    flag.load(Ordering::Relaxed)
}

/// Raises or lowers a flag.
pub fn set_flag(flag: &AtomicBool, value: bool) {
    flag.store(value, Ordering::Relaxed);
}

} // verus!

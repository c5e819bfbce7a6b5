//! The monotonic clock, read as the time elapsed since an instant that a
//! service took when it was made.
use vstd::prelude::*;

verus! {

#[verifier::external_type_specification]
#[verifier::external_body]
pub struct ExInstant(std::time::Instant);

/// `Instant::now`: a reading of the monotonic clock; nothing is claimed of it.
#[verifier::external_body]
pub(crate) fn instant_now() -> std::time::Instant {
    std::time::Instant::now()
}

/// `Instant::elapsed`: the monotonic time since `origin`, in nanoseconds
/// (`Duration::as_nanos`, kept to 64 bits, which last for centuries); nothing
/// is claimed of the value.
#[verifier::external_body]
pub(crate) fn elapsed_ns(origin: &std::time::Instant) -> u64 {
    origin.elapsed().as_nanos() as u64
}

} // verus!

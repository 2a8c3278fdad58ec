//! A monotonic clock that counts nanoseconds from its own start.
use vstd::prelude::*;

verus! {

/// A point of the machine's monotonic clock. Nothing inside it is visible to proofs.
#[verifier::external_type_specification]
#[verifier::external_body]
pub struct ExInstant(std::time::Instant);

/// `std::time::Instant::now`. Nothing is claimed of the point that is read.
#[verifier::external_body]
fn instant_now() -> (r: std::time::Instant) {
    std::time::Instant::now()
}

/// `std::time::Instant::elapsed`, in whole nanoseconds. Nothing is claimed of
/// the time that is read.
#[verifier::external_body]
fn nanos_since(origin: &std::time::Instant) -> (r: u128) {
    origin.elapsed().as_nanos()
}

/// A monotonic clock. Its readings are nanoseconds since it was started.
///
/// What a reading is depends on the machine, so nothing is promised of it but
/// that the machine's clock gave it: whatever acts on a reading takes it as an
/// argument and is verified for every value.
#[derive(Debug, Clone, Copy)]
pub struct Clock {
    origin: std::time::Instant,
}

/// What a function gives.
fn start_with<F: Fn() -> std::time::Instant>(read: F) -> (r: std::time::Instant)
    requires
        call_requires(read, ()),
    ensures
        call_ensures(read, (), r),
{
    read()
}

/// What a function gives for an instant.
fn read_with<F: Fn(&std::time::Instant) -> u128>(read: F, origin: &std::time::Instant) -> (r: u128)
    requires
        call_requires(read, (origin,)),
    ensures
        call_ensures(read, (origin,), r),
{
    read(origin)
}

impl Clock {
    /// Whether the clock may read `now`: the machine's clock, asked for the time
    /// since the start, gives it.
    pub closed spec fn reads(self, now: u128) -> bool {
        call_ensures(nanos_since, (&self.origin,), now)
    }

    /// Whether the clock starts at a moment that the machine's clock gave.
    pub closed spec fn started(self) -> bool {
        call_ensures(instant_now, (), self.origin)
    }

    /// A clock that starts now. Nothing else is promised of the moment it starts at.
    pub(crate) fn start() -> (r: Self)
        ensures
            r.started(),
    {
        Clock { origin: start_with(instant_now) }
    }

    /// Nanoseconds since the start. Nothing else is promised of how many.
    pub(crate) fn now(&self) -> (r: u128)
        ensures
            self.reads(r),
    {
        read_with(nanos_since, &self.origin)
    }
}

} // verus!

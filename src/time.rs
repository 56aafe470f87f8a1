//! Points in time, as nanoseconds since the Unix epoch.
use vstd::prelude::*;

verus! {

/// A point in time: nanoseconds since the Unix epoch.
#[derive(Clone, Copy, Debug, PartialEq, Eq, Structural)]
pub struct Timestamp {
    pub nanos: u64,
}

impl Timestamp {
    /// A timestamp from nanoseconds since the Unix epoch.
    pub fn from_nanos(nanos: u64) -> (r: Timestamp)
        ensures
            r.nanos == nanos,
    {
        Timestamp { nanos }
    }
}

/// Relies on `std::time::SystemTime::now`: the wall clock, read when called.
/// Nothing is known of the value (a clock before the epoch reads as zero).
#[verifier::external_body]
pub fn now() -> (r: Timestamp)
    opens_invariants none
    no_unwind
{
    let d = std::time::SystemTime::now().duration_since(std::time::UNIX_EPOCH);
    Timestamp { nanos: d.map(|d| d.as_nanos() as u64).unwrap_or(0) }
}

} // verus!

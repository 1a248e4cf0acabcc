use vstd::prelude::*;

verus! {

/// A UNIX timestamp in seconds.
#[derive(Clone, Copy, Debug, PartialEq, Eq, Structural)]
pub struct Timestamp(pub u64);

/// A UNIX timestamp in nanoseconds.
#[derive(Clone, Copy, Debug, PartialEq, Eq, Structural)]
pub struct NanoTimestamp(pub u64);

/// Calls `SystemTime::elapsed` on the UNIX epoch: the whole seconds since the epoch, where a
/// clock set before the epoch reads as zero. Nothing is stated of the result: it is the time.
#[verifier::external_body]
pub(crate) fn unix_time() -> (t: Timestamp) {
    let elapsed = std::time::UNIX_EPOCH.elapsed();
    Timestamp(elapsed.map(|d| d.as_secs()).unwrap_or(0))
}

} // verus!

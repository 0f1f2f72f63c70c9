//! Wall-clock instants as plain values.
use vstd::prelude::*;

verus! {

/// An instant in UTC: whole seconds since the Unix epoch (negative before it)
/// and the nanoseconds past that second.
#[derive(Debug, Clone, Copy, PartialEq, Eq, Structural)]
pub struct Timestamp {
    pub secs: i64,
    pub nanos: u32,
}

/// What every reading of the system clock satisfies: the nanoseconds are
/// below one second.
pub open spec fn is_clock_reading(t: Timestamp) -> bool {
    t.nanos < 1_000_000_000
}

/// Reads the system clock through chrono's `From<SystemTime>` for
/// `DateTime<Utc>` and returns the instant as seconds and nanoseconds. What
/// instant comes back depends on the system clock and is not stated. chrono
/// turns a clock set before 1970 into negative seconds with the nanoseconds
/// counted forward, so the nanoseconds are always below one second. Its only
/// failure (an `unwrap`) is for an instant outside its range of about 262,000
/// years either side of year 0; the Linux kernel keeps its clock in signed
/// 64-bit nanoseconds, within about 292 years of 1970.
#[verifier::external_body]
pub(crate) fn current_time() -> (t: Timestamp)
    ensures
        is_clock_reading(t),
{
    let now = chrono::DateTime::<chrono::Utc>::from(std::time::SystemTime::now());
    Timestamp { secs: now.timestamp(), nanos: now.timestamp_subsec_nanos() }
}

} // verus!

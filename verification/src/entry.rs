//! A log entry taken from a received packet, stamped with the wall clock.

use vstd::prelude::*;

verus! {

/// `std::time::SystemTime`, carried as an opaque value.
#[verifier::external_type_specification]
#[verifier::external_body]
pub struct ExSystemTime(std::time::SystemTime);

/// `std::time::SystemTime::now`. What it returns depends on the clock, so
/// nothing is stated of it.
#[verifier::external_body]
fn system_clock_now() -> std::time::SystemTime {
    std::time::SystemTime::now()
}

/// `std::time::SystemTime::duration_since` with `UNIX_EPOCH`, its error
/// turned into `None`. Whether the clock reads before the epoch depends on the
/// clock, so nothing is stated of it.
#[verifier::external_body]
fn elapsed_since_unix_epoch(t: &std::time::SystemTime) -> Option<core::time::Duration> {
    t.duration_since(std::time::UNIX_EPOCH).ok()
}

/// `core::time::Duration::as_secs`: the whole seconds of a duration. A
/// `Duration` is opaque here, so nothing is stated of the number.
#[verifier::external_body]
fn duration_whole_secs(d: &core::time::Duration) -> u64 {
    d.as_secs()
}

/// `core::time::Duration::subsec_nanos`: the nanoseconds past the whole
/// seconds, which std documents as always less than one billion.
#[verifier::external_body]
fn duration_subsec_nanos(d: &core::time::Duration) -> (n: u32)
    ensures
        n < 1_000_000_000,
{
    d.subsec_nanos()
}

/// The number of whole milliseconds in `secs` seconds and `subsec_nanos`
/// nanoseconds.
pub open spec fn whole_millis(secs: u64, subsec_nanos: u32) -> int {
    secs * 1000 + subsec_nanos / 1_000_000
}

/// The number of whole milliseconds in `secs` seconds and `subsec_nanos`
/// nanoseconds.
pub fn millis_of(secs: u64, subsec_nanos: u32) -> (m: u128)
    ensures
        m == whole_millis(secs, subsec_nanos),
{
    (secs as u128) * 1000 + (subsec_nanos / 1_000_000) as u128
}

/// A log record that borrows its payload from the buffer it was received in.
pub struct LogEntry<'a> {
    pub timestamp: u64,
    pub payload: &'a [u8],
}

impl<'a> LogEntry<'a> {
    /// The entry for `packet` taken `millis` milliseconds after the Unix epoch;
    /// the timestamp keeps the low 64 bits of `millis`.
    pub fn at_time(packet: &'a [u8], millis: u128) -> (e: LogEntry<'a>)
        ensures
            e.timestamp == millis as u64,
            e.payload@ == packet@,
    {
        LogEntry { timestamp: millis as u64, payload: packet }
    }

    /// Extracts a log entry from raw packet data, stamped with the number of
    /// milliseconds since the Unix epoch that the system clock reads now.
    /// `None` when the clock reads a time before the epoch.
    pub fn extract(packet: &'a [u8]) -> (r: Option<LogEntry<'a>>)
        ensures
            r matches Some(e) ==> e.payload@ == packet@,
            r matches Some(e) ==> exists|secs: u64, nanos: u32|
                nanos < 1_000_000_000 && e.timestamp == #[trigger] whole_millis(secs, nanos) as u64,
    {
        match unix_millis_now() {
            Some(millis) => Some(LogEntry::at_time(packet, millis)),
            None => None,
        }
    }
}

/// The number of whole milliseconds since the Unix epoch that the system
/// clock reads now; `None` when it reads a time before the epoch.
pub fn unix_millis_now() -> (r: Option<u128>)
    ensures
        r matches Some(m) ==> exists|secs: u64, nanos: u32|
            nanos < 1_000_000_000 && m == #[trigger] whole_millis(secs, nanos),
{
    let now = system_clock_now();
    match elapsed_since_unix_epoch(&now) {
        Some(d) => {
            let secs = duration_whole_secs(&d);
            let nanos = duration_subsec_nanos(&d);
            Some(millis_of(secs, nanos))
        },
        None => None,
    }
}

} // verus!

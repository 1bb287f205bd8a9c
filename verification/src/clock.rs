//! The wall clock, read through `std::time::SystemTime`.
use vstd::prelude::*;

verus! {

/// Time since the Unix epoch by the system clock, in whole milliseconds
/// (`SystemTime::now().duration_since(UNIX_EPOCH)`, then
/// `Duration::as_millis`); `None` when the clock is set before the epoch.
/// The value depends on the machine's clock, so nothing is promised of it.
#[verifier::external_body]
pub(crate) fn system_millis_since_epoch() -> (r: Option<u128>) {
    match std::time::SystemTime::now().duration_since(std::time::UNIX_EPOCH) {
        Ok(d) => Some(d.as_millis()),
        Err(_) => None,
    }
}

/// A clock reading as `u64` milliseconds: zero for a clock before the
/// epoch, otherwise the reading cut to 64 bits.
pub open spec fn millis_u64_of(reading: Option<u128>) -> u64 {
    match reading {
        None => 0,
        Some(ms) => ms as u64,
    }
}

/// A clock reading as `i64` milliseconds: zero for a clock before the
/// epoch, the reading when it fits, `i64::MAX` beyond.
pub open spec fn millis_i64_of(reading: Option<u128>) -> i64 {
    match reading {
        None => 0,
        Some(ms) => if ms <= i64::MAX {
            ms as i64
        } else {
            i64::MAX
        },
    }
}

/// Converts a clock reading to `u64` milliseconds.
pub fn millis_u64_from(reading: Option<u128>) -> (ms: u64)
    ensures
        ms == millis_u64_of(reading),
{
    match reading {
        None => 0,
        Some(m) => {
            #[verifier::truncate]
            (m as u64)
        },
    }
}

/// Converts a clock reading to `i64` milliseconds.
pub fn millis_i64_from(reading: Option<u128>) -> (ms: i64)
    ensures
        ms == millis_i64_of(reading),
{
    match reading {
        None => 0,
        Some(m) => if m <= 0x7fff_ffff_ffff_ffffu128 {
            m as i64
        } else {
            0x7fff_ffff_ffff_ffffi64
        },
    }
}

/// Milliseconds since the Unix epoch now, with a clock before the epoch
/// read as zero.
pub fn now_millis_u64() -> (ms: u64)
    ensures
        exists|reading: Option<u128>| ms == #[trigger] millis_u64_of(reading),
{
    let reading = system_millis_since_epoch();
    millis_u64_from(reading)
}

/// Milliseconds since the Unix epoch now as a signed timestamp, with a
/// clock before the epoch read as zero.
pub fn now_unix_millis() -> (ms: i64)
    ensures
        exists|reading: Option<u128>| ms == #[trigger] millis_i64_of(reading),
{
    let reading = system_millis_since_epoch();
    millis_i64_from(reading)
}

/// Seconds since the Unix epoch now, with a clock before the epoch read as
/// zero.
pub fn now_secs_u64() -> (s: u64)
    ensures
        exists|reading: Option<u128>| s == #[trigger] millis_u64_of(reading) / 1000,
{
    now_millis_u64() / 1000
}

} // verus!

//! The wall clock, as log lines and traces count it.
use vstd::prelude::*;

use crate::external::elapsed_since_epoch;

verus! {

/// Time since the epoch, in whole seconds and the nanoseconds beyond them, as
/// microseconds; `0` before the epoch. Beyond 64 bits the count starts over.
pub open spec fn micros_since(elapsed: Option<(u64, u32)>) -> int {
    match elapsed {
        Some((secs, nanos)) => (secs * 1_000_000 + nanos / 1000) % 0x1_0000_0000_0000_0000,
        None => 0,
    }
}

/// The whole milliseconds in a time since the epoch.
pub open spec fn whole_millis(secs: u64, nanos: u32) -> int {
    secs * 1000 + nanos / 1_000_000
}

/// Time since the epoch as milliseconds; the least number before the epoch, which
/// no time after it is mapped to before the count leaves 63 bits.
pub open spec fn millis_since(elapsed: Option<(u64, u32)>) -> int {
    match elapsed {
        Some((secs, nanos)) => {
            let low = whole_millis(secs, nanos) % 0x1_0000_0000_0000_0000;
            if low < 0x8000_0000_0000_0000 {
                low
            } else {
                low - 0x1_0000_0000_0000_0000
            }
        },
        None => i64::MIN as int,
    }
}

/// Time since the epoch as microseconds.
pub fn micros_of(elapsed: Option<(u64, u32)>) -> (res: u64)
    ensures
        res == micros_since(elapsed),
{
    match elapsed {
        Some((secs, nanos)) => {
            let total: u128 = secs as u128 * 1_000_000 + (nanos / 1000) as u128;
            assert(total as u64 == total % 0x1_0000_0000_0000_0000) by (bit_vector);
            #[verifier::truncate]
            (total as u64)
        },
        None => 0,
    }
}

/// Time since the epoch as milliseconds.
pub fn millis_of(elapsed: Option<(u64, u32)>) -> (res: i64)
    ensures
        res == millis_since(elapsed),
{
    match elapsed {
        Some((secs, nanos)) => {
            let total: u128 = secs as u128 * 1000 + (nanos / 1_000_000) as u128;
            #[verifier::truncate]
            let low: u64 = total as u64;
            assert(total as u64 == total % 0x1_0000_0000_0000_0000) by (bit_vector);
            assert(low < 0x8000_0000_0000_0000u64 ==> (low as i64) == low) by (bit_vector);
            assert(low >= 0x8000_0000_0000_0000u64 ==> (low as i64) == low
                - 0x1_0000_0000_0000_0000) by (bit_vector);
            #[verifier::truncate]
            (low as i64)
        },
        None => i64::MIN,
    }
}

/// Whether the wall clock, when it was read, may have shown `elapsed` since the
/// epoch.
pub closed spec fn clock_showed(elapsed: Option<(u64, u32)>) -> bool {
    call_ensures(elapsed_since_epoch, (), elapsed)
}

/// What `read` shows.
fn reading_of<F: FnOnce() -> Option<(u64, u32)>>(read: F) -> (elapsed: Option<(u64, u32)>)
    requires
        read.requires(()),
    ensures
        read.ensures((), elapsed),
{
    read()
}

/// The microseconds since the epoch by the wall clock, `0` before it.
pub fn now_micros() -> (res: u64)
    ensures
        exists|elapsed: Option<(u64, u32)>|
            #[trigger] clock_showed(elapsed) && res == micros_since(elapsed),
{
    let elapsed = reading_of(elapsed_since_epoch);
    assert(clock_showed(elapsed));
    micros_of(elapsed)
}

/// The milliseconds since the epoch by the wall clock.
pub fn now_millis() -> (res: i64)
    ensures
        exists|elapsed: Option<(u64, u32)>|
            #[trigger] clock_showed(elapsed) && res == millis_since(elapsed),
{
    let elapsed = reading_of(elapsed_since_epoch);
    assert(clock_showed(elapsed));
    millis_of(elapsed)
}

/// Microseconds and milliseconds are counted down to whole ones: in the time since
/// the epoch there are that many, and not one more. So it is as long as the count
/// fits; before the epoch there is a number for each that stands for none.
pub proof fn whole_units_are_counted(secs: u64, nanos: u32)
    requires
        nanos < 1_000_000_000,
    ensures
        micros_since(None) == 0,
        millis_since(None) == -0x8000_0000_0000_0000,
        secs <= 18_000_000_000_000 ==> {
            let total = secs * 1_000_000_000 + nanos;
            let micros = micros_since(Some((secs, nanos)));
            micros * 1000 <= total < (micros + 1) * 1000
        },
        secs <= 9_000_000_000_000_000 ==> {
            let total = secs * 1_000_000_000 + nanos;
            let millis = millis_since(Some((secs, nanos)));
            millis * 1_000_000 <= total < (millis + 1) * 1_000_000
        },
{
}

/// What the clock shows is whole seconds and less than a second beyond them.
pub proof fn clocks_show_seconds_and_parts(elapsed: Option<(u64, u32)>)
    requires
        clock_showed(elapsed),
    ensures
        elapsed matches Some(time) ==> time.1 < 1_000_000_000,
{
}

} // verus!

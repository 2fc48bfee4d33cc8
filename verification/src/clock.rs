//! Time, in ticks of the machine timer.

use vstd::prelude::*;

verus! {

/// Ticks per second.
pub const MTIME_HZ: u64 = 7_800_000;

/// Ticks per millisecond.
pub const TICKS_PER_MS: u64 = MTIME_HZ / 1000;

/// The tick `ms` milliseconds after `start`.
pub open spec fn deadline(start: u64, ms: u64) -> int {
    start + ms * TICKS_PER_MS
}

/// The tick `ms` milliseconds after `start`.
pub fn end_of(start: u64, ms: u64) -> (end: u64)
    requires
        deadline(start, ms) <= u64::MAX,
    ensures
        end == deadline(start, ms),
{
    start + ms * TICKS_PER_MS
}

/// Whether a wait of `ms` milliseconds that began at tick `start` goes on at tick `now`.
pub fn waits(ms: u64, start: u64, now: u64) -> (on: bool)
    requires
        deadline(start, ms) <= u64::MAX,
    ensures
        on == (now < deadline(start, ms)),
{
    now < end_of(start, ms)
}

/// Ticks as whole milliseconds.
pub fn mtime_ms(ticks: u64) -> (ms: u64)
    ensures
        ms == ticks / TICKS_PER_MS,
{
    ticks / TICKS_PER_MS
}

/// A wait that has ended does not go on later, and it lasts at least as long as was asked.
pub proof fn law_wait(ms: u64, start: u64, now: u64, later: u64)
    requires
        start <= now <= later,
        now >= deadline(start, ms),
    ensures
        later >= deadline(start, ms),
        (now - start) / TICKS_PER_MS as int >= ms,
{
    assert((now - start) / 7_800 >= ms) by (nonlinear_arith)
        requires
            now >= start + ms * 7_800,
    ;
}

/// A wait ends 7800 ticks after it began for each of its milliseconds, however many they are.
pub proof fn law_deadline(start: u64, ms: u64, more: u64)
    requires
        ms + more <= u64::MAX,
    ensures
        deadline(start, 0) == start,
        deadline(start, 1) == start + 7800,
        deadline(start, (ms + more) as u64) - deadline(start, ms) == 7800 * more,
        TICKS_PER_MS == 7800,
{
    assert((ms + more) * 7800 == ms * 7800 + more * 7800);
}

} // verus!

//! Supervision of long-running services.

use vstd::prelude::*;

verus! {

/// The delay after a service that returned without an error, in seconds.
pub const FIRST_BACKOFF_SECS: u64 = 1;

/// The longest delay, in seconds.
pub const MAX_BACKOFF_SECS: u64 = 30;

/// The delay before a service is started again: it doubles with every failure.
pub open spec fn backoff_after(backoff_secs: u64, failed: bool) -> u64 {
    if !failed {
        FIRST_BACKOFF_SECS
    } else if 2 * backoff_secs > MAX_BACKOFF_SECS {
        MAX_BACKOFF_SECS
    } else {
        (2 * backoff_secs) as u64
    }
}

/// The delay before a service is started again that ended, given the last delay.
pub fn next_backoff_secs(backoff_secs: u64, failed: bool) -> (secs: u64)
    ensures
        secs == backoff_after(backoff_secs, failed),
{
    if !failed {
        return FIRST_BACKOFF_SECS;
    }
    if backoff_secs > MAX_BACKOFF_SECS / 2 {
        MAX_BACKOFF_SECS
    } else {
        backoff_secs * 2
    }
}

/// Every delay lies between the first and the longest.
pub proof fn law_backoff_is_bounded(backoff_secs: u64, failed: bool)
    requires
        FIRST_BACKOFF_SECS <= backoff_secs,
    ensures
        FIRST_BACKOFF_SECS <= backoff_after(backoff_secs, failed) <= MAX_BACKOFF_SECS,
{
}

/// A service that ended well is started again after a second. After a failure it waits twice as long
/// as before, up to half a minute.
pub proof fn law_backoff_doubles(backoff_secs: u64)
    ensures
        backoff_after(backoff_secs, false) == 1,
        backoff_secs <= 15 ==> backoff_after(backoff_secs, true) == 2 * backoff_secs,
        backoff_secs > 15 ==> backoff_after(backoff_secs, true) == 30,
{
}

} // verus!

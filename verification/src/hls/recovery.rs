//! HLS ingest recovery helpers: segment fetch retry and sequence-gap detection.

use vstd::prelude::*;

verus! {

/// The shortest delay between two attempts, in milliseconds.
pub const MIN_RETRY_DELAY_MS: u64 = 50;

/// What follows a failed attempt to fetch a segment.
#[derive(Debug, Clone, Copy, PartialEq, Eq, Structural)]
pub enum RetryAction {
    /// Try again after this many milliseconds.
    RetryAfterMs(u64),
    /// Give up with the last error.
    GiveUp,
}

/// The attempts to fetch one segment.
#[derive(Debug, Clone, Copy, PartialEq, Eq, Structural)]
pub struct FetchAttempts {
    /// How many attempts may still follow a failed one.
    pub retries_left: u32,
    /// The delay between two attempts, in milliseconds.
    pub delay_ms: u64,
}

impl FetchAttempts {
    /// The attempts that a recovery configuration allows: the first one and `retries` more.
    pub fn new(retries: u32, retry_ms: u64) -> (attempts: Self)
        ensures
            attempts == (FetchAttempts {
                retries_left: retries,
                delay_ms: if retry_ms < MIN_RETRY_DELAY_MS {
                    MIN_RETRY_DELAY_MS
                } else {
                    retry_ms
                },
            }),
    {
        FetchAttempts {
            retries_left: retries,
            delay_ms: if retry_ms < MIN_RETRY_DELAY_MS {
                MIN_RETRY_DELAY_MS
            } else {
                retry_ms
            },
        }
    }

    /// What follows when an attempt failed.
    pub open spec fn action(self) -> RetryAction {
        if self.retries_left > 0 {
            RetryAction::RetryAfterMs(self.delay_ms)
        } else {
            RetryAction::GiveUp
        }
    }

    /// The attempts left after one failed.
    pub open spec fn failed(self) -> FetchAttempts {
        FetchAttempts {
            retries_left: if self.retries_left > 0 {
                (self.retries_left - 1) as u32
            } else {
                0
            },
            ..self
        }
    }

    /// The attempts left after `n` failed.
    pub open spec fn failed_times(self, n: nat) -> FetchAttempts
        decreases n,
    {
        if n == 0 {
            self
        } else {
            self.failed_times((n - 1) as nat).failed()
        }
    }

    /// Note that an attempt failed, and decide what follows.
    pub fn on_failure(&mut self) -> (action: RetryAction)
        ensures
            action == old(self).action(),
            *final(self) == old(self).failed(),
    {
        if self.retries_left > 0 {
            self.retries_left = self.retries_left - 1;
            RetryAction::RetryAfterMs(self.delay_ms)
        } else {
            RetryAction::GiveUp
        }
    }
}

/// A segment is tried once and then as often as the retries say, and is given up after that.
pub proof fn law_segment_is_tried_retries_plus_once(attempts: FetchAttempts, n: nat)
    ensures
        n < attempts.retries_left ==> attempts.failed_times(n).action()
            == RetryAction::RetryAfterMs(attempts.delay_ms),
        n >= attempts.retries_left ==> attempts.failed_times(n).action() == RetryAction::GiveUp,
{
    lemma_failed_times(attempts, n);
}

proof fn lemma_failed_times(attempts: FetchAttempts, n: nat)
    ensures
        attempts.failed_times(n).delay_ms == attempts.delay_ms,
        attempts.failed_times(n).retries_left == (if n < attempts.retries_left {
            attempts.retries_left - n
        } else {
            0
        }),
    decreases n,
{
    if n > 0 {
        lemma_failed_times(attempts, (n - 1) as nat);
    }
}

/// Segments are missing between `last_seq` and `seq`.
pub open spec fn has_gap(last_seq: Option<u64>, seq: u64) -> bool {
    last_seq matches Some(last) && last + 1 < seq
}

/// True when MEDIA-SEQUENCE jumps (missing segments in the playlist).
pub fn detect_sequence_gap(_channel: &str, last_seq: Option<u64>, seq: u64) -> (gap: bool)
    ensures
        gap == has_gap(last_seq, seq),
{
    match last_seq {
        Some(last) => seq > last.saturating_add(1),
        None => false,
    }
}

/// Each failure uses up one retry and nothing else.
pub proof fn law_failure_uses_up_a_retry(attempts: FetchAttempts)
    ensures
        attempts.retries_left > 0 ==> attempts.action() == RetryAction::RetryAfterMs(
            attempts.delay_ms,
        ) && attempts.failed() == (FetchAttempts {
            retries_left: (attempts.retries_left - 1) as u32,
            delay_ms: attempts.delay_ms,
        }),
        attempts.retries_left == 0 ==> attempts.action() == RetryAction::GiveUp && attempts.failed()
            == attempts,
{
}

/// Segments are missing where a number is skipped: the one after the last, and any number up to the
/// last, leave no gap, and neither does the first of all.
pub proof fn law_gap_is_a_skipped_number(last: u64, seq: u64, missing: u64)
    ensures
        !has_gap(None, seq),
        last < missing && missing < seq ==> has_gap(Some(last), seq),
        seq <= last + 1 ==> !has_gap(Some(last), seq),
{
}

} // verus!

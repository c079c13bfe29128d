//! Decisions around writes to the history database: retrying a write that
//! found the database busy, and how many old entries to prune.
use vstd::prelude::*;

verus! {

/// How many times a write is tried before it is given up.
pub const MAX_WRITE_ATTEMPTS: u32 = 10;

/// What one try of a write gave.
#[derive(Debug, Clone, Copy, PartialEq, Eq, Structural)]
pub enum WriteOutcome {
    /// The statement ran (an ignored duplicate counts as having run).
    Applied,
    /// Another writer held the database.
    Busy,
    /// Any other failure.
    Failed,
}

/// What to do after one try of a write.
#[derive(Debug, Clone, Copy, PartialEq, Eq, Structural)]
pub enum WriteStep {
    /// The write is done.
    Done,
    /// The write failed; report the failure.
    Fail,
    /// Wait `millis` milliseconds, then try again as attempt `next`, or,
    /// when `next` is `None`, report that the database stayed busy.
    Wait { millis: u64, next: Option<u32> },
}

/// The step that follows try number `attempt` (counted from 0).
pub open spec fn spec_write_step(attempt: u32, outcome: WriteOutcome) -> WriteStep {
    match outcome {
        WriteOutcome::Applied => WriteStep::Done,
        WriteOutcome::Failed => WriteStep::Fail,
        WriteOutcome::Busy => WriteStep::Wait {
            millis: (10 * (attempt + 1)) as u64,
            next: if attempt + 1 < MAX_WRITE_ATTEMPTS {
                Some((attempt + 1) as u32)
            } else {
                None
            },
        },
    }
}

/// Decides what follows try number `attempt` of a write: done, failed, or
/// a back-off of 10 ms per try made so far before the next try; after the
/// tenth busy try there is no next try.
pub fn write_step(attempt: u32, outcome: WriteOutcome) -> (s: WriteStep)
    requires
        attempt < MAX_WRITE_ATTEMPTS,
    ensures
        s == spec_write_step(attempt, outcome),
{
    match outcome {
        WriteOutcome::Applied => WriteStep::Done,
        WriteOutcome::Failed => WriteStep::Fail,
        WriteOutcome::Busy => {
            let next = if attempt + 1 < MAX_WRITE_ATTEMPTS {
                Some(attempt + 1)
            } else {
                None
            };
            WriteStep::Wait { millis: 10 * (attempt as u64 + 1), next }
        },
    }
}

/// The attempt reached after `k` busy tries in a row, starting from try 0,
/// or `None` once the tries are used up.
pub open spec fn attempt_after_busy(k: nat) -> Option<u32>
    decreases k,
{
    if k == 0 {
        Some(0)
    } else {
        match attempt_after_busy((k - 1) as nat) {
            Some(a) => match spec_write_step(a, WriteOutcome::Busy) {
                WriteStep::Wait { next, .. } => next,
                _ => None,
            },
            None => None,
        }
    }
}

/// A write that keeps finding the database busy is tried exactly
/// `MAX_WRITE_ATTEMPTS` times: after `k` busy tries the next try is number
/// `k` while `k` is below the limit, and there is none once `k` reaches it.
pub proof fn busy_writes_stop_after_limit(k: nat)
    ensures
        k < MAX_WRITE_ATTEMPTS ==> attempt_after_busy(k) == Some(k as u32),
        k >= MAX_WRITE_ATTEMPTS ==> attempt_after_busy(k) is None,
    decreases k,
{
    if k > 0 {
        busy_writes_stop_after_limit((k - 1) as nat);
    }
}

/// How many of the oldest entries go so that `count` entries come down to
/// `max`: `None` when there are not more than `max`.
pub open spec fn spec_prune_excess(count: usize, max: usize) -> Option<usize> {
    if count > max {
        Some((count - max) as usize)
    } else {
        None
    }
}

/// How many of the oldest entries to delete so that `count` entries come
/// down to `max`: `None` when there are not more than `max`.
pub fn prune_excess(count: usize, max: usize) -> (r: Option<usize>)
    ensures
        r == spec_prune_excess(count, max),
{
    if count > max {
        Some(count - max)
    } else {
        None
    }
}

/// The number of entries to keep: the one asked for, else the configured
/// maximum.
pub fn prune_limit(keep: Option<usize>, configured: usize) -> (r: usize)
    ensures
        r == match keep {
            Some(k) => k,
            None => configured,
        },
{
    match keep {
        Some(k) => k,
        None => configured,
    }
}

/// Pruning the excess leaves exactly the maximum and removes at least one
/// entry; nothing is pruned when the count is within the maximum.
pub proof fn prune_leaves_max(count: usize, max: usize)
    ensures
        spec_prune_excess(count, max) matches Some(e) ==> 0 < e <= count && count - e == max,
        spec_prune_excess(count, max) is None <==> count <= max,
{
}

} // verus!

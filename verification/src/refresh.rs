//! The refresh cadence: cycles are scheduled at a fixed interval measured
//! from the start of the previous cycle, so one slow cycle does not push
//! every later cycle back.

use vstd::prelude::*;

verus! {

/// The next cycle's deadline: one interval after the previous deadline,
/// saturating at the far end of the clock. When a cycle overruns, the next
/// deadline is already in the past and the next cycle starts at once.
pub fn next_deadline(prev: u64, interval: u64) -> (r: u64)
    ensures
        r == if prev + interval <= u64::MAX {
            (prev + interval) as u64
        } else {
            u64::MAX
        },
{
    if prev <= u64::MAX - interval {
        prev + interval
    } else {
        u64::MAX
    }
}

/// Whether a cycle is due: its deadline has been reached.
pub fn is_due(now: u64, deadline: u64) -> (r: bool)
    ensures
        r == (now >= deadline),
{
    now >= deadline
}

} // verus!

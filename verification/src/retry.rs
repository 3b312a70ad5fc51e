//! The bounded retry policy for document retrieval: an explicit ordered
//! list of delays, consumed one per attempt.  Three attempts in all, with
//! no delay before the first; after the last failure the last observed
//! error is the outcome, and nothing above this layer retries.

use vstd::prelude::*;

verus! {

/// The fixed delay schedule, in milliseconds, one entry per attempt: the
/// delay is waited before the attempt, so the first attempt starts at once.
pub open spec fn spec_retry_delays() -> Seq<u64> {
    seq![0u64, 250u64, 750u64]
}

/// The delay schedule as a vector, one entry per allowed attempt.
pub fn retry_delays() -> (r: Vec<u64>)
    ensures
        r@ == spec_retry_delays(),
{
    let mut v: Vec<u64> = Vec::new();
    v.push(0);
    v.push(250);
    v.push(750);
    proof {
        assert(v@ =~= spec_retry_delays());
    }
    v
}

/// Whether another attempt may run, counting from zero.
pub fn attempt_allowed(attempts_done: usize) -> (r: bool)
    ensures
        r == (attempts_done < spec_retry_delays().len()),
{
    attempts_done < 3
}

/// The delay to wait before the given attempt.
pub fn delay_before_attempt(attempt_idx: usize) -> (r: u64)
    requires
        attempt_idx < spec_retry_delays().len(),
    ensures
        r == spec_retry_delays()[attempt_idx as int],
{
    if attempt_idx == 0 {
        0
    } else if attempt_idx == 1 {
        250
    } else {
        750
    }
}

} // verus!

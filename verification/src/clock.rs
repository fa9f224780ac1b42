//! The wall clock.

use std::time::{SystemTime, UNIX_EPOCH};
use vstd::prelude::*;
use crate::decimal::{seconds_of, Decimal};

verus! {

/// `SystemTime::now` and `duration_since(UNIX_EPOCH)`: the whole seconds and
/// the nanoseconds beyond them that have passed since the epoch, or two
/// zeros where the clock stands before it. The nanoseconds are below one
/// thousand million; nothing else is known of the result.
#[verifier::external_body]
fn wall_clock() -> (r: (u64, u32))
    ensures
        r.1 < 1_000_000_000,
{
    match SystemTime::now().duration_since(UNIX_EPOCH) {
        Ok(d) => (d.as_secs(), d.subsec_nanos()),
        Err(_) => (0, 0),
    }
}

/// The time now, in seconds since the epoch: what the clock reads in whole
/// seconds and nanoseconds, as one number of seconds.
pub fn now_ts() -> (d: Decimal)
    ensures
        exists|secs: u64, nanos: u32| nanos < 1_000_000_000 && d == #[trigger] seconds_of(secs, nanos),
        d.wf(),
        !d.neg,
{
    let (secs, nanos) = wall_clock();
    Decimal::from_secs_nanos(secs, nanos)
}

} // verus!

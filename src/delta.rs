//! The delta engine: consecutive differences of cumulative counters.
use vstd::prelude::*;

use crate::model::{Delta, Observation, counter_step, delta_between, deltas_of};

verus! {

/// Increment of one counter between two readings; after a reset (a smaller
/// reading) the new reading itself, so the result never underflows.
pub fn counter_delta(previous: u64, current: u64) -> (r: u64)
    ensures
        r == counter_step(previous, current),
{
    if current >= previous {
        current - previous
    } else {
        current
    }
}

/// The delta entry between two consecutive observations of one interface.
pub fn delta_entry(a: &Observation, b: &Observation) -> (r: Delta)
    ensures
        r == delta_between(*a, *b),
{
    Delta {
        timestamp: a.timestamp,
        delta_rx: counter_delta(a.bytes_rx, b.bytes_rx),
        delta_tx: counter_delta(a.bytes_tx, b.bytes_tx),
        reset: b.bytes_rx < a.bytes_rx || b.bytes_tx < a.bytes_tx,
    }
}

/// Turns an interface's observation sequence into its delta table: one entry
/// per consecutive pair, built fresh without touching the input.
pub fn process_ifvec_table(ifvec: &Vec<Observation>) -> (r: Vec<Delta>)
    ensures
        r@ == deltas_of(ifvec@),
        ifvec@.len() >= 2 ==> r@.len() == ifvec@.len() - 1,
        ifvec@.len() < 2 ==> r@.len() == 0,
{
    let mut out: Vec<Delta> = Vec::new();
    let n: usize = ifvec.len();
    if n < 2 {
        return out;
    }
    let mut i: usize = 1;
    while i < n
        invariant
            1 <= i <= n,
            n == ifvec@.len(),
            out@.len() == i - 1,
            forall|k: int| 0 <= k < i - 1 ==> out@[k] == delta_between(ifvec@[k], ifvec@[k + 1]),
        decreases n - i,
    {
        out.push(delta_entry(&ifvec[i - 1], &ifvec[i]));
        i = i + 1;
    }
    assert(out@ =~= deltas_of(ifvec@));
    out
}

} // verus!

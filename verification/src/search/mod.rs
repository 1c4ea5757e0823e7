//! Pass 1: the geometry-only scan over an interval of candidate seeds,
//! generic over the condition being scanned for.

use vstd::prelude::*;
use std::time::{Duration, Instant};

verus! {

#[verifier::external_type_specification]
#[verifier::external_body]
pub struct ExInstant(Instant);

/// Reads the monotonic clock through `std::time::Instant::now`. Nothing is
/// claimed of the instant returned.
#[verifier::external_body]
fn clock_now() -> Instant {
    Instant::now()
}

/// Time passed since `start`, through `std::time::Instant::elapsed`. Nothing
/// is claimed of the duration returned.
#[verifier::external_body]
fn clock_elapsed(start: &Instant) -> Duration {
    start.elapsed()
}

/// The values held by the `Some` entries of `outs`, in order.
pub open spec fn somes<M>(outs: Seq<Option<M>>) -> Seq<M>
    decreases outs.len(),
{
    if outs.len() == 0 {
        seq![]
    } else {
        let rest = somes(outs.drop_last());
        match outs.last() {
            Some(m) => rest.push(m),
            None => rest,
        }
    }
}

/// `outs[i]` is a possible result of `evaluate(start_seed + i)` for every
/// `i`, and there is one entry per seed of the interval.
pub open spec fn evaluated_over<M, F: Fn(i64) -> Option<M>>(
    evaluate: F,
    start_seed: i64,
    count: int,
    outs: Seq<Option<M>>,
) -> bool {
    &&& outs.len() == count
    &&& forall|i: int|
        0 <= i < count ==> evaluate.ensures(((start_seed + i) as i64,), #[trigger] outs[i])
}

/// The outcome of a pass-1 scan.
#[derive(Debug)]
pub struct Pass1Result<M> {
    pub matches: Vec<M>,
    pub seeds_scanned: i64,
    pub elapsed: Duration,
}

/// Pass 1 over `0..count`; see `scan_geometry_from`.
pub fn scan_geometry<M, F: Fn(i64) -> Option<M>>(count: i64, evaluate: F) -> (r: Pass1Result<M>)
    requires
        count >= 0,
        forall|s: i64| 0 <= s < count ==> evaluate.requires((s,)),
    ensures
        r.seeds_scanned == count,
        exists|outs: Seq<Option<M>>|
            evaluated_over(evaluate, 0, count as int, outs) && r.matches@ == somes(outs),
{
    scan_geometry_from(0, count, evaluate)
}

/// Pass 1 over the interval `start_seed..start_seed + count`: evaluates the
/// condition on every seed and keeps, in seed order, the matches it returns.
pub fn scan_geometry_from<M, F: Fn(i64) -> Option<M>>(
    start_seed: i64,
    count: i64,
    evaluate: F,
) -> (r: Pass1Result<M>)
    requires
        count >= 0,
        start_seed + count <= i64::MAX,
        forall|s: i64| start_seed <= s < start_seed + count ==> evaluate.requires((s,)),
    ensures
        r.seeds_scanned == count,
        exists|outs: Seq<Option<M>>|
            evaluated_over(evaluate, start_seed, count as int, outs) && r.matches@ == somes(outs),
{
    let end_seed = start_seed + count;
    let start = clock_now();
    let mut matches: Vec<M> = Vec::new();
    let ghost mut outs: Seq<Option<M>> = seq![];
    let mut seed = start_seed;
    while seed < end_seed
        invariant
            start_seed <= seed <= end_seed,
            end_seed == start_seed + count,
            forall|s: i64| start_seed <= s < start_seed + count ==> evaluate.requires((s,)),
            evaluated_over(evaluate, start_seed, seed - start_seed, outs),
            matches@ == somes(outs),
        decreases end_seed - seed,
    {
        let out = evaluate(seed);
        proof {
            let prev = outs;
            outs = outs.push(out);
            assert(outs.drop_last() == prev);
            assert forall|i: int| 0 <= i < seed + 1 - start_seed implies evaluate.ensures(
                ((start_seed + i) as i64,),
                #[trigger] outs[i],
            ) by {
                if i < seed - start_seed {
                    assert(outs[i] == prev[i]);
                }
            }
        }
        match out {
            Some(m) => {
                matches.push(m);
            },
            None => {},
        }
        seed = seed + 1;
    }
    Pass1Result { matches, seeds_scanned: count, elapsed: clock_elapsed(&start) }
}

} // verus!

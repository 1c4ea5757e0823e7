//! Seed-search library for Minecraft swamp-hut clusters: a bit-exact model of
//! `java.util.Random`, the region-grid structure placement built on it, the
//! geometric hut-cluster conditions, the pass-1 scan over a seed interval,
//! and the selection of the candidates that the biome check confirms.

pub mod cli;
pub mod conditions;
pub mod placement;
pub mod rng;
pub mod search;
pub mod structures;

use vstd::prelude::*;
use conditions::{
    double_huts, double_search, quad_search, DoubleHutCondition, DoubleHutMatch, QuadHutCondition,
    QuadHutMatch,
};
use search::{scan_geometry_from, somes, Pass1Result};

verus! {

/// The double-hut condition of `bench` and `search`.
pub open spec fn double_hut_condition_spec() -> DoubleHutCondition {
    DoubleHutCondition { max_spawn_dist: 512, max_afk_radius: 128 }
}

/// Swamp-hut AFK farm condition used by `bench`/`search`: two huts within
/// 128 blocks of a shared AFK spot, itself within 512 blocks of spawn.
#[verifier::when_used_as_spec(double_hut_condition_spec)]
pub fn double_hut_condition() -> (c: DoubleHutCondition)
    ensures
        c == double_hut_condition_spec(),
{
    DoubleHutCondition { max_spawn_dist: 512, max_afk_radius: 128 }
}

/// The quad-hut condition of `bench` and `search`.
pub open spec fn quad_hut_condition_spec() -> QuadHutCondition {
    QuadHutCondition { max_spawn_dist: 512, max_afk_radius: 128 }
}

/// Same distances as the double-hut condition, but requiring all 4 huts of
/// a 2x2 block of regions.
#[verifier::when_used_as_spec(quad_hut_condition_spec)]
pub fn quad_hut_condition() -> (c: QuadHutCondition)
    ensures
        c == quad_hut_condition_spec(),
{
    QuadHutCondition { max_spawn_dist: 512, max_afk_radius: 128 }
}

/// The pass-1 double-hut matches of the interval `start_seed..start_seed + count`,
/// in seed order.
pub open spec fn double_matches(start_seed: i64, count: int) -> Seq<DoubleHutMatch> {
    somes(
        Seq::new(
            count as nat,
            |i: int| double_search(double_hut_condition_spec(), (start_seed + i) as i64, 0),
        ),
    )
}

/// The pass-1 quad-hut matches of the interval `start_seed..start_seed + count`,
/// in seed order.
pub open spec fn quad_matches(start_seed: i64, count: int) -> Seq<QuadHutMatch> {
    somes(
        Seq::new(
            count as nat,
            |i: int| quad_search(quad_hut_condition_spec(), (start_seed + i) as i64, 0),
        ),
    )
}

/// The entries of `items` whose verdict is `true`, in order.
pub open spec fn kept<M>(items: Seq<M>, verdicts: Seq<bool>) -> Seq<M>
    decreases items.len(),
{
    if items.len() == 0 {
        seq![]
    } else {
        let rest = kept(items.drop_last(), verdicts.take(items.len() - 1));
        if verdicts[items.len() - 1] {
            rest.push(items.last())
        } else {
            rest
        }
    }
}

/// Pass 2 only narrows pass 1: what it keeps is no longer than the
/// candidates, and each kept entry is one of them.
pub proof fn lemma_kept_within<M>(items: Seq<M>, verdicts: Seq<bool>)
    requires
        verdicts.len() == items.len(),
    ensures
        kept(items, verdicts).len() <= items.len(),
        forall|x: M| kept(items, verdicts).contains(x) ==> items.contains(x),
    decreases items.len(),
{
    if items.len() > 0 {
        let front = items.drop_last();
        let rest = kept(front, verdicts.take(items.len() - 1));
        lemma_kept_within(front, verdicts.take(items.len() - 1));
        assert(kept(items, verdicts) == (if verdicts[items.len() - 1] {
            rest.push(items.last())
        } else {
            rest
        }));
        assert forall|x: M| kept(items, verdicts).contains(x) implies items.contains(x) by {
            if rest.contains(x) {
                assert(front.contains(x));
                let j = choose|j: int| 0 <= j < front.len() && front[j] == x;
                assert(items[j] == front[j]);
            } else {
                assert(verdicts[items.len() - 1]);
                let k = choose|k: int|
                    0 <= k < rest.push(items.last()).len() && rest.push(items.last())[k] == x;
                assert(k == rest.len());
                assert(items[items.len() - 1] == x);
            }
        }
    }
}

/// `x` is one of the candidates, and its verdict is `true`.
pub open spec fn is_confirmed<M>(items: Seq<M>, verdicts: Seq<bool>, x: M) -> bool {
    exists|i: int| 0 <= i < items.len() && verdicts[i] && items[i] == x
}

/// Where entry `k` of what pass 2 keeps comes from: a candidate whose
/// verdict is `true`.
proof fn lemma_kept_source<M>(items: Seq<M>, verdicts: Seq<bool>, k: int) -> (i: int)
    requires
        verdicts.len() == items.len(),
        0 <= k < kept(items, verdicts).len(),
    ensures
        0 <= i < items.len(),
        verdicts[i],
        items[i] == kept(items, verdicts)[k],
    decreases items.len(),
{
    let n = items.len() - 1;
    let front = items.drop_last();
    let vf = verdicts.take(n);
    let rest = kept(front, vf);
    lemma_kept_within(front, vf);
    if k < rest.len() {
        assert(kept(items, verdicts)[k] == rest[k]);
        let i = lemma_kept_source(front, vf, k);
        assert(items[i] == front[i] && verdicts[i] == vf[i]);
        i
    } else {
        n
    }
}

/// Pass 2 keeps exactly the confirmed candidates: as many entries as there
/// are `true` verdicts, each one a candidate whose verdict is `true`.
pub proof fn lemma_kept_exactly_confirmed<M>(items: Seq<M>, verdicts: Seq<bool>)
    requires
        verdicts.len() == items.len(),
    ensures
        kept(items, verdicts).len() == verdicts.filter(|b: bool| b).len(),
        forall|k: int|
            0 <= k < kept(items, verdicts).len() ==> is_confirmed(
                items,
                verdicts,
                #[trigger] kept(items, verdicts)[k],
            ),
    decreases items.len(),
{
    if items.len() == 0 {
        assert(verdicts.filter(|b: bool| b) =~= seq![]) by {
            reveal(Seq::filter);
        }
    } else {
        let n = items.len() - 1;
        let vf = verdicts.take(n);
        lemma_kept_exactly_confirmed(items.drop_last(), vf);
        assert(vf == verdicts.drop_last());
        reveal(Seq::filter);
    }
    assert forall|k: int| 0 <= k < kept(items, verdicts).len() implies is_confirmed(
        items,
        verdicts,
        #[trigger] kept(items, verdicts)[k],
    ) by {
        let i = lemma_kept_source(items, verdicts, k);
    }
}

/// Keeps, in order, the candidates whose biome verdict is `true`.
pub fn select_confirmed<M: Copy>(candidates: &Vec<M>, verdicts: &Vec<bool>) -> (r: Vec<M>)
    requires
        candidates.len() == verdicts.len(),
    ensures
        r@ == kept(candidates@, verdicts@),
{
    let mut r: Vec<M> = Vec::new();
    let mut i: usize = 0;
    while i < candidates.len()
        invariant
            i <= candidates.len() == verdicts.len(),
            r@ == kept(candidates@.take(i as int), verdicts@.take(i as int)),
        decreases candidates.len() - i,
    {
        proof {
            let t = candidates@.take(i + 1);
            assert(t.drop_last() == candidates@.take(i as int));
            assert(verdicts@.take(i + 1).take(i as int) == verdicts@.take(i as int));
            assert(t.last() == candidates@[i as int]);
        }
        if verdicts[i] {
            r.push(candidates[i]);
        }
        i = i + 1;
    }
    assert(candidates@.take(i as int) == candidates@);
    assert(verdicts@.take(i as int) == verdicts@);
    r
}

/// Double-hut pass 1 and 2 over `0..count`; see `find_confirmed_double_from`.
pub fn find_confirmed_double<C: Fn(i64, [(i64, i64); 2]) -> bool>(count: i64, biome_check: C) -> (r: (
    Pass1Result<DoubleHutMatch>,
    Vec<DoubleHutMatch>,
))
    requires
        count >= 0,
        forall|s: i64, h: [(i64, i64); 2]| biome_check.requires((s, h)),
    ensures
        r.0.seeds_scanned == count,
        r.0.matches@ == double_matches(0, count as int),
        exists|verdicts: Seq<bool>|
            #![trigger kept(r.0.matches@, verdicts)]
            {
                &&& verdicts.len() == r.0.matches@.len()
                &&& forall|i: int|
                    0 <= i < verdicts.len() ==> biome_check.ensures(
                        (r.0.matches@[i].seed, double_huts(r.0.matches@[i])),
                        #[trigger] verdicts[i],
                    )
                &&& r.1@ == kept(r.0.matches@, verdicts)
            },
{
    find_confirmed_double_from(0, count, biome_check)
}

/// Runs pass 1 (geometry) over `start_seed..start_seed + count` with the
/// double-hut condition, then pass 2: asks `biome_check` about every pass-1
/// match (seed and hut positions) and keeps those it confirms.
pub fn find_confirmed_double_from<C: Fn(i64, [(i64, i64); 2]) -> bool>(
    start_seed: i64,
    count: i64,
    biome_check: C,
) -> (r: (Pass1Result<DoubleHutMatch>, Vec<DoubleHutMatch>))
    requires
        count >= 0,
        start_seed + count <= i64::MAX,
        forall|s: i64, h: [(i64, i64); 2]| biome_check.requires((s, h)),
    ensures
        r.0.seeds_scanned == count,
        r.0.matches@ == double_matches(start_seed, count as int),
        exists|verdicts: Seq<bool>|
            #![trigger kept(r.0.matches@, verdicts)]
            {
                &&& verdicts.len() == r.0.matches@.len()
                &&& forall|i: int|
                    0 <= i < verdicts.len() ==> biome_check.ensures(
                        (r.0.matches@[i].seed, double_huts(r.0.matches@[i])),
                        #[trigger] verdicts[i],
                    )
                &&& r.1@ == kept(r.0.matches@, verdicts)
            },
{
    let cond = double_hut_condition();
    let evaluate = (|seed: i64| -> (o: Option<DoubleHutMatch>)
        ensures
            o == double_search(double_hut_condition_spec(), seed, 0),
        { cond.evaluate(seed) });
    let pass1 = scan_geometry_from(start_seed, count, evaluate);
    proof {
        let outs = choose|outs: Seq<Option<DoubleHutMatch>>|
            search::evaluated_over(evaluate, start_seed, count as int, outs) && pass1.matches@
                == somes(outs);
        assert(outs =~= Seq::new(
            count as nat,
            |i: int| double_search(double_hut_condition_spec(), (start_seed + i) as i64, 0),
        ));
    }
    let mut verdicts: Vec<bool> = Vec::new();
    let mut i: usize = 0;
    while i < pass1.matches.len()
        invariant
            i <= pass1.matches.len(),
            verdicts.len() == i,
            forall|s: i64, h: [(i64, i64); 2]| biome_check.requires((s, h)),
            forall|j: int|
                0 <= j < i ==> biome_check.ensures(
                    (pass1.matches@[j].seed, double_huts(pass1.matches@[j])),
                    #[trigger] verdicts@[j],
                ),
        decreases pass1.matches.len() - i,
    {
        let m = pass1.matches[i];
        let v = biome_check(m.seed, m.hut_coords());
        verdicts.push(v);
        i = i + 1;
    }
    let confirmed = select_confirmed(&pass1.matches, &verdicts);
    let r = (pass1, confirmed);
    assert(r.0.matches@ == pass1.matches@);
    assert(exists|v: Seq<bool>|
        #![trigger kept(r.0.matches@, v)]
        {
            &&& v.len() == r.0.matches@.len()
            &&& forall|i: int|
                0 <= i < v.len() ==> biome_check.ensures(
                    (r.0.matches@[i].seed, double_huts(r.0.matches@[i])),
                    #[trigger] v[i],
                )
            &&& r.1@ == kept(r.0.matches@, v)
        });
    r
}

/// Quad-hut pass 1 and 2 over `0..count`; see `find_confirmed_quad_from`.
pub fn find_confirmed_quad<C: Fn(i64, [(i64, i64); 4]) -> bool>(count: i64, biome_check: C) -> (r: (
    Pass1Result<QuadHutMatch>,
    Vec<QuadHutMatch>,
))
    requires
        count >= 0,
        forall|s: i64, h: [(i64, i64); 4]| biome_check.requires((s, h)),
    ensures
        r.0.seeds_scanned == count,
        r.0.matches@ == quad_matches(0, count as int),
        exists|verdicts: Seq<bool>|
            #![trigger kept(r.0.matches@, verdicts)]
            {
                &&& verdicts.len() == r.0.matches@.len()
                &&& forall|i: int|
                    0 <= i < verdicts.len() ==> biome_check.ensures(
                        (r.0.matches@[i].seed, r.0.matches@[i].huts),
                        #[trigger] verdicts[i],
                    )
                &&& r.1@ == kept(r.0.matches@, verdicts)
            },
{
    find_confirmed_quad_from(0, count, biome_check)
}

/// Runs pass 1 (geometry) over `start_seed..start_seed + count` with the
/// quad-hut condition, then pass 2: asks `biome_check` about every pass-1
/// match (seed and hut positions) and keeps those it confirms.
pub fn find_confirmed_quad_from<C: Fn(i64, [(i64, i64); 4]) -> bool>(
    start_seed: i64,
    count: i64,
    biome_check: C,
) -> (r: (Pass1Result<QuadHutMatch>, Vec<QuadHutMatch>))
    requires
        count >= 0,
        start_seed + count <= i64::MAX,
        forall|s: i64, h: [(i64, i64); 4]| biome_check.requires((s, h)),
    ensures
        r.0.seeds_scanned == count,
        r.0.matches@ == quad_matches(start_seed, count as int),
        exists|verdicts: Seq<bool>|
            #![trigger kept(r.0.matches@, verdicts)]
            {
                &&& verdicts.len() == r.0.matches@.len()
                &&& forall|i: int|
                    0 <= i < verdicts.len() ==> biome_check.ensures(
                        (r.0.matches@[i].seed, r.0.matches@[i].huts),
                        #[trigger] verdicts[i],
                    )
                &&& r.1@ == kept(r.0.matches@, verdicts)
            },
{
    let cond = quad_hut_condition();
    let evaluate = (|seed: i64| -> (o: Option<QuadHutMatch>)
        ensures
            o == quad_search(quad_hut_condition_spec(), seed, 0),
        { cond.evaluate(seed) });
    let pass1 = scan_geometry_from(start_seed, count, evaluate);
    proof {
        let outs = choose|outs: Seq<Option<QuadHutMatch>>|
            search::evaluated_over(evaluate, start_seed, count as int, outs) && pass1.matches@
                == somes(outs);
        assert(outs =~= Seq::new(
            count as nat,
            |i: int| quad_search(quad_hut_condition_spec(), (start_seed + i) as i64, 0),
        ));
    }
    let mut verdicts: Vec<bool> = Vec::new();
    let mut i: usize = 0;
    while i < pass1.matches.len()
        invariant
            i <= pass1.matches.len(),
            verdicts.len() == i,
            forall|s: i64, h: [(i64, i64); 4]| biome_check.requires((s, h)),
            forall|j: int|
                0 <= j < i ==> biome_check.ensures(
                    (pass1.matches@[j].seed, pass1.matches@[j].huts),
                    #[trigger] verdicts@[j],
                ),
        decreases pass1.matches.len() - i,
    {
        let m = pass1.matches[i];
        let v = biome_check(m.seed, m.hut_coords());
        verdicts.push(v);
        i = i + 1;
    }
    let confirmed = select_confirmed(&pass1.matches, &verdicts);
    let r = (pass1, confirmed);
    assert(r.0.matches@ == pass1.matches@);
    assert(exists|v: Seq<bool>|
        #![trigger kept(r.0.matches@, v)]
        {
            &&& v.len() == r.0.matches@.len()
            &&& forall|i: int|
                0 <= i < v.len() ==> biome_check.ensures(
                    (r.0.matches@[i].seed, r.0.matches@[i].huts),
                    #[trigger] v[i],
                )
            &&& r.1@ == kept(r.0.matches@, v)
        });
    r
}

/// Why a scan interval was refused.
#[derive(Debug)]
pub enum IntervalError {
    /// `count` is zero or negative.
    NonPositiveCount,
    /// `start_seed + count` does not fit in an `i64`.
    OutOfRange,
}

/// Checks that `count` is positive and that `start_seed + count` fits in an
/// `i64`.
pub fn validate_interval(start_seed: i64, count: i64) -> (r: Result<(), IntervalError>)
    ensures
        count <= 0 ==> r is Err && r->Err_0 is NonPositiveCount,
        count > 0 && start_seed + count > i64::MAX ==> r is Err && r->Err_0 is OutOfRange,
        r is Ok <==> (count > 0 && start_seed + count <= i64::MAX),
{
    if count <= 0 {
        return Err(IntervalError::NonPositiveCount);
    }
    if start_seed.checked_add(count).is_none() {
        return Err(IntervalError::OutOfRange);
    }
    Ok(())
}

} // verus!

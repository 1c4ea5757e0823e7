//! Geometric "does this seed match?" conditions for swamp-hut AFK farms.
//! This is pass 1 (geometry only); a match still has to be confirmed
//! against the real biomes before it can be trusted in-game.
//!
//! Coordinates are exact integers: every hut sits at a chunk center
//! `16 * chunk + 8`, so the AFK spot (the midpoint of two huts, or the
//! centroid of four) is always a whole block.

use vstd::prelude::*;
use crate::placement::{get_structure_chunk, chunk_to_block_center, structure_chunk, lemma_chunk_in_region};
use crate::structures::{swamp_hut, swamp_hut_spec};

verus! {

/// Block-space center of the swamp hut's chunk in region `(region_x, region_z)`.
#[verifier::opaque]
pub open spec fn hut_center(world_seed: i64, region_x: int, region_z: int) -> (int, int) {
    let c = structure_chunk(world_seed, region_x, region_z, swamp_hut_spec());
    (c.0 * 16 + 8, c.1 * 16 + 8)
}

/// Squared distance from the origin.
pub open spec fn norm_sq(x: int, z: int) -> int {
    x * x + z * z
}

/// A double-hut candidate that passed the geometric checks.
#[derive(Clone, Copy, Debug)]
pub struct DoubleHutMatch {
    pub seed: i64,
    pub afk_x: i64,
    pub afk_z: i64,
    pub hut1: (i64, i64),
    pub hut2: (i64, i64),
}

/// The hut positions of a double match, as `hut_coords` returns them.
pub open spec fn double_huts(m: DoubleHutMatch) -> [(i64, i64); 2] {
    [m.hut1, m.hut2]
}

impl DoubleHutMatch {
    /// The two hut positions, in order.
    pub fn hut_coords(&self) -> (r: [(i64, i64); 2])
        ensures
            r == double_huts(*self),
    {
        [self.hut1, self.hut2]
    }
}

/// A double-witch-hut AFK farm condition: two huts of adjacent regions within
/// `max_afk_radius` blocks of their midpoint (the AFK spot), itself within
/// `max_spawn_dist` blocks of spawn. Distances are whole blocks.
#[derive(Clone, Copy, Debug)]
pub struct DoubleHutCondition {
    pub max_spawn_dist: i64,
    pub max_afk_radius: i64,
}

/// The first region of double candidate `i` (`0 <= i < 32`): regions
/// `-2..=1` on each axis, x-major, z next, then the pair kind.
pub open spec fn double_first_region(i: int) -> (int, int) {
    (-2 + i / 8, -2 + (i / 2) % 4)
}

/// The second region of double candidate `i`: the +x neighbour for even
/// `i`, the +z neighbour for odd `i`.
pub open spec fn double_second_region(i: int) -> (int, int) {
    let r = double_first_region(i);
    if i % 2 == 0 {
        (r.0 + 1, r.1)
    } else {
        (r.0, r.1 + 1)
    }
}

/// The huts and AFK spot of double candidate `i`.
pub open spec fn double_candidate(world_seed: i64, i: int) -> DoubleHutMatch {
    let r1 = double_first_region(i);
    let r2 = double_second_region(i);
    let h1 = hut_center(world_seed, r1.0, r1.1);
    let h2 = hut_center(world_seed, r2.0, r2.1);
    DoubleHutMatch {
        seed: world_seed,
        afk_x: ((h1.0 + h2.0) / 2) as i64,
        afk_z: ((h1.1 + h2.1) / 2) as i64,
        hut1: (h1.0 as i64, h1.1 as i64),
        hut2: (h2.0 as i64, h2.1 as i64),
    }
}

/// A double candidate passes: its AFK spot is within the spawn distance and
/// the first hut (hence, by symmetry, both) within the AFK radius.
pub open spec fn double_passes(cond: DoubleHutCondition, m: DoubleHutMatch) -> bool {
    &&& norm_sq(m.afk_x as int, m.afk_z as int) <= cond.max_spawn_dist * cond.max_spawn_dist
    &&& norm_sq(m.hut1.0 - m.afk_x, m.hut1.1 - m.afk_z) <= cond.max_afk_radius
        * cond.max_afk_radius
}

/// The first passing double candidate at index `i` or later.
pub open spec fn double_search(cond: DoubleHutCondition, world_seed: i64, i: int) -> Option<
    DoubleHutMatch,
>
    decreases 32 - i,
{
    if i < 0 || i >= 32 {
        None
    } else if double_passes(cond, double_candidate(world_seed, i)) {
        Some(double_candidate(world_seed, i))
    } else {
        double_search(cond, world_seed, i + 1)
    }
}

/// A hut center lies within `16 * 2^31` blocks of the origin on each axis.
proof fn lemma_hut_center_bounds(world_seed: i64, region_x: int, region_z: int)
    ensures
        -0x8_0000_0000 <= hut_center(world_seed, region_x, region_z).0 < 0x8_0000_0000,
        -0x8_0000_0000 <= hut_center(world_seed, region_x, region_z).1 < 0x8_0000_0000,
        hut_center(world_seed, region_x, region_z).0 % 16 == 8,
        hut_center(world_seed, region_x, region_z).1 % 16 == 8,
{
    reveal(hut_center);
    let o = crate::placement::region_offsets(world_seed, region_x, region_z, swamp_hut_spec());
    vstd::arithmetic::div_mod::lemma_mod_bound(region_x * 32 + o.0 + 0x8000_0000, 0x1_0000_0000);
    vstd::arithmetic::div_mod::lemma_mod_bound(region_z * 32 + o.1 + 0x8000_0000, 0x1_0000_0000);
}

/// `x * x` without overflow.
fn square_exec(x: i64) -> (r: i128)
    ensures
        r == x * x,
{
    assert(x * x <= 0x4000_0000_0000_0000_0000_0000_0000_0000) by (nonlinear_arith)
        requires
            -0x8000_0000_0000_0000 <= x < 0x8000_0000_0000_0000,
    ;
    assert(x * x >= 0) by (nonlinear_arith);
    x as i128 * x as i128
}

/// `x * x + z * z` for coordinates within `2^40` of the origin.
fn norm_sq_exec(x: i64, z: i64) -> (r: i128)
    requires
        -0x100_0000_0000 < x < 0x100_0000_0000,
        -0x100_0000_0000 < z < 0x100_0000_0000,
    ensures
        r == norm_sq(x as int, z as int),
{
    assert(x * x < 0x1_0000_0000_0000_0000_0000 && z * z < 0x1_0000_0000_0000_0000_0000)
        by (nonlinear_arith)
        requires
            -0x100_0000_0000 < x < 0x100_0000_0000,
            -0x100_0000_0000 < z < 0x100_0000_0000,
    ;
    assert(x * x >= 0 && z * z >= 0) by (nonlinear_arith);
    x as i128 * x as i128 + z as i128 * z as i128
}

/// Exec form of `hut_center`.
fn hut_center_exec(world_seed: i64, region_x: i32, region_z: i32) -> (r: (i64, i64))
    ensures
        r.0 == hut_center(world_seed, region_x as int, region_z as int).0,
        r.1 == hut_center(world_seed, region_x as int, region_z as int).1,
        -0x8_0000_0000 <= r.0 < 0x8_0000_0000,
        -0x8_0000_0000 <= r.1 < 0x8_0000_0000,
        r.0 % 16 == 8,
        r.1 % 16 == 8,
{
    let config = swamp_hut();
    let (cx, cz) = get_structure_chunk(world_seed, region_x, region_z, &config);
    proof {
        lemma_hut_center_bounds(world_seed, region_x as int, region_z as int);
        reveal(hut_center);
    }
    chunk_to_block_center(cx, cz)
}

/// Two chunk-center coordinates sum to an even number, whose half lies
/// between them.
proof fn lemma_half_of_even_sum(a: int, b: int)
    requires
        a % 16 == 8,
        b % 16 == 8,
    ensures
        (a + b) % 2 == 0,
        a <= b ==> a <= (a + b) / 2 <= b,
        b <= a ==> b <= (a + b) / 2 <= a,
{
    vstd::arithmetic::div_mod::lemma_fundamental_div_mod(a, 16);
    vstd::arithmetic::div_mod::lemma_fundamental_div_mod(b, 16);
    let q = 8 * (a / 16 + b / 16) + 8;
    assert(a + b == q * 2);
    vstd::arithmetic::div_mod::lemma_mod_multiples_basic(q, 2);
    vstd::arithmetic::div_mod::lemma_div_multiples_vanish(q, 2);
}

/// Exec form of `double_candidate`.
fn double_candidate_exec(world_seed: i64, i: i32) -> (m: DoubleHutMatch)
    requires
        0 <= i < 32,
    ensures
        m == double_candidate(world_seed, i as int),
        -0x8_0000_0000 <= m.hut1.0 < 0x8_0000_0000,
        -0x8_0000_0000 <= m.hut1.1 < 0x8_0000_0000,
        -0x8_0000_0000 <= m.afk_x < 0x8_0000_0000,
        -0x8_0000_0000 <= m.afk_z < 0x8_0000_0000,
{
    let r1x = -2 + i / 8;
    let r1z = -2 + (i / 2) % 4;
    let (r2x, r2z) = if i % 2 == 0 {
        (r1x + 1, r1z)
    } else {
        (r1x, r1z + 1)
    };
    assert(r1x == double_first_region(i as int).0 && r1z == double_first_region(i as int).1);
    assert(r2x == double_second_region(i as int).0 && r2z == double_second_region(i as int).1);
    let hut1 = hut_center_exec(world_seed, r1x, r1z);
    let hut2 = hut_center_exec(world_seed, r2x, r2z);
    proof {
        lemma_half_of_even_sum(hut1.0 as int, hut2.0 as int);
        lemma_half_of_even_sum(hut1.1 as int, hut2.1 as int);
    }
    let afk_x = (hut1.0 + hut2.0) / 2;
    let afk_z = (hut1.1 + hut2.1) / 2;
    DoubleHutMatch { seed: world_seed, afk_x, afk_z, hut1, hut2 }
}

/// Exec form of `double_passes`, given the squared thresholds.
fn double_passes_exec(spawn_sq: i128, radius_sq: i128, m: &DoubleHutMatch) -> (b: bool)
    requires
        -0x8_0000_0000 <= m.hut1.0 < 0x8_0000_0000,
        -0x8_0000_0000 <= m.hut1.1 < 0x8_0000_0000,
        -0x8_0000_0000 <= m.afk_x < 0x8_0000_0000,
        -0x8_0000_0000 <= m.afk_z < 0x8_0000_0000,
    ensures
        b == (norm_sq(m.afk_x as int, m.afk_z as int) <= spawn_sq && norm_sq(
            m.hut1.0 - m.afk_x,
            m.hut1.1 - m.afk_z,
        ) <= radius_sq),
{
    let spawn_d = norm_sq_exec(m.afk_x, m.afk_z);
    let afk_d = norm_sq_exec(m.hut1.0 - m.afk_x, m.hut1.1 - m.afk_z);
    spawn_d <= spawn_sq && afk_d <= radius_sq
}

/// What the first passing double candidate from index `i` is: a passing
/// candidate whose AFK spot is the exact midpoint of its huts; and when there
/// is none, no candidate from `i` on passes.
proof fn lemma_double_search(cond: DoubleHutCondition, world_seed: i64, i: int)
    requires
        0 <= i <= 32,
    ensures
        double_search(cond, world_seed, i) matches Some(m) ==> {
            &&& m.seed == world_seed
            &&& double_passes(cond, m)
            &&& 2 * m.afk_x == m.hut1.0 + m.hut2.0
            &&& 2 * m.afk_z == m.hut1.1 + m.hut2.1
        },
        double_search(cond, world_seed, i) is None ==> forall|j: int|
            i <= j < 32 ==> !#[trigger] double_passes(cond, double_candidate(world_seed, j)),
    decreases 32 - i,
{
    if i < 32 {
        lemma_double_search(cond, world_seed, i + 1);
        let r1 = double_first_region(i);
        let r2 = double_second_region(i);
        lemma_hut_center_bounds(world_seed, r1.0, r1.1);
        lemma_hut_center_bounds(world_seed, r2.0, r2.1);
        let h1 = hut_center(world_seed, r1.0, r1.1);
        let h2 = hut_center(world_seed, r2.0, r2.1);
        lemma_half_of_even_sum(h1.0, h2.0);
        lemma_half_of_even_sum(h1.1, h2.1);
    }
}

/// The double match made of the huts of regions `a` and `b`, with the AFK
/// spot at their midpoint.
pub open spec fn pair_match(world_seed: i64, a: (int, int), b: (int, int)) -> DoubleHutMatch {
    let h1 = hut_center(world_seed, a.0, a.1);
    let h2 = hut_center(world_seed, b.0, b.1);
    DoubleHutMatch {
        seed: world_seed,
        afk_x: ((h1.0 + h2.0) / 2) as i64,
        afk_z: ((h1.1 + h2.1) / 2) as i64,
        hut1: (h1.0 as i64, h1.1 as i64),
        hut2: (h2.0 as i64, h2.1 as i64),
    }
}

/// The pair of region `(x, z)` with its +x neighbour `(x + 1, z)`.
pub open spec fn x_pair(world_seed: i64, x: int, z: int) -> DoubleHutMatch {
    pair_match(world_seed, (x, z), (x + 1, z))
}

/// The pair of region `(x, z)` with its +z neighbour `(x, z + 1)`.
pub open spec fn z_pair(world_seed: i64, x: int, z: int) -> DoubleHutMatch {
    pair_match(world_seed, (x, z), (x, z + 1))
}

/// A found double candidate: its index, which passes.
proof fn lemma_double_found(cond: DoubleHutCondition, world_seed: i64, i: int) -> (j: int)
    requires
        0 <= i <= 32,
        double_search(cond, world_seed, i) is Some,
    ensures
        i <= j < 32,
        double_search(cond, world_seed, i) == Some(double_candidate(world_seed, j)),
        double_passes(cond, double_candidate(world_seed, j)),
        forall|l: int| i <= l < j ==> !#[trigger] double_passes(cond, double_candidate(world_seed, l)),
    decreases 32 - i,
{
    if double_passes(cond, double_candidate(world_seed, i)) {
        i
    } else {
        lemma_double_found(cond, world_seed, i + 1)
    }
}

/// Candidate `j` is the +x pair (even `j`) or the +z pair (odd `j`) of the
/// region `(-2 + j / 8, -2 + (j / 2) % 4)`.
proof fn lemma_double_candidate_is_pair(world_seed: i64, j: int)
    requires
        0 <= j < 32,
    ensures
        j % 2 == 0 ==> double_candidate(world_seed, j) == x_pair(
            world_seed,
            -2 + j / 8,
            -2 + (j / 2) % 4,
        ),
        j % 2 == 1 ==> double_candidate(world_seed, j) == z_pair(
            world_seed,
            -2 + j / 8,
            -2 + (j / 2) % 4,
        ),
{
}

/// Near spawn (regions `-4..=4`), a hut lies in its own region: its block
/// coordinates are within `[512 * region + 8, 512 * region + 392)` on each axis.
pub proof fn lemma_hut_in_region(world_seed: i64, x: int, z: int)
    requires
        -4 <= x <= 4,
        -4 <= z <= 4,
    ensures
        512 * x + 8 <= hut_center(world_seed, x, z).0 < 512 * x + 392,
        512 * z + 8 <= hut_center(world_seed, x, z).1 < 512 * z + 392,
{
    reveal(hut_center);
    lemma_chunk_in_region(world_seed, x, z, swamp_hut_spec());
}

/// The double-hut search looks at exactly the adjacent pairs around spawn:
/// a found match is the +x or the +z pair of some region in `-2..=1` on each
/// axis and satisfies the condition; when nothing is found, neither the +x
/// pair nor the +z pair of any region in that window satisfies it.
pub proof fn lemma_double_adjacent_pairs(cond: DoubleHutCondition, world_seed: i64)
    ensures
        double_search(cond, world_seed, 0) matches Some(m) ==> {
            &&& double_passes(cond, m)
            &&& m.hut1 != m.hut2
            &&& exists|x: int, z: int|
                #![trigger x_pair(world_seed, x, z)]
                #![trigger z_pair(world_seed, x, z)]
                -2 <= x <= 1 && -2 <= z <= 1 && (m == x_pair(world_seed, x, z) || m == z_pair(
                    world_seed,
                    x,
                    z,
                ))
        },
        double_search(cond, world_seed, 0) is None ==> forall|x: int, z: int|
            -2 <= x <= 1 && -2 <= z <= 1 ==> !#[trigger] double_passes(cond, x_pair(world_seed, x, z))
                && !double_passes(cond, z_pair(world_seed, x, z)),
{
    lemma_double_search(cond, world_seed, 0);
    if double_search(cond, world_seed, 0) is Some {
        let j = lemma_double_found(cond, world_seed, 0);
        lemma_double_candidate_is_pair(world_seed, j);
        let x = -2 + j / 8;
        let z = -2 + (j / 2) % 4;
        lemma_hut_in_region(world_seed, x, z);
        lemma_hut_in_region(world_seed, x + 1, z);
        lemma_hut_in_region(world_seed, x, z + 1);
        lemma_hut_center_bounds(world_seed, x, z);
        lemma_hut_center_bounds(world_seed, x + 1, z);
        lemma_hut_center_bounds(world_seed, x, z + 1);
        if j % 2 == 0 {
            assert(double_candidate(world_seed, j) == x_pair(world_seed, x, z));
        } else {
            assert(double_candidate(world_seed, j) == z_pair(world_seed, x, z));
        }
    } else {
        assert forall|x: int, z: int| -2 <= x <= 1 && -2 <= z <= 1 implies !#[trigger] double_passes(
            cond,
            x_pair(world_seed, x, z),
        ) && !double_passes(cond, z_pair(world_seed, x, z)) by {
            let j = (x + 2) * 8 + (z + 2) * 2;
            assert(j / 8 == x + 2 && (j / 2) % 4 == z + 2 && j % 2 == 0);
            assert((j + 1) / 8 == x + 2 && ((j + 1) / 2) % 4 == z + 2 && (j + 1) % 2 == 1);
            lemma_double_candidate_is_pair(world_seed, j);
            lemma_double_candidate_is_pair(world_seed, j + 1);
            assert(!double_passes(cond, double_candidate(world_seed, j)));
            assert(!double_passes(cond, double_candidate(world_seed, j + 1)));
        }
    }
}

/// The +x pair (`d == 0`) or the +z pair (`d == 1`) of region `(x, z)`.
pub open spec fn pair_of(world_seed: i64, x: int, z: int, d: int) -> DoubleHutMatch {
    if d == 0 {
        x_pair(world_seed, x, z)
    } else {
        z_pair(world_seed, x, z)
    }
}

/// A double match meets the distances of `cond`: its AFK spot within
/// `max_spawn_dist` of spawn and both huts within `max_afk_radius` of it.
pub open spec fn meets_distances(cond: DoubleHutCondition, m: DoubleHutMatch) -> bool {
    let (ax, az) = (m.afk_x as int, m.afk_z as int);
    let r2 = cond.max_afk_radius * cond.max_afk_radius;
    &&& ax * ax + az * az <= cond.max_spawn_dist * cond.max_spawn_dist
    &&& (m.hut1.0 - ax) * (m.hut1.0 - ax) + (m.hut1.1 - az) * (m.hut1.1 - az) <= r2
    &&& (m.hut2.0 - ax) * (m.hut2.0 - ax) + (m.hut2.1 - az) * (m.hut2.1 - az) <= r2
}

/// Pair `(x, z, d)` of the window is candidate `(x + 2) * 8 + (z + 2) * 2 + d`,
/// and it passes exactly when it meets the distances.
proof fn lemma_pair_is_candidate(cond: DoubleHutCondition, world_seed: i64, x: int, z: int, d: int)
    requires
        -2 <= x <= 1,
        -2 <= z <= 1,
        0 <= d <= 1,
    ensures
        pair_of(world_seed, x, z, d) == double_candidate(world_seed, (x + 2) * 8 + (z + 2) * 2 + d),
        meets_distances(cond, pair_of(world_seed, x, z, d)) == double_passes(
            cond,
            pair_of(world_seed, x, z, d),
        ),
{
    let j = (x + 2) * 8 + (z + 2) * 2 + d;
    assert(j / 8 == x + 2 && (j / 2) % 4 == z + 2 && j % 2 == d);
    lemma_double_candidate_is_pair(world_seed, j);
    let b = if d == 0 { (x + 1, z) } else { (x, z + 1) };
    lemma_hut_center_bounds(world_seed, x, z);
    lemma_hut_center_bounds(world_seed, b.0, b.1);
    let h1 = hut_center(world_seed, x, z);
    let h2 = hut_center(world_seed, b.0, b.1);
    lemma_half_of_even_sum(h1.0, h2.0);
    lemma_half_of_even_sum(h1.1, h2.1);
    let m = pair_of(world_seed, x, z, d);
    assert(m.hut2.0 - m.afk_x == -(m.hut1.0 - m.afk_x));
    assert(m.hut2.1 - m.afk_z == -(m.hut1.1 - m.afk_z));
    let (u, v) = (m.hut1.0 - m.afk_x, m.hut1.1 - m.afk_z);
    assert((-u) * (-u) + (-v) * (-v) == u * u + v * v) by (nonlinear_arith);
}

/// The double-hut search returns the first adjacent pair around spawn, in
/// scan order (region x, then region z, then the +x pair before the +z pair,
/// over regions `-2..=1` on each axis), whose AFK spot (the midpoint of the
/// two huts) is within the spawn distance and both of whose huts are within
/// the AFK radius of it; and nothing when no such pair exists.
pub proof fn lemma_double_first_pair(cond: DoubleHutCondition, world_seed: i64)
    ensures
        double_search(cond, world_seed, 0) matches Some(m) ==> exists|x: int, z: int, d: int|
            #![trigger pair_of(world_seed, x, z, d)]
            {
                &&& -2 <= x <= 1 && -2 <= z <= 1 && 0 <= d <= 1
                &&& m == pair_of(world_seed, x, z, d)
                &&& meets_distances(cond, m)
                &&& forall|x2: int, z2: int, d2: int|
                    -2 <= x2 <= 1 && -2 <= z2 <= 1 && 0 <= d2 <= 1 && (x2 < x || (x2 == x && z2
                        < z) || (x2 == x && z2 == z && d2 < d)) ==> !meets_distances(
                        cond,
                        #[trigger] pair_of(world_seed, x2, z2, d2),
                    )
            },
        double_search(cond, world_seed, 0) is None ==> forall|x: int, z: int, d: int|
            -2 <= x <= 1 && -2 <= z <= 1 && 0 <= d <= 1 ==> !meets_distances(
                cond,
                #[trigger] pair_of(world_seed, x, z, d),
            ),
{
    lemma_double_search(cond, world_seed, 0);
    if double_search(cond, world_seed, 0) is Some {
        let j = lemma_double_found(cond, world_seed, 0);
        let x = -2 + j / 8;
        let z = -2 + (j / 2) % 4;
        let d = j % 2;
        lemma_pair_is_candidate(cond, world_seed, x, z, d);
        assert forall|x2: int, z2: int, d2: int|
            -2 <= x2 <= 1 && -2 <= z2 <= 1 && 0 <= d2 <= 1 && (x2 < x || (x2 == x && z2 < z) || (
                x2 == x && z2 == z && d2 < d)) implies !meets_distances(
            cond,
            #[trigger] pair_of(world_seed, x2, z2, d2),
        ) by {
            lemma_pair_is_candidate(cond, world_seed, x2, z2, d2);
            let l = (x2 + 2) * 8 + (z2 + 2) * 2 + d2;
            assert(l < j);
            assert(!double_passes(cond, double_candidate(world_seed, l)));
        }
    } else {
        assert forall|x: int, z: int, d: int|
            -2 <= x <= 1 && -2 <= z <= 1 && 0 <= d <= 1 implies !meets_distances(
            cond,
            #[trigger] pair_of(world_seed, x, z, d),
        ) by {
            lemma_pair_is_candidate(cond, world_seed, x, z, d);
            let l = (x + 2) * 8 + (z + 2) * 2 + d;
            assert(!double_passes(cond, double_candidate(world_seed, l)));
        }
    }
}

impl DoubleHutCondition {
    /// Scans the adjacent region pairs around spawn (regions `-2..=1` on each
    /// axis, each with its +x and +z neighbour) and returns the first pair
    /// that satisfies the condition.
    pub fn evaluate(&self, world_seed: i64) -> (r: Option<DoubleHutMatch>)
        ensures
            r == double_search(*self, world_seed, 0),
            r matches Some(m) ==> {
                &&& m.seed == world_seed
                &&& double_passes(*self, m)
                &&& 2 * m.afk_x == m.hut1.0 + m.hut2.0
                &&& 2 * m.afk_z == m.hut1.1 + m.hut2.1
            },
            r is None ==> forall|j: int|
                0 <= j < 32 ==> !#[trigger] double_passes(*self, double_candidate(world_seed, j)),
            r matches Some(m) ==> m.hut1 != m.hut2 && exists|x: int, z: int|
                #![trigger x_pair(world_seed, x, z)]
                #![trigger z_pair(world_seed, x, z)]
                -2 <= x <= 1 && -2 <= z <= 1 && (m == x_pair(world_seed, x, z) || m == z_pair(
                    world_seed,
                    x,
                    z,
                )),
            r is None ==> forall|x: int, z: int|
                -2 <= x <= 1 && -2 <= z <= 1 ==> !#[trigger] double_passes(
                    *self,
                    x_pair(world_seed, x, z),
                ) && !double_passes(*self, z_pair(world_seed, x, z)),
    {
        proof {
            lemma_double_adjacent_pairs(*self, world_seed);
        }
        proof {
            lemma_double_search(*self, world_seed, 0);
        }
        let radius_sq = square_exec(self.max_afk_radius);
        let spawn_sq = square_exec(self.max_spawn_dist);
        let mut i: i32 = 0;
        while i < 32
            invariant
                0 <= i <= 32,
                radius_sq == self.max_afk_radius * self.max_afk_radius,
                spawn_sq == self.max_spawn_dist * self.max_spawn_dist,
                double_search(*self, world_seed, 0) == double_search(*self, world_seed, i as int),
            decreases 32 - i,
        {
            let m = double_candidate_exec(world_seed, i);
            if double_passes_exec(spawn_sq, radius_sq, &m) {
                proof {
                    lemma_double_search(*self, world_seed, 0);
                    lemma_double_adjacent_pairs(*self, world_seed);
                }
                return Some(m);
            }
            i = i + 1;
        }
        None
    }
}

/// A quad-hut candidate that passed the geometric checks.
#[derive(Clone, Copy, Debug)]
pub struct QuadHutMatch {
    pub seed: i64,
    pub afk_x: i64,
    pub afk_z: i64,
    pub huts: [(i64, i64); 4],
}

impl QuadHutMatch {
    /// The four hut positions, in order.
    pub fn hut_coords(&self) -> (r: [(i64, i64); 4])
        ensures
            r == self.huts,
    {
        self.huts
    }
}

/// A quad-witch-hut AFK farm condition: the 4 huts at the corners of one 2x2
/// block of regions all within `max_afk_radius` blocks of their centroid
/// (the AFK spot), itself within `max_spawn_dist` blocks of spawn.
#[derive(Clone, Copy, Debug)]
pub struct QuadHutCondition {
    pub max_spawn_dist: i64,
    pub max_afk_radius: i64,
}

/// Corner `j` (`0 <= j < 4`) of quad candidate `i` (`0 <= i < 36`): the
/// block's lowest region runs over `-3..=2` on each axis, x-major; the
/// corners are `(x, z)`, `(x, z + 1)`, `(x + 1, z)`, `(x + 1, z + 1)`.
pub open spec fn quad_region(i: int, j: int) -> (int, int) {
    (-3 + i / 6 + j / 2, -3 + i % 6 + j % 2)
}

/// Hut `j` of quad candidate `i`.
pub open spec fn quad_hut(world_seed: i64, i: int, j: int) -> (i64, i64) {
    let r = quad_region(i, j);
    let h = hut_center(world_seed, r.0, r.1);
    (h.0 as i64, h.1 as i64)
}

/// The huts and AFK spot of quad candidate `i`.
pub open spec fn quad_candidate(world_seed: i64, i: int) -> QuadHutMatch {
    let h0 = quad_hut(world_seed, i, 0);
    let h1 = quad_hut(world_seed, i, 1);
    let h2 = quad_hut(world_seed, i, 2);
    let h3 = quad_hut(world_seed, i, 3);
    QuadHutMatch {
        seed: world_seed,
        afk_x: ((h0.0 + h1.0 + h2.0 + h3.0) / 4) as i64,
        afk_z: ((h0.1 + h1.1 + h2.1 + h3.1) / 4) as i64,
        huts: [h0, h1, h2, h3],
    }
}

/// Hut `h` is within `radius` blocks of the AFK spot `(ax, az)`.
pub open spec fn within(h: (i64, i64), ax: i64, az: i64, radius: i64) -> bool {
    norm_sq(h.0 - ax, h.1 - az) <= radius * radius
}

/// A quad candidate passes: its AFK spot is within the spawn distance and
/// all four huts within the AFK radius.
pub open spec fn quad_passes(cond: QuadHutCondition, m: QuadHutMatch) -> bool {
    &&& norm_sq(m.afk_x as int, m.afk_z as int) <= cond.max_spawn_dist * cond.max_spawn_dist
    &&& forall|j: int| 0 <= j < 4 ==> #[trigger] within(m.huts[j], m.afk_x, m.afk_z, cond.max_afk_radius)
}

/// The first passing quad candidate at index `i` or later.
pub open spec fn quad_search(cond: QuadHutCondition, world_seed: i64, i: int) -> Option<
    QuadHutMatch,
>
    decreases 36 - i,
{
    if i < 0 || i >= 36 {
        None
    } else if quad_passes(cond, quad_candidate(world_seed, i)) {
        Some(quad_candidate(world_seed, i))
    } else {
        quad_search(cond, world_seed, i + 1)
    }
}

/// Four chunk-center coordinates sum to a multiple of 4, whose quarter lies
/// between their least and greatest.
proof fn lemma_quarter_of_sum(a: int, b: int, c: int, d: int)
    requires
        a % 16 == 8,
        b % 16 == 8,
        c % 16 == 8,
        d % 16 == 8,
    ensures
        (a + b + c + d) % 4 == 0,
{
    vstd::arithmetic::div_mod::lemma_fundamental_div_mod(a, 16);
    vstd::arithmetic::div_mod::lemma_fundamental_div_mod(b, 16);
    vstd::arithmetic::div_mod::lemma_fundamental_div_mod(c, 16);
    vstd::arithmetic::div_mod::lemma_fundamental_div_mod(d, 16);
    let q = 4 * (a / 16 + b / 16 + c / 16 + d / 16) + 8;
    assert(a + b + c + d == q * 4);
    vstd::arithmetic::div_mod::lemma_mod_multiples_basic(q, 4);
}

/// Exec form of `quad_candidate`.
fn quad_candidate_exec(world_seed: i64, i: i32) -> (m: QuadHutMatch)
    requires
        0 <= i < 36,
    ensures
        m == quad_candidate(world_seed, i as int),
        forall|j: int| 0 <= j < 4 ==> -0x8_0000_0000 <= #[trigger] m.huts[j].0 < 0x8_0000_0000
            && -0x8_0000_0000 <= m.huts[j].1 < 0x8_0000_0000,
        -0x8_0000_0000 <= m.afk_x < 0x8_0000_0000,
        -0x8_0000_0000 <= m.afk_z < 0x8_0000_0000,
{
    let rx = -3 + i / 6;
    let rz = -3 + i % 6;
    assert(quad_region(i as int, 0) == (rx as int, rz as int));
    assert(quad_region(i as int, 1) == (rx as int, rz + 1));
    assert(quad_region(i as int, 2) == (rx + 1, rz as int));
    assert(quad_region(i as int, 3) == (rx + 1, rz + 1));
    let h0 = hut_center_exec(world_seed, rx, rz);
    let h1 = hut_center_exec(world_seed, rx, rz + 1);
    let h2 = hut_center_exec(world_seed, rx + 1, rz);
    let h3 = hut_center_exec(world_seed, rx + 1, rz + 1);
    proof {
        lemma_quarter_of_sum(h0.0 as int, h1.0 as int, h2.0 as int, h3.0 as int);
        lemma_quarter_of_sum(h0.1 as int, h1.1 as int, h2.1 as int, h3.1 as int);
    }
    let afk_x = (h0.0 + h1.0 + h2.0 + h3.0) / 4;
    let afk_z = (h0.1 + h1.1 + h2.1 + h3.1) / 4;
    let m = QuadHutMatch { seed: world_seed, afk_x, afk_z, huts: [h0, h1, h2, h3] };
    assert(m.huts[0] == h0 && m.huts[1] == h1 && m.huts[2] == h2 && m.huts[3] == h3);
    assert(m == quad_candidate(world_seed, i as int));
    m
}

/// Exec form of `within`, given the squared radius.
fn within_exec(h: (i64, i64), ax: i64, az: i64, radius_sq: i128) -> (b: bool)
    requires
        -0x8_0000_0000 <= h.0 < 0x8_0000_0000,
        -0x8_0000_0000 <= h.1 < 0x8_0000_0000,
        -0x8_0000_0000 <= ax < 0x8_0000_0000,
        -0x8_0000_0000 <= az < 0x8_0000_0000,
    ensures
        b == (norm_sq(h.0 - ax, h.1 - az) <= radius_sq),
{
    norm_sq_exec(h.0 - ax, h.1 - az) <= radius_sq
}

/// What the first passing quad candidate from index `i` is: a passing
/// candidate whose AFK spot is the exact centroid of its huts; and when
/// there is none, no candidate from `i` on passes.
proof fn lemma_quad_search(cond: QuadHutCondition, world_seed: i64, i: int)
    requires
        0 <= i <= 36,
    ensures
        quad_search(cond, world_seed, i) matches Some(m) ==> {
            &&& m.seed == world_seed
            &&& quad_passes(cond, m)
            &&& 4 * m.afk_x == m.huts[0].0 + m.huts[1].0 + m.huts[2].0 + m.huts[3].0
            &&& 4 * m.afk_z == m.huts[0].1 + m.huts[1].1 + m.huts[2].1 + m.huts[3].1
        },
        quad_search(cond, world_seed, i) is None ==> forall|j: int|
            i <= j < 36 ==> !#[trigger] quad_passes(cond, quad_candidate(world_seed, j)),
    decreases 36 - i,
{
    if i < 36 {
        lemma_quad_search(cond, world_seed, i + 1);
        let r0 = quad_region(i, 0);
        let r1 = quad_region(i, 1);
        let r2 = quad_region(i, 2);
        let r3 = quad_region(i, 3);
        lemma_hut_center_bounds(world_seed, r0.0, r0.1);
        lemma_hut_center_bounds(world_seed, r1.0, r1.1);
        lemma_hut_center_bounds(world_seed, r2.0, r2.1);
        lemma_hut_center_bounds(world_seed, r3.0, r3.1);
        let h0 = hut_center(world_seed, r0.0, r0.1);
        let h1 = hut_center(world_seed, r1.0, r1.1);
        let h2 = hut_center(world_seed, r2.0, r2.1);
        let h3 = hut_center(world_seed, r3.0, r3.1);
        lemma_quarter_of_sum(h0.0, h1.0, h2.0, h3.0);
        lemma_quarter_of_sum(h0.1, h1.1, h2.1, h3.1);
    }
}

/// The quad match made of the huts of the 2x2 block of regions whose lowest
/// corner is `(x, z)`, in the order `(x, z)`, `(x, z + 1)`, `(x + 1, z)`,
/// `(x + 1, z + 1)`, with the AFK spot at their centroid.
pub open spec fn block_match(world_seed: i64, x: int, z: int) -> QuadHutMatch {
    let h0 = hut_center(world_seed, x, z);
    let h1 = hut_center(world_seed, x, z + 1);
    let h2 = hut_center(world_seed, x + 1, z);
    let h3 = hut_center(world_seed, x + 1, z + 1);
    QuadHutMatch {
        seed: world_seed,
        afk_x: ((h0.0 + h1.0 + h2.0 + h3.0) / 4) as i64,
        afk_z: ((h0.1 + h1.1 + h2.1 + h3.1) / 4) as i64,
        huts: [
            (h0.0 as i64, h0.1 as i64),
            (h1.0 as i64, h1.1 as i64),
            (h2.0 as i64, h2.1 as i64),
            (h3.0 as i64, h3.1 as i64),
        ],
    }
}

/// A found quad candidate: its index, which passes.
proof fn lemma_quad_found(cond: QuadHutCondition, world_seed: i64, i: int) -> (j: int)
    requires
        0 <= i <= 36,
        quad_search(cond, world_seed, i) is Some,
    ensures
        i <= j < 36,
        quad_search(cond, world_seed, i) == Some(quad_candidate(world_seed, j)),
        quad_passes(cond, quad_candidate(world_seed, j)),
        forall|l: int| i <= l < j ==> !#[trigger] quad_passes(cond, quad_candidate(world_seed, l)),
    decreases 36 - i,
{
    if quad_passes(cond, quad_candidate(world_seed, i)) {
        i
    } else {
        lemma_quad_found(cond, world_seed, i + 1)
    }
}

/// Candidate `j` is the block with lowest corner `(-3 + j / 6, -3 + j % 6)`.
proof fn lemma_quad_candidate_is_block(world_seed: i64, j: int)
    requires
        0 <= j < 36,
    ensures
        quad_candidate(world_seed, j) == block_match(world_seed, -3 + j / 6, -3 + j % 6),
{
    let x = -3 + j / 6;
    let z = -3 + j % 6;
    assert(quad_region(j, 0) == (x, z));
    assert(quad_region(j, 1) == (x, z + 1));
    assert(quad_region(j, 2) == (x + 1, z));
    assert(quad_region(j, 3) == (x + 1, z + 1));
    lemma_hut_center_bounds(world_seed, x, z);
    lemma_hut_center_bounds(world_seed, x, z + 1);
    lemma_hut_center_bounds(world_seed, x + 1, z);
    lemma_hut_center_bounds(world_seed, x + 1, z + 1);
    assert(quad_candidate(world_seed, j).huts =~= block_match(world_seed, x, z).huts);
}

/// The quad-hut search looks at exactly the 2x2 blocks of regions around
/// spawn: a found match is the block of four distinct regions with lowest
/// corner in `-3..=2` on each axis and satisfies the condition; when nothing
/// is found, no such block satisfies it.
pub proof fn lemma_quad_blocks(cond: QuadHutCondition, world_seed: i64)
    ensures
        quad_search(cond, world_seed, 0) matches Some(m) ==> {
            &&& quad_passes(cond, m)
            &&& forall|a: int, b: int| 0 <= a < b < 4 ==> m.huts[a] != m.huts[b]
            &&& exists|x: int, z: int|
                -3 <= x <= 2 && -3 <= z <= 2 && m == #[trigger] block_match(world_seed, x, z)
        },
        quad_search(cond, world_seed, 0) is None ==> forall|x: int, z: int|
            -3 <= x <= 2 && -3 <= z <= 2 ==> !#[trigger] quad_passes(
                cond,
                block_match(world_seed, x, z),
            ),
{
    lemma_quad_search(cond, world_seed, 0);
    if quad_search(cond, world_seed, 0) is Some {
        let j = lemma_quad_found(cond, world_seed, 0);
        lemma_quad_candidate_is_block(world_seed, j);
        let x = -3 + j / 6;
        let z = -3 + j % 6;
        lemma_hut_in_region(world_seed, x, z);
        lemma_hut_in_region(world_seed, x + 1, z);
        lemma_hut_in_region(world_seed, x, z + 1);
        lemma_hut_in_region(world_seed, x + 1, z + 1);
        lemma_hut_center_bounds(world_seed, x, z);
        lemma_hut_center_bounds(world_seed, x + 1, z);
        lemma_hut_center_bounds(world_seed, x, z + 1);
        lemma_hut_center_bounds(world_seed, x + 1, z + 1);
        let m = block_match(world_seed, x, z);
        assert forall|a: int, b: int| 0 <= a < b < 4 implies m.huts[a] != m.huts[b] by {
            assert(m.huts[0].0 < m.huts[2].0 && m.huts[0].0 < m.huts[3].0);
            assert(m.huts[1].0 < m.huts[2].0 && m.huts[1].0 < m.huts[3].0);
            assert(m.huts[0].1 < m.huts[1].1 && m.huts[2].1 < m.huts[3].1);
        }
    } else {
        assert forall|x: int, z: int| -3 <= x <= 2 && -3 <= z <= 2 implies !#[trigger] quad_passes(
            cond,
            block_match(world_seed, x, z),
        ) by {
            let j = (x + 3) * 6 + (z + 3);
            assert(j / 6 == x + 3 && j % 6 == z + 3);
            lemma_quad_candidate_is_block(world_seed, j);
            assert(!quad_passes(cond, quad_candidate(world_seed, j)));
        }
    }
}

/// Hut `h` is within squared distance `r2` of `(ax, az)`.
pub open spec fn hut_near(h: (i64, i64), ax: int, az: int, r2: int) -> bool {
    (h.0 - ax) * (h.0 - ax) + (h.1 - az) * (h.1 - az) <= r2
}

/// A quad match meets the distances of `cond`: its AFK spot within
/// `max_spawn_dist` of spawn and all four huts within `max_afk_radius` of it.
pub open spec fn block_meets_distances(cond: QuadHutCondition, m: QuadHutMatch) -> bool {
    let (ax, az) = (m.afk_x as int, m.afk_z as int);
    let r2 = cond.max_afk_radius * cond.max_afk_radius;
    &&& ax * ax + az * az <= cond.max_spawn_dist * cond.max_spawn_dist
    &&& hut_near(m.huts[0], ax, az, r2)
    &&& hut_near(m.huts[1], ax, az, r2)
    &&& hut_near(m.huts[2], ax, az, r2)
    &&& hut_near(m.huts[3], ax, az, r2)
}

/// Block `(x, z)` of the window is candidate `(x + 3) * 6 + (z + 3)`, and it
/// passes exactly when it meets the distances.
proof fn lemma_block_is_candidate(cond: QuadHutCondition, world_seed: i64, x: int, z: int)
    requires
        -3 <= x <= 2,
        -3 <= z <= 2,
    ensures
        block_match(world_seed, x, z) == quad_candidate(world_seed, (x + 3) * 6 + (z + 3)),
        block_meets_distances(cond, block_match(world_seed, x, z)) == quad_passes(
            cond,
            block_match(world_seed, x, z),
        ),
{
    let j = (x + 3) * 6 + (z + 3);
    assert(j / 6 == x + 3 && j % 6 == z + 3);
    lemma_quad_candidate_is_block(world_seed, j);
    let m = block_match(world_seed, x, z);
    let r = cond.max_afk_radius;
    if block_meets_distances(cond, m) {
        assert forall|k: int| 0 <= k < 4 implies #[trigger] within(m.huts[k], m.afk_x, m.afk_z, r) by {
            assert(hut_near(m.huts[k], m.afk_x as int, m.afk_z as int, r * r));
        }
    }
    if quad_passes(cond, m) {
        assert(within(m.huts[0], m.afk_x, m.afk_z, r));
        assert(within(m.huts[1], m.afk_x, m.afk_z, r));
        assert(within(m.huts[2], m.afk_x, m.afk_z, r));
        assert(within(m.huts[3], m.afk_x, m.afk_z, r));
    }
}

/// The quad-hut search returns the first 2x2 block of regions around spawn,
/// in scan order (lowest corner x, then z, over `-3..=2` on each axis), whose
/// AFK spot (the centroid of its four huts) is within the spawn distance and
/// all four of whose huts are within the AFK radius of it; and nothing when
/// no such block exists.
pub proof fn lemma_quad_first_block(cond: QuadHutCondition, world_seed: i64)
    ensures
        quad_search(cond, world_seed, 0) matches Some(m) ==> exists|x: int, z: int|
            #![trigger block_match(world_seed, x, z)]
            {
                &&& -3 <= x <= 2 && -3 <= z <= 2
                &&& m == block_match(world_seed, x, z)
                &&& block_meets_distances(cond, m)
                &&& forall|x2: int, z2: int|
                    -3 <= x2 <= 2 && -3 <= z2 <= 2 && (x2 < x || (x2 == x && z2 < z))
                        ==> !block_meets_distances(cond, #[trigger] block_match(world_seed, x2, z2))
            },
        quad_search(cond, world_seed, 0) is None ==> forall|x: int, z: int|
            -3 <= x <= 2 && -3 <= z <= 2 ==> !block_meets_distances(
                cond,
                #[trigger] block_match(world_seed, x, z),
            ),
{
    lemma_quad_search(cond, world_seed, 0);
    if quad_search(cond, world_seed, 0) is Some {
        let j = lemma_quad_found(cond, world_seed, 0);
        let x = -3 + j / 6;
        let z = -3 + j % 6;
        lemma_block_is_candidate(cond, world_seed, x, z);
        assert forall|x2: int, z2: int|
            -3 <= x2 <= 2 && -3 <= z2 <= 2 && (x2 < x || (x2 == x && z2 < z)) implies !block_meets_distances(
            cond,
            #[trigger] block_match(world_seed, x2, z2),
        ) by {
            lemma_block_is_candidate(cond, world_seed, x2, z2);
            let l = (x2 + 3) * 6 + (z2 + 3);
            assert(l < j);
            assert(!quad_passes(cond, quad_candidate(world_seed, l)));
        }
    } else {
        assert forall|x: int, z: int| -3 <= x <= 2 && -3 <= z <= 2 implies !block_meets_distances(
            cond,
            #[trigger] block_match(world_seed, x, z),
        ) by {
            lemma_block_is_candidate(cond, world_seed, x, z);
            let l = (x + 3) * 6 + (z + 3);
            assert(!quad_passes(cond, quad_candidate(world_seed, l)));
        }
    }
}

impl QuadHutCondition {
    /// Scans the 2x2 region blocks around spawn (lowest corner in regions
    /// `-3..=2` on each axis) and returns the first block whose four huts
    /// satisfy the condition.
    pub fn evaluate(&self, world_seed: i64) -> (r: Option<QuadHutMatch>)
        ensures
            r == quad_search(*self, world_seed, 0),
            r matches Some(m) ==> {
                &&& m.seed == world_seed
                &&& quad_passes(*self, m)
                &&& 4 * m.afk_x == m.huts[0].0 + m.huts[1].0 + m.huts[2].0 + m.huts[3].0
                &&& 4 * m.afk_z == m.huts[0].1 + m.huts[1].1 + m.huts[2].1 + m.huts[3].1
            },
            r is None ==> forall|j: int|
                0 <= j < 36 ==> !#[trigger] quad_passes(*self, quad_candidate(world_seed, j)),
            r matches Some(m) ==> (forall|a: int, b: int| 0 <= a < b < 4 ==> m.huts[a] != m.huts[b])
                && exists|x: int, z: int|
                -3 <= x <= 2 && -3 <= z <= 2 && m == #[trigger] block_match(world_seed, x, z),
            r is None ==> forall|x: int, z: int|
                -3 <= x <= 2 && -3 <= z <= 2 ==> !#[trigger] quad_passes(
                    *self,
                    block_match(world_seed, x, z),
                ),
    {
        proof {
            lemma_quad_blocks(*self, world_seed);
        }
        proof {
            lemma_quad_search(*self, world_seed, 0);
        }
        let radius_sq = square_exec(self.max_afk_radius);
        let spawn_sq = square_exec(self.max_spawn_dist);
        let mut i: i32 = 0;
        while i < 36
            invariant
                0 <= i <= 36,
                radius_sq == self.max_afk_radius * self.max_afk_radius,
                spawn_sq == self.max_spawn_dist * self.max_spawn_dist,
                quad_search(*self, world_seed, 0) == quad_search(*self, world_seed, i as int),
            decreases 36 - i,
        {
            let m = quad_candidate_exec(world_seed, i);
            let near_spawn = norm_sq_exec(m.afk_x, m.afk_z) <= spawn_sq;
            let w0 = within_exec(m.huts[0], m.afk_x, m.afk_z, radius_sq);
            let w1 = within_exec(m.huts[1], m.afk_x, m.afk_z, radius_sq);
            let w2 = within_exec(m.huts[2], m.afk_x, m.afk_z, radius_sq);
            let w3 = within_exec(m.huts[3], m.afk_x, m.afk_z, radius_sq);
            let all_within = w0 && w1 && w2 && w3;
            proof {
                assert(all_within == (forall|j: int|
                    0 <= j < 4 ==> #[trigger] within(m.huts[j], m.afk_x, m.afk_z, self.max_afk_radius))) by {
                    if !all_within {
                        if !w0 { assert(!within(m.huts[0], m.afk_x, m.afk_z, self.max_afk_radius)); }
                        if !w1 { assert(!within(m.huts[1], m.afk_x, m.afk_z, self.max_afk_radius)); }
                        if !w2 { assert(!within(m.huts[2], m.afk_x, m.afk_z, self.max_afk_radius)); }
                        if !w3 { assert(!within(m.huts[3], m.afk_x, m.afk_z, self.max_afk_radius)); }
                    }
                }
            }
            if near_spawn && all_within {
                proof {
                    lemma_quad_search(*self, world_seed, 0);
                    lemma_quad_blocks(*self, world_seed);
                }
                return Some(m);
            }
            i = i + 1;
        }
        None
    }
}

} // verus!

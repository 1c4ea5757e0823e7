//! Region-grid math: given a world seed and a structure's placement config,
//! the chunk within a region at which that structure attempts to generate.

use vstd::prelude::*;
use vstd::arithmetic::div_mod::*;
use crate::rng::{JavaLcg, initial_state, next_int_state, next_int_value, lemma_next_int_range, state_modulus};
use crate::structures::StructureConfig;

verus! {

/// `x` reduced into `[-h, h)` modulo `2h`: two's-complement wrap-around.
pub open spec fn wrap(x: int, h: int) -> int {
    (x + h) % (2 * h) - h
}

/// Wrap-around into the range of `i64`.
pub open spec fn wrap_i64(x: int) -> int {
    wrap(x, 0x8000_0000_0000_0000)
}

/// Wrap-around into the range of `i32`.
pub open spec fn wrap_i32(x: int) -> int {
    wrap(x, 0x8000_0000)
}

/// Multiplier of the region x coordinate in the region seed.
pub const REGION_X_FACTOR: i64 = 341873128712;

/// Multiplier of the region z coordinate in the region seed.
pub const REGION_Z_FACTOR: i64 = 132897987541;

/// The seed of the generator that places a structure in region
/// `(region_x, region_z)`: the wrapped sum
/// `region_x * 341873128712 + region_z * 132897987541 + world_seed + salt`.
pub open spec fn region_seed(world_seed: i64, region_x: int, region_z: int, salt: i64) -> int {
    wrap_i64(region_x * REGION_X_FACTOR + region_z * REGION_Z_FACTOR + world_seed + salt)
}

/// The two offsets (x, then z) drawn inside a region, each in
/// `[0, chunk_range)`.
pub open spec fn region_offsets(
    world_seed: i64,
    region_x: int,
    region_z: int,
    config: StructureConfig,
) -> (int, int) {
    let s0 = initial_state(region_seed(world_seed, region_x, region_z, config.salt) as i64);
    let range = config.chunk_range as int;
    (next_int_value(s0, range), next_int_value(next_int_state(s0, range), range))
}

/// The absolute chunk a structure attempts in a region: the region's corner
/// chunk `region * spacing` plus the drawn offset, wrapped to `i32`.
pub open spec fn structure_chunk(
    world_seed: i64,
    region_x: int,
    region_z: int,
    config: StructureConfig,
) -> (int, int) {
    let offsets = region_offsets(world_seed, region_x, region_z, config);
    (
        wrap_i32(region_x * config.spacing + offsets.0),
        wrap_i32(region_z * config.spacing + offsets.1),
    )
}

/// A value in `[-h, h)` that differs from `x` by a multiple of `2h` is the
/// wrap of `x`.
proof fn lemma_wrap_unique(x: int, v: int, k: int, h: int)
    requires
        h > 0,
        -h <= v < h,
        v == x + k * (2 * h),
    ensures
        v == wrap(x, h),
{
    lemma_mod_multiples_vanish(-k, v + h, 2 * h);
    lemma_small_mod((v + h) as nat, (2 * h) as nat);
    assert(x + h == (2 * h) * (-k) + (v + h)) by (nonlinear_arith)
        requires
            v == x + k * (2 * h),
    ;
}

/// A wrapping product differs from the exact one by a multiple of `2^64`.
proof fn lemma_i64_mul(a: i64, b: i64) -> (k: int)
    ensures
        a.wrapping_mul(b) == a * b + k * 0x1_0000_0000_0000_0000,
{
    let r = 0x1_0000_0000_0000_0000int;
    let x = a * b;
    lemma_fundamental_div_mod(x, r);
    lemma_mod_bound(x, r);
    if x % r > i64::MAX {
        -(x / r) - 1
    } else {
        -(x / r)
    }
}

/// A wrapping sum differs from the exact one by a multiple of `2^64`.
proof fn lemma_i64_add(a: i64, b: i64) -> (k: int)
    ensures
        a.wrapping_add(b) == a + b + k * 0x1_0000_0000_0000_0000,
{
    if a + b > i64::MAX {
        -1
    } else if a + b < i64::MIN {
        1
    } else {
        0
    }
}

/// A wrapping product differs from the exact one by a multiple of `2^32`.
proof fn lemma_i32_mul(a: i32, b: i32) -> (k: int)
    ensures
        a.wrapping_mul(b) == a * b + k * 0x1_0000_0000,
{
    let r = 0x1_0000_0000int;
    let x = a * b;
    lemma_fundamental_div_mod(x, r);
    lemma_mod_bound(x, r);
    if x % r > i32::MAX {
        -(x / r) - 1
    } else {
        -(x / r)
    }
}

/// A wrapping sum differs from the exact one by a multiple of `2^32`.
proof fn lemma_i32_add(a: i32, b: i32) -> (k: int)
    ensures
        a.wrapping_add(b) == a + b + k * 0x1_0000_0000,
{
    if a + b > i32::MAX {
        -1
    } else if a + b < i32::MIN {
        1
    } else {
        0
    }
}

/// `wrap(x, h)` lies in `[-h, h)` and differs from `x` by a multiple of `2h`.
proof fn lemma_wrap_props(x: int, h: int) -> (k: int)
    requires
        h > 0,
    ensures
        -h <= wrap(x, h) < h,
        wrap(x, h) == x + k * (2 * h),
{
    lemma_fundamental_div_mod(x + h, 2 * h);
    lemma_mod_bound(x + h, 2 * h);
    let q = (x + h) / (2 * h);
    let r = (x + h) % (2 * h);
    assert(r - h == x + (-q) * (2 * h)) by (nonlinear_arith)
        requires
            x + h == (2 * h) * q + r,
    ;
    -q
}

/// Values that differ by a multiple of `2h` wrap to the same value.
proof fn lemma_wrap_congruent(x: int, y: int, k: int, h: int)
    requires
        h > 0,
        x == y + k * (2 * h),
    ensures
        wrap(x, h) == wrap(y, h),
{
    let k1 = lemma_wrap_props(x, h);
    assert(wrap(x, h) == y + (k + k1) * (2 * h)) by (nonlinear_arith)
        requires
            wrap(x, h) == x + k1 * (2 * h),
            x == y + k * (2 * h),
    ;
    lemma_wrap_unique(y, wrap(x, h), k + k1, h);
}

/// Wrapping an intermediate sum changes nothing: `wrap(wrap(x) + y) == wrap(x + y)`.
proof fn lemma_wrap_add(x: int, y: int, h: int)
    requires
        h > 0,
    ensures
        wrap(wrap(x, h) + y, h) == wrap(x + y, h),
{
    let k = lemma_wrap_props(x, h);
    lemma_wrap_congruent(wrap(x, h) + y, x + y, k, h);
}

/// `config` with its salt replaced.
pub open spec fn with_salt(config: StructureConfig, salt: i64) -> StructureConfig {
    StructureConfig { salt, ..config }
}

/// At region `(0, 0)` and with salt 0, the placement generator is seeded
/// with the world seed itself: the chunk is the first `nextInt(chunk_range)`
/// of `Random(world_seed)` on x and the second on z.
pub proof fn lemma_origin_region_uses_world_seed(world_seed: i64, config: StructureConfig)
    requires
        config.salt == 0,
        config.chunk_range > 0,
    ensures
        ({
            let s0 = initial_state(world_seed);
            let r = config.chunk_range as int;
            structure_chunk(world_seed, 0, 0, config) == (
                next_int_value(s0, r),
                next_int_value(next_int_state(s0, r), r),
            )
        }),
{
    let h = 0x8000_0000_0000_0000int;
    lemma_wrap_unique(world_seed as int, world_seed as int, 0, h);
    assert(region_seed(world_seed, 0, 0, 0) == world_seed);
    let s0 = initial_state(world_seed);
    let r = config.chunk_range as int;
    crate::rng::lemma_mask_bounds(world_seed);
    lemma_next_int_range(s0, r);
    lemma_next_int_range(next_int_state(s0, r), r);
    let a = next_int_value(s0, r);
    let b = next_int_value(next_int_state(s0, r), r);
    lemma_wrap_unique(a, a, 0, 0x8000_0000);
    lemma_wrap_unique(b, b, 0, 0x8000_0000);
}

/// The world seed and the salt enter placement only through their (wrapped)
/// sum: adding `d` to the world seed places structures exactly as adding `d`
/// to the salt.
pub proof fn lemma_world_seed_and_salt_interchange(
    world_seed: i64,
    d: i64,
    region_x: int,
    region_z: int,
    config: StructureConfig,
)
    ensures
        structure_chunk(wrap_i64(world_seed + d) as i64, region_x, region_z, config)
            == structure_chunk(
            world_seed,
            region_x,
            region_z,
            with_salt(config, wrap_i64(config.salt + d) as i64),
        ),
{
    let h = 0x8000_0000_0000_0000int;
    let a = region_x * REGION_X_FACTOR + region_z * REGION_Z_FACTOR;
    let k1 = lemma_wrap_props(world_seed + d, h);
    let k2 = lemma_wrap_props(config.salt + d, h);
    lemma_wrap_congruent(
        a + wrap_i64(world_seed + d) + config.salt,
        a + world_seed + d + config.salt,
        k1,
        h,
    );
    lemma_wrap_congruent(
        a + world_seed + wrap_i64(config.salt + d),
        a + world_seed + d + config.salt,
        k2,
        h,
    );
}

/// Moving one region along x is moving the world seed by 341873128712 (and
/// the region corner by `spacing`): the drawn offset of region
/// `(region_x + 1, region_z)` is the one of region `(region_x, region_z)`
/// under the world seed `world_seed + 341873128712`.
pub proof fn lemma_region_step_x(world_seed: i64, region_x: int, region_z: int, config: StructureConfig)
    ensures
        ({
            let moved = structure_chunk(
                wrap_i64(world_seed + REGION_X_FACTOR) as i64,
                region_x,
                region_z,
                config,
            );
            structure_chunk(world_seed, region_x + 1, region_z, config) == (
                wrap_i32(moved.0 + config.spacing),
                moved.1,
            )
        }),
{
    let h = 0x8000_0000_0000_0000int;
    let k = lemma_wrap_props(world_seed + REGION_X_FACTOR, h);
    lemma_wrap_congruent(
        region_x * REGION_X_FACTOR + region_z * REGION_Z_FACTOR + wrap_i64(world_seed + REGION_X_FACTOR) + config.salt,
        (region_x + 1) * REGION_X_FACTOR + region_z * REGION_Z_FACTOR + world_seed + config.salt,
        k,
        h,
    );
    let o = region_offsets(world_seed, region_x + 1, region_z, config);
    lemma_wrap_add(region_x * config.spacing + o.0, config.spacing as int, 0x8000_0000);
    assert((region_x + 1) * config.spacing == region_x * config.spacing + config.spacing)
        by (nonlinear_arith);
}

/// Moving one region along z is moving the world seed by 132897987541 (and
/// the region corner by `spacing`).
pub proof fn lemma_region_step_z(world_seed: i64, region_x: int, region_z: int, config: StructureConfig)
    ensures
        ({
            let moved = structure_chunk(
                wrap_i64(world_seed + REGION_Z_FACTOR) as i64,
                region_x,
                region_z,
                config,
            );
            structure_chunk(world_seed, region_x, region_z + 1, config) == (
                moved.0,
                wrap_i32(moved.1 + config.spacing),
            )
        }),
{
    let h = 0x8000_0000_0000_0000int;
    let k = lemma_wrap_props(world_seed + REGION_Z_FACTOR, h);
    lemma_wrap_congruent(
        region_x * REGION_X_FACTOR + region_z * REGION_Z_FACTOR + wrap_i64(world_seed + REGION_Z_FACTOR) + config.salt,
        region_x * REGION_X_FACTOR + (region_z + 1) * REGION_Z_FACTOR + world_seed + config.salt,
        k,
        h,
    );
    let o = region_offsets(world_seed, region_x, region_z + 1, config);
    lemma_wrap_add(region_z * config.spacing + o.1, config.spacing as int, 0x8000_0000);
    assert((region_z + 1) * config.spacing == region_z * config.spacing + config.spacing)
        by (nonlinear_arith);
}

/// Without wrap-around, the attempted chunk lies in the first `chunk_range`
/// chunks of its region on each axis.
pub proof fn lemma_chunk_in_region(world_seed: i64, region_x: int, region_z: int, config: StructureConfig)
    requires
        config.chunk_range > 0,
        i32::MIN <= region_x * config.spacing,
        region_x * config.spacing + config.chunk_range <= i32::MAX + 1,
        i32::MIN <= region_z * config.spacing,
        region_z * config.spacing + config.chunk_range <= i32::MAX + 1,
    ensures
        region_x * config.spacing <= structure_chunk(world_seed, region_x, region_z, config).0
            < region_x * config.spacing + config.chunk_range,
        region_z * config.spacing <= structure_chunk(world_seed, region_x, region_z, config).1
            < region_z * config.spacing + config.chunk_range,
{
    let rs = region_seed(world_seed, region_x, region_z, config.salt);
    let k = lemma_wrap_props(region_x * REGION_X_FACTOR + region_z * REGION_Z_FACTOR + world_seed + config.salt, 0x8000_0000_0000_0000);
    let s0 = initial_state(rs as i64);
    let r = config.chunk_range as int;
    crate::rng::lemma_mask_bounds(rs as i64);
    lemma_next_int_range(s0, r);
    lemma_next_int_range(next_int_state(s0, r), r);
    let o = region_offsets(world_seed, region_x, region_z, config);
    lemma_wrap_unique(region_x * config.spacing + o.0, region_x * config.spacing + o.0, 0, 0x8000_0000);
    lemma_wrap_unique(region_z * config.spacing + o.1, region_z * config.spacing + o.1, 0, 0x8000_0000);
}

/// Reference value: for world seed -1 (which wraps to 14357619 with the
/// swamp-hut salt) the swamp hut of region `(0, 0)` is attempted in chunk
/// `(0, 10)`.
pub proof fn lemma_swamp_hut_reference_value()
    ensures
        structure_chunk(-1i64, 0, 0, crate::structures::swamp_hut_spec()) == (0int, 10int),
{
    lemma_wrap_unique(14357619, 14357619, 0, 0x8000_0000_0000_0000);
    assert(region_seed(-1i64, 0, 0, 14357620i64) == 14357619);
    assert(((14357619i64 ^ 0x5DEECE66Di64) & 0xFFFF_FFFF_FFFFi64) == 25203044894i64)
        by (bit_vector);
    assert(crate::rng::lcg_step(25203044894) == 108048911764177) by {
        reveal(crate::rng::lcg_step);
    }
    assert(crate::rng::lcg_step(108048911764177) == 24527683019016) by {
        reveal(crate::rng::lcg_step);
    }
    let b: i32 = 24;
    assert((b & ((-b) as i32)) != b) by (bit_vector)
        requires
            b == 24i32,
    ;
    crate::rng::lemma_bound_not_power_of_two(b);
    crate::rng::lemma_next_int_unrolls(25203044894, 24);
    crate::rng::lemma_next_int_unrolls(108048911764177, 24);
    lemma_wrap_unique(0, 0, 0, 0x8000_0000);
    lemma_wrap_unique(10, 10, 0, 0x8000_0000);
}

/// Returns the (chunk_x, chunk_z) at which a structure attempts placement
/// within region `(region_x, region_z)`, in absolute chunk coordinates.
pub fn get_structure_chunk(
    world_seed: i64,
    region_x: i32,
    region_z: i32,
    config: &StructureConfig,
) -> (r: (i32, i32))
    requires
        config.chunk_range > 0,
    ensures
        r.0 == structure_chunk(world_seed, region_x as int, region_z as int, *config).0,
        r.1 == structure_chunk(world_seed, region_x as int, region_z as int, *config).1,
        i32::MIN <= region_x * config.spacing && region_x * config.spacing + config.chunk_range
            <= i32::MAX + 1 ==> region_x * config.spacing <= r.0 < region_x * config.spacing
            + config.chunk_range,
        i32::MIN <= region_z * config.spacing && region_z * config.spacing + config.chunk_range
            <= i32::MAX + 1 ==> region_z * config.spacing <= r.1 < region_z * config.spacing
            + config.chunk_range,
{
    let t1 = (region_x as i64).wrapping_mul(REGION_X_FACTOR);
    let t2 = (region_z as i64).wrapping_mul(REGION_Z_FACTOR);
    let t3 = t1.wrapping_add(t2);
    let t4 = t3.wrapping_add(world_seed);
    let seed = t4.wrapping_add(config.salt);
    proof {
        let k1 = lemma_i64_mul(region_x as i64, REGION_X_FACTOR);
        let k2 = lemma_i64_mul(region_z as i64, REGION_Z_FACTOR);
        let k3 = lemma_i64_add(t1, t2);
        let k4 = lemma_i64_add(t3, world_seed);
        let k5 = lemma_i64_add(t4, config.salt);
        let exact = region_x * REGION_X_FACTOR + region_z * REGION_Z_FACTOR + world_seed
            + config.salt;
        lemma_wrap_unique(exact, seed as int, k1 + k2 + k3 + k4 + k5, 0x8000_0000_0000_0000);
    }
    let mut rng = JavaLcg::new(seed);
    let chunk_x = rng.next_int(config.chunk_range);
    let chunk_z = rng.next_int(config.chunk_range);
    let cx = region_x.wrapping_mul(config.spacing).wrapping_add(chunk_x);
    let cz = region_z.wrapping_mul(config.spacing).wrapping_add(chunk_z);
    proof {
        let m1 = lemma_i32_mul(region_x, config.spacing);
        let a1 = lemma_i32_add(region_x.wrapping_mul(config.spacing), chunk_x);
        lemma_wrap_unique(region_x * config.spacing + chunk_x, cx as int, m1 + a1, 0x8000_0000);
        let m2 = lemma_i32_mul(region_z, config.spacing);
        let a2 = lemma_i32_add(region_z.wrapping_mul(config.spacing), chunk_z);
        lemma_wrap_unique(region_z * config.spacing + chunk_z, cz as int, m2 + a2, 0x8000_0000);
        let ex = region_x * config.spacing + chunk_x;
        if i32::MIN <= ex <= i32::MAX {
            lemma_wrap_unique(ex, ex, 0, 0x8000_0000);
        }
        let ez = region_z * config.spacing + chunk_z;
        if i32::MIN <= ez <= i32::MAX {
            lemma_wrap_unique(ez, ez, 0, 0x8000_0000);
        }
    }
    (cx, cz)
}

/// Block-space center of a chunk: its origin plus 8 on each axis.
pub fn chunk_to_block_center(chunk_x: i32, chunk_z: i32) -> (r: (i64, i64))
    ensures
        r.0 == chunk_x * 16 + 8,
        r.1 == chunk_z * 16 + 8,
{
    (chunk_x as i64 * 16 + 8, chunk_z as i64 * 16 + 8)
}

} // verus!

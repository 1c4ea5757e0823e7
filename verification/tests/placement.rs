use mc_seed_finder::placement::{chunk_to_block_center, get_structure_chunk};
use mc_seed_finder::structures::{swamp_hut, StructureConfig};

#[test]
fn matches_verified_swamp_hut_placement() {
    assert_eq!(get_structure_chunk(0, 0, 0, &swamp_hut()), (0, 18));
    assert_eq!(get_structure_chunk(0, 1, 0, &swamp_hut()), (32, 19));
    assert_eq!(get_structure_chunk(0, -1, -1, &swamp_hut()), (-30, -9));
}

#[test]
fn swamp_hut_config_values() {
    let c = swamp_hut();
    assert_eq!(c.spacing, 32);
    assert_eq!(c.chunk_range, 24);
    assert_eq!(c.salt, 14357620);
}

/// Every attempted chunk lies inside its region's first `chunk_range` chunks.
#[test]
fn chunk_lies_in_its_region() {
    let c = swamp_hut();
    for seed in [0i64, 1, -1, 2120, i64::MAX, i64::MIN] {
        for rx in -4..=4 {
            for rz in -4..=4 {
                let (cx, cz) = get_structure_chunk(seed, rx, rz, &c);
                assert!(rx * 32 <= cx && cx < rx * 32 + 24);
                assert!(rz * 32 <= cz && cz < rz * 32 + 24);
            }
        }
    }
}

/// The region seed wraps around `i64`: extreme world seeds still work, and
/// the pre-1.13 salt gives a different chunk.
#[test]
fn wrapping_region_seed_and_salt_matter() {
    let modern = swamp_hut();
    let old = StructureConfig { spacing: 32, chunk_range: 24, salt: 14357617 };
    let a = get_structure_chunk(i64::MAX, i32::MAX / 32, i32::MIN / 32, &modern);
    assert!(a.0 >= (i32::MAX / 32) * 32);
    assert_ne!(get_structure_chunk(0, 0, 0, &modern), get_structure_chunk(0, 0, 0, &old));
}

#[test]
fn block_center_is_origin_plus_eight() {
    assert_eq!(chunk_to_block_center(0, 18), (8, 296));
    assert_eq!(chunk_to_block_center(-30, -9), (-472, -136));
}

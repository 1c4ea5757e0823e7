use mc_seed_finder::conditions::{DoubleHutCondition, QuadHutCondition};
use mc_seed_finder::{double_hut_condition, quad_hut_condition};

/// README: seed 2120 is a geometric double-hut match.
#[test]
fn seed_2120_is_a_geometric_double_hut_match() {
    let m = double_hut_condition().evaluate(2120);
    assert!(m.is_some());
    let m = m.unwrap();
    assert_eq!(m.seed, 2120);
}

/// A returned double match satisfies the condition it was found with, and
/// its AFK spot is the midpoint of the huts.
#[test]
fn double_matches_satisfy_their_condition() {
    let cond = double_hut_condition();
    let mut found = 0;
    for seed in 0..3000i64 {
        if let Some(m) = cond.evaluate(seed) {
            found += 1;
            assert_eq!(m.seed, seed);
            assert_eq!(2 * m.afk_x, m.hut1.0 + m.hut2.0);
            assert_eq!(2 * m.afk_z, m.hut1.1 + m.hut2.1);
            assert!(m.afk_x * m.afk_x + m.afk_z * m.afk_z <= 512 * 512);
            let (dx, dz) = (m.hut1.0 - m.afk_x, m.hut1.1 - m.afk_z);
            assert!(dx * dx + dz * dz <= 128 * 128);
            assert_eq!(m.hut_coords(), [m.hut1, m.hut2]);
            assert_eq!((m.hut1.0 - 8) % 16, 0);
        }
    }
    assert!(found > 0);
}

/// A quad match has its AFK spot at the centroid, all huts within the
/// radius.
#[test]
fn quad_matches_satisfy_their_condition() {
    let cond = QuadHutCondition { max_spawn_dist: 2000, max_afk_radius: 400 };
    let mut found = 0;
    for seed in 0..2000i64 {
        if let Some(m) = cond.evaluate(seed) {
            found += 1;
            let sx: i64 = m.huts.iter().map(|h| h.0).sum();
            let sz: i64 = m.huts.iter().map(|h| h.1).sum();
            assert_eq!(4 * m.afk_x, sx);
            assert_eq!(4 * m.afk_z, sz);
            for h in m.hut_coords() {
                let (dx, dz) = (h.0 - m.afk_x, h.1 - m.afk_z);
                assert!(dx * dx + dz * dz <= 400 * 400);
            }
        }
    }
    assert!(found > 0);
}

/// A zero radius can never be met (huts of different regions differ), and
/// the standard quad condition is stricter than an unbounded one.
#[test]
fn impossible_conditions_find_nothing() {
    let none_double = DoubleHutCondition { max_spawn_dist: 512, max_afk_radius: 0 };
    let none_quad = QuadHutCondition { max_spawn_dist: 512, max_afk_radius: 0 };
    for seed in 0..200i64 {
        assert!(none_double.evaluate(seed).is_none());
        assert!(none_quad.evaluate(seed).is_none());
    }
    let q = quad_hut_condition();
    assert_eq!(q.max_spawn_dist, 512);
    assert_eq!(q.max_afk_radius, 128);
}

/// With generous limits the first candidate in scan order is returned: the
/// pair of regions (-2, -2) and (-1, -2).
#[test]
fn first_candidate_in_scan_order() {
    let all = DoubleHutCondition { max_spawn_dist: i64::MAX, max_afk_radius: i64::MAX };
    let m = all.evaluate(0).unwrap();
    let c = mc_seed_finder::structures::swamp_hut();
    let a = mc_seed_finder::placement::get_structure_chunk(0, -2, -2, &c);
    let b = mc_seed_finder::placement::get_structure_chunk(0, -1, -2, &c);
    assert_eq!(m.hut1, mc_seed_finder::placement::chunk_to_block_center(a.0, a.1));
    assert_eq!(m.hut2, mc_seed_finder::placement::chunk_to_block_center(b.0, b.1));
}

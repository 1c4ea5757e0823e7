use mc_seed_finder::search::{scan_geometry, scan_geometry_from};
use mc_seed_finder::{
    double_hut_condition, find_confirmed_double, find_confirmed_double_from,
    find_confirmed_quad_from, quad_hut_condition, select_confirmed, validate_interval,
    IntervalError,
};

#[test]
fn filters_correctly_and_counts_scanned_seeds() {
    // Simple stand-in condition: match every seed divisible by 7.
    let result = scan_geometry(100, |seed| if seed % 7 == 0 { Some(seed) } else { None });

    assert_eq!(result.seeds_scanned, 100);
    assert_eq!(
        result.matches,
        vec![0, 7, 14, 21, 28, 35, 42, 49, 56, 63, 70, 77, 84, 91, 98]
    );
}

#[test]
fn zero_count_returns_no_matches() {
    let result = scan_geometry(0, |seed| Some(seed));
    assert!(result.matches.is_empty());
    assert_eq!(result.seeds_scanned, 0);
}

/// The interval starts at `start_seed`, and reaches up to `i64::MAX`.
#[test]
fn scan_from_offset_and_top_of_range() {
    let r = scan_geometry_from(10, 5, |s| Some(s * 2));
    assert_eq!(r.matches, vec![20, 22, 24, 26, 28]);
    let r = scan_geometry_from(i64::MAX - 3, 3, |s| Some(s));
    assert_eq!(r.matches, vec![i64::MAX - 3, i64::MAX - 2, i64::MAX - 1]);
    assert_eq!(r.seeds_scanned, 3);
}

#[test]
fn select_keeps_confirmed_in_order() {
    let r = select_confirmed(&vec![1, 2, 3, 4], &vec![true, false, false, true]);
    assert_eq!(r, vec![1, 4]);
    let e: Vec<i32> = select_confirmed(&vec![], &vec![]);
    assert!(e.is_empty());
}

/// Pass 2 asks about every pass-1 match and keeps exactly those confirmed.
#[test]
fn confirmed_double_is_filtered_pass1() {
    let (pass1, all) = find_confirmed_double_from(2000, 300, |_, _| true);
    let (_, none) = find_confirmed_double_from(2000, 300, |_, _| false);
    assert_eq!(pass1.seeds_scanned, 300);
    assert_eq!(all.len(), pass1.matches.len());
    assert!(none.is_empty());
    let (p, even) = find_confirmed_double_from(2000, 300, |seed, _| seed % 2 == 0);
    let expect: Vec<i64> = p.matches.iter().map(|m| m.seed).filter(|s| s % 2 == 0).collect();
    assert_eq!(even.iter().map(|m| m.seed).collect::<Vec<_>>(), expect);
    let cond = double_hut_condition();
    let direct: Vec<i64> = (2000..2300).filter(|s| cond.evaluate(*s).is_some()).collect();
    assert_eq!(pass1.matches.iter().map(|m| m.seed).collect::<Vec<_>>(), direct);
    assert!(direct.contains(&2120));
}

/// The biome check sees each match's own hut coordinates.
#[test]
fn biome_check_receives_hut_coordinates() {
    let (pass1, confirmed) = find_confirmed_double(2200, |seed, huts| {
        let m = double_hut_condition().evaluate(seed).unwrap();
        huts == m.hut_coords()
    });
    assert_eq!(confirmed.len(), pass1.matches.len());
    let (q1, q2) = find_confirmed_quad_from(0, 50, |_, _| true);
    let qc = quad_hut_condition();
    assert_eq!(q1.matches.len(), (0..50).filter(|s| qc.evaluate(*s).is_some()).count());
    assert_eq!(q2.len(), q1.matches.len());
}

#[test]
fn interval_validation() {
    assert!(validate_interval(0, 10).is_ok());
    assert!(matches!(validate_interval(0, 0), Err(IntervalError::NonPositiveCount)));
    assert!(matches!(validate_interval(5, -1), Err(IntervalError::NonPositiveCount)));
    assert!(matches!(validate_interval(i64::MAX, 1), Err(IntervalError::OutOfRange)));
    assert!(validate_interval(i64::MAX - 1, 1).is_ok());
}

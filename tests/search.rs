use routefinder::reverse_rng::data_point::{DataPoint, Decimal, StateCandidate};
use routefinder::reverse_rng::search::{
    constraints_hold, constraints_of, find_original_state_in_range, is_valid_seed,
    quick_constraint_check, sort_by_selectivity, Constraint,
};
use routefinder::reverse_rng::simd_search::{
    check_consistency_lanes, compute_initial_states, find_original_state_lanes,
    mul_epi64, pcg_output_function_lanes, validate_seeds_lanes,
    LaneWidth,
};
use routefinder::rng::{output_function, SggPcg};

/// The value drawn at step `position` (0-based, after `position` steps),
/// scaled into [0, 100] and rounded to two decimals, in hundredths.
fn observed_hundredths(seed: i32, position: u64) -> i64 {
    let mut rng = SggPcg::new(seed as u64);
    rng.advance(position);
    let value = rng.next_u32();
    let fraction = value as f64 / u32::MAX as f64;
    let scaled = fraction * 100.0;
    (scaled * 100.0).round() as i64
}

fn observation(name: String, position: u64, hundredths: i64) -> DataPoint {
    let (min_u32, max_u32) = DataPoint::calculate_observed_u32_range(
        Decimal::new(0, 0),
        Decimal::new(100, 0),
        Decimal::new(hundredths, 2),
    );
    DataPoint { offset: position + 1, name, min_u32, max_u32 }
}

fn known_seed_points(seed: i32) -> Vec<DataPoint> {
    let mut data_points = Vec::new();
    for i in 0..3u64 {
        let position = i * 10;
        data_points.push(observation(format!("test_{}", i), position, observed_hundredths(seed, position)));
    }
    data_points
}

fn seeds(candidates: &[StateCandidate]) -> Vec<i32> {
    let mut s: Vec<i32> = candidates.iter().map(|c| c.seed).collect();
    s.sort();
    s
}

#[test]
fn test_known_seed_validation() {
    let known_seed = 12345i32;
    let data_points = known_seed_points(known_seed);
    assert!(is_valid_seed(known_seed, &data_points));
    assert!(!is_valid_seed(known_seed + 1, &data_points));
}

#[test]
fn known_seed_recovered_by_every_engine() {
    let data_points = known_seed_points(12345);
    let expected = vec![StateCandidate { seed: 12345, state: SggPcg::new(12345u64).state() }];
    let scalar = find_original_state_in_range(&data_points, 12345 - 500, 12345 + 500);
    assert_eq!(scalar, expected);
    for width in [LaneWidth::Four, LaneWidth::Eight] {
        let lanes = find_original_state_lanes(&data_points, 12345 - 500, 12345 + 500, width);
        assert_eq!(lanes, expected);
    }
}

#[test]
fn perturbed_observation_excludes_known_seed() {
    let mut data_points = Vec::new();
    for i in 0..3u64 {
        let position = i * 10;
        let mut h = observed_hundredths(12345, position);
        if i == 1 {
            h = if h >= 2 { h - 2 } else { h + 2 };
        }
        data_points.push(observation(format!("test_{}", i), position, h));
    }
    assert!(!is_valid_seed(12345, &data_points));
    let found = find_original_state_in_range(&data_points, 12345 - 500, 12345 + 500);
    assert!(found.iter().all(|c| c.seed != 12345));
    let lanes = find_original_state_lanes(&data_points, 12345 - 500, 12345 + 500, LaneWidth::Four);
    assert!(lanes.iter().all(|c| c.seed != 12345));
}

#[test]
fn seed_zero_found_in_small_window() {
    let mut data_points = Vec::new();
    for i in 0..2u64 {
        let position = i * 5;
        data_points.push(observation(format!("test_{}", i), position, observed_hundredths(0, position)));
    }
    assert_eq!(data_points[0].offset, 1);
    assert_eq!(data_points[1].offset, 6);
    let found = find_original_state_in_range(&data_points, -1000, 1000);
    assert_eq!(seeds(&found), vec![0]);
    assert_eq!(found[0].state, SggPcg::new(0).state());
}

#[test]
fn test_simd_vs_scalar_consistency_small() {
    let mut data_points = Vec::new();
    for i in 0..2u64 {
        let position = i * 5;
        data_points.push(observation(format!("test_{}", i), position, observed_hundredths(0, position)));
    }
    let scalar = find_original_state_in_range(&data_points, -3000, 3000);
    let four = find_original_state_lanes(&data_points, -3000, 3000, LaneWidth::Four);
    let eight = find_original_state_lanes(&data_points, -3000, 3000, LaneWidth::Eight);
    assert_eq!(four.len(), scalar.len());
    assert_eq!(seeds(&four), seeds(&scalar));
    assert_eq!(seeds(&eight), seeds(&scalar));
    assert!(seeds(&scalar).contains(&0));
}

#[test]
fn engines_agree_on_loose_constraints() {
    // one wide constraint: many seeds in the window match
    let wide = DataPoint { offset: 3, name: "wide".to_string(), min_u32: 0, max_u32: u32::MAX / 8 };
    let other = DataPoint { offset: 0, name: "other".to_string(), min_u32: u32::MAX / 2, max_u32: u32::MAX };
    let data_points = vec![wide, other];
    let scalar = find_original_state_in_range(&data_points, -777, 1003);
    assert!(scalar.len() > 10);
    for width in [LaneWidth::Four, LaneWidth::Eight] {
        assert_eq!(find_original_state_lanes(&data_points, -777, 1003, width), scalar);
    }
}

#[test]
fn unsatisfiable_observations_give_no_candidate() {
    let a = DataPoint { offset: 1, name: "a".to_string(), min_u32: 5, max_u32: 4 };
    let found = find_original_state_in_range(&[a.clone()], -100, 100);
    assert!(found.is_empty());
    let lanes = find_original_state_lanes(&[a], -100, 100, LaneWidth::Eight);
    assert!(lanes.is_empty());
}

#[test]
fn empty_window_gives_no_candidate() {
    let data_points = known_seed_points(12345);
    assert!(find_original_state_in_range(&data_points, 5, 5).is_empty());
    assert!(find_original_state_lanes(&data_points, 5, 5, LaneWidth::Four).is_empty());
}

#[test]
fn window_at_the_ends_of_the_seed_range() {
    let top = i32::MAX;
    let points = known_seed_points(top);
    let found = find_original_state_in_range(&points, i32::MAX as i64 - 20, i32::MAX as i64 + 1);
    assert!(seeds(&found).contains(&top));
    let lanes = find_original_state_lanes(&points, i32::MAX as i64 - 20, i32::MAX as i64 + 1, LaneWidth::Eight);
    assert_eq!(seeds(&lanes), seeds(&found));
    let bottom = i32::MIN;
    let points = known_seed_points(bottom);
    let found = find_original_state_in_range(&points, i32::MIN as i64, i32::MIN as i64 + 13);
    assert!(seeds(&found).contains(&bottom));
}

#[test]
fn selectivity_sort_puts_narrow_ranges_first() {
    let cs = vec![
        Constraint { offset: 1, min_u32: 0, max_u32: 1000 },
        Constraint { offset: 2, min_u32: 10, max_u32: 12 },
        Constraint { offset: 3, min_u32: 0, max_u32: u32::MAX },
        Constraint { offset: 4, min_u32: 7, max_u32: 7 },
    ];
    let sorted = sort_by_selectivity(&cs);
    let offsets: Vec<u64> = sorted.iter().map(|c| c.offset).collect();
    assert_eq!(offsets, vec![4, 2, 1, 3]);
}

#[test]
fn quick_check_reads_at_most_three_constraints() {
    let pass = Constraint { offset: 1, min_u32: 0, max_u32: u32::MAX };
    let fail = Constraint { offset: 1, min_u32: 1, max_u32: 0 };
    assert!(quick_constraint_check(42, &[pass, pass, pass, fail]));
    assert!(!constraints_hold(42, &[pass, pass, pass, fail]));
    assert!(!quick_constraint_check(42, &[pass, fail]));
}

#[test]
fn test_consistency_check_simd() {
    let (min_u32, max_u32) =
        DataPoint::calculate_observed_u32_range(Decimal::new(0, 0), Decimal::new(100, 0), Decimal::new(50, 0));
    let dp = DataPoint { name: "test".to_string(), offset: 1, min_u32, max_u32 };
    let c = constraints_of(&[dp.clone()])[0];
    let values = [min_u32, max_u32, min_u32 - 1, max_u32 + 1];
    let expected: Vec<bool> = values.iter().map(|v| dp.is_consistent_with(*v)).collect();
    let mut alive = vec![true; 4];
    check_consistency_lanes(&values, &c, &mut alive);
    assert_eq!(alive, expected);
    assert_eq!(alive, vec![true, true, false, false]);
}

#[test]
fn test_pcg_output_function_simd() {
    let test_states = [0x123456789ABCDEF0u64, 0xFEDCBA9876543210u64, 0x0123456789ABCDEFu64, 0xDEADBEEFCAFEBABEu64];
    let expected: Vec<u32> = test_states.iter().map(|s| output_function(*s)).collect();
    assert_eq!(pcg_output_function_lanes(&test_states), expected);
}

#[test]
fn simd_search_test_avx512_pcg_output_function() {
    let test_states = [
        0x123456789ABCDEF0u64, 0xFEDCBA9876543210u64, 0x0123456789ABCDEFu64, 0xDEADBEEFCAFEBABEu64,
        0x1111111111111111u64, 0x2222222222222222u64, 0x3333333333333333u64, 0x4444444444444444u64,
    ];
    let expected: Vec<u32> = test_states.iter().map(|s| output_function(*s)).collect();
    assert_eq!(pcg_output_function_lanes(&test_states), expected);
}

#[test]
fn simd_search_test_avx512_consistency_check() {
    let (min_u32, max_u32) =
        DataPoint::calculate_observed_u32_range(Decimal::new(0, 0), Decimal::new(100, 0), Decimal::new(50, 0));
    let c = Constraint { offset: 1, min_u32, max_u32 };
    let values = [min_u32, max_u32, min_u32 - 1, max_u32 + 1, min_u32 + 1, 0, u32::MAX, max_u32 - 1];
    let mut alive = vec![true; 8];
    check_consistency_lanes(&values, &c, &mut alive);
    assert_eq!(alive, vec![true, true, false, false, true, false, false, true]);
}

#[test]
fn test_early_termination_check() {
    let states = compute_initial_states(&[1, 2, 3, 4]);
    let never = Constraint { offset: 1, min_u32: 1, max_u32: 0 };
    let always = Constraint { offset: 5, min_u32: 0, max_u32: u32::MAX };
    assert_eq!(validate_seeds_lanes(&states, &[never, always]), vec![false; 4]);
    assert_eq!(validate_seeds_lanes(&states, &[always]), vec![true; 4]);
    let first = output_function(states[0]);
    let only_first = Constraint { offset: 1, min_u32: first, max_u32: first };
    let mask = validate_seeds_lanes(&states, &[only_first]);
    assert!(mask[0]);
}

#[test]
fn lane_seeding_matches_engine_seeding() {
    let seeds = [i32::MIN, -1, 0, 1, 12345, i32::MAX, -987654, 31337];
    let states = compute_initial_states(&seeds);
    for (s, st) in seeds.iter().zip(states.iter()) {
        assert_eq!(*st, SggPcg::new(*s as u64).state());
    }
}

#[test]
fn partial_product_multiply_matches_wrapping_mul() {
    let values = [0u64, 1, 2, 0xffff_ffff, 0x1_0000_0000, u64::MAX, 0x5851f42d4c957f2d, 0xDEADBEEFCAFEBABE];
    for a in values {
        for b in values {
            assert_eq!(mul_epi64(a, b), a.wrapping_mul(b));
        }
    }
    assert_eq!(mul_epi64(0x5851f42d4c957f2d, 3), 0x5851f42d4c957f2du64.wrapping_mul(3));
}

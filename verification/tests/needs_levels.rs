use prosocial::needs::{
    capacity_divisor, draw_level, draw_weighted_level, level_from_offset, need_deficit,
    needs_from_roll,
};
use rand::rngs::StdRng;
use rand::SeedableRng;

#[test]
fn deficit_counts_missing_levels() {
    assert_eq!(need_deficit(5), 0);
    assert_eq!(need_deficit(4), 1);
    assert_eq!(need_deficit(1), 4);
    assert_eq!(need_deficit(0), 5);
}

#[test]
fn capacity_follows_security_hypothesis() {
    // Level 5 -> 100%, 4 -> 50%, 3 -> 33%, 2 -> 25%, 1 -> 20%.
    assert_eq!(capacity_divisor(5), 1);
    assert_eq!(capacity_divisor(4), 2);
    assert_eq!(capacity_divisor(3), 3);
    assert_eq!(capacity_divisor(2), 4);
    assert_eq!(capacity_divisor(1), 5);
    let percent: Vec<u32> = (1..=5u8).map(|l| 100 / capacity_divisor(l) as u32).collect();
    assert_eq!(percent, vec![20, 25, 33, 50, 100]);
}

#[test]
fn capacity_never_shrinks_as_level_rises() {
    for low in 0..=5u8 {
        for high in low..=5u8 {
            assert!(capacity_divisor(high) <= capacity_divisor(low));
        }
    }
}

#[test]
fn weighted_roll_boundaries() {
    let cases = [
        (0, 1),
        (10, 1),
        (11, 2),
        (30, 2),
        (31, 3),
        (60, 3),
        (61, 4),
        (85, 4),
        (86, 5),
        (99, 5),
    ];
    for (roll, level) in cases {
        assert_eq!(needs_from_roll(roll), level, "roll {}", roll);
    }
}

#[test]
fn weighted_roll_bin_sizes() {
    let mut bins = [0u32; 6];
    for roll in 0..100 {
        bins[needs_from_roll(roll) as usize] += 1;
    }
    assert_eq!(bins, [0, 11, 20, 30, 25, 14]);
}

#[test]
fn drawn_levels_stay_in_range_and_cover_it() {
    let mut rng = StdRng::seed_from_u64(7);
    let mut seen = [false; 6];
    for _ in 0..500 {
        let l = draw_level(&mut rng);
        assert!((1..=5).contains(&l));
        seen[l as usize] = true;
        let w = draw_weighted_level(&mut rng);
        assert!((1..=5).contains(&w));
    }
    assert_eq!(seen, [false, true, true, true, true, true]);
}

#[test]
fn offsets_map_to_levels() {
    let levels: Vec<u8> = (0..5).map(level_from_offset).collect();
    assert_eq!(levels, vec![1, 2, 3, 4, 5]);
}

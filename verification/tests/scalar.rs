use fuzzer::scalar::{
    mutate_signed_int, mutate_signed_int_with, mutate_unsigned_int, mutate_unsigned_int_with,
    regenerates, signed_stride_room, step_signed, step_unsigned, steps_down, stride_unsigned,
    unsigned_stride_room, IntWalk, INT_REGEN_LIMIT, INT_STEP_DOWN_LIMIT,
};
use fuzzer::Pcg32;
use rand::SeedableRng;

#[test]
fn regeneration_threshold_is_one_fifth() {
    // 0.2 on a grid of 2^53 points.
    assert_eq!(INT_REGEN_LIMIT, 1_801_439_850_948_198);
    assert!(regenerates(0));
    assert!(regenerates(INT_REGEN_LIMIT));
    assert!(!regenerates(INT_REGEN_LIMIT + 1));
    assert!(!regenerates((1u64 << 53) - 1));
}

#[test]
fn step_direction_threshold_is_one_half() {
    assert_eq!(INT_STEP_DOWN_LIMIT, 1u64 << 52);
    assert!(steps_down(0));
    assert!(steps_down(1u64 << 52));
    assert!(!steps_down((1u64 << 52) + 1));
}

#[test]
fn signed_step_moves_by_one() {
    assert_eq!(step_signed(5, 0, 10, true), 4);
    assert_eq!(step_signed(5, 0, 10, false), 6);
    assert_eq!(step_signed(-3, -7, -1, true), -4);
    assert_eq!(step_signed(-3, -7, -1, false), -2);
}

#[test]
fn signed_step_at_the_lower_bound_only_goes_up() {
    assert_eq!(step_signed(0, 0, 10, true), 1);
    assert_eq!(step_signed(0, 0, 10, false), 1);
    assert_eq!(step_signed(i64::MIN, i64::MIN, 3, true), i64::MIN + 1);
}

#[test]
fn signed_step_at_the_upper_bound_only_goes_down() {
    assert_eq!(step_signed(10, 0, 10, true), 9);
    assert_eq!(step_signed(10, 0, 10, false), 10);
    assert_eq!(step_signed(i64::MAX, 0, i64::MAX, true), i64::MAX - 1);
    assert_eq!(step_signed(i64::MAX, 0, i64::MAX, false), i64::MAX);
}

#[test]
fn step_in_a_single_valued_range_stays() {
    assert_eq!(step_signed(7, 7, 7, true), 7);
    assert_eq!(step_signed(7, 7, 7, false), 7);
    assert_eq!(step_unsigned(7, 7, 7, true), 7);
    assert_eq!(step_unsigned(7, 7, 7, false), 7);
}

#[test]
fn unsigned_step_moves_by_one() {
    assert_eq!(step_unsigned(5, 0, 10, true), 4);
    assert_eq!(step_unsigned(5, 0, 10, false), 6);
    assert_eq!(step_unsigned(0, 0, 10, true), 1);
    assert_eq!(step_unsigned(10, 0, 10, false), 10);
    assert_eq!(step_unsigned(u64::MAX, 0, u64::MAX, true), u64::MAX - 1);
    assert_eq!(step_unsigned(u64::MAX, 0, u64::MAX, false), u64::MAX);
}

#[test]
fn signed_mutation_stays_in_range() {
    for seed in 0..200u64 {
        let mut rng = Pcg32::seed_from_u64(seed);
        let mut value: i64 = -2;
        for _ in 0..50 {
            mutate_signed_int(&mut value, -5, 5, &mut rng);
            assert!((-5..=5).contains(&value));
        }
    }
}

#[test]
fn unsigned_mutation_stays_in_range() {
    for seed in 0..200u64 {
        let mut rng = Pcg32::seed_from_u64(seed);
        let mut value: u64 = 3;
        for _ in 0..50 {
            mutate_unsigned_int(&mut value, 0, 5, &mut rng);
            assert!(value <= 5);
        }
    }
}

#[test]
fn mutation_over_the_whole_signed_range_does_not_overflow() {
    let mut rng = Pcg32::seed_from_u64(11);
    for start in [i64::MIN, -1, 0, i64::MAX] {
        let mut value = start;
        for _ in 0..200 {
            mutate_signed_int(&mut value, i64::MIN, i64::MAX, &mut rng);
        }
    }
}

#[test]
fn mutation_over_the_whole_unsigned_range_does_not_overflow() {
    let mut rng = Pcg32::seed_from_u64(12);
    for start in [0, 1, u64::MAX] {
        let mut value = start;
        for _ in 0..200 {
            mutate_unsigned_int(&mut value, 0, u64::MAX, &mut rng);
        }
    }
}

#[test]
fn single_valued_range_never_changes() {
    for seed in 0..100u64 {
        let mut rng = Pcg32::seed_from_u64(seed);
        let mut signed: i64 = -9;
        let mut unsigned: u64 = 42;
        for _ in 0..100 {
            mutate_signed_int(&mut signed, -9, -9, &mut rng);
            mutate_unsigned_int(&mut unsigned, 42, 42, &mut rng);
            assert_eq!(signed, -9);
            assert_eq!(unsigned, 42);
        }
    }
}

#[test]
fn signed_mutation_walks_and_regenerates() {
    // A walk moves by exactly one; only a regeneration can jump further.
    let mut rng = Pcg32::seed_from_u64(3);
    let mut steps = 0;
    let mut jumps = 0;
    for _ in 0..2000 {
        let mut value: i64 = 0;
        mutate_signed_int(&mut value, -1000, 1000, &mut rng);
        if value.abs() == 1 {
            steps += 1;
        } else if value.abs() > 1 {
            jumps += 1;
        }
    }
    assert!(steps > 1000);
    assert!(jumps > 100);
}

#[test]
fn unsigned_mutation_reaches_the_whole_range() {
    let mut rng = Pcg32::seed_from_u64(4);
    let mut seen = [false; 6];
    let mut value: u64 = 0;
    for _ in 0..2000 {
        mutate_unsigned_int(&mut value, 0, 5, &mut rng);
        seen[value as usize] = true;
    }
    assert_eq!(seen, [true; 6]);
}

#[test]
fn stride_room_is_cut_off_at_the_bounds() {
    assert_eq!(signed_stride_room(0, -100, 100, 10), (10, 10));
    assert_eq!(signed_stride_room(-95, -100, 100, 10), (5, 10));
    assert_eq!(signed_stride_room(97, -100, 100, 10), (10, 3));
    assert_eq!(signed_stride_room(4, 4, 4, 10), (0, 0));
    assert_eq!(signed_stride_room(0, i64::MIN, i64::MAX, u32::MAX), (u32::MAX as i64, u32::MAX as i64));
    assert_eq!(signed_stride_room(i64::MAX, i64::MIN, i64::MAX, 7), (7, 0));
    assert_eq!(signed_stride_room(i64::MIN, i64::MIN, i64::MAX, 7), (0, 7));
    assert_eq!(signed_stride_room(0, 0, 5, 0), (0, 0));
    assert_eq!(unsigned_stride_room(50, 0, 100, 10), (10, 10));
    assert_eq!(unsigned_stride_room(5, 0, 100, 10), (5, 10));
    assert_eq!(unsigned_stride_room(97, 0, 100, 10), (10, 3));
    assert_eq!(unsigned_stride_room(u64::MAX, 0, u64::MAX, 7), (7, 0));
    assert_eq!(unsigned_stride_room(0, 0, u64::MAX, u32::MAX), (0, u32::MAX as i64));
}

#[test]
fn unsigned_values_move_by_signed_strides() {
    assert_eq!(stride_unsigned(10, 0), 10);
    assert_eq!(stride_unsigned(10, 5), 15);
    assert_eq!(stride_unsigned(10, -10), 0);
    assert_eq!(stride_unsigned(u64::MAX, -1), u64::MAX - 1);
    assert_eq!(stride_unsigned(u64::MAX - 3, 3), u64::MAX);
    assert_eq!(stride_unsigned(1 << 63, i64::MIN), 0);
}

#[test]
fn bounded_delta_walk_stays_in_range() {
    let walk = IntWalk::BoundedDelta { delta: 16 };
    for seed in 0..200u64 {
        let mut rng = Pcg32::seed_from_u64(seed);
        let mut signed: i64 = -20;
        let mut unsigned: u64 = 3;
        for _ in 0..50 {
            mutate_signed_int_with(&mut signed, -25, 40, walk, &mut rng);
            mutate_unsigned_int_with(&mut unsigned, 0, 40, walk, &mut rng);
            assert!((-25..=40).contains(&signed));
            assert!(unsigned <= 40);
        }
    }
}

#[test]
fn bounded_delta_walk_strides_up_to_delta() {
    // Over a range this wide a regenerated value lands within 4 of the old
    // one next to never, so what stays that close has walked.
    let walk = IntWalk::BoundedDelta { delta: 4 };
    let mut rng = Pcg32::seed_from_u64(8);
    let mut strides = [false; 9];
    let mut far = 0;
    for _ in 0..2000 {
        let mut value: i64 = 0;
        mutate_signed_int_with(&mut value, i64::MIN, i64::MAX, walk, &mut rng);
        if (-4..=4).contains(&value) {
            strides[(value + 4) as usize] = true;
        } else {
            far += 1;
        }
    }
    assert_eq!(strides, [true; 9]);
    // One fifth of the mutations regenerate.
    assert!(far > 300 && far < 500);
}

#[test]
fn bounded_delta_walk_leaves_a_single_valued_range_alone() {
    let walk = IntWalk::BoundedDelta { delta: 100 };
    let mut rng = Pcg32::seed_from_u64(9);
    let mut signed: i64 = 5;
    let mut unsigned: u64 = 5;
    for _ in 0..200 {
        mutate_signed_int_with(&mut signed, 5, 5, walk, &mut rng);
        mutate_unsigned_int_with(&mut unsigned, 5, 5, walk, &mut rng);
        assert_eq!((signed, unsigned), (5, 5));
    }
}

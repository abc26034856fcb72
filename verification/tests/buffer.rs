use fuzzer::buffer::{
    add_delta, choose_buffer_edit, mutate_buf, mutate_bytes, remove_span, BufferEdit,
    BUF_FIRST_LIMIT, BUF_SECOND_LIMIT, BYTE_DELTA,
};
use fuzzer::Pcg32;
use rand::SeedableRng;

const LAST_DRAW: u64 = (1u64 << 53) - 1;

#[test]
fn buffer_weights_are_three_tenths_each() {
    assert_eq!(BUF_FIRST_LIMIT, 2_702_159_776_422_297);
    assert_eq!(BUF_SECOND_LIMIT, 5_404_319_552_844_595);
    assert_eq!(BYTE_DELTA, 10);
}

#[test]
fn edit_choice_with_room_on_both_sides() {
    assert_eq!(choose_buffer_edit(0, 2, 1, 4), BufferEdit::Extend);
    assert_eq!(choose_buffer_edit(BUF_FIRST_LIMIT, 2, 1, 4), BufferEdit::Extend);
    assert_eq!(choose_buffer_edit(BUF_FIRST_LIMIT + 1, 2, 1, 4), BufferEdit::Splice);
    assert_eq!(choose_buffer_edit(BUF_SECOND_LIMIT, 2, 1, 4), BufferEdit::Splice);
    assert_eq!(choose_buffer_edit(BUF_SECOND_LIMIT + 1, 2, 1, 4), BufferEdit::Nudge);
    assert_eq!(choose_buffer_edit(LAST_DRAW, 2, 1, 4), BufferEdit::Nudge);
}

#[test]
fn edit_choice_at_the_maximum_length_skips_extend() {
    assert_eq!(choose_buffer_edit(0, 4, 1, 4), BufferEdit::Splice);
    assert_eq!(choose_buffer_edit(BUF_FIRST_LIMIT, 4, 1, 4), BufferEdit::Splice);
    assert_eq!(choose_buffer_edit(BUF_FIRST_LIMIT + 1, 4, 1, 4), BufferEdit::Nudge);
    assert_eq!(choose_buffer_edit(BUF_SECOND_LIMIT, 4, 1, 4), BufferEdit::Nudge);
}

#[test]
fn edit_choice_at_the_minimum_length_skips_splice() {
    assert_eq!(choose_buffer_edit(0, 1, 1, 4), BufferEdit::Extend);
    assert_eq!(choose_buffer_edit(BUF_FIRST_LIMIT, 1, 1, 4), BufferEdit::Extend);
    assert_eq!(choose_buffer_edit(BUF_FIRST_LIMIT + 1, 1, 1, 4), BufferEdit::Nudge);
    assert_eq!(choose_buffer_edit(BUF_SECOND_LIMIT, 1, 1, 4), BufferEdit::Nudge);
}

#[test]
fn edit_choice_for_a_fixed_length_is_always_a_nudge() {
    assert_eq!(choose_buffer_edit(0, 3, 3, 3), BufferEdit::Nudge);
    assert_eq!(choose_buffer_edit(LAST_DRAW, 3, 3, 3), BufferEdit::Nudge);
}

#[test]
fn byte_delta_wraps_around() {
    assert_eq!(add_delta(100, 0), 100);
    assert_eq!(add_delta(100, 10), 110);
    assert_eq!(add_delta(100, -10), 90);
    assert_eq!(add_delta(250, 10), 4);
    assert_eq!(add_delta(255, 1), 0);
    assert_eq!(add_delta(3, -10), 249);
    assert_eq!(add_delta(0, -1), 255);
    assert_eq!(add_delta(0, i8::MIN), 128);
    assert_eq!(add_delta(255, i8::MAX), 126);
}

#[test]
fn remove_span_cuts_the_span_out() {
    let mut buf = vec![1u8, 2, 3, 4, 5];
    remove_span(&mut buf, 1, 3);
    assert_eq!(buf, vec![1, 4, 5]);

    let mut buf = vec![1u8, 2, 3, 4, 5];
    remove_span(&mut buf, 0, 5);
    assert_eq!(buf, Vec::<u8>::new());

    let mut buf = vec![1u8, 2, 3, 4, 5];
    remove_span(&mut buf, 4, 5);
    assert_eq!(buf, vec![1, 2, 3, 4]);

    let mut buf = vec![1u8, 2, 3, 4, 5];
    remove_span(&mut buf, 2, 2);
    assert_eq!(buf, vec![1, 2, 3, 4, 5]);
}

#[test]
fn byte_mutation_leaves_an_empty_slice_alone() {
    let mut rng = Pcg32::seed_from_u64(1);
    let mut twin = Pcg32::seed_from_u64(1);
    let mut bytes: [u8; 0] = [];
    mutate_bytes(&mut bytes, &mut rng);
    assert_eq!(bytes, []);
    let mut empty: Vec<u8> = Vec::new();
    mutate_bytes(&mut empty, &mut rng);
    assert!(empty.is_empty());
    // Nothing was drawn for either: the stream stands where its twin does.
    let mut a = vec![7u8; 8];
    let mut b = vec![7u8; 8];
    mutate_bytes(&mut a, &mut rng);
    mutate_bytes(&mut b, &mut twin);
    assert_eq!(a, b);
}

#[test]
fn byte_mutation_nudges_one_byte() {
    let mut positions = [false; 8];
    let mut deltas = [false; 21];
    for seed in 0..2000u64 {
        let mut rng = Pcg32::seed_from_u64(seed);
        let before = [100u8, 101, 102, 103, 104, 105, 106, 107];
        let mut after = before;
        mutate_bytes(&mut after, &mut rng);
        let changed: Vec<usize> = (0..8).filter(|&i| before[i] != after[i]).collect();
        assert!(changed.len() <= 1);
        for &i in &changed {
            let delta = after[i] as i32 - before[i] as i32;
            assert!((-10..=10).contains(&delta));
            positions[i] = true;
            deltas[(delta + 10) as usize] = true;
        }
    }
    assert_eq!(positions, [true; 8]);
    // Every non-zero amount from -10 to 10 was seen.
    for (i, seen) in deltas.iter().enumerate() {
        assert_eq!(*seen, i != 10);
    }
}

#[test]
fn byte_mutation_wraps_at_the_ends() {
    let mut low = false;
    let mut high = false;
    for seed in 0..500u64 {
        let mut rng = Pcg32::seed_from_u64(seed);
        let mut bottom = [0u8];
        mutate_bytes(&mut bottom, &mut rng);
        assert!(bottom[0] <= 10 || bottom[0] >= 246);
        low |= bottom[0] >= 246;
        let mut top = [255u8];
        mutate_bytes(&mut top, &mut rng);
        assert!(top[0] <= 9 || top[0] >= 245);
        high |= top[0] <= 9;
    }
    assert!(low && high);
}

#[test]
fn buffer_at_maximum_length_is_spliced_not_extended() {
    assert_eq!(choose_buffer_edit(0, 4, 1, 4), BufferEdit::Splice);
    let mut spliced = 0;
    for seed in 0..500u64 {
        let mut rng = Pcg32::seed_from_u64(seed);
        let mut buf = vec![0x01u8, 0x02, 0x03, 0x04];
        mutate_buf(&mut buf, 1, 4, &mut rng);
        assert!(!buf.is_empty() && buf.len() <= 4);
        if buf.len() < 4 {
            // What is left is the buffer as it was, with one span cut out.
            spliced += 1;
            let before = [0x01u8, 0x02, 0x03, 0x04];
            let cut = 4 - buf.len();
            assert!((0..=4 - cut).any(|begin| {
                let mut rest = before[..begin].to_vec();
                rest.extend_from_slice(&before[begin + cut..]);
                rest == buf
            }));
        }
    }
    assert!(spliced > 50);
}

#[test]
fn buffer_mutation_keeps_the_length_bounds() {
    for seed in 0..300u64 {
        let mut rng = Pcg32::seed_from_u64(seed);
        let mut buf = vec![9u8; 3];
        for _ in 0..40 {
            mutate_buf(&mut buf, 2, 6, &mut rng);
            assert!(buf.len() >= 2 && buf.len() <= 6);
        }
    }
}

#[test]
fn buffer_mutation_extends_with_random_bytes() {
    let mut grown = 0;
    let mut fresh = false;
    for seed in 0..500u64 {
        let mut rng = Pcg32::seed_from_u64(seed);
        let mut buf = vec![0u8; 2];
        mutate_buf(&mut buf, 2, 64, &mut rng);
        assert!(buf.len() >= 2 && buf.len() <= 64);
        if buf.len() > 2 {
            grown += 1;
            assert_eq!(&buf[..2], &[0, 0]);
            fresh |= buf[2..].iter().any(|&b| b != 0);
        }
    }
    assert!(grown > 50);
    assert!(fresh);
}

#[test]
fn buffer_mutation_leaves_an_empty_fixed_buffer_alone() {
    for seed in 0..50u64 {
        let mut rng = Pcg32::seed_from_u64(seed);
        let mut buf: Vec<u8> = Vec::new();
        mutate_buf(&mut buf, 0, 0, &mut rng);
        assert!(buf.is_empty());
    }
}

#[test]
fn buffer_mutation_of_a_fixed_length_nudges() {
    for seed in 0..200u64 {
        let mut rng = Pcg32::seed_from_u64(seed);
        let before = vec![50u8, 60, 70];
        let mut buf = before.clone();
        mutate_buf(&mut buf, 3, 3, &mut rng);
        assert_eq!(buf.len(), 3);
        let changed = (0..3).filter(|&i| before[i] != buf[i]).count();
        assert!(changed <= 1);
    }
}

#[test]
fn splice_never_goes_below_the_minimum_length() {
    for seed in 0..500u64 {
        let mut rng = Pcg32::seed_from_u64(seed);
        let mut buf: Vec<u8> = (0..10).collect();
        mutate_buf(&mut buf, 8, 10, &mut rng);
        assert!(buf.len() >= 8 && buf.len() <= 10);
    }
}

use fuzzer::stream::{draw_fraction, fraction_of, FRACTION_ONE};
use fuzzer::Pcg32;
use rand::SeedableRng;

#[test]
fn a_fraction_is_the_top_53_bits_of_a_word() {
    assert_eq!(FRACTION_ONE, 1u64 << 53);
    assert_eq!(fraction_of(0), 0);
    assert_eq!(fraction_of(0x7FF), 0);
    assert_eq!(fraction_of(0x800), 1);
    assert_eq!(fraction_of(0xFFF), 1);
    assert_eq!(fraction_of(1u64 << 63), 1u64 << 52);
    assert_eq!(fraction_of(u64::MAX), (1u64 << 53) - 1);
    assert_eq!(fraction_of(0x0123_4567_89AB_CDEF), 0x0123_4567_89AB_CDEF >> 11);
}

#[test]
fn draws_are_fractions_below_one() {
    let mut rng = Pcg32::seed_from_u64(1);
    let mut low = 0;
    let mut high = 0;
    let mut last = None;
    let mut repeats = 0;
    for _ in 0..2000 {
        let k = draw_fraction(&mut rng);
        assert!(k < FRACTION_ONE);
        if k < FRACTION_ONE / 2 {
            low += 1;
        } else {
            high += 1;
        }
        repeats += (last == Some(k)) as u32;
        last = Some(k);
    }
    assert!(low > 800 && high > 800);
    assert_eq!(repeats, 0);
}

#[test]
fn draws_follow_the_words_of_the_generator() {
    use_twin_generators(7);
    use_twin_generators(u64::MAX);
}

fn use_twin_generators(seed: u64) {
    let mut rng = Pcg32::seed_from_u64(seed);
    let mut twin = Pcg32::seed_from_u64(seed);
    for _ in 0..100 {
        let word = rand::RngCore::next_u64(&mut twin);
        assert_eq!(draw_fraction(&mut rng), word >> 11);
    }
}

/// The probability that a draw stands for.
fn probability(k: u64) -> f64 {
    k as f64 / FRACTION_ONE as f64
}

#[test]
fn draws_are_the_unit_interval_samples_of_the_generator() {
    let mut rng = Pcg32::seed_from_u64(21);
    let mut twin = Pcg32::seed_from_u64(21);
    for _ in 0..1000 {
        let sample: f64 = rand::Rng::gen(&mut twin);
        assert_eq!(probability(draw_fraction(&mut rng)), sample);
    }
}

#[test]
fn limits_are_the_largest_draws_within_their_probabilities() {
    let limits = [
        (fuzzer::structural::ADD_COMMAND_LIMIT, 0.3),
        (fuzzer::structural::REMOVE_COMMAND_LIMIT, 0.3 + 0.3),
        (fuzzer::scalar::INT_REGEN_LIMIT, 0.2),
        (fuzzer::scalar::INT_STEP_DOWN_LIMIT, 0.5),
        (fuzzer::buffer::BUF_FIRST_LIMIT, 0.3),
        (fuzzer::buffer::BUF_SECOND_LIMIT, 0.3 + 0.3),
        (fuzzer::profile::MUTATE_HEADER_LIMIT, 0.1),
    ];
    for (limit, p) in limits {
        assert!(probability(limit) <= p);
        assert!(probability(limit + 1) > p);
    }
}

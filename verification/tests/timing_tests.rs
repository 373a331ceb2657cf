//! The rational time model and the pitch map, on concrete values.

use songcraft::{beat_in_seconds, beat_to_sample_index, seconds_to_samples, Beat, NoteName, Rat64};

#[test]
fn one_beat_at_120_bpm_is_half_a_second() {
    let b = Beat::new(1, 1);
    let s = beat_in_seconds(&b, 120);
    // 60 / 120 of a second, exactly
    assert_eq!(s.num, 60);
    assert_eq!(s.den, 120);
}

#[test]
fn half_a_second_at_44100_is_22050_samples() {
    let s = Rat64::new(60, 120);
    assert_eq!(seconds_to_samples(&s, 44100), 22050);
}

#[test]
fn sample_index_composes_seconds_and_rate() {
    // 3/2 beats at 120 bpm: 0.75 s -> 33075 samples
    let b = Beat::new(3, 2);
    assert_eq!(beat_to_sample_index(&b, 120, 44100), 33075);
}

#[test]
fn doubling_the_tempo_halves_the_seconds() {
    let b = Beat::new(7, 3);
    let slow = beat_in_seconds(&b, 60);
    let fast = beat_in_seconds(&b, 120);
    // fast * 2 == slow as exact rationals: cross multiply
    assert_eq!(2 * fast.num as u128 * slow.den as u128, slow.num as u128 * fast.den as u128);
}

#[test]
fn sample_index_is_monotone_in_the_beat() {
    let mut last = 0;
    for n in 0..20u16 {
        let b = Beat::new(n, 4);
        let i = beat_to_sample_index(&b, 97, 44100);
        assert!(i >= last);
        last = i;
    }
}

#[test]
fn equal_beat_values_give_equal_indices() {
    let a = Beat::new(1, 2);
    let b = Beat::new(2, 4);
    assert_eq!(
        beat_to_sample_index(&a, 113, 44100),
        beat_to_sample_index(&b, 113, 44100)
    );
}

#[test]
fn beats_compare_by_value_not_representation() {
    assert!(Beat::new(1, 2) == Beat::new(2, 4));
    assert!(Beat::new(1, 2) != Beat::new(2, 3));
    assert!(Beat::new(1, 2).lt(&Beat::new(2, 3)));
    assert!(Beat::new(3, 4).le(&Beat::new(6, 8)));
}

#[test]
fn semitone_offsets_follow_the_fixed_table() {
    assert_eq!(NoteName::A(4).semitones_from_middle_a(), 0);
    assert_eq!(NoteName::C(4).semitones_from_middle_a(), -9);
    assert_eq!(NoteName::B(4).semitones_from_middle_a(), 2);
    assert_eq!(NoteName::BFlat(4).semitones_from_middle_a(), 1);
    assert_eq!(NoteName::GFlat(3).semitones_from_middle_a(), -15);
    assert_eq!(NoteName::A(5).semitones_from_middle_a(), 12);
}

#[test]
fn equal_tempered_frequencies_around_a4() {
    // millihertz, fixed point, floored
    assert_eq!(NoteName::A(4).freq(), 440_000);
    assert_eq!(NoteName::A(5).freq(), 880_000);
    assert_eq!(NoteName::A(3).freq(), 220_000);
    assert_eq!(NoteName::C(4).freq(), 261_625);
    assert_eq!(NoteName::G(4).freq(), 391_995);
}

#[test]
fn frequencies_stay_positive_at_extreme_low_octaves() {
    // pitches whose exact frequency floors below one millihertz clamp to one
    assert_eq!(NoteName::C(-16).freq(), 1);
    assert_eq!(NoteName::A(-16).freq(), 1);
    assert!(NoteName::C(-128).freq() >= 1);
    assert!(NoteName::B(127).freq() >= 1);
}

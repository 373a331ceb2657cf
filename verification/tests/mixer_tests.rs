//! The segmented mixer on its own: buffer sizing, window placement, levels.

use songcraft::{Beat, Mixer, Rat64, SamplingProperties};

fn props() -> SamplingProperties {
    // segment [4, 6) at 60 bpm, 100 samples per second: 200 samples
    SamplingProperties {
        start_beat: Beat::new(4, 1),
        cutoff_beat: Rat64::new(6, 1),
        sample_rate: 100,
        bpm: 60,
    }
}

#[test]
fn the_buffer_covers_the_segment_span() {
    let mixer = Mixer::new(props());
    assert_eq!(mixer.iter_samples().len(), 200);
    assert!(mixer.iter_samples().iter().all(|s| *s == 0));
}

#[test]
fn reusing_an_old_mixer_starts_silent_again() {
    let mut mixer = Mixer::new(props());
    let window = mixer.samples_for_beats(Beat::new(4, 1), Beat::new(1, 1), 32768);
    mixer.accumulate(window);
    let reused = Mixer::from_old_mixer(mixer, props());
    assert_eq!(reused.iter_samples().len(), 200);
    assert!(reused.iter_samples().iter().all(|s| *s == 0));
}

#[test]
fn a_note_window_is_placed_relative_to_the_segment_start() {
    let mixer = Mixer::new(props());
    // a note at beat 5, half a beat long: one beat into the segment
    let window = mixer.samples_for_beats(Beat::new(5, 1), Beat::new(1, 2), 32768);
    assert_eq!(window.start, 100);
    assert_eq!(window.total_samples(), 50);
}

#[test]
fn a_window_is_truncated_at_the_segment_end() {
    let mixer = Mixer::new(props());
    // a note at beat 5, two beats long, runs past the cutoff at beat 6
    let window = mixer.samples_for_beats(Beat::new(5, 1), Beat::new(2, 1), 32768);
    assert_eq!(window.start, 100);
    assert_eq!(window.total_samples(), 100);
}

#[test]
fn the_sound_level_scales_every_mixed_sample() {
    let mut mixer = Mixer::new(props());
    // half level: 16384 out of 32768
    let mut window = mixer.samples_for_beats(Beat::new(5, 1), Beat::new(1, 2), 16384);
    window.mix_sample(0, 32767);
    window.mix_sample(1, -32767);
    mixer.accumulate(window);
    let samples = mixer.iter_samples();
    assert_eq!(samples[100], 16383);
    assert_eq!(samples[101], -16383);
    assert_eq!(samples[99], 0);
    assert_eq!(samples[102], 0);
}

#[test]
fn accumulation_adds_into_existing_content() {
    let mut mixer = Mixer::new(props());
    let mut w1 = mixer.samples_for_beats(Beat::new(4, 1), Beat::new(1, 1), 32768);
    w1.mix_sample(0, 1000);
    mixer.accumulate(w1);
    let mut w2 = mixer.samples_for_beats(Beat::new(4, 1), Beat::new(1, 1), 32768);
    w2.mix_sample(0, 234);
    mixer.accumulate(w2);
    assert_eq!(mixer.iter_samples()[0], 1234);
}

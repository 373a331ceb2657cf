//! End-to-end rendering: segment sizing, mixing, envelopes, tempo changes.

use songcraft::{
    phase_increment, Beat, Musician, Note, NoteName, NoteType, RenderError, Song, SquareWave,
    Timing, TriangleWave, WaveFunction,
};

fn single(name: NoteName, sn: u16, sd: u16, ln: u16, ld: u16) -> Note {
    Note::new(NoteType::Single(name), Beat::new(sn, sd), Beat::new(ln, ld))
}

#[test]
fn a_score_with_no_notes_renders_to_an_empty_stream() {
    let mut song: Song<SquareWave> = Song::new(Timing::new(120, Timing::four_four()));
    song.add_musician(Musician::new(SquareWave::new()));
    song.add_musician(Musician::new(SquareWave::new()));
    let out = song.render_samples(44100).unwrap();
    assert_eq!(out.len(), 0);
}

#[test]
fn a_score_with_no_notes_but_many_tempos_still_renders_nothing() {
    let mut song: Song<SquareWave> = Song::new(Timing::new(120, Timing::four_four()));
    assert!(song.can_add_timing(&Beat::new(4, 1)));
    song.add_timing(Beat::new(4, 1), Timing::new(60, Timing::four_four()));
    song.add_musician(Musician::new(SquareWave::new()));
    let out = song.render_samples(44100).unwrap();
    assert_eq!(out.len(), 0);
}

#[test]
fn one_beat_note_at_120_bpm_renders_22050_samples() {
    let mut song: Song<SquareWave> = Song::new(Timing::new(120, Timing::four_four()));
    let mut m = Musician::new(SquareWave::new());
    m.add_note(single(NoteName::A(4), 0, 1, 1, 1)).unwrap();
    song.add_musician(m);
    assert!(song.segments_fit(44100));
    let out = song.render_samples(44100).unwrap();
    assert_eq!(out.len(), 22050);
    // a lone square voice at full level peaks at full scale on its first
    // sample, and the decay floor keeps the last half at half scale
    assert_eq!(out[0], 32767);
    let total = out.len();
    for (i, s) in out.iter().enumerate() {
        assert!(*s >= -32767 && *s <= 32767);
        if 2 * (total - i) < total {
            assert!(s.unsigned_abs() <= 16383);
        }
    }
}

#[test]
fn two_tracks_accumulate_with_sixteen_bit_wraparound() {
    let mut song: Song<SquareWave> = Song::new(Timing::new(120, Timing::four_four()));
    for _ in 0..2 {
        let mut m = Musician::new(SquareWave::new());
        m.add_note(single(NoteName::A(4), 0, 1, 1, 1)).unwrap();
        song.add_musician(m);
    }
    let out = song.render_samples(44100).unwrap();
    // 32767 + 32767 wraps to -2: mixing adds, never overwrites, and wraps
    assert_eq!(out[0], -2);
}

#[test]
fn a_chord_of_three_sums_three_thirds_before_the_decay() {
    let mut song: Song<SquareWave> = Song::new(Timing::new(120, Timing::four_four()));
    let mut m = Musician::new(SquareWave::new());
    let chord = Note::new(
        NoteType::Chord(vec![NoteName::F(3), NoteName::A(3), NoteName::C(4)]),
        Beat::new(0, 1),
        Beat::new(1, 1),
    );
    m.add_note(chord).unwrap();
    song.add_musician(m);
    let out = song.render_samples(44100).unwrap();
    assert_eq!(out.len(), 22050);
    // all three square voices start positive: 32767/3 = 10922 per voice,
    // summed before the shared decay factor (one, at the first sample)
    assert_eq!(out[0], 3 * 10922);
}

#[test]
fn a_chord_of_two_fails_fast_with_its_arity() {
    let mut song: Song<SquareWave> = Song::new(Timing::new(120, Timing::four_four()));
    let mut m = Musician::new(SquareWave::new());
    let chord = Note::new(
        NoteType::Chord(vec![NoteName::F(3), NoteName::A(3)]),
        Beat::new(0, 1),
        Beat::new(1, 1),
    );
    m.add_note(chord).unwrap();
    song.add_musician(m);
    let r = song.render_samples(44100);
    assert!(matches!(r, Err(RenderError::UnsupportedChordArity(2))));
}

#[test]
fn a_tempo_change_splits_the_stream_into_segments() {
    // 120 bpm for beats [0, 4), then 60 bpm: the first segment spends half
    // as many samples per beat as the second
    let mut song: Song<SquareWave> = Song::new(Timing::new(120, Timing::four_four()));
    song.add_timing(Beat::new(4, 1), Timing::new(60, Timing::four_four()));
    let mut m = Musician::new(SquareWave::new());
    m.add_note(single(NoteName::A(4), 0, 1, 1, 1)).unwrap();
    m.add_note(single(NoteName::A(4), 4, 1, 1, 1)).unwrap();
    song.add_musician(m);
    let out = song.render_samples(44100).unwrap();
    // segment one: 4 beats * 22050; segment two: 1 beat * 44100
    assert_eq!(out.len(), 4 * 22050 + 44100);
}

#[test]
fn reset_provably_forgets_all_phase_state() {
    let inc = phase_increment(NoteName::A(4).freq(), 44100);
    let mut w = SquareWave::new();
    let first = w.sample_at(0, inc);
    for _ in 0..1000 {
        w.sample_at(0, inc);
        w.sample_at(1, inc);
    }
    w.reset();
    // a note starting right after a reset hears exactly what a fresh
    // oscillator would play
    assert_eq!(w.sample_at(0, inc), first);

    let mut t = TriangleWave::new();
    let t_first = t.sample_at(2, inc);
    for _ in 0..777 {
        t.sample_at(2, inc);
    }
    t.reset();
    assert_eq!(t.sample_at(2, inc), t_first);
}

#[test]
fn triangle_wave_descends_linearly_from_full_scale() {
    let mut t = TriangleWave::new();
    // a quarter-cycle step lands exactly at the zero crossing
    let quarter: u64 = 1 << 30;
    let s1 = t.sample_at(0, quarter);
    assert_eq!(s1, 0);
    let s2 = t.sample_at(0, quarter);
    assert_eq!(s2, -32767);
    let s3 = t.sample_at(0, quarter);
    assert_eq!(s3, 0);
}

#[test]
fn notes_outside_every_tempo_window_produce_only_silence_padding() {
    // the last note ends at beat 2 but a tempo change sits at beat 4: the
    // first segment still covers [0, 4), the final segment [4, 2) is empty
    let mut song: Song<SquareWave> = Song::new(Timing::new(120, Timing::four_four()));
    song.add_timing(Beat::new(4, 1), Timing::new(60, Timing::four_four()));
    let mut m = Musician::new(SquareWave::new());
    m.add_note(single(NoteName::A(4), 0, 1, 2, 1)).unwrap();
    song.add_musician(m);
    let out = song.render_samples(44100).unwrap();
    assert_eq!(out.len(), 4 * 22050);
    // everything after the note's end is silence
    for s in &out[2 * 22050..] {
        assert_eq!(*s, 0);
    }
}

//! The oscillator layer: voices, phase tracking, envelopes and note
//! rendering.
//!
//! A `WaveFunction` keeps one phase accumulator per voice, stored as a cycle
//! fraction at a fixed-point scale of 2^32, and turns a phase into an
//! amplitude at a full scale of 32767.  Rendering a note walks its sample
//! window once: each sample advances the phase by `frequency / sample_rate`
//! cycles, applies the linear decay envelope (floored at one half), and
//! accumulates into the window.  A three-pitch chord samples three voices
//! independently, scales each by a third, and sums before the shared decay.

use vstd::prelude::*;
use crate::notes::{Note, NoteType, NoteName, RenderError, spec_semitones, spec_freq_millihertz};
use crate::sampling::{MixerSamples, spec_scale, scale_amp, lemma_mixed_in_range};

verus! {

/// One phase step: advance by the increment, wrapping once past a full
/// cycle (the scale is 2^32 for one cycle).
pub open spec fn spec_phase_step(p: int, inc: int) -> int {
    if p + inc > 0x1_0000_0000 {
        p + inc - 0x1_0000_0000
    } else {
        p + inc
    }
}

/// The phase of a voice after `k` steps of the same increment.
pub open spec fn spec_phase_iter(p0: int, inc: int, k: nat) -> int
    decreases k,
{
    if k == 0 {
        p0
    } else {
        spec_phase_step(spec_phase_iter(p0, inc, (k - 1) as nat), inc)
    }
}

/// A waveform generator with five independent phase-tracking voices: enough
/// for a three-pitch chord, with voice zero doubling for single notes.
pub trait WaveFunction: Sized {
    /// Model of the per-voice phase accumulators, as cycle fractions at a
    /// scale of 2^32.  (The defaults here let unverified implementations
    /// outside this crate leave the model out; nothing is proved about such
    /// implementations.)
    open spec fn phases(&self) -> Seq<int> {
        Seq::empty()
    }

    /// Internal well-formedness: five voices, each at most one full cycle.
    open spec fn inv(&self) -> bool {
        true
    }

    /// The amplitude this waveform produces at a given phase, at a full
    /// scale of 32767.
    open spec fn wave_at(phase: int) -> int {
        0
    }

    /// Zero the phase of every voice.
    fn reset(&mut self)
        ensures
            final(self).inv(),
            final(self).phases() =~= Seq::new(5, |i: int| 0int),
    ;

    /// Advance one voice by one sample period and produce its amplitude.
    fn sample_at(&mut self, note_channel: usize, phase_increment: u64) -> (r: i32)
        requires
            old(self).inv(),
            note_channel < 5,
            phase_increment < 0x1_0000_0000u64,
        ensures
            final(self).inv(),
            -32767 <= r <= 32767,
            final(self).phases() =~= old(self).phases().update(
                note_channel as int,
                spec_phase_step(
                    old(self).phases()[note_channel as int],
                    phase_increment as int,
                ),
            ),
            r == Self::wave_at(final(self).phases()[note_channel as int]),
    ;
}

/// What a track needs from its instrument: resettable voice state and the
/// ability to render one note into a sample window.
pub trait Instrument: Sized {
    /// Internal well-formedness of the oscillator state.
    open spec fn inst_inv(&self) -> bool {
        true
    }

    /// Whether the state equals the freshly reset state: no phase carries
    /// over from anything played before.
    open spec fn inst_is_reset(&self) -> bool {
        true
    }

    /// Model of the per-voice phases, mirrored from the waveform layer.
    /// (The default lets unverified implementations outside this crate
    /// leave the model out; the rendering clauses below then say nothing.)
    open spec fn inst_phases(&self) -> Seq<int> {
        Seq::empty()
    }

    /// The waveform this instrument evaluates at a phase.
    open spec fn inst_wave_at(phase: int) -> int {
        0
    }

    fn reset(&mut self)
        ensures
            final(self).inst_inv(),
            final(self).inst_is_reset(),
            final(self).inst_phases() =~= Seq::new(5, |i: int| 0int),
    ;

    fn sample_note(&mut self, note: &Note, samples: &mut MixerSamples) -> (r: Result<
        (),
        RenderError,
    >)
        requires
            old(self).inst_inv(),
            note.wf(),
            old(samples).wf(),
        ensures
            final(self).inst_inv(),
            final(samples).wf(),
            final(samples).start == old(samples).start,
            final(samples).sound_level == old(samples).sound_level,
            final(samples).sample_rate == old(samples).sample_rate,
            final(samples).samples@.len() == old(samples).samples@.len(),
            r is Ok <==> note.note_type.spec_supported(),
            !note.note_type.spec_supported() ==> {
                &&& final(samples).samples@ == old(samples).samples@
                &&& r matches Err(RenderError::UnsupportedChordArity(n)) && n
                    == (note.note_type->Chord_0)@.len()
            },
            note.note_type matches NoteType::Single(name) ==> (old(self).inst_phases().len() == 5
                ==> ({
                let inc = spec_pitch_increment(name, old(samples).sample_rate as int);
                &&& spec_single_rendered(
                    old(samples).samples@,
                    final(samples).samples@,
                    old(self).inst_phases()[0],
                    inc,
                    (|ph: int| Self::inst_wave_at(ph)),
                    old(samples).sound_level as int,
                )
                &&& final(self).inst_phases() =~= old(self).inst_phases().update(
                    0,
                    spec_phase_iter(
                        old(self).inst_phases()[0],
                        inc,
                        old(samples).samples@.len() as nat,
                    ),
                )
            })),
            note.note_type matches NoteType::Chord(p) ==> (p@.len() == 3 && old(
                self,
            ).inst_phases().len() == 5 ==> ({
                let rate = old(samples).sample_rate as int;
                let inc0 = spec_pitch_increment(p@[0], rate);
                let inc1 = spec_pitch_increment(p@[1], rate);
                let inc2 = spec_pitch_increment(p@[2], rate);
                let total = old(samples).samples@.len() as nat;
                &&& spec_chord_rendered(
                    old(samples).samples@,
                    final(samples).samples@,
                    old(self).inst_phases()[0],
                    inc0,
                    old(self).inst_phases()[1],
                    inc1,
                    old(self).inst_phases()[2],
                    inc2,
                    (|ph: int| Self::inst_wave_at(ph)),
                    old(samples).sound_level as int,
                )
                &&& final(self).inst_phases() =~= old(self).inst_phases().update(
                    0,
                    spec_phase_iter(old(self).inst_phases()[0], inc0, total),
                ).update(
                    1,
                    spec_phase_iter(old(self).inst_phases()[1], inc1, total),
                ).update(
                    2,
                    spec_phase_iter(old(self).inst_phases()[2], inc2, total),
                )
            })),
    ;

    /// False for an instrument that cannot pitch by note name (a
    /// percussion, say).
    fn can_use_note_names(&self) -> bool;
}

/// The per-sample phase step for a frequency in millihertz at a sample rate:
/// `freq / rate` cycles at the fixed-point scale, capped just under one full
/// cycle (a step of a cycle or more per sample cannot be tracked).
pub open spec fn spec_phase_increment(freq_mhz: int, rate: int) -> int {
    let raw = (freq_mhz * 0x1_0000_0000) / (1000 * rate);
    if raw >= 0x1_0000_0000 {
        0xFFFF_FFFF
    } else {
        raw
    }
}

pub fn phase_increment(freq_mhz: u64, rate: u32) -> (r: u64)
    requires
        rate >= 1,
    ensures
        r == spec_phase_increment(freq_mhz as int, rate as int),
        r < 0x1_0000_0000u64,
{
    let p: u128 = (freq_mhz as u128) * 0x1_0000_0000u128;
    let q: u128 = p / (1000u128 * (rate as u128));
    if q >= 0x1_0000_0000u128 {
        0xFFFF_FFFFu64
    } else {
        q as u64
    }
}

/// The fixed-point phase step one pitch takes per sample at a sample rate.
pub open spec fn spec_pitch_increment(name: NoteName, rate: int) -> int {
    spec_phase_increment(spec_freq_millihertz(spec_semitones(name)), rate)
}

/// The decay envelope at sample `i` of a window of `total` samples:
/// `1 - i/total`, floored at one half.  Numerator of the factor.
pub open spec fn spec_decay_num(i: int, total: int) -> int {
    if 2 * (total - i) < total {
        1
    } else {
        total - i
    }
}

/// Denominator of the decay factor.
pub open spec fn spec_decay_den(i: int, total: int) -> int {
    if 2 * (total - i) < total {
        2
    } else {
        total
    }
}

/// Amplitude of sample `i` of a single-pitch note: the raw oscillator
/// sample, scaled by the decay envelope.
pub open spec fn spec_single_amp(raw: int, i: int, total: int) -> int {
    spec_scale(raw, spec_decay_num(i, total), spec_decay_den(i, total))
}

/// Amplitude of sample `i` of a three-pitch chord: each voice divided by
/// three, summed, then the shared decay factor.
pub open spec fn spec_chord_amp(r0: int, r1: int, r2: int, i: int, total: int) -> int {
    spec_scale(
        spec_scale(r0, 1, 3) + spec_scale(r1, 1, 3) + spec_scale(r2, 1, 3),
        spec_decay_num(i, total),
        spec_decay_den(i, total),
    )
}

/// What rendering a single-pitch note does to a window, exactly: sample `i`
/// is the old sample mixed with the instrument's own waveform, evaluated at
/// voice zero's phase after `i + 1` steps of the pitch's increment from the
/// entry phase `p0`, under the decay envelope and the window's sound level.
pub open spec fn spec_single_rendered(
    before: Seq<i16>,
    after: Seq<i16>,
    p0: int,
    inc: int,
    wave: spec_fn(int) -> int,
    level: int,
) -> bool {
    &&& after.len() == before.len()
    &&& forall|i: int|
        0 <= i < before.len() ==> #[trigger] after[i] == MixerSamples::spec_mixed(
            before[i] as int,
            spec_single_amp(
                wave(spec_phase_iter(p0, inc, (i + 1) as nat)),
                i,
                before.len() as int,
            ),
            level,
        )
}

/// What rendering a chord does to a window, exactly: sample `i` is the old
/// sample mixed with the sum of the three voices' waveforms — each evaluated
/// at its own phase after `i + 1` steps of its own pitch's increment, each
/// divided by three before summation — under the shared decay and the
/// window's sound level.
pub open spec fn spec_chord_rendered(
    before: Seq<i16>,
    after: Seq<i16>,
    p0: int,
    inc0: int,
    p1: int,
    inc1: int,
    p2: int,
    inc2: int,
    wave: spec_fn(int) -> int,
    level: int,
) -> bool {
    &&& after.len() == before.len()
    &&& forall|i: int|
        0 <= i < before.len() ==> #[trigger] after[i] == MixerSamples::spec_mixed(
            before[i] as int,
            spec_chord_amp(
                wave(spec_phase_iter(p0, inc0, (i + 1) as nat)),
                wave(spec_phase_iter(p1, inc1, (i + 1) as nat)),
                wave(spec_phase_iter(p2, inc2, (i + 1) as nat)),
                i,
                before.len() as int,
            ),
            level,
        )
}

/// Scale a raw sample by the decay envelope at position `i` of `total`.
fn apply_decay(raw: i32, i: usize, total: usize) -> (r: i32)
    requires
        i < total,
        -32767 <= raw <= 32767,
    ensures
        r == spec_single_amp(raw as int, i as int, total as int),
        -32767 <= r <= 32767,
{
    let rem: u64 = (total - i) as u64;
    let tot: u64 = total as u64;
    if 2 * (rem as u128) < (tot as u128) {
        scale_amp(raw, 1, 2)
    } else {
        scale_amp(raw, rem, tot)
    }
}

/// Render one note into its sample window through a waveform generator.
/// This is the whole envelope and mixing policy of the library: a single
/// pitch is voice zero under the decay envelope; a chord of exactly three
/// pitches is voices zero through two, each scaled by a third, summed, then
/// decayed; any other chord arity fails fast with its arity, touching
/// nothing.  For every generator whose model carries the five voices, the
/// window contents and the voice phases after the call are pinned exactly.
pub fn render_note<T: WaveFunction>(
    wave: &mut T,
    note: &Note,
    samples: &mut MixerSamples,
) -> (r: Result<(), RenderError>)
    requires
        old(wave).inv(),
        note.wf(),
        old(samples).wf(),
    ensures
        final(wave).inv(),
        final(samples).wf(),
        final(samples).start == old(samples).start,
        final(samples).sound_level == old(samples).sound_level,
        final(samples).sample_rate == old(samples).sample_rate,
        final(samples).samples@.len() == old(samples).samples@.len(),
        r is Ok <==> note.note_type.spec_supported(),
        !note.note_type.spec_supported() ==> {
            &&& final(samples).samples@ == old(samples).samples@
            &&& *final(wave) == *old(wave)
            &&& r matches Err(RenderError::UnsupportedChordArity(n)) && n
                == (note.note_type->Chord_0)@.len()
        },
        note.note_type matches NoteType::Single(name) ==> (old(wave).inst_phases().len() == 5
            ==> ({
            let inc = spec_pitch_increment(name, old(samples).sample_rate as int);
            &&& spec_single_rendered(
                old(samples).samples@,
                final(samples).samples@,
                old(wave).inst_phases()[0],
                inc,
                (|ph: int| T::inst_wave_at(ph)),
                old(samples).sound_level as int,
            )
            &&& final(wave).inst_phases() =~= old(wave).inst_phases().update(
                0,
                spec_phase_iter(
                    old(wave).inst_phases()[0],
                    inc,
                    old(samples).samples@.len() as nat,
                ),
            )
        })),
        note.note_type matches NoteType::Chord(p) ==> (p@.len() == 3 && old(
            wave,
        ).inst_phases().len() == 5 ==> ({
            let rate = old(samples).sample_rate as int;
            let inc0 = spec_pitch_increment(p@[0], rate);
            let inc1 = spec_pitch_increment(p@[1], rate);
            let inc2 = spec_pitch_increment(p@[2], rate);
            let total = old(samples).samples@.len() as nat;
            &&& spec_chord_rendered(
                old(samples).samples@,
                final(samples).samples@,
                old(wave).inst_phases()[0],
                inc0,
                old(wave).inst_phases()[1],
                inc1,
                old(wave).inst_phases()[2],
                inc2,
                (|ph: int| T::inst_wave_at(ph)),
                old(samples).sound_level as int,
            )
            &&& final(wave).inst_phases() =~= old(wave).inst_phases().update(
                0,
                spec_phase_iter(old(wave).inst_phases()[0], inc0, total),
            ).update(
                1,
                spec_phase_iter(old(wave).inst_phases()[1], inc1, total),
            ).update(
                2,
                spec_phase_iter(old(wave).inst_phases()[2], inc2, total),
            )
        })),
{
    let rate = samples.sample_rate;
    match &note.note_type {
        NoteType::Single(note_name) => {
            let freq = note_name.freq();
            let inc = phase_increment(freq, rate);
            let total = samples.total_samples();
            let ghost base = old(wave).phases();
            let ghost ginc = inc as int;
            proof {
                assert(ginc == spec_pitch_increment(*note_name, rate as int));
            }
            let mut i: usize = 0;
            while i < total
                invariant
                    i <= total,
                    total == samples.samples@.len(),
                    total == old(samples).samples@.len(),
                    samples.wf(),
                    samples.start == old(samples).start,
                    samples.sound_level == old(samples).sound_level,
                    samples.sample_rate == old(samples).sample_rate,
                    wave.inv(),
                    inc < 0x1_0000_0000u64,
                    ginc == inc as int,
                    base == old(wave).phases(),
                    base.len() == 5 ==> wave.phases() =~= base.update(
                        0,
                        spec_phase_iter(base[0], ginc, i as nat),
                    ),
                    base.len() == 5 ==> forall|j: int|
                        0 <= j < i ==> #[trigger] samples.samples@[j]
                            == MixerSamples::spec_mixed(
                            old(samples).samples@[j] as int,
                            spec_single_amp(
                                T::inst_wave_at(spec_phase_iter(base[0], ginc, (j + 1) as nat)),
                                j,
                                total as int,
                            ),
                            old(samples).sound_level as int,
                        ),
                    forall|j: int|
                        i <= j < total ==> #[trigger] samples.samples@[j] == old(
                            samples,
                        ).samples@[j],
                decreases total - i,
            {
                let ghost cur = wave.phases();
                let raw = wave.sample_at(0, inc);
                proof {
                    if base.len() == 5 {
                        let stepped = spec_phase_iter(base[0], ginc, (i + 1) as nat);
                        assert(cur[0] == spec_phase_iter(base[0], ginc, i as nat));
                        assert(spec_phase_step(cur[0], ginc) == stepped);
                        assert(wave.phases() =~= base.update(0, stepped));
                        assert(raw == T::wave_at(stepped));
                        assert(T::inst_wave_at(stepped) == T::wave_at(stepped));
                    }
                }
                let amp = apply_decay(raw, i, total);
                proof {
                    lemma_mixed_in_range(
                        samples.samples@[i as int] as int,
                        amp as int,
                        samples.sound_level as int,
                    );
                }
                samples.mix_sample(i, amp);
                i = i + 1;
            }
            proof {
                if base.len() == 5 {
                    assert(spec_single_rendered(
                        old(samples).samples@,
                        samples.samples@,
                        base[0],
                        ginc,
                        (|ph: int| T::inst_wave_at(ph)),
                        old(samples).sound_level as int,
                    ));
                }
            }
            Ok(())
        },
        NoteType::Chord(pitches) => {
            if pitches.len() != 3 {
                return Err(RenderError::UnsupportedChordArity(pitches.len()));
            }
            let inc0 = phase_increment(pitches[0].freq(), rate);
            let inc1 = phase_increment(pitches[1].freq(), rate);
            let inc2 = phase_increment(pitches[2].freq(), rate);
            let total = samples.total_samples();
            let ghost base = old(wave).phases();
            let ghost g0 = inc0 as int;
            let ghost g1 = inc1 as int;
            let ghost g2 = inc2 as int;
            proof {
                assert(g0 == spec_pitch_increment(pitches@[0], rate as int));
                assert(g1 == spec_pitch_increment(pitches@[1], rate as int));
                assert(g2 == spec_pitch_increment(pitches@[2], rate as int));
            }
            let mut i: usize = 0;
            while i < total
                invariant
                    i <= total,
                    total == samples.samples@.len(),
                    total == old(samples).samples@.len(),
                    samples.wf(),
                    samples.start == old(samples).start,
                    samples.sound_level == old(samples).sound_level,
                    samples.sample_rate == old(samples).sample_rate,
                    wave.inv(),
                    inc0 < 0x1_0000_0000u64,
                    inc1 < 0x1_0000_0000u64,
                    inc2 < 0x1_0000_0000u64,
                    g0 == inc0 as int,
                    g1 == inc1 as int,
                    g2 == inc2 as int,
                    base == old(wave).phases(),
                    base.len() == 5 ==> wave.phases() =~= base.update(
                        0,
                        spec_phase_iter(base[0], g0, i as nat),
                    ).update(
                        1,
                        spec_phase_iter(base[1], g1, i as nat),
                    ).update(
                        2,
                        spec_phase_iter(base[2], g2, i as nat),
                    ),
                    base.len() == 5 ==> forall|j: int|
                        0 <= j < i ==> #[trigger] samples.samples@[j]
                            == MixerSamples::spec_mixed(
                            old(samples).samples@[j] as int,
                            spec_chord_amp(
                                T::inst_wave_at(spec_phase_iter(base[0], g0, (j + 1) as nat)),
                                T::inst_wave_at(spec_phase_iter(base[1], g1, (j + 1) as nat)),
                                T::inst_wave_at(spec_phase_iter(base[2], g2, (j + 1) as nat)),
                                j,
                                total as int,
                            ),
                            old(samples).sound_level as int,
                        ),
                    forall|j: int|
                        i <= j < total ==> #[trigger] samples.samples@[j] == old(
                            samples,
                        ).samples@[j],
                decreases total - i,
            {
                let ghost cur0 = wave.phases();
                let raw0 = wave.sample_at(0, inc0);
                let ghost cur1 = wave.phases();
                let raw1 = wave.sample_at(1, inc1);
                let ghost cur2 = wave.phases();
                let raw2 = wave.sample_at(2, inc2);
                proof {
                    if base.len() == 5 {
                        let s0 = spec_phase_iter(base[0], g0, (i + 1) as nat);
                        let s1 = spec_phase_iter(base[1], g1, (i + 1) as nat);
                        let s2 = spec_phase_iter(base[2], g2, (i + 1) as nat);
                        assert(cur0[0] == spec_phase_iter(base[0], g0, i as nat));
                        assert(spec_phase_step(cur0[0], g0) == s0);
                        assert(cur1 =~= cur0.update(0, s0));
                        assert(raw0 == T::wave_at(s0));
                        assert(cur1[1] == spec_phase_iter(base[1], g1, i as nat));
                        assert(spec_phase_step(cur1[1], g1) == s1);
                        assert(cur2 =~= cur1.update(1, s1));
                        assert(raw1 == T::wave_at(s1));
                        assert(cur2[2] == spec_phase_iter(base[2], g2, i as nat));
                        assert(spec_phase_step(cur2[2], g2) == s2);
                        assert(raw2 == T::wave_at(s2));
                        assert(wave.phases() =~= base.update(0, s0).update(1, s1).update(2, s2));
                        assert(T::inst_wave_at(s0) == T::wave_at(s0));
                        assert(T::inst_wave_at(s1) == T::wave_at(s1));
                        assert(T::inst_wave_at(s2) == T::wave_at(s2));
                    }
                }
                let third0 = scale_amp(raw0, 1, 3);
                let third1 = scale_amp(raw1, 1, 3);
                let third2 = scale_amp(raw2, 1, 3);
                proof {
                    lemma_third_bound(raw0 as int);
                    lemma_third_bound(raw1 as int);
                    lemma_third_bound(raw2 as int);
                }
                let voice_sum: i32 = third0 + third1 + third2;
                let amp = apply_decay(voice_sum, i, total);
                proof {
                    lemma_mixed_in_range(
                        samples.samples@[i as int] as int,
                        amp as int,
                        samples.sound_level as int,
                    );
                }
                samples.mix_sample(i, amp);
                i = i + 1;
            }
            proof {
                if base.len() == 5 {
                    assert(spec_chord_rendered(
                        old(samples).samples@,
                        samples.samples@,
                        base[0],
                        g0,
                        base[1],
                        g1,
                        base[2],
                        g2,
                        (|ph: int| T::inst_wave_at(ph)),
                        old(samples).sound_level as int,
                    ));
                }
            }
            Ok(())
        },
    }
}

/// A third of a full-scale sample fits in a third of full scale.
proof fn lemma_third_bound(r: int)
    requires
        -32767 <= r <= 32767,
    ensures
        -10922 <= spec_scale(r, 1, 3) <= 10922,
{
    if r >= 0 {
        assert(r * 1 == r);
        vstd::arithmetic::div_mod::lemma_div_is_ordered(r, 32767, 3);
        vstd::arithmetic::div_mod::lemma_div_pos_is_pos(r, 3);
    } else {
        assert((-r) * 1 == -r);
        vstd::arithmetic::div_mod::lemma_div_is_ordered(-r, 32767, 3);
        vstd::arithmetic::div_mod::lemma_div_pos_is_pos(-r, 3);
    }
}

/// Every waveform generator is an instrument: single notes play on voice
/// zero, chords on voices zero through two.
impl<T: WaveFunction> Instrument for T {
    open spec fn inst_inv(&self) -> bool {
        self.inv()
    }

    open spec fn inst_is_reset(&self) -> bool {
        self.phases() =~= Seq::new(5, |i: int| 0int)
    }

    open spec fn inst_phases(&self) -> Seq<int> {
        self.phases()
    }

    open spec fn inst_wave_at(phase: int) -> int {
        T::wave_at(phase)
    }

    fn reset(&mut self) {
        WaveFunction::reset(self)
    }

    fn sample_note(&mut self, note: &Note, samples: &mut MixerSamples) -> (r: Result<
        (),
        RenderError,
    >) {
        render_note(self, note, samples)
    }

    fn can_use_note_names(&self) -> bool {
        true
    }
}

} // verus!

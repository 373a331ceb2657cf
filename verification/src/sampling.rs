//! The segmented mixer: one integer sample buffer per tempo segment.
//!
//! A `Mixer` owns the output buffer for one segment, sized exactly from the
//! segment's beat span.  A note renders into a small `MixerSamples` window (an
//! isolated accumulation target) which the mixer then adds back into its
//! buffer.  Mixing is accumulate-only — contributions add, never overwrite —
//! and the accumulation wraps around in sixteen bits; that wraparound is the
//! accepted simplification of this mixer, not saturation.
//!
//! Amplitudes are fixed-point integers: 32767 stands for full scale (1.0),
//! matching the largest magnitude an output sample can carry.

use vstd::prelude::*;
use vstd::arithmetic::div_mod::{lemma_div_is_ordered, lemma_div_multiples_vanish};
use crate::rational::{Beat, Rat64, rat_lt, spec_beat_derived, spec_sum_num, spec_sum_den, beat_sum, lemma_beat_sum_gt, lemma_mul_le};
use crate::timing::{spec_span_samples, span_samples, lemma_span_samples_mono, lemma_span_samples_nonneg};

verus! {

/// One output sample: signed sixteen-bit linear PCM.
pub type Sample = i16;

/// Wrap an integer into the sixteen-bit two's-complement range, for sums of
/// two in-range values.
pub open spec fn spec_wrap16(s: int) -> int {
    if s > 32767 {
        s - 65536
    } else if s < -32768 {
        s + 65536
    } else {
        s
    }
}

/// Add two samples with sixteen-bit wraparound.
pub fn wrap_add_i16(a: i16, b: i16) -> (r: i16)
    ensures
        r == spec_wrap16(a + b),
{
    let s: i32 = (a as i32) + (b as i32);
    if s > 32767 {
        (s - 65536) as i16
    } else if s < -32768 {
        (s + 65536) as i16
    } else {
        s as i16
    }
}

/// Scale `amp` by the factor `num / den <= 1`, truncating the magnitude
/// toward zero.
pub open spec fn spec_scale(amp: int, num: int, den: int) -> int {
    if amp >= 0 {
        (amp * num) / den
    } else {
        -(((-amp) * num) / den)
    }
}

/// Fixed-point multiply by a factor of at most one: the magnitude never
/// grows.
pub fn scale_amp(amp: i32, num: u64, den: u64) -> (r: i32)
    requires
        den >= 1,
        num <= den,
        -32767 <= amp <= 32767,
    ensures
        r == spec_scale(amp as int, num as int, den as int),
        if amp >= 0 {
            0 <= r <= amp
        } else {
            amp <= r <= 0
        },
{
    if amp >= 0 {
        proof {
            lemma_mul_le(amp as int, num as int, 32767, u64::MAX as int);
        }
        let p: u128 = (amp as u128) * (num as u128);
        let q: u128 = p / (den as u128);
        proof {
            lemma_scale_le(amp as int, num as int, den as int);
            lemma_span_nonneg_trivial(amp as int, num as int, den as int);
        }
        q as i32
    } else {
        let mag: u32 = (-amp) as u32;
        proof {
            lemma_mul_le(mag as int, num as int, 32767, u64::MAX as int);
        }
        let p: u128 = (mag as u128) * (num as u128);
        let q: u128 = p / (den as u128);
        proof {
            lemma_scale_le(mag as int, num as int, den as int);
            lemma_span_nonneg_trivial(mag as int, num as int, den as int);
        }
        -(q as i32)
    }
}

/// `(a * num) / den <= a` when the factor is at most one.
proof fn lemma_scale_le(a: int, num: int, den: int)
    requires
        0 <= a,
        den >= 1,
        0 <= num <= den,
    ensures
        (a * num) / den <= a,
{
    vstd::arithmetic::mul::lemma_mul_inequality(num, den, a);
    assert(num * a == a * num && den * a == a * den) by (nonlinear_arith);
    lemma_div_is_ordered(a * num, a * den, den);
    lemma_div_multiples_vanish(a, den);
    assert(a * den == den * a) by (nonlinear_arith);
}

/// The scaled magnitude stays non-negative.
proof fn lemma_span_nonneg_trivial(a: int, num: int, den: int)
    requires
        0 <= a,
        den >= 1,
        0 <= num,
    ensures
        0 <= (a * num) / den,
{
    lemma_mul_le(0, 0, a, num);
    vstd::arithmetic::div_mod::lemma_div_pos_is_pos(a * num, den);
}


/// A mixed sample always lands back in sixteen-bit range, so the stored
/// value is exactly `spec_mixed`.
pub proof fn lemma_mixed_in_range(prev: int, amp: int, level: int)
    requires
        -32768 <= prev <= 32767,
        -32767 <= amp <= 32767,
        0 <= level <= 32768,
    ensures
        -32768 <= MixerSamples::spec_mixed(prev, amp, level) <= 32767,
{
    if amp >= 0 {
        lemma_scale_le(amp, level, 32768);
        lemma_span_nonneg_trivial(amp, level, 32768);
    } else {
        lemma_scale_le(-amp, level, 32768);
        lemma_span_nonneg_trivial(-amp, level, 32768);
    }
}

/// Everything a segment needs to translate beats into buffer indices: its
/// window `[start_beat, cutoff_beat)`, the sample rate and the tempo.
pub struct SamplingProperties {
    pub start_beat: Beat,
    /// If a note starts on or after the cutoff, this segment does not sample
    /// it.
    pub cutoff_beat: Rat64,
    pub sample_rate: u32,
    pub bpm: u32,
}

impl SamplingProperties {
    /// The buffer for this segment covers its whole beat span.
    pub open spec fn spec_num_samples(self) -> int {
        spec_span_samples(
            self.start_beat.num as int,
            self.start_beat.den as int,
            self.cutoff_beat.num as int,
            self.cutoff_beat.den as int,
            self.bpm as int,
            self.sample_rate as int,
        )
    }

    pub open spec fn wf(self) -> bool {
        &&& self.start_beat.wf()
        &&& self.cutoff_beat.wf()
        &&& spec_beat_derived(self.cutoff_beat)
        &&& self.sample_rate >= 1
        &&& self.bpm >= 1
        &&& self.spec_num_samples() <= usize::MAX
    }

    /// Index where the position `num / den` lands, relative to the
    /// segment's own start beat.
    pub open spec fn spec_index_of(self, num: int, den: int) -> int {
        spec_span_samples(
            self.start_beat.num as int,
            self.start_beat.den as int,
            num,
            den,
            self.bpm as int,
            self.sample_rate as int,
        )
    }

    fn num_samples(&self) -> (r: usize)
        requires
            self.wf(),
        ensures
            r == self.spec_num_samples(),
    {
        let n = span_samples(&self.start_beat, &self.cutoff_beat, self.bpm, self.sample_rate);
        n as usize
    }
}

/// A window of samples for one note: where it sits in the segment buffer,
/// and an isolated accumulation target the instrument mixes into.
pub struct MixerSamples {
    /// Index in the segment buffer where this window begins.
    pub start: usize,
    /// The window's own samples; the mixer adds them back into its buffer.
    pub samples: Vec<Sample>,
    /// Per-window amplitude factor, at a scale of 32768 for one.
    pub sound_level: u32,
    pub sample_rate: u32,
}

impl MixerSamples {
    pub open spec fn wf(self) -> bool {
        &&& self.sound_level <= 32768
        &&& self.sample_rate >= 1
    }

    /// How many samples this note's window spans.
    pub fn total_samples(&self) -> (r: usize)
        ensures
            r == self.samples@.len(),
    {
        self.samples.len()
    }

    /// One mixed contribution: scale the amplitude by the window's sound
    /// level, then add it into the window with sixteen-bit wraparound.
    pub open spec fn spec_mixed(prev: int, amp: int, level: int) -> int {
        spec_wrap16(prev + spec_scale(amp, level, 32768))
    }

    pub fn mix_sample(&mut self, index: usize, sample: i32)
        requires
            old(self).wf(),
            index < old(self).samples@.len(),
            -32767 <= sample <= 32767,
        ensures
            final(self).wf(),
            final(self).start == old(self).start,
            final(self).sound_level == old(self).sound_level,
            final(self).sample_rate == old(self).sample_rate,
            final(self).samples@ == old(self).samples@.update(
                index as int,
                Self::spec_mixed(
                    old(self).samples@[index as int] as int,
                    sample as int,
                    old(self).sound_level as int,
                ) as i16,
            ),
    {
        let scaled: i32 = scale_amp(sample, self.sound_level as u64, 32768);
        let prev: i16 = self.samples[index];
        let v: i16 = wrap_add_i16(prev, scaled as i16);
        self.samples[index] = v;
    }
}

/// The mixer for one tempo segment: owns the segment's sample buffer and the
/// properties that map beats to indices in it.
pub struct Mixer {
    pub properties: SamplingProperties,
    pub samples: Vec<Sample>,
}

impl Mixer {
    pub open spec fn wf(self) -> bool {
        &&& self.properties.wf()
        &&& self.samples@.len() == self.properties.spec_num_samples()
    }

    /// A fresh, silent buffer sized for the segment.
    pub fn new(properties: SamplingProperties) -> (r: Mixer)
        requires
            properties.wf(),
        ensures
            r.wf(),
            r.properties == properties,
            forall|i: int| 0 <= i < r.samples@.len() ==> r.samples@[i] == 0i16,
    {
        let n = properties.num_samples();
        let samples = zero_samples(n);
        Mixer { properties, samples }
    }

    /// Re-use the allocated sample storage of a finished mixer for the next
    /// segment; only the new properties matter, the contents start silent.
    pub fn from_old_mixer(old_mixer: Mixer, properties: SamplingProperties) -> (r: Mixer)
        requires
            properties.wf(),
        ensures
            r.wf(),
            r.properties == properties,
            forall|i: int| 0 <= i < r.samples@.len() ==> r.samples@[i] == 0i16,
    {
        let mut samples = old_mixer.samples;
        samples.clear();
        let n = properties.num_samples();
        while samples.len() < n
            invariant
                samples@.len() <= n,
                forall|i: int| 0 <= i < samples@.len() ==> samples@[i] == 0i16,
            decreases n - samples@.len(),
        {
            samples.push(0);
        }
        Mixer { properties, samples }
    }

    pub fn properties(&self) -> (r: &SamplingProperties)
        ensures
            r == self.properties,
    {
        &self.properties
    }

    /// The finished samples of this segment, in index order.
    pub fn iter_samples(&self) -> (r: &Vec<Sample>)
        ensures
            r == self.samples,
    {
        &self.samples
    }

    /// Index where a note starting at `start_beat` lands, relative to the
    /// segment's own start beat.
    pub open spec fn spec_index_of(self, num: int, den: int) -> int {
        self.properties.spec_index_of(num, den)
    }

    /// The window for one note: `[index(start), index(start + length))`,
    /// truncated at the segment buffer's end.  The window's own samples start
    /// silent.
    pub fn samples_for_beats(
        &self,
        start_beat: Beat,
        beat_length: Beat,
        sound_level: u32,
    ) -> (r: MixerSamples)
        requires
            self.wf(),
            start_beat.wf(),
            beat_length.wf(),
            beat_length.num >= 1,
            sound_level <= 32768,
            // the note lies inside the segment's window
            self.properties.start_beat.spec_le(start_beat),
            rat_lt(
                start_beat.num as int,
                start_beat.den as int,
                self.properties.cutoff_beat.num as int,
                self.properties.cutoff_beat.den as int,
            ),
        ensures
            r.wf(),
            r.sound_level == sound_level,
            r.sample_rate == self.properties.sample_rate,
            r.start == self.spec_index_of(start_beat.num as int, start_beat.den as int),
            r.start + r.samples@.len() <= self.samples@.len(),
            ({
                let end_raw = self.spec_index_of(
                    spec_sum_num(start_beat, beat_length),
                    spec_sum_den(start_beat, beat_length),
                );
                let end = if end_raw <= self.samples@.len() as int {
                    end_raw
                } else {
                    self.samples@.len() as int
                };
                r.samples@.len() == end - r.start
            }),
            forall|i: int| 0 <= i < r.samples@.len() ==> r.samples@[i] == 0i16,
    {
        let end_rat = beat_sum(&start_beat, &beat_length);
        let seg = &self.properties.start_beat;
        let bpm = self.properties.bpm;
        let rate = self.properties.sample_rate;
        let start_rat = start_beat.to_rat64();
        let si_wide = span_samples(seg, &start_rat, bpm, rate);
        let ei_wide = span_samples(seg, &end_rat, bpm, rate);
        proof {
            // start index stays within the buffer: start < cutoff
            lemma_span_samples_mono(
                seg.num as int,
                seg.den as int,
                start_beat.num as int,
                start_beat.den as int,
                self.properties.cutoff_beat.num as int,
                self.properties.cutoff_beat.den as int,
                bpm as int,
                rate as int,
            );
            // the window's end never precedes its start
            lemma_beat_sum_gt(start_beat, beat_length);
            lemma_span_samples_mono(
                seg.num as int,
                seg.den as int,
                start_beat.num as int,
                start_beat.den as int,
                spec_sum_num(start_beat, beat_length),
                spec_sum_den(start_beat, beat_length),
                bpm as int,
                rate as int,
            );
            lemma_span_samples_nonneg(
                seg.num as int,
                seg.den as int,
                start_beat.num as int,
                start_beat.den as int,
                bpm as int,
                rate as int,
            );
        }
        let si: usize = si_wide as usize;
        let buf_len: usize = self.samples.len();
        let ei: usize = if ei_wide <= buf_len as u128 {
            ei_wide as usize
        } else {
            buf_len
        };
        let window = zero_samples(ei - si);
        MixerSamples { start: si, samples: window, sound_level, sample_rate: rate }
    }

    /// Add a finished note window back into the segment buffer,
    /// accumulate-only, wrapping in sixteen bits.
    pub fn accumulate(&mut self, window: MixerSamples)
        requires
            old(self).wf(),
            window.start + window.samples@.len() <= old(self).samples@.len(),
        ensures
            final(self).wf(),
            final(self).properties == old(self).properties,
            final(self).samples@.len() == old(self).samples@.len(),
            forall|i: int|
                window.start <= i < window.start + window.samples@.len()
                    ==> final(self).samples@[i] == spec_wrap16(
                    old(self).samples@[i] + window.samples@[i - window.start],
                ),
            forall|i: int|
                0 <= i < old(self).samples@.len() && !(window.start <= i < window.start
                    + window.samples@.len()) ==> final(self).samples@[i] == old(self).samples@[i],
    {
        let mut k: usize = 0;
        let n: usize = window.samples.len();
        while k < n
            invariant
                n == window.samples@.len(),
                window.start + n <= self.samples@.len(),
                self.samples@.len() == old(self).samples@.len(),
                self.properties == old(self).properties,
                self.properties.wf(),
                self.samples@.len() == self.properties.spec_num_samples(),
                k <= n,
                forall|i: int|
                    window.start <= i < window.start + k ==> self.samples@[i] == spec_wrap16(
                        old(self).samples@[i] + window.samples@[i - window.start],
                    ),
                forall|i: int|
                    0 <= i < self.samples@.len() && !(window.start <= i < window.start + k)
                        ==> self.samples@[i] == old(self).samples@[i],
            decreases n - k,
        {
            let idx: usize = window.start + k;
            let v: i16 = wrap_add_i16(self.samples[idx], window.samples[k]);
            self.samples[idx] = v;
            k = k + 1;
        }
    }
}

/// A silent buffer of the given length.
fn zero_samples(n: usize) -> (r: Vec<Sample>)
    ensures
        r@.len() == n,
        forall|i: int| 0 <= i < n ==> r@[i] == 0i16,
{
    let mut v: Vec<Sample> = Vec::new();
    while v.len() < n
        invariant
            v@.len() <= n,
            forall|i: int| 0 <= i < v@.len() ==> v@[i] == 0i16,
        decreases n - v@.len(),
    {
        v.push(0);
    }
    v
}

} // verus!

//! The rational time model: tempo, beats to seconds, seconds to samples.
//!
//! A tempo is an integer number of beats per minute.  A beat span converts to
//! seconds exactly (`beats * 60 / bpm`, a rational), and a span in seconds
//! converts to a sample count by truncation (floor).  Because every step is
//! exact until the single final floor, identical inputs always give identical
//! indices, and a window ending at some beat meets the next window starting at
//! that same beat with no off-by-one drift.

use vstd::prelude::*;
use vstd::arithmetic::div_mod::{lemma_fundamental_div_mod, lemma_mod_division_less_than_divisor};
use crate::rational::{Beat, Rat64, rat_le, rat_eq, lemma_mul_le, spec_beat_derived};

verus! {

/// A display-only bar signature; it never affects timing math.
#[derive(Clone, Copy, Debug)]
pub struct TimeSignature {
    pub num: u8,
    pub den: u8,
}

/// A tempo: beats per minute, plus the display-only time signature.
#[derive(Clone, Copy, Debug)]
pub struct Timing {
    pub bpm: u32,
    pub time_signature: TimeSignature,
}

impl Timing {
    pub open spec fn wf(self) -> bool {
        self.bpm >= 1
    }

    pub fn new(bpm: u32, time_signature: TimeSignature) -> (r: Timing)
        requires
            bpm >= 1,
        ensures
            r.wf(),
            r.bpm == bpm,
            r.time_signature == time_signature,
    {
        Timing { bpm, time_signature }
    }

    /// The ordinary four-beat bar.
    pub fn four_four() -> (r: TimeSignature)
        ensures
            r.num == 4,
            r.den == 4,
    {
        TimeSignature { num: 4, den: 4 }
    }
}

/// Seconds taken by the beat span `num / den` at `bpm`, as an exact rational:
/// numerator of the result.
pub open spec fn spec_seconds_num(num: int) -> int {
    num * 60
}

/// Denominator of the exact seconds value of a beat span.
pub open spec fn spec_seconds_den(den: int, bpm: int) -> int {
    den * bpm
}

/// How long the given beat span lasts, as an exact rational number of
/// seconds: `(num / den) / (bpm / 60)`.
pub fn beat_in_seconds(beat: &Beat, bpm: u32) -> (r: Rat64)
    requires
        beat.wf(),
        bpm >= 1,
    ensures
        r.wf(),
        r.num == spec_seconds_num(beat.num as int),
        r.den == spec_seconds_den(beat.den as int, bpm as int),
{
    proof {
        lemma_mul_le(beat.den as int, bpm as int, u16::MAX as int, u32::MAX as int);
        lemma_mul_le(1, 1, beat.den as int, bpm as int);
    }
    Rat64 {
        num: (beat.num as u64) * 60,
        den: (beat.den as u64) * (bpm as u64),
    }
}

/// The sample count covering `num / den` seconds at `rate` samples per
/// second, truncated toward zero.
pub open spec fn spec_samples_of_seconds(num: int, den: int, rate: int) -> int {
    (num * rate) / den
}

/// Truncate an exact span in seconds to a whole number of samples.
pub fn seconds_to_samples(seconds: &Rat64, sample_rate: u32) -> (r: u64)
    requires
        seconds.wf(),
        sample_rate >= 1,
        spec_samples_of_seconds(seconds.num as int, seconds.den as int, sample_rate as int)
            <= u64::MAX,
    ensures
        r == spec_samples_of_seconds(seconds.num as int, seconds.den as int, sample_rate as int),
{
    proof {
        lemma_mul_le(seconds.num as int, sample_rate as int, u64::MAX as int, u32::MAX as int);
    }
    let p: u128 = (seconds.num as u128) * (sample_rate as u128);
    let q: u128 = p / (seconds.den as u128);
    q as u64
}

/// The sample index of a beat position: its exact time in seconds, floored to
/// a whole sample.  One floor at the very end keeps the translation
/// deterministic and drift-free.
pub open spec fn spec_beat_samples(num: int, den: int, bpm: int, rate: int) -> int {
    (num * 60 * rate) / (den * bpm)
}

/// Compose `beat_in_seconds` with `seconds_to_samples`.
pub fn beat_to_sample_index(beat: &Beat, bpm: u32, sample_rate: u32) -> (r: u64)
    requires
        beat.wf(),
        bpm >= 1,
        sample_rate >= 1,
    ensures
        r == spec_beat_samples(beat.num as int, beat.den as int, bpm as int, sample_rate as int),
{
    let seconds = beat_in_seconds(beat, bpm);
    proof {
        let n60 = (beat.num as int) * 60;
        let dbp = (beat.den as int) * (bpm as int);
        lemma_mul_le(n60, sample_rate as int, 3932100int, u32::MAX as int);
        lemma_mul_le(1, 1, beat.den as int, bpm as int);
        vstd::arithmetic::div_mod::lemma_div_nonincreasing(n60 * (sample_rate as int), dbp);
    }
    seconds_to_samples(&seconds, sample_rate)
}

/// Floor division is monotone on non-negative rationals: if `p/q <= r/s` as
/// exact values, the floors are ordered the same way.  This is the fact that
/// keeps redundant re-derivations of an index consistent with each other.
pub proof fn lemma_div_rat_mono(p: int, q: int, r: int, s: int)
    requires
        q > 0,
        s > 0,
        0 <= p,
        0 <= r,
        p * s <= r * q,
    ensures
        p / q <= r / s,
{
    let fp = p / q;
    let fr = r / s;
    lemma_fundamental_div_mod(p, q);
    lemma_fundamental_div_mod(r, s);
    lemma_mod_division_less_than_divisor(p, q);
    lemma_mod_division_less_than_divisor(r, s);
    let pm = p % q;
    let rm = r % s;
    assert(fp <= fr) by (nonlinear_arith)
        requires
            q > 0,
            s > 0,
            p == q * fp + pm,
            0 <= pm < q,
            r == s * fr + rm,
            0 <= rm < s,
            p * s <= r * q,
            0 <= p,
            0 <= r,
    {
    }
}

/// The number of whole samples between beat position `a` (the segment start)
/// and beat position `b`, at the given tempo and sample rate; zero when `b`
/// does not lie after `a`.
pub open spec fn spec_span_samples(
    an: int,
    ad: int,
    bn: int,
    bd: int,
    bpm: int,
    rate: int,
) -> int {
    if rat_le(bn, bd, an, ad) {
        0
    } else {
        ((bn * ad - an * bd) * 60 * rate) / (ad * bd * bpm)
    }
}

/// Count the whole samples from the segment-start beat `start` up to the
/// position `to`, exactly: one multiplication chain, one final floor.
pub fn span_samples(start: &Beat, to: &Rat64, bpm: u32, rate: u32) -> (r: u128)
    requires
        start.wf(),
        to.wf(),
        bpm >= 1,
        rate >= 1,
        spec_beat_derived(*to),
    ensures
        r == spec_span_samples(
            start.num as int,
            start.den as int,
            to.num as int,
            to.den as int,
            bpm as int,
            rate as int,
        ),
{
    let sr = start.to_rat64();
    if to.le(&sr) {
        return 0;
    }
    proof {
        lemma_mul_le(to.num as int, start.den as int, 0x2_0000_0000int, u16::MAX as int);
        lemma_mul_le(start.num as int, to.den as int, u16::MAX as int, 0x1_0000_0000int);
        lemma_mul_le(
            (to.num as int) * (start.den as int) - (start.num as int) * (to.den as int),
            60,
            0x2_0000_0000int * 0x1_0000,
            60,
        );
        lemma_mul_le(
            ((to.num as int) * (start.den as int) - (start.num as int) * (to.den as int)) * 60,
            rate as int,
            0x2_0000_0000int * 0x1_0000 * 60,
            u32::MAX as int,
        );
        lemma_mul_le(start.den as int, to.den as int, u16::MAX as int, 0x1_0000_0000int);
        lemma_mul_le(
            (start.den as int) * (to.den as int),
            bpm as int,
            0x1_0000int * 0x1_0000_0000,
            u32::MAX as int,
        );
        lemma_mul_le(1, 1, start.den as int, to.den as int);
        lemma_mul_le(1, 1, (start.den as int) * (to.den as int), bpm as int);
    }
    let diff: u128 = (to.num as u128) * (start.den as u128)
        - (start.num as u128) * (to.den as u128);
    let numer: u128 = diff * 60 * (rate as u128);
    let denom: u128 = (start.den as u128) * (to.den as u128) * (bpm as u128);
    numer / denom
}

/// Sample counts never go negative.
pub proof fn lemma_span_samples_nonneg(an: int, ad: int, bn: int, bd: int, bpm: int, rate: int)
    requires
        ad >= 1,
        bd >= 1,
        bpm >= 1,
        rate >= 1,
        0 <= an,
        0 <= bn,
    ensures
        0 <= spec_span_samples(an, ad, bn, bd, bpm, rate),
{
    if !rat_le(bn, bd, an, ad) {
        assert(0 <= (bn * ad - an * bd) * 60 * rate && 0 < ad * bd * bpm) by (nonlinear_arith)
            requires
                ad >= 1,
                bd >= 1,
                bpm >= 1,
                rate >= 1,
                an * bd < bn * ad,
        {
        }
        vstd::arithmetic::div_mod::lemma_div_pos_is_pos(
            (bn * ad - an * bd) * 60 * rate,
            ad * bd * bpm,
        );
    }
}

/// With the segment start, tempo and rate fixed, the sample
/// count is monotone non-decreasing in the target position.  A window ending
/// at some beat therefore always meets the window starting at that beat.
pub proof fn lemma_span_samples_mono(
    an: int,
    ad: int,
    b1n: int,
    b1d: int,
    b2n: int,
    b2d: int,
    bpm: int,
    rate: int,
)
    requires
        ad >= 1,
        b1d >= 1,
        b2d >= 1,
        bpm >= 1,
        rate >= 1,
        0 <= an,
        0 <= b1n,
        0 <= b2n,
        rat_le(b1n, b1d, b2n, b2d),
    ensures
        spec_span_samples(an, ad, b1n, b1d, bpm, rate)
            <= spec_span_samples(an, ad, b2n, b2d, bpm, rate),
{
    if rat_le(b1n, b1d, an, ad) {
        lemma_span_samples_nonneg(an, ad, b2n, b2d, bpm, rate);
    } else {
        // b1 lies after the start, so b2 does as well.
        assert(!rat_le(b2n, b2d, an, ad)) by (nonlinear_arith)
            requires
                ad >= 1,
                b1d >= 1,
                b2d >= 1,
                an * b1d < b1n * ad,
                b1n * b2d <= b2n * b1d,
        {
        }
        let d1 = b1n * ad - an * b1d;
        let d2 = b2n * ad - an * b2d;
        let p = d1 * 60 * rate;
        let q = ad * b1d * bpm;
        let r = d2 * 60 * rate;
        let s = ad * b2d * bpm;
        assert(0 <= d1 && 0 <= d2 && d1 * b2d <= d2 * b1d) by (nonlinear_arith)
            requires
                ad >= 1,
                b1d >= 1,
                b2d >= 1,
                an * b1d < b1n * ad,
                an * b2d < b2n * ad,
                b1n * b2d <= b2n * b1d,
                d1 == b1n * ad - an * b1d,
                d2 == b2n * ad - an * b2d,
        {
        }
        let k = (60 * rate) * (ad * bpm);
        assert(p * s == (d1 * b2d) * k && r * q == (d2 * b1d) * k && k >= 0 && q > 0 && s > 0
            && 0 <= p && 0 <= r) by (nonlinear_arith)
            requires
                ad >= 1,
                b1d >= 1,
                b2d >= 1,
                bpm >= 1,
                rate >= 1,
                0 <= d1,
                0 <= d2,
                p == d1 * 60 * rate,
                q == ad * b1d * bpm,
                r == d2 * 60 * rate,
                s == ad * b2d * bpm,
                k == (60 * rate) * (ad * bpm),
        {
        }
        vstd::arithmetic::mul::lemma_mul_inequality(d1 * b2d, d2 * b1d, k);
        lemma_div_rat_mono(p, q, r, s);
    }
}


/// Two representations of the same rational position land on the same
/// sample index: the translation depends on the value alone.
pub proof fn lemma_span_samples_same_value(
    an: int,
    ad: int,
    b1n: int,
    b1d: int,
    b2n: int,
    b2d: int,
    bpm: int,
    rate: int,
)
    requires
        ad >= 1,
        b1d >= 1,
        b2d >= 1,
        bpm >= 1,
        rate >= 1,
        0 <= an,
        0 <= b1n,
        0 <= b2n,
        rat_eq(b1n, b1d, b2n, b2d),
    ensures
        spec_span_samples(an, ad, b1n, b1d, bpm, rate) == spec_span_samples(
            an,
            ad,
            b2n,
            b2d,
            bpm,
            rate,
        ),
{
    lemma_span_samples_mono(an, ad, b1n, b1d, b2n, b2d, bpm, rate);
    lemma_span_samples_mono(an, ad, b2n, b2d, b1n, b1d, bpm, rate);
}

/// For a fixed tempo, `beat_in_seconds` is monotone
/// non-decreasing in the beat value.
pub proof fn lemma_beat_in_seconds_monotonic(b1: Beat, b2: Beat, bpm: int)
    requires
        b1.wf(),
        b2.wf(),
        bpm >= 1,
        b1.spec_le(b2),
    ensures
        rat_le(
            spec_seconds_num(b1.num as int),
            spec_seconds_den(b1.den as int, bpm),
            spec_seconds_num(b2.num as int),
            spec_seconds_den(b2.den as int, bpm),
        ),
{
    assert((b1.num as int) * 60 * ((b2.den as int) * bpm)
        <= (b2.num as int) * 60 * ((b1.den as int) * bpm)) by (nonlinear_arith)
        requires
            bpm >= 1,
            (b1.num as int) * (b2.den as int) <= (b2.num as int) * (b1.den as int),
    {
    }
}

/// Seconds scale inversely with tempo; in particular doubling
/// the tempo halves the seconds of any beat span.  Stated for any factor
/// `k >= 1`: the seconds at `k * bpm`, multiplied back by `k`, equal the
/// seconds at `bpm`.
pub proof fn lemma_beat_in_seconds_scales_inversely(b: Beat, bpm: int, k: int)
    requires
        b.wf(),
        bpm >= 1,
        k >= 1,
    ensures
        rat_eq(
            k * spec_seconds_num(b.num as int),
            spec_seconds_den(b.den as int, k * bpm),
            spec_seconds_num(b.num as int),
            spec_seconds_den(b.den as int, bpm),
        ),
{
    assert(k * ((b.num as int) * 60) * ((b.den as int) * bpm)
        == (b.num as int) * 60 * ((b.den as int) * (k * bpm))) by (nonlinear_arith)
    {
    }
}

} // verus!

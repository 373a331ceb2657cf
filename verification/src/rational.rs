//! Exact non-negative rational numbers for musical time.
//!
//! `Beat` is the unit callers write scores in: a position or duration measured
//! in quarter-note beats, held as a `u16` numerator over a positive `u16`
//! denominator.  `Rat64` is a wider rational used for values derived from
//! beats (a note's end position, a span in seconds) whose numerators can
//! outgrow `u16`.  All comparisons are by value, via cross multiplication;
//! nothing here ever rounds.

use vstd::prelude::*;

verus! {

/// `a/b <= c/d`, for positive denominators `b` and `d`.
pub open spec fn rat_le(an: int, ad: int, bn: int, bd: int) -> bool {
    an * bd <= bn * ad
}

/// `a/b < c/d`, for positive denominators `b` and `d`.
pub open spec fn rat_lt(an: int, ad: int, bn: int, bd: int) -> bool {
    an * bd < bn * ad
}

/// `a/b == c/d`, for positive denominators `b` and `d`.
pub open spec fn rat_eq(an: int, ad: int, bn: int, bd: int) -> bool {
    an * bd == bn * ad
}

/// Products of bounded non-negative factors are bounded.
pub proof fn lemma_mul_le(a: int, b: int, x: int, y: int)
    by (nonlinear_arith)
    requires
        0 <= a <= x,
        0 <= b <= y,
    ensures
        a * b <= x * y,
{
}

/// `<=` on rationals is transitive.
pub proof fn lemma_rat_le_trans(an: int, ad: int, bn: int, bd: int, cn: int, cd: int)
    requires
        ad > 0,
        bd > 0,
        cd > 0,
        rat_le(an, ad, bn, bd),
        rat_le(bn, bd, cn, cd),
    ensures
        rat_le(an, ad, cn, cd),
{
    assert(an * cd <= cn * ad) by (nonlinear_arith)
        requires
            ad > 0,
            bd > 0,
            cd > 0,
            an * bd <= bn * ad,
            bn * cd <= cn * bd,
    {
    }
}

/// A strict step inside a chain of `<=` keeps the chain strict.
pub proof fn lemma_rat_le_lt_trans(an: int, ad: int, bn: int, bd: int, cn: int, cd: int)
    requires
        ad > 0,
        bd > 0,
        cd > 0,
        rat_le(an, ad, bn, bd),
        rat_lt(bn, bd, cn, cd),
    ensures
        rat_lt(an, ad, cn, cd),
{
    assert(an * cd < cn * ad) by (nonlinear_arith)
        requires
            ad > 0,
            bd > 0,
            cd > 0,
            an * bd <= bn * ad,
            bn * cd < cn * bd,
    {
    }
}

/// Symmetric to `lemma_rat_le_lt_trans`.
pub proof fn lemma_rat_lt_le_trans(an: int, ad: int, bn: int, bd: int, cn: int, cd: int)
    requires
        ad > 0,
        bd > 0,
        cd > 0,
        rat_lt(an, ad, bn, bd),
        rat_le(bn, bd, cn, cd),
    ensures
        rat_lt(an, ad, cn, cd),
{
    assert(an * cd < cn * ad) by (nonlinear_arith)
        requires
            ad > 0,
            bd > 0,
            cd > 0,
            an * bd < bn * ad,
            bn * cd <= cn * bd,
    {
    }
}

/// A beat position or duration: an exact non-negative count of quarter-note
/// beats, as the fraction `num / den`.  Two beats compare by value, never by
/// representation: `1/2` and `2/4` are the same beat.
#[derive(Clone, Copy, Debug)]
pub struct Beat {
    pub num: u16,
    pub den: u16,
}

impl Beat {
    /// The denominator must be positive for the value to be meaningful.
    pub open spec fn wf(self) -> bool {
        self.den >= 1
    }

    pub open spec fn spec_le(self, other: Beat) -> bool {
        rat_le(self.num as int, self.den as int, other.num as int, other.den as int)
    }

    pub open spec fn spec_lt(self, other: Beat) -> bool {
        rat_lt(self.num as int, self.den as int, other.num as int, other.den as int)
    }

    pub open spec fn spec_eq(self, other: Beat) -> bool {
        rat_eq(self.num as int, self.den as int, other.num as int, other.den as int)
    }

    pub fn new(num: u16, den: u16) -> (r: Beat)
        requires
            den >= 1,
        ensures
            r.wf(),
            r.num == num,
            r.den == den,
    {
        Beat { num, den }
    }

    /// The first beat of every score.
    pub fn zero() -> (r: Beat)
        ensures
            r.wf(),
            r.num == 0,
            r.den == 1,
    {
        Beat { num: 0, den: 1 }
    }

    pub fn le(&self, other: &Beat) -> (r: bool)
        ensures
            r == self.spec_le(*other),
    {
        proof {
            lemma_mul_le(self.num as int, other.den as int, u16::MAX as int, u16::MAX as int);
            lemma_mul_le(other.num as int, self.den as int, u16::MAX as int, u16::MAX as int);
        }
        (self.num as u32) * (other.den as u32) <= (other.num as u32) * (self.den as u32)
    }

    pub fn lt(&self, other: &Beat) -> (r: bool)
        ensures
            r == self.spec_lt(*other),
    {
        proof {
            lemma_mul_le(self.num as int, other.den as int, u16::MAX as int, u16::MAX as int);
            lemma_mul_le(other.num as int, self.den as int, u16::MAX as int, u16::MAX as int);
        }
        (self.num as u32) * (other.den as u32) < (other.num as u32) * (self.den as u32)
    }

    /// Widen to the derived-value representation.
    pub fn to_rat64(&self) -> (r: Rat64)
        ensures
            r.num == self.num,
            r.den == self.den,
            self.wf() ==> r.wf(),
    {
        Rat64 { num: self.num as u64, den: self.den as u64 }
    }
}

impl PartialEq for Beat {
    /// Equality is by rational value, not by representation.
    fn eq(&self, other: &Beat) -> (r: bool) {
        proof {
            lemma_mul_le(self.num as int, other.den as int, u16::MAX as int, u16::MAX as int);
            lemma_mul_le(other.num as int, self.den as int, u16::MAX as int, u16::MAX as int);
        }
        (self.num as u32) * (other.den as u32) == (other.num as u32) * (self.den as u32)
    }
}

impl Eq for Beat {
}

impl vstd::std_specs::cmp::PartialEqSpecImpl for Beat {
    open spec fn obeys_eq_spec() -> bool {
        true
    }

    open spec fn eq_spec(&self, other: &Beat) -> bool {
        rat_eq(self.num as int, self.den as int, other.num as int, other.den as int)
    }
}

/// A non-negative rational with `u64` parts, wide enough to hold every value
/// derived from `Beat`s without rounding (a note's end position, a segment
/// length in seconds).
#[derive(Clone, Copy, Debug)]
pub struct Rat64 {
    pub num: u64,
    pub den: u64,
}

impl Rat64 {
    pub open spec fn wf(self) -> bool {
        self.den >= 1
    }

    pub open spec fn spec_le(self, other: Rat64) -> bool {
        rat_le(self.num as int, self.den as int, other.num as int, other.den as int)
    }

    pub open spec fn spec_lt(self, other: Rat64) -> bool {
        rat_lt(self.num as int, self.den as int, other.num as int, other.den as int)
    }

    pub fn new(num: u64, den: u64) -> (r: Rat64)
        requires
            den >= 1,
        ensures
            r.wf(),
            r.num == num,
            r.den == den,
    {
        Rat64 { num, den }
    }

    pub fn le(&self, other: &Rat64) -> (r: bool)
        ensures
            r == self.spec_le(*other),
    {
        proof {
            lemma_mul_le(self.num as int, other.den as int, u64::MAX as int, u64::MAX as int);
            lemma_mul_le(other.num as int, self.den as int, u64::MAX as int, u64::MAX as int);
        }
        (self.num as u128) * (other.den as u128) <= (other.num as u128) * (self.den as u128)
    }

    pub fn lt(&self, other: &Rat64) -> (r: bool)
        ensures
            r == self.spec_lt(*other),
    {
        proof {
            lemma_mul_le(self.num as int, other.den as int, u64::MAX as int, u64::MAX as int);
            lemma_mul_le(other.num as int, self.den as int, u64::MAX as int, u64::MAX as int);
        }
        (self.num as u128) * (other.den as u128) < (other.num as u128) * (self.den as u128)
    }
}


/// Bounds that hold of every rational derived from beat arithmetic: a sum of
/// at most two products of `u16` values over a product of two `u16` values.
pub open spec fn spec_beat_derived(r: Rat64) -> bool {
    &&& r.num <= 0x2_0000_0000u64
    &&& 1 <= r.den <= 0x1_0000_0000u64
}

/// Numerator of the exact sum of two beats.
pub open spec fn spec_sum_num(a: Beat, b: Beat) -> int {
    a.num * b.den + b.num * a.den
}

/// Denominator of the exact sum of two beats.
pub open spec fn spec_sum_den(a: Beat, b: Beat) -> int {
    a.den * b.den
}

/// The exact sum of two beats, widened so it never overflows.
pub fn beat_sum(a: &Beat, b: &Beat) -> (r: Rat64)
    requires
        a.wf(),
        b.wf(),
    ensures
        r.wf(),
        r.num == spec_sum_num(*a, *b),
        r.den == spec_sum_den(*a, *b),
        spec_beat_derived(r),
{
    proof {
        lemma_mul_le(a.num as int, b.den as int, u16::MAX as int, u16::MAX as int);
        lemma_mul_le(b.num as int, a.den as int, u16::MAX as int, u16::MAX as int);
        lemma_mul_le(a.den as int, b.den as int, u16::MAX as int, u16::MAX as int);
        lemma_mul_le(1, 1, a.den as int, b.den as int);
    }
    Rat64 {
        num: (a.num as u64) * (b.den as u64) + (b.num as u64) * (a.den as u64),
        den: (a.den as u64) * (b.den as u64),
    }
}

/// Adding a positive duration moves a position strictly later.
pub proof fn lemma_beat_sum_gt(a: Beat, b: Beat)
    requires
        a.wf(),
        b.wf(),
        b.num >= 1,
    ensures
        rat_lt(a.num as int, a.den as int, spec_sum_num(a, b), spec_sum_den(a, b)),
{
    let an = a.num as int;
    let ad = a.den as int;
    let bn = b.num as int;
    let bd = b.den as int;
    assert(an * (ad * bd) < (an * bd + bn * ad) * ad) by (nonlinear_arith)
        requires
            ad >= 1,
            bd >= 1,
            bn >= 1,
            an >= 0,
    {
    }
}


/// The denominator of a beat sum is positive.
pub proof fn lemma_sum_den_pos(a: Beat, b: Beat)
    requires
        a.wf(),
        b.wf(),
    ensures
        spec_sum_den(a, b) >= 1,
{
    lemma_mul_le(1, 1, a.den as int, b.den as int);
}

} // verus!

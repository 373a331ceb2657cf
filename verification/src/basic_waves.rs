//! The built-in waveform generators that the library itself verifies:
//! square and triangle waves over exact fixed-point phase.
//!
//! Each keeps five voice phases as cycle fractions at a scale of 2^32.  A
//! sample call advances one voice's phase by the given increment, wrapping
//! once past a full cycle, and evaluates the waveform at the new phase in
//! pure integer arithmetic.

use vstd::prelude::*;
use vstd::arithmetic::div_mod::{
    lemma_div_is_ordered, lemma_div_multiples_vanish, lemma_div_pos_is_pos,
};
use crate::instruments::{WaveFunction, spec_phase_step};

verus! {

/// Amplitude of a square wave at a fixed-point phase: full scale positive
/// for the first half cycle, negative after.
pub open spec fn spec_square_amp(p: int) -> int {
    if p < 0x8000_0000 {
        32767
    } else {
        -32767
    }
}

/// Amplitude of a triangle wave at a fixed-point phase: `1 - 4*phase` over
/// the first half cycle, `-1 + 4*(phase - 1/2)` over the second, both at a
/// full scale of 32767 and truncated toward zero.
pub open spec fn spec_triangle_amp(p: int) -> int {
    if p < 0x8000_0000 {
        let t = 4 * p;
        if t <= 0x1_0000_0000 {
            (32767 * (0x1_0000_0000 - t)) / 0x1_0000_0000
        } else {
            -((32767 * (t - 0x1_0000_0000)) / 0x1_0000_0000)
        }
    } else {
        let m = 4 * (p - 0x8000_0000);
        if m <= 0x1_0000_0000 {
            -((32767 * (0x1_0000_0000 - m)) / 0x1_0000_0000)
        } else {
            (32767 * (m - 0x1_0000_0000)) / 0x1_0000_0000
        }
    }
}

/// A scaled fraction of full amplitude stays within full amplitude.
proof fn lemma_amp_frac_bound(x: int)
    requires
        0 <= x <= 0x1_0000_0000,
    ensures
        0 <= (32767 * x) / 0x1_0000_0000 <= 32767,
{
    vstd::arithmetic::mul::lemma_mul_inequality(x, 0x1_0000_0000, 32767);
    lemma_div_is_ordered(32767 * x, 32767 * 0x1_0000_0000int, 0x1_0000_0000);
    lemma_div_multiples_vanish(32767, 0x1_0000_0000);
    if x > 0 {
        vstd::arithmetic::mul::lemma_mul_strictly_positive(32767, x);
    }
    lemma_div_pos_is_pos(32767 * x, 0x1_0000_0000);
}

/// Five voice phases, all zero.
fn fresh_phases() -> (r: Vec<u64>)
    ensures
        r@.len() == 5,
        forall|i: int| 0 <= i < 5 ==> r@[i] == 0u64,
{
    let mut v: Vec<u64> = Vec::new();
    v.push(0);
    v.push(0);
    v.push(0);
    v.push(0);
    v.push(0);
    v
}

/// Advance the phase of one voice, wrapping once past a full cycle, and
/// return the new phase.  Shared by every built-in waveform.
fn step_phase(phases: &mut Vec<u64>, note_channel: usize, phase_increment: u64) -> (p: u64)
    requires
        old(phases)@.len() == 5,
        forall|i: int| 0 <= i < 5 ==> old(phases)@[i] <= 0x1_0000_0000u64,
        note_channel < 5,
        phase_increment < 0x1_0000_0000u64,
    ensures
        final(phases)@.len() == 5,
        forall|i: int| 0 <= i < 5 ==> final(phases)@[i] <= 0x1_0000_0000u64,
        p == spec_phase_step(old(phases)@[note_channel as int] as int, phase_increment as int),
        p <= 0x1_0000_0000u64,
        final(phases)@ == old(phases)@.update(note_channel as int, p),
{
    let p0 = phases[note_channel];
    let p1 = p0 + phase_increment;
    let p = if p1 > 0x1_0000_0000u64 {
        p1 - 0x1_0000_0000u64
    } else {
        p1
    };
    phases[note_channel] = p;
    p
}

/// A square wave: the loudest and simplest of the basic waveforms.
pub struct SquareWave {
    pub phases: Vec<u64>,
}

impl SquareWave {
    pub fn new() -> (r: SquareWave)
        ensures
            r.inv(),
            r.phases() =~= Seq::new(5, |i: int| 0int),
    {
        let r = SquareWave { phases: fresh_phases() };
        proof {
            assert(r.phases() =~= Seq::new(5, |i: int| 0int));
        }
        r
    }
}

impl WaveFunction for SquareWave {
    open spec fn phases(&self) -> Seq<int> {
        self.phases@.map_values(|v: u64| v as int)
    }

    open spec fn inv(&self) -> bool {
        &&& self.phases@.len() == 5
        &&& forall|i: int| 0 <= i < 5 ==> self.phases@[i] <= 0x1_0000_0000u64
    }

    open spec fn wave_at(phase: int) -> int {
        spec_square_amp(phase)
    }

    fn reset(&mut self) {
        self.phases = fresh_phases();
        proof {
            assert(self.phases() =~= Seq::new(5, |i: int| 0int));
        }
    }

    fn sample_at(&mut self, note_channel: usize, phase_increment: u64) -> (r: i32) {
        let p = step_phase(&mut self.phases, note_channel, phase_increment);
        proof {
            assert(self.phases() =~= old(self).phases().update(
                note_channel as int,
                spec_phase_step(
                    old(self).phases()[note_channel as int],
                    phase_increment as int,
                ),
            ));
        }
        if p < 0x8000_0000u64 {
            32767
        } else {
            -32767
        }
    }
}

/// A triangle wave: linear from peak to trough across half the cycle, then
/// back up.
pub struct TriangleWave {
    pub phases: Vec<u64>,
}

impl TriangleWave {
    pub fn new() -> (r: TriangleWave)
        ensures
            r.inv(),
            r.phases() =~= Seq::new(5, |i: int| 0int),
    {
        let r = TriangleWave { phases: fresh_phases() };
        proof {
            assert(r.phases() =~= Seq::new(5, |i: int| 0int));
        }
        r
    }
}

impl WaveFunction for TriangleWave {
    open spec fn phases(&self) -> Seq<int> {
        self.phases@.map_values(|v: u64| v as int)
    }

    open spec fn inv(&self) -> bool {
        &&& self.phases@.len() == 5
        &&& forall|i: int| 0 <= i < 5 ==> self.phases@[i] <= 0x1_0000_0000u64
    }

    open spec fn wave_at(phase: int) -> int {
        spec_triangle_amp(phase)
    }

    fn reset(&mut self) {
        self.phases = fresh_phases();
        proof {
            assert(self.phases() =~= Seq::new(5, |i: int| 0int));
        }
    }

    fn sample_at(&mut self, note_channel: usize, phase_increment: u64) -> (r: i32) {
        let p = step_phase(&mut self.phases, note_channel, phase_increment);
        proof {
            assert(self.phases() =~= old(self).phases().update(
                note_channel as int,
                spec_phase_step(
                    old(self).phases()[note_channel as int],
                    phase_increment as int,
                ),
            ));
        }
        if p < 0x8000_0000u64 {
            let t: u64 = 4 * p;
            if t <= 0x1_0000_0000u64 {
                proof {
                    lemma_amp_frac_bound(0x1_0000_0000 - t as int);
                }
                ((32767u64 * (0x1_0000_0000u64 - t)) / 0x1_0000_0000u64) as i32
            } else {
                proof {
                    lemma_amp_frac_bound(t as int - 0x1_0000_0000);
                }
                -(((32767u64 * (t - 0x1_0000_0000u64)) / 0x1_0000_0000u64) as i32)
            }
        } else {
            let m: u64 = 4 * (p - 0x8000_0000u64);
            if m <= 0x1_0000_0000u64 {
                proof {
                    lemma_amp_frac_bound(0x1_0000_0000 - m as int);
                }
                -(((32767u64 * (0x1_0000_0000u64 - m)) / 0x1_0000_0000u64) as i32)
            } else {
                proof {
                    lemma_amp_frac_bound(m as int - 0x1_0000_0000);
                }
                ((32767u64 * (m - 0x1_0000_0000u64)) / 0x1_0000_0000u64) as i32
            }
        }
    }
}

} // verus!

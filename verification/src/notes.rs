//! Pitches, notes and the errors of score building and rendering.
//!
//! A pitch name is one of the twelve chromatic classes with a signed octave;
//! it maps to a frequency by equal-tempered tuning around A4 = 440 Hz.  The
//! frequency is kept in millihertz as a fixed-point value: the twelfth-root
//! ratios are tabulated at a scale of 2^20, so the whole map is exact integer
//! arithmetic with a single final floor.

use vstd::prelude::*;
use vstd::arithmetic::power2::{pow2, lemma_pow2_strictly_increases, lemma2_to64, lemma2_to64_rest};
use vstd::arithmetic::div_mod::{lemma_div_is_ordered, lemma_div_multiples_vanish, lemma_basic_div};
use crate::rational::{Beat, Rat64, lemma_mul_le, spec_sum_num, spec_sum_den, beat_sum, spec_beat_derived};

verus! {

/// One of the twelve chromatic pitch classes, with the octave it sits in.
#[derive(Clone, Copy, Debug)]
pub enum NoteName {
    C(i8),
    DFlat(i8),
    D(i8),
    EFlat(i8),
    E(i8),
    F(i8),
    GFlat(i8),
    G(i8),
    AFlat(i8),
    A(i8),
    BFlat(i8),
    B(i8),
}

/// Signed distance in semitones from middle A (A4), defined by the fixed
/// per-class offset from A plus twelve semitones per octave.
pub open spec fn spec_semitones(name: NoteName) -> int {
    let (off, octave): (int, int) = match name {
        NoteName::C(o) => (-9, o as int),
        NoteName::DFlat(o) => (-8, o as int),
        NoteName::D(o) => (-7, o as int),
        NoteName::EFlat(o) => (-6, o as int),
        NoteName::E(o) => (-5, o as int),
        NoteName::F(o) => (-4, o as int),
        NoteName::GFlat(o) => (-3, o as int),
        NoteName::G(o) => (-2, o as int),
        NoteName::AFlat(o) => (-1, o as int),
        NoteName::A(o) => (0, o as int),
        NoteName::BFlat(o) => (1, o as int),
        NoteName::B(o) => (2, o as int),
    };
    (octave - 4) * 12 + off
}

/// The twelfth-root-of-two ratios, scaled by 2^20 and rounded to the nearest
/// integer: `spec_ratio(r)` stands for `2^(r/12) * 2^20`.
pub open spec fn spec_ratio(r: int) -> int {
    if r == 0 {
        1048576
    } else if r == 1 {
        1110928
    } else if r == 2 {
        1176987
    } else if r == 3 {
        1246974
    } else if r == 4 {
        1321123
    } else if r == 5 {
        1399681
    } else if r == 6 {
        1482910
    } else if r == 7 {
        1571089
    } else if r == 8 {
        1664511
    } else if r == 9 {
        1763488
    } else if r == 10 {
        1868350
    } else {
        1979448
    }
}

/// The frequency of a pitch `s` semitones from middle A, in millihertz:
/// `440000 * 2^(s/12)`, evaluated in fixed point.  The semitone count is
/// split as `s = 12*(q-133) + r` with `0 <= r < 12` (the shift by `1596 =
/// 12*133` makes the split non-negative for every `i8` octave); the result is
/// the tabulated ratio scaled by the right power of two, floored, and clamped
/// into `u64` range.  The low end is clamped to one millihertz: a frequency
/// is always positive, however deep the octave.
pub open spec fn spec_freq_millihertz(s: int) -> int {
    let t = s + 1596;
    let q = t / 12;
    let base = 440000 * spec_ratio(t % 12);
    if q >= 133 {
        let v = (base * pow2((q - 133) as nat) as int) / 1048576;
        if v > u64::MAX as int {
            u64::MAX as int
        } else {
            v
        }
    } else {
        let v = base / (1048576 * pow2((133 - q) as nat) as int);
        if v == 0 {
            1
        } else {
            v
        }
    }
}

/// `2^e` for small exponents, by repeated doubling.
fn pow2_u64(e: u32) -> (r: u64)
    requires
        e <= 63,
    ensures
        r == pow2(e as nat),
{
    proof {
        lemma2_to64();
    }
    let mut r: u64 = 1;
    let mut i: u32 = 0;
    while i < e
        invariant
            i <= e,
            e <= 63,
            r == pow2(i as nat),
        decreases e - i,
    {
        proof {
            vstd::arithmetic::power2::lemma_pow2_unfold((i + 1) as nat);
            if i + 1 < 63 {
                lemma_pow2_strictly_increases((i + 1) as nat, 63);
            }
            lemma2_to64();
            lemma2_to64_rest();
        }
        r = r * 2;
        i = i + 1;
    }
    r
}

impl NoteName {
    /// How many semitones this pitch lies above (negative: below) middle A.
    pub fn semitones_from_middle_a(self) -> (r: i16)
        ensures
            r == spec_semitones(self),
            -1593 <= r <= 1478,
    {
        let (semitones_from_a, octave): (i16, i8) = match self {
            NoteName::C(o) => (-9, o),
            NoteName::DFlat(o) => (-8, o),
            NoteName::D(o) => (-7, o),
            NoteName::EFlat(o) => (-6, o),
            NoteName::E(o) => (-5, o),
            NoteName::F(o) => (-4, o),
            NoteName::GFlat(o) => (-3, o),
            NoteName::G(o) => (-2, o),
            NoteName::AFlat(o) => (-1, o),
            NoteName::A(o) => (0, o),
            NoteName::BFlat(o) => (1, o),
            NoteName::B(o) => (2, o),
        };
        (octave as i16 - 4) * 12 + semitones_from_a
    }

    /// The sound frequency of this pitch in millihertz, by equal-tempered
    /// tuning around A4 = 440 Hz; exact fixed-point arithmetic, clamped into
    /// `u64` range.  The result is always positive: pitches whose exact
    /// frequency would floor below one millihertz are clamped to one.
    pub fn freq(self) -> (r: u64)
        ensures
            r == spec_freq_millihertz(spec_semitones(self)),
            r >= 1,
    {
        let s = self.semitones_from_middle_a();
        let t: u16 = (s + 1596) as u16;
        let q: u16 = t / 12;
        let r12: u16 = t % 12;
        let base: u64 = 440000u64 * ratio_of(r12);
        proof {
            lemma2_to64();
        }
        if q >= 133 {
            let e: u32 = (q - 133) as u32;
            if e >= 46 {
                proof {
                    lemma_freq_saturates(base, e as nat);
                }
                u64::MAX
            } else {
                let p: u64 = pow2_u64(e);
                proof {
                    lemma2_to64_rest();
                    if e < 45 {
                        lemma_pow2_strictly_increases(e as nat, 45);
                    }
                    lemma_mul_le(base as int, pow2(e as nat) as int, 0xFFFFFFFFFFint, pow2(45) as int);
                }
                let m: u128 = (base as u128) * (p as u128);
                let v: u128 = m / 1048576;
                proof {
                    // even with no octave doubling the result is at least A4
                    vstd::arithmetic::power2::lemma_pow2_pos(e as nat);
                    lemma_mul_le(1048576, 1, base as int, pow2(e as nat) as int);
                    lemma_div_is_ordered(1048576, (base as int) * (pow2(e as nat) as int), 1048576);
                    lemma_div_multiples_vanish(1, 1048576);
                }
                if v > u64::MAX as u128 {
                    u64::MAX
                } else {
                    v as u64
                }
            }
        } else {
            let k: u32 = (133 - q) as u32;
            if k >= 21 {
                proof {
                    lemma_freq_vanishes(base, k as nat);
                }
                1
            } else {
                proof {
                    if k < 20 {
                        lemma_pow2_strictly_increases(k as nat, 20);
                    }
                }
                let den: u64 = 1048576u64 * pow2_u64(k);
                let v = base / den;
                if v == 0 {
                    1
                } else {
                    v
                }
            }
        }
    }
}

/// The tabulated twelfth-root ratio for a semitone remainder.
fn ratio_of(r: u16) -> (v: u64)
    requires
        r < 12,
    ensures
        v == spec_ratio(r as int),
        1048576 <= v <= 1979448,
{
    if r == 0 {
        1048576
    } else if r == 1 {
        1110928
    } else if r == 2 {
        1176987
    } else if r == 3 {
        1246974
    } else if r == 4 {
        1321123
    } else if r == 5 {
        1399681
    } else if r == 6 {
        1482910
    } else if r == 7 {
        1571089
    } else if r == 8 {
        1664511
    } else if r == 9 {
        1763488
    } else if r == 10 {
        1868350
    } else {
        1979448
    }
}

/// Above 46 doubled octave steps the fixed-point frequency exceeds `u64`.
proof fn lemma_freq_saturates(base: u64, e: nat)
    requires
        base >= 440000 * 1048576,
        e >= 46,
    ensures
        (base * pow2(e) as int) / 1048576 > u64::MAX as int,
{
    lemma2_to64();
    lemma2_to64_rest();
    if e > 46 {
        lemma_pow2_strictly_increases(46, e);
    }
    let p46 = pow2(46) as int;
    let pe = pow2(e) as int;
    assert(base * pe >= (440000 * p46) * 1048576) by (nonlinear_arith)
        requires
            base >= 440000 * 1048576,
            pe >= p46,
            p46 > 0,
    {
    }
    lemma_div_multiples_vanish(440000 * p46, 1048576);
    lemma_div_is_ordered((440000 * p46) * 1048576, base * pe, 1048576);
    assert(((440000 * p46) * 1048576) / 1048576 == 440000 * p46) by {
        assert((440000 * p46) * 1048576 == 1048576 * (440000 * p46)) by (nonlinear_arith);
    };
    assert(440000 * p46 > u64::MAX as int);
}

/// Twenty-one or more halved octave steps floor the frequency to zero.
proof fn lemma_freq_vanishes(base: u64, k: nat)
    requires
        base <= 440000 * 1979448,
        k >= 21,
    ensures
        (base as int) / (1048576 * pow2(k) as int) == 0,
{
    lemma2_to64();
    if k > 21 {
        lemma_pow2_strictly_increases(21, k);
    }
    let p21 = pow2(21) as int;
    let pk = pow2(k) as int;
    assert(1048576 * pk >= 1048576 * p21) by (nonlinear_arith)
        requires
            pk >= p21,
    {
    }
    assert(base < 1048576 * p21);
    lemma_basic_div(base as int, 1048576 * pk);
}

/// A note's content: one pitch, or a chord of pitches.  Only chords of
/// exactly three pitches can be rendered; any other arity is reported as an
/// error at render time, never silently truncated.
#[derive(Clone, Debug)]
pub enum NoteType {
    Single(NoteName),
    Chord(Vec<NoteName>),
}

impl NoteType {
    /// Whether the oscillator layer can render this content.
    pub open spec fn spec_supported(self) -> bool {
        match self {
            NoteType::Single(_) => true,
            NoteType::Chord(pitches) => pitches@.len() == 3,
        }
    }
}

/// A timed note: content, start position and duration, both in beats.
/// Placement ignores the content entirely: notes are ordered and collide by
/// their start beat and duration alone.
#[derive(Clone, Debug)]
pub struct Note {
    pub note_type: NoteType,
    pub start_beat: Beat,
    /// How long this note is held, in beats (1 is a quarter note).
    pub beat_length: Beat,
}

impl Note {
    /// Beats are well formed and the duration is positive.
    pub open spec fn wf(self) -> bool {
        &&& self.start_beat.wf()
        &&& self.beat_length.wf()
        &&& self.beat_length.num >= 1
    }

    /// Numerator of the exact position where this note ends.
    pub open spec fn spec_end_num(self) -> int {
        spec_sum_num(self.start_beat, self.beat_length)
    }

    /// Denominator of the exact position where this note ends.
    pub open spec fn spec_end_den(self) -> int {
        spec_sum_den(self.start_beat, self.beat_length)
    }

    pub fn new(note_type: NoteType, start_beat: Beat, beat_length: Beat) -> (r: Note)
        requires
            start_beat.wf(),
            beat_length.wf(),
            beat_length.num >= 1,
        ensures
            r.wf(),
            r.note_type == note_type,
            r.start_beat == start_beat,
            r.beat_length == beat_length,
    {
        Note { note_type, start_beat, beat_length }
    }

    /// Where this note ends: start plus duration, exactly.
    pub fn end(&self) -> (r: Rat64)
        requires
            self.wf(),
        ensures
            r.wf(),
            r.num == self.spec_end_num(),
            r.den == self.spec_end_den(),
            spec_beat_derived(r),
    {
        beat_sum(&self.start_beat, &self.beat_length)
    }
}

/// A rejected insertion: the new note's time range was not disjoint from an
/// existing note's range.  Carries the conflicting note.
#[derive(Clone, Debug)]
pub struct NoteCollision {
    pub conflicting: Note,
}

/// A failure while rendering a score into samples.
#[derive(Clone, Debug)]
pub enum RenderError {
    /// A chord's pitch count is one the oscillator layer cannot render.
    UnsupportedChordArity(usize),
}


/// Structural equality of note contents, stated over views so it can be
/// promised of a rebuilt note.
pub open spec fn spec_note_type_eq(a: NoteType, b: NoteType) -> bool {
    match (a, b) {
        (NoteType::Single(x), NoteType::Single(y)) => x == y,
        (NoteType::Chord(x), NoteType::Chord(y)) => x@ =~= y@,
        _ => false,
    }
}

/// An explicit deep copy of a note, with its contents pinned.
pub fn clone_note(n: &Note) -> (r: Note)
    ensures
        r.start_beat == n.start_beat,
        r.beat_length == n.beat_length,
        spec_note_type_eq(r.note_type, n.note_type),
        n.wf() ==> r.wf(),
{
    let note_type = match &n.note_type {
        NoteType::Single(name) => NoteType::Single(*name),
        NoteType::Chord(pitches) => {
            let mut w: Vec<NoteName> = Vec::new();
            let mut i: usize = 0;
            while i < pitches.len()
                invariant
                    i <= pitches@.len(),
                    w@.len() == i,
                    forall|j: int| 0 <= j < i ==> w@[j] == pitches@[j],
                decreases pitches@.len() - i,
            {
                w.push(pitches[i]);
                i = i + 1;
            }
            NoteType::Chord(w)
        },
    };
    Note { note_type, start_beat: n.start_beat, beat_length: n.beat_length }
}

} // verus!

//! Tracks and the score: ordered, overlap-free notes per instrument, and the
//! orchestrator that renders tempo segments into one sample stream.
//!
//! A musician owns one instrument and its notes, kept sorted by start beat
//! with no two notes overlapping (touching end-to-end is allowed).  Insertion
//! rejects any note whose half-open beat range meets an existing note's
//! range — two notes with the same start always collide, whatever they play —
//! and a rejected insertion leaves the track untouched.

use vstd::prelude::*;
use crate::rational::{
    Beat, Rat64, rat_le, rat_lt, lemma_rat_le_trans, lemma_rat_le_lt_trans,
    lemma_rat_lt_le_trans, lemma_beat_sum_gt, lemma_sum_den_pos, spec_beat_derived,
};
use crate::timing::{Timing, spec_span_samples, span_samples};
use crate::notes::{Note, NoteType, NoteCollision, RenderError, clone_note, spec_note_type_eq};
use crate::sampling::{Mixer, MixerSamples, Sample, SamplingProperties, spec_wrap16};
use crate::instruments::{
    Instrument, spec_phase_iter, spec_pitch_increment, spec_single_amp, spec_chord_amp,
};

verus! {

/// `a` ends on or before `b` starts: the two never sound together.
pub open spec fn spec_notes_disjoint(a: Note, b: Note) -> bool {
    rat_le(a.spec_end_num(), a.spec_end_den(), b.start_beat.num as int, b.start_beat.den as int)
}

/// The half-open beat ranges of `a` and `b` intersect.
pub open spec fn spec_notes_overlap(a: Note, b: Note) -> bool {
    &&& rat_lt(a.start_beat.num as int, a.start_beat.den as int, b.spec_end_num(), b.spec_end_den())
    &&& rat_lt(b.start_beat.num as int, b.start_beat.den as int, a.spec_end_num(), a.spec_end_den())
}

/// The track invariant: every note well-formed, and in sequence order each
/// note ends on or before the next one starts (so the starts ascend
/// strictly, since every note has positive length).
pub open spec fn spec_notes_wf(s: Seq<Note>) -> bool {
    &&& forall|i: int| 0 <= i < s.len() ==> (#[trigger] s[i]).wf()
    &&& forall|i: int, j: int|
        0 <= i < j < s.len() ==> spec_notes_disjoint(#[trigger] s[i], #[trigger] s[j])
}

/// A note starts inside the window of a segment: on or after its start beat
/// and strictly before its cutoff.
pub open spec fn spec_note_in_window(p: SamplingProperties, n: Note) -> bool {
    &&& rat_le(
        p.start_beat.num as int,
        p.start_beat.den as int,
        n.start_beat.num as int,
        n.start_beat.den as int,
    )
    &&& rat_lt(
        n.start_beat.num as int,
        n.start_beat.den as int,
        p.cutoff_beat.num as int,
        p.cutoff_beat.den as int,
    )
}


/// Index in the segment buffer where a note's window begins.
pub open spec fn spec_note_window_start(p: SamplingProperties, n: Note) -> int {
    p.spec_index_of(n.start_beat.num as int, n.start_beat.den as int)
}

/// Index just past a note's window: its end position's index, truncated at
/// the segment buffer's end.
pub open spec fn spec_note_window_end(p: SamplingProperties, n: Note) -> int {
    let e = p.spec_index_of(n.spec_end_num(), n.spec_end_den());
    if e <= p.spec_num_samples() {
        e
    } else {
        p.spec_num_samples()
    }
}

/// The amplitude a note mixes at offset `t` of its window of `total`
/// samples, entering with voice phases `e`: a single pitch is voice zero
/// under the decay envelope; a chord is voices zero through two, each a
/// third, summed, then decayed.
pub open spec fn spec_note_amp<I: Instrument>(
    n: Note,
    e: Seq<int>,
    rate: int,
    t: int,
    total: int,
) -> int {
    match n.note_type {
        NoteType::Single(name) => spec_single_amp(
            I::inst_wave_at(
                spec_phase_iter(e[0], spec_pitch_increment(name, rate), (t + 1) as nat),
            ),
            t,
            total,
        ),
        NoteType::Chord(ps) => if ps@.len() == 3 {
            spec_chord_amp(
                I::inst_wave_at(
                    spec_phase_iter(e[0], spec_pitch_increment(ps@[0], rate), (t + 1) as nat),
                ),
                I::inst_wave_at(
                    spec_phase_iter(e[1], spec_pitch_increment(ps@[1], rate), (t + 1) as nat),
                ),
                I::inst_wave_at(
                    spec_phase_iter(e[2], spec_pitch_increment(ps@[2], rate), (t + 1) as nat),
                ),
                t,
                total,
            )
        } else {
            0
        },
    }
}

/// The voice phases after a note's window of `total` samples: the voices
/// the note uses advance once per sample, the rest stay put.
pub open spec fn spec_note_exit<I: Instrument>(
    n: Note,
    e: Seq<int>,
    rate: int,
    total: int,
) -> Seq<int> {
    match n.note_type {
        NoteType::Single(name) => e.update(
            0,
            spec_phase_iter(e[0], spec_pitch_increment(name, rate), total as nat),
        ),
        NoteType::Chord(ps) => if ps@.len() == 3 {
            e.update(
                0,
                spec_phase_iter(e[0], spec_pitch_increment(ps@[0], rate), total as nat),
            ).update(
                1,
                spec_phase_iter(e[1], spec_pitch_increment(ps@[1], rate), total as nat),
            ).update(
                2,
                spec_phase_iter(e[2], spec_pitch_increment(ps@[2], rate), total as nat),
            )
        } else {
            e
        },
    }
}

/// The segment buffer after one note's rendered window, played at full
/// level, is accumulated into it: within the window each sample gains the
/// note's decayed amplitude, wrapping in sixteen bits; outside it nothing
/// changes.
pub open spec fn spec_note_mixed<I: Instrument>(
    p: SamplingProperties,
    n: Note,
    e: Seq<int>,
    buf: Seq<i16>,
) -> Seq<i16> {
    let ws = spec_note_window_start(p, n);
    let we = spec_note_window_end(p, n);
    Seq::new(
        buf.len(),
        |idx: int|
            if ws <= idx < we {
                (spec_wrap16(
                    buf[idx] + MixerSamples::spec_mixed(
                        0,
                        spec_note_amp::<I>(n, e, p.sample_rate as int, idx - ws, we - ws),
                        32768,
                    ),
                ) as i16)
            } else {
                buf[idx]
            },
    )
}

/// The voice phases and segment buffer after rendering the first `j` notes
/// of a track at full level: a note outside the segment's window contributes
/// nothing; a note inside it advances the voices it uses across its window
/// and accumulates its rendered samples at its place in the buffer.
pub open spec fn spec_track_rendered<I: Instrument>(
    p: SamplingProperties,
    notes: Seq<Note>,
    j: int,
    e: Seq<int>,
    buf: Seq<i16>,
) -> (Seq<int>, Seq<i16>)
    decreases j,
{
    if j <= 0 {
        (e, buf)
    } else {
        let prev = spec_track_rendered::<I>(p, notes, j - 1, e, buf);
        let n = notes[j - 1];
        if spec_note_in_window(p, n) {
            let total = spec_note_window_end(p, n) - spec_note_window_start(p, n);
            (
                spec_note_exit::<I>(n, prev.0, p.sample_rate as int, total),
                spec_note_mixed::<I>(p, n, prev.0, prev.1),
            )
        } else {
            prev
        }
    }
}

/// Notes outside the segment's window leave the fold where it stands.
proof fn lemma_track_skip<I: Instrument>(
    p: SamplingProperties,
    notes: Seq<Note>,
    j0: int,
    j1: int,
    e: Seq<int>,
    buf: Seq<i16>,
)
    requires
        0 <= j0 <= j1,
        forall|k: int| j0 <= k < j1 ==> !spec_note_in_window(p, #[trigger] notes[k]),
    ensures
        spec_track_rendered::<I>(p, notes, j1, e, buf) == spec_track_rendered::<I>(
            p,
            notes,
            j0,
            e,
            buf,
        ),
    decreases j1 - j0,
{
    if j1 > j0 {
        lemma_track_skip::<I>(p, notes, j0, j1 - 1, e, buf);
    }
}

/// One instrument and the notes it plays, sorted and overlap-free.
pub struct Musician<I: Instrument> {
    pub instrument: I,
    pub notes: Vec<Note>,
}

impl<I: Instrument> Musician<I> {
    /// The sorted, pairwise non-overlapping note list is this type's
    /// invariant: every constructor establishes it and every method keeps
    /// it, so it survives any sequence of successful insertions.
    pub open spec fn wf(self) -> bool {
        spec_notes_wf(self.notes@)
    }

    pub fn new(instrument: I) -> (r: Musician<I>)
        ensures
            r.wf(),
            r.notes@.len() == 0,
            r.instrument == instrument,
    {
        Musician { instrument, notes: Vec::new() }
    }

    /// Insert a note, keeping the start-beat order, or reject it naming a
    /// conflicting note.  Exactly the notes whose `[start, start + length)`
    /// range meets an existing note's range are rejected — equal starts
    /// always collide — and a rejected track is left unchanged.
    pub fn add_note(&mut self, note: Note) -> (r: Result<(), NoteCollision>)
        requires
            old(self).wf(),
            note.wf(),
        ensures
            final(self).wf(),
            final(self).instrument == old(self).instrument,
            r is Ok <==> (forall|i: int|
                0 <= i < old(self).notes@.len() ==> !spec_notes_overlap(
                    #[trigger] old(self).notes@[i],
                    note,
                )),
            r is Ok ==> exists|p: int|
                0 <= p <= old(self).notes@.len() && final(self).notes@ == old(
                    self,
                ).notes@.insert(p, note),
            r matches Err(c) ==> {
                &&& final(self).notes@ == old(self).notes@
                &&& exists|i: int|
                    {
                        &&& 0 <= i < old(self).notes@.len()
                        &&& (#[trigger] old(self).notes@[i]).start_beat == c.conflicting.start_beat
                        &&& old(self).notes@[i].beat_length == c.conflicting.beat_length
                        &&& spec_note_type_eq(c.conflicting.note_type, old(self).notes@[i].note_type)
                        &&& spec_notes_overlap(old(self).notes@[i], note)
                    }
            },
    {
        let ghost s = self.notes@;
        let len = self.notes.len();
        // Find the first position whose note starts on or after the new one.
        let mut idx: usize = 0;
        while idx < len && self.notes[idx].start_beat.lt(&note.start_beat)
            invariant
                idx <= len,
                len == self.notes@.len(),
                self.notes@ == s,
                spec_notes_wf(s),
                note.wf(),
                forall|j: int|
                    0 <= j < idx ==> (#[trigger] s[j]).start_beat.spec_lt(note.start_beat),
            decreases len - idx,
        {
            idx = idx + 1;
        }
        proof {
            lemma_note_facts(note);
        }
        // Same start beat as an existing note: always a collision.
        if idx < len && !note.start_beat.lt(&self.notes[idx].start_beat) {
            let conflicting = clone_note(&self.notes[idx]);
            proof {
                let other = s[idx as int];
                lemma_note_facts(other);
                lemma_note_facts(note);
                // equal starts and positive lengths overlap both ways
                lemma_rat_le_lt_trans(
                    note.start_beat.num as int,
                    note.start_beat.den as int,
                    other.start_beat.num as int,
                    other.start_beat.den as int,
                    other.spec_end_num(),
                    other.spec_end_den(),
                );
                lemma_rat_le_lt_trans(
                    other.start_beat.num as int,
                    other.start_beat.den as int,
                    note.start_beat.num as int,
                    note.start_beat.den as int,
                    note.spec_end_num(),
                    note.spec_end_den(),
                );
            }
            return Err(NoteCollision { conflicting });
        }
        // The note before must end by the time the new one starts.
        if idx > 0 {
            let prev_end = self.notes[idx - 1].end();
            let note_start = note.start_beat.to_rat64();
            if note_start.lt(&prev_end) {
                let conflicting = clone_note(&self.notes[idx - 1]);
                proof {
                    let other = s[idx - 1];
                    lemma_note_facts(other);
                    lemma_note_facts(note);
                    lemma_rat_lt_le_trans(
                        other.start_beat.num as int,
                        other.start_beat.den as int,
                        note.start_beat.num as int,
                        note.start_beat.den as int,
                        note.spec_end_num(),
                        note.spec_end_den(),
                    );
                }
                return Err(NoteCollision { conflicting });
            }
        }
        // The new note must end by the time the next one starts.
        if idx < len {
            let next_start = self.notes[idx].start_beat.to_rat64();
            let note_end = note.end();
            if next_start.lt(&note_end) {
                let conflicting = clone_note(&self.notes[idx]);
                proof {
                    let other = s[idx as int];
                    lemma_note_facts(other);
                    lemma_note_facts(note);
                    lemma_rat_le_lt_trans(
                        note.start_beat.num as int,
                        note.start_beat.den as int,
                        other.start_beat.num as int,
                        other.start_beat.den as int,
                        other.spec_end_num(),
                        other.spec_end_den(),
                    );
                }
                return Err(NoteCollision { conflicting });
            }
        }
        self.notes.insert(idx, note);
        proof {
            let t = self.notes@;
            assert(t == s.insert(idx as int, note));
            lemma_insert_keeps_wf(s, idx as int, note);
            lemma_no_overlap_after_checks(s, idx as int, note);
        }
        Ok(())
    }


    /// Find the first note that starts on or after the window's start beat,
    /// provided it still starts before the cutoff; the notes before it all
    /// start strictly before the window.
    pub fn find_starting_note(&self, properties: &SamplingProperties) -> (r: Option<usize>)
        requires
            self.wf(),
            properties.start_beat.wf(),
            properties.cutoff_beat.wf(),
        ensures
            match r {
                Some(idx) => {
                    &&& idx < self.notes@.len()
                    &&& spec_note_in_window(*properties, self.notes@[idx as int])
                    &&& forall|j: int|
                        0 <= j < idx ==> (#[trigger] self.notes@[j]).start_beat.spec_lt(
                            properties.start_beat,
                        )
                },
                None => forall|j: int|
                    0 <= j < self.notes@.len() ==> !spec_note_in_window(
                        *properties,
                        #[trigger] self.notes@[j],
                    ),
            },
    {
        let len = self.notes.len();
        let mut idx: usize = 0;
        while idx < len && self.notes[idx].start_beat.lt(&properties.start_beat)
            invariant
                idx <= len,
                len == self.notes@.len(),
                self.wf(),
                forall|j: int|
                    0 <= j < idx ==> (#[trigger] self.notes@[j]).start_beat.spec_lt(
                        properties.start_beat,
                    ),
            decreases len - idx,
        {
            idx = idx + 1;
        }
        if idx < len {
            let start_r = self.notes[idx].start_beat.to_rat64();
            if start_r.lt(&properties.cutoff_beat) {
                return Some(idx);
            }
            // This note already starts at or past the cutoff, and the notes
            // after it start later still.
            proof {
                let s = self.notes@;
                assert forall|j: int|
                    0 <= j < s.len() implies !spec_note_in_window(*properties, #[trigger] s[j]) by {
                    if j > idx {
                        let a = s[idx as int];
                        let c = s[j];
                        lemma_note_facts(a);
                        lemma_note_facts(c);
                        lemma_rat_lt_le_trans(
                            a.start_beat.num as int,
                            a.start_beat.den as int,
                            a.spec_end_num(),
                            a.spec_end_den(),
                            c.start_beat.num as int,
                            c.start_beat.den as int,
                        );
                        lemma_rat_le_lt_trans(
                            properties.cutoff_beat.num as int,
                            properties.cutoff_beat.den as int,
                            a.start_beat.num as int,
                            a.start_beat.den as int,
                            c.start_beat.num as int,
                            c.start_beat.den as int,
                        );
                    }
                }
            }
            return None;
        }
        None
    }

    /// Render every note that starts inside the mixer's window, in order:
    /// map its beat range to the window's sample range, synthesize through
    /// the instrument, and accumulate into the segment buffer.  Fails, and
    /// stops, exactly when a note in the window cannot be rendered.
    pub fn sample_notes(&mut self, mixer: &mut Mixer) -> (r: Result<(), RenderError>)
        requires
            old(self).wf(),
            old(self).instrument.inst_inv(),
            old(mixer).wf(),
        ensures
            final(self).wf(),
            final(self).notes@ == old(self).notes@,
            final(self).instrument.inst_inv(),
            final(mixer).wf(),
            final(mixer).properties == old(mixer).properties,
            final(mixer).samples@.len() == old(mixer).samples@.len(),
            r is Ok <==> (forall|k: int|
                0 <= k < old(self).notes@.len() && spec_note_in_window(
                    old(mixer).properties,
                    #[trigger] old(self).notes@[k],
                ) ==> old(self).notes@[k].note_type.spec_supported()),
            r is Ok && old(self).instrument.inst_phases().len() == 5 ==> ({
                let rendered = spec_track_rendered::<I>(
                    old(mixer).properties,
                    old(self).notes@,
                    old(self).notes@.len() as int,
                    old(self).instrument.inst_phases(),
                    old(mixer).samples@,
                );
                &&& final(self).instrument.inst_phases() == rendered.0
                &&& final(mixer).samples@ == rendered.1
            }),
    {
        let ghost props0 = old(mixer).properties;
        let ghost e0 = old(self).instrument.inst_phases();
        let ghost buf0 = old(mixer).samples@;
        let ghost all = old(self).notes@;
        let note_index = match self.find_starting_note(&mixer.properties) {
            Some(index) => index,
            None => {
                proof {
                    if e0.len() == 5 {
                        lemma_track_skip::<I>(props0, all, 0, all.len() as int, e0, buf0);
                    }
                }
                return Ok(());
            },
        };
        proof {
            if e0.len() == 5 {
                // the notes before the window leave the fold untouched
                assert forall|k: int|
                    0 <= k < note_index implies !spec_note_in_window(props0, #[trigger] all[k]) by {
                }
                lemma_track_skip::<I>(props0, all, 0, note_index as int, e0, buf0);
            }
        }
        let cutoff: Rat64 = mixer.properties.cutoff_beat;
        let len = self.notes.len();
        let mut j: usize = note_index;
        while j < len && self.notes[j].start_beat.to_rat64().lt(&cutoff)
            invariant
                note_index <= j <= len,
                len == self.notes@.len(),
                self.notes@ == old(self).notes@,
                self.wf(),
                self.instrument.inst_inv(),
                mixer.wf(),
                mixer.properties == old(mixer).properties,
                mixer.samples@.len() == old(mixer).samples@.len(),
                cutoff == old(mixer).properties.cutoff_beat,
                note_index < len,
                spec_note_in_window(old(mixer).properties, self.notes@[note_index as int]),
                forall|k: int|
                    0 <= k < note_index ==> (#[trigger] self.notes@[k]).start_beat.spec_lt(
                        old(mixer).properties.start_beat,
                    ),
                forall|k: int|
                    note_index <= k < j ==> (#[trigger] self.notes@[k]).note_type.spec_supported(),
                props0 == old(mixer).properties,
                e0 == old(self).instrument.inst_phases(),
                buf0 == old(mixer).samples@,
                all == old(self).notes@,
                e0.len() == 5 ==> ({
                    let rendered = spec_track_rendered::<I>(props0, all, j as int, e0, buf0);
                    &&& self.instrument.inst_phases() == rendered.0
                    &&& self.instrument.inst_phases().len() == 5
                    &&& mixer.samples@ == rendered.1
                }),
            decreases len - j,
        {
            proof {
                let s = self.notes@;
                let p = old(mixer).properties;
                if j > note_index {
                    let a = s[note_index as int];
                    let c = s[j as int];
                    lemma_note_facts(a);
                    lemma_note_facts(c);
                    // the window start is on or before this note's start
                    lemma_rat_lt_le_trans(
                        a.start_beat.num as int,
                        a.start_beat.den as int,
                        a.spec_end_num(),
                        a.spec_end_den(),
                        c.start_beat.num as int,
                        c.start_beat.den as int,
                    );
                    lemma_rat_le_lt_trans(
                        p.start_beat.num as int,
                        p.start_beat.den as int,
                        a.start_beat.num as int,
                        a.start_beat.den as int,
                        c.start_beat.num as int,
                        c.start_beat.den as int,
                    );
                }
                assert(s[j as int].wf());
            }
            proof {
                assert(spec_note_in_window(props0, all[j as int]));
            }
            let ghost entry = self.instrument.inst_phases();
            let ghost buf_in = mixer.samples@;
            let ms = mixer.samples_for_beats(
                self.notes[j].start_beat,
                self.notes[j].beat_length,
                32768,
            );
            proof {
                if e0.len() == 5 {
                    assert(ms.start == spec_note_window_start(props0, all[j as int]));
                    assert(ms.start + ms.samples@.len() == spec_note_window_end(
                        props0,
                        all[j as int],
                    ));
                }
            }
            let mut ms = ms;
            let ghost ms_before = ms.samples@;
            let res = self.instrument.sample_note(&self.notes[j], &mut ms);
            match res {
                Ok(_) => {},
                Err(e) => {
                    return Err(e);
                },
            }
            mixer.accumulate(ms);
            proof {
                if e0.len() == 5 {
                    let n = all[j as int];
                    let prev = spec_track_rendered::<I>(props0, all, j as int, e0, buf0);
                    let rate = props0.sample_rate as int;
                    let ws = spec_note_window_start(props0, n);
                    let we = spec_note_window_end(props0, n);
                    let total = we - ws;
                    assert(entry == prev.0 && buf_in == prev.1);
                    // each window sample carries the note's decayed amplitude
                    assert forall|t: int| 0 <= t < total implies ms.samples@[t] as int
                        == MixerSamples::spec_mixed(
                        0,
                        spec_note_amp::<I>(n, prev.0, rate, t, total),
                        32768,
                    ) by {
                        match n.note_type {
                            NoteType::Single(name) => {
                                assert(ms.samples@[t] as int == MixerSamples::spec_mixed(
                                    ms_before[t] as int,
                                    spec_single_amp(
                                        (|ph: int| I::inst_wave_at(ph))(
                                            spec_phase_iter(
                                                prev.0[0],
                                                spec_pitch_increment(name, rate),
                                                (t + 1) as nat,
                                            ),
                                        ),
                                        t,
                                        ms_before.len() as int,
                                    ),
                                    32768,
                                ));
                            },
                            NoteType::Chord(ps) => {
                                assert(ps@.len() == 3);
                                assert(ms.samples@[t] as int == MixerSamples::spec_mixed(
                                    ms_before[t] as int,
                                    spec_chord_amp(
                                        (|ph: int| I::inst_wave_at(ph))(
                                            spec_phase_iter(
                                                prev.0[0],
                                                spec_pitch_increment(ps@[0], rate),
                                                (t + 1) as nat,
                                            ),
                                        ),
                                        (|ph: int| I::inst_wave_at(ph))(
                                            spec_phase_iter(
                                                prev.0[1],
                                                spec_pitch_increment(ps@[1], rate),
                                                (t + 1) as nat,
                                            ),
                                        ),
                                        (|ph: int| I::inst_wave_at(ph))(
                                            spec_phase_iter(
                                                prev.0[2],
                                                spec_pitch_increment(ps@[2], rate),
                                                (t + 1) as nat,
                                            ),
                                        ),
                                        t,
                                        ms_before.len() as int,
                                    ),
                                    32768,
                                ));
                            },
                        }
                    }
                    // the accumulated buffer is the fold's per-note mix
                    assert(mixer.samples@ =~= spec_note_mixed::<I>(props0, n, prev.0, prev.1));
                    assert(mixer.samples@ == spec_note_mixed::<I>(props0, n, prev.0, prev.1));
                    // the instrument's phases are the fold's exit phases
                    assert(self.instrument.inst_phases() =~= spec_note_exit::<I>(
                        n,
                        prev.0,
                        rate,
                        total,
                    ));
                    assert(self.instrument.inst_phases() == spec_note_exit::<I>(
                        n,
                        prev.0,
                        rate,
                        total,
                    ));
                }
            }
            j = j + 1;
        }
        proof {
            let s = self.notes@;
            let p = old(mixer).properties;
            assert forall|k: int|
                0 <= k < s.len() && spec_note_in_window(p, #[trigger] s[k]) implies s[k]
                .note_type.spec_supported() by {
                if k < note_index {
                } else if k < j {
                } else {
                    // the loop stopped because this region starts at or past
                    // the cutoff
                    if j < len && k > j {
                        let a = s[j as int];
                        let c = s[k];
                        lemma_note_facts(a);
                        lemma_note_facts(c);
                        lemma_rat_lt_le_trans(
                            a.start_beat.num as int,
                            a.start_beat.den as int,
                            a.spec_end_num(),
                            a.spec_end_den(),
                            c.start_beat.num as int,
                            c.start_beat.den as int,
                        );
                        lemma_rat_le_lt_trans(
                            p.cutoff_beat.num as int,
                            p.cutoff_beat.den as int,
                            a.start_beat.num as int,
                            a.start_beat.den as int,
                            c.start_beat.num as int,
                            c.start_beat.den as int,
                        );
                    }
                }
            }
        }
        proof {
            if e0.len() == 5 {
                // the notes at and past the stop point leave the fold untouched
                assert forall|k: int|
                    j <= k < all.len() implies !spec_note_in_window(props0, #[trigger] all[k]) by {
                    if j < len && k > j {
                        let a = all[j as int];
                        let c = all[k];
                        lemma_note_facts(a);
                        lemma_note_facts(c);
                        lemma_rat_lt_le_trans(
                            a.start_beat.num as int,
                            a.start_beat.den as int,
                            a.spec_end_num(),
                            a.spec_end_den(),
                            c.start_beat.num as int,
                            c.start_beat.den as int,
                        );
                        lemma_rat_le_lt_trans(
                            props0.cutoff_beat.num as int,
                            props0.cutoff_beat.den as int,
                            a.start_beat.num as int,
                            a.start_beat.den as int,
                            c.start_beat.num as int,
                            c.start_beat.den as int,
                        );
                    }
                }
                lemma_track_skip::<I>(props0, all, j as int, all.len() as int, e0, buf0);
            }
        }
        Ok(())
    }

    /// Reset the instrument's voice state; the notes are untouched.
    pub fn reset(&mut self)
        ensures
            final(self).notes@ == old(self).notes@,
            final(self).instrument.inst_inv(),
            final(self).instrument.inst_is_reset(),
            final(self).instrument.inst_phases() =~= Seq::new(5, |i: int| 0int),
            old(self).wf() ==> final(self).wf(),
    {
        self.instrument.reset();
    }
}



/// The greatest end position among the last notes of the first `n`
/// musicians, as an exact rational pair; `None` when none of them has any
/// note.  (Within one track the last note ends last, since notes are sorted
/// and never overlap.)
pub open spec fn spec_max_end_upto<I: Instrument>(ms: Seq<Musician<I>>, n: int) -> Option<(int, int)>
    decreases n,
{
    if n <= 0 {
        None
    } else {
        let prev = spec_max_end_upto(ms, n - 1);
        let m = ms[n - 1];
        if m.notes@.len() == 0 {
            prev
        } else {
            let last = m.notes@[m.notes@.len() - 1];
            let cand = (last.spec_end_num(), last.spec_end_den());
            match prev {
                None => Some(cand),
                Some(p) => if rat_lt(p.0, p.1, cand.0, cand.1) {
                    Some(cand)
                } else {
                    Some(p)
                },
            }
        }
    }
}

/// A score in which no track holds any note has no end beat, so
/// rendering it produces an empty stream.
pub proof fn lemma_no_notes_no_end<I: Instrument>(ms: Seq<Musician<I>>, n: int)
    requires
        0 <= n <= ms.len(),
        forall|i: int| 0 <= i < n ==> (#[trigger] ms[i]).notes@.len() == 0,
    ensures
        spec_max_end_upto(ms, n) is None,
    decreases n,
{
    if n > 0 {
        lemma_no_notes_no_end(ms, n - 1);
    }
}

/// Numerator of segment `k`'s cutoff: the next timing's beat, or — for the
/// last segment — the end of the latest-ending note.
pub open spec fn spec_cutoff_num(timings: Seq<(Beat, Timing)>, en: int, k: int) -> int {
    if k + 1 < timings.len() {
        timings[k + 1].0.num as int
    } else {
        en
    }
}

/// Denominator of segment `k`'s cutoff.
pub open spec fn spec_cutoff_den(timings: Seq<(Beat, Timing)>, ed: int, k: int) -> int {
    if k + 1 < timings.len() {
        timings[k + 1].0.den as int
    } else {
        ed
    }
}

/// How many samples segment `k` spans at its own tempo.
pub open spec fn spec_seg_len(
    timings: Seq<(Beat, Timing)>,
    en: int,
    ed: int,
    rate: int,
    k: int,
) -> int {
    spec_span_samples(
        timings[k].0.num as int,
        timings[k].0.den as int,
        spec_cutoff_num(timings, en, k),
        spec_cutoff_den(timings, ed, k),
        timings[k].1.bpm as int,
        rate,
    )
}

/// Samples written by the first `k` segments together.
pub open spec fn spec_sum_upto(
    timings: Seq<(Beat, Timing)>,
    en: int,
    ed: int,
    rate: int,
    k: int,
) -> int
    decreases k,
{
    if k <= 0 {
        0
    } else {
        spec_sum_upto(timings, en, ed, rate, k - 1) + spec_seg_len(timings, en, ed, rate, k - 1)
    }
}

/// A note starts inside segment `k`'s window.
pub open spec fn spec_note_in_segment(
    timings: Seq<(Beat, Timing)>,
    en: int,
    ed: int,
    k: int,
    n: Note,
) -> bool {
    &&& rat_le(
        timings[k].0.num as int,
        timings[k].0.den as int,
        n.start_beat.num as int,
        n.start_beat.den as int,
    )
    &&& rat_lt(
        n.start_beat.num as int,
        n.start_beat.den as int,
        spec_cutoff_num(timings, en, k),
        spec_cutoff_den(timings, ed, k),
    )
}

/// Every note that any segment's window reaches has renderable content.
pub open spec fn spec_all_windows_supported<I: Instrument>(
    ms: Seq<Musician<I>>,
    timings: Seq<(Beat, Timing)>,
    en: int,
    ed: int,
) -> bool {
    forall|k: int, m: int, x: int|
        0 <= k < timings.len() && 0 <= m < ms.len() && 0 <= x < ms[m].notes@.len()
            && #[trigger] spec_note_in_segment(timings, en, ed, k, ms[m].notes@[x])
            ==> ms[m].notes@[x].note_type.spec_supported()
}


/// A silent buffer of the given length.
pub open spec fn spec_zero_buf(n: int) -> Seq<i16> {
    Seq::new(n as nat, |i: int| 0i16)
}

/// The properties segment `k` renders under: its own start beat and tempo,
/// the cutoff, and the stream's sample rate.
pub open spec fn spec_seg_props(
    timings: Seq<(Beat, Timing)>,
    en: int,
    ed: int,
    rate: int,
    k: int,
) -> SamplingProperties {
    SamplingProperties {
        start_beat: timings[k].0,
        cutoff_beat: Rat64 {
            num: spec_cutoff_num(timings, en, k) as u64,
            den: spec_cutoff_den(timings, ed, k) as u64,
        },
        sample_rate: rate as u32,
        bpm: timings[k].1.bpm,
    }
}

/// The segment buffer after the first `m` musicians render their windowed
/// notes into it, each from freshly reset voices.
pub open spec fn spec_segment_buf<I: Instrument>(
    ms: Seq<Musician<I>>,
    m: int,
    p: SamplingProperties,
    buf: Seq<i16>,
) -> Seq<i16>
    decreases m,
{
    if m <= 0 {
        buf
    } else {
        let prev = spec_segment_buf::<I>(ms, m - 1, p, buf);
        spec_track_rendered::<I>(
            p,
            ms[m - 1].notes@,
            ms[m - 1].notes@.len() as int,
            Seq::new(5, |i: int| 0int),
            prev,
        ).1
    }
}

/// The whole output stream of the first `k` tempo segments: the
/// concatenation, in segment order, of each segment's fully mixed buffer,
/// every segment starting silent.
pub open spec fn spec_song_output<I: Instrument>(
    ms: Seq<Musician<I>>,
    timings: Seq<(Beat, Timing)>,
    en: int,
    ed: int,
    rate: int,
    k: int,
) -> Seq<i16>
    decreases k,
{
    if k <= 0 {
        Seq::empty()
    } else {
        spec_song_output::<I>(ms, timings, en, ed, rate, k - 1) + spec_segment_buf::<I>(
            ms,
            ms.len() as int,
            spec_seg_props(timings, en, ed, rate, k - 1),
            spec_zero_buf(spec_seg_len(timings, en, ed, rate, k - 1)),
        )
    }
}

/// A mutable handle to one musician of a score.
fn musician_at<I: Instrument>(v: &mut Vec<Musician<I>>, m: usize) -> (r: &mut Musician<I>)
    requires
        m < old(v)@.len(),
    ensures
        *r == old(v)@[m as int],
        final(v)@ == old(v)@.update(m as int, *final(r)),
{
    &mut v[m]
}

/// The whole score: every track, and the ordered schedule of tempos.
pub struct Song<I: Instrument> {
    pub musicians: Vec<Musician<I>>,
    /// The beat at which each timing takes effect, strictly ascending, the
    /// first always at beat zero.
    pub timings: Vec<(Beat, Timing)>,
}

impl<I: Instrument> Song<I> {
    pub open spec fn wf(self) -> bool {
        &&& forall|i: int| 0 <= i < self.musicians@.len() ==> (#[trigger] self.musicians@[i]).wf()
        &&& self.timings@.len() >= 1
        &&& self.timings@[0].0.num == 0
        &&& forall|i: int|
            0 <= i < self.timings@.len() ==> (#[trigger] self.timings@[i]).0.wf()
                && self.timings@[i].1.wf()
        &&& forall|i: int, j: int|
            0 <= i < j < self.timings@.len() ==> (#[trigger] self.timings@[i]).0.spec_lt(
                (#[trigger] self.timings@[j]).0,
            )
    }

    pub fn new(starting_timing: Timing) -> (r: Song<I>)
        requires
            starting_timing.wf(),
        ensures
            r.wf(),
            r.musicians@.len() == 0,
            r.timings@.len() == 1,
            r.timings@[0].1 == starting_timing,
            r.timings@[0].0.num == 0 && r.timings@[0].0.den == 1,
    {
        let mut timings: Vec<(Beat, Timing)> = Vec::new();
        timings.push((Beat::zero(), starting_timing));
        Song { musicians: Vec::new(), timings }
    }

    pub fn add_musician(&mut self, musician: Musician<I>)
        requires
            old(self).wf(),
            musician.wf(),
        ensures
            final(self).wf(),
            final(self).musicians@ == old(self).musicians@.push(musician),
            final(self).timings@ == old(self).timings@,
    {
        self.musicians.push(musician);
    }

    /// Whether a beat lies after every scheduled tempo change — the
    /// condition under which `add_timing` accepts it.
    pub fn can_add_timing(&self, beat: &Beat) -> (r: bool)
        requires
            self.wf(),
        ensures
            r == self.timings@.last().0.spec_lt(*beat),
    {
        let last = self.timings.len() - 1;
        self.timings[last].0.lt(beat)
    }

    /// Schedule a tempo change taking effect at `beat`, which must come
    /// after every tempo change already scheduled.
    pub fn add_timing(&mut self, beat: Beat, timing: Timing)
        requires
            old(self).wf(),
            beat.wf(),
            timing.wf(),
            old(self).timings@.last().0.spec_lt(beat),
        ensures
            final(self).wf(),
            final(self).timings@ == old(self).timings@.push((beat, timing)),
            final(self).musicians@ == old(self).musicians@,
    {
        let ghost t = self.timings@;
        self.timings.push((beat, timing));
        proof {
            let u = self.timings@;
            assert forall|i: int, j: int|
                0 <= i < j < u.len() implies (#[trigger] u[i]).0.spec_lt((#[trigger] u[j]).0) by {
                if j < u.len() - 1 {
                    assert(u[i] == t[i] && u[j] == t[j]);
                } else {
                    assert(u[j] == (beat, timing));
                    if i < t.len() - 1 {
                        let a = t[i].0;
                        let b = t[t.len() - 1].0;
                        assert(rat_lt(a.num as int, a.den as int, b.num as int, b.den as int));
                        lemma_rat_le_lt_trans(
                            a.num as int,
                            a.den as int,
                            b.num as int,
                            b.den as int,
                            beat.num as int,
                            beat.den as int,
                        );
                    }
                }
            }
        }
    }

    /// The end beat of the latest-ending note across all tracks, or `None`
    /// when no track holds any note.
    pub fn find_end_beat_of_last_note(&self) -> (r: Option<Rat64>)
        requires
            self.wf(),
        ensures
            ({
                let s = spec_max_end_upto(self.musicians@, self.musicians@.len() as int);
                match r {
                    None => s is None,
                    Some(e) => {
                        &&& s == Some((e.num as int, e.den as int))
                        &&& e.wf()
                        &&& spec_beat_derived(e)
                    },
                }
            }),
    {
        let mut end_beat: Option<Rat64> = None;
        let mut m: usize = 0;
        while m < self.musicians.len()
            invariant
                m <= self.musicians@.len(),
                self.wf(),
                ({
                    let s = spec_max_end_upto(self.musicians@, m as int);
                    match end_beat {
                        None => s is None,
                        Some(e) => {
                            &&& s == Some((e.num as int, e.den as int))
                            &&& e.wf()
                            &&& spec_beat_derived(e)
                        },
                    }
                }),
            decreases self.musicians@.len() - m,
        {
            let mus = &self.musicians[m];
            let n = mus.notes.len();
            if n > 0 {
                proof {
                    assert(self.musicians@[m as int].wf());
                    assert(mus.notes@[n - 1].wf());
                }
                let cand = mus.notes[n - 1].end();
                end_beat = match end_beat {
                    None => Some(cand),
                    Some(best) => if best.lt(&cand) {
                        Some(cand)
                    } else {
                        Some(best)
                    },
                };
            }
            m = m + 1;
        }
        end_beat
    }

    /// Every segment's buffer fits in memory at this sample rate.
    pub open spec fn spec_segments_fit(self, rate: int) -> bool {
        match spec_max_end_upto(self.musicians@, self.musicians@.len() as int) {
            None => true,
            Some(e) => forall|k: int|
                0 <= k < self.timings@.len() ==> #[trigger] spec_seg_len(
                    self.timings@,
                    e.0,
                    e.1,
                    rate,
                    k,
                ) <= usize::MAX,
        }
    }

    /// Check the machine limit that rendering needs: no tempo segment asks
    /// for more samples than a buffer can hold.
    pub fn segments_fit(&self, sample_rate: u32) -> (r: bool)
        requires
            self.wf(),
            sample_rate >= 1,
        ensures
            r == self.spec_segments_fit(sample_rate as int),
    {
        let end = match self.find_end_beat_of_last_note() {
            None => {
                return true;
            },
            Some(e) => e,
        };
        let tlen = self.timings.len();
        let mut k: usize = 0;
        while k < tlen
            invariant
                k <= tlen,
                tlen == self.timings@.len(),
                self.wf(),
                sample_rate >= 1,
                end.wf(),
                spec_beat_derived(end),
                spec_max_end_upto(self.musicians@, self.musicians@.len() as int) == Some(
                    (end.num as int, end.den as int),
                ),
                forall|kk: int|
                    0 <= kk < k ==> #[trigger] spec_seg_len(
                        self.timings@,
                        end.num as int,
                        end.den as int,
                        sample_rate as int,
                        kk,
                    ) <= usize::MAX,
            decreases tlen - k,
        {
            let cutoff: Rat64 = if k + 1 < tlen {
                self.timings[k + 1].0.to_rat64()
            } else {
                end
            };
            proof {
                assert(self.timings@[k as int].0.wf() && self.timings@[k as int].1.wf());
                if k + 1 < tlen {
                    assert(self.timings@[k + 1].0.wf());
                }
            }
            let n = span_samples(
                &self.timings[k].0,
                &cutoff,
                self.timings[k].1.bpm,
                sample_rate,
            );
            proof {
                assert(n == spec_seg_len(
                    self.timings@,
                    end.num as int,
                    end.den as int,
                    sample_rate as int,
                    k as int,
                ));
            }
            if n > usize::MAX as u128 {
                proof {
                    let s = spec_max_end_upto(self.musicians@, self.musicians@.len() as int);
                    match s {
                        Some(e) => {
                            assert(e == (end.num as int, end.den as int));
                            assert(spec_seg_len(
                                self.timings@,
                                e.0,
                                e.1,
                                sample_rate as int,
                                k as int,
                            ) > usize::MAX);
                        },
                        None => {},
                    }
                }
                return false;
            }
            k = k + 1;
        }
        true
    }


    /// Render the whole score into one linear sample stream: walk the tempo
    /// segments in beat order; for each, size (or re-use) the mixer, reset
    /// every instrument — so no oscillator phase leaks across a segment
    /// boundary — render every track into the segment buffer, and only then
    /// append the finished segment to the output.  A score with no notes
    /// renders to an empty stream; a failure surfaces before its segment is
    /// appended.
    pub fn render_samples(&mut self, sample_rate: u32) -> (r: Result<Vec<Sample>, RenderError>)
        requires
            old(self).wf(),
            sample_rate >= 1,
            old(self).spec_segments_fit(sample_rate as int),
        ensures
            final(self).wf(),
            final(self).timings@ == old(self).timings@,
            final(self).musicians@.len() == old(self).musicians@.len(),
            forall|m: int|
                0 <= m < old(self).musicians@.len()
                    ==> (#[trigger] final(self).musicians@[m]).notes@
                    == old(self).musicians@[m].notes@,
            ({
                let maxend = spec_max_end_upto(
                    old(self).musicians@,
                    old(self).musicians@.len() as int,
                );
                match maxend {
                    None => r matches Ok(v) && v@.len() == 0,
                    Some(e) => {
                        &&& (r is Ok <==> spec_all_windows_supported(
                            old(self).musicians@,
                            old(self).timings@,
                            e.0,
                            e.1,
                        ))
                        &&& (r matches Ok(v) ==> v@.len() == spec_sum_upto(
                            old(self).timings@,
                            e.0,
                            e.1,
                            sample_rate as int,
                            old(self).timings@.len() as int,
                        ))
                        &&& (r matches Ok(v) ==> v@ == spec_song_output::<I>(
                            old(self).musicians@,
                            old(self).timings@,
                            e.0,
                            e.1,
                            sample_rate as int,
                            old(self).timings@.len() as int,
                        ))
                    },
                }
            }),
    {
        let end = match self.find_end_beat_of_last_note() {
            None => {
                return Ok(Vec::new());
            },
            Some(e) => e,
        };
        let ghost en: int = end.num as int;
        let ghost ed: int = end.den as int;
        let tlen = self.timings.len();
        let mut out: Vec<Sample> = Vec::new();
        // a zero-length mixer whose storage the first segment re-uses
        let trivial = SamplingProperties {
            start_beat: Beat::zero(),
            cutoff_beat: Rat64::new(0, 1),
            sample_rate,
            bpm: 1,
        };
        let mut mixer = Mixer::new(trivial);
        let mut k: usize = 0;
        while k < tlen
            invariant
                k <= tlen,
                tlen == self.timings@.len(),
                self.timings@ == old(self).timings@,
                self.wf(),
                sample_rate >= 1,
                self.musicians@.len() == old(self).musicians@.len(),
                forall|m: int|
                    0 <= m < old(self).musicians@.len() ==> (#[trigger] self.musicians@[m]).notes@
                        == old(self).musicians@[m].notes@,
                end.wf(),
                spec_beat_derived(end),
                en == end.num as int,
                ed == end.den as int,
                spec_max_end_upto(old(self).musicians@, old(self).musicians@.len() as int)
                    == Some((en, ed)),
                old(self).spec_segments_fit(sample_rate as int),
                mixer.wf(),
                out@.len() == spec_sum_upto(
                    old(self).timings@,
                    en,
                    ed,
                    sample_rate as int,
                    k as int,
                ),
                out@ == spec_song_output::<I>(
                    old(self).musicians@,
                    old(self).timings@,
                    en,
                    ed,
                    sample_rate as int,
                    k as int,
                ),
                forall|kk: int, m: int, x: int|
                    0 <= kk < k && 0 <= m < old(self).musicians@.len() && 0 <= x < old(
                        self,
                    ).musicians@[m].notes@.len() && #[trigger] spec_note_in_segment(
                        old(self).timings@,
                        en,
                        ed,
                        kk,
                        old(self).musicians@[m].notes@[x],
                    ) ==> old(self).musicians@[m].notes@[x].note_type.spec_supported(),
            decreases tlen - k,
        {
            let cutoff: Rat64 = if k + 1 < tlen {
                self.timings[k + 1].0.to_rat64()
            } else {
                end
            };
            proof {
                assert(self.timings@[k as int].0.wf() && self.timings@[k as int].1.wf());
                if k + 1 < tlen {
                    assert(self.timings@[k + 1].0.wf());
                }
                // the segment fits, by the machine-limit precondition
                match spec_max_end_upto(old(self).musicians@, old(self).musicians@.len() as int) {
                    Some(e) => {
                        assert(spec_seg_len(
                            old(self).timings@,
                            e.0,
                            e.1,
                            sample_rate as int,
                            k as int,
                        ) <= usize::MAX);
                    },
                    None => {},
                }
            }
            let props = SamplingProperties {
                start_beat: self.timings[k].0,
                cutoff_beat: cutoff,
                sample_rate,
                bpm: self.timings[k].1.bpm,
            };
            proof {
                assert(props.spec_num_samples() == spec_seg_len(
                    old(self).timings@,
                    en,
                    ed,
                    sample_rate as int,
                    k as int,
                ));
                assert(props.wf());
            }
            mixer = Mixer::from_old_mixer(mixer, props);
            let ghost zbuf = spec_zero_buf(
                spec_seg_len(old(self).timings@, en, ed, sample_rate as int, k as int),
            );
            proof {
                assert(props == spec_seg_props(
                    old(self).timings@,
                    en,
                    ed,
                    sample_rate as int,
                    k as int,
                ));
                assert(mixer.samples@ =~= zbuf);
                assert(mixer.samples@ == zbuf);
            }
            let mlen = self.musicians.len();
            let mut m: usize = 0;
            while m < mlen
                invariant
                    m <= mlen,
                    mlen == self.musicians@.len(),
                    tlen == self.timings@.len(),
                    k < tlen,
                    self.timings@ == old(self).timings@,
                    self.wf(),
                    sample_rate >= 1,
                    self.musicians@.len() == old(self).musicians@.len(),
                    forall|mm: int|
                        0 <= mm < old(self).musicians@.len() ==> (#[trigger] self.musicians@[mm]).notes@
                            == old(self).musicians@[mm].notes@,
                    mixer.wf(),
                    mixer.properties == props,
                    spec_max_end_upto(old(self).musicians@, old(self).musicians@.len() as int)
                        == Some((en, ed)),
                    zbuf == spec_zero_buf(
                        spec_seg_len(old(self).timings@, en, ed, sample_rate as int, k as int),
                    ),
                    mixer.samples@ == spec_segment_buf::<I>(
                        old(self).musicians@,
                        m as int,
                        props,
                        zbuf,
                    ),
                    props.start_beat == self.timings@[k as int].0,
                    props.cutoff_beat.num as int == spec_cutoff_num(old(self).timings@, en, k as int),
                    props.cutoff_beat.den as int == spec_cutoff_den(old(self).timings@, ed, k as int),
                    forall|mm: int, x: int|
                        0 <= mm < m && 0 <= x < self.musicians@[mm].notes@.len()
                            && spec_note_in_window(props, #[trigger] self.musicians@[mm].notes@[x])
                            ==> self.musicians@[mm].notes@[x].note_type.spec_supported(),
                decreases mlen - m,
            {
                let mus = musician_at(&mut self.musicians, m);
                proof {
                    assert(old(self).musicians@[m as int].wf());
                }
                let ghost buf_before = mixer.samples@;
                mus.reset();
                proof {
                    assert(mus.instrument.inst_phases() == Seq::new(5, |i: int| 0int));
                }
                let res = mus.sample_notes(&mut mixer);
                match res {
                    Ok(_) => {},
                    Err(er) => {
                        proof {
                            assert(!spec_all_windows_supported(
                                old(self).musicians@,
                                old(self).timings@,
                                en,
                                ed,
                            )) by {
                                if spec_all_windows_supported(
                                    old(self).musicians@,
                                    old(self).timings@,
                                    en,
                                    ed,
                                ) {
                                    assert forall|x: int|
                                        0 <= x < old(self).musicians@[m as int].notes@.len()
                                            && spec_note_in_window(
                                            props,
                                            #[trigger] old(self).musicians@[m as int].notes@[x],
                                        ) implies old(
                                        self,
                                    ).musicians@[m as int].notes@[x].note_type.spec_supported() by {
                                        assert(spec_note_in_segment(
                                            old(self).timings@,
                                            en,
                                            ed,
                                            k as int,
                                            old(self).musicians@[m as int].notes@[x],
                                        ));
                                    }
                                }
                            }
                            match spec_max_end_upto(
                                old(self).musicians@,
                                old(self).musicians@.len() as int,
                            ) {
                                Some(e) => {
                                    assert(e.0 == en && e.1 == ed);
                                },
                                None => {},
                            }
                        }
                        return Err(er);
                    },
                }
                proof {
                    // this musician's contribution is one step of the
                    // segment fold
                    assert(mixer.samples@ == spec_track_rendered::<I>(
                        props,
                        old(self).musicians@[m as int].notes@,
                        old(self).musicians@[m as int].notes@.len() as int,
                        Seq::new(5, |i: int| 0int),
                        buf_before,
                    ).1);
                    assert(mixer.samples@ == spec_segment_buf::<I>(
                        old(self).musicians@,
                        m as int + 1,
                        props,
                        zbuf,
                    ));
                }
                m = m + 1;
            }
            // the finished segment joins the output stream, in index order
            let seg_len = mixer.samples.len();
            let ghost out_before = out@;
            let mut i: usize = 0;
            while i < seg_len
                invariant
                    i <= seg_len,
                    seg_len == mixer.samples@.len(),
                    out@.len() == spec_sum_upto(
                        old(self).timings@,
                        en,
                        ed,
                        sample_rate as int,
                        k as int,
                    ) + i,
                    out@ == out_before + mixer.samples@.subrange(0, i as int),
                decreases seg_len - i,
            {
                let sample = mixer.samples[i];
                proof {
                    assert(out@.push(sample) =~= out_before + mixer.samples@.subrange(
                        0,
                        i as int + 1,
                    ));
                }
                out.push(sample);
                i = i + 1;
            }
            proof {
                assert(mixer.samples@.subrange(0, seg_len as int) =~= mixer.samples@);
                assert(out@ == out_before + mixer.samples@);
                assert(out@ =~= spec_song_output::<I>(
                    old(self).musicians@,
                    old(self).timings@,
                    en,
                    ed,
                    sample_rate as int,
                    k as int + 1,
                ));
            }
            proof {
                // the windows of this segment are exactly its beat window
                assert forall|mm: int, x: int|
                    0 <= mm < old(self).musicians@.len() && 0 <= x < old(
                        self,
                    ).musicians@[mm].notes@.len() && #[trigger] spec_note_in_segment(
                        old(self).timings@,
                        en,
                        ed,
                        k as int,
                        old(self).musicians@[mm].notes@[x],
                    ) implies old(self).musicians@[mm].notes@[x].note_type.spec_supported() by {
                    assert(spec_note_in_window(props, old(self).musicians@[mm].notes@[x]));
                    assert(self.musicians@[mm].notes@[x] == old(self).musicians@[mm].notes@[x]);
                }
                assert(spec_sum_upto(
                    old(self).timings@,
                    en,
                    ed,
                    sample_rate as int,
                    k as int + 1,
                ) == spec_sum_upto(old(self).timings@, en, ed, sample_rate as int, k as int)
                    + spec_seg_len(old(self).timings@, en, ed, sample_rate as int, k as int));
            }
            k = k + 1;
        }
        proof {
            match spec_max_end_upto(old(self).musicians@, old(self).musicians@.len() as int) {
                Some(e) => {
                    assert(e.0 == en && e.1 == ed);
                    assert(spec_all_windows_supported(
                        old(self).musicians@,
                        old(self).timings@,
                        en,
                        ed,
                    ));
                },
                None => {},
            }
        }
        Ok(out)
    }

}

/// The facts used all through the scheduler about one well-formed note: its
/// end denominator is positive and it starts strictly before it ends.
proof fn lemma_note_facts(n: Note)
    requires
        n.wf(),
    ensures
        n.spec_end_den() >= 1,
        rat_lt(n.start_beat.num as int, n.start_beat.den as int, n.spec_end_num(), n.spec_end_den()),
{
    lemma_sum_den_pos(n.start_beat, n.beat_length);
    lemma_beat_sum_gt(n.start_beat, n.beat_length);
}

/// Inserting a note that fits between its neighbours keeps the whole track
/// sorted and overlap-free.
proof fn lemma_insert_keeps_wf(s: Seq<Note>, p: int, note: Note)
    requires
        spec_notes_wf(s),
        note.wf(),
        0 <= p <= s.len(),
        forall|j: int| 0 <= j < p ==> (#[trigger] s[j]).start_beat.spec_lt(note.start_beat),
        p > 0 ==> spec_notes_disjoint(s[p - 1], note),
        p < s.len() ==> spec_notes_disjoint(note, s[p]),
    ensures
        spec_notes_wf(s.insert(p, note)),
{
    let t = s.insert(p, note);
    assert forall|i: int| 0 <= i < t.len() implies (#[trigger] t[i]).wf() by {
        if i < p {
            assert(t[i] == s[i]);
        } else if i == p {
        } else {
            assert(t[i] == s[i - 1]);
        }
    }
    assert forall|i: int, j: int|
        0 <= i < j < t.len() implies spec_notes_disjoint(#[trigger] t[i], #[trigger] t[j]) by {
        if i < p && j < p {
            assert(t[i] == s[i] && t[j] == s[j]);
        } else if i < p && j == p {
            // s[i] ends before s[p-1] starts or is s[p-1] itself; either way
            // it ends before the new note starts.
            assert(t[i] == s[i]);
            if i == p - 1 {
            } else {
                let a = s[i];
                let b = s[p - 1];
                lemma_note_facts(a);
                lemma_note_facts(b);
                lemma_note_facts(note);
                // end(a) <= start(b) < end(b) <= start(note)
                lemma_rat_le_trans(
                    a.spec_end_num(),
                    a.spec_end_den(),
                    b.start_beat.num as int,
                    b.start_beat.den as int,
                    note.start_beat.num as int,
                    note.start_beat.den as int,
                );
            }
        } else if i < p && j > p {
            assert(t[i] == s[i] && t[j] == s[j - 1]);
        } else if i == p && j > p {
            assert(t[j] == s[j - 1]);
            if j == p + 1 {
            } else {
                let b = s[p];
                let c = s[j - 1];
                lemma_note_facts(b);
                lemma_note_facts(c);
                lemma_note_facts(note);
                // end(note) <= start(s[p]) < end(s[p]) <= start(c)
                lemma_rat_lt_le_trans(
                    b.start_beat.num as int,
                    b.start_beat.den as int,
                    b.spec_end_num(),
                    b.spec_end_den(),
                    c.start_beat.num as int,
                    c.start_beat.den as int,
                );
                lemma_rat_le_lt_trans(
                    note.spec_end_num(),
                    note.spec_end_den(),
                    b.start_beat.num as int,
                    b.start_beat.den as int,
                    c.start_beat.num as int,
                    c.start_beat.den as int,
                );
            }
        } else {
            assert(t[i] == s[i - 1] && t[j] == s[j - 1]);
        }
    }
}

/// If the new note clears its two would-be neighbours, it overlaps nothing
/// anywhere in the sorted track.
proof fn lemma_no_overlap_after_checks(s: Seq<Note>, p: int, note: Note)
    requires
        spec_notes_wf(s),
        note.wf(),
        0 <= p <= s.len(),
        forall|j: int| 0 <= j < p ==> (#[trigger] s[j]).start_beat.spec_lt(note.start_beat),
        p > 0 ==> spec_notes_disjoint(s[p - 1], note),
        p < s.len() ==> spec_notes_disjoint(note, s[p]),
    ensures
        forall|i: int| 0 <= i < s.len() ==> !spec_notes_overlap(#[trigger] s[i], note),
{
    assert forall|i: int| 0 <= i < s.len() implies !spec_notes_overlap(#[trigger] s[i], note) by {
        if i < p {
            // s[i] ends on or before the new note starts.
            if i < p - 1 {
                let a = s[i];
                let b = s[p - 1];
                lemma_note_facts(a);
                lemma_note_facts(b);
                lemma_note_facts(note);
                lemma_rat_le_trans(
                    a.spec_end_num(),
                    a.spec_end_den(),
                    b.start_beat.num as int,
                    b.start_beat.den as int,
                    note.start_beat.num as int,
                    note.start_beat.den as int,
                );
            }
        } else {
            // the new note ends on or before s[i] starts.
            if i > p {
                let b = s[p];
                let c = s[i];
                lemma_note_facts(b);
                lemma_note_facts(c);
                lemma_note_facts(note);
                lemma_rat_lt_le_trans(
                    b.start_beat.num as int,
                    b.start_beat.den as int,
                    b.spec_end_num(),
                    b.spec_end_den(),
                    c.start_beat.num as int,
                    c.start_beat.den as int,
                );
                lemma_rat_le_lt_trans(
                    note.spec_end_num(),
                    note.spec_end_den(),
                    b.start_beat.num as int,
                    b.start_beat.den as int,
                    c.start_beat.num as int,
                    c.start_beat.den as int,
                );
            }
        }
    }
}

} // verus!

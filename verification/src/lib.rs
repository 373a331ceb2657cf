//! A symbolic-score renderer: tracks of exactly timed notes are scheduled on a
//! rational beat grid, converted to sample indices under a sequence of tempos,
//! synthesized through fixed-point oscillators, and mixed into one mono stream
//! of 16-bit integer samples.

mod rational;
mod timing;
mod notes;
mod sampling;
mod instruments;
mod song;
mod basic_waves;

pub use rational::{Beat, Rat64, rat_le, rat_lt, rat_eq};
pub use timing::{Timing, TimeSignature, beat_in_seconds, seconds_to_samples, beat_to_sample_index};
pub use notes::{NoteName, NoteType, Note, NoteCollision, RenderError};
pub use sampling::{Sample, Mixer, MixerSamples, SamplingProperties};
pub use instruments::{WaveFunction, Instrument, render_note, phase_increment, spec_phase_step, spec_phase_iter, spec_phase_increment, spec_pitch_increment, spec_decay_num, spec_decay_den, spec_single_amp, spec_chord_amp, spec_single_rendered, spec_chord_rendered};
pub use song::{Song, Musician, spec_notes_wf, spec_notes_overlap, spec_notes_disjoint, spec_note_in_window, spec_max_end_upto, spec_all_windows_supported, spec_note_in_segment, lemma_no_notes_no_end, spec_note_window_start, spec_note_window_end, spec_note_amp, spec_note_exit, spec_note_mixed, spec_track_rendered, spec_segment_buf, spec_song_output, spec_seg_props, spec_zero_buf};
pub use basic_waves::{SquareWave, TriangleWave};

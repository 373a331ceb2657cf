//! The note scheduler: insertion order, collision detection, atomicity.

use songcraft::{Beat, Musician, Note, NoteName, NoteType, SquareWave};

fn single(name: NoteName, sn: u16, sd: u16, ln: u16, ld: u16) -> Note {
    Note::new(NoteType::Single(name), Beat::new(sn, sd), Beat::new(ln, ld))
}

#[test]
fn adjacent_notes_never_collide() {
    let mut m = Musician::new(SquareWave::new());
    assert!(m.add_note(single(NoteName::A(4), 0, 1, 1, 1)).is_ok());
    assert!(m.add_note(single(NoteName::G(4), 1, 1, 1, 1)).is_ok());
    assert_eq!(m.notes.len(), 2);
}

#[test]
fn overlapping_notes_are_rejected() {
    let mut m = Musician::new(SquareWave::new());
    assert!(m.add_note(single(NoteName::A(4), 0, 1, 1, 1)).is_ok());
    // starts at beat 1/2, inside [0, 1)
    let r = m.add_note(single(NoteName::G(4), 1, 2, 1, 1));
    assert!(r.is_err());
}

#[test]
fn rejected_insertion_leaves_the_track_unchanged() {
    let mut m = Musician::new(SquareWave::new());
    assert!(m.add_note(single(NoteName::A(4), 0, 1, 1, 1)).is_ok());
    assert!(m.add_note(single(NoteName::C(5), 2, 1, 1, 1)).is_ok());
    let before: Vec<(u16, u16)> = m.notes.iter().map(|n| (n.start_beat.num, n.start_beat.den)).collect();
    assert!(m.add_note(single(NoteName::G(4), 1, 2, 2, 1)).is_err());
    let after: Vec<(u16, u16)> = m.notes.iter().map(|n| (n.start_beat.num, n.start_beat.den)).collect();
    assert_eq!(before, after);
}

#[test]
fn equal_starts_collide_whatever_the_content() {
    let mut m = Musician::new(SquareWave::new());
    assert!(m.add_note(single(NoteName::A(4), 3, 2, 1, 4)).is_ok());
    // the same start written with another denominator still collides
    let e = m.add_note(single(NoteName::C(5), 6, 4, 1, 8));
    let c = e.unwrap_err();
    assert!(c.conflicting.start_beat == Beat::new(3, 2));
}

#[test]
fn collision_names_the_conflicting_note() {
    let mut m = Musician::new(SquareWave::new());
    assert!(m.add_note(single(NoteName::A(4), 2, 1, 2, 1)).is_ok());
    let e = m.add_note(single(NoteName::G(4), 3, 1, 1, 1)).unwrap_err();
    assert!(e.conflicting.start_beat == Beat::new(2, 1));
    assert!(e.conflicting.beat_length == Beat::new(2, 1));
}

#[test]
fn insertion_keeps_the_notes_sorted() {
    let mut m = Musician::new(SquareWave::new());
    assert!(m.add_note(single(NoteName::A(4), 4, 1, 1, 1)).is_ok());
    assert!(m.add_note(single(NoteName::G(4), 0, 1, 1, 1)).is_ok());
    assert!(m.add_note(single(NoteName::F(4), 2, 1, 1, 1)).is_ok());
    let starts: Vec<u16> = m.notes.iter().map(|n| n.start_beat.num).collect();
    assert_eq!(starts, vec![0, 2, 4]);
    // and pairwise non-overlapping: each ends by the next start
    for w in m.notes.windows(2) {
        let end_num = w[0].start_beat.num as u64 * w[0].beat_length.den as u64
            + w[0].beat_length.num as u64 * w[0].start_beat.den as u64;
        let end_den = w[0].start_beat.den as u64 * w[0].beat_length.den as u64;
        let next = &w[1].start_beat;
        assert!(end_num * next.den as u64 <= next.num as u64 * end_den);
    }
}

#[test]
fn a_note_that_straddles_an_existing_one_is_rejected() {
    let mut m = Musician::new(SquareWave::new());
    assert!(m.add_note(single(NoteName::A(4), 2, 1, 1, 1)).is_ok());
    // [1, 4) would swallow [2, 3)
    assert!(m.add_note(single(NoteName::G(4), 1, 1, 3, 1)).is_err());
}

//! Tests of the pitch table and the note table.

use kord::note::{all_notes, note_of_index, Note};
use kord::pitch::{all_pitches, HasPitch, Pitch};

#[test]
fn test_properties() {
    assert_eq!(Pitch::G.pitch(), Pitch::G);
    assert_eq!(Pitch::G.base_frequency_centihertz(), 2450);
}

#[test]
fn test_pitch_try_from_valid() {
    assert_eq!(Pitch::try_from(0), Ok(Pitch::C));
    assert_eq!(Pitch::try_from(1), Ok(Pitch::DFlat));
    assert_eq!(Pitch::try_from(9), Ok(Pitch::A));
    assert_eq!(Pitch::try_from(11), Ok(Pitch::B));
}

#[test]
fn test_pitch_try_from_out_of_range() {
    assert_eq!(Pitch::try_from(12), Err("Invalid pitch"));
    assert_eq!(Pitch::try_from(255), Err("Invalid pitch"));
}

#[test]
fn test_pitch_index_roundtrip() {
    let pitches = all_pitches();
    assert_eq!(pitches.len(), 12);
    for (i, p) in pitches.iter().enumerate() {
        assert_eq!(p.index() as usize, i);
        assert_eq!(Pitch::try_from(i as u8), Ok(*p));
    }
}

#[test]
fn test_note_frequencies() {
    // C0 is the base of the table; A4 is the 440 Hz tuning reference.
    let c0 = Note::new(Pitch::C, 0);
    assert_eq!(c0.frequency_centihertz(), 1635);
    let a4 = Note::new(Pitch::A, 4);
    assert_eq!(a4.frequency_centihertz(), 44000);
    let b8 = Note::new(Pitch::B, 8);
    assert_eq!(b8.frequency_centihertz(), 790272);
}

#[test]
fn test_note_table_ascending() {
    let notes = all_notes();
    assert_eq!(notes.len(), 108);
    for k in 0..notes.len() - 1 {
        assert!(notes[k].frequency_centihertz() < notes[k + 1].frequency_centihertz());
    }
    for k in 0..notes.len() {
        assert_eq!(notes[k], note_of_index(k as u8));
    }
}

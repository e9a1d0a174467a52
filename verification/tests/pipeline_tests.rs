//! End-to-end tests of the capture-to-chords pipeline on synthetic audio.

use std::f32::consts::PI;

use rand::seq::SliceRandom;
use rand::thread_rng;

use kord::capture::{
    finish_capture, required_samples, validate_capture_duration, SampleBuffer,
};
use kord::chord::{recognize_chords, Chord, Quality};
use kord::classify::{is_overtone, nearest_note_index};
use kord::errors::Error;
use kord::infer::{encode_features, infer_chord, rank_chords, ScoredChord};
use kord::note::{all_notes, Note};
use kord::pipeline::notes_from_audio;
use kord::pitch::Pitch;

const SAMPLE_RATE: u32 = 44100;
const REALTIME_DURATION: f32 = 0.2;

fn generate_test_tone(duration: f32, frequencies: &[f32]) -> Vec<i32> {
    let sample_count = (duration * SAMPLE_RATE as f32) as usize;
    let amplitude = 0.5 / frequencies.len() as f32;

    (0..sample_count)
        .map(|i| {
            let t = i as f32 / SAMPLE_RATE as f32;
            let x = frequencies
                .iter()
                .fold(0.0, |acc, &freq| acc + (2.0 * PI * freq * t).sin() * amplitude);
            (x * 32768.0) as i32
        })
        .collect()
}

fn hertz(note: &Note) -> f32 {
    note.frequency_centihertz() as f32 / 100.0
}

fn valid_guitar_notes() -> Vec<Note> {
    all_notes()
        .into_iter()
        .filter(|note| (80.0..=8_000.0).contains(&hertz(note)))
        .collect()
}

#[test]
fn test_mic() {
    // A five-second C-dominant-seventh-flat-nine chord.
    let tones = [
        hertz(&Note::new(Pitch::C, 3)),
        hertz(&Note::new(Pitch::E, 3)),
        hertz(&Note::new(Pitch::G, 3)),
        hertz(&Note::new(Pitch::BFlat, 3)),
        hertz(&Note::new(Pitch::DFlat, 4)),
    ];
    let data = generate_test_tone(5.0, &tones);

    let notes = notes_from_audio(&data, 5000).unwrap();

    let chord = recognize_chords(&notes);

    assert_eq!(chord[0], Chord::parse("C7b9").unwrap());
}

#[test]
fn test_single_note_realtime() {
    let mut rng = thread_rng();

    let valid_notes = valid_guitar_notes();
    let selected_note = *valid_notes.choose(&mut rng).unwrap();
    let frequency = hertz(&selected_note);

    let data = generate_test_tone(REALTIME_DURATION, &[frequency]);

    let notes = notes_from_audio(&data, 200).unwrap();

    assert_eq!(notes.len(), 1, "Expected exactly one note (got {})", notes.len());
    assert_eq!(
        notes[0], selected_note,
        "Detected note '{:?}' doesn't match expected '{:?}'",
        notes[0], selected_note
    );
}

#[test]
fn test_multiple_notes_realtime() {
    let mut rng = thread_rng();

    let valid_notes = valid_guitar_notes();
    let selected_notes = valid_notes
        .choose_multiple(&mut rng, 3)
        .copied()
        .collect::<Vec<_>>();

    let frequencies: Vec<f32> = selected_notes.iter().map(hertz).collect();

    let data = generate_test_tone(REALTIME_DURATION, &frequencies);

    let detected_notes = notes_from_audio(&data, 200).unwrap();

    let valid_count = detected_notes
        .iter()
        .filter(|n| selected_notes.contains(n))
        .count();

    assert!(
        detected_notes.len() >= 2,
        "Should detect at least 2 notes (got {})",
        detected_notes.len()
    );
    assert!(
        valid_count >= 2,
        "At least 2 detected notes must match expected.\n\
         Selected Notes: {:?}\n\
         Detected Notes: {:?}",
        selected_notes,
        detected_notes
    );
}

#[test]
fn test_single_tone_maps_to_nearest_note() {
    // A pure 440 Hz tone yields exactly the note A4.
    let data = generate_test_tone(0.5, &[440.0]);
    let notes = notes_from_audio(&data, 500).unwrap();
    assert_eq!(notes.len(), 1);
    assert_eq!(notes[0], Note::new(Pitch::A, 4));
}

#[test]
fn test_silent_input_yields_empty_spectrum() {
    let data = vec![0i32; 8820];
    let result = notes_from_audio(&data, 200);
    assert_eq!(result, Err(Error::EmptySpectrum));
}

#[test]
fn test_zero_duration_is_invalid() {
    let data = generate_test_tone(0.2, &[440.0]);
    let result = notes_from_audio(&data, 0);
    assert_eq!(result, Err(Error::InvalidDuration));
}

#[test]
fn test_short_capture_rejected_before_device_access() {
    assert_eq!(validate_capture_duration(0), Err(Error::DurationTooShort));
    assert_eq!(validate_capture_duration(199), Err(Error::DurationTooShort));
    assert_eq!(validate_capture_duration(200), Ok(()));
    assert_eq!(validate_capture_duration(5000), Ok(()));
}

#[test]
fn test_required_samples_sizing() {
    assert_eq!(required_samples(44100, 2, 1000), 88200);
    assert_eq!(required_samples(44100, 1, 200), 8820);
}

#[test]
fn test_capture_buffer_handoff() {
    let mut buffer = SampleBuffer::new();
    buffer.append_block(&vec![1, -2, 3]);
    buffer.append_block(&vec![100_000, -100_000]);
    let window = finish_capture(buffer, 44100, false).unwrap();
    // Out-of-range callback samples are forced into fixed-point range.
    assert_eq!(window.samples, vec![1, -2, 3, 32768, -32768]);
    assert_eq!(window.sample_rate_hz, 44100);
}

#[test]
fn test_capture_stream_error_preferred_over_data() {
    let mut buffer = SampleBuffer::new();
    buffer.append_block(&vec![1, 2, 3]);
    let result = finish_capture(buffer, 44100, true);
    assert_eq!(result.map(|w| w.samples), Err(Error::DeviceStreamError));
}

#[test]
fn test_chord_parse_names() {
    assert_eq!(
        Chord::parse("C7b9"),
        Some(Chord { root: Pitch::C, quality: Quality::DominantSeventhFlatNine })
    );
    assert_eq!(Chord::parse("Am"), Some(Chord { root: Pitch::A, quality: Quality::Minor }));
    assert_eq!(
        Chord::parse("F#maj7"),
        Some(Chord { root: Pitch::GFlat, quality: Quality::MajorSeventh })
    );
    assert_eq!(
        Chord::parse("Bbsus4"),
        Some(Chord { root: Pitch::BFlat, quality: Quality::SuspendedFourth })
    );
    assert_eq!(Chord::parse("G"), Some(Chord { root: Pitch::G, quality: Quality::Major }));
}

#[test]
fn test_chord_parse_rejects_unknown_text() {
    assert_eq!(Chord::parse(""), None);
    assert_eq!(Chord::parse("H7"), None);
    assert_eq!(Chord::parse("Cx"), None);
    assert_eq!(Chord::parse("C7b"), None);
}

#[test]
fn test_recognize_c_major_triad() {
    let notes = vec![
        Note::new(Pitch::C, 4),
        Note::new(Pitch::E, 4),
        Note::new(Pitch::G, 4),
    ];
    let chords = recognize_chords(&notes);
    assert!(!chords.is_empty());
    assert_eq!(chords[0], Chord { root: Pitch::C, quality: Quality::Major });
}

#[test]
fn test_recognize_is_deterministic() {
    let notes = vec![
        Note::new(Pitch::C, 3),
        Note::new(Pitch::E, 4),
        Note::new(Pitch::G, 4),
        Note::new(Pitch::BFlat, 4),
        Note::new(Pitch::DFlat, 5),
    ];
    let first = recognize_chords(&notes);
    let second = recognize_chords(&notes);
    assert_eq!(first, second);
    assert_eq!(first[0], Chord::parse("C7b9").unwrap());
}

#[test]
fn test_rank_chords_without_model_matches_rule_ranking() {
    // A note set with an unexplained extra tone, so the policy would
    // consult the inferencer — its absence still yields the rule ranking.
    let notes = vec![
        Note::new(Pitch::C, 4),
        Note::new(Pitch::E, 4),
        Note::new(Pitch::G, 4),
        Note::new(Pitch::EFlat, 5),
    ];
    let blended = rank_chords(&notes, None);
    let rule = recognize_chords(&notes);
    assert_eq!(blended, rule);
    assert!(!blended.is_empty());
}

#[test]
fn test_infer_without_model_is_unavailable() {
    let notes = vec![Note::new(Pitch::C, 4)];
    let features = encode_features(&notes);
    assert_eq!(infer_chord(&features, None), Err(Error::InferenceUnavailable));
}

#[test]
fn test_infer_rejects_malformed_features() {
    let model: Vec<ScoredChord> = Vec::new();
    assert_eq!(
        infer_chord(&vec![1, 0, 1], Some(&model)),
        Err(Error::InferenceUnavailable)
    );
    assert_eq!(
        infer_chord(&vec![7; 12], Some(&model)),
        Err(Error::InferenceUnavailable)
    );
}

#[test]
fn test_infer_ranks_by_descending_score() {
    let notes = vec![Note::new(Pitch::C, 4), Note::new(Pitch::E, 4)];
    let features = encode_features(&notes);
    let cmaj = Chord { root: Pitch::C, quality: Quality::Major };
    let amin = Chord { root: Pitch::A, quality: Quality::Minor };
    let g7 = Chord { root: Pitch::G, quality: Quality::DominantSeventh };
    let model = vec![
        ScoredChord { chord: cmaj, score: 10 },
        ScoredChord { chord: amin, score: 30 },
        ScoredChord { chord: g7, score: 20 },
    ];
    let ranked = infer_chord(&features, Some(&model)).unwrap();
    assert_eq!(ranked, vec![amin, g7, cmaj]);
}

#[test]
fn test_encode_features_one_hot() {
    let notes = vec![
        Note::new(Pitch::C, 3),
        Note::new(Pitch::C, 5),
        Note::new(Pitch::G, 4),
    ];
    let features = encode_features(&notes);
    assert_eq!(features, vec![1, 0, 0, 0, 0, 0, 0, 1, 0, 0, 0, 0]);
}

#[test]
fn test_nearest_note_index() {
    // 440 Hz sits exactly on A4, table position 4 * 12 + 9.
    assert_eq!(nearest_note_index(44000), 57);
    // A frequency a few centihertz off still maps to the same note.
    assert_eq!(nearest_note_index(44100), 57);
}

#[test]
fn test_is_overtone_multiples() {
    // The second and third harmonics of 110 Hz are overtones of it.
    assert!(is_overtone(22000, 11000));
    assert!(is_overtone(33100, 11000));
    // A minor third above is no integer multiple.
    assert!(!is_overtone(26160, 11000));
}

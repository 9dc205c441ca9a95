use wavnote::notation::{fit_to_scale, freq_to_note, note_index, note_name, note_to_freq, ParseError, NOTE_COUNT};

/// The chromatic scale from A0 = 27.5 Hz, in millihertz.
fn gen_notes() -> Vec<u64> {
    let a0: f64 = 27.50;
    let semitone = 2.0f64.powf(1.0 / 12.0);
    (0..NOTE_COUNT)
        .map(|n| (a0 * semitone.powf(n as f64) * 1000.0).round() as u64)
        .collect()
}

#[test]
fn test_a0() {
    let notes = gen_notes();
    let note = note_to_freq(&notes, "A0");
    assert_eq!(Ok(notes[0]), note);
}

#[test]
fn test_dsharp4() {
    let notes = gen_notes();
    assert!(note_to_freq(&notes, "D4").is_ok());
    let note = note_to_freq(&notes, "D#4");
    assert_eq!(Ok(notes[12 * 3 + 6]), note);
}

#[test]
fn test_440_to_a4() {
    let notes = gen_notes();
    assert_eq!(freq_to_note(&notes, 440_000), "A4");
}

#[test]
fn test_415_to_gsharp4() {
    let notes = gen_notes();
    let mhz = (415.304697579946f64 * 1000.0).round() as u64;
    assert_eq!(freq_to_note(&notes, mhz), "G#4");
}

#[test]
fn table_starts_at_a0_and_doubles_each_octave() {
    let notes = gen_notes();
    assert_eq!(notes[0], 27_500);
    assert_eq!(notes[12], 55_000);
    assert_eq!(notes[48], 440_000);
}

#[test]
fn note_names_of_indices() {
    assert_eq!(note_name(0), "A0");
    assert_eq!(note_name(3), "C1");
    assert_eq!(note_name(48), "A4");
    assert_eq!(note_name(NOTE_COUNT - 1), "F#9");
}

#[test]
fn name_and_index_agree_on_every_note() {
    for i in 0..NOTE_COUNT {
        assert_eq!(note_index(&note_name(i)), Ok(i));
    }
}

#[test]
fn nearest_is_found_at_the_ends_and_between() {
    let scale = vec![10u64, 20, 40, 80];
    assert_eq!(fit_to_scale(&scale, 0), 0);
    assert_eq!(fit_to_scale(&scale, 1000), 3);
    assert_eq!(fit_to_scale(&scale, 29), 1);
    assert_eq!(fit_to_scale(&scale, 31), 2);
    // equally close to 20 and 40: the higher index wins
    assert_eq!(fit_to_scale(&scale, 30), 2);
    assert_eq!(fit_to_scale(&[5u64], 99), 0);
}

#[test]
fn parse_errors() {
    let notes = gen_notes();
    assert_eq!(note_to_freq(&notes, "A"), Err(ParseError::BadLength));
    assert_eq!(note_to_freq(&notes, "A#10"), Err(ParseError::BadLength));
    assert_eq!(note_to_freq(&notes, "H4"), Err(ParseError::UnknownLetter));
    assert_eq!(note_to_freq(&notes, "E#4"), Err(ParseError::UnknownLetter));
    assert_eq!(note_to_freq(&notes, "Ab4"), Err(ParseError::UnknownLetter));
    assert_eq!(note_to_freq(&notes, "Ax"), Err(ParseError::BadOctave));
    assert_eq!(note_to_freq(&notes, "C0"), Err(ParseError::OutOfRange));
    assert_eq!(note_to_freq(&notes, "B9"), Err(ParseError::OutOfRange));
    assert_eq!(note_index("F#9"), Ok(NOTE_COUNT - 1));
    assert_eq!(note_index("G9"), Err(ParseError::OutOfRange));
}

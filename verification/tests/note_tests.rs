use soundboard::note::Note;

#[test]
fn from_int_maps_table_positions() {
    assert!(matches!(Note::from_int(0), Some(Note::La)));
    assert!(matches!(Note::from_int(1), Some(Note::LaD)));
    assert!(matches!(Note::from_int(2), Some(Note::Si)));
    assert!(matches!(Note::from_int(3), Some(Note::Do)));
    assert!(matches!(Note::from_int(4), Some(Note::DoD)));
    assert!(matches!(Note::from_int(5), Some(Note::Re)));
    assert!(matches!(Note::from_int(6), Some(Note::ReD)));
    assert!(matches!(Note::from_int(7), Some(Note::Mi)));
    assert!(matches!(Note::from_int(8), Some(Note::Fa)));
    assert!(matches!(Note::from_int(9), Some(Note::FaD)));
    assert!(matches!(Note::from_int(10), Some(Note::Sol)));
    assert!(matches!(Note::from_int(11), Some(Note::SolD)));
    assert!(Note::from_int(12).is_none());
    assert!(Note::from_int(-1).is_none());
}

#[test]
fn reference_frequencies_and_names() {
    assert_eq!(Note::La.as_hz(), 220_000);
    assert_eq!(Note::La.as_str(), "La");
    assert_eq!(Note::Do.as_hz(), 261_626);
    assert_eq!(Note::Do.as_str(), "Do");
    assert_eq!(Note::Re.as_str(), "Ré");
    assert_eq!(Note::ReD.as_str(), "Ré#");
    assert_eq!(Note::SolD.as_hz(), 415_305);
    assert_eq!(Note::SolD.as_str(), "Sol#");
}

#[test]
fn resolves_exact_reference_frequencies() {
    assert!(matches!(Note::from_hz(220_000), Some(Note::La)));
    assert!(matches!(Note::from_hz(233_082), Some(Note::LaD)));
    assert!(matches!(Note::from_hz(261_626), Some(Note::Do)));
    assert!(matches!(Note::from_hz(415_305), Some(Note::SolD)));
}

#[test]
fn nearest_note_with_tie_toward_lower() {
    // Midpoint of La (220000) and La# (233082): distances are equal, the
    // lower neighbor wins.
    assert!(matches!(Note::from_hz(226_541), Some(Note::La)));
    // One past the midpoint: the upper neighbor is strictly nearer.
    assert!(matches!(Note::from_hz(226_542), Some(Note::LaD)));
    // Near the top of the octave there is no upper neighbor in the table:
    // the highest entry wins.
    assert!(matches!(Note::from_hz(439_999), Some(Note::SolD)));
}

#[test]
fn octave_invariance_on_doubled_inputs() {
    let base = Note::from_hz(300_000);
    assert!(matches!(base, Some(Note::Re)));
    assert_eq!(Note::from_hz(600_000), base);
    assert_eq!(Note::from_hz(1_200_000), base);
    assert_eq!(Note::from_hz(2_400_000), base);
    assert_eq!(Note::from_hz(300_000 << 10), base);
    // Inputs below the octave fold up to the same note.
    assert_eq!(Note::from_hz(150_000), base);
    assert_eq!(Note::from_hz(75_000), base);
}

#[test]
fn unresolvable_inputs_return_none() {
    assert!(Note::from_hz(0).is_none());
    assert!(Note::from_hz(-1).is_none());
    assert!(Note::from_hz(-1_000_000).is_none());
    assert!(Note::from_hz(i64::MIN).is_none());
    // Too large to fold down within the iteration budget: the stand-in
    // for an infinite input.
    assert!(Note::from_hz(i64::MAX).is_none());
    assert_eq!(Note::hz_to_str(0), "?");
    assert_eq!(Note::hz_to_str(-44_100), "?");
    assert_eq!(Note::hz_to_str(i64::MAX), "?");
}

#[test]
fn scenario_pure_tone_at_440hz() {
    // 441.3 Hz (the frequency of bin 41 at 44100 Hz / 4096 samples)
    // resolves to La.
    assert_eq!(Note::hz_to_str(441_430), "La");
    assert!(matches!(Note::from_hz(441_430), Some(Note::La)));
}

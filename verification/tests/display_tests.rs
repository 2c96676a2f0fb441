use soundboard::display::display_note;
use soundboard::display::soundboard;
use soundboard::spectrum::DISP_NUM;
use soundboard::spectrum::SAMPLE_SIZE;

#[test]
fn silent_window_renders_empty_bars_and_placeholder() {
    let mags: Vec<u64> = vec![0; SAMPLE_SIZE];
    let lines = soundboard(&mags, 44_100);
    assert_eq!(lines.len(), DISP_NUM + 1);
    // Bucket 0 sits at 0 Hz, which resolves to no note; its mean
    // magnitude is zero, so no glyphs follow.
    assert_eq!(lines[0], "    0    ?: ");
    // Bucket 1 starts at bin 2: 2 * 44100 * 1000 / 4096 = 21533 mHz,
    // about 22 Hz, which folds up to 344.5 Hz, nearest to Fa.
    assert_eq!(lines[1], "   22   Fa: ");
    // The render is terminated by a blank line.
    assert_eq!(lines[DISP_NUM], "");
}

#[test]
fn single_spike_renders_half_height_bar() {
    // Bin 82 belongs to bucket 41 (two bins per bucket); its partner bin
    // is silent, so the normalized bucket mean is one half and the bar
    // run is round(0.5 * 40) = 20 glyphs.
    let mut mags: Vec<u64> = vec![0; SAMPLE_SIZE];
    mags[82] = 1_000;
    let lines = soundboard(&mags, 44_100);
    // Bucket 41 starts at bin 82: 82 * 44100 * 1000 / 4096 = 882861 mHz,
    // about 883 Hz, two octaves above La's neighborhood: it resolves
    // to La.
    assert_eq!(lines[41], "  883   La: ||||||||||||||||||||");
}

#[test]
fn dominant_note_line_of_a_spike() {
    let mut energies: Vec<u64> = vec![0; SAMPLE_SIZE];
    energies[41] = 9_999;
    let line = display_note(&energies, 44_100);
    // Bin 41 is 441430 mHz: 441 Hz, the La just above the reference
    // octave.
    assert_eq!(line, "  441   La");
}

#[test]
fn dominant_note_line_of_silence() {
    let energies: Vec<u64> = vec![0; SAMPLE_SIZE];
    let line = display_note(&energies, 44_100);
    assert_eq!(line, "    0    ?");
}

#[test]
fn dominant_note_tie_goes_to_the_first_bin() {
    let mut energies: Vec<u64> = vec![0; SAMPLE_SIZE];
    energies[41] = 500;
    energies[43] = 500;
    let line = display_note(&energies, 44_100);
    assert_eq!(line, "  441   La");
}

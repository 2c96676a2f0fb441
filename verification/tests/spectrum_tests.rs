use soundboard::spectrum::compute_frequency;
use soundboard::spectrum::dominant_bin;
use soundboard::spectrum::normalize_freqs;
use soundboard::spectrum::MAG_ONE;

#[test]
fn normalize_rescales_to_unit_maximum() {
    let mut bins: Vec<u64> = vec![500, 1000, 250];
    normalize_freqs(&mut bins);
    assert_eq!(bins, vec![500_000, 1_000_000, 250_000]);
    // The bin of original-maximum magnitude reads exactly one.
    assert_eq!(bins[1], MAG_ONE);
}

#[test]
fn normalize_tied_maxima_all_become_one() {
    let mut bins: Vec<u64> = vec![7, 3, 7];
    normalize_freqs(&mut bins);
    assert_eq!(bins[0], MAG_ONE);
    assert_eq!(bins[2], MAG_ONE);
    assert_eq!(bins[1], 3 * MAG_ONE / 7);
}

#[test]
fn normalize_is_idempotent_on_magnitudes() {
    let mut once: Vec<u64> = vec![123, 99_541, 4, 77, 99_541];
    normalize_freqs(&mut once);
    let mut twice = once.clone();
    normalize_freqs(&mut twice);
    assert_eq!(once, twice);
}

#[test]
fn normalize_of_silence_is_a_no_op() {
    // An all-zero window has no maximum energy to divide by: the defined
    // behavior is to leave the bins untouched.
    let mut bins: Vec<u64> = vec![0, 0, 0, 0];
    normalize_freqs(&mut bins);
    assert_eq!(bins, vec![0, 0, 0, 0]);
}

#[test]
fn bin_zero_is_zero_hertz() {
    assert_eq!(compute_frequency(0, 44_100, 4096), 0);
    assert_eq!(compute_frequency(0, 48_000, 1024), 0);
    assert_eq!(compute_frequency(0, 1, 2), 0);
}

#[test]
fn middle_bin_is_nyquist() {
    // N/2 maps to half the sample rate, exactly, in milli-hertz.
    assert_eq!(compute_frequency(2048, 44_100, 4096), 22_050_000);
    assert_eq!(compute_frequency(512, 48_000, 1024), 24_000_000);
    // Odd sample rates stay exact thanks to the milli-hertz scale.
    assert_eq!(compute_frequency(2048, 44_101, 4096), 22_050_500);
}

#[test]
fn bin_41_of_a_44100hz_4096_window() {
    // The dominant bin of a 440 Hz tone: 41 * 44100 * 1000 / 4096.
    assert_eq!(compute_frequency(41, 44_100, 4096), 441_430);
}

#[test]
fn dominant_bin_takes_first_maximum() {
    let e: Vec<u64> = vec![5, 9, 2, 9, 1];
    assert_eq!(dominant_bin(&e, 5), 1);
    // Restricting the prefix hides later bins.
    assert_eq!(dominant_bin(&e, 1), 0);
    let zeros: Vec<u64> = vec![0, 0, 0];
    assert_eq!(dominant_bin(&zeros, 3), 0);
}

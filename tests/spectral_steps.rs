use fdtd::spectrum::{
    analysis_len, bin_window, find_peaks, half_power_span, max_key, padded_len, rank_by_key,
    reflection_analysis_len, resonance_peaks, PeakSpan,
};

#[test]
fn padded_lengths() {
    assert_eq!(padded_len(4096), Some(4096));
    assert_eq!(padded_len(100), Some(128));
    assert_eq!(padded_len(64), Some(64));
    assert_eq!(padded_len(65), Some(128));
    assert_eq!(padded_len(1), Some(1));
    assert_eq!(padded_len(0), Some(1));
    assert_eq!(padded_len(usize::MAX), None);
}

#[test]
fn bin_window_clamps_to_nyquist() {
    assert_eq!(bin_window(4, 41, 4096), (4, 41));
    assert_eq!(bin_window(4, 5000, 4096), (4, 2048));
    assert_eq!(bin_window(3000, 5000, 4096), (2048, 2048));
}

#[test]
fn peaks_are_strict_local_maxima_above_threshold() {
    let m: Vec<u64> = vec![0, 5, 3, 3, 9, 9, 2, 7, 1, 4];
    assert_eq!(find_peaks(&m, 0), vec![1, 7]);
    assert_eq!(find_peaks(&m, 5), vec![7]);
    assert_eq!(find_peaks(&vec![1, 2], 0), Vec::<usize>::new());
    assert_eq!(max_key(&m), 9);
    assert_eq!(max_key(&vec![]), 0);
}

#[test]
fn half_power_walk() {
    let m: Vec<u64> = vec![1, 4, 8, 10, 9, 6, 2];
    assert_eq!(half_power_span(&m, 3, 7), (1, 5));
    assert_eq!(half_power_span(&m, 3, 0), (0, 6));
    assert_eq!(half_power_span(&m, 3, 10), (2, 4));
    assert_eq!(half_power_span(&m, 3, 11), (3, 3));
}

#[test]
fn half_power_walk_passes_bins_at_the_level() {
    let m: Vec<u64> = vec![1, 5, 10, 5, 1];
    assert_eq!(half_power_span(&m, 2, 5), (0, 4));
    let m: Vec<u64> = vec![3, 1, 5, 10, 5, 1, 3];
    assert_eq!(half_power_span(&m, 3, 5), (1, 5));
}

#[test]
fn ranking_is_descending_and_stable() {
    let keys: Vec<u64> = vec![3, 9, 3, 12, 9];
    assert_eq!(rank_by_key(&keys), vec![3, 1, 4, 0, 2]);
    assert_eq!(rank_by_key(&vec![]), Vec::<usize>::new());
}

#[test]
fn float_magnitude_keys_keep_order() {
    let mags = [0.0f64, 1e-3, 0.5, 2.0, 1e9];
    let keys: Vec<u64> = mags.iter().map(|m| m.to_bits()).collect();
    assert_eq!(rank_by_key(&keys), vec![4, 3, 2, 1, 0]);
}

#[test]
fn analysis_needs_enough_samples() {
    assert_eq!(analysis_len(63), None);
    assert_eq!(analysis_len(64), Some(64));
    assert_eq!(analysis_len(4096), Some(4096));
    assert_eq!(analysis_len(100), Some(128));
    assert_eq!(reflection_analysis_len(100, 100), Some(128));
    assert_eq!(reflection_analysis_len(100, 99), None);
    assert_eq!(reflection_analysis_len(10, 10), None);
}

#[test]
fn resonance_peaks_strongest_first() {
    let m: Vec<u64> = vec![0, 5, 3, 3, 9, 2, 7, 1, 4];
    let halves: Vec<u64> = m.iter().map(|x| x / 2).collect();
    let r = resonance_peaks(&m, &halves, 0);
    assert_eq!(
        r,
        vec![
            PeakSpan { bin: 4, lo: 3, hi: 5 },
            PeakSpan { bin: 6, lo: 5, hi: 7 },
            PeakSpan { bin: 1, lo: 0, hi: 7 },
        ]
    );
    let r = resonance_peaks(&m, &halves, 6);
    assert_eq!(r.len(), 2);
    assert_eq!(r[0].bin, 4);
    assert!(resonance_peaks(&vec![], &vec![], 0).is_empty());
}

#[test]
fn resonance_peaks_equal_strength_keep_bin_order() {
    let m: Vec<u64> = vec![0, 6, 0, 6, 0];
    let halves: Vec<u64> = vec![0; 5];
    let r = resonance_peaks(&m, &halves, 0);
    assert_eq!(r.iter().map(|p| p.bin).collect::<Vec<_>>(), vec![1, 3]);
}

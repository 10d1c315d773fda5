use loudness_wasm::technical::{
    calculate_dc_offset, calculate_true_peak, detect_clipping, detect_silence,
    dynamic_range_levels, peak_amplitude, sample_magnitude, TechnicalAnalyzer,
};

#[test]
fn magnitudes_and_peaks() {
    assert_eq!(sample_magnitude(0), 0);
    assert_eq!(sample_magnitude(-7), 7);
    assert_eq!(sample_magnitude(i32::MIN), 2_147_483_648);
    assert_eq!(sample_magnitude(i32::MAX), 2_147_483_647);
    assert_eq!(peak_amplitude(&[]), 0);
    assert_eq!(peak_amplitude(&[3, -9, 4]), 9);
    assert_eq!(peak_amplitude(&[0, 0]), 0);
}

#[test]
fn true_peak_on_straight_lines() {
    assert_eq!(calculate_true_peak(&[]), (None, vec![], true));
    // A single sample is its own peak.
    assert_eq!(calculate_true_peak(&[100]), (Some(400), vec![0], true));
    assert_eq!(calculate_true_peak(&[-100]), (Some(400), vec![0], true));
    // Steps 0, 25, 50, 75 toward 100, and 100 itself: in quarters 0, 100,
    // 200, 300, 400.
    assert_eq!(calculate_true_peak(&[0, 100]), (Some(400), vec![0, 1, 2, 3, 4], true));
    // From 8 down to -8 and on to 0: quarters 32, 16, 0, 16, then 32, 24, 16,
    // 8, 0.
    assert_eq!(calculate_true_peak(&[8, -8, 0]), (Some(32), vec![0], true));
    // The last sample is reached.
    assert_eq!(calculate_true_peak(&[0, 0, 1000]), (Some(4000), vec![0, 5, 6, 7, 8], true));
    let (peak, _, compliant) = calculate_true_peak(&[i32::MIN, i32::MIN]);
    assert_eq!(peak, Some(8_589_934_592));
    assert!(!compliant);
}

#[test]
fn true_peak_is_never_below_a_sample() {
    let mut seed: u64 = 2024;
    for round in 0..50 {
        let len = 1 + round % 7;
        let mut pcm = Vec::new();
        for _ in 0..len {
            seed = seed.wrapping_mul(6364136223846793005).wrapping_add(1442695040888963407);
            pcm.push((seed >> 32) as i32);
        }
        let (peak, _, _) = calculate_true_peak(&pcm);
        assert_eq!(peak, Some(4 * peak_amplitude(&pcm) as u64));
        for x in &pcm {
            assert!(peak.unwrap() >= 4 * sample_magnitude(*x) as u64);
        }
    }
}

#[test]
fn broadcast_limit_sits_at_minus_one_decibel() {
    // -1 dBTP is an amplitude of 0.891251 of full scale: 7_476_354.75.
    let limit = 8_388_608.0 * 10f64.powf(-1.0 / 20.0);
    assert!((limit - 7_476_354.75).abs() < 0.01);
    assert!(calculate_true_peak(&[0, 7_476_354]).2);
    assert!(!calculate_true_peak(&[0, 7_476_355]).2);
    assert!(calculate_true_peak(&[-7_476_354, 0]).2);
    assert!(!calculate_true_peak(&[-7_476_355]).2);
}

#[test]
fn clipping_counts() {
    assert_eq!(detect_clipping(&[]), (false, 0, 0));
    assert_eq!(detect_clipping(&[0, 8_304_721, -8_304_721]), (false, 0, 0));
    assert_eq!(detect_clipping(&[8_304_722, 0, 0, -8_388_608]), (true, 2, 500_000));
    assert_eq!(detect_clipping(&[i32::MIN, 0, 0]), (true, 1, 333_333));
    assert_eq!(detect_clipping(&[i32::MAX]), (true, 1, 1_000_000));
}

#[test]
fn dc_offsets() {
    assert_eq!(calculate_dc_offset(&[]), 0);
    assert_eq!(calculate_dc_offset(&[10, 20, 30]), 20);
    assert_eq!(calculate_dc_offset(&[1, 2]), 1);
    assert_eq!(calculate_dc_offset(&[-1, -2]), -1);
    assert_eq!(calculate_dc_offset(&[-5, 5]), 0);
    assert_eq!(calculate_dc_offset(&[i32::MIN, i32::MIN]), i32::MIN);
    assert_eq!(calculate_dc_offset(&[i32::MAX, i32::MAX, i32::MAX]), i32::MAX);
}

#[test]
fn silence_around_a_signal() {
    let mut pcm = vec![0i32; 30];
    pcm[5] = 900;
    pcm[6] = -900;
    pcm[20] = 900;
    let (leading, trailing, gaps) = detect_silence(&pcm, 100, 100);
    assert_eq!(leading, 5);
    assert_eq!(trailing, 9);
    // The silence from 7 to 20 lasts 13 samples, more than a tenth of 100;
    // the five samples at the start do not.
    assert_eq!(gaps, vec![(7, 20)]);
}

#[test]
fn short_silences_are_no_gaps() {
    let mut pcm = vec![900i32; 40];
    for i in 10..20 {
        pcm[i] = 0;
    }
    for i in 25..36 {
        pcm[i] = 0;
    }
    // Ten samples are exactly a tenth of a second at 100 Hz; eleven are more.
    let (leading, trailing, gaps) = detect_silence(&pcm, 100, 100);
    assert_eq!((leading, trailing), (0, 0));
    assert_eq!(gaps, vec![(25, 36)]);
}

#[test]
fn silence_without_an_end_is_no_gap() {
    let mut pcm = vec![0i32; 50];
    pcm[0] = 500;
    let (leading, trailing, gaps) = detect_silence(&pcm, 100, 100);
    assert_eq!((leading, trailing), (0, 49));
    assert!(gaps.is_empty());
    let (leading, trailing, gaps) = detect_silence(&vec![0i32; 50], 100, 100);
    assert_eq!((leading, trailing), (0, 0));
    assert!(gaps.is_empty());
    let (leading, trailing, gaps) = detect_silence(&[], 100, 100);
    assert_eq!((leading, trailing), (0, 0));
    assert!(gaps.is_empty());
    // At the threshold a sample is silent.
    let (leading, _, _) = detect_silence(&[100, -100, 101], 100, 100);
    assert_eq!(leading, 2);
}

#[test]
fn dynamic_range_of_rising_levels() {
    // Windows of 10 samples with levels 1, 2, ... 20.
    let mut pcm = Vec::new();
    for level in 1..=20 {
        for _ in 0..10 {
            pcm.push(level);
        }
    }
    // Of twenty sorted levels, positions 2 and 18.
    assert_eq!(dynamic_range_levels(&pcm, 100), Some((3, 19)));
    assert_eq!(dynamic_range_levels(&[], 100), None);
    assert_eq!(dynamic_range_levels(&vec![0i32; 500], 100), None);
    assert_eq!(dynamic_range_levels(&[7], 100), Some((7, 7)));
}

#[test]
fn dynamic_range_skips_silent_windows() {
    let mut pcm = vec![0i32; 30];
    for i in 10..20 {
        pcm[i] = if i % 2 == 0 { 40 } else { -40 };
    }
    pcm.extend_from_slice(&[9, 9, 9]);
    // Levels 40 and, from the short last window, 9.
    assert_eq!(dynamic_range_levels(&pcm, 100), Some((9, 40)));
}

#[test]
fn technical_analysis_gathers_the_measures() {
    let mut pcm = vec![0i32; 40];
    for i in 10..30 {
        pcm[i] = if i % 2 == 0 { 8_388_608 } else { -8_388_608 };
    }
    let report =
        TechnicalAnalyzer::new(100).analyze_technical(&pcm, Some(5_000_000_000_000), 8_389);
    assert_eq!(report.true_peak, Some(4 * 8_388_608));
    assert!(!report.broadcast_compliant);
    assert!(report.has_clipping);
    assert_eq!(report.clipped_samples, 20);
    assert_eq!(report.clipping_share, 500_000);
    assert_eq!(report.dc_offset, 0);
    assert_eq!(report.leading_silence, 10);
    assert_eq!(report.trailing_silence, 10);
    assert!(report.silence_gaps.is_empty());
    assert_eq!(report.peak, 8_388_608);
    assert_eq!(report.dynamic_range, Some((8_388_608, 8_388_608)));
    assert_eq!(report.integrated_power, Some(5_000_000_000_000));
    assert!(report.loudness_on_target);
}

#[test]
fn technical_analysis_of_degenerate_signals() {
    let empty = TechnicalAnalyzer::new(44_100).analyze_technical(&[], None, 100);
    assert_eq!(empty.true_peak, None);
    assert!(empty.peak_locations.is_empty());
    assert!(empty.broadcast_compliant);
    assert_eq!((empty.has_clipping, empty.clipped_samples, empty.clipping_share), (false, 0, 0));
    assert_eq!(empty.dc_offset, 0);
    assert_eq!((empty.leading_silence, empty.trailing_silence), (0, 0));
    assert_eq!(empty.peak, 0);
    assert_eq!(empty.dynamic_range, None);
    assert!(!empty.loudness_on_target);
    // A sample rate below ten hertz leaves a tenth of a second empty.
    let slow = TechnicalAnalyzer::new(9).analyze_technical(&[5, 5, 5], None, 100);
    assert_eq!(slow.dynamic_range, None);
    assert_eq!(slow.true_peak, Some(20));
    assert_eq!(dynamic_range_levels(&[5, 5, 5], 0), None);
    let single = TechnicalAnalyzer::new(44_100).analyze_technical(&[-7], None, 100);
    assert_eq!(single.true_peak, Some(28));
    assert_eq!(single.peak, 7);
}

#[test]
fn loudness_target_runs_from_minus_sixteen_to_minus_eight() {
    let lufs = |p: u128| -0.691 + 10.0 * ((p as f64 + 7037.0) / 2f64.powi(46)).log10();
    let on_target = |p: u128| {
        TechnicalAnalyzer::new(44_100).analyze_technical(&[0], Some(p), 0).loudness_on_target
    };
    let low = 2_072_429_666_631u128 - 7037;
    let high = 13_076_147_190_791u128 - 7037;
    assert!((lufs(low) - -16.0).abs() < 1e-9);
    assert!((lufs(high) - -8.0).abs() < 1e-9);
    assert!(on_target(low));
    assert!(!on_target(low - 1));
    assert!(on_target(high));
    assert!(!on_target(high + 1));
    assert!(!on_target(0));
    assert!(!on_target(u128::MAX));
}

use loudness_wasm::stereo::{
    calculate_imaging_quality, calculate_mono_compatibility, calculate_phase_correlation,
    calculate_stereo_width, classify_imaging, extract_stereo_channels, StereoAnalyzer,
};

fn tone(n: usize, period: usize, amplitude: f64, phase: f64) -> Vec<i32> {
    (0..n)
        .map(|i| {
            let x = 2.0 * std::f64::consts::PI * i as f64 / period as f64 + phase;
            (amplitude * 8_388_608.0 * x.sin()).round() as i32
        })
        .collect()
}

#[test]
fn channels_are_split_in_order() {
    let pcm = [1, -1, 2, -2, 3, -3, 4];
    let (left, right) = extract_stereo_channels(&pcm, 44_100);
    assert_eq!(left, vec![1, 2, 3]);
    assert_eq!(right, vec![-1, -2, -3]);
    let (left, right) = extract_stereo_channels(&[], 44_100);
    assert!(left.is_empty() && right.is_empty());
}

#[test]
fn only_a_minute_is_taken() {
    let pcm = vec![5i32; 400];
    let (left, right) = extract_stereo_channels(&pcm, 2);
    assert_eq!(left.len(), 120);
    assert_eq!(right.len(), 120);
    let (left, _) = extract_stereo_channels(&pcm, 0);
    assert!(left.is_empty());
}

#[test]
fn equal_channels_are_in_phase() {
    let left = tone(4000, 100, 0.5, 0.0);
    let correlation = calculate_phase_correlation(&left, &left);
    assert!((999_990..=1_000_000).contains(&correlation), "{}", correlation);
    assert_eq!(calculate_stereo_width(&left, &left), 0);
    assert_eq!(calculate_mono_compatibility(&left, &left), 1_000_000);
}

#[test]
fn inverted_channels_are_out_of_phase() {
    let left = tone(4000, 100, 0.5, 0.0);
    let right: Vec<i32> = left.iter().map(|x| -x).collect();
    let correlation = calculate_phase_correlation(&left, &right);
    assert!((-1_000_000..=-999_990).contains(&correlation), "{}", correlation);
    assert_eq!(calculate_stereo_width(&left, &right), 1_000_000);
    assert_eq!(calculate_mono_compatibility(&left, &right), 0);
}

#[test]
fn channels_in_quadrature() {
    let left = tone(4000, 100, 0.5, 0.0);
    let right = tone(4000, 100, 0.5, std::f64::consts::FRAC_PI_2);
    let correlation = calculate_phase_correlation(&left, &right);
    assert!(correlation.abs() < 100, "{}", correlation);
    // Mid and side carry the same energy: width 2 * 0.5, kept 0.5.
    let width = calculate_stereo_width(&left, &right);
    assert!((999_000..=1_000_000).contains(&width), "{}", width);
    let kept = calculate_mono_compatibility(&left, &right);
    assert!((kept as i64 - 500_000).abs() < 100, "{}", kept);
}

#[test]
fn exact_small_measures() {
    // Cross 3 * 4 = 12, energies 9 and 16.
    assert_eq!(calculate_phase_correlation(&[3], &[4]), 1_000_000);
    // Cross 0 - 8 = -8, roots 3 (of 13) and 4 (of 16).
    assert_eq!(calculate_phase_correlation(&[3, 2], &[0, -4]), -666_666);
    // Cross 12, roots 3 (of 13) and 3 (of 9): 12 / 9 caps at one.
    assert_eq!(calculate_phase_correlation(&[3, 2], &[2, 3]), 1_000_000);
    // Cross 6, roots 2 and 5.
    assert_eq!(calculate_phase_correlation(&[2, 0], &[3, 4]), 600_000);
    // Side 2 * (3 - 1)^2 = 8 over mid 16 + side 4.
    assert_eq!(calculate_stereo_width(&[3], &[1]), 400_000);
    // Mono (3 + 1)^2 = 16 over 2 * (9 + 1).
    assert_eq!(calculate_mono_compatibility(&[3], &[1]), 800_000);
}

#[test]
fn degenerate_channels() {
    assert_eq!(calculate_phase_correlation(&[], &[]), 0);
    assert_eq!(calculate_phase_correlation(&[1, 2], &[1]), 0);
    assert_eq!(calculate_phase_correlation(&[0, 0], &[0, 0]), 0);
    assert_eq!(calculate_phase_correlation(&[5, 5], &[0, 0]), 0);
    assert_eq!(calculate_stereo_width(&[], &[]), 0);
    assert_eq!(calculate_stereo_width(&[0], &[0]), 0);
    assert_eq!(calculate_stereo_width(&[1, 2], &[1]), 0);
    assert_eq!(calculate_mono_compatibility(&[], &[]), 1_000_000);
    assert_eq!(calculate_mono_compatibility(&[0], &[0]), 1_000_000);
    assert_eq!(calculate_mono_compatibility(&[1], &[1, 2]), 1_000_000);
    assert_eq!(calculate_imaging_quality(&[], &[]), 0);
    assert_eq!(calculate_imaging_quality(&[1, 2], &[1]), 0);
}

#[test]
fn extreme_samples_do_not_overflow() {
    let left = vec![i32::MIN; 1000];
    let right = vec![i32::MAX; 1000];
    let correlation = calculate_phase_correlation(&left, &right);
    assert!((-1_000_000..=-999_999).contains(&correlation));
    assert_eq!(calculate_stereo_width(&left, &right), 1_000_000);
    assert!(calculate_mono_compatibility(&left, &right) < 10);
}

#[test]
fn imaging_grades() {
    assert_eq!(classify_imaging(1_000_000, 550_000, 1_000_000), "Professional");
    assert_eq!(classify_imaging(-1_000_000, 550_000, 1_000_000), "Professional");
    assert_eq!(classify_imaging(1_000_000, 549_999, 1_000_000), "High Quality");
    assert_eq!(classify_imaging(700_000, 700_000, 700_000), "High Quality");
    assert_eq!(classify_imaging(700_000, 700_000, 699_999), "Good");
    assert_eq!(classify_imaging(500_000, 500_000, 500_000), "Good");
    assert_eq!(classify_imaging(300_000, 300_000, 300_000), "Fair");
    assert_eq!(classify_imaging(0, 0, 899_999), "Poor");
    assert_eq!(classify_imaging(0, 0, 0), "Poor");
}

#[test]
fn imaging_quality_of_coherent_channels() {
    // Half-scale sines in phase: each window of 512 frames has correlation
    // one and energy 2 * 512 * 0.125, whose root is 11.3 and caps the mean.
    let left = tone(4096, 64, 0.5, 0.0);
    assert_eq!(calculate_imaging_quality(&left, &left), 1_000_000);
    // In quadrature the windows barely correlate.
    let right = tone(4096, 64, 0.5, std::f64::consts::FRAC_PI_2);
    let quality = calculate_imaging_quality(&left, &right);
    assert!(quality < 5_000, "{}", quality);
    // Silence has no window with energy.
    assert_eq!(calculate_imaging_quality(&vec![0; 2000], &vec![0; 2000]), 0);
}

#[test]
fn imaging_quality_of_a_quiet_recording() {
    // Constant 1000 on both channels: windows of 512 frames, energy
    // 2 * 512 * 10^6, root 32000; coherence 32000 / 2^23 of one whole.
    let left = vec![1000i32; 2048];
    let per_window = 1_000_000u64 * 32_000 / 8_388_608;
    assert_eq!(calculate_imaging_quality(&left, &left) as u64, per_window);
    // A recording no longer than one window has no window to measure.
    assert_eq!(calculate_imaging_quality(&left[..512], &left[..512]), 0);
    assert_eq!(calculate_imaging_quality(&left[..2], &left[..2]), 0);
    assert_eq!(calculate_imaging_quality(&left[..1], &left[..1]), 0);
    assert!(calculate_imaging_quality(&left[..513], &left[..513]) > 0);
}

#[test]
fn analysis_of_an_odd_buffer_is_mono() {
    let report = StereoAnalyzer::new(44_100).analyze_stereo(&[1, 2, 3]);
    assert!(report.is_mono);
    assert_eq!(report.channels, 1);
    assert_eq!(report.mono_compatibility, 1_000_000);
    assert_eq!(report.imaging_quality, "Perfect");
}

#[test]
fn analysis_of_a_stereo_buffer() {
    let left = tone(2048, 64, 0.5, 0.0);
    let mut pcm = Vec::new();
    for x in &left {
        pcm.push(*x);
        pcm.push(-*x);
    }
    let report = StereoAnalyzer::new(44_100).analyze_stereo(&pcm);
    assert!(!report.is_mono);
    assert_eq!(report.channels, 2);
    assert!(report.phase_correlation <= -999_990);
    assert_eq!(report.stereo_width, 1_000_000);
    assert_eq!(report.mono_compatibility, 0);
    assert_eq!(report.imaging_quality_score, 1_000_000);
    // (1 + 1 + 0) / 3 of one whole.
    assert_eq!(report.imaging_quality, "Good");
    let empty = StereoAnalyzer::new(44_100).analyze_stereo(&[]);
    assert!(!empty.is_mono);
    assert_eq!(empty.mono_compatibility, 1_000_000);
    assert_eq!(empty.imaging_quality, "Fair");
}

#[test]
fn analysis_of_a_single_frame() {
    let report = StereoAnalyzer::new(44_100).analyze_stereo(&[1000, 1000]);
    assert!(!report.is_mono);
    assert_eq!(report.phase_correlation, 1_000_000);
    assert_eq!(report.stereo_width, 0);
    assert_eq!(report.mono_compatibility, 1_000_000);
    assert_eq!(report.imaging_quality_score, 0);
    assert_eq!(report.imaging_quality, "Good");
    // Any sample rate will do.
    let fast = StereoAnalyzer::new(u32::MAX).analyze_stereo(&[1000, 1000, 1000, 1000]);
    assert_eq!(fast.phase_correlation, 1_000_000);
}

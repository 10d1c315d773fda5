use loudness_wasm::music::chroma::{
    estimate_tuning, fold_peaks, fold_spectrum, frame_offsets, peak_frequency, pick_peaks,
    ChromaExtractor, HpcpState,
};
use loudness_wasm::music::MusicAnalyzer;
use loudness_wasm::ranking::Ranked;

const FRAME: usize = 4096;

fn frame_with(bin: usize, value: u32) -> [u32; 12] {
    let mut f = [0u32; 12];
    f[bin] = value;
    f
}

/// Magnitude spectra, in millionths of full scale, of the frames of a sine:
/// Blackman-Harris window, transform divided by the frame length.
fn spectra_of_sine(freq: f64, frames: usize) -> Vec<Vec<u32>> {
    let pi = std::f64::consts::PI;
    let window: Vec<f64> = (0..FRAME)
        .map(|i| {
            let x = i as f64 / (FRAME - 1) as f64;
            0.35875 - 0.48829 * (2.0 * pi * x).cos() + 0.14128 * (4.0 * pi * x).cos()
                - 0.01168 * (6.0 * pi * x).cos()
        })
        .collect();
    let mut out = Vec::new();
    for f in 0..frames {
        let start = f * FRAME / 2;
        let samples: Vec<f64> = (0..FRAME)
            .map(|i| (2.0 * pi * freq * (start + i) as f64 / 44_100.0).sin() * window[i])
            .collect();
        let mut spectrum = vec![0u32; FRAME / 2];
        for k in 1..200 {
            let step = 2.0 * pi * k as f64 / FRAME as f64;
            let (mut re, mut im) = (0.0, 0.0);
            for (i, x) in samples.iter().enumerate() {
                re += x * (step * i as f64).cos();
                im += x * (step * i as f64).sin();
            }
            spectrum[k] = ((re * re + im * im).sqrt() / FRAME as f64 * 1e6).round() as u32;
        }
        out.push(spectrum);
    }
    out
}

fn strongest(chroma: &[u32; 12]) -> usize {
    let mut best = 0;
    for i in 1..12 {
        if chroma[i] > chroma[best] {
            best = i;
        }
    }
    best
}

#[test]
fn a4_sine_peaks_at_a() {
    let spectra = spectra_of_sine(440.0, 12);
    let chroma = ChromaExtractor::new(44_100).extract_advanced(&spectra, 4096, 1_000_000);
    assert_eq!(strongest(&chroma), 9);
    let total: i64 = chroma.iter().map(|x| *x as i64).sum();
    assert!((total - 1_000_000).abs() <= 6, "{}", total);
}

#[test]
fn a_sharp_sine_peaks_at_a_sharp() {
    let spectra = spectra_of_sine(466.16, 12);
    let chroma = ChromaExtractor::new(44_100).extract_advanced(&spectra, 4096, 1_000_000);
    assert_eq!(strongest(&chroma), 10);
}

#[test]
fn too_few_frames_give_the_zero_vector() {
    let spectra = spectra_of_sine(440.0, 9);
    let chroma = ChromaExtractor::new(44_100).extract_advanced(&spectra, 4096, 1_000_000);
    assert_eq!(chroma, [0u32; 12]);
    let none: Vec<Vec<u32>> = Vec::new();
    assert_eq!(ChromaExtractor::new(44_100).extract_advanced(&none, 4096, 1_000_000), [0u32; 12]);
}

#[test]
fn silent_frames_pool_to_zero() {
    let spectra = vec![vec![0u32; 2048]; 20];
    let chroma = ChromaExtractor::new(44_100).extract_advanced(&spectra, 4096, 1_000_000);
    assert_eq!(chroma, [0u32; 12]);
}

#[test]
fn extraction_is_repeatable() {
    let spectra = spectra_of_sine(440.0, 10);
    let extractor = ChromaExtractor::new(44_100);
    assert_eq!(
        extractor.extract_advanced(&spectra, 4096, 1_000_000),
        extractor.extract_advanced(&spectra, 4096, 1_000_000)
    );
}

#[test]
fn analysis_of_an_a4_sine() {
    let spectra = spectra_of_sine(440.0, 12);
    let report = MusicAnalyzer::new(44_100).analyze_music(&spectra, 4096, 1_000_000);
    assert_eq!(strongest(&report.chroma), 9);
    assert!(report.root < 12);
    assert!((50_000..=950_000).contains(&report.confidence));
    let notes = ["C", "C#", "D", "D#", "E", "F", "F#", "G", "G#", "A", "A#", "B"];
    let mode = if report.is_major { "Major" } else { "Minor" };
    assert_eq!(report.key, format!("{} {}", notes[report.root], mode));
    assert!(report.scales.len() <= 8);
    assert!(report.tonal_clarity > 0);
    assert!(report.harmonic_complexity > 0);
}

#[test]
fn analyzer_settings() {
    let mut analyzer = MusicAnalyzer::new(48_000);
    assert_eq!(analyzer.sample_rate, 48_000);
    assert!(analyzer.skey_enabled);
    analyzer.set_skey_enabled(false);
    assert!(!analyzer.skey_enabled);
    assert_eq!(analyzer.sample_rate, 48_000);
}

#[test]
fn history_becomes_ready_at_ten_frames() {
    let mut state = HpcpState::new();
    assert_eq!(state.len(), 0);
    for i in 0..9 {
        state.push(frame_with(i % 12, 1_000_000));
        assert!(!state.is_ready());
        assert_eq!(state.pooled(), [0u32; 12]);
    }
    state.push(frame_with(0, 1_000_000));
    assert!(state.is_ready());
    assert_eq!(state.len(), 10);
}

#[test]
fn history_drops_the_oldest_frame_when_full() {
    let mut state = HpcpState::new();
    for i in 0..50u32 {
        state.push(frame_with(0, i));
    }
    assert_eq!(state.len(), 50);
    assert_eq!(state.frame(0), frame_with(0, 0));
    assert_eq!(state.frame(49), frame_with(0, 49));
    state.push(frame_with(0, 50));
    assert_eq!(state.len(), 50);
    assert_eq!(state.frame(0), frame_with(0, 1));
    assert_eq!(state.frame(49), frame_with(0, 50));
    for i in 51..175u32 {
        state.push(frame_with(0, i));
    }
    assert_eq!(state.len(), 50);
    for i in 0..50usize {
        assert_eq!(state.frame(i), frame_with(0, 125 + i as u32));
    }
}

#[test]
fn pooled_profile_sums_to_one() {
    let mut state = HpcpState::new();
    let mut seed: u64 = 7;
    for _ in 0..37 {
        let mut f = [0u32; 12];
        for bin in f.iter_mut() {
            seed = seed.wrapping_mul(6364136223846793005).wrapping_add(1442695040888963407);
            *bin = ((seed >> 33) % 150_000) as u32;
        }
        state.push(f);
        if state.is_ready() {
            let pooled = state.pooled();
            let total: i64 = pooled.iter().map(|x| *x as i64).sum();
            assert!((total - 1_000_000).abs() <= 6, "{}", total);
        }
    }
}

#[test]
fn pooling_mixes_median_and_mean() {
    let mut state = HpcpState::new();
    // Bin 0: nine frames of 100_000 and one of 600_000;
    // median 100_000, mean 150_000, pooled 0.7 * 100_000 + 0.3 * 150_000 = 115_000.
    // Bin 1: always 200_000, pooled 200_000.
    for i in 0..10 {
        let mut f = [0u32; 12];
        f[0] = if i == 3 { 600_000 } else { 100_000 };
        f[1] = 200_000;
        state.push(f);
    }
    let pooled = state.pooled();
    // 115 / 315 and 200 / 315 of one whole.
    assert_eq!(pooled[0], 365_079);
    assert_eq!(pooled[1], 634_921);
    assert_eq!(&pooled[2..], &[0u32; 10]);
}

#[test]
fn pooling_an_odd_number_of_frames() {
    let mut state = HpcpState::new();
    for i in 0..11u32 {
        let mut f = [0u32; 12];
        f[4] = 10 * i;
        f[7] = if i < 6 { 0 } else { 500 };
        state.push(f);
    }
    let pooled = state.pooled();
    // Bin 4: median 50, mean 50. Bin 7: median 0, mean 2500 / 11.
    let a = 50.0;
    let b = 0.3 * 2500.0 / 11.0;
    assert_eq!(pooled[4], (a / (a + b) * 1e6f64).round() as u32);
    assert_eq!(pooled[7], (b / (a + b) * 1e6f64).round() as u32);
}

#[test]
fn peaks_are_local_maxima_in_the_band() {
    let mut spectrum = vec![0u32; 2048];
    spectrum[41] = 50_000; // 441 Hz
    spectrum[40] = 20_000;
    spectrum[42] = 20_000;
    spectrum[100] = 900; // below the threshold
    spectrum[120] = 1001;
    spectrum[3] = 80_000; // 32 Hz, below the band
    spectrum[300] = 80_000; // 3230 Hz, above the band
    spectrum[150] = 7_000;
    spectrum[152] = 7_000; // neither exceeds the other
    let peaks = pick_peaks(&spectrum, 44_100, 4096);
    let got: Vec<(u32, usize)> = peaks.iter().map(|p| (p.score, p.tag)).collect();
    assert_eq!(got, vec![(50_000, 41), (1001, 120)]);
}

#[test]
fn only_the_fifty_strongest_peaks_stay() {
    let mut spectrum = vec![0u32; 2048];
    let mut expected = Vec::new();
    for i in 0..60usize {
        let bin = 7 + 3 * i;
        spectrum[bin] = 2_000 + (i as u32 % 7) * 1_000;
        expected.push((spectrum[bin], bin));
    }
    expected.sort_by(|a, b| b.0.cmp(&a.0).then(a.1.cmp(&b.1)));
    expected.truncate(50);
    let peaks = pick_peaks(&spectrum, 44_100, 4096);
    let got: Vec<(u32, usize)> = peaks.iter().map(|p| (p.score, p.tag)).collect();
    assert_eq!(got, expected);
}

#[test]
fn short_spectra_have_no_peaks() {
    assert!(pick_peaks(&[], 44_100, 4096).is_empty());
    assert!(pick_peaks(&[0, 0, 9_000, 0], 44_100, 8).is_empty());
    let peaks = pick_peaks(&[0, 0, 9_000, 0, 0], 100, 2);
    assert_eq!(peaks.len(), 1);
}

#[test]
fn peak_frequencies() {
    assert_eq!(peak_frequency(41, 44_100, 4096, 1_000_000), 441_430);
    assert_eq!(peak_frequency(0, 44_100, 4096, 1_000_000), 0);
    assert_eq!(peak_frequency(4096, 4_000_000, 4096, 1_029_302), 4_117_208_000);
    // 441.43 Hz against a reference tuned fifty cents sharp.
    assert_eq!(peak_frequency(41, 44_100, 4096, 971_532), 428_864);
}

#[test]
fn folding_spreads_a_peak_over_its_subharmonics() {
    // Bin 41 of 4096 at 44.1 kHz is 441.43 Hz.
    let frame = fold_peaks(&[Ranked { score: 100_000, tag: 41 }], 44_100, 4096, 1_000_000);
    // A: 1 + 1/sqrt 2 + 1/sqrt 4 + 1/sqrt 8; D: 1/sqrt 3 + 1/sqrt 6;
    // F: 1/sqrt 5; B: 1/sqrt 7.
    let a: f64 = 1.0 + 0.707107 + 0.5 + 0.353553;
    let d: f64 = 0.577350 + 0.408248;
    let f: f64 = 0.447214;
    let b: f64 = 0.377964;
    let whole = a + d + f + b;
    let expect = |x: f64| (x / whole * 1e6).round() as i64;
    assert!((frame[9] as i64 - expect(a)).abs() <= 1);
    assert!((frame[2] as i64 - expect(d)).abs() <= 1);
    assert!((frame[5] as i64 - expect(f)).abs() <= 1);
    assert!((frame[11] as i64 - expect(b)).abs() <= 1);
    let total: i64 = frame.iter().map(|x| *x as i64).sum();
    assert!((total - 1_000_000).abs() <= 6);
    assert_eq!(fold_peaks(&[], 44_100, 4096, 1_000_000), [0u32; 12]);
}

#[test]
fn frame_of_a_spectrum() {
    let mut spectrum = vec![0u32; 2048];
    spectrum[41] = 100_000;
    let frame = fold_spectrum(&spectrum, 44_100, 4096, 1_000_000);
    assert_eq!(frame, fold_peaks(&[Ranked { score: 100_000, tag: 41 }], 44_100, 4096, 1_000_000));
    assert_eq!(fold_spectrum(&vec![0u32; 2048], 44_100, 4096, 1_000_000), [0u32; 12]);
}

#[test]
fn tuning_follows_the_best_score() {
    assert_eq!(estimate_tuning(&[0; 11]), (-50, 1_029_302));
    let mut scores = [1u64; 11];
    scores[5] = 9;
    assert_eq!(estimate_tuning(&scores), (0, 1_000_000));
    scores[10] = 10;
    assert_eq!(estimate_tuning(&scores), (50, 971_532));
    scores[2] = 10;
    assert_eq!(estimate_tuning(&scores), (-30, 1_017_480));
}

#[test]
fn frames_lie_within_the_recording() {
    assert_eq!(frame_offsets(4095, 4096, 2048, 1_000_000), Vec::<usize>::new());
    assert_eq!(frame_offsets(4096, 4096, 2048, 1_000_000), vec![0]);
    assert_eq!(frame_offsets(10_000, 4096, 2048, 1_000_000), vec![0, 2048, 4096]);
    assert_eq!(frame_offsets(10_000, 4096, 2048, 6144), vec![0, 2048]);
    assert_eq!(frame_offsets(10_000, 0, 2048, 6144), Vec::<usize>::new());
    assert_eq!(frame_offsets(10_000, 4096, 0, 6144), Vec::<usize>::new());
    assert_eq!(frame_offsets(0, 4096, 2048, 6144), Vec::<usize>::new());
}

#[test]
fn the_network_is_preferred_when_confident() {
    let mut analyzer = MusicAnalyzer::new(44_100);
    let voted = (0usize, true, 500_000u32);
    let strong = (9usize, false, 400_001u32);
    assert_eq!(analyzer.choose_key(voted, Some(strong)), (strong, true));
    // Exactly four fifths of the voted confidence is not enough.
    let level = (9usize, false, 400_000u32);
    assert_eq!(analyzer.choose_key(voted, Some(level)), (voted, false));
    // Against a weak vote a tenth is the bar.
    let weak_vote = (0usize, true, 399_999u32);
    assert_eq!(analyzer.choose_key(weak_vote, Some((2, true, 100_001))), ((2, true, 100_001), true));
    assert_eq!(analyzer.choose_key(weak_vote, Some((2, true, 100_000))), (weak_vote, false));
    assert_eq!(analyzer.choose_key(voted, None), (voted, false));
    analyzer.set_skey_enabled(false);
    assert_eq!(analyzer.choose_key(voted, Some(strong)), (voted, false));
}

#[test]
fn zero_crossing_rates() {
    let analyzer = MusicAnalyzer::new(44_100);
    assert_eq!(analyzer.calculate_zero_crossing_rate_skey(&[], 0), 500_000);
    assert_eq!(analyzer.calculate_zero_crossing_rate_skey(&[5, -5], 1), 500_000);
    assert_eq!(analyzer.calculate_zero_crossing_rate_skey(&[5, -5], 2), 1_000_000);
    // One crossing among four neighbours, doubled.
    assert_eq!(analyzer.calculate_zero_crossing_rate_skey(&[1, 2, 0, -1, -2], 5), 500_000);
    // Zero counts as positive; only the first four samples are read.
    assert_eq!(analyzer.calculate_zero_crossing_rate_skey(&[1, 0, 1, 0, -9], 4), 0);
    assert_eq!(analyzer.calculate_zero_crossing_rate_skey(&[3, 3, 3, -3, -3, -3, -3], 7), 333_333);
}

#[test]
fn hybrid_detection_keeps_a_confident_vote() {
    let analyzer = MusicAnalyzer::new(44_100);
    let c_major =
        [151950u32, 53362, 83274, 55755, 104810, 97870, 60302, 124192, 57191, 87581, 54798, 68916];
    // The vote for C major has confidence 0.95.
    assert_eq!(analyzer.detect_key_hybrid(&c_major, Some((9, false, 1_000_000))), (0, true, 950_000));
    // A flat vector votes with confidence 0.5.
    let flat = [83_333u32; 12];
    assert_eq!(analyzer.detect_key_hybrid(&flat, None), (0, true, 500_000));
    assert_eq!(analyzer.detect_key_hybrid(&flat, Some((9, false, 600_000))), (0, true, 500_000));
    assert_eq!(analyzer.detect_key_hybrid(&flat, Some((9, false, 600_001))), (9, false, 600_001));
}

#[test]
fn auxiliary_features_need_a_long_enough_recording() {
    let analyzer = MusicAnalyzer::new(44_100);
    assert_eq!(analyzer.auxiliary_window(0), None);
    assert_eq!(analyzer.auxiliary_window(4095), None);
    assert_eq!(analyzer.auxiliary_window(4096), Some(1024));
    assert_eq!(analyzer.auxiliary_window(4099), Some(1024));
    assert_eq!(analyzer.auxiliary_window(352_799), Some(88_199));
    assert_eq!(analyzer.auxiliary_window(352_800), Some(88_200));
    assert_eq!(analyzer.auxiliary_window(10_000_000), Some(88_200));
    assert_eq!(analyzer.auxiliary_window(usize::MAX), Some(88_200));
}

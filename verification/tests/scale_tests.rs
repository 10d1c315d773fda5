use loudness_wasm::music::scale_analysis::{ScaleAnalyzer, ScalePattern};
use loudness_wasm::music::MusicAnalyzer;

const C_MAJOR_PROFILE: [u32; 12] =
    [151950, 53362, 83274, 55755, 104810, 97870, 60302, 124192, 57191, 87581, 54798, 68916];
const C_MAJOR_NOTES: [u32; 12] =
    [142857, 0, 142857, 0, 142857, 142857, 0, 142857, 0, 142857, 0, 142857];

#[test]
fn major_template_ranks_c_major_first() {
    let matches = ScaleAnalyzer::new().analyze_scales(&C_MAJOR_PROFILE, 0);
    let got: Vec<(&str, u32)> = matches.iter().map(|m| (m.name.as_str(), m.strength)).collect();
    assert_eq!(
        got,
        vec![
            ("C Major", 519330),
            ("G Mixolydian", 510552),
            ("C Pentatonic Major", 509539),
            ("F Lydian", 506559),
            ("C Mixolydian", 505688),
            ("A Natural Minor", 505264),
            ("D Dorian", 504393),
            ("F Pentatonic Major", 493945),
        ]
    );
    assert_eq!(matches[0].root, 0);
    assert_eq!(matches[0].pattern, ScalePattern::Major);
    for other in &matches[1..] {
        assert!(matches[0].strength > other.strength);
    }
}

#[test]
fn pure_scale_notes_fit_in_full() {
    let matches = ScaleAnalyzer::new().analyze_scales(&C_MAJOR_NOTES, 5);
    let got: Vec<(&str, u32)> = matches.iter().map(|m| (m.name.as_str(), m.strength)).collect();
    assert_eq!(
        got,
        vec![
            ("C Major", 1000000),
            ("A Natural Minor", 1000000),
            ("D Dorian", 1000000),
            ("F Lydian", 1000000),
            ("G Mixolydian", 1000000),
            ("G Major", 715107),
            ("C Mixolydian", 715107),
            ("D Natural Minor", 713067),
        ]
    );
}

#[test]
fn detected_root_plays_no_part() {
    let analyzer = ScaleAnalyzer::new();
    let a: Vec<(String, u32)> = analyzer
        .analyze_scales(&C_MAJOR_PROFILE, 0)
        .into_iter()
        .map(|m| (m.name, m.strength))
        .collect();
    let b: Vec<(String, u32)> = analyzer
        .analyze_scales(&C_MAJOR_PROFILE, 11)
        .into_iter()
        .map(|m| (m.name, m.strength))
        .collect();
    assert_eq!(a, b);
}

#[test]
fn silence_matches_no_scale() {
    assert!(ScaleAnalyzer::new().analyze_scales(&[0; 12], 0).is_empty());
}

#[test]
fn at_most_eight_matches_in_descending_order() {
    let analyzer = ScaleAnalyzer::new();
    let mut seed: u64 = 99;
    for _ in 0..20 {
        let mut chroma = [0u32; 12];
        for bin in chroma.iter_mut() {
            seed = seed.wrapping_mul(6364136223846793005).wrapping_add(1442695040888963407);
            *bin = ((seed >> 33) % 200_000) as u32;
        }
        let matches = analyzer.analyze_scales(&chroma, 0);
        assert!(matches.len() <= 8);
        for pair in matches.windows(2) {
            assert!(pair[0].strength >= pair[1].strength);
        }
        for m in &matches {
            assert!(m.strength > 100_000 && m.strength <= 1_000_000);
            let fit = analyzer.calculate_scale_fit_corrected(&chroma, m.pattern.intervals(), m.root);
            assert_eq!(fit, m.strength);
        }
    }
}

#[test]
fn scale_fit_values() {
    let analyzer = ScaleAnalyzer::new();
    let major = [0usize, 2, 4, 5, 7, 9, 11];
    assert_eq!(analyzer.calculate_scale_fit_corrected(&C_MAJOR_PROFILE, &major, 0), 519_330);
    assert_eq!(analyzer.calculate_scale_fit_corrected(&C_MAJOR_NOTES, &major, 0), 1_000_000);
    assert_eq!(analyzer.calculate_scale_fit_corrected(&C_MAJOR_PROFILE, &[], 0), 0);
    assert_eq!(analyzer.calculate_scale_fit_corrected(&[0; 12], &major, 0), 0);
    let all = [0usize, 1, 2, 3, 4, 5, 6, 7, 8, 9, 10, 11];
    assert_eq!(analyzer.calculate_scale_fit_corrected(&C_MAJOR_PROFILE, &all, 0), 1_000_000);
}

#[test]
fn scale_fit_follows_the_formula() {
    let analyzer = ScaleAnalyzer::new();
    let pentatonic = [0usize, 3, 5, 7, 10];
    let chroma = [200_000u32, 50_000, 0, 150_000, 25_000, 100_000, 0, 300_000, 0, 75_000, 100_000, 0];
    let root = 0usize;
    let weight = |i: usize| match i {
        0 => 3.0,
        3 | 4 | 7 => 2.0,
        2 | 9 => 1.5,
        5 | 10 => 1.3,
        _ => 1.0,
    };
    let mut inside = 0.0;
    let mut outside = 0.0;
    for i in 0..12 {
        let energy = chroma[i] as f64 / 1e6;
        let interval = (i + 12 - root) % 12;
        if pentatonic.contains(&interval) {
            inside += energy * weight(interval);
        } else {
            outside += 2.0 * energy;
        }
    }
    let i = inside / 5.0;
    let o = outside / 7.0;
    let exact = (i / (i + o)).powf(0.8) / (1.0 + 3.0 * o) * 1e6;
    let got = analyzer.calculate_scale_fit_corrected(&chroma, &pentatonic, root) as f64;
    assert!((got - exact).abs() < 3.0, "{} {}", got, exact);
}

#[test]
fn out_of_scale_energy_only_has_no_fit() {
    let analyzer = ScaleAnalyzer::new();
    let mut chroma = [0u32; 12];
    chroma[1] = 1_000_000;
    assert_eq!(analyzer.calculate_scale_fit_corrected(&chroma, &[0, 2, 4, 5, 7, 9, 11], 0), 0);
    // Rooted on C sharp the same energy is the tonic.
    assert_eq!(
        analyzer.calculate_scale_fit_corrected(&chroma, &[0, 2, 4, 5, 7, 9, 11], 1),
        1_000_000
    );
}

#[test]
fn pattern_names_and_intervals() {
    assert_eq!(ScalePattern::Major.name(), "Major");
    assert_eq!(ScalePattern::Blues.name(), "Blues");
    assert_eq!(ScalePattern::PentatonicMinor.name(), "Pentatonic Minor");
    assert_eq!(ScalePattern::Major.intervals(), &[0, 2, 4, 5, 7, 9, 11]);
    assert_eq!(ScalePattern::Blues.intervals(), &[0, 3, 5, 6, 7, 10]);
    assert_eq!(ScalePattern::HarmonicMinor.intervals(), &[0, 2, 3, 5, 7, 8, 11]);
}

#[test]
fn scale_categories() {
    let analyzer = MusicAnalyzer::new(44_100);
    assert_eq!(analyzer.categorize_scale("C Major"), "Major Family");
    assert_eq!(analyzer.categorize_scale("F Lydian"), "Major Family");
    assert_eq!(analyzer.categorize_scale("C Pentatonic Major"), "Major Family");
    assert_eq!(analyzer.categorize_scale("A Natural Minor"), "Minor Family");
    assert_eq!(analyzer.categorize_scale("D Dorian"), "Minor Family");
    assert_eq!(analyzer.categorize_scale("E Pentatonic Minor"), "Minor Family");
    assert_eq!(analyzer.categorize_scale("E Pentatonic"), "Pentatonic");
    assert_eq!(analyzer.categorize_scale("E Blues"), "Blues");
    assert_eq!(analyzer.categorize_scale("B Locrian"), "Diminished");
    assert_eq!(analyzer.categorize_scale("D Hungarian"), "World/Exotic");
    assert_eq!(analyzer.categorize_scale("Whole Tone"), "Other");
    assert_eq!(analyzer.categorize_scale(""), "Other");
}

#[test]
fn clarity_and_complexity() {
    let analyzer = MusicAnalyzer::new(44_100);
    assert_eq!(analyzer.calculate_tonal_clarity(&[0; 12]), 0);
    assert_eq!(analyzer.calculate_harmonic_complexity(&[0; 12]), 0);
    let mut peak = [0u32; 12];
    peak[9] = 1_000_000;
    assert_eq!(analyzer.calculate_tonal_clarity(&peak), 1_000_000);
    assert_eq!(analyzer.calculate_harmonic_complexity(&peak), 83_333);
    let flat = [83_333u32; 12];
    assert_eq!(analyzer.calculate_tonal_clarity(&flat), 100_000);
    assert_eq!(analyzer.calculate_harmonic_complexity(&flat), 1_000_000);
    // Greatest bin 151950 of a sum of 1000001: 12 * 0.15195 / 10.
    assert_eq!(analyzer.calculate_tonal_clarity(&C_MAJOR_PROFILE), 182_339);
    // Every bin is above 0.3 * 151950.
    assert_eq!(analyzer.calculate_harmonic_complexity(&C_MAJOR_PROFILE), 1_000_000);
    assert_eq!(analyzer.calculate_harmonic_complexity(&C_MAJOR_NOTES), 583_333);
}

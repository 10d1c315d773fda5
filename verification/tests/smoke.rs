use loudness_wasm::add;
use loudness_wasm::numeric::{isqrt, pow_four_fifths, UNIT};
use loudness_wasm::order::select_kth;
use loudness_wasm::ranking::{insert_ranked, outranks, Ranked};
use loudness_wasm::utils::{
    calculate_enhanced_correlation, calculate_rms, freq_to_pitch_class_precise, normalize_vector,
    sum_of,
};

#[test]
fn it_works() {
    let result = add(2, 2);
    assert_eq!(result, 4);
}

#[test]
fn add_reaches_the_top_of_the_range() {
    assert_eq!(add(u64::MAX - 1, 1), u64::MAX);
    assert_eq!(add(0, 0), 0);
}

#[test]
fn isqrt_rounds_down() {
    assert_eq!(isqrt(0), 0);
    assert_eq!(isqrt(1), 1);
    assert_eq!(isqrt(3), 1);
    assert_eq!(isqrt(4), 2);
    assert_eq!(isqrt(99), 9);
    assert_eq!(isqrt(1_000_000_000_000), 1_000_000);
    assert_eq!(isqrt(999_999_999_999), 999_999);
    assert_eq!(isqrt(u128::MAX), u64::MAX);
}

#[test]
fn four_fifths_power_matches_the_real_power() {
    assert_eq!(pow_four_fifths(0), 0);
    assert_eq!(pow_four_fifths(1), 15);
    assert_eq!(pow_four_fifths(250_000), 329_876);
    assert_eq!(pow_four_fifths(500_000), 574_349);
    assert_eq!(pow_four_fifths(UNIT), UNIT);
    for share in [10u32, 1234, 99_999, 333_333, 750_000, 999_999] {
        let exact = (share as f64 / 1e6).powf(0.8) * 1e6;
        let got = pow_four_fifths(share) as f64;
        assert!(got <= exact + 1e-6 && exact < got + 1.0, "{} {}", got, exact);
    }
}

#[test]
fn select_kth_picks_the_sorted_position() {
    let values = [5u32, 1, 4, 1, 9, 2, 6];
    let mut sorted = values.to_vec();
    sorted.sort();
    for k in 0..values.len() {
        assert_eq!(select_kth(&values, k), sorted[k]);
    }
    assert_eq!(select_kth(&[7], 0), 7);
    assert_eq!(select_kth(&[3, 3, 3], 1), 3);
}

#[test]
fn ranked_insertion_keeps_the_best_in_order() {
    let mut top: Vec<Ranked> = Vec::new();
    let scores = [5u32, 9, 5, 1, 9, 7];
    for (tag, score) in scores.iter().enumerate() {
        insert_ranked(&mut top, Ranked { score: *score, tag }, 4);
    }
    let got: Vec<(u32, usize)> = top.iter().map(|r| (r.score, r.tag)).collect();
    assert_eq!(got, vec![(9, 1), (9, 4), (7, 5), (5, 0)]);
    assert!(outranks(Ranked { score: 2, tag: 9 }, Ranked { score: 1, tag: 0 }));
    assert!(outranks(Ranked { score: 2, tag: 1 }, Ranked { score: 2, tag: 3 }));
    assert!(!outranks(Ranked { score: 2, tag: 3 }, Ranked { score: 2, tag: 3 }));
}

#[test]
fn normalize_vector_scales_to_one_whole() {
    let mut v = [635u32, 223, 348, 233, 438, 409, 252, 519, 239, 366, 229, 288];
    normalize_vector(&mut v);
    assert_eq!(
        v,
        [151950, 53362, 83274, 55755, 104810, 97870, 60302, 124192, 57191, 87581, 54798, 68916]
    );
    let total: i64 = v.iter().map(|x| *x as i64).sum();
    assert!((total - 1_000_000).abs() <= 6);
    assert_eq!(sum_of(&v), total as u128);
}

#[test]
fn normalize_vector_leaves_zero_alone() {
    let mut v = [0u32; 12];
    normalize_vector(&mut v);
    assert_eq!(v, [0u32; 12]);
    let mut one = [7u32];
    normalize_vector(&mut one);
    assert_eq!(one, [1_000_000]);
    let mut none: [u32; 0] = [];
    normalize_vector(&mut none);
}

#[test]
fn rms_of_signals() {
    assert_eq!(calculate_rms(&[]), 0);
    assert_eq!(calculate_rms(&[3, -3, 3, -3]), 3);
    assert_eq!(calculate_rms(&[3, 4]), 3);
    assert_eq!(calculate_rms(&[i32::MIN, i32::MIN]), 2_147_483_648);
    assert_eq!(calculate_rms(&[0, 0, 0]), 0);
}

#[test]
fn pitch_classes_of_reference_tones() {
    assert_eq!(freq_to_pitch_class_precise(0), 0);
    assert_eq!(freq_to_pitch_class_precise(440_000), 9);
    assert_eq!(freq_to_pitch_class_precise(466_160), 10);
    assert_eq!(freq_to_pitch_class_precise(261_626), 0);
    assert_eq!(freq_to_pitch_class_precise(220_000), 9);
    assert_eq!(freq_to_pitch_class_precise(880_000), 9);
    assert_eq!(freq_to_pitch_class_precise(493_883), 11);
    assert_eq!(freq_to_pitch_class_precise(1), 0);
}

#[test]
fn pitch_classes_follow_the_logarithm() {
    let mut freq: u32 = 20_000;
    while freq < 5_000_000 {
        let semis = (12.0 * (freq as f64 / 440_000.0).log2() + 9.0).round() as i64;
        let expected = semis.rem_euclid(12) as usize;
        assert_eq!(freq_to_pitch_class_precise(freq), expected, "{}", freq);
        freq += 7_919;
    }
}

#[test]
fn pitch_class_changes_at_the_quarter_tone() {
    // A4 up by half a semitone is 452.8929841 Hz.
    assert_eq!(freq_to_pitch_class_precise(452_892), 9);
    assert_eq!(freq_to_pitch_class_precise(452_893), 10);
}

#[test]
fn correlation_of_a_profile_with_itself_is_one() {
    let ks = [635u32, 223, 348, 233, 438, 409, 252, 519, 239, 366, 229, 288];
    assert_eq!(calculate_enhanced_correlation(&ks, &ks, 0), 1_000_000);
    let chroma =
        [151950u32, 53362, 83274, 55755, 104810, 97870, 60302, 124192, 57191, 87581, 54798, 68916];
    assert_eq!(calculate_enhanced_correlation(&chroma, &ks, 0), 999_999);
    assert_eq!(calculate_enhanced_correlation(&chroma, &ks, 7), 590_975);
    let minor = [633u32, 268, 352, 538, 260, 353, 254, 475, 398, 269, 334, 317];
    assert_eq!(calculate_enhanced_correlation(&chroma, &minor, 0), 512_130);
}

#[test]
fn correlation_of_a_flat_vector_is_zero() {
    let ks = [635u32, 223, 348, 233, 438, 409, 252, 519, 239, 366, 229, 288];
    assert_eq!(calculate_enhanced_correlation(&[0; 12], &ks, 0), 0);
    assert_eq!(calculate_enhanced_correlation(&[500; 12], &ks, 3), 0);
    assert_eq!(calculate_enhanced_correlation(&ks, &[7; 12], 3), 0);
}

#[test]
fn correlation_can_be_negative() {
    let up = [0u32, 1, 2, 3, 4, 5, 6, 7, 8, 9, 10, 11];
    let down = [11u32, 10, 9, 8, 7, 6, 5, 4, 3, 2, 1, 0];
    assert_eq!(calculate_enhanced_correlation(&up, &down, 0), -1_000_000);
    assert_eq!(calculate_enhanced_correlation(&up, &up, 0), 1_000_000);
}

#[test]
fn correlation_at_the_limits_of_its_inputs() {
    let mut chroma = [0u32; 12];
    chroma[0] = 1_000_000;
    let mut profile = [0u32; 12];
    profile[0] = 10_000;
    assert_eq!(calculate_enhanced_correlation(&chroma, &profile, 0), 1_000_000);
    let r = calculate_enhanced_correlation(&chroma, &profile, 1);
    let exact = -1.0 / 11.0 * 1e6;
    assert!((r as f64 - exact).abs() <= 1.0, "{}", r);
}

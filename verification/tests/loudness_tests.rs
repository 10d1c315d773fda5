use loudness_wasm::loudness::{
    block_energy, integrated_power, max_power, measure_blocks, FilterState, LoudnessAnalyzer,
};

const FULL_SCALE: f64 = 8_388_608.0;

fn lufs(power: u128) -> f64 {
    -0.691 + 10.0 * ((power as f64 + 7037.0) / (FULL_SCALE * FULL_SCALE)).log10()
}

fn sine(freq: f64, seconds: f64, amplitude: f64) -> Vec<i32> {
    let n = (44_100.0 * seconds) as usize;
    (0..n)
        .map(|i| {
            let t = i as f64 / 44_100.0;
            (amplitude * FULL_SCALE * (2.0 * std::f64::consts::PI * freq * t).sin()).round() as i32
        })
        .collect()
}

/// The squared gain of the K-weighting filter at `freq`, from its transfer
/// function.
fn filter_gain_squared(freq: f64) -> f64 {
    let (b0, b1, b2) = (1.5351249, -2.6916962, 1.1983928);
    let (a1, a2) = (-1.6906593, 0.73248076);
    let w = 2.0 * std::f64::consts::PI * freq / 44_100.0;
    let re = |c0: f64, c1: f64, c2: f64| c0 + c1 * w.cos() + c2 * (2.0 * w).cos();
    let im = |c1: f64, c2: f64| -(c1 * w.sin() + c2 * (2.0 * w).sin());
    let num = re(b0, b1, b2).powi(2) + im(b1, b2).powi(2);
    let den = re(1.0, a1, a2).powi(2) + im(a1, a2).powi(2);
    num / den
}

#[test]
fn silence_has_no_loudness() {
    let samples = vec![0i32; 44_100 * 4];
    let result = LoudnessAnalyzer::new(1).analyze(&samples);
    assert_eq!(result.momentary, None);
    assert_eq!(result.short_term, None);
    assert_eq!(result.integrated, None);
    assert_eq!(result.gated_blocks, 0);
    let stereo = LoudnessAnalyzer::new(2).analyze(&samples);
    assert_eq!(stereo.integrated, None);
    assert_eq!(stereo.gated_blocks, 0);
}

#[test]
fn full_scale_sine_has_its_nominal_loudness() {
    let samples = sine(1000.0, 5.0, 1.0);
    let result = LoudnessAnalyzer::new(1).analyze(&samples);
    let expected = -0.691 + 10.0 * (0.5 * filter_gain_squared(1000.0)).log10();
    let integrated = lufs(result.integrated.unwrap());
    assert!(integrated.is_finite());
    assert!((integrated - expected).abs() < 0.1, "{} {}", integrated, expected);
    assert!((integrated - -3.0).abs() < 3.0);
    let momentary = lufs(result.momentary.unwrap());
    let short_term = lufs(result.short_term.unwrap());
    assert!((momentary - expected).abs() < 0.2);
    assert!((short_term - expected).abs() < 0.1);
    // 5 s hold (220500 - 17640) / 4410 + 1 momentary blocks.
    assert_eq!(result.gated_blocks, 47);
}

#[test]
fn analysis_is_repeatable() {
    let samples = sine(440.0, 1.0, 0.25);
    let analyzer = LoudnessAnalyzer::new(1);
    let first = analyzer.analyze(&samples);
    let second = analyzer.analyze(&samples);
    assert_eq!(first.momentary, second.momentary);
    assert_eq!(first.short_term, second.short_term);
    assert_eq!(first.integrated, second.integrated);
    assert_eq!(first.gated_blocks, second.gated_blocks);
}

#[test]
fn short_buffer_lacks_only_the_long_measure() {
    let samples = sine(1000.0, 1.0, 0.5);
    let result = LoudnessAnalyzer::new(1).analyze(&samples);
    assert!(result.momentary.is_some());
    assert!(result.integrated.is_some());
    assert_eq!(result.short_term, None);
    // (44100 - 17640) / 4410 + 1
    assert_eq!(result.gated_blocks, 7);
    let tiny = LoudnessAnalyzer::new(1).analyze(&samples[..17_639]);
    assert_eq!(tiny.momentary, None);
    assert_eq!(tiny.integrated, None);
    assert_eq!(tiny.gated_blocks, 0);
    let exact = LoudnessAnalyzer::new(1).analyze(&samples[..17_640]);
    assert_eq!(exact.gated_blocks, 1);
}

#[test]
fn no_channels_no_loudness() {
    let samples = sine(1000.0, 1.0, 0.5);
    let result = LoudnessAnalyzer::new(0).analyze(&samples);
    assert_eq!(result.momentary, None);
    assert_eq!(result.gated_blocks, 0);
    assert_eq!(block_energy(&samples, 0, 0, 100), 0);
    assert_eq!(block_energy(&samples, 1, 0, 0), 0);
    assert!(measure_blocks(&samples, 1, 100, 0).is_empty());
}

#[test]
fn halving_the_amplitude_costs_six_decibels() {
    let loud = LoudnessAnalyzer::new(1).analyze(&sine(1000.0, 2.0, 0.5));
    let soft = LoudnessAnalyzer::new(1).analyze(&sine(1000.0, 2.0, 0.25));
    let difference = lufs(loud.integrated.unwrap()) - lufs(soft.integrated.unwrap());
    assert!((difference - 6.0206).abs() < 0.01, "{}", difference);
}

#[test]
fn stereo_copies_measure_like_mono() {
    let mono = sine(1000.0, 1.0, 0.5);
    let mut stereo = Vec::with_capacity(mono.len() * 2);
    for x in &mono {
        stereo.push(*x);
        stereo.push(*x);
    }
    let a = LoudnessAnalyzer::new(1).analyze(&mono);
    let b = LoudnessAnalyzer::new(2).analyze(&stereo);
    assert_eq!(a.integrated, b.integrated);
    assert_eq!(a.gated_blocks, b.gated_blocks);
}

#[test]
fn filter_passes_a_constant_unchanged() {
    let mut state = FilterState::new();
    let mut last = 0;
    for _ in 0..2000 {
        last = state.step(1_000_000);
    }
    assert!((last - 1_000_000i64).abs() <= 2000, "{}", last);
    let mut fresh = FilterState::new();
    // The first output is b0 times the input.
    assert_eq!(fresh.step(1_000_000), 1_535_125);
    let mut negative = FilterState::new();
    assert_eq!(negative.step(-1_000_000), -1_535_125);
}

#[test]
fn filter_output_saturates() {
    let mut state = FilterState::new();
    for _ in 0..3000 {
        let y = state.step(i32::MIN);
        assert!(y.abs() <= 4_294_967_296);
    }
    // A jump from the lowest to the highest sample asks for more than twice
    // the input range.
    assert_eq!(state.step(i32::MAX), 4_294_967_296);
    let mut mirrored = FilterState::new();
    for _ in 0..3000 {
        mirrored.step(i32::MAX);
    }
    assert_eq!(mirrored.step(i32::MIN), -4_294_967_296);
}

#[test]
fn block_energy_reads_zero_beyond_the_end() {
    let samples = [1_000_000i32, -1_000_000, 1_000_000];
    let padded = [1_000_000i32, -1_000_000, 1_000_000, 0, 0, 0];
    assert_eq!(block_energy(&samples, 1, 0, 6), block_energy(&padded, 1, 0, 6));
    assert_eq!(block_energy(&samples, 1, 3, 4), 0);
    assert_eq!(block_energy(&samples, 1, usize::MAX, 4), 0);
    // One sample: (1.5351249e6)^2 over one frame.
    assert_eq!(block_energy(&samples, 1, 0, 1), 1_535_125u128 * 1_535_125);
}

#[test]
fn absolute_gate_sits_at_minus_seventy() {
    assert!(lufs(8_250_492 - 7037) >= -70.0 - 1e-6);
    assert!(lufs(8_250_491 - 7037) < -70.0 + 1e-6);
    // A sine 66 dB below full scale stays; one 68 dB below does not.
    let above = measure_blocks(&sine(1000.0, 1.0, 10f64.powf(-66.0 / 20.0)), 1, 17_640, 4_410);
    let below = measure_blocks(&sine(1000.0, 1.0, 10f64.powf(-68.0 / 20.0)), 1, 17_640, 4_410);
    assert_eq!(above.len(), 7);
    assert_eq!(below.len(), 0);
}

#[test]
fn relative_gate_lies_ten_decibels_below_the_mean() {
    // Mean power with epsilon: (3 * 1_000_000 + 40_000) / 4 = 760_000;
    // a tenth of it is 76_000, so the block of 32_963 + 7_037 leaves.
    let gated = [992_963u128, 992_963, 992_963, 32_963];
    assert_eq!(integrated_power(&gated), Some(992_963));
    // At exactly one tenth of the mean the block stays:
    // powers with epsilon 1_000_000 * 3 and x with 10 x = (3_000_000 + x) / 4.
    let edge = [992_963u128, 992_963, 992_963, 76_923 - 7_037 + 1];
    assert_eq!(integrated_power(&edge), Some((3 * 992_963 + 69_887) / 4));
    let under = [992_963u128, 992_963, 992_963, 76_923 - 7_037 - 1];
    assert_eq!(integrated_power(&under), Some(992_963));
}

#[test]
fn integration_of_few_blocks() {
    assert_eq!(integrated_power(&[]), None);
    assert_eq!(integrated_power(&[8_250_000]), Some(8_250_000));
    assert_eq!(integrated_power(&[10_000_000, 10_000_001]), Some(10_000_000));
    assert_eq!(max_power(&[]), None);
    assert_eq!(max_power(&[5, 9, 7]), Some(9));
    assert_eq!(max_power(&[0]), Some(0));
}

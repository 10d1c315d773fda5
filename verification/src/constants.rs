//! Fixed tables: block sizes, gate levels and filter coefficients of the
//! loudness measurement, key-profile templates with the voting weight of each
//! family, and the interval patterns of the scales.
//!
//! The loudness constants hold for 44.1 kHz audio whose samples are signed
//! words with full scale `FULL_SCALE`. Powers are mean squares of such words,
//! so that one whole of power is `FULL_SCALE * FULL_SCALE`.
//!
//! Template entries are relative weights; only their proportions matter to a
//! correlation. Voting weights are shares of one whole, in millionths.
use vstd::prelude::*;

verus! {

/// The sample value that stands for an amplitude of one.
pub const FULL_SCALE: i32 = 8_388_608;

/// The momentary window: 400 ms.
pub const MOMENTARY_BLOCK_SIZE: u32 = 17640;

/// The hop between momentary windows: 100 ms.
pub const MOMENTARY_HOP: u32 = 4410;

/// The short-term window: 3 s.
pub const SHORT_TERM_BLOCK_SIZE: u32 = 132300;

/// The hop between short-term windows: 300 ms.
pub const SHORT_TERM_HOP: u32 = 13230;

/// One, in the scale of the filter coefficients.
pub const K_ONE: i128 = 268_435_456;

/// Half of `K_ONE`, added before a division to round to the nearest integer.
pub const K_HALF: i128 = 134_217_728;

/// The numerator coefficients of the K-weighting filter, times `K_ONE`.
pub const K_B0: i128 = 412_081_953;

pub const K_B1: i128 = -722_546_697;

pub const K_B2: i128 = 321_691_118;

/// The denominator coefficients of the K-weighting filter after the leading
/// one, times `K_ONE`.
pub const K_A1: i128 = -453_832_900;

pub const K_A2: i128 = 196_623_807;

/// The bound at which the filter output saturates.
pub const OUTPUT_LIMIT: i64 = 4_294_967_296;

/// The greatest power of a block: the square of `OUTPUT_LIMIT`.
pub const MAX_POWER: u128 = 18_446_744_073_709_551_616;

/// The power added to a block's power before it is compared or converted, so
/// that silence has a finite level: 1e-10 of one whole.
pub const EPSILON_POWER: u128 = 7037;

/// The absolute gate, -70 LUFS, as a power: a block passes when its power
/// plus `EPSILON_POWER` reaches this.
pub const ABSOLUTE_GATE_POWER: u128 = 8_250_492;

/// The relative gate lies ten decibels, a factor of ten in power, below the
/// preliminary level.
pub const RELATIVE_GATE_RATIO: u128 = 10;

/// The greatest number of gated blocks that can be integrated.
pub const MAX_BLOCKS: u64 = 4_503_599_627_370_496;

/// The analysis frame: 4096 samples, advanced by half a frame.
pub const FRAME_SIZE: u32 = 4096;

pub const FRAME_HOP: u32 = 2048;

/// The number of samples of a recording that are framed at most: thirty
/// seconds.
pub const MAX_ANALYSIS_SAMPLES: usize = 1_323_000;

/// The number of frames analysed at most.
pub const MAX_FRAMES: usize = 100;

/// The greatest magnitude of a spectrum bin, in millionths of full scale.
pub const MAGNITUDE_MAX: u32 = 10_000_000;

/// A peak must exceed this magnitude: -60 dB of full scale.
pub const PEAK_THRESHOLD: u32 = 1000;

/// The number of peaks kept at most.
pub const MAX_PEAKS: usize = 50;

/// The band of frequencies, in hertz, in which peaks are picked.
pub const BAND_LOW_HZ: u32 = 65;

pub const BAND_HIGH_HZ: u32 = 2093;

/// The greatest sample rate, in hertz, for which peak frequencies are
/// computed.
pub const MAX_SAMPLE_RATE: u32 = 4_000_000;

/// A peak is folded at its own frequency and at that frequency divided by 2
/// to `NUM_HARMONICS`.
pub const NUM_HARMONICS: u32 = 8;

/// The weight `1 / sqrt(k)` of the fold at the frequency divided by `k`, in
/// millionths, for `k` from 1 to `NUM_HARMONICS`.
pub const HARMONIC_WEIGHTS: [u32; 8] = [
    1_000_000,
    707_107,
    577_350,
    500_000,
    447_214,
    408_248,
    377_964,
    353_553,
];

/// The ratios `2^(-c / 1200)`, in millionths, by which a frequency is
/// adjusted for a tuning offset of `c` cents, for `c` from -50 to 50 in steps
/// of 10.
pub const TUNING_RATIOS: [u32; 11] = [
    1_029_302,
    1_023_374,
    1_017_480,
    1_011_619,
    1_005_793,
    1_000_000,
    994_240,
    988_514,
    982_821,
    977_160,
    971_532,
];

/// The greatest tuning ratio.
pub const TUNING_RATIO_MAX: u32 = 1_029_302;

/// The reference pitch A4, 440 Hz, in millihertz.
pub const A4_MILLIHERTZ: u32 = 440_000;

/// The first entry of `SEMITONE_BOUNDS`: the frequency from which on a
/// frequency lies in the octave of the table.
pub const TABLE_BASE: u64 = 7_003_734_903;

/// The lower bounds, in millihertz, of the twelve semitone bands around A,
/// A sharp, and so on up to G sharp, fourteen octaves above A4, and the
/// lower bound of the band of the next A. Bound `j` is
/// `440000 * 2^14 * 2^((2 j - 1) / 24)`, rounded up: no whole number of
/// millihertz lies between the exact bound and the entry.
pub const SEMITONE_BOUNDS: [u64; 13] = [
    7_003_734_903,
    7_420_198_652,
    7_861_426_625,
    8_328_891_378,
    8_824_153_032,
    9_348_864_476,
    9_904_776_887,
    10_493_745_569,
    11_117_736_152,
    11_778_831_146,
    12_479_236_894,
    13_221_290_935,
    14_007_469_805,
];

/// Pitch-class names, from C upward.
pub const NOTE_NAMES: [&'static str; 12] = [
    "C",
    "C#",
    "D",
    "D#",
    "E",
    "F",
    "F#",
    "G",
    "G#",
    "A",
    "A#",
    "B",
];

/// The templates of the family tuned on electronic dance music.
pub const EDMA_MAJOR: [u32; 12] = [1652, 475, 829, 669, 999, 927, 529, 1316, 522, 744, 694, 643];

pub const EDMA_MINOR: [u32; 12] = [1724, 534, 761, 1004, 562, 853, 498, 1345, 746, 500, 919, 555];

/// The templates that blend the classical and the electronic family.
pub const HYBRID_MAJOR: [u32; 12] = [1586, 504, 831, 613, 1024, 953, 566, 1279, 547, 810, 621, 666];

pub const HYBRID_MINOR: [u32; 12] = [1573, 568, 776, 1107, 573, 823, 534, 1206, 820, 552, 835, 633];

/// The Krumhansl-Schmuckler templates, from probe-tone ratings.
pub const KS_MAJOR: [u32; 12] = [635, 223, 348, 233, 438, 409, 252, 519, 239, 366, 229, 288];

pub const KS_MINOR: [u32; 12] = [633, 268, 352, 538, 260, 353, 254, 475, 398, 269, 334, 317];

/// The Temperley templates, for popular music.
pub const TEMPERLEY_MAJOR: [u32; 12] = [500, 200, 350, 200, 450, 400, 200, 450, 200, 350, 150, 400];

pub const TEMPERLEY_MINOR: [u32; 12] = [500, 200, 350, 450, 200, 400, 200, 450, 350, 200, 150, 400];

/// The Shaath templates, for electronic music.
pub const SHAATH_MAJOR: [u32; 12] = [660, 200, 350, 230, 460, 400, 250, 520, 240, 370, 230, 340];

pub const SHAATH_MINOR: [u32; 12] = [650, 270, 350, 540, 260, 350, 250, 520, 400, 270, 430, 320];

/// The voting weights of the families; they add up to one whole.
pub const EDMA_WEIGHT: u32 = 350_000;

pub const HYBRID_WEIGHT: u32 = 250_000;

pub const KS_WEIGHT: u32 = 200_000;

pub const TEMPERLEY_WEIGHT: u32 = 150_000;

pub const SHAATH_WEIGHT: u32 = 50_000;

/// The floor under the agreement factor.
pub const AGREEMENT_FLOOR: u32 = 300_000;

/// The least confidence a key estimate reports.
pub const CONFIDENCE_MIN: u32 = 50_000;

/// The greatest confidence a key estimate reports.
pub const CONFIDENCE_MAX: u32 = 950_000;

/// The interval patterns of the scales, in semitones above the root.
pub const MAJOR_SCALE: [usize; 7] = [0, 2, 4, 5, 7, 9, 11];

pub const NATURAL_MINOR_SCALE: [usize; 7] = [0, 2, 3, 5, 7, 8, 10];

pub const HARMONIC_MINOR_SCALE: [usize; 7] = [0, 2, 3, 5, 7, 8, 11];

pub const DORIAN_SCALE: [usize; 7] = [0, 2, 3, 5, 7, 9, 10];

pub const LYDIAN_SCALE: [usize; 7] = [0, 2, 4, 6, 7, 9, 11];

pub const MIXOLYDIAN_SCALE: [usize; 7] = [0, 2, 4, 5, 7, 9, 10];

pub const PENTATONIC_MAJOR_SCALE: [usize; 5] = [0, 2, 4, 7, 9];

pub const PENTATONIC_MINOR_SCALE: [usize; 5] = [0, 3, 5, 7, 10];

pub const BLUES_SCALE: [usize; 6] = [0, 3, 5, 6, 7, 10];

/// A scale match must be stronger than this to be reported.
pub const SCALE_THRESHOLD: u32 = 100_000;

/// The number of scale matches reported at most.
pub const MAX_SCALE_MATCHES: usize = 8;

} // verus!

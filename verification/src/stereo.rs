//! Stereo imaging: how alike, how wide and how mono-compatible the two
//! channels of a recording are. Measures are shares of one whole, in
//! millionths.
use vstd::prelude::*;
use crate::constants::FULL_SCALE;
use crate::numeric::{UNIT, floor_sqrt, isqrt};

verus! {

/// The greatest number of frames that the measures take.
pub const MAX_STEREO_FRAMES: u64 = 0x100_0000_0000;

/// The seconds of a recording that are analysed at most.
pub const ANALYSIS_SECONDS: u64 = 60;

/// The number of frames taken from an interleaved stereo buffer of `len`
/// samples: all of them, but no more than sixty seconds.
pub open spec fn frames_taken(len: int, sample_rate: int) -> int {
    if sample_rate * ANALYSIS_SECONDS < len / 2 {
        sample_rate * ANALYSIS_SECONDS
    } else {
        len / 2
    }
}

/// Splits an interleaved stereo buffer into its left and right channels,
/// keeping at most the first sixty seconds.
pub fn extract_stereo_channels(pcm: &[i32], sample_rate: u32) -> (channels: (Vec<i32>, Vec<i32>))
    ensures
        channels.0@.len() == frames_taken(pcm@.len() as int, sample_rate as int),
        channels.1@.len() == channels.0@.len(),
        forall|i: int|
            0 <= i < channels.0@.len() ==> channels.0@[i] == pcm@[2 * i] && channels.1@[i] == pcm@[2
                * i + 1],
{
    let length: usize = pcm.len();
    let samples_per_channel: usize = length / 2;
    let limit: u64 = (sample_rate as u64) * ANALYSIS_SECONDS;
    let taken: usize = if limit < samples_per_channel as u64 {
        limit as usize
    } else {
        samples_per_channel
    };
    let mut left: Vec<i32> = Vec::new();
    let mut right: Vec<i32> = Vec::new();
    for i in 0..taken
        invariant
            length == pcm@.len(),
            2 * taken <= length,
            left@.len() == i,
            right@.len() == i,
            forall|j: int| 0 <= j < i ==> left@[j] == pcm@[2 * j] && right@[j] == pcm@[2 * j + 1],
    {
        left.push(pcm[2 * i]);
        right.push(pcm[2 * i + 1]);
    }
    (left, right)
}

/// The sum over the first `n` frames of the products of a term of the left
/// sample `l` and the right sample `r`: the term is `(a l + b r) * (c l + d
/// r)`.
pub open spec fn paired_sum(
    left: Seq<i32>,
    right: Seq<i32>,
    a: int,
    b: int,
    c: int,
    d: int,
    n: int,
) -> int
    decreases n,
{
    if n <= 0 {
        0
    } else {
        paired_sum(left, right, a, b, c, d, n - 1) + (a * left[n - 1] + b * right[n - 1]) * (c
            * left[n - 1] + d * right[n - 1])
    }
}

/// The energy of the left channel.
pub open spec fn left_energy(left: Seq<i32>, right: Seq<i32>) -> int {
    paired_sum(left, right, 1, 0, 1, 0, left.len() as int)
}

/// The energy of the right channel.
pub open spec fn right_energy(left: Seq<i32>, right: Seq<i32>) -> int {
    paired_sum(left, right, 0, 1, 0, 1, left.len() as int)
}

/// The sum of the products of the two channels.
pub open spec fn cross_energy(left: Seq<i32>, right: Seq<i32>) -> int {
    paired_sum(left, right, 1, 0, 0, 1, left.len() as int)
}

/// The energy of the sum of the channels: four times the mid energy.
pub open spec fn sum_energy(left: Seq<i32>, right: Seq<i32>) -> int {
    paired_sum(left, right, 1, 1, 1, 1, left.len() as int)
}

/// The energy of the difference of the channels: four times the side
/// energy.
pub open spec fn difference_energy(left: Seq<i32>, right: Seq<i32>) -> int {
    paired_sum(left, right, 1, -1, 1, -1, left.len() as int)
}

/// Two channels that can be measured: of one length, within the limit of
/// frames.
pub open spec fn are_channels(left: Seq<i32>, right: Seq<i32>) -> bool {
    left.len() == right.len() && left.len() <= MAX_STEREO_FRAMES
}

/// The phase correlation of two channels, in millionths, between minus one
/// and one: the cross energy over the product of the roots of the channel
/// energies, the roots rounded down to whole numbers. Zero for channels that
/// are empty, of different lengths, or silent.
pub open spec fn phase_correlation(left: Seq<i32>, right: Seq<i32>) -> int {
    if left.len() != right.len() || left.len() == 0 {
        0
    } else {
        let denominator = floor_sqrt(left_energy(left, right) as nat) * floor_sqrt(
            right_energy(left, right) as nat,
        );
        let cross = cross_energy(left, right);
        if denominator == 0 {
            0
        } else if cross >= 0 {
            let ratio = cross * UNIT / (denominator as int);
            if ratio > UNIT {
                UNIT as int
            } else {
                ratio
            }
        } else {
            let ratio = (-cross) * UNIT / (denominator as int);
            if ratio > UNIT {
                -(UNIT as int)
            } else {
                -ratio
            }
        }
    }
}

/// The stereo width, in millionths: twice the share of the side energy in
/// the sum of mid and side energy, capped at one whole. Zero for channels
/// that are empty, of different lengths, or silent.
pub open spec fn stereo_width(left: Seq<i32>, right: Seq<i32>) -> int {
    if left.len() != right.len() || left.len() == 0 {
        0
    } else {
        let side = difference_energy(left, right);
        let total = sum_energy(left, right) + side;
        if total <= 0 {
            0
        } else {
            let width = 2 * side * UNIT / total;
            if width > UNIT {
                UNIT as int
            } else {
                width
            }
        }
    }
}

/// The mono compatibility, in millionths: the energy that the mono sum
/// keeps of the energy of both channels, capped at one whole. One whole for
/// channels that are empty, of different lengths, or silent.
pub open spec fn mono_compatibility(left: Seq<i32>, right: Seq<i32>) -> int {
    if left.len() != right.len() || left.len() == 0 {
        UNIT as int
    } else {
        let stereo = left_energy(left, right) + right_energy(left, right);
        if stereo <= 0 {
            UNIT as int
        } else {
            let kept = sum_energy(left, right) * UNIT / (2 * stereo);
            if kept > UNIT {
                UNIT as int
            } else {
                kept
            }
        }
    }
}

/// The grade of the stereo imaging, from 0 (poor) to 4 (professional), by
/// the mean of the three measures: at least 0.85, 0.7, 0.5, 0.3 of one
/// whole.
pub open spec fn imaging_grade(phase: int, width: int, mono: int) -> int {
    let size = if phase >= 0 {
        phase
    } else {
        -phase
    };
    let total = size + width + mono;
    if total >= 2_550_000 {
        4
    } else if total >= 2_100_000 {
        3
    } else if total >= 1_500_000 {
        2
    } else if total >= 900_000 {
        1
    } else {
        0
    }
}

/// The name of an imaging grade.
pub open spec fn grade_name(grade: int) -> Seq<char> {
    if grade >= 4 {
        "Professional"@
    } else if grade == 3 {
        "High Quality"@
    } else if grade == 2 {
        "Good"@
    } else if grade == 1 {
        "Fair"@
    } else {
        "Poor"@
    }
}

/// A term of a paired sum lies within the product of the bounds of its
/// factors.
proof fn lemma_term_bound(l: int, r: int, a: int, b: int, c: int, d: int)
    requires
        -0x8000_0000 <= l <= 0x8000_0000,
        -0x8000_0000 <= r <= 0x8000_0000,
        -1 <= a <= 1,
        -1 <= b <= 1,
        -1 <= c <= 1,
        -1 <= d <= 1,
    ensures
        -0x1_0000_0000 <= a * l + b * r <= 0x1_0000_0000,
        -0x1_0000_0000 <= c * l + d * r <= 0x1_0000_0000,
        -0x1_0000_0000_0000_0000 <= (a * l + b * r) * (c * l + d * r) <= 0x1_0000_0000_0000_0000,
{
    let u = a * l + b * r;
    let v = c * l + d * r;
    assert(-0x8000_0000 <= a * l <= 0x8000_0000) by (nonlinear_arith)
        requires
            -0x8000_0000 <= l <= 0x8000_0000,
            -1 <= a <= 1,
    ;
    assert(-0x8000_0000 <= b * r <= 0x8000_0000) by (nonlinear_arith)
        requires
            -0x8000_0000 <= r <= 0x8000_0000,
            -1 <= b <= 1,
    ;
    assert(-0x8000_0000 <= c * l <= 0x8000_0000) by (nonlinear_arith)
        requires
            -0x8000_0000 <= l <= 0x8000_0000,
            -1 <= c <= 1,
    ;
    assert(-0x8000_0000 <= d * r <= 0x8000_0000) by (nonlinear_arith)
        requires
            -0x8000_0000 <= r <= 0x8000_0000,
            -1 <= d <= 1,
    ;
    assert(-0x1_0000_0000_0000_0000 <= u * v <= 0x1_0000_0000_0000_0000) by (nonlinear_arith)
        requires
            -0x1_0000_0000 <= u <= 0x1_0000_0000,
            -0x1_0000_0000 <= v <= 0x1_0000_0000,
    ;
}

/// A paired sum of squares is never negative.
proof fn lemma_square_sum_nonnegative(left: Seq<i32>, right: Seq<i32>, a: int, b: int, n: int)
    ensures
        paired_sum(left, right, a, b, a, b, n) >= 0,
    decreases n,
{
    if n > 0 {
        lemma_square_sum_nonnegative(left, right, a, b, n - 1);
        let u = a * left[n - 1] + b * right[n - 1];
        assert(u * u >= 0) by (nonlinear_arith);
    }
}

/// A paired sum over two channels.
fn sum_pairs(left: &[i32], right: &[i32], a: i64, b: i64, c: i64, d: i64) -> (sum: i128)
    requires
        are_channels(left@, right@),
        -1 <= a <= 1,
        -1 <= b <= 1,
        -1 <= c <= 1,
        -1 <= d <= 1,
    ensures
        sum == paired_sum(left@, right@, a as int, b as int, c as int, d as int, left@.len() as int),
        -(left@.len() * 0x1_0000_0000_0000_0000) <= sum <= left@.len() * 0x1_0000_0000_0000_0000,
{
    let n = left.len();
    let mut sum: i128 = 0;
    for i in 0..n
        invariant
            n == left@.len(),
            are_channels(left@, right@),
            -1 <= a <= 1,
            -1 <= b <= 1,
            -1 <= c <= 1,
            -1 <= d <= 1,
            sum == paired_sum(left@, right@, a as int, b as int, c as int, d as int, i as int),
            -(i * 0x1_0000_0000_0000_0000) <= sum <= i * 0x1_0000_0000_0000_0000,
    {
        let l: i64 = left[i] as i64;
        let r: i64 = right[i] as i64;
        proof {
            lemma_term_bound(l as int, r as int, a as int, b as int, c as int, d as int);
            assert(-0x8000_0000 <= a * l <= 0x8000_0000) by (nonlinear_arith)
                requires
                    -0x8000_0000 <= l <= 0x8000_0000,
                    -1 <= a <= 1,
            ;
            assert(-0x8000_0000 <= b * r <= 0x8000_0000) by (nonlinear_arith)
                requires
                    -0x8000_0000 <= r <= 0x8000_0000,
                    -1 <= b <= 1,
            ;
            assert(-0x8000_0000 <= c * l <= 0x8000_0000) by (nonlinear_arith)
                requires
                    -0x8000_0000 <= l <= 0x8000_0000,
                    -1 <= c <= 1,
            ;
            assert(-0x8000_0000 <= d * r <= 0x8000_0000) by (nonlinear_arith)
                requires
                    -0x8000_0000 <= r <= 0x8000_0000,
                    -1 <= d <= 1,
            ;
        }
        let u: i64 = a * l + b * r;
        let v: i64 = c * l + d * r;
        sum = sum + (u as i128) * (v as i128);
    }
    sum
}

/// The share `part * UNIT / whole`, capped at one whole.
fn capped_share(part: u128, whole: u128) -> (share: u32)
    requires
        whole > 0,
        part <= 0x400_0000_0000_0000_0000_0000_0000,
    ensures
        share == if part * UNIT / (whole as int) > UNIT {
            UNIT as int
        } else {
            part * UNIT / (whole as int)
        },
        share <= UNIT,
{
    let ratio: u128 = part * 1_000_000 / whole;
    if ratio > 1_000_000 {
        UNIT
    } else {
        ratio as u32
    }
}

/// The phase correlation of the two channels.
pub fn calculate_phase_correlation(left: &[i32], right: &[i32]) -> (correlation: i32)
    requires
        left@.len() <= MAX_STEREO_FRAMES,
        right@.len() <= MAX_STEREO_FRAMES,
    ensures
        correlation == phase_correlation(left@, right@),
        -(UNIT as int) <= correlation <= UNIT,
{
    if left.len() != right.len() || left.len() == 0 {
        return 0;
    }
    let sum_lr = sum_pairs(left, right, 1, 0, 0, 1);
    let sum_ll = sum_pairs(left, right, 1, 0, 1, 0);
    let sum_rr = sum_pairs(left, right, 0, 1, 0, 1);
    proof {
        lemma_square_sum_nonnegative(left@, right@, 1, 0, left@.len() as int);
        lemma_square_sum_nonnegative(left@, right@, 0, 1, left@.len() as int);
    }
    let root_l: u128 = isqrt(sum_ll as u128) as u128;
    let root_r: u128 = isqrt(sum_rr as u128) as u128;
    assert(root_l * root_r <= 0xffff_ffff_ffff_ffff * 0xffff_ffff_ffff_ffff) by (nonlinear_arith)
        requires
            root_l <= 0xffff_ffff_ffff_ffff,
            root_r <= 0xffff_ffff_ffff_ffff,
    ;
    let denominator: u128 = root_l * root_r;
    if denominator == 0 {
        return 0;
    }
    if sum_lr >= 0 {
        capped_share(sum_lr as u128, denominator) as i32
    } else {
        -(capped_share((-sum_lr) as u128, denominator) as i32)
    }
}

/// The stereo width of the two channels.
pub fn calculate_stereo_width(left: &[i32], right: &[i32]) -> (width: u32)
    requires
        left@.len() <= MAX_STEREO_FRAMES,
        right@.len() <= MAX_STEREO_FRAMES,
    ensures
        width == stereo_width(left@, right@),
        width <= UNIT,
{
    if left.len() != right.len() || left.len() == 0 {
        return 0;
    }
    let mid = sum_pairs(left, right, 1, 1, 1, 1);
    let side = sum_pairs(left, right, 1, -1, 1, -1);
    proof {
        lemma_square_sum_nonnegative(left@, right@, 1, 1, left@.len() as int);
        lemma_square_sum_nonnegative(left@, right@, 1, -1, left@.len() as int);
    }
    let total: u128 = (mid + side) as u128;
    if total == 0 {
        return 0;
    }
    capped_share(2 * (side as u128), total)
}

/// The mono compatibility of the two channels.
pub fn calculate_mono_compatibility(left: &[i32], right: &[i32]) -> (kept: u32)
    requires
        left@.len() <= MAX_STEREO_FRAMES,
        right@.len() <= MAX_STEREO_FRAMES,
    ensures
        kept == mono_compatibility(left@, right@),
        kept <= UNIT,
{
    if left.len() != right.len() || left.len() == 0 {
        return UNIT;
    }
    let sum_ll = sum_pairs(left, right, 1, 0, 1, 0);
    let sum_rr = sum_pairs(left, right, 0, 1, 0, 1);
    let mono = sum_pairs(left, right, 1, 1, 1, 1);
    proof {
        lemma_square_sum_nonnegative(left@, right@, 1, 0, left@.len() as int);
        lemma_square_sum_nonnegative(left@, right@, 0, 1, left@.len() as int);
        lemma_square_sum_nonnegative(left@, right@, 1, 1, left@.len() as int);
    }
    let stereo: u128 = (sum_ll + sum_rr) as u128;
    if stereo == 0 {
        return UNIT;
    }
    capped_share(mono as u128, 2 * stereo)
}

/// Grades the stereo imaging by its three measures.
pub fn classify_imaging(phase_correlation: i32, stereo_width: u32, mono_compatibility: u32) -> (name:
    &'static str)
    requires
        -(UNIT as int) <= phase_correlation <= UNIT,
        stereo_width <= UNIT,
        mono_compatibility <= UNIT,
    ensures
        name@ == grade_name(
            imaging_grade(
                phase_correlation as int,
                stereo_width as int,
                mono_compatibility as int,
            ),
        ),
{
    let size: u32 = if phase_correlation >= 0 {
        phase_correlation as u32
    } else {
        (-phase_correlation) as u32
    };
    let total: u32 = size + stereo_width + mono_compatibility;
    if total >= 2_550_000 {
        "Professional"
    } else if total >= 2_100_000 {
        "High Quality"
    } else if total >= 1_500_000 {
        "Good"
    } else if total >= 900_000 {
        "Fair"
    } else {
        "Poor"
    }
}

/// The length of the windows in which the imaging quality is measured.
pub const IMAGING_WINDOW: usize = 512;

/// A window counts toward the imaging quality when the energy of its two
/// channels exceeds this: 1e-8 of one whole.
pub const WINDOW_ENERGY_FLOOR: u128 = 703_687;

/// Recordings longer than this many frames are measured in windows that do
/// not overlap.
pub const LONG_RECORDING: usize = 441_000;

/// The window length for channels of `len` frames.
pub open spec fn window_length(len: int) -> int {
    if len < IMAGING_WINDOW {
        len
    } else {
        IMAGING_WINDOW as int
    }
}

/// The step between windows: half a window, a whole window for long
/// recordings.
pub open spec fn window_step(len: int) -> int {
    if len > LONG_RECORDING {
        window_length(len)
    } else {
        window_length(len) / 2
    }
}

/// The number of windows measured: those that begin before the last full
/// window.
pub open spec fn window_count(len: int) -> int {
    let room = len - window_length(len);
    let step = window_step(len);
    if room <= 0 || step <= 0 {
        0
    } else {
        (room - 1) / step + 1
    }
}

/// The energy of both channels in one window.
pub open spec fn window_energy(left: Seq<i32>, right: Seq<i32>) -> int {
    left_energy(left, right) + right_energy(left, right)
}

/// The coherence of one window: the size of its phase correlation, in
/// millionths, times the root of its energy as a share of full scale.
pub open spec fn window_coherence(left: Seq<i32>, right: Seq<i32>) -> int {
    let correlation = phase_correlation(left, right);
    let size = if correlation >= 0 {
        correlation
    } else {
        -correlation
    };
    size * floor_sqrt(window_energy(left, right) as nat) / (FULL_SCALE as int)
}

/// Window `k` of the two channels.
pub open spec fn window_of(channel: Seq<i32>, k: int) -> Seq<i32> {
    let start = k * window_step(channel.len() as int);
    channel.subrange(start, start + window_length(channel.len() as int))
}

/// The coherence summed over those of the first `k` windows that have
/// energy.
pub open spec fn coherence_sum(left: Seq<i32>, right: Seq<i32>, k: int) -> int
    decreases k,
{
    if k <= 0 {
        0
    } else if window_energy(window_of(left, k - 1), window_of(right, k - 1)) > WINDOW_ENERGY_FLOOR {
        coherence_sum(left, right, k - 1) + window_coherence(
            window_of(left, k - 1),
            window_of(right, k - 1),
        )
    } else {
        coherence_sum(left, right, k - 1)
    }
}

/// The number of the first `k` windows that have energy.
pub open spec fn coherent_windows(left: Seq<i32>, right: Seq<i32>, k: int) -> int
    decreases k,
{
    if k <= 0 {
        0
    } else if window_energy(window_of(left, k - 1), window_of(right, k - 1)) > WINDOW_ENERGY_FLOOR {
        coherent_windows(left, right, k - 1) + 1
    } else {
        coherent_windows(left, right, k - 1)
    }
}

/// The imaging quality, in millionths: the mean coherence of the windows
/// that have energy, capped at one whole. Zero for channels that are empty
/// or of different lengths, for channels no longer than one window, and
/// when no window has energy.
pub open spec fn imaging_quality(left: Seq<i32>, right: Seq<i32>) -> int {
    if left.len() != right.len() || left.len() == 0 {
        0
    } else {
        let windows = window_count(left.len() as int);
        let count = coherent_windows(left, right, windows);
        if count <= 0 {
            0
        } else {
            let mean = coherence_sum(left, right, windows) / count;
            if mean > UNIT {
                UNIT as int
            } else {
                mean
            }
        }
    }
}

/// The imaging quality of the two channels.
pub fn calculate_imaging_quality(left: &[i32], right: &[i32]) -> (quality: u32)
    requires
        left@.len() <= MAX_STEREO_FRAMES,
        right@.len() <= MAX_STEREO_FRAMES,
    ensures
        quality == imaging_quality(left@, right@),
        quality <= UNIT,
{
    let len = left.len();
    if len != right.len() || len == 0 {
        return 0;
    }
    let window: usize = if len < IMAGING_WINDOW {
        len
    } else {
        IMAGING_WINDOW
    };
    let step: usize = if len > LONG_RECORDING {
        window
    } else {
        window / 2
    };
    let room: usize = len - window;
    if room == 0 || step == 0 {
        return 0;
    }
    let windows: usize = (room - 1) / step + 1;
    let mut sum: u128 = 0;
    let mut count: u128 = 0;
    let mut k: usize = 0;
    while k < windows
        invariant
            len == left@.len(),
            len == right@.len(),
            len <= MAX_STEREO_FRAMES,
            window == window_length(len as int),
            step == window_step(len as int),
            step > 0,
            room == len - window,
            windows == window_count(len as int),
            k <= windows,
            sum == coherence_sum(left@, right@, k as int),
            count == coherent_windows(left@, right@, k as int),
            count <= k,
            sum <= k * 0x1_0000_0000_0000_0000_0000,
        decreases windows - k,
    {
        assert(k * step < room) by (nonlinear_arith)
            requires
                k <= (room - 1) / (step as int),
                room > 0,
                step > 0,
        ;
        let start: usize = k * step;
        let window_left = vstd::slice::slice_subrange(left, start, start + window);
        let window_right = vstd::slice::slice_subrange(right, start, start + window);
        assert(window_left@ == window_of(left@, k as int));
        assert(window_right@ == window_of(right@, k as int));
        let correlation = calculate_phase_correlation(window_left, window_right);
        let sum_ll = sum_pairs(window_left, window_right, 1, 0, 1, 0);
        let sum_rr = sum_pairs(window_left, window_right, 0, 1, 0, 1);
        proof {
            lemma_square_sum_nonnegative(window_left@, window_right@, 1, 0, window as int);
            lemma_square_sum_nonnegative(window_left@, window_right@, 0, 1, window as int);
        }
        let energy: u128 = (sum_ll + sum_rr) as u128;
        if energy > WINDOW_ENERGY_FLOOR {
            let size: u128 = if correlation >= 0 {
                correlation as u128
            } else {
                (-correlation) as u128
            };
            let root: u128 = isqrt(energy) as u128;
            assert(size * root <= 1_000_000 * 0xffff_ffff_ffff_ffff) by (nonlinear_arith)
                requires
                    size <= 1_000_000,
                    root <= 0xffff_ffff_ffff_ffff,
            ;
            sum = sum + size * root / (FULL_SCALE as u128);
            count = count + 1;
        }
        k = k + 1;
    }
    if count == 0 {
        0
    } else {
        let mean: u128 = sum / count;
        if mean > 1_000_000 {
            UNIT
        } else {
            mean as u32
        }
    }
}

/// What the stereo analysis of a recording reports. A buffer with an odd
/// number of samples is taken for mono: perfectly mono-compatible, with no
/// other measure.
#[derive(Clone, Copy, Debug)]
pub struct StereoAnalysis {
    pub is_mono: bool,
    pub channels: u8,
    pub phase_correlation: i32,
    pub stereo_width: u32,
    pub mono_compatibility: u32,
    pub imaging_quality_score: u32,
    pub imaging_quality: &'static str,
}

/// The left channel of an interleaved buffer, as far as it is analysed.
pub open spec fn left_of(pcm: Seq<i32>, sample_rate: int) -> Seq<i32> {
    Seq::new(frames_taken(pcm.len() as int, sample_rate) as nat, |i: int| pcm[2 * i])
}

/// The right channel of an interleaved buffer, as far as it is analysed.
pub open spec fn right_of(pcm: Seq<i32>, sample_rate: int) -> Seq<i32> {
    Seq::new(frames_taken(pcm.len() as int, sample_rate) as nat, |i: int| pcm[2 * i + 1])
}

/// The stereo analyzer for recordings of one sample rate, in hertz.
pub struct StereoAnalyzer {
    pub sample_rate: u32,
}

impl StereoAnalyzer {
    pub fn new(sample_rate: u32) -> (a: Self)
        ensures
            a.sample_rate == sample_rate,
    {
        StereoAnalyzer { sample_rate }
    }

    /// Measures the stereo image of an interleaved buffer.
    pub fn analyze_stereo(&self, pcm: &[i32]) -> (report: StereoAnalysis)
        ensures
            report.is_mono == (pcm@.len() % 2 != 0),
            report.is_mono ==> report.channels == 1 && report.mono_compatibility == UNIT
                && report.imaging_quality@ == "Perfect"@ && report.phase_correlation == 0
                && report.stereo_width == 0 && report.imaging_quality_score == 0,
            !report.is_mono ==> ({
                let left = left_of(pcm@, self.sample_rate as int);
                let right = right_of(pcm@, self.sample_rate as int);
                &&& report.channels == 2
                &&& report.phase_correlation == phase_correlation(left, right)
                &&& report.stereo_width == stereo_width(left, right)
                &&& report.mono_compatibility == mono_compatibility(left, right)
                &&& report.imaging_quality_score == imaging_quality(left, right)
                &&& report.imaging_quality@ == grade_name(
                    imaging_grade(
                        report.phase_correlation as int,
                        report.stereo_width as int,
                        report.mono_compatibility as int,
                    ),
                )
            }),
    {
        if pcm.len() % 2 != 0 {
            return StereoAnalysis {
                is_mono: true,
                channels: 1,
                phase_correlation: 0,
                stereo_width: 0,
                mono_compatibility: UNIT,
                imaging_quality_score: 0,
                imaging_quality: "Perfect",
            };
        }
        let (left, right) = extract_stereo_channels(pcm, self.sample_rate);
        assert(left@ =~= left_of(pcm@, self.sample_rate as int));
        assert(right@ =~= right_of(pcm@, self.sample_rate as int));
        let phase = calculate_phase_correlation(left.as_slice(), right.as_slice());
        let width = calculate_stereo_width(left.as_slice(), right.as_slice());
        let mono = calculate_mono_compatibility(left.as_slice(), right.as_slice());
        let score = calculate_imaging_quality(left.as_slice(), right.as_slice());
        StereoAnalysis {
            is_mono: false,
            channels: 2,
            phase_correlation: phase,
            stereo_width: width,
            mono_compatibility: mono,
            imaging_quality_score: score,
            imaging_quality: classify_imaging(phase, width, mono),
        }
    }
}

} // verus!

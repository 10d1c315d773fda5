//! Technical measures of a recording: peaks, clipping, offset, silence and
//! the levels between which its dynamics range. Amplitudes are sample
//! values; times are counted in samples.
use vstd::prelude::*;
use crate::constants::EPSILON_POWER;
use crate::loudness::{is_silent, lemma_silence_has_no_loudness, loudness_of};
use crate::numeric::UNIT;
use crate::order::{kth_smallest, select_kth};
use crate::utils::{calculate_rms, root_mean_square};

verus! {

/// A sample clips when its size reaches this: 0.99 of full scale.
pub const CLIPPING_THRESHOLD: u32 = 8_304_722;

/// The size of a sample.
pub open spec fn magnitude(x: i32) -> int {
    if x >= 0 {
        x as int
    } else {
        -(x as int)
    }
}

/// The size of a sample.
pub fn sample_magnitude(x: i32) -> (m: u32)
    ensures
        m == magnitude(x),
{
    if x >= 0 {
        x as u32
    } else {
        (-(x as i64)) as u32
    }
}

/// The greatest size among the first `n` samples; zero when there is none.
pub open spec fn greatest_magnitude(pcm: Seq<i32>, n: int) -> int
    decreases n,
{
    if n <= 0 {
        0
    } else {
        let before = greatest_magnitude(pcm, n - 1);
        if magnitude(pcm[n - 1]) > before {
            magnitude(pcm[n - 1])
        } else {
            before
        }
    }
}

/// The peak is at least every sample's size and, in a signal that is not
/// empty, is the size of one of the samples.
pub proof fn lemma_greatest_magnitude(pcm: Seq<i32>, n: int)
    requires
        0 <= n <= pcm.len(),
    ensures
        forall|i: int| 0 <= i < n ==> magnitude(#[trigger] pcm[i]) <= greatest_magnitude(pcm, n),
        n > 0 ==> exists|i: int| 0 <= i < n && magnitude(#[trigger] pcm[i]) == greatest_magnitude(
            pcm,
            n,
        ),
    decreases n,
{
    if n > 0 {
        lemma_greatest_magnitude(pcm, n - 1);
        if n > 1 {
            let i = choose|i: int|
                0 <= i < n - 1 && magnitude(#[trigger] pcm[i]) == greatest_magnitude(pcm, n - 1);
            if magnitude(pcm[n - 1]) > greatest_magnitude(pcm, n - 1) {
                assert(magnitude(pcm[n - 1]) == greatest_magnitude(pcm, n));
            } else {
                assert(magnitude(pcm[i]) == greatest_magnitude(pcm, n));
            }
        } else {
            assert(magnitude(pcm[0]) == greatest_magnitude(pcm, n));
        }
    }
}

/// The peak amplitude of a signal.
pub fn peak_amplitude(pcm: &[i32]) -> (peak: u32)
    ensures
        peak == greatest_magnitude(pcm@, pcm@.len() as int),
{
    let mut peak: u32 = 0;
    for i in 0..pcm.len()
        invariant
            peak == greatest_magnitude(pcm@, i as int),
    {
        let m = sample_magnitude(pcm[i]);
        if m > peak {
            peak = m;
        }
    }
    peak
}

/// Four times the size of the signal at quarter step `t`: at sample `t / 4`
/// when the step falls on a sample, else between that sample and the next,
/// a quarter of the way for each step, on the straight line between the
/// two.
pub open spec fn quarter_magnitude(pcm: Seq<i32>, t: int) -> int {
    let i = t / 4;
    let j = t % 4;
    let v = if j == 0 {
        4 * pcm[i]
    } else {
        4 * pcm[i] + j * (pcm[i + 1] - pcm[i])
    };
    if v >= 0 {
        v
    } else {
        -v
    }
}

/// The number of quarter steps of a signal of `len` samples: from the first
/// sample to the last, the last included.
pub open spec fn quarter_steps(len: int) -> int {
    if len <= 0 {
        0
    } else {
        4 * (len - 1) + 1
    }
}

/// The greatest of the first `n` quarter steps, or -1 when there is none.
pub open spec fn greatest_quarter(pcm: Seq<i32>, n: int) -> int
    decreases n,
{
    if n <= 0 {
        -1
    } else {
        let before = greatest_quarter(pcm, n - 1);
        if quarter_magnitude(pcm, n - 1) > before {
            quarter_magnitude(pcm, n - 1)
        } else {
            before
        }
    }
}

/// The quarter steps among the first `n` at which the signal exceeded all
/// steps before.
pub open spec fn record_steps(pcm: Seq<i32>, n: int) -> Seq<u64>
    decreases n,
{
    if n <= 0 {
        Seq::empty()
    } else if quarter_magnitude(pcm, n - 1) > greatest_quarter(pcm, n - 1) {
        record_steps(pcm, n - 1).push((n - 1) as u64)
    } else {
        record_steps(pcm, n - 1)
    }
}

/// The true peak of a signal, as four times an amplitude: the greatest of
/// its quarter steps. An empty signal has none.
pub open spec fn true_peak(pcm: Seq<i32>) -> Option<u64> {
    if pcm.len() == 0 {
        None
    } else {
        Some(greatest_quarter(pcm, quarter_steps(pcm.len() as int)) as u64)
    }
}

/// The greatest true peak, as four times an amplitude, that broadcast
/// accepts: -1 dBTP, which is `4 * FULL_SCALE * 10^(-1 / 20)`, rounded down.
pub const TRUE_PEAK_LIMIT: u64 = 29_905_418;

/// A true peak is fit for broadcast when it does not exceed -1 dBTP; a
/// signal without a peak is.
pub open spec fn is_broadcast_compliant(peak: Option<u64>) -> bool {
    match peak {
        Some(quarters) => quarters <= TRUE_PEAK_LIMIT,
        None => true,
    }
}

/// Every quarter step among the first `n` is at most the greatest of them.
pub proof fn lemma_greatest_quarter_covers(pcm: Seq<i32>, t: int, n: int)
    requires
        0 <= t < n,
    ensures
        quarter_magnitude(pcm, t) <= greatest_quarter(pcm, n),
    decreases n,
{
    if t < n - 1 {
        lemma_greatest_quarter_covers(pcm, t, n - 1);
    }
}

/// No quarter step exceeds four times the peak amplitude: a point on the
/// straight line between two samples is no greater than the greater of the
/// two.
pub proof fn lemma_quarter_under_peak(pcm: Seq<i32>, t: int)
    requires
        0 <= t < quarter_steps(pcm.len() as int),
    ensures
        0 <= quarter_magnitude(pcm, t) <= 4 * greatest_magnitude(pcm, pcm.len() as int),
{
    let len = pcm.len() as int;
    let i = t / 4;
    let j = t % 4;
    lemma_greatest_magnitude(pcm, len);
    let top = greatest_magnitude(pcm, len);
    assert(magnitude(pcm[i]) <= top);
    if j != 0 {
        assert(i + 1 < len);
        assert(magnitude(pcm[i + 1]) <= top);
        let c = pcm[i] as int;
        let n = pcm[i + 1] as int;
        assert(4 * c + j * (n - c) == (4 - j) * c + j * n) by (nonlinear_arith);
        assert(-((4 - j) * top) <= (4 - j) * c <= (4 - j) * top) by (nonlinear_arith)
            requires
                1 <= j <= 3,
                -top <= c <= top,
        ;
        assert(-(j * top) <= j * n <= j * top) by (nonlinear_arith)
            requires
                1 <= j <= 3,
                -top <= n <= top,
        ;
        assert((4 - j) * top + j * top == 4 * top) by (nonlinear_arith);
    }
}

/// None of the first `n` quarter steps exceeds four times the peak
/// amplitude.
proof fn lemma_greatest_quarter_under_peak(pcm: Seq<i32>, n: int)
    requires
        0 <= n <= quarter_steps(pcm.len() as int),
    ensures
        greatest_quarter(pcm, n) <= 4 * greatest_magnitude(pcm, pcm.len() as int),
    decreases n,
{
    if n > 0 {
        lemma_greatest_quarter_under_peak(pcm, n - 1);
        lemma_quarter_under_peak(pcm, n - 1);
    } else {
        lemma_greatest_magnitude(pcm, pcm.len() as int);
        lemma_magnitude_nonnegative(pcm, pcm.len() as int);
    }
}

/// The peak amplitude is never negative.
proof fn lemma_magnitude_nonnegative(pcm: Seq<i32>, n: int)
    ensures
        greatest_magnitude(pcm, n) >= 0,
    decreases n,
{
    if n > 0 {
        lemma_magnitude_nonnegative(pcm, n - 1);
    }
}

/// The true peak is never below a sample: oversampled along straight lines,
/// it is exactly four times the peak amplitude.
pub proof fn lemma_true_peak_is_sample_peak(pcm: Seq<i32>)
    requires
        pcm.len() > 0,
    ensures
        greatest_quarter(pcm, quarter_steps(pcm.len() as int)) == 4 * greatest_magnitude(
            pcm,
            pcm.len() as int,
        ),
        forall|i: int|
            0 <= i < pcm.len() ==> 4 * magnitude(#[trigger] pcm[i]) <= greatest_quarter(
                pcm,
                quarter_steps(pcm.len() as int),
            ),
{
    let len = pcm.len() as int;
    let steps = quarter_steps(len);
    lemma_greatest_quarter_under_peak(pcm, steps);
    lemma_greatest_magnitude(pcm, len);
    let at = choose|i: int|
        0 <= i < len && magnitude(#[trigger] pcm[i]) == greatest_magnitude(pcm, len);
    assert(quarter_magnitude(pcm, 4 * at) == 4 * magnitude(pcm[at]));
    lemma_greatest_quarter_covers(pcm, 4 * at, steps);
}

/// The true peak of a signal, found on the signal oversampled four times
/// along straight lines from its first sample to its last. Returns four
/// times the peak amplitude, the quarter steps at which a new peak was met,
/// and whether the peak is fit for broadcast. An empty signal has no true
/// peak.
pub fn calculate_true_peak(pcm: &[i32]) -> (peak: (Option<u64>, Vec<u64>, bool))
    requires
        pcm@.len() <= 0x3fff_ffff_ffff_ffff,
    ensures
        peak.0 == true_peak(pcm@),
        peak.0 is None <==> pcm@.len() == 0,
        peak.0 matches Some(quarters) ==> quarters == 4 * greatest_magnitude(
            pcm@,
            pcm@.len() as int,
        ),
        peak.1@ == record_steps(pcm@, quarter_steps(pcm@.len() as int)),
        peak.2 == is_broadcast_compliant(peak.0),
{
    let mut locations: Vec<u64> = Vec::new();
    let len = pcm.len();
    if len == 0 {
        return (None, locations, true);
    }
    let mut best: i64 = -1;
    let steps: u64 = 4 * ((len - 1) as u64) + 1;
    let mut t: u64 = 0;
    while t < steps
        invariant
            len == pcm@.len(),
            len >= 1,
            steps == quarter_steps(len as int),
            t <= steps,
            best == greatest_quarter(pcm@, t as int),
            -1 <= best <= 0x4_0000_0000,
            locations@ == record_steps(pcm@, t as int),
        decreases steps - t,
    {
        let i: usize = (t / 4) as usize;
        let j: i64 = (t % 4) as i64;
        let current: i64 = pcm[i] as i64;
        let v: i64 = if j == 0 {
            4 * current
        } else {
            let next: i64 = pcm[i + 1] as i64;
            assert(-0x3_0000_0000 <= j * (next - current) <= 0x3_0000_0000) by (nonlinear_arith)
                requires
                    0 <= j <= 3,
                    -0x1_0000_0000 <= next - current <= 0x1_0000_0000,
            ;
            4 * current + j * (next - current)
        };
        let size: i64 = if v >= 0 {
            v
        } else {
            -v
        };
        proof {
            lemma_quarter_under_peak(pcm@, t as int);
            lemma_greatest_magnitude(pcm@, len as int);
            lemma_peak_fits(pcm@, len as int);
        }
        assert(size == quarter_magnitude(pcm@, t as int));
        if size > best {
            best = size;
            locations.push(t);
        }
        t = t + 1;
    }
    proof {
        lemma_true_peak_is_sample_peak(pcm@);
    }
    (Some(best as u64), locations, best as u64 <= TRUE_PEAK_LIMIT)
}

/// The peak amplitude is the size of a sample at most.
proof fn lemma_peak_fits(pcm: Seq<i32>, n: int)
    requires
        0 <= n <= pcm.len(),
    ensures
        0 <= greatest_magnitude(pcm, n) <= 0x8000_0000,
    decreases n,
{
    if n > 0 {
        lemma_peak_fits(pcm, n - 1);
    }
}

/// The number of the first `n` samples that clip.
pub open spec fn clipped_count(pcm: Seq<i32>, n: int) -> int
    decreases n,
{
    if n <= 0 {
        0
    } else if magnitude(pcm[n - 1]) >= CLIPPING_THRESHOLD {
        clipped_count(pcm, n - 1) + 1
    } else {
        clipped_count(pcm, n - 1)
    }
}

/// Counts the samples that clip. Returns whether any does, how many do, and
/// their share of all samples in millionths (zero for an empty signal).
pub fn detect_clipping(pcm: &[i32]) -> (found: (bool, usize, u32))
    ensures
        found.1 == clipped_count(pcm@, pcm@.len() as int),
        found.0 == (found.1 > 0),
        found.2 == if pcm@.len() == 0 {
            0
        } else {
            found.1 * UNIT / (pcm@.len() as int)
        },
        found.2 <= UNIT,
{
    let len = pcm.len();
    let mut clipped: usize = 0;
    for i in 0..len
        invariant
            len == pcm@.len(),
            clipped == clipped_count(pcm@, i as int),
            clipped <= i,
    {
        if sample_magnitude(pcm[i]) >= CLIPPING_THRESHOLD {
            clipped = clipped + 1;
        }
    }
    let share: u32 = if len == 0 {
        0
    } else {
        assert((clipped * 1_000_000) / (len as int) <= 1_000_000) by (nonlinear_arith)
            requires
                0 <= clipped <= len,
                len > 0,
        ;
        ((clipped as u128) * 1_000_000 / (len as u128)) as u32
    };
    (clipped > 0, clipped, share)
}

/// The sum of the first `n` samples.
pub open spec fn sample_sum(pcm: Seq<i32>, n: int) -> int
    decreases n,
{
    if n <= 0 {
        0
    } else {
        sample_sum(pcm, n - 1) + pcm[n - 1]
    }
}

/// The mean of the samples, rounded toward zero; zero for an empty signal.
pub open spec fn dc_offset(pcm: Seq<i32>) -> int {
    let len = pcm.len() as int;
    let sum = sample_sum(pcm, len);
    if len == 0 {
        0
    } else if sum >= 0 {
        sum / len
    } else {
        -((-sum) / len)
    }
}

/// The DC offset of a signal.
pub fn calculate_dc_offset(pcm: &[i32]) -> (offset: i32)
    ensures
        offset == dc_offset(pcm@),
{
    let len = pcm.len();
    if len == 0 {
        return 0;
    }
    let mut sum: i128 = 0;
    for i in 0..len
        invariant
            len == pcm@.len(),
            sum == sample_sum(pcm@, i as int),
            -(i * 0x8000_0000) <= sum <= i * 0x7fff_ffff,
    {
        sum = sum + pcm[i] as i128;
    }
    if sum >= 0 {
        assert(0 <= (sum as int) / (len as int) <= 0x7fff_ffff) by (nonlinear_arith)
            requires
                0 <= sum <= len * 0x7fff_ffff,
                len > 0,
        ;
        (sum / (len as i128)) as i32
    } else {
        let size: i128 = -sum;
        assert(0 <= (size as int) / (len as int) <= 0x8000_0000) by (nonlinear_arith)
            requires
                0 <= size <= len * 0x8000_0000,
                len > 0,
        ;
        (-(size / (len as i128))) as i32
    }
}

/// A sample is loud when its size exceeds the threshold.
pub open spec fn is_loud(x: i32, threshold: u32) -> bool {
    magnitude(x) > threshold
}

/// No sample of the signal is loud.
pub open spec fn is_all_quiet(pcm: Seq<i32>, threshold: u32) -> bool {
    forall|i: int| 0 <= i < pcm.len() ==> !is_loud(#[trigger] pcm[i], threshold)
}

/// `leading` samples lie before the first loud sample and `trailing` samples
/// after the last; a signal without a loud sample has neither.
pub open spec fn is_silence_around(pcm: Seq<i32>, threshold: u32, leading: int, trailing: int)
    -> bool {
    if is_all_quiet(pcm, threshold) {
        leading == 0 && trailing == 0
    } else {
        &&& 0 <= leading < pcm.len()
        &&& is_loud(pcm[leading], threshold)
        &&& forall|j: int| 0 <= j < leading ==> !is_loud(#[trigger] pcm[j], threshold)
        &&& 0 <= trailing < pcm.len()
        &&& is_loud(pcm[pcm.len() - 1 - trailing], threshold)
        &&& forall|j: int|
            pcm.len() - 1 - trailing < j < pcm.len() ==> !is_loud(#[trigger] pcm[j], threshold)
    }
}

/// The first `n` samples end in silence.
pub open spec fn silence_open(pcm: Seq<i32>, threshold: u32, n: int) -> bool {
    n > 0 && !is_loud(pcm[n - 1], threshold)
}

/// The sample at which the silence began that the first `n` samples last
/// entered.
pub open spec fn silence_start(pcm: Seq<i32>, threshold: u32, n: int) -> int
    decreases n,
{
    if n <= 0 {
        0
    } else if !is_loud(pcm[n - 1], threshold) && !silence_open(pcm, threshold, n - 1) {
        n - 1
    } else {
        silence_start(pcm, threshold, n - 1)
    }
}

/// The silence that ends at sample `i` lasts longer than a tenth of a
/// second.
pub open spec fn is_long_gap(start: int, i: int, sample_rate: int) -> bool {
    10 * (i - start) > sample_rate
}

/// The gaps found in the first `n` samples: the silences longer than a
/// tenth of a second that a loud sample has ended, each from its first
/// silent sample to the loud sample that ends it.
pub open spec fn gaps_found(pcm: Seq<i32>, threshold: u32, sample_rate: int, n: int) -> Seq<
    (usize, usize),
>
    decreases n,
{
    if n <= 0 {
        Seq::empty()
    } else {
        let before = gaps_found(pcm, threshold, sample_rate, n - 1);
        let start = silence_start(pcm, threshold, n - 1);
        if is_loud(pcm[n - 1], threshold) && silence_open(pcm, threshold, n - 1) && is_long_gap(
            start,
            n - 1,
            sample_rate,
        ) {
            before.push((start as usize, (n - 1) as usize))
        } else {
            before
        }
    }
}

/// The start of the current silence lies within the samples seen, and a
/// silence that is open has been silent from its start on.
pub proof fn lemma_silence_start(pcm: Seq<i32>, threshold: u32, n: int)
    requires
        0 <= n <= pcm.len(),
    ensures
        0 <= silence_start(pcm, threshold, n) <= n,
        silence_open(pcm, threshold, n) ==> silence_start(pcm, threshold, n) < n && forall|j: int|
            silence_start(pcm, threshold, n) <= j < n ==> !is_loud(#[trigger] pcm[j], threshold),
        silence_open(pcm, threshold, n) && silence_start(pcm, threshold, n) > 0 ==> is_loud(
            pcm[silence_start(pcm, threshold, n) - 1],
            threshold,
        ),
    decreases n,
{
    if n > 0 {
        lemma_silence_start(pcm, threshold, n - 1);
    }
}

/// Finds the silence in a signal: the number of samples before the first
/// loud sample, the number after the last, and the gaps between. A signal
/// without a loud sample has neither leading nor trailing silence.
pub fn detect_silence(pcm: &[i32], threshold: u32, sample_rate: u32) -> (found: (
    usize,
    usize,
    Vec<(usize, usize)>,
))
    ensures
        is_silence_around(pcm@, threshold, found.0 as int, found.1 as int),
        found.2@ == gaps_found(pcm@, threshold, sample_rate as int, pcm@.len() as int),
{
    let len = pcm.len();
    let mut leading: usize = 0;
    let mut first: usize = 0;
    while first < len && sample_magnitude(pcm[first]) <= threshold
        invariant
            len == pcm@.len(),
            first <= len,
            forall|j: int| 0 <= j < first ==> !is_loud(#[trigger] pcm@[j], threshold),
        decreases len - first,
    {
        first = first + 1;
    }
    let mut trailing: usize = 0;
    if first < len {
        leading = first;
        let mut last: usize = len - 1;
        while sample_magnitude(pcm[last]) <= threshold
            invariant
                len == pcm@.len(),
                first <= last < len,
                is_loud(pcm@[first as int], threshold),
                forall|j: int| last < j < len ==> !is_loud(#[trigger] pcm@[j], threshold),
            decreases last,
        {
            last = last - 1;
        }
        trailing = len - 1 - last;
    }
    let mut gaps: Vec<(usize, usize)> = Vec::new();
    let mut in_silence: bool = false;
    let mut silence_began: usize = 0;
    for i in 0..len
        invariant
            len == pcm@.len(),
            in_silence == silence_open(pcm@, threshold, i as int),
            silence_began == silence_start(pcm@, threshold, i as int),
            silence_began <= i,
            gaps@ == gaps_found(pcm@, threshold, sample_rate as int, i as int),
    {
        let is_silent = sample_magnitude(pcm[i]) <= threshold;
        if is_silent && !in_silence {
            in_silence = true;
            silence_began = i;
        } else if !is_silent && in_silence {
            in_silence = false;
            if 10 * ((i - silence_began) as u128) > sample_rate as u128 {
                gaps.push((silence_began, i));
            }
        }
    }
    (leading, trailing, gaps)
}

/// The levels of the first `k` windows of `window` samples: the
/// root-mean-square amplitude of each window that is not silent, in the
/// order of the windows. The last window may be short.
pub open spec fn window_levels(pcm: Seq<i32>, window: int, k: int) -> Seq<u32>
    decreases k,
{
    if k <= 0 {
        Seq::empty()
    } else {
        let before = window_levels(pcm, window, k - 1);
        let start = (k - 1) * window;
        let end = if start + window < pcm.len() {
            start + window
        } else {
            pcm.len() as int
        };
        let level = root_mean_square(pcm.subrange(start, end));
        if level > 0 {
            before.push(level as u32)
        } else {
            before
        }
    }
}

/// The number of windows of `window` samples that a signal of `len` samples
/// begins.
pub open spec fn level_windows(len: int, window: int) -> int {
    if len <= 0 || window <= 0 {
        0
    } else {
        (len - 1) / window + 1
    }
}

/// The levels between which the dynamics of a signal range: of the levels of
/// its windows of a tenth of a second, sorted, the one a tenth and the one
/// nine tenths of the way up. A signal without a window that is not silent
/// has none, and neither has one whose sample rate leaves a tenth of a
/// second without a sample.
pub open spec fn range_levels(pcm: Seq<i32>, sample_rate: int) -> Option<(u32, u32)> {
    let all = window_levels(pcm, sample_rate / 10, level_windows(pcm.len() as int, sample_rate / 10));
    if all.len() == 0 {
        None
    } else {
        Some(
            (
                kth_smallest(all, all.len() as int / 10) as u32,
                kth_smallest(all, all.len() as int * 9 / 10) as u32,
            ),
        )
    }
}

/// The levels between which the dynamics of a signal range.
pub fn dynamic_range_levels(pcm: &[i32], sample_rate: u32) -> (levels: Option<(u32, u32)>)
    ensures
        levels == range_levels(pcm@, sample_rate as int),
{
    let len = pcm.len();
    let window: usize = (sample_rate / 10) as usize;
    if window == 0 || len == 0 {
        return None;
    }
    let windows: usize = (len - 1) / window + 1;
    let mut rms_values: Vec<u32> = Vec::new();
    let mut k: usize = 0;
    while k < windows
        invariant
            len == pcm@.len(),
            window == sample_rate as int / 10,
            window > 0,
            windows == level_windows(len as int, window as int),
            k <= windows,
            rms_values@ == window_levels(pcm@, window as int, k as int),
            rms_values@.len() <= k,
        decreases windows - k,
    {
        assert(k * window <= len - 1) by (nonlinear_arith)
            requires
                k <= (len - 1) / (window as int),
                len > 0,
                window > 0,
        ;
        let start: usize = k * window;
        let end: usize = if window < len - start {
            start + window
        } else {
            len
        };
        let samples = vstd::slice::slice_subrange(pcm, start, end);
        let rms = calculate_rms(samples);
        if rms > 0 {
            rms_values.push(rms as u32);
        }
        k = k + 1;
    }
    let n = rms_values.len();
    if n == 0 {
        None
    } else {
        let upper: usize = ((n as u128) * 9 / 10) as usize;
        let p10 = select_kth(rms_values.as_slice(), n / 10);
        let p90 = select_kth(rms_values.as_slice(), upper);
        Some((p10, p90))
    }
}

/// The least and the greatest integrated power, with `EPSILON_POWER` added,
/// of a recording mastered on target: -16 LUFS and -8 LUFS.
pub const TARGET_POWER_LOW: u128 = 2_072_429_666_631;

pub const TARGET_POWER_HIGH: u128 = 13_076_147_190_791;

/// The integrated loudness lies within the range that mastering aims at,
/// from -16 LUFS to -8 LUFS; a recording without loudness does not.
pub open spec fn is_on_target(integrated_power: Option<u128>) -> bool {
    match integrated_power {
        Some(power) => TARGET_POWER_LOW <= power + EPSILON_POWER <= TARGET_POWER_HIGH,
        None => false,
    }
}

/// A silent recording hands the technical analysis no loudness: the loudness
/// measurement finds no block above the absolute gate and no integrated
/// power, so the recording is not on target.
pub proof fn lemma_silence_is_off_target(samples: Seq<i32>, channels: int)
    requires
        is_silent(samples),
    ensures
        loudness_of(samples, channels).gated_blocks == 0,
        loudness_of(samples, channels).integrated is None,
        !is_on_target(loudness_of(samples, channels).integrated),
{
    lemma_silence_has_no_loudness(samples, channels);
}

/// What the technical analysis of a recording reports: four times the true
/// peak with the quarter steps at which it rose and whether it is fit for
/// broadcast, the clipping, the DC offset, the silence in samples, the peak
/// amplitude, the levels between which the dynamics range, and the
/// integrated power that the peak is held against, with whether it is on
/// target.
#[derive(Debug)]
pub struct TechnicalAnalysis {
    pub true_peak: Option<u64>,
    pub peak_locations: Vec<u64>,
    pub broadcast_compliant: bool,
    pub has_clipping: bool,
    pub clipped_samples: usize,
    pub clipping_share: u32,
    pub dc_offset: i32,
    pub leading_silence: usize,
    pub trailing_silence: usize,
    pub silence_gaps: Vec<(usize, usize)>,
    pub peak: u32,
    pub dynamic_range: Option<(u32, u32)>,
    pub integrated_power: Option<u128>,
    pub loudness_on_target: bool,
}

/// The technical analyzer for recordings of one sample rate, in hertz.
pub struct TechnicalAnalyzer {
    pub sample_rate: u32,
}

impl TechnicalAnalyzer {
    pub fn new(sample_rate: u32) -> (a: Self)
        ensures
            a.sample_rate == sample_rate,
    {
        TechnicalAnalyzer { sample_rate }
    }

    /// Takes the technical measures of a signal whose integrated power the
    /// loudness measurement has found; samples no louder than
    /// `silence_threshold` count as silent.
    pub fn analyze_technical(
        &self,
        pcm: &[i32],
        integrated_power: Option<u128>,
        silence_threshold: u32,
    ) -> (report: TechnicalAnalysis)
        requires
            pcm@.len() <= 0x3fff_ffff_ffff_ffff,
        ensures
            report.true_peak == true_peak(pcm@),
            report.true_peak matches Some(quarters) ==> quarters == 4 * greatest_magnitude(
                pcm@,
                pcm@.len() as int,
            ),
            report.peak_locations@ == record_steps(pcm@, quarter_steps(pcm@.len() as int)),
            report.broadcast_compliant == is_broadcast_compliant(report.true_peak),
            report.clipped_samples == clipped_count(pcm@, pcm@.len() as int),
            report.has_clipping == (report.clipped_samples > 0),
            report.clipping_share == if pcm@.len() == 0 {
                0
            } else {
                report.clipped_samples * UNIT / (pcm@.len() as int)
            },
            report.dc_offset == dc_offset(pcm@),
            report.silence_gaps@ == gaps_found(
                pcm@,
                silence_threshold,
                self.sample_rate as int,
                pcm@.len() as int,
            ),
            is_silence_around(
                pcm@,
                silence_threshold,
                report.leading_silence as int,
                report.trailing_silence as int,
            ),
            report.peak == greatest_magnitude(pcm@, pcm@.len() as int),
            report.dynamic_range == range_levels(pcm@, self.sample_rate as int),
            report.integrated_power == integrated_power,
            report.loudness_on_target == is_on_target(integrated_power),
    {
        let (true_peak, peak_locations, broadcast_compliant) = calculate_true_peak(pcm);
        let (has_clipping, clipped_samples, clipping_share) = detect_clipping(pcm);
        let dc = calculate_dc_offset(pcm);
        let (leading_silence, trailing_silence, silence_gaps) = detect_silence(
            pcm,
            silence_threshold,
            self.sample_rate,
        );
        let peak = peak_amplitude(pcm);
        let dynamic_range = dynamic_range_levels(pcm, self.sample_rate);
        let loudness_on_target = match integrated_power {
            Some(power) => power <= TARGET_POWER_HIGH && TARGET_POWER_LOW <= power
                + EPSILON_POWER && power + EPSILON_POWER <= TARGET_POWER_HIGH,
            None => false,
        };
        TechnicalAnalysis {
            true_peak,
            peak_locations,
            broadcast_compliant,
            has_clipping,
            clipped_samples,
            clipping_share,
            dc_offset: dc,
            leading_silence,
            trailing_silence,
            silence_gaps,
            peak,
            dynamic_range,
            integrated_power,
            loudness_on_target,
        }
    }
}

} // verus!

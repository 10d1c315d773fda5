//! Harmonic pitch-class profiles: the bounded history of frames and the
//! profile pooled from it.
use vstd::prelude::*;
use crate::constants::{
    BAND_HIGH_HZ, BAND_LOW_HZ, HARMONIC_WEIGHTS, MAGNITUDE_MAX, MAX_FRAMES, MAX_PEAKS,
    MAX_SAMPLE_RATE, NUM_HARMONICS, PEAK_THRESHOLD, TUNING_RATIOS, TUNING_RATIO_MAX,
};
use crate::numeric::{UNIT, lemma_prefix_sum_bounds, lemma_prefix_sum_entry, seq_sum};
use crate::ranking::{
    Ranked, insert_ranked, is_ranked, is_top_ranking, kept_or_outranked, lemma_top_ranking_unique,
    ranks_before,
};
use crate::order::{kth_smallest, select_kth};
use crate::utils::{
    freq_to_pitch_class_precise, is_chroma, is_normalized_from, lemma_normalized_entries,
    lemma_normalized_sum, lemma_normalized_unique, normalize_vector, pitch_class_of, sum_of,
};

verus! {

/// The number of frames that the history holds at most.
pub const HPCP_CAPACITY: usize = 50;

/// The number of frames from which the history is ready to be pooled.
pub const HPCP_READY: usize = 10;

/// The history after `frame` has arrived: the frame joins at the end, and
/// the oldest frame leaves when the history is full.
pub open spec fn pushed(history: Seq<Seq<u32>>, frame: Seq<u32>) -> Seq<Seq<u32>> {
    if history.len() < HPCP_CAPACITY {
        history.push(frame)
    } else {
        history.subrange(1, history.len() as int).push(frame)
    }
}

/// The values of bin `b` through the frames of a history.
pub open spec fn column_of(history: Seq<Seq<u32>>, b: int) -> Seq<u32> {
    Seq::new(history.len(), |i: int| history[i][b])
}

/// Twice the median of a column: twice the middle value of an odd number of
/// values, the sum of the two middle values of an even number.
pub open spec fn twice_median(column: Seq<u32>) -> int {
    let n = column.len() as int;
    if n % 2 == 1 {
        2 * kth_smallest(column, n / 2)
    } else {
        kth_smallest(column, n / 2 - 1) + kth_smallest(column, n / 2)
    }
}

/// The pooled weight of bin `b`: `0.7 * median + 0.3 * mean` of its column,
/// times twenty times the number of frames, which keeps it an integer.
pub open spec fn pooled_weight(history: Seq<Seq<u32>>, b: int) -> int {
    let column = column_of(history, b);
    7 * twice_median(column) * history.len() + 6 * seq_sum(column)
}

/// The pooled weights of the twelve bins.
pub open spec fn pooled_weights(history: Seq<Seq<u32>>) -> Seq<u32> {
    Seq::new(12, |b: int| pooled_weight(history, b) as u32)
}

/// The profile pooled from a history: the pooled weights normalized to one
/// whole; all zero before the history is ready.
pub open spec fn is_pooled_profile(profile: Seq<u32>, history: Seq<Seq<u32>>) -> bool {
    if history.len() < HPCP_READY {
        profile.len() == 12 && forall|b: int| 0 <= b < 12 ==> profile[b] == 0
    } else {
        is_normalized_from(profile, pooled_weights(history))
    }
}

/// Some frame of the history has energy in some bin.
pub open spec fn has_energy(history: Seq<Seq<u32>>) -> bool {
    exists|i: int, b: int| 0 <= i < history.len() && 0 <= b < 12 && #[trigger] history[i][b] > 0
}

/// The bounded history of profile frames: a ring of at most `HPCP_CAPACITY`
/// slots, with the index of the oldest frame.
pub struct HpcpState {
    slots: Vec<[u32; 12]>,
    oldest: usize,
}

impl HpcpState {
    /// The frames in temporal order, oldest first.
    pub closed spec fn view(&self) -> Seq<Seq<u32>> {
        Seq::new(self.slots@.len(), |i: int| self.slots@[(self.oldest + i) % 50]@)
    }

    /// The ring is within its capacity and its frames are chroma vectors.
    pub closed spec fn wf(&self) -> bool {
        &&& self.slots@.len() <= HPCP_CAPACITY
        &&& self.oldest < HPCP_CAPACITY
        &&& self.slots@.len() < HPCP_CAPACITY ==> self.oldest == 0
        &&& forall|i: int| 0 <= i < self.slots@.len() ==> is_chroma(#[trigger] self.slots@[i]@)
    }

    /// A well-formed history holds at most `HPCP_CAPACITY` chroma vectors.
    pub proof fn lemma_wf(&self)
        requires
            self.wf(),
        ensures
            self.view().len() <= HPCP_CAPACITY,
            forall|i: int| 0 <= i < self.view().len() ==> is_chroma(#[trigger] self.view()[i]),
    {
        assert forall|i: int| 0 <= i < self.view().len() implies is_chroma(
            #[trigger] self.view()[i],
        ) by {
            assert(is_chroma(self.slots@[(self.oldest + i) % 50]@));
        }
    }

    /// An empty history.
    pub fn new() -> (state: Self)
        ensures
            state.wf(),
            state.view() == Seq::<Seq<u32>>::empty(),
    {
        let state = HpcpState { slots: Vec::new(), oldest: 0 };
        assert(state.view() =~= Seq::<Seq<u32>>::empty());
        state
    }

    /// The number of frames held.
    pub fn len(&self) -> (n: usize)
        requires
            self.wf(),
        ensures
            n == self.view().len(),
            n <= HPCP_CAPACITY,
    {
        self.slots.len()
    }

    /// Tells whether enough frames are held to pool a profile.
    pub fn is_ready(&self) -> (ready: bool)
        requires
            self.wf(),
        ensures
            ready == (self.view().len() >= HPCP_READY),
    {
        self.slots.len() >= HPCP_READY
    }

    /// The frame at position `i` in temporal order.
    pub fn frame(&self, i: usize) -> (f: [u32; 12])
        requires
            self.wf(),
            i < self.view().len(),
        ensures
            f@ == self.view()[i as int],
            is_chroma(f@),
    {
        self.slots[(self.oldest + i) % 50]
    }

    /// Adds a frame; the oldest frame leaves when the history is full.
    pub fn push(&mut self, frame: [u32; 12])
        requires
            old(self).wf(),
            is_chroma(frame@),
        ensures
            final(self).wf(),
            final(self).view() == pushed(old(self).view(), frame@),
    {
        if self.slots.len() < HPCP_CAPACITY {
            self.slots.push(frame);
            assert(self.view() =~= pushed(old(self).view(), frame@));
        } else {
            let at = self.oldest;
            self.slots[at] = frame;
            self.oldest = (at + 1) % 50;
            assert(self.view() =~= pushed(old(self).view(), frame@)) by {
                assert forall|i: int| 0 <= i < 50 implies self.view()[i] == pushed(
                    old(self).view(),
                    frame@,
                )[i] by {
                    if i < 49 {
                        assert((self.oldest + i) % 50 == (at + (i + 1)) % 50);
                    } else {
                        assert((self.oldest + i) % 50 == at);
                    }
                }
            }
        }
    }
    /// The values of bin `b` through the frames, oldest first.
    fn column(&self, b: usize) -> (values: Vec<u32>)
        requires
            self.wf(),
            b < 12,
        ensures
            values@ == column_of(self.view(), b as int),
            forall|i: int| 0 <= i < values@.len() ==> (#[trigger] values@[i]) <= UNIT,
    {
        let n = self.slots.len();
        let mut values: Vec<u32> = Vec::new();
        for i in 0..n
            invariant
                self.wf(),
                b < 12,
                n == self.view().len(),
                values@.len() == i,
                forall|j: int|
                    0 <= j < i ==> (#[trigger] values@[j]) == self.view()[j][b as int]
                        && values@[j] <= UNIT,
        {
            let f = self.frame(i);
            values.push(f[b]);
        }
        assert(values@ =~= column_of(self.view(), b as int));
        values
    }

    /// Pools the history into one profile: per bin `0.7 * median + 0.3 *
    /// mean` over the frames, normalized to one whole. Before the history is
    /// ready the profile is all zero. Once it is ready and any frame has
    /// energy, the bins of the profile add up to one whole to within six
    /// millionths.
    pub fn pooled(&self) -> (profile: [u32; 12])
        requires
            self.wf(),
        ensures
            is_pooled_profile(profile@, self.view()),
            is_chroma(profile@),
            self.view().len() >= HPCP_READY && has_energy(self.view()) ==> -12 <= 2 * (seq_sum(
                profile@,
            ) - UNIT) <= 12,
    {
        let n = self.slots.len();
        let mut weights: [u32; 12] = [0; 12];
        if n < HPCP_READY {
            return weights;
        }
        for b in 0..12usize
            invariant
                self.wf(),
                n == self.view().len(),
                HPCP_READY <= n <= HPCP_CAPACITY,
                forall|c: int|
                    0 <= c < b ==> (#[trigger] weights@[c]) == pooled_weight(self.view(), c)
                        && weights@[c] >= 6 * seq_sum(column_of(self.view(), c)),
        {
            let values = self.column(b);
            let twice: u64 = if n % 2 == 1 {
                2 * (select_kth(values.as_slice(), n / 2) as u64)
            } else {
                select_kth(values.as_slice(), n / 2 - 1) as u64 + select_kth(
                    values.as_slice(),
                    n / 2,
                ) as u64
            };
            let total: u64 = sum_of(values.as_slice()) as u64;
            proof {
                lemma_prefix_sum_bounds(values@, values@.len() as int, UNIT as int);
                assert(values@.len() * UNIT <= 50 * 1_000_000) by (nonlinear_arith)
                    requires
                        values@.len() <= 50,
                ;
                assert(twice == twice_median(values@));
                assert(twice * n <= 2_000_000 * 50) by (nonlinear_arith)
                    requires
                        twice <= 2_000_000,
                        n <= 50,
                ;
                assert(7 * twice_median(values@) * n == 7 * (twice * n)) by (nonlinear_arith)
                    requires
                        twice == twice_median(values@),
                ;
            }
            weights[b] = (7 * (twice * (n as u64)) + 6 * total) as u32;
        }
        assert(weights@ =~= pooled_weights(self.view()));
        let ghost raw = weights@;
        normalize_vector(&mut weights);
        proof {
            if seq_sum(raw) > 0 {
                lemma_normalized_entries(weights@, raw);
                lemma_normalized_sum(weights@, raw);
            } else {
                assert forall|b: int| 0 <= b < 12 implies (#[trigger] weights@[b]) <= UNIT by {
                    lemma_prefix_sum_entry(raw, b);
                }
            }
            if has_energy(self.view()) {
                let (i, b) = choose|i: int, b: int|
                    0 <= i < self.view().len() && 0 <= b < 12 && #[trigger] self.view()[i][b] > 0;
                let lane = column_of(self.view(), b);
                assert(lane[i] == self.view()[i][b]);
                lemma_prefix_sum_entry(lane, i);
                assert(raw[b] >= 6 * seq_sum(lane));
                lemma_prefix_sum_entry(raw, b);
            }
        }
        weights
    }
}

/// A magnitude spectrum: no bin exceeds `MAGNITUDE_MAX`.
pub open spec fn is_spectrum(s: Seq<u32>) -> bool {
    forall|k: int| 0 <= k < s.len() ==> (#[trigger] s[k]) <= MAGNITUDE_MAX
}

/// Bin `k` is a peak: it exceeds the threshold and its two neighbours on
/// each side.
pub open spec fn is_peak(s: Seq<u32>, k: int) -> bool {
    &&& 2 <= k
    &&& k + 2 < s.len()
    &&& s[k] > PEAK_THRESHOLD
    &&& s[k] > s[k - 1]
    &&& s[k] > s[k - 2]
    &&& s[k] > s[k + 1]
    &&& s[k] > s[k + 2]
}

/// The frequency of bin `k`, which is `k * sample_rate / frame_size` hertz,
/// lies in the band in which peaks are picked.
pub open spec fn in_band(k: int, sample_rate: int, frame_size: int) -> bool {
    BAND_LOW_HZ * frame_size <= k * sample_rate <= BAND_HIGH_HZ * frame_size
}

/// Bin `k` is a peak in the band.
pub open spec fn is_candidate_peak(s: Seq<u32>, sample_rate: int, frame_size: int, k: int) -> bool {
    is_peak(s, k) && in_band(k, sample_rate, frame_size)
}

/// The peak at bin `k` as it enters the ranking: by magnitude, equal
/// magnitudes by bin.
pub open spec fn peak_at(s: Seq<u32>, k: int) -> Ranked {
    Ranked { score: s[k], tag: k as usize }
}

/// `top` holds the strongest peaks of a spectrum within the band, at most
/// `MAX_PEAKS` of them, in ranking order.
pub open spec fn is_peak_ranking(s: Seq<u32>, sample_rate: int, frame_size: int, top: Seq<Ranked>)
    -> bool {
    &&& is_ranked(top)
    &&& top.len() <= MAX_PEAKS
    &&& forall|i: int|
        0 <= i < top.len() ==> is_candidate_peak(
            s,
            sample_rate,
            frame_size,
            (#[trigger] top[i]).tag as int,
        ) && top[i] == peak_at(s, top[i].tag as int)
    &&& forall|k: int|
        0 <= k < s.len() && is_candidate_peak(s, sample_rate, frame_size, k) ==> kept_or_outranked(
            top,
            MAX_PEAKS as int,
            #[trigger] peak_at(s, k),
        )
}

/// Picks the strongest peaks of a magnitude spectrum within the band.
pub fn pick_peaks(spectrum: &[u32], sample_rate: u32, frame_size: u32) -> (peaks: Vec<Ranked>)
    ensures
        is_peak_ranking(spectrum@, sample_rate as int, frame_size as int, peaks@),
{
    let mut top: Vec<Ranked> = Vec::new();
    let n = spectrum.len();
    for k in 0..n
        invariant
            n == spectrum@.len(),
            is_ranked(top@),
            top@.len() <= 50,
            forall|i: int|
                0 <= i < top@.len() ==> (#[trigger] top@[i]).tag < k && is_candidate_peak(
                    spectrum@,
                    sample_rate as int,
                    frame_size as int,
                    top@[i].tag as int,
                ) && top@[i] == peak_at(spectrum@, top@[i].tag as int),
            forall|j: int|
                0 <= j < k && is_candidate_peak(spectrum@, sample_rate as int, frame_size as int, j)
                    ==> kept_or_outranked(top@, 50, #[trigger] peak_at(spectrum@, j)),
    {
        if k >= 2 && n - k > 2 {
            let here = spectrum[k];
            assert(k * sample_rate <= 0xffff_ffff_ffff_ffff * 0xffff_ffff) by (nonlinear_arith)
                requires
                    0 <= k <= 0xffff_ffff_ffff_ffff,
                    0 <= sample_rate <= 0xffff_ffff,
            ;
            let position: u128 = (k as u128) * (sample_rate as u128);
            let low: u128 = (BAND_LOW_HZ as u128) * (frame_size as u128);
            let high: u128 = (BAND_HIGH_HZ as u128) * (frame_size as u128);
            if here > PEAK_THRESHOLD && here > spectrum[k - 1] && here > spectrum[k - 2] && here
                > spectrum[k + 1] && here > spectrum[k + 2] && low <= position && position
                <= high {
                let item = Ranked { score: here, tag: k };
                let ghost before = top@;
                assert(item == peak_at(spectrum@, k as int));
                insert_ranked(&mut top, item, MAX_PEAKS);
                assert forall|j: int|
                    0 <= j < k + 1 && is_candidate_peak(
                        spectrum@,
                        sample_rate as int,
                        frame_size as int,
                        j,
                    ) implies kept_or_outranked(top@, 50, #[trigger] peak_at(spectrum@, j)) by {
                    if j < k {
                        let x = peak_at(spectrum@, j);
                        assert(kept_or_outranked(before, 50, x));
                        if before.contains(x) {
                            let i = choose|i: int| 0 <= i < before.len() && before[i] == x;
                            assert(kept_or_outranked(top@, 50, before[i]));
                        } else {
                            assert(ranks_before(before[49], x));
                            assert(ranks_before(top@[49], x));
                        }
                    }
                }
            }
        }
    }
    top
}

/// The frequency in millihertz of bin `bin`, adjusted by a tuning ratio:
/// `bin * sample_rate / frame_size` hertz times the ratio, rounded down.
pub open spec fn peak_millihertz(bin: int, sample_rate: int, frame_size: int, ratio: int) -> int {
    (bin * sample_rate * ratio) / (frame_size * 1000)
}

/// The frequency in millihertz of a spectrum bin, adjusted by a tuning
/// ratio.
pub fn peak_frequency(bin: usize, sample_rate: u32, frame_size: u32, ratio: u32) -> (freq: u32)
    requires
        0 < frame_size,
        bin <= frame_size,
        sample_rate <= MAX_SAMPLE_RATE,
        ratio <= TUNING_RATIO_MAX,
    ensures
        freq == peak_millihertz(bin as int, sample_rate as int, frame_size as int, ratio as int),
{
    let b: u128 = bin as u128;
    let n: u128 = frame_size as u128;
    assert(b * sample_rate <= n * 4_000_000) by (nonlinear_arith)
        requires
            0 <= b <= n,
            0 <= sample_rate <= 4_000_000,
    ;
    let product: u128 = b * (sample_rate as u128);
    assert(product * ratio <= (n * 4_000_000) * 1_029_302) by (nonlinear_arith)
        requires
            0 <= product <= n * 4_000_000,
            0 <= ratio <= 1_029_302,
    ;
    let scaled: u128 = product * (ratio as u128);
    let divisor: u128 = n * 1000;
    assert(scaled / divisor <= 4_117_208_000) by (nonlinear_arith)
        requires
            0 <= scaled <= (n * 4_000_000) * 1_029_302,
            divisor == n * 1000,
            n > 0,
    ;
    (scaled / divisor) as u32
}

/// The part of a peak's magnitude that is folded at its frequency divided
/// by `h`: the magnitude times `1 / sqrt(h)`, rounded down.
pub open spec fn harmonic_share(magnitude: int, h: int) -> int {
    magnitude * HARMONIC_WEIGHTS@[h - 1] / (UNIT as int)
}

/// The energy that a peak adds to pitch class `pc` through its frequency
/// divided by 1 to `upto`.
pub open spec fn peak_energy(freq: int, magnitude: int, pc: int, upto: int) -> int
    decreases upto,
{
    if upto <= 0 {
        0
    } else if pitch_class_of(freq / upto) == pc {
        peak_energy(freq, magnitude, pc, upto - 1) + harmonic_share(magnitude, upto)
    } else {
        peak_energy(freq, magnitude, pc, upto - 1)
    }
}

/// The energy that the first `n` peaks add to pitch class `pc`.
pub open spec fn folded_energy(
    peaks: Seq<Ranked>,
    sample_rate: int,
    frame_size: int,
    ratio: int,
    pc: int,
    n: int,
) -> int
    decreases n,
{
    if n <= 0 {
        0
    } else {
        folded_energy(peaks, sample_rate, frame_size, ratio, pc, n - 1) + peak_energy(
            peak_millihertz(peaks[n - 1].tag as int, sample_rate, frame_size, ratio),
            peaks[n - 1].score as int,
            pc,
            NUM_HARMONICS as int,
        )
    }
}

/// The energy folded into each of the twelve pitch classes.
pub open spec fn folded_weights(peaks: Seq<Ranked>, sample_rate: int, frame_size: int, ratio: int)
    -> Seq<u32> {
    Seq::new(
        12,
        |pc: int| folded_energy(peaks, sample_rate, frame_size, ratio, pc, peaks.len() as int) as u32,
    )
}

/// A profile frame: twelve shares that add up to one whole, to within six
/// millionths, or are all zero.
pub open spec fn is_profile_frame(frame: Seq<u32>) -> bool {
    &&& is_chroma(frame)
    &&& (forall|b: int| 0 <= b < 12 ==> frame[b] == 0) || -12 <= 2 * (seq_sum(frame) - UNIT) <= 12
}

/// The number of frames of `frame_size` samples, `hop` samples apart, that
/// lie within the first `max_samples` samples of a recording of `len`
/// samples.
pub open spec fn frames_within(len: int, frame_size: int, hop: int, max_samples: int) -> int {
    let usable = if len < max_samples {
        len
    } else {
        max_samples
    };
    if frame_size <= 0 || hop <= 0 || usable < frame_size {
        0
    } else {
        (usable - frame_size) / hop + 1
    }
}

/// The sample at which each analysis frame of a recording begins: frames
/// follow one another by `hop` samples and lie wholly within the first
/// `max_samples` samples. A recording shorter than one frame has none.
pub fn frame_offsets(len: usize, frame_size: u32, hop: u32, max_samples: usize) -> (starts: Vec<
    usize,
>)
    ensures
        starts@.len() == frames_within(
            len as int,
            frame_size as int,
            hop as int,
            max_samples as int,
        ),
        forall|k: int|
            0 <= k < starts@.len() ==> (#[trigger] starts@[k]) == k * hop && starts@[k]
                + frame_size <= len && starts@[k] + frame_size <= max_samples,
{
    let mut starts: Vec<usize> = Vec::new();
    let usable: usize = if len < max_samples {
        len
    } else {
        max_samples
    };
    if frame_size == 0 || hop == 0 || usable < frame_size as usize {
        return starts;
    }
    let room: usize = usable - frame_size as usize;
    let count: usize = room / (hop as usize) + 1;
    let mut k: usize = 0;
    while k < count
        invariant
            k <= count,
            hop > 0,
            room == usable - frame_size,
            usable <= len,
            usable <= max_samples,
            count == room / (hop as usize) + 1,
            starts@.len() == k,
            forall|j: int|
                0 <= j < k ==> (#[trigger] starts@[j]) == j * hop && starts@[j] + frame_size
                    <= usable,
        decreases count - k,
    {
        assert(k * hop <= room) by (nonlinear_arith)
            requires
                0 <= k <= room / (hop as usize),
                hop > 0,
        ;
        starts.push(k * (hop as usize));
        k = k + 1;
    }
    starts
}

/// Peaks that can be folded: at most `MAX_PEAKS`, each within the frame and
/// of a magnitude that a spectrum can hold.
pub open spec fn are_foldable(peaks: Seq<Ranked>, frame_size: int) -> bool {
    &&& peaks.len() <= MAX_PEAKS
    &&& forall|i: int|
        0 <= i < peaks.len() ==> (#[trigger] peaks[i]).score <= MAGNITUDE_MAX && peaks[i].tag
            <= frame_size
}

/// `frame` is the profile frame of a spectrum: the energy of the spectrum's
/// strongest peaks folded into pitch classes and normalized to one whole.
pub open spec fn is_frame_of(
    frame: Seq<u32>,
    s: Seq<u32>,
    sample_rate: int,
    frame_size: int,
    ratio: int,
) -> bool {
    exists|peaks: Seq<Ranked>|
        #[trigger] is_peak_ranking(s, sample_rate, frame_size, peaks) && is_normalized_from(
            frame,
            folded_weights(peaks, sample_rate, frame_size, ratio),
        )
}

/// No peak adds more to a pitch class than its magnitude for each divisor.
proof fn lemma_peak_energy_bound(freq: int, magnitude: int, pc: int, upto: int)
    requires
        0 <= magnitude,
        0 <= upto <= 8,
    ensures
        0 <= peak_energy(freq, magnitude, pc, upto) <= upto * magnitude,
    decreases upto,
{
    if upto > 0 {
        lemma_peak_energy_bound(freq, magnitude, pc, upto - 1);
        lemma_harmonic_share_bound(magnitude, upto);
        assert(upto * magnitude == (upto - 1) * magnitude + magnitude) by (nonlinear_arith);
    } else {
        assert(upto * magnitude == 0) by (nonlinear_arith)
            requires
                upto == 0,
        ;
    }
}

/// A harmonic share is part of the magnitude.
proof fn lemma_harmonic_share_bound(magnitude: int, h: int)
    requires
        0 <= magnitude,
        1 <= h <= 8,
    ensures
        0 <= harmonic_share(magnitude, h) <= magnitude,
{
    let w = HARMONIC_WEIGHTS@[h - 1] as int;
    assert(0 <= w <= 1_000_000);
    assert(0 <= magnitude * w / 1_000_000 <= magnitude) by (nonlinear_arith)
        requires
            0 <= magnitude,
            0 <= w <= 1_000_000,
    ;
}

/// Folds peaks into a profile frame: each peak adds its magnitude to the
/// pitch class of its frequency, and a share of it to the pitch classes of
/// that frequency divided by 2 to `NUM_HARMONICS`; the frame is normalized
/// to one whole.
pub fn fold_peaks(peaks: &[Ranked], sample_rate: u32, frame_size: u32, ratio: u32) -> (frame: [u32;
    12])
    requires
        are_foldable(peaks@, frame_size as int),
        0 < frame_size,
        sample_rate <= MAX_SAMPLE_RATE,
        ratio <= TUNING_RATIO_MAX,
    ensures
        is_normalized_from(
            frame@,
            folded_weights(peaks@, sample_rate as int, frame_size as int, ratio as int),
        ),
        is_chroma(frame@),
        is_profile_frame(frame@),
{
    let mut energy: [u64; 12] = [0; 12];
    let n = peaks.len();
    for i in 0..n
        invariant
            n == peaks@.len(),
            are_foldable(peaks@, frame_size as int),
            0 < frame_size,
            sample_rate <= MAX_SAMPLE_RATE,
            ratio <= TUNING_RATIO_MAX,
            forall|pc: int|
                0 <= pc < 12 ==> (#[trigger] energy@[pc]) == folded_energy(
                    peaks@,
                    sample_rate as int,
                    frame_size as int,
                    ratio as int,
                    pc,
                    i as int,
                ) && energy@[pc] <= i * 80_000_000,
    {
        let peak = peaks[i];
        assert(peak.score <= MAGNITUDE_MAX && peak.tag <= frame_size);
        let freq = peak_frequency(peak.tag, sample_rate, frame_size, ratio);
        let ghost start = energy@;
        let mut h: u32 = 1;
        while h <= 8
            invariant
                1 <= h <= 9,
                peak.score <= MAGNITUDE_MAX,
                i < 50,
                start.len() == 12,
                forall|pc: int| 0 <= pc < 12 ==> (#[trigger] start[pc]) <= i * 80_000_000,
                forall|pc: int|
                    0 <= pc < 12 ==> (#[trigger] energy@[pc]) == start[pc] + peak_energy(
                        freq as int,
                        peak.score as int,
                        pc,
                        h - 1,
                    ),
            decreases 9 - h,
        {
            let pc = freq_to_pitch_class_precise(freq / h);
            assert(pc == pitch_class_of((freq / h) as int));
            let weight = HARMONIC_WEIGHTS[(h - 1) as usize];
            proof {
                lemma_harmonic_share_bound(peak.score as int, h as int);
                assert(peak.score * weight <= 10_000_000 * 1_000_000) by (nonlinear_arith)
                    requires
                        0 <= peak.score <= 10_000_000,
                        0 <= weight <= 1_000_000,
                ;
                assert forall|c: int| 0 <= c < 12 implies #[trigger] peak_energy(
                    freq as int,
                    peak.score as int,
                    c,
                    h - 1,
                ) <= (h - 1) * 10_000_000 by {
                    lemma_peak_energy_bound(freq as int, peak.score as int, c, h - 1);
                    assert(start[c] <= i * 80_000_000);
                    assert((h - 1) * peak.score <= (h - 1) * 10_000_000) by (nonlinear_arith)
                        requires
                            0 <= h - 1,
                            0 <= peak.score <= 10_000_000,
                    ;
                }
            }
            let share: u64 = (peak.score as u64) * (weight as u64) / 1_000_000;
            let ghost earlier = energy@;
            assert(share == harmonic_share(peak.score as int, h as int));
            energy[pc] = energy[pc] + share;
            assert forall|c: int| 0 <= c < 12 implies (#[trigger] energy@[c]) == start[c]
                + peak_energy(freq as int, peak.score as int, c, h as int) by {
                assert(earlier[c] == start[c] + peak_energy(
                    freq as int,
                    peak.score as int,
                    c,
                    h - 1,
                ));
                if c == pc {
                    assert(energy@[c] == earlier[c] + share);
                } else {
                    assert(energy@[c] == earlier[c]);
                }
            }
            h = h + 1;
        }
        proof {
            assert forall|pc: int| 0 <= pc < 12 implies (#[trigger] energy@[pc]) <= (i + 1)
                * 80_000_000 by {
                lemma_peak_energy_bound(freq as int, peak.score as int, pc, 8);
                assert(8 * peak.score <= 80_000_000);
            }
        }
    }
    let mut weights: [u32; 12] = [0; 12];
    for pc in 0..12usize
        invariant
            n == peaks@.len(),
            n <= 50,
            forall|c: int|
                0 <= c < 12 ==> (#[trigger] energy@[c]) == folded_energy(
                    peaks@,
                    sample_rate as int,
                    frame_size as int,
                    ratio as int,
                    c,
                    n as int,
                ) && energy@[c] <= n * 80_000_000,
            forall|c: int| 0 <= c < pc ==> (#[trigger] weights@[c]) == energy@[c],
    {
        assert(energy@[pc as int] <= n * 80_000_000);
        weights[pc] = energy[pc] as u32;
    }
    assert(weights@ =~= folded_weights(
        peaks@,
        sample_rate as int,
        frame_size as int,
        ratio as int,
    ));
    let ghost raw = weights@;
    normalize_vector(&mut weights);
    proof {
        if seq_sum(raw) > 0 {
            lemma_normalized_entries(weights@, raw);
            lemma_normalized_sum(weights@, raw);
        } else {
            assert forall|b: int| 0 <= b < 12 implies (#[trigger] weights@[b]) == 0 by {
                lemma_prefix_sum_entry(raw, b);
            }
        }
    }
    weights
}

/// The profile frame of a magnitude spectrum.
pub fn fold_spectrum(spectrum: &[u32], sample_rate: u32, frame_size: u32, ratio: u32) -> (frame: [
    u32;
    12
])
    requires
        is_spectrum(spectrum@),
        spectrum@.len() <= frame_size,
        0 < frame_size,
        sample_rate <= MAX_SAMPLE_RATE,
        ratio <= TUNING_RATIO_MAX,
    ensures
        is_frame_of(frame@, spectrum@, sample_rate as int, frame_size as int, ratio as int),
        is_chroma(frame@),
        is_profile_frame(frame@),
{
    let peaks = pick_peaks(spectrum, sample_rate, frame_size);
    assert(are_foldable(peaks@, frame_size as int)) by {
        assert forall|i: int| 0 <= i < peaks@.len() implies (#[trigger] peaks@[i]).score
            <= MAGNITUDE_MAX && peaks@[i].tag <= frame_size by {
            assert(peaks@[i] == peak_at(spectrum@, peaks@[i].tag as int));
            assert(is_candidate_peak(
                spectrum@,
                sample_rate as int,
                frame_size as int,
                peaks@[i].tag as int,
            ));
        }
    }
    let frame = fold_peaks(peaks.as_slice(), sample_rate, frame_size, ratio);
    assert(is_peak_ranking(spectrum@, sample_rate as int, frame_size as int, peaks@));
    frame
}

/// `history` is the history of a run of spectra: it holds the profile
/// frames of the last `HPCP_CAPACITY` of the first `MAX_FRAMES` spectra, in
/// their order.
pub open spec fn is_history_of(
    history: Seq<Seq<u32>>,
    spectra: Seq<Vec<u32>>,
    sample_rate: int,
    frame_size: int,
    ratio: int,
) -> bool {
    let taken = if spectra.len() < MAX_FRAMES {
        spectra.len() as int
    } else {
        MAX_FRAMES as int
    };
    let held = if taken < HPCP_CAPACITY {
        taken
    } else {
        HPCP_CAPACITY as int
    };
    &&& history.len() == held
    &&& forall|i: int|
        0 <= i < held ==> is_frame_of(
            #[trigger] history[i],
            spectra[taken - held + i]@,
            sample_rate,
            frame_size,
            ratio,
        )
}

/// Spectra that the extractor accepts: magnitude spectra no longer than the
/// frame.
pub open spec fn are_spectra(spectra: Seq<Vec<u32>>, frame_size: int) -> bool {
    forall|i: int|
        0 <= i < spectra.len() ==> is_spectrum((#[trigger] spectra[i])@) && spectra[i]@.len()
            <= frame_size
}

/// The first of the greatest of the first `n` scores.
pub open spec fn best_score(scores: Seq<u64>, n: int) -> int
    decreases n,
{
    if n <= 1 {
        0
    } else {
        let before = best_score(scores, n - 1);
        if scores[n - 1] > scores[before] {
            n - 1
        } else {
            before
        }
    }
}

/// The best score is among the first `n`, no score is greater, and no
/// earlier score is as great.
pub proof fn lemma_best_score(scores: Seq<u64>, n: int)
    requires
        1 <= n <= scores.len(),
    ensures
        0 <= best_score(scores, n) < n,
        forall|j: int| 0 <= j < n ==> (#[trigger] scores[j]) <= scores[best_score(scores, n)],
        forall|j: int|
            0 <= j < best_score(scores, n) ==> (#[trigger] scores[j]) < scores[best_score(
                scores,
                n,
            )],
    decreases n,
{
    if n > 1 {
        lemma_best_score(scores, n - 1);
    }
}

/// Chooses the tuning from the harmonic-content scores of the eleven
/// candidate offsets, -50 to 50 cents in steps of 10: the offset with the
/// highest score, of equal scores the lowest offset. Returns the offset in
/// cents and the ratio by which frequencies are adjusted for it.
pub fn estimate_tuning(scores: &[u64; 11]) -> (tuning: (i32, u32))
    ensures
        tuning.0 == 10 * best_score(scores@, 11) - 50,
        tuning.1 == TUNING_RATIOS@[best_score(scores@, 11)],
        tuning.1 <= TUNING_RATIO_MAX,
{
    let mut best: usize = 0;
    for j in 1..11usize
        invariant
            best < j,
            best == best_score(scores@, j as int),
    {
        if scores[j] > scores[best] {
            best = j;
        }
    }
    (10 * (best as i32) - 50, TUNING_RATIOS[best])
}

/// The chroma extractor for audio of one sample rate, in hertz.
pub struct ChromaExtractor {
    pub sample_rate: u32,
}

impl ChromaExtractor {
    pub fn new(sample_rate: u32) -> (e: Self)
        ensures
            e.sample_rate == sample_rate,
    {
        ChromaExtractor { sample_rate }
    }

    /// Extracts the pooled chroma vector from the magnitude spectra of
    /// successive frames: each spectrum is folded into a profile frame, the
    /// frames pass through the bounded history, and the history is pooled.
    /// Fewer than `HPCP_READY` spectra give the all-zero vector.
    pub fn extract_advanced(&self, spectra: &[Vec<u32>], frame_size: u32, ratio: u32) -> (chroma: [
        u32;
        12
    ])
        requires
            are_spectra(spectra@, frame_size as int),
            0 < frame_size,
            self.sample_rate <= MAX_SAMPLE_RATE,
            ratio <= TUNING_RATIO_MAX,
        ensures
            is_chroma(chroma@),
            exists|history: Seq<Seq<u32>>|
                #[trigger] is_history_of(
                    history,
                    spectra@,
                    self.sample_rate as int,
                    frame_size as int,
                    ratio as int,
                ) && is_pooled_profile(chroma@, history) && (history.len() >= HPCP_READY
                    && has_energy(history) ==> -12 <= 2 * (seq_sum(chroma@) - UNIT) <= 12),
            spectra@.len() < HPCP_READY ==> forall|b: int| 0 <= b < 12 ==> chroma@[b] == 0,
    {
        let taken: usize = if spectra.len() < MAX_FRAMES {
            spectra.len()
        } else {
            MAX_FRAMES
        };
        let mut state = HpcpState::new();
        for k in 0..taken
            invariant
                taken <= spectra@.len(),
                taken <= MAX_FRAMES,
                are_spectra(spectra@, frame_size as int),
                0 < frame_size,
                self.sample_rate <= MAX_SAMPLE_RATE,
                ratio <= TUNING_RATIO_MAX,
                state.wf(),
                state.view().len() == if k < HPCP_CAPACITY {
                    k as int
                } else {
                    HPCP_CAPACITY as int
                },
                forall|i: int|
                    0 <= i < state.view().len() ==> is_frame_of(
                        #[trigger] state.view()[i],
                        spectra@[k - state.view().len() + i]@,
                        self.sample_rate as int,
                        frame_size as int,
                        ratio as int,
                    ),
        {
            let ghost before = state.view();
            let spectrum = &spectra[k];
            assert(is_spectrum(spectra@[k as int]@));
            let frame = fold_spectrum(spectrum.as_slice(), self.sample_rate, frame_size, ratio);
            state.push(frame);
            assert forall|i: int| 0 <= i < state.view().len() implies is_frame_of(
                #[trigger] state.view()[i],
                spectra@[k + 1 - state.view().len() + i]@,
                self.sample_rate as int,
                frame_size as int,
                ratio as int,
            ) by {
                if before.len() < HPCP_CAPACITY {
                    if i < before.len() {
                        assert(state.view()[i] == before[i]);
                    }
                } else {
                    if i < 49 {
                        assert(state.view()[i] == before[i + 1]);
                    }
                }
            }
        }
        let chroma = state.pooled();
        assert(is_history_of(
            state.view(),
            spectra@,
            self.sample_rate as int,
            frame_size as int,
            ratio as int,
        ));
        chroma
    }
}

/// The peaks that may stand in the ranking of a spectrum.
pub open spec fn is_eligible_peak(s: Seq<u32>, sample_rate: int, frame_size: int) -> spec_fn(
    Ranked,
) -> bool {
    |x: Ranked|
        x.tag < s.len() && is_candidate_peak(s, sample_rate, frame_size, x.tag as int) && x
            == peak_at(s, x.tag as int)
}

proof fn lemma_peak_ranking_is_top(s: Seq<u32>, sample_rate: int, frame_size: int, top: Seq<Ranked>)
    requires
        is_peak_ranking(s, sample_rate, frame_size, top),
    ensures
        is_top_ranking(top, MAX_PEAKS as int, is_eligible_peak(s, sample_rate, frame_size)),
{
    let eligible = is_eligible_peak(s, sample_rate, frame_size);
    assert forall|x: Ranked| #[trigger] eligible(x) implies kept_or_outranked(
        top,
        MAX_PEAKS as int,
        x,
    ) by {
        assert(x == peak_at(s, x.tag as int));
    }
    assert forall|i: int| 0 <= i < top.len() implies eligible(#[trigger] top[i]) by {
        assert(is_candidate_peak(s, sample_rate, frame_size, top[i].tag as int));
    }
}

/// The strongest peaks of a spectrum are determined.
pub proof fn lemma_peak_ranking_unique(
    s: Seq<u32>,
    sample_rate: int,
    frame_size: int,
    a: Seq<Ranked>,
    b: Seq<Ranked>,
)
    requires
        is_peak_ranking(s, sample_rate, frame_size, a),
        is_peak_ranking(s, sample_rate, frame_size, b),
    ensures
        a == b,
{
    lemma_peak_ranking_is_top(s, sample_rate, frame_size, a);
    lemma_peak_ranking_is_top(s, sample_rate, frame_size, b);
    lemma_top_ranking_unique(
        a,
        b,
        MAX_PEAKS as int,
        is_eligible_peak(s, sample_rate, frame_size),
    );
}

/// The profile frame of a spectrum is determined.
pub proof fn lemma_frame_unique(
    first: Seq<u32>,
    second: Seq<u32>,
    s: Seq<u32>,
    sample_rate: int,
    frame_size: int,
    ratio: int,
)
    requires
        is_frame_of(first, s, sample_rate, frame_size, ratio),
        is_frame_of(second, s, sample_rate, frame_size, ratio),
    ensures
        first == second,
{
    let a = choose|peaks: Seq<Ranked>|
        #[trigger] is_peak_ranking(s, sample_rate, frame_size, peaks) && is_normalized_from(
            first,
            folded_weights(peaks, sample_rate, frame_size, ratio),
        );
    let b = choose|peaks: Seq<Ranked>|
        #[trigger] is_peak_ranking(s, sample_rate, frame_size, peaks) && is_normalized_from(
            second,
            folded_weights(peaks, sample_rate, frame_size, ratio),
        );
    lemma_peak_ranking_unique(s, sample_rate, frame_size, a, b);
    lemma_normalized_unique(first, second, folded_weights(a, sample_rate, frame_size, ratio));
}

/// The chroma vector extracted from a run of spectra is determined: two
/// vectors pooled from histories of the same spectra are the same. Analysing
/// the same spectra twice gives the same vector.
pub proof fn lemma_extraction_is_determined(
    first: Seq<u32>,
    second: Seq<u32>,
    first_history: Seq<Seq<u32>>,
    second_history: Seq<Seq<u32>>,
    spectra: Seq<Vec<u32>>,
    sample_rate: int,
    frame_size: int,
    ratio: int,
)
    requires
        is_history_of(first_history, spectra, sample_rate, frame_size, ratio),
        is_history_of(second_history, spectra, sample_rate, frame_size, ratio),
        is_pooled_profile(first, first_history),
        is_pooled_profile(second, second_history),
    ensures
        first_history == second_history,
        first == second,
{
    let taken = if spectra.len() < MAX_FRAMES {
        spectra.len() as int
    } else {
        MAX_FRAMES as int
    };
    let held = first_history.len() as int;
    assert forall|i: int| 0 <= i < held implies first_history[i] == second_history[i] by {
        lemma_frame_unique(
            first_history[i],
            second_history[i],
            spectra[taken - held + i]@,
            sample_rate,
            frame_size,
            ratio,
        );
    }
    assert(first_history =~= second_history);
    if first_history.len() < HPCP_READY {
        assert(first =~= second);
    } else {
        lemma_normalized_unique(first, second, pooled_weights(first_history));
    }
}

} // verus!

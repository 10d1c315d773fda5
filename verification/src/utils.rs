//! Vector utilities shared by the analysis stages.
use vstd::prelude::*;
use vstd::string::StringExecFns;
use crate::numeric::{
    UNIT, floor_sqrt, isqrt, lemma_prefix_sum_bounds, lemma_prefix_sum_entry,
    lemma_prefix_sum_nonnegative, lemma_product_bound, prefix_sum, seq_sum,
};

use crate::constants::{SEMITONE_BOUNDS, TABLE_BASE};
use crate::pitch::{is_semitone_offset, lemma_pitch_class_of_u32, semitones_from_a4};

verus! {

/// A frequency doubled until it reaches the octave of the semitone table.
pub open spec fn raised_to_table(freq: int) -> int
    decreases 2 * TABLE_BASE - freq,
{
    if freq <= 0 || freq >= TABLE_BASE {
        freq
    } else {
        raised_to_table(2 * freq)
    }
}

/// The number of the bounds 1 to `n` of the semitone table that `freq`
/// reaches: the semitone band, counted from A, in which `freq` lies.
pub open spec fn semitone_band(freq: int, n: int) -> int
    decreases n,
{
    if n <= 0 {
        0
    } else if freq >= SEMITONE_BOUNDS@[n] {
        semitone_band(freq, n - 1) + 1
    } else {
        semitone_band(freq, n - 1)
    }
}

/// The pitch class, 0 for C to 11 for B, of a frequency in millihertz:
/// `round(12 * log2(f / 440 Hz) + 9) mod 12`, found by raising the frequency
/// by octaves into the semitone table. A frequency of zero has pitch class 0.
pub open spec fn pitch_class_of(freq: int) -> int {
    if freq <= 0 {
        0
    } else {
        (semitone_band(raised_to_table(freq), 11) + 9) % 12
    }
}

/// Joins two words with one space between them.
pub(crate) fn join_with_space(first: &str, second: &str) -> (joined: String)
    ensures
        joined@ == first@ + seq![' '] + second@,
{
    proof {
        reveal_strlit(" ");
    }
    assert(" "@ =~= seq![' ']);
    first.to_owned().concat(" ").concat(second)
}

/// The largest entry a key-profile template may hold.
pub const PROFILE_MAX: u32 = 10_000;

/// A chroma vector: twelve pitch-class bins, each a share of at most one
/// whole.
pub open spec fn is_chroma(c: Seq<u32>) -> bool {
    c.len() == 12 && forall|i: int| 0 <= i < 12 ==> c[i] <= UNIT
}

/// A key-profile template: twelve weights, none above `PROFILE_MAX`.
pub open spec fn is_profile(p: Seq<u32>) -> bool {
    p.len() == 12 && forall|i: int| 0 <= i < 12 ==> p[i] <= PROFILE_MAX
}

/// Twelve times the deviation of entry `i` of a twelve-entry vector from the
/// vector's mean. The factor twelve keeps the deviation an integer.
pub open spec fn centered(v: Seq<u32>, i: int) -> int {
    12 * v[i] - seq_sum(v)
}

/// The sum over the first `n` template positions `i` of the product of the
/// chroma deviation at pitch class `(i + root) % 12` and the template
/// deviation at `i`.
pub open spec fn covariance_prefix(c: Seq<u32>, p: Seq<u32>, root: int, n: int) -> int
    decreases n,
{
    if n <= 0 {
        0
    } else {
        covariance_prefix(c, p, root, n - 1) + centered(c, (n - 1 + root) % 12) * centered(
            p,
            n - 1,
        )
    }
}

/// The sum of the squared deviations of the first `n` entries of `v`.
pub open spec fn spread_prefix(v: Seq<u32>, n: int) -> int
    decreases n,
{
    if n <= 0 {
        0
    } else {
        spread_prefix(v, n - 1) + centered(v, n - 1) * centered(v, n - 1)
    }
}

/// The Pearson correlation, in millionths and rounded toward zero, between a
/// chroma vector read from pitch class `root` onward and a key-profile
/// template. With covariance `s` and spreads `a`, `b` it is the integer part
/// of `UNIT * |s| / sqrt(a * b)`, capped at one whole and carrying the sign of
/// `s`; it is zero when either vector is constant.
pub open spec fn correlation(c: Seq<u32>, p: Seq<u32>, root: int) -> int {
    let num = covariance_prefix(c, p, root, 12);
    let den2 = spread_prefix(c, 12) * spread_prefix(p, 12);
    if den2 <= 0 {
        0
    } else {
        let mag = floor_sqrt((((UNIT as int) * (UNIT as int)) * (num * num) / den2) as nat);
        let capped = if mag > UNIT {
            UNIT as int
        } else {
            mag as int
        };
        if num >= 0 {
            capped
        } else {
            -capped
        }
    }
}

/// The sum of a twelve-entry vector.
fn sum_of_twelve(v: &[u32]) -> (s: u64)
    requires
        v@.len() == 12,
    ensures
        s == seq_sum(v@),
{
    let mut acc: u64 = 0;
    for i in 0..12usize
        invariant
            v@.len() == 12,
            acc == prefix_sum(v@, i as int),
            acc <= i * 0xffff_ffff,
    {
        acc = acc + v[i] as u64;
    }
    acc
}

/// Pearson correlation between the chroma vector rotated to `root` and a key
/// profile.
pub fn calculate_enhanced_correlation(chroma: &[u32], key_profile: &[u32], root: usize) -> (r: i32)
    requires
        is_chroma(chroma@),
        is_profile(key_profile@),
        root < 12,
    ensures
        r == correlation(chroma@, key_profile@, root as int),
        -(UNIT as int) <= r <= UNIT,
{
    let cs: i64 = sum_of_twelve(chroma) as i64;
    let ps: i64 = sum_of_twelve(key_profile) as i64;
    proof {
        lemma_prefix_sum_bounds(chroma@, 12, UNIT as int);
        lemma_prefix_sum_bounds(key_profile@, 12, PROFILE_MAX as int);
    }
    let mut num: i64 = 0;
    let mut cv: i64 = 0;
    let mut pv: i64 = 0;
    for i in 0..12usize
        invariant
            is_chroma(chroma@),
            is_profile(key_profile@),
            root < 12,
            cs == seq_sum(chroma@),
            ps == seq_sum(key_profile@),
            0 <= cs <= 12_000_000,
            0 <= ps <= 120_000,
            num == covariance_prefix(chroma@, key_profile@, root as int, i as int),
            cv == spread_prefix(chroma@, i as int),
            pv == spread_prefix(key_profile@, i as int),
            -(i * 1_440_000_000_000) <= num <= i * 1_440_000_000_000,
            0 <= cv <= i * 144_000_000_000_000,
            0 <= pv <= i * 14_400_000_000,
    {
        let at: usize = (i + root) % 12;
        let rotated: i64 = 12 * (chroma[at] as i64) - cs;
        let plain: i64 = 12 * (chroma[i] as i64) - cs;
        let weight: i64 = 12 * (key_profile[i] as i64) - ps;
        proof {
            lemma_product_bound(rotated as int, weight as int, 12_000_000, 120_000);
            lemma_product_bound(plain as int, plain as int, 12_000_000, 12_000_000);
            lemma_product_bound(weight as int, weight as int, 120_000, 120_000);
            assert(plain * plain >= 0) by (nonlinear_arith);
            assert(weight * weight >= 0) by (nonlinear_arith);
        }
        num = num + rotated * weight;
        cv = cv + plain * plain;
        pv = pv + weight * weight;
    }
    proof {
        lemma_product_bound(cv as int, pv as int, 1_728_000_000_000_000, 172_800_000_000);
        assert(cv * pv >= 0) by (nonlinear_arith)
            requires
                cv >= 0,
                pv >= 0,
        ;
    }
    let den2: u128 = (cv as u128) * (pv as u128);
    if den2 == 0 {
        return 0;
    }
    let size: u128 = if num >= 0 {
        num as u128
    } else {
        (-num) as u128
    };
    proof {
        lemma_product_bound(size as int, size as int, 17_280_000_000_000, 17_280_000_000_000);
        assert(size * size == num * num) by (nonlinear_arith)
            requires
                size == num || size == -num,
        ;
        assert(size * size >= 0) by (nonlinear_arith);
    }
    let square: u128 = size * size;
    assert(1_000_000_000_000 * square <= 1_000_000_000_000 * 298_598_400_000_000_000_000_000_000);
    let scaled: u128 = 1_000_000_000_000 * square;
    assert((UNIT as int) * (UNIT as int) == 1_000_000_000_000);
    let mag: u64 = isqrt(scaled / den2);
    let capped: i32 = if mag > UNIT as u64 {
        UNIT as i32
    } else {
        mag as i32
    };
    if num >= 0 {
        capped
    } else {
        -capped
    }
}

/// The share, in millionths and rounded to the nearest, that `value` is of
/// `total`.
pub open spec fn share_of(value: int, total: int) -> int {
    (value * UNIT + total / 2) / total
}

/// `after` is `before` normalized: every entry is the share that it was of
/// the sum. A vector that sums to zero stays as it is.
pub open spec fn is_normalized_from(after: Seq<u32>, before: Seq<u32>) -> bool {
    &&& after.len() == before.len()
    &&& seq_sum(before) == 0 ==> after == before
    &&& seq_sum(before) > 0 ==> forall|i: int|
        0 <= i < before.len() ==> (#[trigger] after[i]) == share_of(
            before[i] as int,
            seq_sum(before),
        )
}

/// A share lies within half a millionth of the exact quotient.
proof fn lemma_share_is_near(value: int, total: int)
    requires
        0 <= value <= total,
        0 < total,
    ensures
        0 <= share_of(value, total) <= UNIT,
        -total <= 2 * (share_of(value, total) * total - value * UNIT) <= total,
{
    let n = value * UNIT + total / 2;
    let q = n / total;
    vstd::arithmetic::div_mod::lemma_fundamental_div_mod(n, total);
    vstd::arithmetic::div_mod::lemma_mod_bound(n, total);
    assert(total * q == q * total) by (nonlinear_arith);
    assert(value * UNIT >= 0) by (nonlinear_arith)
        requires
            value >= 0,
    ;
    assert(value * UNIT <= total * UNIT) by (nonlinear_arith)
        requires
            value <= total,
    ;
    assert(q >= 0) by (nonlinear_arith)
        requires
            q * total + n % total == n,
            0 <= n % total < total,
            n >= 0,
            total > 0,
    ;
    assert(q <= UNIT) by (nonlinear_arith)
        requires
            q * total + n % total == n,
            0 <= n % total < total,
            n <= total * UNIT + total / 2,
            total > 0,
    ;
}

/// The entries of a normalized vector add up to one whole, to within half a
/// millionth for each entry.
pub proof fn lemma_normalized_sum(after: Seq<u32>, before: Seq<u32>)
    requires
        is_normalized_from(after, before),
        seq_sum(before) > 0,
    ensures
        -(after.len() as int) <= 2 * (seq_sum(after) - UNIT) <= after.len(),
{
    let total = seq_sum(before);
    let len = before.len() as int;
    lemma_normalized_prefix(after, before, len);
    let gap = seq_sum(after) - UNIT;
    assert(seq_sum(after) * total - total * UNIT == gap * total) by (nonlinear_arith)
        requires
            gap == seq_sum(after) - UNIT,
    ;
    assert(-len <= 2 * gap <= len) by (nonlinear_arith)
        requires
            -(len * total) <= 2 * (gap * total) <= len * total,
            total > 0,
    ;
}

proof fn lemma_normalized_prefix(after: Seq<u32>, before: Seq<u32>, n: int)
    requires
        is_normalized_from(after, before),
        seq_sum(before) > 0,
        0 <= n <= before.len(),
    ensures
        -(n * seq_sum(before)) <= 2 * (prefix_sum(after, n) * seq_sum(before) - prefix_sum(
            before,
            n,
        ) * UNIT) <= n * seq_sum(before),
    decreases n,
{
    let total = seq_sum(before);
    if n > 0 {
        lemma_normalized_prefix(after, before, n - 1);
        lemma_prefix_sum_entry(before, n - 1);
        lemma_share_is_near(before[n - 1] as int, total);
        assert(after[n - 1] == share_of(before[n - 1] as int, total));
        let a = prefix_sum(after, n - 1);
        let b = prefix_sum(before, n - 1);
        assert((a + after[n - 1]) * total == a * total + after[n - 1] * total)
            by (nonlinear_arith);
        assert((b + before[n - 1]) * UNIT == b * UNIT + before[n - 1] * UNIT) by (nonlinear_arith);
        assert(n * total == (n - 1) * total + total) by (nonlinear_arith);
    } else {
        assert(n * total == 0) by (nonlinear_arith)
            requires
                n == 0,
        ;
        assert(prefix_sum(after, n) * total == 0) by (nonlinear_arith)
            requires
                prefix_sum(after, n) == 0,
        ;
        assert(prefix_sum(before, n) * UNIT == 0);
    }
}

/// Normalizing determines the vector: two vectors normalized from the same
/// vector are the same.
pub proof fn lemma_normalized_unique(first: Seq<u32>, second: Seq<u32>, before: Seq<u32>)
    requires
        is_normalized_from(first, before),
        is_normalized_from(second, before),
    ensures
        first == second,
{
    lemma_prefix_sum_nonnegative(before, before.len() as int);
    assert(first =~= second);
}

/// The entries of a normalized vector are shares of one whole.
pub proof fn lemma_normalized_entries(after: Seq<u32>, before: Seq<u32>)
    requires
        is_normalized_from(after, before),
        seq_sum(before) > 0,
    ensures
        forall|i: int| 0 <= i < after.len() ==> (#[trigger] after[i]) <= UNIT,
{
    assert forall|i: int| 0 <= i < after.len() implies (#[trigger] after[i]) <= UNIT by {
        lemma_prefix_sum_entry(before, i);
        lemma_share_is_near(before[i] as int, seq_sum(before));
    }
}

/// The sum of a vector of any length.
pub fn sum_of(v: &[u32]) -> (s: u128)
    ensures
        s == seq_sum(v@),
        s <= v@.len() * 0xffff_ffff,
{
    let mut acc: u128 = 0;
    for i in 0..v.len()
        invariant
            acc == prefix_sum(v@, i as int),
            acc <= i * 0xffff_ffff,
    {
        acc = acc + v[i] as u128;
    }
    acc
}

/// Normalizes a vector so that its entries add up to one whole.
pub fn normalize_vector(vector: &mut [u32])
    ensures
        is_normalized_from(final(vector)@, old(vector)@),
{
    let ghost before = vector@;
    let total: u128 = sum_of(vector);
    if total > 0 {
        let n = vector.len();
        for i in 0..n
            invariant
                n == before.len(),
                vector@.len() == before.len(),
                total == seq_sum(before),
                total > 0,
                total <= before.len() * 0xffff_ffff,
                forall|j: int| 0 <= j < i ==> (#[trigger] vector@[j]) == share_of(
                    before[j] as int,
                    total as int,
                ),
                forall|j: int| i <= j < n ==> vector@[j] == before[j],
        {
            let value: u128 = vector[i] as u128;
            proof {
                lemma_prefix_sum_entry(before, i as int);
                lemma_share_is_near(value as int, total as int);
            }
            vector[i] = ((value * 1_000_000 + total / 2) / total) as u32;
        }
    }
}

/// The sum of the squares of the first `n` samples.
pub open spec fn square_sum(samples: Seq<i32>, n: int) -> int
    decreases n,
{
    if n <= 0 {
        0
    } else {
        square_sum(samples, n - 1) + samples[n - 1] * samples[n - 1]
    }
}

/// The root of the mean square of a signal, rounded down; zero for an empty
/// signal.
pub open spec fn root_mean_square(samples: Seq<i32>) -> nat {
    if samples.len() == 0 {
        0
    } else {
        floor_sqrt((square_sum(samples, samples.len() as int) / (samples.len() as int)) as nat)
    }
}

/// The root-mean-square amplitude of a signal.
pub fn calculate_rms(samples: &[i32]) -> (rms: u64)
    ensures
        rms == root_mean_square(samples@),
        rms <= 0x8000_0000,
{
    let n = samples.len();
    if n == 0 {
        return 0;
    }
    let mut sum_squares: u128 = 0;
    for i in 0..n
        invariant
            n == samples@.len(),
            sum_squares == square_sum(samples@, i as int),
            sum_squares <= i * 0x4000_0000_0000_0000,
    {
        let x: i64 = samples[i] as i64;
        assert(0 <= x * x <= 0x8000_0000 * 0x8000_0000) by (nonlinear_arith)
            requires
                -0x8000_0000 <= x <= 0x8000_0000,
        ;
        sum_squares = sum_squares + (x * x) as u128;
    }
    let mean: u128 = sum_squares / (n as u128);
    assert(mean <= 0x4000_0000_0000_0000) by (nonlinear_arith)
        requires
            mean == sum_squares / (n as u128),
            sum_squares <= n * 0x4000_0000_0000_0000,
            n > 0,
    ;
    let rms = isqrt(mean);
    assert(rms <= 0x8000_0000) by (nonlinear_arith)
        requires
            rms * rms <= mean,
            mean <= 0x4000_0000_0000_0000,
    ;
    rms
}

/// The semitone band of a frequency within the octave of the table.
fn band_in_table(freq: u64) -> (band: usize)
    ensures
        band == semitone_band(freq as int, 11),
        band <= 11,
{
    let mut band: usize = 0;
    for j in 1..12usize
        invariant
            band == semitone_band(freq as int, j - 1),
            band <= j - 1,
    {
        if freq >= SEMITONE_BOUNDS[j] {
            band = band + 1;
        }
    }
    band
}

/// The pitch class of a frequency given in millihertz: the pitch class of
/// its distance from A4 in semitones, rounded to the nearest; 0 for the
/// frequency zero.
pub fn freq_to_pitch_class_precise(freq: u32) -> (pitch_class: usize)
    ensures
        pitch_class == pitch_class_of(freq as int),
        pitch_class < 12,
        freq == 0 ==> pitch_class == 0,
        freq > 0 ==> is_semitone_offset(freq as nat, semitones_from_a4(freq as int))
            && pitch_class == (semitones_from_a4(freq as int) + 9) % 12,
{
    if freq == 0 {
        return 0;
    }
    proof {
        lemma_pitch_class_of_u32(freq);
    }
    let mut raised: u64 = freq as u64;
    while raised < TABLE_BASE
        invariant
            0 < raised <= 2 * TABLE_BASE,
            raised_to_table(raised as int) == raised_to_table(freq as int),
        decreases 2 * TABLE_BASE - raised,
    {
        raised = 2 * raised;
    }
    (band_in_table(raised) + 9) % 12
}

} // verus!

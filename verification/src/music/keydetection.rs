//! Key voting: each profile family names its best key, the families' votes
//! are pooled into twenty-four bins, and the winner's share of the votes is
//! scaled by how far the families agree.
use vstd::prelude::*;
use crate::constants::{
    AGREEMENT_FLOOR, CONFIDENCE_MAX, CONFIDENCE_MIN, EDMA_MAJOR, EDMA_MINOR, EDMA_WEIGHT,
    HYBRID_MAJOR, HYBRID_MINOR, HYBRID_WEIGHT, KS_MAJOR, KS_MINOR, KS_WEIGHT, SHAATH_MAJOR,
    SHAATH_MINOR, SHAATH_WEIGHT, TEMPERLEY_MAJOR, TEMPERLEY_MINOR, TEMPERLEY_WEIGHT,
};
use crate::numeric::{UNIT, floor_sqrt, is_floor_sqrt, isqrt};
use crate::utils::{calculate_enhanced_correlation, correlation, is_chroma, is_profile};

verus! {

/// One family's choice of key: a root pitch class, a mode, and a confidence
/// in millionths.
#[derive(Clone, Copy, Debug)]
pub struct KeyVote {
    pub root: usize,
    pub is_major: bool,
    pub confidence: u32,
}

/// A vote together with the voting weight of the family that cast it, in
/// millionths.
#[derive(Clone, Copy, Debug)]
pub struct WeightedVote {
    pub vote: KeyVote,
    pub weight: u32,
}

/// The families of reference templates.
#[derive(Clone, Copy, Debug)]
pub enum ProfileFamily {
    EdmA,
    Hybrid,
    KrumhanslSchmuckler,
    Temperley,
    Shaath,
}

impl ProfileFamily {
    /// The family's template for major keys, rooted at C.
    pub open spec fn major_template(self) -> Seq<u32> {
        match self {
            ProfileFamily::EdmA => EDMA_MAJOR@,
            ProfileFamily::Hybrid => HYBRID_MAJOR@,
            ProfileFamily::KrumhanslSchmuckler => KS_MAJOR@,
            ProfileFamily::Temperley => TEMPERLEY_MAJOR@,
            ProfileFamily::Shaath => SHAATH_MAJOR@,
        }
    }

    /// The family's template for minor keys, rooted at C.
    pub open spec fn minor_template(self) -> Seq<u32> {
        match self {
            ProfileFamily::EdmA => EDMA_MINOR@,
            ProfileFamily::Hybrid => HYBRID_MINOR@,
            ProfileFamily::KrumhanslSchmuckler => KS_MINOR@,
            ProfileFamily::Temperley => TEMPERLEY_MINOR@,
            ProfileFamily::Shaath => SHAATH_MINOR@,
        }
    }

    /// The family's share of the vote, in millionths.
    pub open spec fn voting_weight(self) -> u32 {
        match self {
            ProfileFamily::EdmA => EDMA_WEIGHT,
            ProfileFamily::Hybrid => HYBRID_WEIGHT,
            ProfileFamily::KrumhanslSchmuckler => KS_WEIGHT,
            ProfileFamily::Temperley => TEMPERLEY_WEIGHT,
            ProfileFamily::Shaath => SHAATH_WEIGHT,
        }
    }

    pub fn major(self) -> (t: [u32; 12])
        ensures
            t@ == self.major_template(),
            is_profile(t@),
    {
        match self {
            ProfileFamily::EdmA => EDMA_MAJOR,
            ProfileFamily::Hybrid => HYBRID_MAJOR,
            ProfileFamily::KrumhanslSchmuckler => KS_MAJOR,
            ProfileFamily::Temperley => TEMPERLEY_MAJOR,
            ProfileFamily::Shaath => SHAATH_MAJOR,
        }
    }

    pub fn minor(self) -> (t: [u32; 12])
        ensures
            t@ == self.minor_template(),
            is_profile(t@),
    {
        match self {
            ProfileFamily::EdmA => EDMA_MINOR,
            ProfileFamily::Hybrid => HYBRID_MINOR,
            ProfileFamily::KrumhanslSchmuckler => KS_MINOR,
            ProfileFamily::Temperley => TEMPERLEY_MINOR,
            ProfileFamily::Shaath => SHAATH_MINOR,
        }
    }

    pub fn weight(self) -> (w: u32)
        ensures
            w == self.voting_weight(),
            w <= UNIT,
    {
        match self {
            ProfileFamily::EdmA => EDMA_WEIGHT,
            ProfileFamily::Hybrid => HYBRID_WEIGHT,
            ProfileFamily::KrumhanslSchmuckler => KS_WEIGHT,
            ProfileFamily::Temperley => TEMPERLEY_WEIGHT,
            ProfileFamily::Shaath => SHAATH_WEIGHT,
        }
    }
}

/// The families in voting order.
pub open spec fn catalogue() -> Seq<ProfileFamily> {
    seq![
        ProfileFamily::EdmA,
        ProfileFamily::Hybrid,
        ProfileFamily::KrumhanslSchmuckler,
        ProfileFamily::Temperley,
        ProfileFamily::Shaath,
    ]
}

/// The voting weights of the catalogue add up to one whole.
pub proof fn lemma_catalogue_weights_sum_to_one()
    ensures
        catalogue().len() == 5,
        catalogue()[0].voting_weight() + catalogue()[1].voting_weight()
            + catalogue()[2].voting_weight() + catalogue()[3].voting_weight()
            + catalogue()[4].voting_weight() == UNIT,
{
}

/// The correlation of candidate `k` of a family: candidates run through the
/// roots from C upward, the major key of each root before its minor key.
pub open spec fn candidate_correlation(c: Seq<u32>, major: Seq<u32>, minor: Seq<u32>, k: int) -> int {
    if k % 2 == 0 {
        correlation(c, major, k / 2)
    } else {
        correlation(c, minor, k / 2)
    }
}

/// The best of the first `n` candidates; of equally good ones the earliest.
pub open spec fn best_candidate(c: Seq<u32>, major: Seq<u32>, minor: Seq<u32>, n: int) -> int
    decreases n,
{
    if n <= 1 {
        0
    } else {
        let before = best_candidate(c, major, minor, n - 1);
        if candidate_correlation(c, major, minor, n - 1) > candidate_correlation(
            c,
            major,
            minor,
            before,
        ) {
            n - 1
        } else {
            before
        }
    }
}

/// The vote of one family: its best candidate, with the correlation mapped
/// from [-1, 1] onto [0, 1].
pub open spec fn profile_vote(c: Seq<u32>, major: Seq<u32>, minor: Seq<u32>) -> KeyVote {
    let k = best_candidate(c, major, minor, 24);
    KeyVote {
        root: (k / 2) as usize,
        is_major: k % 2 == 0,
        confidence: ((candidate_correlation(c, major, minor, k) + UNIT) / 2) as u32,
    }
}

/// The best candidate is one of the first `n`, none of them correlates
/// better, and none before it correlates as well.
pub proof fn lemma_best_candidate(c: Seq<u32>, major: Seq<u32>, minor: Seq<u32>, n: int)
    requires
        1 <= n,
    ensures
        0 <= best_candidate(c, major, minor, n) < n,
        forall|j: int|
            0 <= j < n ==> #[trigger] candidate_correlation(c, major, minor, j)
                <= candidate_correlation(c, major, minor, best_candidate(c, major, minor, n)),
        forall|j: int|
            0 <= j < best_candidate(c, major, minor, n) ==> #[trigger] candidate_correlation(
                c,
                major,
                minor,
                j,
            ) < candidate_correlation(c, major, minor, best_candidate(c, major, minor, n)),
    decreases n,
{
    if n > 1 {
        lemma_best_candidate(c, major, minor, n - 1);
    }
}

/// A vote that the consensus can count: its root is a pitch class and its
/// confidence and weight are shares of one whole.
pub open spec fn is_weighted_vote(w: WeightedVote) -> bool {
    w.vote.root < 12 && w.vote.confidence <= UNIT && w.weight <= UNIT
}

pub open spec fn are_weighted_votes(results: Seq<WeightedVote>) -> bool {
    forall|i: int| 0 <= i < results.len() ==> is_weighted_vote(#[trigger] results[i])
}

/// The bin a vote falls into: bins 0 to 11 are the major keys, 12 to 23 the
/// minor keys.
pub open spec fn vote_bin(v: KeyVote) -> int {
    if v.is_major {
        v.root as int
    } else {
        v.root + 12
    }
}

/// The strength of a vote: confidence times weight.
pub open spec fn vote_strength(w: WeightedVote) -> int {
    w.vote.confidence * w.weight
}

/// The votes that the first `n` results cast into `bin`.
pub open spec fn bin_votes(results: Seq<WeightedVote>, bin: int, n: int) -> int
    decreases n,
{
    if n <= 0 {
        0
    } else if vote_bin(results[n - 1].vote) == bin {
        bin_votes(results, bin, n - 1) + vote_strength(results[n - 1])
    } else {
        bin_votes(results, bin, n - 1)
    }
}

/// The votes that the first `n` results cast in all.
pub open spec fn total_votes(results: Seq<WeightedVote>, n: int) -> int
    decreases n,
{
    if n <= 0 {
        0
    } else {
        total_votes(results, n - 1) + vote_strength(results[n - 1])
    }
}

/// The fullest of the first `n` bins; of equally full ones the last.
pub open spec fn winning_bin(results: Seq<WeightedVote>, n: int) -> int
    decreases n,
{
    if n <= 1 {
        0
    } else {
        let before = winning_bin(results, n - 1);
        if bin_votes(results, n - 1, results.len() as int) >= bin_votes(
            results,
            before,
            results.len() as int,
        ) {
            n - 1
        } else {
            before
        }
    }
}

/// The consensus of a set of weighted votes: the key of the winning bin, with
/// that bin's share of all votes as confidence (zero when no votes were
/// cast).
pub open spec fn consensus(results: Seq<WeightedVote>) -> KeyVote {
    let w = winning_bin(results, 24);
    let total = total_votes(results, results.len() as int);
    KeyVote {
        root: (w % 12) as usize,
        is_major: w < 12,
        confidence: if total > 0 {
            (bin_votes(results, w, results.len() as int) * UNIT / total) as u32
        } else {
            0
        },
    }
}

/// The winning bin is one of the first `n`, none of them is fuller, and none
/// after it is as full.
pub proof fn lemma_winning_bin(results: Seq<WeightedVote>, n: int)
    requires
        1 <= n,
    ensures
        0 <= winning_bin(results, n) < n,
        forall|b: int|
            0 <= b < n ==> #[trigger] bin_votes(results, b, results.len() as int) <= bin_votes(
                results,
                winning_bin(results, n),
                results.len() as int,
            ),
        forall|b: int|
            winning_bin(results, n) < b < n ==> #[trigger] bin_votes(
                results,
                b,
                results.len() as int,
            ) < bin_votes(results, winning_bin(results, n), results.len() as int),
    decreases n,
{
    if n > 1 {
        lemma_winning_bin(results, n - 1);
    }
}

/// No bin holds more than all the votes, and no vote is negative.
pub proof fn lemma_bin_votes_bounds(results: Seq<WeightedVote>, bin: int, n: int)
    requires
        0 <= n <= results.len(),
    ensures
        0 <= bin_votes(results, bin, n) <= total_votes(results, n),
    decreases n,
{
    if n > 0 {
        lemma_bin_votes_bounds(results, bin, n - 1);
        assert(vote_strength(results[n - 1]) >= 0) by (nonlinear_arith)
            requires
                vote_strength(results[n - 1]) == results[n - 1].vote.confidence * results[n
                    - 1].weight,
        ;
    }
}

/// How far two votes agree, in tenths: the same key counts in full, the same
/// root in the other mode 7, roots a minor third apart in opposite modes 6,
/// roots a fifth apart 4, anything else nothing.
pub open spec fn agreement_tenths(a: KeyVote, b: KeyVote) -> int {
    if a.root == b.root && a.is_major == b.is_major {
        10
    } else if a.root == b.root {
        7
    } else if a.is_major != b.is_major && ((a.root + 3) % 12 == b.root || (b.root + 3) % 12
        == a.root) {
        6
    } else if (a.root + 7) % 12 == b.root || (b.root + 7) % 12 == a.root {
        4
    } else {
        0
    }
}

/// What one pair of votes adds to the agreement: its agreement in tenths
/// times the geometric mean of the two confidences.
pub open spec fn pair_term(a: KeyVote, b: KeyVote) -> int {
    agreement_tenths(a, b) * floor_sqrt((a.confidence * b.confidence) as nat)
}

/// The terms of the pairs `(i, j)` with `i < j < m`.
pub open spec fn row_total(results: Seq<WeightedVote>, i: int, m: int) -> int
    decreases m - i,
{
    if m <= i + 1 {
        0
    } else {
        row_total(results, i, m - 1) + pair_term(results[i].vote, results[m - 1].vote)
    }
}

/// The terms of all pairs whose first member is among the first `n` results.
pub open spec fn pair_total(results: Seq<WeightedVote>, n: int) -> int
    decreases n,
{
    if n <= 0 {
        0
    } else {
        pair_total(results, n - 1) + row_total(results, n - 1, results.len() as int)
    }
}

/// The number of pairs `(i, j)` with `i < n` and `i < j < len`.
pub open spec fn pair_count(len: int, n: int) -> int
    decreases n,
{
    if n <= 0 {
        0
    } else {
        pair_count(len, n - 1) + (len - n)
    }
}

/// The agreement factor of a set of votes, in millionths: the mean pair term,
/// never below the floor; one whole for fewer than two votes.
pub open spec fn agreement(results: Seq<WeightedVote>) -> int {
    let len = results.len() as int;
    if len < 2 {
        UNIT as int
    } else {
        let mean = pair_total(results, len) / (10 * pair_count(len, len));
        if mean < AGREEMENT_FLOOR {
            AGREEMENT_FLOOR as int
        } else {
            mean
        }
    }
}

/// Among `len` votes there are `len * (len - 1) / 2` pairs.
pub proof fn lemma_pair_count_closed_form(len: int, n: int)
    requires
        0 <= n <= len,
    ensures
        2 * pair_count(len, n) == n * (2 * len - n - 1),
    decreases n,
{
    if n > 0 {
        lemma_pair_count_closed_form(len, n - 1);
        assert(n * (2 * len - n - 1) == (n - 1) * (2 * len - (n - 1) - 1) + 2 * (len - n))
            by (nonlinear_arith);
    } else {
        assert(n * (2 * len - n - 1) == 0) by (nonlinear_arith)
            requires
                n == 0,
        ;
    }
}

/// The geometric mean of two shares is a share.
proof fn lemma_geometric_mean_is_share(a: nat, b: nat, r: nat)
    requires
        a <= UNIT,
        b <= UNIT,
        is_floor_sqrt(a * b, r),
    ensures
        r <= UNIT,
{
    assert(a * b <= 1_000_000 * 1_000_000) by (nonlinear_arith)
        requires
            a <= 1_000_000,
            b <= 1_000_000,
    ;
    if r > UNIT {
        assert(r * r >= 1_000_001 * 1_000_001) by (nonlinear_arith)
            requires
                r >= 1_000_001,
        ;
    }
}

/// The votes of the catalogue's families on a chroma vector, in voting order.
pub open spec fn family_votes(c: Seq<u32>) -> Seq<WeightedVote> {
    Seq::new(
        5,
        |i: int|
            WeightedVote {
                vote: profile_vote(
                    c,
                    catalogue()[i].major_template(),
                    catalogue()[i].minor_template(),
                ),
                weight: catalogue()[i].voting_weight(),
            },
    )
}

/// The key of a chroma vector: the consensus of the family votes, with the
/// winner's vote share scaled by the agreement factor and kept between the
/// least and the greatest confidence.
pub open spec fn key_estimate(c: Seq<u32>) -> (usize, bool, u32) {
    let votes = family_votes(c);
    let agreed = consensus(votes);
    let scaled = agreed.confidence * agreement(votes) / (UNIT as int);
    let confidence = if scaled < CONFIDENCE_MIN {
        CONFIDENCE_MIN
    } else if scaled > CONFIDENCE_MAX {
        CONFIDENCE_MAX
    } else {
        scaled as u32
    };
    (agreed.root, agreed.is_major, confidence)
}

/// The family at position `i` of the catalogue.
fn family_at(i: usize) -> (f: ProfileFamily)
    requires
        i < 5,
    ensures
        f == catalogue()[i as int],
{
    if i == 0 {
        ProfileFamily::EdmA
    } else if i == 1 {
        ProfileFamily::Hybrid
    } else if i == 2 {
        ProfileFamily::KrumhanslSchmuckler
    } else if i == 3 {
        ProfileFamily::Temperley
    } else {
        ProfileFamily::Shaath
    }
}

/// How far two votes agree, in tenths.
fn agreement_between(a: KeyVote, b: KeyVote) -> (t: u128)
    requires
        a.root < 12,
        b.root < 12,
    ensures
        t == agreement_tenths(a, b),
        t <= 10,
{
    if a.root == b.root && a.is_major == b.is_major {
        10
    } else if a.root == b.root {
        7
    } else if a.is_major != b.is_major && ((a.root + 3) % 12 == b.root || (b.root + 3) % 12
        == a.root) {
        6
    } else if (a.root + 7) % 12 == b.root || (b.root + 7) % 12 == a.root {
        4
    } else {
        0
    }
}

/// The key detector: votes over the catalogue of profile families.
pub struct KeyDetector {}

impl KeyDetector {
    pub fn new() -> (d: Self) {
        KeyDetector {  }
    }

    /// Estimates the key of a chroma vector: root pitch class, mode, and
    /// confidence in millionths.
    pub fn detect_key(&self, chroma: &[u32]) -> (key: (usize, bool, u32))
        requires
            is_chroma(chroma@),
        ensures
            key == key_estimate(chroma@),
            key.0 < 12,
            CONFIDENCE_MIN <= key.2 <= CONFIDENCE_MAX,
    {
        let mut profile_results: Vec<WeightedVote> = Vec::new();
        for i in 0..5usize
            invariant
                is_chroma(chroma@),
                profile_results@.len() == i,
                are_weighted_votes(profile_results@),
                forall|j: int| 0 <= j < i ==> profile_results@[j] == family_votes(chroma@)[j],
        {
            let family = family_at(i);
            let major = family.major();
            let minor = family.minor();
            let vote = self.test_profile_set(chroma, &major, &minor);
            profile_results.push(WeightedVote { vote, weight: family.weight() });
        }
        assert(profile_results@ =~= family_votes(chroma@));
        let agreed = self.calculate_weighted_consensus(profile_results.as_slice());
        let agreement_factor = self.calculate_profile_agreement(profile_results.as_slice());
        assert(agreed.confidence * agreement_factor <= 1_000_000 * 1_000_000) by (nonlinear_arith)
            requires
                agreed.confidence <= 1_000_000,
                agreement_factor <= 1_000_000,
        ;
        let scaled: u64 = (agreed.confidence as u64) * (agreement_factor as u64) / 1_000_000;
        let confidence: u32 = if scaled < CONFIDENCE_MIN as u64 {
            CONFIDENCE_MIN
        } else if scaled > CONFIDENCE_MAX as u64 {
            CONFIDENCE_MAX
        } else {
            scaled as u32
        };
        (agreed.root, agreed.is_major, confidence)
    }

    /// The vote of one profile family: the best of its twenty-four
    /// candidates.
    pub fn test_profile_set(
        &self,
        chroma: &[u32],
        major_profile: &[u32],
        minor_profile: &[u32],
    ) -> (vote: KeyVote)
        requires
            is_chroma(chroma@),
            is_profile(major_profile@),
            is_profile(minor_profile@),
        ensures
            vote == profile_vote(chroma@, major_profile@, minor_profile@),
            vote.root < 12,
            vote.confidence <= UNIT,
    {
        let mut best_correlation: i32 = calculate_enhanced_correlation(chroma, major_profile, 0);
        let mut best: usize = 0;
        let mut k: usize = 1;
        while k < 24
            invariant
                is_chroma(chroma@),
                is_profile(major_profile@),
                is_profile(minor_profile@),
                1 <= k <= 24,
                best < k,
                best == best_candidate(chroma@, major_profile@, minor_profile@, k as int),
                best_correlation == candidate_correlation(
                    chroma@,
                    major_profile@,
                    minor_profile@,
                    best as int,
                ),
                -(UNIT as int) <= best_correlation <= UNIT,
            decreases 24 - k,
        {
            let found: i32 = if k % 2 == 0 {
                calculate_enhanced_correlation(chroma, major_profile, k / 2)
            } else {
                calculate_enhanced_correlation(chroma, minor_profile, k / 2)
            };
            if found > best_correlation {
                best_correlation = found;
                best = k;
            }
            k = k + 1;
        }
        let confidence: u32 = ((best_correlation + 1_000_000) as u32) / 2;
        KeyVote { root: best / 2, is_major: best % 2 == 0, confidence }
    }

    /// The consensus of the families' votes.
    pub fn calculate_weighted_consensus(&self, results: &[WeightedVote]) -> (agreed: KeyVote)
        requires
            are_weighted_votes(results@),
        ensures
            agreed == consensus(results@),
            agreed.root < 12,
            agreed.confidence <= UNIT,
    {
        let mut key_votes: [u128; 24] = [0; 24];
        let mut total_weight: u128 = 0;
        let n = results.len();
        for i in 0..n
            invariant
                n == results@.len(),
                are_weighted_votes(results@),
                forall|b: int| 0 <= b < 24 ==> key_votes@[b] == bin_votes(results@, b, i as int),
                total_weight == total_votes(results@, i as int),
                total_weight <= i * 1_000_000_000_000,
        {
            let cast = results[i];
            assert(is_weighted_vote(cast));
            let key_idx: usize = if cast.vote.is_major {
                cast.vote.root
            } else {
                cast.vote.root + 12
            };
            proof {
                lemma_bin_votes_bounds(results@, key_idx as int, i as int);
                assert(cast.vote.confidence * cast.weight <= 1_000_000 * 1_000_000)
                    by (nonlinear_arith)
                    requires
                        cast.vote.confidence <= 1_000_000,
                        cast.weight <= 1_000_000,
                ;
            }
            let vote_strength: u128 = (cast.vote.confidence as u128) * (cast.weight as u128);
            key_votes[key_idx] = key_votes[key_idx] + vote_strength;
            total_weight = total_weight + vote_strength;
        }
        let mut best_idx: usize = 0;
        for b in 1..24usize
            invariant
                best_idx < b,
                best_idx == winning_bin(results@, b as int),
                n == results@.len(),
                forall|b: int| 0 <= b < 24 ==> key_votes@[b] == bin_votes(results@, b, n as int),
        {
            if key_votes[b] >= key_votes[best_idx] {
                best_idx = b;
            }
        }
        let best_score: u128 = key_votes[best_idx];
        proof {
            lemma_bin_votes_bounds(results@, best_idx as int, n as int);
        }
        let confidence: u32 = if total_weight > 0 {
            assert((best_score * 1_000_000) / (total_weight as int) <= 1_000_000) by (nonlinear_arith)
                requires
                    0 <= best_score <= total_weight,
                    total_weight > 0,
            ;
            (best_score * 1_000_000 / total_weight) as u32
        } else {
            0
        };
        KeyVote { root: best_idx % 12, is_major: best_idx < 12, confidence }
    }

    /// The agreement factor of the families' votes, in millionths.
    pub fn calculate_profile_agreement(&self, results: &[WeightedVote]) -> (factor: u32)
        requires
            are_weighted_votes(results@),
            results@.len() <= 0xffff_ffff,
        ensures
            factor == agreement(results@),
            AGREEMENT_FLOOR <= factor <= UNIT,
    {
        let n = results.len();
        if n < 2 {
            return UNIT;
        }
        let mut total_agreement: u128 = 0;
        let mut pairs: u128 = 0;
        for i in 0..n
            invariant
                n == results@.len(),
                n <= 0xffff_ffff,
                are_weighted_votes(results@),
                total_agreement == pair_total(results@, i as int),
                pairs == pair_count(n as int, i as int),
                pairs <= i * 0xffff_ffff,
                total_agreement <= pairs * 10_000_000,
        {
            let first = results[i];
            assert(is_weighted_vote(first));
            let mut row: u128 = 0;
            let mut j: usize = i + 1;
            while j < n
                invariant
                    n == results@.len(),
                    n <= 0xffff_ffff,
                    are_weighted_votes(results@),
                    i < n,
                    i + 1 <= j <= n,
                    first == results@[i as int],
                    is_weighted_vote(first),
                    row == row_total(results@, i as int, j as int),
                    row <= (j - i - 1) * 10_000_000,
                decreases n - j,
            {
                let second = results[j];
                assert(is_weighted_vote(second));
                let tenths = agreement_between(first.vote, second.vote);
                proof {
                    assert(first.vote.confidence * second.vote.confidence <= 1_000_000 * 1_000_000)
                        by (nonlinear_arith)
                        requires
                            first.vote.confidence <= 1_000_000,
                            second.vote.confidence <= 1_000_000,
                    ;
                }
                let product: u128 = (first.vote.confidence as u128) * (
                second.vote.confidence as u128);
                let mean: u64 = isqrt(product);
                proof {
                    lemma_geometric_mean_is_share(
                        first.vote.confidence as nat,
                        second.vote.confidence as nat,
                        mean as nat,
                    );
                    assert(tenths * mean <= 10 * 1_000_000) by (nonlinear_arith)
                        requires
                            0 <= tenths <= 10,
                            0 <= mean <= 1_000_000,
                    ;
                }
                row = row + tenths * (mean as u128);
                j = j + 1;
            }
            total_agreement = total_agreement + row;
            pairs = pairs + (n - i - 1) as u128;
        }
        assert(pairs >= 1) by {
            lemma_pair_count_closed_form(n as int, n as int);
            assert(n * (2 * n - n - 1) >= 2) by (nonlinear_arith)
                requires
                    n >= 2,
            ;
        }
        assert((total_agreement as int) / (10 * pairs) <= 1_000_000) by (nonlinear_arith)
            requires
                0 <= total_agreement <= pairs * 10_000_000,
                pairs >= 1,
        ;
        let mean: u128 = total_agreement / (10 * pairs);
        if mean < AGREEMENT_FLOOR as u128 {
            AGREEMENT_FLOOR
        } else {
            mean as u32
        }
    }
}

} // verus!

//! Scale matching: how well a pooled chroma vector fits each scale pattern at
//! each root, and the ranking of the best fits.
use vstd::prelude::*;
use crate::constants::{
    BLUES_SCALE, DORIAN_SCALE, HARMONIC_MINOR_SCALE, LYDIAN_SCALE, MAJOR_SCALE, MAX_SCALE_MATCHES,
    MIXOLYDIAN_SCALE, NATURAL_MINOR_SCALE, NOTE_NAMES, PENTATONIC_MAJOR_SCALE,
    PENTATONIC_MINOR_SCALE, SCALE_THRESHOLD,
};
use crate::numeric::{UNIT, four_fifths_power, lemma_four_fifths_power_bound, pow_four_fifths};
use crate::ranking::{
    Ranked, insert_ranked, is_ranked, is_top_ranking, kept_or_outranked, lemma_top_ranking_unique,
    ranks_before,
};
use crate::utils::{is_chroma, join_with_space};

verus! {

/// The scale patterns that are matched, in the order in which they are tried.
#[derive(Clone, Copy, Debug, PartialEq, Eq, Structural)]
pub enum ScalePattern {
    Major,
    NaturalMinor,
    HarmonicMinor,
    Dorian,
    Lydian,
    Mixolydian,
    PentatonicMajor,
    PentatonicMinor,
    Blues,
}

impl ScalePattern {
    /// The intervals of the pattern, in semitones above the root.
    pub open spec fn interval_seq(self) -> Seq<usize> {
        match self {
            ScalePattern::Major => MAJOR_SCALE@,
            ScalePattern::NaturalMinor => NATURAL_MINOR_SCALE@,
            ScalePattern::HarmonicMinor => HARMONIC_MINOR_SCALE@,
            ScalePattern::Dorian => DORIAN_SCALE@,
            ScalePattern::Lydian => LYDIAN_SCALE@,
            ScalePattern::Mixolydian => MIXOLYDIAN_SCALE@,
            ScalePattern::PentatonicMajor => PENTATONIC_MAJOR_SCALE@,
            ScalePattern::PentatonicMinor => PENTATONIC_MINOR_SCALE@,
            ScalePattern::Blues => BLUES_SCALE@,
        }
    }

    /// The position of the pattern in the order of trial.
    pub open spec fn position(self) -> int {
        match self {
            ScalePattern::Major => 0,
            ScalePattern::NaturalMinor => 1,
            ScalePattern::HarmonicMinor => 2,
            ScalePattern::Dorian => 3,
            ScalePattern::Lydian => 4,
            ScalePattern::Mixolydian => 5,
            ScalePattern::PentatonicMajor => 6,
            ScalePattern::PentatonicMinor => 7,
            ScalePattern::Blues => 8,
        }
    }

    /// The name of the pattern.
    pub open spec fn name_text(self) -> Seq<char> {
        match self {
            ScalePattern::Major => "Major"@,
            ScalePattern::NaturalMinor => "Natural Minor"@,
            ScalePattern::HarmonicMinor => "Harmonic Minor"@,
            ScalePattern::Dorian => "Dorian"@,
            ScalePattern::Lydian => "Lydian"@,
            ScalePattern::Mixolydian => "Mixolydian"@,
            ScalePattern::PentatonicMajor => "Pentatonic Major"@,
            ScalePattern::PentatonicMinor => "Pentatonic Minor"@,
            ScalePattern::Blues => "Blues"@,
        }
    }

    pub fn intervals(self) -> (r: &'static [usize])
        ensures
            r@ == self.interval_seq(),
    {
        match self {
            ScalePattern::Major => &MAJOR_SCALE,
            ScalePattern::NaturalMinor => &NATURAL_MINOR_SCALE,
            ScalePattern::HarmonicMinor => &HARMONIC_MINOR_SCALE,
            ScalePattern::Dorian => &DORIAN_SCALE,
            ScalePattern::Lydian => &LYDIAN_SCALE,
            ScalePattern::Mixolydian => &MIXOLYDIAN_SCALE,
            ScalePattern::PentatonicMajor => &PENTATONIC_MAJOR_SCALE,
            ScalePattern::PentatonicMinor => &PENTATONIC_MINOR_SCALE,
            ScalePattern::Blues => &BLUES_SCALE,
        }
    }

    pub fn name(self) -> (r: &'static str)
        ensures
            r@ == self.name_text(),
    {
        match self {
            ScalePattern::Major => "Major",
            ScalePattern::NaturalMinor => "Natural Minor",
            ScalePattern::HarmonicMinor => "Harmonic Minor",
            ScalePattern::Dorian => "Dorian",
            ScalePattern::Lydian => "Lydian",
            ScalePattern::Mixolydian => "Mixolydian",
            ScalePattern::PentatonicMajor => "Pentatonic Major",
            ScalePattern::PentatonicMinor => "Pentatonic Minor",
            ScalePattern::Blues => "Blues",
        }
    }
}

/// The interval, in semitones, from `root` up to `pitch_class`.
pub open spec fn interval_from(root: int, pitch_class: int) -> int {
    (pitch_class + 12 - root) % 12
}

/// The importance of a scale degree, in tenths: the root counts most, then
/// the thirds and the fifth, then the second and the sixth, then the fourth
/// and the minor seventh, then the rest.
pub open spec fn degree_weight(interval: int) -> int {
    if interval == 0 {
        30
    } else if interval == 3 || interval == 4 || interval == 7 {
        20
    } else if interval == 2 || interval == 9 {
        15
    } else if interval == 5 || interval == 10 {
        13
    } else {
        10
    }
}

/// Pitch class `pitch_class` belongs to the scale of `pattern` on `root`.
pub open spec fn in_scale(pattern: Seq<usize>, root: int, pitch_class: int) -> bool {
    pattern.contains(interval_from(root, pitch_class) as usize)
}

/// The number of the first `n` pitch classes that belong to the scale.
pub open spec fn in_scale_bins(pattern: Seq<usize>, root: int, n: int) -> int
    decreases n,
{
    if n <= 0 {
        0
    } else if in_scale(pattern, root, n - 1) {
        in_scale_bins(pattern, root, n - 1) + 1
    } else {
        in_scale_bins(pattern, root, n - 1)
    }
}

/// The energy of the first `n` pitch classes that belong to the scale, each
/// bin weighted by the importance of its degree (in tenths).
pub open spec fn in_scale_energy(c: Seq<u32>, pattern: Seq<usize>, root: int, n: int) -> int
    decreases n,
{
    if n <= 0 {
        0
    } else if in_scale(pattern, root, n - 1) {
        in_scale_energy(c, pattern, root, n - 1) + c[n - 1] * degree_weight(
            interval_from(root, n - 1),
        )
    } else {
        in_scale_energy(c, pattern, root, n - 1)
    }
}

/// The energy of the first `n` pitch classes outside the scale, counted
/// double.
pub open spec fn out_scale_energy(c: Seq<u32>, pattern: Seq<usize>, root: int, n: int) -> int
    decreases n,
{
    if n <= 0 {
        0
    } else if in_scale(pattern, root, n - 1) {
        out_scale_energy(c, pattern, root, n - 1)
    } else {
        out_scale_energy(c, pattern, root, n - 1) + 2 * c[n - 1]
    }
}

/// The strength, in millionths, with which a chroma vector fits a scale.
///
/// With `i` the weighted in-scale energy per in-scale bin and `o` the doubled
/// out-of-scale energy per out-of-scale bin, the strength is
/// `(i / (i + o))^0.8 / (1 + 3 * o)`. Both quotients are taken exactly and
/// rounded down to millionths; the power is the integer fifth root that
/// `four_fifths_power` names. A scale with no bin, and a chroma vector with
/// no energy, have strength zero; a scale that covers all twelve bins has
/// nothing outside it.
pub open spec fn scale_fit(c: Seq<u32>, pattern: Seq<usize>, root: int) -> int {
    let bins = in_scale_bins(pattern, root, 12);
    let rest = if bins == 12 {
        1
    } else {
        12 - bins
    };
    let inside = in_scale_energy(c, pattern, root, 12);
    let outside = out_scale_energy(c, pattern, root, 12);
    let inside_part = inside * rest;
    let outside_part = 10 * bins * outside;
    if bins == 0 || inside_part + outside_part == 0 {
        0
    } else {
        let ratio = UNIT * inside_part / (inside_part + outside_part);
        let enhanced = four_fifths_power(ratio as nat);
        enhanced * (rest * UNIT) / (rest * UNIT + 3 * outside)
    }
}

/// The patterns in the order of trial.
pub open spec fn common_patterns() -> Seq<ScalePattern> {
    seq![
        ScalePattern::Major,
        ScalePattern::NaturalMinor,
        ScalePattern::HarmonicMinor,
        ScalePattern::Dorian,
        ScalePattern::Lydian,
        ScalePattern::Mixolydian,
        ScalePattern::PentatonicMajor,
        ScalePattern::PentatonicMinor,
        ScalePattern::Blues,
    ]
}

/// The number of candidates: every pattern on every root.
pub const CANDIDATES: usize = 108;

/// The strength of candidate `k`: candidates run through the patterns in
/// their order of trial, and through the twelve roots within each pattern.
pub open spec fn candidate_strength(c: Seq<u32>, k: int) -> int {
    scale_fit(c, common_patterns()[k / 12].interval_seq(), k % 12)
}

/// Candidate `k` is strong enough to be reported.
pub open spec fn qualifies(c: Seq<u32>, k: int) -> bool {
    candidate_strength(c, k) > SCALE_THRESHOLD
}

/// Candidate `k` as it enters the ranking: equally strong candidates rank in
/// the order of trial.
pub open spec fn candidate(c: Seq<u32>, k: int) -> Ranked {
    Ranked { score: candidate_strength(c, k) as u32, tag: k as usize }
}

/// `top` is the ranking of a chroma vector's scale matches: the strongest
/// candidates that qualify, at most `MAX_SCALE_MATCHES` of them, in ranking
/// order.
pub open spec fn is_scale_ranking(c: Seq<u32>, top: Seq<Ranked>) -> bool {
    &&& is_ranked(top)
    &&& top.len() <= MAX_SCALE_MATCHES
    &&& forall|i: int|
        0 <= i < top.len() ==> (#[trigger] top[i]).tag < CANDIDATES && qualifies(
            c,
            top[i].tag as int,
        ) && top[i] == candidate(c, top[i].tag as int)
    &&& forall|k: int|
        0 <= k < CANDIDATES && qualifies(c, k) ==> kept_or_outranked(
            top,
            MAX_SCALE_MATCHES as int,
            #[trigger] candidate(c, k),
        )
}

/// One reported scale: its name, its root and pattern, and the strength of
/// the fit in millionths.
#[derive(Debug)]
pub struct ScaleMatch {
    pub name: String,
    pub root: usize,
    pub pattern: ScalePattern,
    pub strength: u32,
}

impl ScaleMatch {
    /// The match as it stood in the ranking.
    pub open spec fn rank(self) -> Ranked {
        Ranked { score: self.strength, tag: (self.pattern.position() * 12 + self.root) as usize }
    }
}

/// The name of a scale: the name of the root, a space, the name of the
/// pattern.
pub open spec fn scale_name(root: int, pattern: ScalePattern) -> Seq<char> {
    NOTE_NAMES@[root]@ + seq![' '] + pattern.name_text()
}

/// The ranking that a list of matches stands for.
pub open spec fn ranks_of(matches: Seq<ScaleMatch>) -> Seq<Ranked> {
    Seq::new(matches.len(), |i: int| matches[i].rank())
}

/// The pattern at position `i` of the order of trial.
fn pattern_at(i: usize) -> (p: ScalePattern)
    requires
        i < 9,
    ensures
        p == common_patterns()[i as int],
        p.position() == i,
{
    if i == 0 {
        ScalePattern::Major
    } else if i == 1 {
        ScalePattern::NaturalMinor
    } else if i == 2 {
        ScalePattern::HarmonicMinor
    } else if i == 3 {
        ScalePattern::Dorian
    } else if i == 4 {
        ScalePattern::Lydian
    } else if i == 5 {
        ScalePattern::Mixolydian
    } else if i == 6 {
        ScalePattern::PentatonicMajor
    } else if i == 7 {
        ScalePattern::PentatonicMinor
    } else {
        ScalePattern::Blues
    }
}

/// Tells whether `interval` is one of the pattern's intervals.
fn pattern_contains(pattern: &[usize], interval: usize) -> (found: bool)
    ensures
        found == pattern@.contains(interval),
{
    let mut at: usize = 0;
    while at < pattern.len()
        invariant
            at <= pattern@.len(),
            forall|j: int| 0 <= j < at ==> pattern@[j] != interval,
        decreases pattern@.len() - at,
    {
        if pattern[at] == interval {
            return true;
        }
        at = at + 1;
    }
    false
}

/// The importance of a scale degree, in tenths.
fn weight_of_degree(interval: usize) -> (w: u64)
    ensures
        w == degree_weight(interval as int),
        10 <= w <= 30,
{
    if interval == 0 {
        30
    } else if interval == 3 || interval == 4 || interval == 7 {
        20
    } else if interval == 2 || interval == 9 {
        15
    } else if interval == 5 || interval == 10 {
        13
    } else {
        10
    }
}

/// The scale matcher.
pub struct ScaleAnalyzer {}

impl ScaleAnalyzer {
    pub fn new() -> (a: Self) {
        ScaleAnalyzer {  }
    }

    /// Ranks the scales that a chroma vector fits: every pattern is tried on
    /// every root, the fits above the threshold are ranked by strength, and
    /// the strongest are reported. The detected root plays no part.
    pub fn analyze_scales(&self, chroma: &[u32], _detected_root: usize) -> (scale_matches: Vec<
        ScaleMatch,
    >)
        requires
            is_chroma(chroma@),
        ensures
            is_scale_ranking(chroma@, ranks_of(scale_matches@)),
            forall|i: int|
                0 <= i < scale_matches@.len() ==> (#[trigger] scale_matches@[i]).root < 12
                    && scale_matches@[i].name@ == scale_name(
                    scale_matches@[i].root as int,
                    scale_matches@[i].pattern,
                ),
    {
        let mut top: Vec<Ranked> = Vec::new();
        for k in 0..108usize
            invariant
                is_chroma(chroma@),
                is_ranked(top@),
                top@.len() <= 8,
                forall|i: int|
                    0 <= i < top@.len() ==> (#[trigger] top@[i]).tag < k && qualifies(
                        chroma@,
                        top@[i].tag as int,
                    ) && top@[i] == candidate(chroma@, top@[i].tag as int),
                forall|j: int|
                    0 <= j < k && qualifies(chroma@, j) ==> kept_or_outranked(
                        top@,
                        8,
                        #[trigger] candidate(chroma@, j),
                    ),
        {
            let pattern = pattern_at(k / 12);
            let scale_strength = self.calculate_scale_fit_corrected(
                chroma,
                pattern.intervals(),
                k % 12,
            );
            if scale_strength > SCALE_THRESHOLD {
                let item = Ranked { score: scale_strength, tag: k };
                let ghost before = top@;
                assert(item == candidate(chroma@, k as int));
                insert_ranked(&mut top, item, MAX_SCALE_MATCHES);
                assert forall|j: int| 0 <= j < k + 1 && qualifies(chroma@, j) implies kept_or_outranked(
                    top@,
                    8,
                    #[trigger] candidate(chroma@, j),
                ) by {
                    if j < k {
                        let x = candidate(chroma@, j);
                        assert(kept_or_outranked(before, 8, x));
                        if before.contains(x) {
                            let i = choose|i: int| 0 <= i < before.len() && before[i] == x;
                            assert(kept_or_outranked(top@, 8, before[i]));
                        } else {
                            assert(ranks_before(before[7], x));
                            assert(ranks_before(top@[7], x));
                        }
                    }
                }
            }
        }
        let mut scale_matches: Vec<ScaleMatch> = Vec::new();
        for i in 0..top.len()
            invariant
                is_scale_ranking(chroma@, top@),
                scale_matches@.len() == i,
                forall|j: int|
                    0 <= j < i ==> (#[trigger] scale_matches@[j]).rank() == top@[j]
                        && scale_matches@[j].root < 12 && scale_matches@[j].name@ == scale_name(
                        scale_matches@[j].root as int,
                        scale_matches@[j].pattern,
                    ),
        {
            let entry = top[i];
            let pattern = pattern_at(entry.tag / 12);
            let root = entry.tag % 12;
            let name = join_with_space(NOTE_NAMES[root], pattern.name());
            scale_matches.push(ScaleMatch { name, root, pattern, strength: entry.score });
        }
        assert(ranks_of(scale_matches@) =~= top@);
        scale_matches
    }

    /// The strength with which a chroma vector fits the scale of `pattern` on
    /// `root`.
    pub fn calculate_scale_fit_corrected(&self, chroma: &[u32], pattern: &[usize], root: usize) -> (strength:
        u32)
        requires
            is_chroma(chroma@),
            root < 12,
        ensures
            strength == scale_fit(chroma@, pattern@, root as int),
            strength <= UNIT,
    {
        let mut inside: u64 = 0;
        let mut outside: u64 = 0;
        let mut bins: u64 = 0;
        for i in 0..12usize
            invariant
                is_chroma(chroma@),
                root < 12,
                bins == in_scale_bins(pattern@, root as int, i as int),
                inside == in_scale_energy(chroma@, pattern@, root as int, i as int),
                outside == out_scale_energy(chroma@, pattern@, root as int, i as int),
                bins <= i,
                inside <= i * 30_000_000,
                outside <= i * 2_000_000,
        {
            let note_interval: usize = (i + 12 - root) % 12;
            let energy: u64 = chroma[i] as u64;
            if pattern_contains(pattern, note_interval) {
                let weight = weight_of_degree(note_interval);
                assert(energy * weight <= 1_000_000 * 30) by (nonlinear_arith)
                    requires
                        energy <= 1_000_000,
                        weight <= 30,
                ;
                inside = inside + energy * weight;
                bins = bins + 1;
            } else {
                outside = outside + 2 * energy;
            }
        }
        let rest: u64 = if bins == 12 {
            1
        } else {
            12 - bins
        };
        assert(inside * rest <= 360_000_000 * 12) by (nonlinear_arith)
            requires
                inside <= 360_000_000,
                rest <= 12,
        ;
        assert(bins * outside <= 12 * 24_000_000) by (nonlinear_arith)
            requires
                bins <= 12,
                outside <= 24_000_000,
        ;
        let inside_part: u64 = inside * rest;
        let outside_part: u64 = 10 * (bins * outside);
        assert(outside_part == 10 * bins * outside) by (nonlinear_arith)
            requires
                outside_part == 10 * (bins * outside),
        ;
        if bins == 0 || inside_part + outside_part == 0 {
            return 0;
        }
        let whole: u64 = inside_part + outside_part;
        assert((1_000_000 * inside_part) / (whole as int) <= 1_000_000) by (nonlinear_arith)
            requires
                0 <= inside_part <= whole,
                whole > 0,
        ;
        let ratio: u32 = (1_000_000 * inside_part / whole) as u32;
        let enhanced: u64 = pow_four_fifths(ratio) as u64;
        let level: u64 = rest * 1_000_000;
        assert(enhanced * level <= 1_000_000 * 12_000_000) by (nonlinear_arith)
            requires
                enhanced <= 1_000_000,
                level <= 12_000_000,
        ;
        assert((enhanced * level) / ((level + 3 * outside) as int) <= enhanced) by (nonlinear_arith)
            requires
                0 <= enhanced,
                level > 0,
                outside >= 0,
        ;
        (enhanced * level / (level + 3 * outside)) as u32
    }
}

/// The energies on both sides of a scale are never negative, and energy
/// inside the scale takes a bin of the scale.
pub proof fn lemma_scale_energies(c: Seq<u32>, pattern: Seq<usize>, root: int, n: int)
    requires
        is_chroma(c),
        0 <= n <= 12,
    ensures
        0 <= in_scale_bins(pattern, root, n) <= n,
        0 <= in_scale_energy(c, pattern, root, n) <= n * 30_000_000,
        0 <= out_scale_energy(c, pattern, root, n) <= n * 2_000_000,
        in_scale_energy(c, pattern, root, n) > 0 ==> in_scale_bins(pattern, root, n) > 0,
    decreases n,
{
    if n > 0 {
        lemma_scale_energies(c, pattern, root, n - 1);
        let w = degree_weight(interval_from(root, n - 1));
        assert(0 <= c[n - 1] * w <= 30_000_000) by (nonlinear_arith)
            requires
                0 <= c[n - 1] <= 1_000_000,
                10 <= w <= 30,
        ;
    }
}

/// The strength of a fit is a share of one whole.
pub proof fn lemma_scale_fit_bound(c: Seq<u32>, pattern: Seq<usize>, root: int)
    requires
        is_chroma(c),
    ensures
        0 <= scale_fit(c, pattern, root) <= UNIT,
{
    lemma_scale_energies(c, pattern, root, 12);
    let bins = in_scale_bins(pattern, root, 12);
    let rest = if bins == 12 {
        1
    } else {
        12 - bins
    };
    let inside = in_scale_energy(c, pattern, root, 12);
    let outside = out_scale_energy(c, pattern, root, 12);
    let inside_part = inside * rest;
    let outside_part = 10 * bins * outside;
    assert(inside_part >= 0) by (nonlinear_arith)
        requires
            inside_part == inside * rest,
            inside >= 0,
            rest >= 1,
    ;
    assert(outside_part >= 0) by (nonlinear_arith)
        requires
            outside_part == 10 * bins * outside,
            bins >= 0,
            outside >= 0,
    ;
    if !(bins == 0 || inside_part + outside_part == 0) {
        let whole = inside_part + outside_part;
        let ratio = UNIT * inside_part / whole;
        assert(0 <= ratio <= UNIT) by (nonlinear_arith)
            requires
                ratio == UNIT * inside_part / whole,
                0 <= inside_part <= whole,
                whole > 0,
        ;
        lemma_four_fifths_power_bound(ratio as nat);
        let enhanced = four_fifths_power(ratio as nat) as int;
        let level = rest * UNIT;
        assert(0 <= enhanced * level / (level + 3 * outside) <= enhanced) by (nonlinear_arith)
            requires
                0 <= enhanced,
                level == rest * UNIT,
                rest >= 1,
                outside >= 0,
        ;
    }
}

/// A chroma vector with all of its energy inside a scale fits the scale in
/// full.
pub proof fn lemma_full_fit(c: Seq<u32>, pattern: Seq<usize>, root: int)
    requires
        is_chroma(c),
        out_scale_energy(c, pattern, root, 12) == 0,
        in_scale_energy(c, pattern, root, 12) > 0,
    ensures
        scale_fit(c, pattern, root) == UNIT,
{
    lemma_scale_energies(c, pattern, root, 12);
    let bins = in_scale_bins(pattern, root, 12);
    let rest = if bins == 12 {
        1
    } else {
        12 - bins
    };
    let inside = in_scale_energy(c, pattern, root, 12);
    let inside_part = inside * rest;
    assert(inside_part > 0) by (nonlinear_arith)
        requires
            inside_part == inside * rest,
            inside > 0,
            rest >= 1,
    ;
    assert(10 * bins * 0 == 0);
    assert(UNIT * inside_part / inside_part == UNIT) by (nonlinear_arith)
        requires
            inside_part > 0,
    ;
    lemma_four_fifths_power_bound(UNIT as nat);
    let level = rest * UNIT;
    assert(UNIT * level / (level + 3 * 0) == UNIT) by (nonlinear_arith)
        requires
            level == rest * UNIT,
            rest >= 1,
    ;
}

/// The candidates that may stand in the ranking of a chroma vector.
pub open spec fn is_eligible(c: Seq<u32>) -> spec_fn(Ranked) -> bool {
    |x: Ranked| x.tag < CANDIDATES && qualifies(c, x.tag as int) && x == candidate(c, x.tag as int)
}

/// The ranking of a chroma vector's scale matches is determined: two
/// rankings of the same vector are the same.
pub proof fn lemma_scale_ranking_unique(c: Seq<u32>, a: Seq<Ranked>, b: Seq<Ranked>)
    requires
        is_scale_ranking(c, a),
        is_scale_ranking(c, b),
    ensures
        a == b,
{
    lemma_scale_ranking_is_top(c, a);
    lemma_scale_ranking_is_top(c, b);
    lemma_top_ranking_unique(a, b, MAX_SCALE_MATCHES as int, is_eligible(c));
}

proof fn lemma_scale_ranking_is_top(c: Seq<u32>, top: Seq<Ranked>)
    requires
        is_scale_ranking(c, top),
    ensures
        is_top_ranking(top, MAX_SCALE_MATCHES as int, is_eligible(c)),
{
    let eligible = is_eligible(c);
    assert forall|x: Ranked| #[trigger] eligible(x) implies kept_or_outranked(
        top,
        MAX_SCALE_MATCHES as int,
        x,
    ) by {
        assert(x == candidate(c, x.tag as int));
    }
    assert forall|i: int| 0 <= i < top.len() implies eligible(#[trigger] top[i]) by {
        assert(top[i].tag < CANDIDATES);
    }
}

/// A chroma vector with energy, all of it on the notes of the C major
/// scale, has C Major at the head of its ranking, with full strength; no
/// other match is stronger.
pub proof fn lemma_exact_major_ranks_first(c: Seq<u32>, top: Seq<Ranked>)
    requires
        is_chroma(c),
        is_scale_ranking(c, top),
        out_scale_energy(c, ScalePattern::Major.interval_seq(), 0, 12) == 0,
        in_scale_energy(c, ScalePattern::Major.interval_seq(), 0, 12) > 0,
    ensures
        top.len() > 0,
        top[0] == (Ranked { score: UNIT, tag: 0 }),
        forall|i: int| 0 <= i < top.len() ==> (#[trigger] top[i]).score <= top[0].score,
{
    lemma_full_fit(c, ScalePattern::Major.interval_seq(), 0);
    assert(common_patterns()[0] == ScalePattern::Major);
    let first = candidate(c, 0);
    assert(first == Ranked { score: UNIT, tag: 0 });
    assert(qualifies(c, 0));
    assert(kept_or_outranked(top, MAX_SCALE_MATCHES as int, first));
    assert forall|i: int| 0 <= i < top.len() implies (#[trigger] top[i]).score <= UNIT by {
        let k = top[i].tag as int;
        assert(top[i] == candidate(c, k));
        lemma_scale_fit_bound(c, common_patterns()[k / 12].interval_seq(), k % 12);
    }
    if top.contains(first) {
        let i = choose|i: int| 0 <= i < top.len() && top[i] == first;
        if i > 0 {
            assert(ranks_before(top[0], top[i]));
            assert(top[0].score <= UNIT);
        }
    } else {
        assert(ranks_before(top[7], first));
        assert(top[7].score <= UNIT);
    }
}

} // verus!

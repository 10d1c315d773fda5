//! Musical analysis: pitch-class profiles, key voting and scale matching,
//! and the analyzer that runs them on the spectra of a recording.
use vstd::prelude::*;

pub mod chroma;
pub mod keydetection;
pub mod scale_analysis;

use crate::constants::{MAX_SAMPLE_RATE, NOTE_NAMES, TUNING_RATIO_MAX};
use crate::music::chroma::{ChromaExtractor, are_spectra, is_history_of, is_pooled_profile};
use crate::music::keydetection::{KeyDetector, key_estimate};
use crate::music::scale_analysis::{
    ScaleAnalyzer, ScaleMatch, is_scale_ranking, ranks_of, scale_name,
};
use crate::numeric::{UNIT, prefix_sum, seq_sum};
use crate::utils::{is_chroma, join_with_space};

verus! {

/// `word` occurs in `text`.
pub open spec fn occurs_in(text: Seq<char>, word: Seq<char>) -> bool {
    exists|i: int|
        0 <= i && i + word.len() <= text.len() && #[trigger] text.subrange(i, i + word.len())
            == word
}

/// The family of a scale, by the words in its name.
pub open spec fn scale_category(name: Seq<char>) -> Seq<char> {
    if occurs_in(name, "Major"@) || occurs_in(name, "Lydian"@) || occurs_in(name, "Mixolydian"@) {
        "Major Family"@
    } else if occurs_in(name, "Minor"@) || occurs_in(name, "Dorian"@) || occurs_in(
        name,
        "Phrygian"@,
    ) || occurs_in(name, "Aeolian"@) {
        "Minor Family"@
    } else if occurs_in(name, "Pentatonic"@) {
        "Pentatonic"@
    } else if occurs_in(name, "Blues"@) {
        "Blues"@
    } else if occurs_in(name, "Diminished"@) || occurs_in(name, "Locrian"@) {
        "Diminished"@
    } else if occurs_in(name, "Arabic"@) || occurs_in(name, "Persian"@) || occurs_in(
        name,
        "Hungarian"@,
    ) || occurs_in(name, "Spanish"@) {
        "World/Exotic"@
    } else {
        "Other"@
    }
}

/// The greatest of the first `n` bins; zero when there is none.
pub open spec fn greatest_bin(c: Seq<u32>, n: int) -> int
    decreases n,
{
    if n <= 0 {
        0
    } else {
        let before = greatest_bin(c, n - 1);
        if c[n - 1] > before {
            c[n - 1] as int
        } else {
            before
        }
    }
}

/// How clearly one pitch class stands out, in millionths: the greatest bin
/// over the mean bin, capped at ten, as a share of ten. Zero for a vector
/// without energy.
pub open spec fn tonal_clarity(c: Seq<u32>) -> int {
    let total = seq_sum(c);
    if total <= 0 {
        0
    } else {
        let ratio = greatest_bin(c, 12) * 12 * UNIT / (10 * total);
        if ratio > UNIT {
            UNIT as int
        } else {
            ratio
        }
    }
}

/// The number of the first `n` bins above three tenths of the greatest bin.
pub open spec fn active_bins(c: Seq<u32>, n: int) -> int
    decreases n,
{
    if n <= 0 {
        0
    } else if 10 * c[n - 1] > 3 * greatest_bin(c, 12) {
        active_bins(c, n - 1) + 1
    } else {
        active_bins(c, n - 1)
    }
}

/// The share, in millionths, of the pitch classes that are active.
pub open spec fn harmonic_complexity(c: Seq<u32>) -> int {
    active_bins(c, 12) * UNIT / 12
}

/// The name of a key: the name of the root, a space, and the mode.
pub open spec fn key_name(root: int, is_major: bool) -> Seq<char> {
    NOTE_NAMES@[root]@ + seq![' '] + (if is_major {
        "Major"@
    } else {
        "Minor"@
    })
}

/// Tells whether `word` occurs in `text`, through `str::contains` of std,
/// which finds a pattern that matches a sub-slice of the text.
#[verifier::external_body]
fn contains_word(text: &str, word: &str) -> (found: bool)
    ensures
        found == occurs_in(text@, word@),
{
    text.contains(word)
}

/// The experimental network's estimate replaces the voted key when it is
/// confident enough: above a tenth of one whole, and either above four
/// fifths of the voted confidence or facing a voted confidence below two
/// fifths of one whole.
pub open spec fn prefers_network(network_confidence: u32, voted_confidence: u32) -> bool {
    network_confidence > 100_000 && (10 * network_confidence > 8 * voted_confidence
        || voted_confidence < 400_000)
}

/// The key chosen between the voted key and the network's estimate, and
/// whether it is the network's.
pub open spec fn chosen_key(
    enabled: bool,
    voted: (usize, bool, u32),
    network: Option<(usize, bool, u32)>,
) -> ((usize, bool, u32), bool) {
    match network {
        Some(estimate) => {
            if enabled && prefers_network(estimate.2, voted.2) {
                (estimate, true)
            } else {
                (voted, false)
            }
        },
        None => (voted, false),
    }
}

/// The key of the hybrid detection: the voted key when its confidence is
/// above three quarters of one whole or the network has no estimate more
/// confident by over a tenth of one whole; else the network's estimate.
pub open spec fn hybrid_key(voted: (usize, bool, u32), network: Option<(usize, bool, u32)>) -> (
    usize,
    bool,
    u32,
) {
    match network {
        Some(estimate) => {
            if voted.2 <= 750_000 && estimate.2 > voted.2 + 100_000 {
                estimate
            } else {
                voted
            }
        },
        None => voted,
    }
}

/// The most samples from which the auxiliary features are taken: two
/// seconds.
pub const AUXILIARY_MAX_SAMPLES: usize = 88_200;

/// The fewest samples from which the auxiliary features can be taken.
pub const AUXILIARY_MIN_SAMPLES: usize = 1024;

/// The number of samples from which the auxiliary features of a recording
/// of `len` samples are taken: a quarter of the recording, two seconds at
/// most. A recording that leaves fewer than `AUXILIARY_MIN_SAMPLES` is too
/// short for the features.
pub open spec fn auxiliary_samples(len: int) -> Option<usize> {
    let taken = if len / 4 < AUXILIARY_MAX_SAMPLES {
        len / 4
    } else {
        AUXILIARY_MAX_SAMPLES as int
    };
    if taken < AUXILIARY_MIN_SAMPLES {
        None
    } else {
        Some(taken as usize)
    }
}

/// The number of sign changes between neighbours among the first `n`
/// samples; zero counts as positive.
pub open spec fn zero_crossings(pcm: Seq<i32>, n: int) -> int
    decreases n,
{
    if n <= 1 {
        0
    } else if (pcm[n - 1] >= 0) != (pcm[n - 2] >= 0) {
        zero_crossings(pcm, n - 1) + 1
    } else {
        zero_crossings(pcm, n - 1)
    }
}

/// The zero-crossing rate of the first `n` samples, in millionths: twice the
/// share of neighbours that change sign, capped at one whole; a half when
/// there are no neighbours.
pub open spec fn zero_crossing_rate(pcm: Seq<i32>, n: int) -> int {
    if n <= 1 {
        500_000
    } else {
        let rate = 2 * zero_crossings(pcm, n) * UNIT / (n - 1);
        if rate > UNIT {
            UNIT as int
        } else {
            rate
        }
    }
}

/// What the analysis of a recording reports.
#[derive(Debug)]
pub struct MusicAnalysis {
    pub key: String,
    pub root: usize,
    pub is_major: bool,
    pub confidence: u32,
    pub tonal_clarity: u32,
    pub harmonic_complexity: u32,
    pub chroma: [u32; 12],
    pub scales: Vec<ScaleMatch>,
}

/// The analyzer of the key and the scales of a recording.
pub struct MusicAnalyzer {
    pub sample_rate: u32,
    pub skey_enabled: bool,
    pub chroma_extractor: ChromaExtractor,
    pub key_detector: KeyDetector,
    pub scale_analyzer: ScaleAnalyzer,
}

impl MusicAnalyzer {
    pub fn new(sample_rate: u32) -> (a: Self)
        ensures
            a.sample_rate == sample_rate,
            a.chroma_extractor.sample_rate == sample_rate,
            a.skey_enabled,
    {
        MusicAnalyzer {
            sample_rate,
            skey_enabled: true,
            chroma_extractor: ChromaExtractor::new(sample_rate),
            key_detector: KeyDetector::new(),
            scale_analyzer: ScaleAnalyzer::new(),
        }
    }

    pub fn set_skey_enabled(&mut self, enabled: bool)
        ensures
            final(self).skey_enabled == enabled,
            final(self).sample_rate == old(self).sample_rate,
            final(self).chroma_extractor.sample_rate == old(self).chroma_extractor.sample_rate,
    {
        self.skey_enabled = enabled;
    }

    /// The family of a scale, for grouping scales by kind.
    pub fn categorize_scale(&self, scale_name: &str) -> (category: &'static str)
        ensures
            category@ == scale_category(scale_name@),
    {
        if contains_word(scale_name, "Major") || contains_word(scale_name, "Lydian")
            || contains_word(scale_name, "Mixolydian") {
            "Major Family"
        } else if contains_word(scale_name, "Minor") || contains_word(scale_name, "Dorian")
            || contains_word(scale_name, "Phrygian") || contains_word(scale_name, "Aeolian") {
            "Minor Family"
        } else if contains_word(scale_name, "Pentatonic") {
            "Pentatonic"
        } else if contains_word(scale_name, "Blues") {
            "Blues"
        } else if contains_word(scale_name, "Diminished") || contains_word(scale_name, "Locrian") {
            "Diminished"
        } else if contains_word(scale_name, "Arabic") || contains_word(scale_name, "Persian")
            || contains_word(scale_name, "Hungarian") || contains_word(scale_name, "Spanish") {
            "World/Exotic"
        } else {
            "Other"
        }
    }

    /// Chooses between the voted key and the estimate of the experimental
    /// network, if there is one. Returns the key chosen and whether it is
    /// the network's.
    pub fn choose_key(&self, voted: (usize, bool, u32), network: Option<(usize, bool, u32)>) -> (chosen:
        ((usize, bool, u32), bool))
        ensures
            chosen == chosen_key(self.skey_enabled, voted, network),
    {
        if self.skey_enabled {
            match network {
                Some(estimate) => {
                    if estimate.2 > 100_000 && (10 * (estimate.2 as u64) > 8 * (voted.2 as u64)
                        || voted.2 < 400_000) {
                        return (estimate, true);
                    }
                },
                None => {},
            }
        }
        (voted, false)
    }

    /// Detects the key of a chroma vector by vote, and lets the estimate of
    /// the experimental network, if there is one, replace a vote of little
    /// confidence.
    pub fn detect_key_hybrid(&self, chroma: &[u32], network: Option<(usize, bool, u32)>) -> (key: (
        usize,
        bool,
        u32,
    ))
        requires
            is_chroma(chroma@),
        ensures
            key == hybrid_key(key_estimate(chroma@), network),
    {
        let voted = self.key_detector.detect_key(chroma);
        if voted.2 > 750_000 {
            return voted;
        }
        match network {
            Some(estimate) => {
                if estimate.2 as u64 > voted.2 as u64 + 100_000 {
                    return estimate;
                }
            },
            None => {},
        }
        voted
    }

    /// The number of samples from which the auxiliary features are taken,
    /// or `None` for a recording too short for them.
    pub fn auxiliary_window(&self, len: usize) -> (window: Option<usize>)
        ensures
            window == auxiliary_samples(len as int),
            window matches Some(taken) ==> taken <= len,
    {
        let quarter = len / 4;
        let taken = if quarter < AUXILIARY_MAX_SAMPLES {
            quarter
        } else {
            AUXILIARY_MAX_SAMPLES
        };
        if taken < AUXILIARY_MIN_SAMPLES {
            None
        } else {
            Some(taken)
        }
    }

    /// The zero-crossing rate of the first `max_samples` samples.
    pub fn calculate_zero_crossing_rate_skey(&self, pcm: &[i32], max_samples: usize) -> (rate: u32)
        requires
            max_samples <= pcm@.len(),
        ensures
            rate == zero_crossing_rate(pcm@, max_samples as int),
            rate <= UNIT,
    {
        if max_samples <= 1 {
            return 500_000;
        }
        let mut crossings: usize = 0;
        for i in 1..max_samples
            invariant
                max_samples <= pcm@.len(),
                crossings == zero_crossings(pcm@, i as int),
                crossings <= i - 1,
        {
            if (pcm[i] >= 0) != (pcm[i - 1] >= 0) {
                crossings = crossings + 1;
            }
        }
        let rate: u128 = 2 * (crossings as u128) * 1_000_000 / ((max_samples - 1) as u128);
        if rate > 1_000_000 {
            UNIT
        } else {
            rate as u32
        }
    }

    /// The greatest bin of a chroma vector.
    fn strongest_bin(chroma: &[u32]) -> (m: u32)
        requires
            is_chroma(chroma@),
        ensures
            m == greatest_bin(chroma@, 12),
            m <= UNIT,
    {
        let mut best: u32 = 0;
        for i in 0..12usize
            invariant
                is_chroma(chroma@),
                best == greatest_bin(chroma@, i as int),
                best <= UNIT,
        {
            if chroma[i] > best {
                best = chroma[i];
            }
        }
        best
    }

    /// How clearly the key is defined.
    pub fn calculate_tonal_clarity(&self, chroma: &[u32]) -> (clarity: u32)
        requires
            is_chroma(chroma@),
        ensures
            clarity == tonal_clarity(chroma@),
            clarity <= UNIT,
    {
        let max_value: u64 = Self::strongest_bin(chroma) as u64;
        let mut total: u64 = 0;
        for i in 0..12usize
            invariant
                is_chroma(chroma@),
                total == prefix_sum(chroma@, i as int),
                total <= i * 1_000_000,
        {
            total = total + chroma[i] as u64;
        }
        if total > 0 {
            let ratio: u64 = max_value * 12 * 1_000_000 / (10 * total);
            if ratio > 1_000_000 {
                UNIT
            } else {
                ratio as u32
            }
        } else {
            0
        }
    }

    /// How many pitch classes take part in the harmony.
    pub fn calculate_harmonic_complexity(&self, chroma: &[u32]) -> (complexity: u32)
        requires
            is_chroma(chroma@),
        ensures
            complexity == harmonic_complexity(chroma@),
            complexity <= UNIT,
    {
        let max_value: u64 = Self::strongest_bin(chroma) as u64;
        let mut active: u64 = 0;
        for i in 0..12usize
            invariant
                is_chroma(chroma@),
                max_value == greatest_bin(chroma@, 12),
                max_value <= UNIT,
                active == active_bins(chroma@, i as int),
                active <= i,
        {
            if 10 * (chroma[i] as u64) > 3 * max_value {
                active = active + 1;
            }
        }
        (active * 1_000_000 / 12) as u32
    }

    /// Analyses the key and the scales of a recording from the magnitude
    /// spectra of its frames.
    pub fn analyze_music(&self, spectra: &[Vec<u32>], frame_size: u32, ratio: u32) -> (report:
        MusicAnalysis)
        requires
            are_spectra(spectra@, frame_size as int),
            0 < frame_size,
            self.chroma_extractor.sample_rate <= MAX_SAMPLE_RATE,
            ratio <= TUNING_RATIO_MAX,
        ensures
            is_chroma(report.chroma@),
            exists|history: Seq<Seq<u32>>|
                #[trigger] is_history_of(
                    history,
                    spectra@,
                    self.chroma_extractor.sample_rate as int,
                    frame_size as int,
                    ratio as int,
                ) && is_pooled_profile(report.chroma@, history),
            (report.root, report.is_major, report.confidence) == key_estimate(report.chroma@),
            report.root < 12,
            report.key@ == key_name(report.root as int, report.is_major),
            report.tonal_clarity == tonal_clarity(report.chroma@),
            report.harmonic_complexity == harmonic_complexity(report.chroma@),
            is_scale_ranking(report.chroma@, ranks_of(report.scales@)),
            forall|i: int|
                0 <= i < report.scales@.len() ==> (#[trigger] report.scales@[i]).root < 12
                    && report.scales@[i].name@ == scale_name(
                    report.scales@[i].root as int,
                    report.scales@[i].pattern,
                ),
    {
        let chroma = self.chroma_extractor.extract_advanced(spectra, frame_size, ratio);
        let (root, is_major, confidence) = self.key_detector.detect_key(&chroma);
        let key = join_with_space(
            NOTE_NAMES[root],
            if is_major {
                "Major"
            } else {
                "Minor"
            },
        );
        let scales = self.scale_analyzer.analyze_scales(&chroma, root);
        let tonal_clarity = self.calculate_tonal_clarity(&chroma);
        let harmonic_complexity = self.calculate_harmonic_complexity(&chroma);
        MusicAnalysis {
            key,
            root,
            is_major,
            confidence,
            tonal_clarity,
            harmonic_complexity,
            chroma,
            scales,
        }
    }
}

} // verus!

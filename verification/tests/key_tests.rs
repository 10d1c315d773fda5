use loudness_wasm::music::keydetection::{KeyDetector, KeyVote, ProfileFamily, WeightedVote};

const C_MAJOR: [u32; 12] =
    [151950, 53362, 83274, 55755, 104810, 97870, 60302, 124192, 57191, 87581, 54798, 68916];
const A_MINOR: [u32; 12] =
    [120872, 58414, 79308, 57066, 106718, 89418, 60436, 75039, 71220, 142215, 60211, 79083];

fn weighted(root: usize, is_major: bool, confidence: u32, weight: u32) -> WeightedVote {
    WeightedVote { vote: KeyVote { root, is_major, confidence }, weight }
}

#[test]
fn detects_c_major() {
    let key = KeyDetector::new().detect_key(&C_MAJOR);
    assert_eq!(key, (0, true, 950_000));
}

#[test]
fn detects_a_minor() {
    let key = KeyDetector::new().detect_key(&A_MINOR);
    assert_eq!(key, (9, false, 950_000));
}

#[test]
fn flat_chroma_gives_the_neutral_key() {
    assert_eq!(KeyDetector::new().detect_key(&[0; 12]), (0, true, 500_000));
    assert_eq!(KeyDetector::new().detect_key(&[83_333; 12]), (0, true, 500_000));
}

#[test]
fn confidence_stays_within_its_bounds() {
    let detector = KeyDetector::new();
    let mut seed: u64 = 12345;
    for _ in 0..40 {
        let mut chroma = [0u32; 12];
        for bin in chroma.iter_mut() {
            seed = seed.wrapping_mul(6364136223846793005).wrapping_add(1442695040888963407);
            *bin = ((seed >> 33) % 1_000_001) as u32;
        }
        let (root, _, confidence) = detector.detect_key(&chroma);
        assert!(root < 12);
        assert!((50_000..=950_000).contains(&confidence));
    }
    let mut peak = [0u32; 12];
    peak[5] = 1_000_000;
    let (_, _, confidence) = detector.detect_key(&peak);
    assert!((50_000..=950_000).contains(&confidence));
}

#[test]
fn detection_is_repeatable() {
    let detector = KeyDetector::new();
    assert_eq!(detector.detect_key(&A_MINOR), detector.detect_key(&A_MINOR));
}

#[test]
fn family_votes_for_c_major() {
    let detector = KeyDetector::new();
    let expected = [
        (ProfileFamily::EdmA, 983_588u32),
        (ProfileFamily::Hybrid, 995_456),
        (ProfileFamily::KrumhanslSchmuckler, 999_999),
        (ProfileFamily::Temperley, 946_549),
        (ProfileFamily::Shaath, 995_732),
    ];
    for (family, confidence) in expected {
        let vote = detector.test_profile_set(&C_MAJOR, &family.major(), &family.minor());
        assert_eq!((vote.root, vote.is_major, vote.confidence), (0, true, confidence));
    }
}

#[test]
fn family_weights_add_up_to_one() {
    let families = [
        ProfileFamily::EdmA,
        ProfileFamily::Hybrid,
        ProfileFamily::KrumhanslSchmuckler,
        ProfileFamily::Temperley,
        ProfileFamily::Shaath,
    ];
    let total: u32 = families.iter().map(|f| f.weight()).sum();
    assert_eq!(total, 1_000_000);
}

#[test]
fn first_of_equal_candidates_wins() {
    let flat = [1u32; 12];
    let vote = KeyDetector::new().test_profile_set(&C_MAJOR, &flat, &flat);
    assert_eq!((vote.root, vote.is_major, vote.confidence), (0, true, 500_000));
}

#[test]
fn consensus_counts_weighted_votes() {
    let detector = KeyDetector::new();
    let votes = [
        weighted(0, true, 800_000, 350_000),
        weighted(9, false, 900_000, 250_000),
        weighted(0, true, 600_000, 200_000),
        weighted(7, true, 500_000, 150_000),
        weighted(9, false, 1_000_000, 50_000),
    ];
    let agreed = detector.calculate_weighted_consensus(&votes);
    // C major holds 0.28 + 0.12 = 0.40 of 0.75 votes.
    assert_eq!((agreed.root, agreed.is_major, agreed.confidence), (0, true, 533_333));
}

#[test]
fn consensus_without_votes() {
    let detector = KeyDetector::new();
    let agreed = detector.calculate_weighted_consensus(&[]);
    assert_eq!((agreed.root, agreed.is_major, agreed.confidence), (11, false, 0));
    let silent = [weighted(3, true, 0, 500_000), weighted(4, false, 700_000, 0)];
    let agreed = detector.calculate_weighted_consensus(&silent);
    assert_eq!((agreed.root, agreed.is_major, agreed.confidence), (11, false, 0));
}

#[test]
fn consensus_tie_goes_to_the_later_bin() {
    let detector = KeyDetector::new();
    let votes = [weighted(2, true, 500_000, 500_000), weighted(2, false, 500_000, 500_000)];
    let agreed = detector.calculate_weighted_consensus(&votes);
    assert_eq!((agreed.root, agreed.is_major, agreed.confidence), (2, false, 500_000));
}

#[test]
fn agreement_of_identical_votes_is_their_confidence() {
    let detector = KeyDetector::new();
    let votes = [weighted(4, true, 640_000, 1), weighted(4, true, 640_000, 1)];
    assert_eq!(detector.calculate_profile_agreement(&votes), 640_000);
    let full = [weighted(4, true, 1_000_000, 1), weighted(4, true, 1_000_000, 1)];
    assert_eq!(detector.calculate_profile_agreement(&full), 1_000_000);
}

#[test]
fn agreement_by_relation() {
    let detector = KeyDetector::new();
    let one = 1_000_000;
    let pair = |a: (usize, bool), b: (usize, bool)| {
        detector
            .calculate_profile_agreement(&[weighted(a.0, a.1, one, 1), weighted(b.0, b.1, one, 1)])
    };
    assert_eq!(pair((0, true), (0, false)), 700_000);
    assert_eq!(pair((0, true), (9, false)), 600_000);
    assert_eq!(pair((9, false), (0, true)), 600_000);
    assert_eq!(pair((0, true), (7, true)), 400_000);
    assert_eq!(pair((7, false), (0, true)), 400_000);
    // A minor third apart in the same mode is no relation.
    assert_eq!(pair((0, true), (3, true)), 300_000);
    assert_eq!(pair((0, true), (1, true)), 300_000);
}

#[test]
fn agreement_has_a_floor_and_a_neutral_value() {
    let detector = KeyDetector::new();
    assert_eq!(detector.calculate_profile_agreement(&[]), 1_000_000);
    assert_eq!(detector.calculate_profile_agreement(&[weighted(1, true, 5, 5)]), 1_000_000);
    let weak = [weighted(0, true, 10_000, 1), weighted(0, true, 40_000, 1)];
    assert_eq!(detector.calculate_profile_agreement(&weak), 300_000);
}

#[test]
fn agreement_weights_pairs_by_the_geometric_mean() {
    let detector = KeyDetector::new();
    let votes = [
        weighted(0, true, 810_000, 1),
        weighted(0, true, 1_000_000, 1),
        weighted(0, false, 640_000, 1),
    ];
    // (1.0 * 0.9 + 0.7 * 0.72 + 0.7 * 0.8) / 3
    assert_eq!(detector.calculate_profile_agreement(&votes), 654_666);
}

use bio::stats::{LogProb, Prob};
use realignment::{
    align, first_occ_vector, forward_algorithm_non_numerically_stable,
    forward_algorithm_numerically_stable, last_occ_vector, viterbi_max_scoring_alignment,
    AlignmentParameters, AlignmentType, EmissionProbs, HomopolymerProbs, TransitionProbs,
};

fn test_params() -> AlignmentParameters {
    AlignmentParameters {
        transition_probs: TransitionProbs {
            match_from_match: Prob(0.9),
            insertion_from_match: Prob(0.05),
            deletion_from_match: Prob(0.05),
            insertion_from_insertion: Prob(0.25),
            match_from_insertion: Prob(0.75),
            deletion_from_deletion: Prob(0.25),
            match_from_deletion: Prob(0.75),
        },
        emission_probs: EmissionProbs {
            equal: Prob(0.98),
            not_equal: Prob(0.02),
            insertion: Prob(0.25),
            deletion: Prob(1.0),
        },
        homopolymer_probs: HomopolymerProbs::new(),
    }
}

#[test]
fn test_first_occ_vector1() {
    let seq = vec!['A', 'T', 'C', 'C', 'C', 'C', 'T'];
    let exp_occ = vec![0, 1, 2, 2, 2, 2, 6];

    assert_eq!(first_occ_vector(&seq), exp_occ);
}

#[test]
fn test_first_occ_vector2() {
    let seq = vec!['A', 'A', 'A', 'C', 'C', 'C'];
    let exp_occ = vec![0, 0, 0, 3, 3, 3];

    assert_eq!(first_occ_vector(&seq), exp_occ);
}

#[test]
fn test_last_occ_vector1() {
    let seq = vec!['A', 'T', 'C', 'C', 'C', 'C', 'T'];
    let exp_occ = vec![0, 1, 5, 5, 5, 5, 6];

    assert_eq!(last_occ_vector(&seq), exp_occ);
}

#[test]
fn test_last_occ_vector2() {
    let seq = vec!['A', 'A', 'A', 'C', 'C', 'C'];
    let exp_occ = vec![2, 2, 2, 5, 5, 5];

    assert_eq!(last_occ_vector(&seq), exp_occ);
}

#[test]
fn first_occ_empty_sequence() {
    let seq: Vec<char> = vec![];
    assert_eq!(first_occ_vector(&seq), Vec::<usize>::new());
    assert_eq!(last_occ_vector(&seq), Vec::<usize>::new());
}

// With a band covering the whole matrix and no homopolymer runs, the
// non-stable and the stable forward results agree within floating
// tolerance.
#[test]
fn full_band_non_stable_agrees_with_stable() {
    let v = vec!['A', 'C', 'G', 'T', 'A'];
    let w = vec!['A', 'C', 'G', 'T', 'A'];
    let params = test_params();
    let ln_params = params.ln();
    let ns = forward_algorithm_non_numerically_stable(&v, &w, &params, 10);
    let st = forward_algorithm_numerically_stable(&v, &w, &ln_params, 10);
    assert!((*ns - *st).abs() < 1e-3, "non-stable {} vs stable {}", *ns, *st);
}

#[test]
fn full_band_agreement_with_mismatches() {
    let v = vec!['A', 'C', 'G', 'T', 'A', 'C'];
    let w = vec!['A', 'G', 'T', 'C', 'A'];
    let params = test_params();
    let ln_params = params.ln();
    let ns = forward_algorithm_non_numerically_stable(&v, &w, &params, 12);
    let st = forward_algorithm_numerically_stable(&v, &w, &ln_params, 12);
    assert!((*ns - *st).abs() < 1e-3, "non-stable {} vs stable {}", *ns, *st);
}

// The single best path cannot outscore the sum over all paths.
#[test]
fn viterbi_never_exceeds_stable_forward() {
    let cases: Vec<(Vec<char>, Vec<char>)> = vec![
        (vec!['A', 'C', 'G', 'T'], vec!['A', 'C', 'G', 'T']),
        (vec!['A', 'C', 'G', 'T', 'A', 'C'], vec!['A', 'G', 'G', 'T', 'C']),
        (vec!['A', 'A', 'A', 'C'], vec!['A', 'A', 'C']),
        (vec!['T', 'G'], vec!['T', 'G', 'G', 'G', 'A']),
        (vec!['C'], vec![]),
    ];
    let params = test_params();
    let ln_params = params.ln();
    for (v, w) in cases {
        let st = forward_algorithm_numerically_stable(&v, &w, &ln_params, 10);
        let vit = viterbi_max_scoring_alignment(&v, &w, &ln_params, 10);
        assert!(*vit <= *st + 1e-9, "viterbi {} vs stable {}", *vit, *st);
    }
}

// Identical run-free sequences: the best path is the all-match diagonal,
// one equal emission and one continue-match transition per position (the
// step out of the origin cell is itself a continue-match transition).
#[test]
fn viterbi_identical_sequences_diagonal_score() {
    let v = vec!['A', 'C', 'G', 'T'];
    let w = vec!['A', 'C', 'G', 'T'];
    let params = test_params();
    let ln_params = params.ln();
    let vit = viterbi_max_scoring_alignment(&v, &w, &ln_params, 8);
    let expected = 4.0 * 0.98f64.ln() + 4.0 * 0.9f64.ln();
    assert!((*vit - expected).abs() < 1e-6, "viterbi {} vs expected {}", *vit, expected);
}

// Increasing the band width never decreases the stable forward result.
#[test]
fn stable_forward_monotone_in_band_width() {
    let v = vec!['A', 'C', 'G', 'T', 'A', 'C', 'G', 'T'];
    let w = vec!['A', 'C', 'T', 'A', 'C', 'G', 'G', 'T'];
    let params = test_params();
    let ln_params = params.ln();
    let mut prev = f64::NEG_INFINITY;
    for bw in [0usize, 1, 2, 4, 8, 16] {
        let st = forward_algorithm_numerically_stable(&v, &w, &ln_params, bw);
        assert!(*st >= prev - 1e-6, "band width {}: {} < {}", bw, *st, prev);
        prev = *st;
    }
}

// A homopolymer run with no table entry contributes probability zero to
// the shortcut path of the non-stable engine...
#[test]
fn missing_homopolymer_entry_zeroes_shortcut() {
    let v = vec!['A', 'A', 'A'];
    let w = vec!['A', 'A', 'A'];
    let params = test_params();
    let ns = forward_algorithm_non_numerically_stable(&v, &w, &params, 8);
    assert_eq!(ns, LogProb::ln_zero());
}

// ... while the log-domain engines, which have no shortcut, still compute a
// finite score by stepping through the run one base at a time.
#[test]
fn log_engines_score_homopolymer_run_without_table() {
    let v = vec!['A', 'A', 'A'];
    let w = vec!['A', 'A', 'A'];
    let params = test_params();
    let ln_params = params.ln();
    let st = forward_algorithm_numerically_stable(&v, &w, &ln_params, 8);
    let vit = viterbi_max_scoring_alignment(&v, &w, &ln_params, 8);
    assert!(*st > f64::NEG_INFINITY);
    assert!(*vit > f64::NEG_INFINITY);
    let expected_vit = 3.0 * 0.98f64.ln() + 3.0 * 0.9f64.ln();
    assert!((*vit - expected_vit).abs() < 1e-6);
}

// With the run's observation present in the table, the shortcut scores the
// whole run as one transition out of the run's starting cell.
#[test]
fn homopolymer_entry_feeds_shortcut() {
    let v = vec!['A', 'A', 'A'];
    let w = vec!['A', 'A', 'A'];
    let mut params = test_params();
    for len_ref in 1..=3usize {
        for len_read in 1..=3usize {
            params.homopolymer_probs.insert('A', len_ref, len_read, Prob(0.2));
        }
    }
    let ns = forward_algorithm_non_numerically_stable(&v, &w, &params, 8);
    assert!(*ns > f64::NEG_INFINITY);
    assert!(*ns < 0.0);
}

#[test]
fn homopolymer_table_lookup_round_trip() {
    let mut table = HomopolymerProbs::new();
    assert!(table.get('A', 3, 3).is_none());
    table.insert('A', 3, 3, Prob(0.25));
    table.insert('A', 3, 2, Prob(0.5));
    assert_eq!(table.get('A', 3, 3).map(|p| *p), Some(0.25));
    assert_eq!(table.get('A', 3, 2).map(|p| *p), Some(0.5));
    assert!(table.get('A', 2, 3).is_none());
    assert!(table.get('C', 3, 3).is_none());
    // replacement under the same key
    table.insert('A', 3, 3, Prob(0.75));
    assert_eq!(table.get('A', 3, 3).map(|p| *p), Some(0.75));
    // the log-domain mirror keeps exactly the keys
    let ln_table = table.ln();
    assert_eq!(ln_table.get('A', 3, 3).map(|p| *p), Some(0.75f64.ln()));
    assert_eq!(ln_table.get('A', 3, 2).map(|p| *p), Some(0.5f64.ln()));
    assert!(ln_table.get('A', 2, 3).is_none());
}

#[test]
fn ln_conversion_takes_natural_logs() {
    let params = test_params();
    let ln_params = params.ln();
    assert_eq!(*ln_params.transition_probs.match_from_match, 0.9f64.ln());
    assert_eq!(*ln_params.transition_probs.insertion_from_insertion, 0.25f64.ln());
    assert_eq!(*ln_params.emission_probs.equal, 0.98f64.ln());
    assert_eq!(*ln_params.emission_probs.deletion, 1.0f64.ln());
}

#[test]
fn align_rejects_empty_reference() {
    let v: Vec<char> = vec![];
    let w = vec!['A', 'C'];
    let params = test_params();
    assert!(align(&v, &w, AlignmentType::ForwardAlgorithmNumericallyStable, &params, 4).is_none());
}

#[test]
fn align_dispatches_to_each_engine() {
    let v = vec!['A', 'C', 'G', 'T'];
    let w = vec!['A', 'C', 'G', 'T'];
    let params = test_params();
    let ln_params = params.ln();
    let ns = align(&v, &w, AlignmentType::ForwardAlgorithmNonNumericallyStable, &params, 8)
        .unwrap();
    let st = align(&v, &w, AlignmentType::ForwardAlgorithmNumericallyStable, &params, 8).unwrap();
    let vit = align(&v, &w, AlignmentType::ViterbiMaxScoringAlignment, &params, 8).unwrap();
    assert_eq!(ns, forward_algorithm_non_numerically_stable(&v, &w, &params, 8));
    assert_eq!(st, forward_algorithm_numerically_stable(&v, &w, &ln_params, 8));
    assert_eq!(vit, viterbi_max_scoring_alignment(&v, &w, &ln_params, 8));
}

// Zero-length read: legal, exercised through the pure-insertion column.
#[test]
fn empty_read_is_legal() {
    let v = vec!['A', 'C'];
    let w: Vec<char> = vec![];
    let params = test_params();
    let ln_params = params.ln();
    let ns = forward_algorithm_non_numerically_stable(&v, &w, &params, 4);
    let st = forward_algorithm_numerically_stable(&v, &w, &ln_params, 4);
    let vit = viterbi_max_scoring_alignment(&v, &w, &ln_params, 4);
    assert!(!ns.is_nan());
    assert!(!st.is_nan());
    assert!(!vit.is_nan());
}

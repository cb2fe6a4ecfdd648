//! Engine selection: one call dispatches to the chosen engine and returns
//! its log-probability, rejecting the degenerate empty reference for which
//! no banded alignment is defined.

use vstd::prelude::*;
use bio::stats::LogProb;
use crate::forward::forward_algorithm_non_numerically_stable;
use crate::forward::forward_spec;
use crate::params::ln_emission_spec;
use crate::params::ln_transition_spec;
use crate::params::AlignmentParameters;
use crate::params::AlignmentType;
use crate::probs::ln_of;
use crate::stable::forward_algorithm_numerically_stable;
use crate::stable::stable_forward_spec;
use crate::viterbi::viterbi_max_scoring_alignment;
use crate::viterbi::viterbi_spec;

verus! {

/// Runs the selected engine on `v` (reference-like) and `w` (read-like)
/// with the given linear-domain parameter bundle, converting the bundle to
/// the log domain for the two log-domain engines.  Returns `None` exactly
/// when `v` is empty — the one invalid input, rejected before any banding —
/// and otherwise the selected engine's result on these inputs.
pub fn align(
    v: &Vec<char>,
    w: &Vec<char>,
    alignment_type: AlignmentType,
    params: &AlignmentParameters,
    min_band_width: usize,
) -> (r: Option<LogProb>)
    requires
        v@.len() * w@.len() <= usize::MAX,
        v@.len() + w@.len() <= usize::MAX / 4,
        min_band_width <= usize::MAX / 4,
        params.homopolymer_probs.wf(),
    ensures
        r is Some <==> v@.len() >= 1,
        v@.len() >= 1 && alignment_type == AlignmentType::ForwardAlgorithmNonNumericallyStable
            ==> r == Some(
            ln_of(
                forward_spec(
                    v@,
                    w@,
                    params.transition_probs,
                    params.emission_probs,
                    params.homopolymer_probs,
                    min_band_width as int,
                ),
            ),
        ),
        v@.len() >= 1 && alignment_type == AlignmentType::ForwardAlgorithmNumericallyStable ==> r
            == Some(
            stable_forward_spec(
                v@,
                w@,
                ln_transition_spec(params.transition_probs),
                ln_emission_spec(params.emission_probs),
                min_band_width as int,
            ),
        ),
        v@.len() >= 1 && alignment_type == AlignmentType::ViterbiMaxScoringAlignment ==> r == Some(
            viterbi_spec(
                v@,
                w@,
                ln_transition_spec(params.transition_probs),
                ln_emission_spec(params.emission_probs),
                min_band_width as int,
            ),
        ),
{
    if v.len() == 0 {
        return None;
    }
    match alignment_type {
        AlignmentType::ForwardAlgorithmNonNumericallyStable => Some(
            forward_algorithm_non_numerically_stable(v, w, params, min_band_width),
        ),
        AlignmentType::ForwardAlgorithmNumericallyStable => {
            let ln_params = params.ln();
            Some(forward_algorithm_numerically_stable(v, w, &ln_params, min_band_width))
        },
        AlignmentType::ViterbiMaxScoringAlignment => {
            let ln_params = params.ln();
            Some(viterbi_max_scoring_alignment(v, w, &ln_params, min_band_width))
        },
    }
}

} // verus!

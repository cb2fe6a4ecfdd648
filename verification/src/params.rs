//! The probability-parameter model: transition and emission tables in the
//! linear domain, their log-domain mirrors, and the one-way conversion.
//!
//! Log-domain forms are derived, never independently set: every field of a
//! log-domain bundle is produced by taking the natural logarithm of the
//! matching linear-domain field (log of zero is negative infinity, standing
//! for an impossible transition).

use vstd::prelude::*;
use bio::stats::LogProb;
use bio::stats::Prob;
use crate::probs::ln_of;
use crate::probs::ln_of_prob;
use crate::table::ln_opt;
use crate::table::HomopolymerProbs;
use crate::table::LnHomopolymerProbs;

verus! {

/// Selector for the three alignment engines.
#[derive(Clone, Copy, PartialEq, Eq)]
pub enum AlignmentType {
    ForwardAlgorithmNonNumericallyStable,
    ForwardAlgorithmNumericallyStable,
    ViterbiMaxScoringAlignment,
}

/// State-transition probabilities of the pair HMM, linear domain.
#[derive(Clone, Copy)]
pub struct TransitionProbs {
    pub match_from_match: Prob,
    pub insertion_from_match: Prob,
    pub deletion_from_match: Prob,
    pub insertion_from_insertion: Prob,
    pub match_from_insertion: Prob,
    pub deletion_from_deletion: Prob,
    pub match_from_deletion: Prob,
}

/// State-transition probabilities of the pair HMM, log domain.
#[derive(Clone, Copy)]
pub struct LnTransitionProbs {
    pub match_from_match: LogProb,
    pub insertion_from_match: LogProb,
    pub deletion_from_match: LogProb,
    pub insertion_from_insertion: LogProb,
    pub match_from_insertion: LogProb,
    pub deletion_from_deletion: LogProb,
    pub match_from_deletion: LogProb,
}

/// The log-domain mirror of a transition bundle: every field is the
/// natural logarithm of the same-named linear-domain field.
pub open spec fn ln_transition_spec(s: TransitionProbs) -> LnTransitionProbs {
    LnTransitionProbs {
        match_from_match: ln_of(s.match_from_match),
        insertion_from_match: ln_of(s.insertion_from_match),
        deletion_from_match: ln_of(s.deletion_from_match),
        insertion_from_insertion: ln_of(s.insertion_from_insertion),
        match_from_insertion: ln_of(s.match_from_insertion),
        deletion_from_deletion: ln_of(s.deletion_from_deletion),
        match_from_deletion: ln_of(s.match_from_deletion),
    }
}

impl TransitionProbs {
    /// The log-domain mirror: every field is the natural logarithm of the
    /// matching linear-domain field.
    pub fn ln(&self) -> (r: LnTransitionProbs)
        ensures
            r == ln_transition_spec(*self),
    {
        LnTransitionProbs {
            match_from_match: ln_of_prob(self.match_from_match),
            insertion_from_match: ln_of_prob(self.insertion_from_match),
            deletion_from_match: ln_of_prob(self.deletion_from_match),
            insertion_from_insertion: ln_of_prob(self.insertion_from_insertion),
            match_from_insertion: ln_of_prob(self.match_from_insertion),
            deletion_from_deletion: ln_of_prob(self.deletion_from_deletion),
            match_from_deletion: ln_of_prob(self.match_from_deletion),
        }
    }
}

/// Emission probabilities of the pair HMM, linear domain.
#[derive(Clone, Copy)]
pub struct EmissionProbs {
    pub equal: Prob,
    pub not_equal: Prob,
    pub insertion: Prob,
    pub deletion: Prob,
}

/// Emission probabilities of the pair HMM, log domain.
#[derive(Clone, Copy)]
pub struct LnEmissionProbs {
    pub equal: LogProb,
    pub not_equal: LogProb,
    pub insertion: LogProb,
    pub deletion: LogProb,
}

/// The log-domain mirror of an emission bundle: every field is the
/// natural logarithm of the same-named linear-domain field.
pub open spec fn ln_emission_spec(s: EmissionProbs) -> LnEmissionProbs {
    LnEmissionProbs {
        equal: ln_of(s.equal),
        not_equal: ln_of(s.not_equal),
        insertion: ln_of(s.insertion),
        deletion: ln_of(s.deletion),
    }
}

impl EmissionProbs {
    /// The log-domain mirror: every field is the natural logarithm of the
    /// matching linear-domain field.
    pub fn ln(&self) -> (r: LnEmissionProbs)
        ensures
            r == ln_emission_spec(*self),
    {
        LnEmissionProbs {
            equal: ln_of_prob(self.equal),
            not_equal: ln_of_prob(self.not_equal),
            insertion: ln_of_prob(self.insertion),
            deletion: ln_of_prob(self.deletion),
        }
    }
}

/// The transition, emission and homopolymer tables bundled together,
/// linear domain.
pub struct AlignmentParameters {
    pub transition_probs: TransitionProbs,
    pub emission_probs: EmissionProbs,
    pub homopolymer_probs: HomopolymerProbs,
}

/// The transition, emission and homopolymer tables bundled together,
/// log domain.
pub struct LnAlignmentParameters {
    pub transition_probs: LnTransitionProbs,
    pub emission_probs: LnEmissionProbs,
    pub homopolymer_probs: LnHomopolymerProbs,
}

impl AlignmentParameters {
    /// The log-domain mirror of the whole bundle: transition and emission
    /// fields are each the natural logarithm of the matching linear field,
    /// and the homopolymer table keeps exactly the keys of the linear
    /// table, each value replaced by its natural logarithm.
    pub fn ln(&self) -> (r: LnAlignmentParameters)
        requires
            self.homopolymer_probs.wf(),
        ensures
            r.transition_probs == ln_transition_spec(self.transition_probs),
            r.emission_probs == ln_emission_spec(self.emission_probs),
            r.homopolymer_probs.wf(),
            forall|key: (char, usize, usize)|
                r.homopolymer_probs.spec_get(key) == ln_opt(self.homopolymer_probs.spec_get(key)),
            forall|key: (char, usize, usize)|
                r.homopolymer_probs.spec_contains(key) == self.homopolymer_probs.spec_contains(
                    key,
                ),
    {
        LnAlignmentParameters {
            transition_probs: self.transition_probs.ln(),
            emission_probs: self.emission_probs.ln(),
            homopolymer_probs: self.homopolymer_probs.ln(),
        }
    }
}

} // verus!

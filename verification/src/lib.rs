//! Banded pair-HMM alignment likelihoods between a reference-like sequence
//! and a read-like sequence, with a run-length model for homopolymer errors.
//!
//! Three engines share one banded dynamic-programming topology over the
//! hidden states insertion / match-or-mismatch / deletion:
//! a linear-domain forward algorithm with a homopolymer-run shortcut,
//! a log-domain numerically stable forward algorithm, and a log-domain
//! Viterbi best-path scorer.  Probability arithmetic is carried by
//! `bio::stats::{Prob, LogProb}` behind a small trusted surface whose
//! results are named by uninterpreted spec functions; each engine's
//! contract pins its result as the fold of its banded recurrence over
//! those names, so banding, buffer management, run-index bookkeeping and
//! the exact sequence of probability operations are all verified.

pub mod align;
pub mod band;
mod buffers;
pub mod forward;
pub mod params;
pub mod probs;
pub mod runs;
pub mod stable;
pub mod table;
pub mod viterbi;

pub use align::align;
pub use forward::forward_algorithm_non_numerically_stable;
pub use stable::forward_algorithm_numerically_stable;
pub use viterbi::viterbi_max_scoring_alignment;

pub use params::AlignmentParameters;
pub use params::AlignmentType;
pub use params::EmissionProbs;
pub use params::LnAlignmentParameters;
pub use params::LnEmissionProbs;
pub use params::LnTransitionProbs;
pub use params::TransitionProbs;
pub use runs::first_occ_vector;
pub use runs::last_occ_vector;
pub use table::HomopolymerProbs;
pub use table::LnHomopolymerProbs;

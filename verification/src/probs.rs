//! Trusted surface over `bio::stats::{Prob, LogProb}`.
//!
//! Probabilities and log-probabilities are carried through the engines as
//! opaque values of these two outside types; every arithmetic step on them
//! goes through one of the wrappers below.  Each wrapper's result is named
//! by an uninterpreted spec function of its arguments alone — the names
//! say nothing about floating point itself, but they let the engines'
//! contracts pin exactly which operations on which cells produce a result.

use vstd::prelude::*;
use bio::stats::LogProb;
use bio::stats::Prob;

verus! {

#[verifier::external_type_specification]
#[verifier::external_body]
pub struct ExLogProb(LogProb);

#[verifier::external_type_specification]
#[verifier::external_body]
pub struct ExProb(Prob);

/// The log-domain zero constant.
pub uninterp spec fn lp_zero_of(u: ()) -> LogProb;

/// The log-domain one constant.
pub uninterp spec fn lp_one_of(u: ()) -> LogProb;

/// The log-domain product (sum of logarithms).
pub uninterp spec fn lp_mul_of(a: LogProb, b: LogProb) -> LogProb;

/// The stable log-domain sum of two probabilities.
pub uninterp spec fn lp_add_exp_of(a: LogProb, b: LogProb) -> LogProb;

/// The stable log-domain sum of three probabilities.
pub uninterp spec fn lp_sum_exp3_of(a: LogProb, b: LogProb, c: LogProb) -> LogProb;

/// The strict log-domain order.
pub uninterp spec fn lp_gt_of(a: LogProb, b: LogProb) -> bool;

/// The natural logarithm of a linear-domain probability.
pub uninterp spec fn ln_of(p: Prob) -> LogProb;

/// The linear-domain zero constant.
pub uninterp spec fn prob_zero_of(u: ()) -> Prob;

/// The linear-domain one constant.
pub uninterp spec fn prob_one_of(u: ()) -> Prob;

/// The linear-domain product.
pub uninterp spec fn prob_mul_of(a: Prob, b: Prob) -> Prob;

/// The linear-domain sum.
pub uninterp spec fn prob_add_of(a: Prob, b: Prob) -> Prob;

/// Relies on `bio::stats::LogProb::ln_zero`: the log-domain representation
/// of probability zero (negative infinity), the same in every call.
#[verifier::external_body]
pub(crate) fn lp_ln_zero() -> (r: LogProb)
    ensures
        r == lp_zero_of(()),
{
    LogProb::ln_zero()
}

/// Relies on `bio::stats::LogProb::ln_one`: the log-domain representation
/// of probability one (zero), the same in every call.
#[verifier::external_body]
pub(crate) fn lp_ln_one() -> (r: LogProb)
    ensures
        r == lp_one_of(()),
{
    LogProb::ln_one()
}

/// Relies on `Add for bio::stats::LogProb`: adds the two log-probabilities,
/// which multiplies the probabilities they stand for; a pure function of
/// its two arguments.
#[verifier::external_body]
pub(crate) fn lp_mul(a: LogProb, b: LogProb) -> (r: LogProb)
    ensures
        r == lp_mul_of(a, b),
{
    a + b
}

/// Relies on `bio::stats::LogProb::ln_add_exp`: the numerically stable
/// log-domain sum of the two probabilities; a pure function of its two
/// arguments.
#[verifier::external_body]
pub(crate) fn lp_ln_add_exp(a: LogProb, b: LogProb) -> (r: LogProb)
    ensures
        r == lp_add_exp_of(a, b),
{
    a.ln_add_exp(b)
}

/// Relies on `bio::stats::LogProb::ln_sum_exp`: the numerically stable
/// log-domain sum of the three probabilities; a pure function of its three
/// arguments.
#[verifier::external_body]
pub(crate) fn lp_ln_sum_exp3(a: LogProb, b: LogProb, c: LogProb) -> (r: LogProb)
    ensures
        r == lp_sum_exp3_of(a, b, c),
{
    LogProb::ln_sum_exp(&[a, b, c])
}

/// Relies on the derived `PartialOrd` of `bio::stats::LogProb`: compares
/// the underlying log-domain values with `>`; a pure function of its two
/// arguments.
#[verifier::external_body]
pub(crate) fn lp_gt(a: LogProb, b: LogProb) -> (r: bool)
    ensures
        r == lp_gt_of(a, b),
{
    a > b
}

/// Relies on `From<bio::stats::Prob> for bio::stats::LogProb`: the natural
/// logarithm of the linear-domain probability; a pure function of its
/// argument.
#[verifier::external_body]
pub(crate) fn ln_of_prob(p: Prob) -> (r: LogProb)
    ensures
        r == ln_of(p),
{
    LogProb::from(p)
}

/// Constructs `bio::stats::Prob` holding the probability zero, the same in
/// every call.
#[verifier::external_body]
pub(crate) fn prob_zero() -> (r: Prob)
    ensures
        r == prob_zero_of(()),
{
    Prob(0u8.into())
}

/// Constructs `bio::stats::Prob` holding the probability one, the same in
/// every call.
#[verifier::external_body]
pub(crate) fn prob_one() -> (r: Prob)
    ensures
        r == prob_one_of(()),
{
    Prob(1u8.into())
}

/// Relies on `Mul for bio::stats::Prob`: the product of the two
/// linear-domain probabilities; a pure function of its two arguments.
#[verifier::external_body]
pub(crate) fn prob_mul(a: Prob, b: Prob) -> (r: Prob)
    ensures
        r == prob_mul_of(a, b),
{
    a * b
}

/// Relies on `Add for bio::stats::Prob`: the sum of the two linear-domain
/// probabilities; a pure function of its two arguments.
#[verifier::external_body]
pub(crate) fn prob_add(a: Prob, b: Prob) -> (r: Prob)
    ensures
        r == prob_add_of(a, b),
{
    a + b
}

} // verus!

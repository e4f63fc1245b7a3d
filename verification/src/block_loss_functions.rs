//! The terminal block: from the summed logit to a probability and to the
//! gradient of the loss.

use vstd::prelude::*;
use crate::arith::{
    answer, difference, exp_of, exponential, functional, minus, over, plus, product, quotient, sum,
    times, total, Arithmetic, Request,
};
use crate::bits::{gt, greater, is_nan, less, lt, nan, negate, opposite, HALF, ONE, ZERO};
use crate::feature_buffer::FeatureBuffer;

verus! {

/// `50.0`: logits beyond it are clipped.
pub const LOGIT_CEILING: u32 = 0x4248_0000;

/// `-50.0`
pub const LOGIT_FLOOR: u32 = 0xc248_0000;

/// `1 / (1 + e^(-t))`
pub open spec fn logistic_of(f: Arithmetic, t: u32) -> u32 {
    quotient(f, ONE, sum(f, ONE, exponential(f, opposite(t))))
}

/// The logit as the link sees it: `None` for NaN, else clipped to
/// `[-50, 50]`.
pub open spec fn clipped(wsum: u32) -> Option<u32> {
    if nan(wsum) {
        None
    } else if lt(wsum, LOGIT_FLOOR) {
        Some(LOGIT_FLOOR)
    } else if gt(wsum, LOGIT_CEILING) {
        Some(LOGIT_CEILING)
    } else {
        Some(wsum)
    }
}

/// The probability for a logit: one half for NaN, else the link of the
/// clipped logit.
pub open spec fn probability_of(f: Arithmetic, wsum: u32) -> u32 {
    match clipped(wsum) {
        None => HALF,
        Some(t) => logistic_of(f, t),
    }
}

/// The loss gradient for a logit: zero where the logit was NaN or clipped,
/// else `(label - probability) * importance`.
pub open spec fn gradient_of(f: Arithmetic, wsum: u32, label: u32, importance: u32) -> u32 {
    if clipped(wsum) == Some(wsum) {
        product(f, difference(f, label, logistic_of(f, wsum)), importance)
    } else {
        ZERO
    }
}

/// `1 / (1 + e^(-t))`
pub fn logistic<F: Fn(Request) -> u32>(t: u32, unit: &F) -> (p: u32)
    requires
        total(unit),
    ensures
        functional(unit) ==> p == logistic_of(answer(unit), t),
{
    over(unit, ONE, plus(unit, ONE, exp_of(unit, negate(t))))
}

/// The logistic link with its loss.
#[derive(Clone, Copy, Debug)]
pub struct BlockSigmoid {}

impl BlockSigmoid {
    pub fn new_without_weights() -> (r: BlockSigmoid) {
        BlockSigmoid {  }
    }

    /// The probability for the summed logit.  The exponential is only ever
    /// asked of a number in `[-50, 50]`.
    pub fn forward<F: Fn(Request) -> u32>(
        &self,
        wsum: u32,
        fb: &FeatureBuffer,
        unit: &F,
    ) -> (p: u32)
        requires
            total(unit),
        ensures
            nan(wsum) ==> p == HALF,
            functional(unit) ==> p == probability_of(answer(unit), wsum),
    {
        if is_nan(wsum) {
            HALF
        } else if less(wsum, LOGIT_FLOOR) {
            logistic(LOGIT_FLOOR, unit)
        } else if greater(wsum, LOGIT_CEILING) {
            logistic(LOGIT_CEILING, unit)
        } else {
            logistic(wsum, unit)
        }
    }

    /// The probability and the loss gradient for the summed logit.  A logit
    /// that is NaN or was clipped gives the gradient zero.
    pub fn forward_backward<F: Fn(Request) -> u32>(
        &self,
        wsum: u32,
        fb: &FeatureBuffer,
        unit: &F,
    ) -> (r: (u32, u32))
        requires
            total(unit),
        ensures
            nan(wsum) ==> r.0 == HALF,
            clipped(wsum) != Some(wsum) ==> r.1 == ZERO,
            functional(unit) ==> r.0 == probability_of(answer(unit), wsum),
            functional(unit) ==> r.1 == gradient_of(
                answer(unit),
                wsum,
                fb.label,
                fb.example_importance,
            ),
    {
        if is_nan(wsum) {
            (HALF, ZERO)
        } else if less(wsum, LOGIT_FLOOR) {
            (logistic(LOGIT_FLOOR, unit), ZERO)
        } else if greater(wsum, LOGIT_CEILING) {
            (logistic(LOGIT_CEILING, unit), ZERO)
        } else {
            let p = logistic(wsum, unit);
            let g = times(unit, minus(unit, fb.label, p), fb.example_importance);
            (p, g)
        }
    }
}

} // verus!

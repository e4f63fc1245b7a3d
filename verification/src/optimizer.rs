//! Per-weight update rules.
//!
//! An optimizer owns no weights.  Given a gradient and the accumulator stored
//! beside a weight it updates the accumulator and returns the step scale: the
//! caller then moves the weight by `gradient * scale`.

use vstd::prelude::*;
use crate::arith::{
    answer, functional, over, plus, power, product, quotient, raised, sum, times, total, Arithmetic,
    Request,
};
use crate::bits::{abs_bits, finite, is_finite, magnitude, negate, opposite, TWO, ZERO};

verus! {

/// Number of leading exponent and fraction bits that index the table of
/// [`OptimizerAdagradLUT`].
pub const FASTMATH_LR_LUT_BITS: u32 = 11;

/// Number of entries of that table.
pub const FASTMATH_LR_LUT_SIZE: usize = 2048;

/// Width of one table bucket in bit patterns: `2^(31 - FASTMATH_LR_LUT_BITS)`.
pub const FASTMATH_LR_LUT_STEP: u32 = 0x10_0000;

/// The accumulator after one more gradient: `data + gradient * gradient`.
pub open spec fn accumulated(f: Arithmetic, gradient: u32, data: u32) -> u32 {
    sum(f, data, product(f, gradient, gradient))
}

/// The table bucket of an accumulator: its leading bits below the sign.
pub open spec fn lut_key(data: u32) -> int {
    magnitude(data) as int / (FASTMATH_LR_LUT_STEP as int)
}

/// The smallest pattern of bucket `x`.
pub open spec fn lut_edge(x: int) -> u32 {
    (x * FASTMATH_LR_LUT_STEP) as u32
}

/// The table entry of bucket `x`: the learning rate averaged over the two
/// edges of the bucket, each shifted by the initial accumulator; the plain
/// learning rate where that average is not finite.
pub open spec fn lut_entry(
    f: Arithmetic,
    learning_rate: u32,
    minus_power_t: u32,
    initial_acc_gradient: u32,
    x: int,
) -> u32 {
    let low = sum(f, lut_edge(x), initial_acc_gradient);
    let high = sum(f, lut_edge(x + 1), initial_acc_gradient);
    let both = sum(f, power(f, low, minus_power_t), power(f, high, minus_power_t));
    let val = quotient(f, product(f, learning_rate, both), TWO);
    if finite(val) {
        val
    } else {
        learning_rate
    }
}

pub trait OptimizerTrait: Sized {
    /// The optimizer is ready for use.
    spec fn wf(&self) -> bool;

    /// The accumulator of a weight that has seen no gradient.
    spec fn start(&self) -> u32;

    /// The accumulator after `gradient`.
    spec fn next_data(&self, f: Arithmetic, gradient: u32, data: u32) -> u32;

    /// The step scale for `gradient` at accumulator `data`.
    spec fn step_scale(&self, f: Arithmetic, gradient: u32, data: u32) -> u32;

    /// The optimizer is set to these hyperparameters.
    spec fn configured(
        &self,
        f: Arithmetic,
        learning_rate: u32,
        power_t: u32,
        initial_acc_gradient: u32,
    ) -> bool;

    fn new() -> (r: Self)
        ensures
            r.wf(),
    ;

    /// Tells whether the optimizer is ready for use.
    fn is_wf(&self) -> (r: bool)
        ensures
            r == self.wf(),
    ;

    /// Sets the hyperparameters.
    fn init<F: Fn(Request) -> u32>(
        &mut self,
        learning_rate: u32,
        power_t: u32,
        initial_acc_gradient: u32,
        unit: &F,
    )
        requires
            old(self).wf(),
            total(unit),
        ensures
            final(self).wf(),
            functional(unit) ==> final(self).configured(
                answer(unit),
                learning_rate,
                power_t,
                initial_acc_gradient,
            ),
    ;

    fn initial_data(&self) -> (r: u32)
        requires
            self.wf(),
        ensures
            r == self.start(),
    ;

    /// Accumulates `gradient` into `data` and returns the step scale.
    fn calculate_update<F: Fn(Request) -> u32>(
        &self,
        gradient: u32,
        data: &mut u32,
        unit: &F,
    ) -> (r: u32)
        requires
            self.wf(),
            total(unit),
        ensures
            functional(unit) ==> r == self.step_scale(answer(unit), gradient, *old(data)),
            functional(unit) ==> *final(data) == self.next_data(answer(unit), gradient, *old(data)),
    ;
}

/// Adaptive gradient, computed exactly:
/// `learning_rate * (accumulator + gradient²) ^ (-power_t)`.
pub struct OptimizerAdagradFlex {
    pub learning_rate: u32,
    pub minus_power_t: u32,
    pub initial_acc_gradient: u32,
}

impl OptimizerTrait for OptimizerAdagradFlex {
    open spec fn wf(&self) -> bool {
        true
    }

    open spec fn start(&self) -> u32 {
        self.initial_acc_gradient
    }

    open spec fn next_data(&self, f: Arithmetic, gradient: u32, data: u32) -> u32 {
        accumulated(f, gradient, data)
    }

    open spec fn step_scale(&self, f: Arithmetic, gradient: u32, data: u32) -> u32 {
        product(f, self.learning_rate, power(f, accumulated(f, gradient, data), self.minus_power_t))
    }

    open spec fn configured(
        &self,
        f: Arithmetic,
        learning_rate: u32,
        power_t: u32,
        initial_acc_gradient: u32,
    ) -> bool {
        &&& self.learning_rate == learning_rate
        &&& self.minus_power_t == opposite(power_t)
        &&& self.initial_acc_gradient == initial_acc_gradient
    }

    fn new() -> (r: Self)
        ensures
            r.learning_rate == ZERO,
            r.minus_power_t == ZERO,
            r.initial_acc_gradient == ZERO,
    {
        OptimizerAdagradFlex {
            learning_rate: ZERO,
            minus_power_t: ZERO,
            initial_acc_gradient: ZERO,
        }
    }

    fn is_wf(&self) -> (r: bool) {
        true
    }

    fn init<F: Fn(Request) -> u32>(
        &mut self,
        learning_rate: u32,
        power_t: u32,
        initial_acc_gradient: u32,
        unit: &F,
    )
        ensures
            final(self).learning_rate == learning_rate,
            final(self).minus_power_t == opposite(power_t),
            final(self).initial_acc_gradient == initial_acc_gradient,
    {
        self.learning_rate = learning_rate;
        self.minus_power_t = negate(power_t);
        self.initial_acc_gradient = initial_acc_gradient;
    }

    fn initial_data(&self) -> (r: u32) {
        self.initial_acc_gradient
    }

    fn calculate_update<F: Fn(Request) -> u32>(
        &self,
        gradient: u32,
        data: &mut u32,
        unit: &F,
    ) -> (r: u32) {
        let gradient_squared = times(unit, gradient, gradient);
        let new_accumulated = plus(unit, *data, gradient_squared);
        *data = new_accumulated;
        times(unit, self.learning_rate, raised(unit, new_accumulated, self.minus_power_t))
    }
}

/// Adaptive gradient with the power function replaced by a table indexed by
/// the leading bits of the accumulator.
pub struct OptimizerAdagradLUT {
    pub fastmath_lr_lut: Vec<u32>,
}

impl OptimizerTrait for OptimizerAdagradLUT {
    open spec fn wf(&self) -> bool {
        self.fastmath_lr_lut@.len() == FASTMATH_LR_LUT_SIZE
    }

    open spec fn start(&self) -> u32 {
        ZERO
    }

    open spec fn next_data(&self, f: Arithmetic, gradient: u32, data: u32) -> u32 {
        accumulated(f, gradient, data)
    }

    open spec fn step_scale(&self, f: Arithmetic, gradient: u32, data: u32) -> u32 {
        self.fastmath_lr_lut@[lut_key(accumulated(f, gradient, data))]
    }

    open spec fn configured(
        &self,
        f: Arithmetic,
        learning_rate: u32,
        power_t: u32,
        initial_acc_gradient: u32,
    ) -> bool {
        forall|x: int|
            0 <= x < FASTMATH_LR_LUT_SIZE ==> #[trigger] self.fastmath_lr_lut@[x] == lut_entry(
                f,
                learning_rate,
                opposite(power_t),
                initial_acc_gradient,
                x,
            )
    }

    fn new() -> (r: Self)
        ensures
            forall|x: int| 0 <= x < FASTMATH_LR_LUT_SIZE ==> r.fastmath_lr_lut@[x] == ZERO,
    {
        OptimizerAdagradLUT { fastmath_lr_lut: vec![ZERO; FASTMATH_LR_LUT_SIZE] }
    }

    fn is_wf(&self) -> (r: bool) {
        self.fastmath_lr_lut.len() == FASTMATH_LR_LUT_SIZE
    }

    fn init<F: Fn(Request) -> u32>(
        &mut self,
        learning_rate: u32,
        power_t: u32,
        initial_acc_gradient: u32,
        unit: &F,
    )
    {
        let minus_power_t = negate(power_t);
        let mut x: usize = 0;
        while x < FASTMATH_LR_LUT_SIZE
            invariant
                x <= FASTMATH_LR_LUT_SIZE,
                self.fastmath_lr_lut@.len() == FASTMATH_LR_LUT_SIZE,
                total(unit),
                minus_power_t == opposite(power_t),
                functional(unit) ==> forall|y: int|
                    0 <= y < x ==> #[trigger] self.fastmath_lr_lut@[y] == lut_entry(
                        answer(unit),
                        learning_rate,
                        minus_power_t,
                        initial_acc_gradient,
                        y,
                    ),
            decreases FASTMATH_LR_LUT_SIZE - x,
        {
            let edge: u32 = (x as u32) * FASTMATH_LR_LUT_STEP;
            let next_edge: u32 = (x as u32 + 1) * FASTMATH_LR_LUT_STEP;
            let low = plus(unit, edge, initial_acc_gradient);
            let high = plus(unit, next_edge, initial_acc_gradient);
            let both = plus(
                unit,
                raised(unit, low, minus_power_t),
                raised(unit, high, minus_power_t),
            );
            let val = over(unit, times(unit, learning_rate, both), TWO);
            let entry = if is_finite(val) {
                val
            } else {
                learning_rate
            };
            self.fastmath_lr_lut[x] = entry;
            x += 1;
        }
    }

    fn initial_data(&self) -> (r: u32) {
        ZERO
    }

    fn calculate_update<F: Fn(Request) -> u32>(
        &self,
        gradient: u32,
        data: &mut u32,
        unit: &F,
    ) -> (r: u32) {
        let gradient_squared = times(unit, gradient, gradient);
        let new_accumulated = plus(unit, *data, gradient_squared);
        *data = new_accumulated;
        let key: u32 = abs_bits(new_accumulated) / FASTMATH_LR_LUT_STEP;
        self.fastmath_lr_lut[key as usize]
    }
}

/// The frozen rule: the accumulator keeps its books, the step scale is zero.
pub struct OptimizerSGD {}

impl OptimizerTrait for OptimizerSGD {
    open spec fn wf(&self) -> bool {
        true
    }

    open spec fn start(&self) -> u32 {
        ZERO
    }

    open spec fn next_data(&self, f: Arithmetic, gradient: u32, data: u32) -> u32 {
        accumulated(f, gradient, data)
    }

    open spec fn step_scale(&self, f: Arithmetic, gradient: u32, data: u32) -> u32 {
        ZERO
    }

    open spec fn configured(
        &self,
        f: Arithmetic,
        learning_rate: u32,
        power_t: u32,
        initial_acc_gradient: u32,
    ) -> bool {
        true
    }

    fn new() -> (r: Self) {
        OptimizerSGD {  }
    }

    fn is_wf(&self) -> (r: bool) {
        true
    }

    fn init<F: Fn(Request) -> u32>(
        &mut self,
        learning_rate: u32,
        power_t: u32,
        initial_acc_gradient: u32,
        unit: &F,
    ) {
    }

    fn initial_data(&self) -> (r: u32) {
        ZERO
    }

    fn calculate_update<F: Fn(Request) -> u32>(
        &self,
        gradient: u32,
        data: &mut u32,
        unit: &F,
    ) -> (r: u32) {
        let gradient_squared = times(unit, gradient, gradient);
        *data = plus(unit, *data, gradient_squared);
        ZERO
    }
}

} // verus!

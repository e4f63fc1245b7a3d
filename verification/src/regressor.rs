//! The standalone regressor: plain weights and field-aware factorisation
//! terms in one store, with the logistic link and one adaptive update rule
//! built in.

use vstd::prelude::*;
use crate::arith::{
    answer, count_of, from_count, functional, over, plus, power, product, quotient, raised, root_of,
    square_root, sum, times, total, Arithmetic, Request,
};
use crate::bits::{abs_bits, negate, opposite, ONE, TWO, ZERO};
use crate::block_affm::{address_space, lemma_address_space_grows, mask_of};
use crate::model_instance::ModelInstance;
use crate::optimizer::{lut_edge, lut_key, FASTMATH_LR_LUT_SIZE, FASTMATH_LR_LUT_STEP};

verus! {

/// Most plain features that one example may hold.
pub const BUF_LEN: usize = 16196;

/// `10.0`
pub const TEN: u32 = 0x4120_0000;

/// Most fields of a model: the square of their number is an index.
pub const MAX_FIELDS: usize = 65535;

/// A weight with its accumulated squared gradient.
#[derive(Clone, Copy, PartialEq, Eq, Structural, Debug)]
pub struct Weight {
    pub weight: u32,
    pub acc_grad: u32,
}

pub struct Regressor {
    pub hash_mask: u32,
    pub learning_rate: u32,
    pub minus_power_t: u32,
    /// The plain weights, then the embeddings, then one slot per ordered
    /// pair of fields and dimension.
    pub weights: Vec<Weight>,
    pub ffm_weights_offset: u32,
    pub ffm_k: u32,
    pub ffm_hashmask: u32,
    pub ffm_one_over_k_root: u32,
    pub ffm_separate_vectors_k: u32,
    pub fastmath: bool,
    pub fastmath_lr_lut: Vec<u32>,
    pub ffm_iw_weights_offset: u32,
}

/// The least power of two that is at least `k`, searched from the power of
/// two `p` upwards.
pub open spec fn span_from(k: int, p: int) -> int
    decreases (if k > p {
        k - p
    } else {
        0
    }),
{
    if p <= 0 || k <= p {
        p
    } else {
        span_from(k, 2 * p)
    }
}

/// The least power of two that is at least `k`: an embedding of width `k` is
/// aligned to it.
pub open spec fn dimension_span(k: u32) -> int {
    span_from(k as int, 1)
}

/// The number of embedding slots of a model.
pub open spec fn embedding_slots(mi: ModelInstance) -> int {
    if mi.ffm_k > 0 {
        address_space(mi.ffm_bit_precision as nat)
    } else {
        0
    }
}

/// The number of weights of a model.
pub open spec fn store_len(mi: ModelInstance) -> int {
    address_space(mi.bit_precision as nat) + embedding_slots(mi) + mi.ffm_k * (mi.ffm_fields@.len()
        * mi.ffm_fields@.len())
}

/// The hyperparameters from which a regressor can be built: the address
/// spaces, the aligned embedding and the whole store fit their 32-bit
/// indices.
pub open spec fn constructible(mi: ModelInstance) -> bool {
    &&& mi.bit_precision <= 31
    &&& mi.ffm_fields@.len() <= MAX_FIELDS
    &&& mi.ffm_k > 0 ==> mi.ffm_bit_precision <= 31 && dimension_span(mi.ffm_k) <= address_space(
        mi.ffm_bit_precision as nat,
    )
    &&& store_len(mi) <= u32::MAX
}

/// The rate of table bucket `x`: the learning rate at the two edges of the
/// bucket, averaged.
pub open spec fn rate_entry(f: Arithmetic, learning_rate: u32, minus_power_t: u32, x: int) -> u32 {
    quotient(
        f,
        product(
            f,
            learning_rate,
            sum(f, power(f, lut_edge(x), minus_power_t), power(f, lut_edge(x + 1), minus_power_t)),
        ),
        TWO,
    )
}

/// The least power of two that is at least `k`.
pub fn span_of(k: u32) -> (p: u32)
    requires
        k <= 0x8000_0000,
    ensures
        p == dimension_span(k),
        p >= 1,
        k <= p,
{
    let mut p: u32 = 1;
    let ghost mut b: nat = 0;
    assert(address_space(31) == 0x8000_0000) by {
        reveal_with_fuel(address_space, 32);
    }
    while k > p
        invariant
            b <= 31,
            p == address_space(b),
            k <= 0x8000_0000,
            address_space(31) == 0x8000_0000,
            span_from(k as int, p as int) == dimension_span(k),
        decreases (if k > p {
            k - p
        } else {
            0
        }),
    {
        proof {
            lemma_address_space_grows(b, 31);
            if b < 31 {
                lemma_address_space_grows(b + 1, 31);
            }
            b = b + 1;
        }
        p = 2 * p;
    }
    proof {
        lemma_address_space_grows(b, 31);
    }
    p
}

impl Regressor {
    /// The store covers the plain address space, and behind the embedding
    /// offset every aligned embedding; the rate table is complete.
    pub open spec fn wf(&self) -> bool {
        &&& self.fastmath_lr_lut@.len() == FASTMATH_LR_LUT_SIZE
        &&& self.hash_mask < self.weights@.len()
        &&& self.weights@.len() <= u32::MAX
        &&& self.ffm_k > 0 ==> self.ffm_weights_offset + self.ffm_hashmask + self.ffm_k
            <= self.weights@.len()
    }

    /// The weight that a new store holds at `index`: zero, with the
    /// accumulator zero for the plain weights and one for the embeddings.
    pub open spec fn initial(mi: ModelInstance, index: int) -> Weight {
        let first = address_space(mi.bit_precision as nat);
        if mi.ffm_k > 0 && first <= index < first + embedding_slots(mi) {
            Weight { weight: ZERO, acc_grad: ONE }
        } else {
            Weight { weight: ZERO, acc_grad: ZERO }
        }
    }

    /// Tells whether a regressor can be built from the hyperparameters.
    pub fn can_build(mi: &ModelInstance) -> (r: bool)
        ensures
            r == constructible(*mi),
    {
        if mi.bit_precision > 31 || mi.ffm_fields.len() > MAX_FIELDS {
            return false;
        }
        let plain: u64 = mask_of(mi.bit_precision as u32) as u64 + 1;
        let fields = mi.ffm_fields.len() as u64;
        assert(fields * fields <= 65535 * 65535) by (nonlinear_arith)
            requires
                fields <= 65535,
        ;
        let pairs: u64 = fields * fields;
        assert(pairs == mi.ffm_fields@.len() * mi.ffm_fields@.len() && pairs <= 65535 * 65535)
            by (nonlinear_arith)
            requires
                pairs == fields * fields,
                fields == mi.ffm_fields@.len(),
                fields <= 65535,
        ;
        if mi.ffm_k == 0 {
            assert(mi.ffm_k * (mi.ffm_fields@.len() * mi.ffm_fields@.len()) == 0)
                by (nonlinear_arith)
                requires
                    mi.ffm_k == 0,
            ;
            return true;
        }
        if mi.ffm_bit_precision > 31 {
            return false;
        }
        let slots: u64 = mask_of(mi.ffm_bit_precision) as u64 + 1;
        assert(address_space(31) == 0x8000_0000) by {
            reveal_with_fuel(address_space, 32);
        }
        if mi.ffm_k as u64 > slots {
            proof {
                lemma_span_covers(mi.ffm_k as int, 1);
            }
            return false;
        }
        if span_of(mi.ffm_k) as u64 > slots {
            return false;
        }
        assert((mi.ffm_k as u64) * pairs <= 0x8000_0000 * (65535 * 65535) && (mi.ffm_k as u64)
            * pairs == mi.ffm_k * (mi.ffm_fields@.len() * mi.ffm_fields@.len()))
            by (nonlinear_arith)
            requires
                mi.ffm_k <= 0x8000_0000,
                pairs <= 65535 * 65535,
                pairs == mi.ffm_fields@.len() * mi.ffm_fields@.len(),
        ;
        let cross: u64 = (mi.ffm_k as u64) * pairs;
        plain + slots + cross <= 0xffff_ffff
    }

    /// A regressor for the hyperparameters: every weight zero, the
    /// accumulators of the embeddings one, the rate table filled where
    /// `fastmath` is set.
    pub fn new<F: Fn(Request) -> u32>(model_instance: &ModelInstance, unit: &F) -> (rg: Regressor)
        requires
            constructible(*model_instance),
            total(unit),
        ensures
            rg.wf(),
            rg.hash_mask + 1 == address_space(model_instance.bit_precision as nat),
            rg.learning_rate == model_instance.learning_rate,
            rg.minus_power_t == opposite(model_instance.power_t),
            rg.fastmath == model_instance.fastmath,
            rg.ffm_k == model_instance.ffm_k,
            rg.ffm_weights_offset == (if model_instance.ffm_k > 0 {
                address_space(model_instance.bit_precision as nat)
            } else {
                0
            }),
            rg.ffm_hashmask == (if model_instance.ffm_k > 0 {
                address_space(model_instance.ffm_bit_precision as nat) - dimension_span(
                    model_instance.ffm_k,
                )
            } else {
                0
            }),
            rg.ffm_iw_weights_offset == address_space(model_instance.bit_precision as nat)
                + embedding_slots(*model_instance),
            rg.ffm_separate_vectors_k == (if model_instance.ffm_k > 0
                && model_instance.ffm_separate_vectors {
                model_instance.ffm_k
            } else {
                0
            }),
            rg.weights@.len() == store_len(*model_instance),
            forall|index: int|
                0 <= index < rg.weights@.len() ==> #[trigger] rg.weights@[index] == Self::initial(
                    *model_instance,
                    index,
                ),
            model_instance.ffm_k == 0 ==> rg.ffm_one_over_k_root == ZERO,
            functional(unit) && model_instance.ffm_k > 0 ==> rg.ffm_one_over_k_root == quotient(
                answer(unit),
                quotient(
                    answer(unit),
                    ONE,
                    square_root(answer(unit), from_count(answer(unit), model_instance.ffm_k)),
                ),
                TEN,
            ),
            !model_instance.fastmath ==> forall|x: int|
                0 <= x < FASTMATH_LR_LUT_SIZE ==> #[trigger] rg.fastmath_lr_lut@[x] == ZERO,
            functional(unit) && model_instance.fastmath ==> forall|x: int|
                0 <= x < FASTMATH_LR_LUT_SIZE ==> #[trigger] rg.fastmath_lr_lut@[x] == rate_entry(
                    answer(unit),
                    model_instance.learning_rate,
                    opposite(model_instance.power_t),
                    x,
                ),
    {
        let hash_mask = mask_of(model_instance.bit_precision as u32);
        let lr_weights_len: u32 = hash_mask + 1;
        let fields = model_instance.ffm_fields.len() as u64;
        assert(fields * fields <= 65535 * 65535) by (nonlinear_arith)
            requires
                fields <= 65535,
        ;
        let pairs: u64 = fields * fields;
        assert(pairs == model_instance.ffm_fields@.len() * model_instance.ffm_fields@.len() && pairs
            <= 65535 * 65535) by (nonlinear_arith)
            requires
                pairs == fields * fields,
                fields == model_instance.ffm_fields@.len(),
                fields <= 65535,
        ;
        let mut rg = Regressor {
            hash_mask,
            learning_rate: model_instance.learning_rate,
            minus_power_t: negate(model_instance.power_t),
            weights: Vec::new(),
            ffm_weights_offset: 0,
            ffm_k: 0,
            ffm_hashmask: 0,
            ffm_one_over_k_root: ZERO,
            ffm_separate_vectors_k: 0,
            fastmath: model_instance.fastmath,
            fastmath_lr_lut: vec![ZERO; FASTMATH_LR_LUT_SIZE],
            ffm_iw_weights_offset: 0,
        };
        if rg.fastmath {
            rg.fastmath_create_lut(rg.learning_rate, rg.minus_power_t, unit);
        }
        let mut ffm_weights_len: u32 = 0;
        if model_instance.ffm_k > 0 {
            let ffm_mask = mask_of(model_instance.ffm_bit_precision);
            ffm_weights_len = ffm_mask + 1;
            rg.ffm_weights_offset = lr_weights_len;
            rg.ffm_k = model_instance.ffm_k;
            proof {
                lemma_span_covers(model_instance.ffm_k as int, 1);
            }
            // The low bits of an embedding address are left to the dimensions.
            let dimensions = span_of(rg.ffm_k);
            rg.ffm_hashmask = ffm_weights_len - dimensions;
        }
        assert((model_instance.ffm_k as u64) * pairs == model_instance.ffm_k * (
        model_instance.ffm_fields@.len() * model_instance.ffm_fields@.len()) && 0
            <= model_instance.ffm_k * (model_instance.ffm_fields@.len()
            * model_instance.ffm_fields@.len())) by (nonlinear_arith)
            requires
                pairs == model_instance.ffm_fields@.len() * model_instance.ffm_fields@.len(),
        ;
        assert(address_space(model_instance.bit_precision as nat) >= 1 && embedding_slots(
            *model_instance,
        ) >= 0) by {
            lemma_address_space_grows(model_instance.bit_precision as nat, 31);
            lemma_address_space_grows(
                model_instance.ffm_bit_precision as nat,
                model_instance.ffm_bit_precision as nat,
            );
        }
        let iw_weights_len: u32 = ((rg.ffm_k as u64) * pairs) as u32;
        rg.ffm_iw_weights_offset = lr_weights_len + ffm_weights_len;
        let len: u32 = lr_weights_len + ffm_weights_len + iw_weights_len;
        let mut weights: Vec<Weight> = Vec::new();
        let mut index: u32 = 0;
        while index < len
            invariant
                index <= len,
                weights@.len() == index,
                lr_weights_len == address_space(model_instance.bit_precision as nat),
                ffm_weights_len == embedding_slots(*model_instance),
                forall|a: int|
                    0 <= a < index ==> #[trigger] weights@[a] == Self::initial(*model_instance, a),
            decreases len - index,
        {
            let embedding = model_instance.ffm_k > 0 && lr_weights_len <= index && index
                - lr_weights_len < ffm_weights_len;
            weights.push(
                if embedding {
                    Weight { weight: ZERO, acc_grad: ONE }
                } else {
                    Weight { weight: ZERO, acc_grad: ZERO }
                },
            );
            index += 1;
        }
        rg.weights = weights;
        if model_instance.ffm_k > 0 {
            rg.ffm_one_over_k_root = over(
                unit,
                over(unit, ONE, root_of(unit, count_of(unit, rg.ffm_k))),
                TEN,
            );
            if model_instance.ffm_separate_vectors {
                rg.ffm_separate_vectors_k = rg.ffm_k;
            }
        }
        rg
    }

    /// Fills the rate table: per bucket of accumulator patterns the learning
    /// rate at its two edges, averaged.
    pub fn fastmath_create_lut<F: Fn(Request) -> u32>(
        &mut self,
        learning_rate: u32,
        minus_power_t: u32,
        unit: &F,
    )
        requires
            old(self).fastmath_lr_lut@.len() == FASTMATH_LR_LUT_SIZE,
            total(unit),
        ensures
            final(self).fastmath_lr_lut@.len() == FASTMATH_LR_LUT_SIZE,
            final(self).hash_mask == old(self).hash_mask,
            final(self).learning_rate == old(self).learning_rate,
            final(self).minus_power_t == old(self).minus_power_t,
            final(self).weights == old(self).weights,
            final(self).ffm_weights_offset == old(self).ffm_weights_offset,
            final(self).ffm_k == old(self).ffm_k,
            final(self).ffm_hashmask == old(self).ffm_hashmask,
            final(self).ffm_one_over_k_root == old(self).ffm_one_over_k_root,
            final(self).ffm_separate_vectors_k == old(self).ffm_separate_vectors_k,
            final(self).fastmath == old(self).fastmath,
            final(self).ffm_iw_weights_offset == old(self).ffm_iw_weights_offset,
            functional(unit) ==> forall|x: int|
                0 <= x < FASTMATH_LR_LUT_SIZE ==> #[trigger] final(self).fastmath_lr_lut@[x]
                    == rate_entry(answer(unit), learning_rate, minus_power_t, x),
    {
        let mut x: usize = 0;
        while x < FASTMATH_LR_LUT_SIZE
            invariant
                x <= FASTMATH_LR_LUT_SIZE,
                self.fastmath_lr_lut@.len() == FASTMATH_LR_LUT_SIZE,
                total(unit),
                self.hash_mask == old(self).hash_mask,
                self.learning_rate == old(self).learning_rate,
                self.minus_power_t == old(self).minus_power_t,
                self.weights == old(self).weights,
                self.ffm_weights_offset == old(self).ffm_weights_offset,
                self.ffm_k == old(self).ffm_k,
                self.ffm_hashmask == old(self).ffm_hashmask,
                self.ffm_one_over_k_root == old(self).ffm_one_over_k_root,
                self.ffm_separate_vectors_k == old(self).ffm_separate_vectors_k,
                self.fastmath == old(self).fastmath,
                self.ffm_iw_weights_offset == old(self).ffm_iw_weights_offset,
                functional(unit) ==> forall|y: int|
                    0 <= y < x ==> #[trigger] self.fastmath_lr_lut@[y] == rate_entry(
                        answer(unit),
                        learning_rate,
                        minus_power_t,
                        y,
                    ),
            decreases FASTMATH_LR_LUT_SIZE - x,
        {
            let float_x: u32 = (x as u32) * FASTMATH_LR_LUT_STEP;
            let float_x_plus_one: u32 = (x as u32 + 1) * FASTMATH_LR_LUT_STEP;
            let both = plus(
                unit,
                raised(unit, float_x, minus_power_t),
                raised(unit, float_x_plus_one, minus_power_t),
            );
            let val = over(unit, times(unit, learning_rate, both), TWO);
            self.fastmath_lr_lut[x] = val;
            x += 1;
        }
    }

    /// The update for a gradient at an accumulator, by the rate table: the
    /// gradient times the rate of the accumulator's bucket.
    pub fn fastmath_calculate_update<F: Fn(Request) -> u32>(
        &self,
        update: u32,
        accumulated_squared_gradient: u32,
        unit: &F,
    ) -> (r: u32)
        requires
            self.fastmath_lr_lut@.len() == FASTMATH_LR_LUT_SIZE,
            total(unit),
        ensures
            functional(unit) ==> r == product(
                answer(unit),
                update,
                self.fastmath_lr_lut@[lut_key(accumulated_squared_gradient)],
            ),
    {
        let key: u32 = abs_bits(accumulated_squared_gradient) / FASTMATH_LR_LUT_STEP;
        times(unit, update, self.fastmath_lr_lut[key as usize])
    }
}

/// The search for the span of `k` from a power of two `p` ends at or above
/// both.
pub proof fn lemma_span_covers(k: int, p: int)
    requires
        p >= 1,
    ensures
        span_from(k, p) >= k,
        span_from(k, p) >= p,
    decreases (if k > p {
        k - p
    } else {
        0
    }),
{
    if k > p {
        lemma_span_covers(k, 2 * p);
    }
}

} // verus!

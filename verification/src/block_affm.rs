//! The field-interaction block: field-aware factorisation with one learned
//! weight per ordered pair of fields.

use vstd::prelude::*;
use crate::arith::{
    answer, count_of, difference, from_count, functional, minus, over, plus, product, quotient,
    root_of, square_root, sum, times, total, Arithmetic, Request,
};
use crate::bits::{equal, greater, gt, same, FIFTY, HALF, ONE, ZERO};
use crate::block::{
    chain_kept, chain_prediction, chain_response, chain_runs, chain_taught, forward_backward_chain,
    forward_chain, Block,
};
use crate::block_helpers::{
    decoded, encoded, read_weights_from_buf, read_weights_only_from_buf2, write_weights_to_buf,
    LoadError, WeightAndOptimizerData,
};
use crate::feature_buffer::{
    field_of, grouped, lemma_ascending_is_grouped, placed, FeatureBuffer,
};
use crate::model_instance::ModelInstance;
use crate::optimizer::{OptimizerSGD, OptimizerTrait};
use crate::random::{merand48, merand48_bits};

verus! {

/// Most scratch slots that one example may need: the embedding width times
/// the square of the number of fields.
pub const FFM_CONTRA_BUF_LEN: u64 = 8196;

/// `sqrt(0.5)`
pub const SQRT_OF_ONE_HALF: u32 = 0x3f35_04f3;

/// `1.2`: no attention weight is stored above it.
pub const ATTENTION_CEILING: u32 = 0x3f99_999a;

/// Why a block cannot be built from the hyperparameters.
#[derive(Clone, Copy, PartialEq, Eq, Structural, Debug)]
pub enum ConfigError {
    /// `ffm_k * fields * fields` exceeds `FFM_CONTRA_BUF_LEN`.
    ScratchTooSmall { fields: u64, ffm_k: u32 },
    /// `ffm_bit_precision` is above 31: the address space does not fit.
    AddressSpaceTooLarge { ffm_bit_precision: u32 },
}

/// One line of the attention report: an ordered pair of fields, its
/// attention weight and the accumulator of that weight.
#[derive(Clone, Copy, PartialEq, Eq, Structural, Debug)]
pub struct AttentionLine {
    pub f1: u32,
    pub f2: u32,
    pub weight: u32,
    pub optimizer_data: u32,
}

pub struct BlockAFFM<L: OptimizerTrait> {
    pub optimizer_ffm: L,
    pub optimizer_attention: L,
    pub ffm_k: u32,
    pub ffm_fields_count: u32,
    /// The address space less one: a hash is reduced to an address by `&`.
    pub ffm_hash_mask: u32,
    pub ffm_weights_len: u32,
    pub attention_weights_len: u32,
    pub field_embedding_len: u32,
    pub attention_l2: u32,
    pub attention_snap_to_zero: u32,
    pub attention_horizon: u64,
    pub weights: Vec<WeightAndOptimizerData>,
    pub attention_weights: Vec<WeightAndOptimizerData>,
}

/// `2^bits` for `bits <= 31`.
pub open spec fn address_space(bits: nat) -> int
    decreases bits,
{
    if bits == 0 {
        1
    } else {
        2 * address_space((bits - 1) as nat)
    }
}

/// The scratch need of a model: `ffm_k * fields * fields`.
pub open spec fn scratch_need(ffm_k: u32, fields: int) -> int {
    ffm_k * fields * fields
}

/// The hyperparameters from which a block can be built.
pub open spec fn buildable(mi: ModelInstance) -> bool {
    &&& scratch_need(mi.ffm_k, mi.ffm_fields@.len() as int) <= FFM_CONTRA_BUF_LEN
    &&& mi.ffm_k > 0 ==> mi.ffm_bit_precision <= 31
}

impl<L: OptimizerTrait> BlockAFFM<L> {
    /// The lengths follow from the embedding width, the number of fields and
    /// the address space: the embedding store holds the address space and a
    /// spillover of one field embedding, so that an address plus an offset
    /// into the embedding never leaves the store.
    pub open spec fn shaped(&self) -> bool {
        &&& self.ffm_k > 0
        &&& self.ffm_hash_mask < 0x8000_0000
        &&& self.field_embedding_len == self.ffm_k * self.ffm_fields_count
        &&& self.attention_weights_len == self.ffm_fields_count * self.ffm_fields_count
        &&& self.ffm_weights_len == self.ffm_hash_mask + 1 + self.field_embedding_len
        &&& scratch_need(self.ffm_k, self.ffm_fields_count as int) <= FFM_CONTRA_BUF_LEN
    }

    /// Nothing is stored and nothing can be: a model without embeddings.
    pub open spec fn hollow(&self) -> bool {
        &&& self.ffm_k == 0
        &&& self.ffm_weights_len == 0
        &&& self.attention_weights_len == 0
        &&& self.field_embedding_len == 0
    }

    /// The block is shaped and its stores are allocated.
    pub open spec fn ready(&self) -> bool {
        &&& self.shaped()
        &&& self.weights@.len() == self.ffm_weights_len
        &&& self.attention_weights@.len() == self.attention_weights_len
        &&& self.optimizer_ffm.wf()
        &&& self.optimizer_attention.wf()
    }

    /// The example is one that this block can score: it names the block's
    /// number of fields, and its features lie in those fields and come
    /// grouped by field.
    pub open spec fn fits(&self, fb: FeatureBuffer) -> bool {
        &&& fb.ffm_fields_count == self.ffm_fields_count
        &&& grouped(fb.ffm_buffer@)
        &&& placed(fb.ffm_buffer@, self.ffm_k as int, self.ffm_fields_count as int)
    }

    /// Tells whether the block is ready to score and to learn.
    pub fn is_ready(&self) -> (r: bool)
        ensures
            r == self.ready(),
    {
        if self.ffm_k == 0 || self.ffm_hash_mask >= 0x8000_0000 {
            return false;
        }
        let k = self.ffm_k as u64;
        let fields = self.ffm_fields_count as u64;
        // Each product is formed only once its factors are known to be small.
        if k > FFM_CONTRA_BUF_LEN || fields > FFM_CONTRA_BUF_LEN {
            proof {
                if fields > 0 {
                    lemma_need_grows(self.ffm_k, fields as int);
                } else {
                    assert(self.ffm_k * 0 * 0 == 0) by (nonlinear_arith);
                    assert(self.ffm_k * self.ffm_fields_count == 0) by (nonlinear_arith)
                        requires
                            self.ffm_fields_count == 0,
                    ;
                }
            }
            if fields > 0 {
                return false;
            }
        }
        assert(k * fields <= 0xffff_ffff * 8196 && fields * fields <= 0xffff_ffff * 8196
            && k * fields * fields <= 0xffff_ffff * 8196 * 8196) by (nonlinear_arith)
            requires
                0 <= k <= 0xffff_ffff,
                0 <= fields <= 0xffff_ffff,
                fields == 0 || (k <= 8196 && fields <= 8196),
        ;
        assert(k * fields * fields == scratch_need(self.ffm_k, self.ffm_fields_count as int))
            by (nonlinear_arith)
            requires
                k == self.ffm_k,
                fields == self.ffm_fields_count,
        ;
        self.field_embedding_len as u64 == k * fields && self.attention_weights_len as u64
            == fields * fields && self.ffm_weights_len as u64 == self.ffm_hash_mask as u64 + 1
            + self.field_embedding_len as u64 && k * fields * fields <= FFM_CONTRA_BUF_LEN
            && self.weights.len() == self.ffm_weights_len as usize
            && self.attention_weights.len() == self.attention_weights_len as usize
            && self.optimizer_ffm.is_wf() && self.optimizer_attention.is_wf()
    }

    /// Tells whether the block can score the example.
    pub fn accepts(&self, fb: &FeatureBuffer) -> (r: bool)
        requires
            self.ffm_k > 0,
        ensures
            r == self.fits(*fb),
    {
        if fb.ffm_fields_count != self.ffm_fields_count {
            return false;
        }
        let n = fb.ffm_buffer.len();
        let mut i: usize = 0;
        while i < n
            invariant
                self.ffm_k > 0,
                i <= n,
                n == fb.ffm_buffer@.len(),
                forall|a: int|
                    0 <= a < i ==> {
                        &&& (#[trigger] fb.ffm_buffer@[a]).contra_field_index as int
                            % self.ffm_k as int == 0
                        &&& field_of(fb.ffm_buffer@[a], self.ffm_k as int) < self.ffm_fields_count
                    },
                forall|a: int|
                    0 < a < i ==> fb.ffm_buffer@[a - 1].contra_field_index <= (
                    #[trigger] fb.ffm_buffer@[a]).contra_field_index,
            decreases n - i,
        {
            let entry = fb.ffm_buffer[i];
            if entry.contra_field_index % self.ffm_k != 0 || entry.contra_field_index / self.ffm_k
                >= self.ffm_fields_count {
                return false;
            }
            if i > 0 && fb.ffm_buffer[i - 1].contra_field_index > entry.contra_field_index {
                assert(!grouped(fb.ffm_buffer@));
                return false;
            }
            i += 1;
        }
        proof {
            lemma_ascending_is_grouped(fb.ffm_buffer@, n as int);
        }
        true
    }

    /// A block for the hyperparameters, with empty stores.  Fails where one
    /// example could need more scratch than `FFM_CONTRA_BUF_LEN`, or where
    /// the address space does not fit.
    pub fn new_without_weights<F: Fn(Request) -> u32>(mi: &ModelInstance, unit: &F) -> (r: Result<
        BlockAFFM<L>,
        ConfigError,
    >)
        requires
            total(unit),
        ensures
            r is Ok <==> buildable(*mi),
            r matches Ok(b) ==> {
                &&& b.weights@.len() == 0
                &&& b.attention_weights@.len() == 0
                &&& b.optimizer_ffm.wf()
                &&& b.optimizer_attention.wf()
                &&& b.ffm_k == mi.ffm_k
                &&& mi.ffm_k > 0 ==> b.ffm_fields_count == mi.ffm_fields@.len()
                &&& b.attention_l2 == mi.attention_l2
                &&& b.attention_snap_to_zero == mi.attention_snap_to_zero
                &&& b.attention_horizon == mi.attention_horizon
                &&& mi.ffm_k > 0 ==> b.shaped() && b.ffm_hash_mask + 1 == address_space(
                    mi.ffm_bit_precision as nat,
                )
                &&& mi.ffm_k == 0 ==> b.hollow()
                &&& functional(unit) && mi.ffm_k > 0 ==> {
                    &&& b.optimizer_ffm.configured(
                        answer(unit),
                        mi.ffm_learning_rate,
                        mi.ffm_power_t,
                        mi.ffm_init_acc_gradient,
                    )
                    &&& b.optimizer_attention.configured(
                        answer(unit),
                        mi.attention_learning_rate,
                        mi.attention_power_t,
                        mi.attention_init_acc_gradient,
                    )
                }
            },
            r matches Err(e) ==> e == (if scratch_need(mi.ffm_k, mi.ffm_fields@.len() as int)
                > FFM_CONTRA_BUF_LEN {
                ConfigError::ScratchTooSmall {
                    fields: mi.ffm_fields@.len() as u64,
                    ffm_k: mi.ffm_k,
                }
            } else {
                ConfigError::AddressSpaceTooLarge { ffm_bit_precision: mi.ffm_bit_precision }
            }),
    {
        let fields = mi.ffm_fields.len();
        let k = mi.ffm_k;
        // The need is compared without ever forming a product that could
        // overflow: fields * fields * k <= LEN forces each factor under LEN.
        if k > 0 && fields as u64 > FFM_CONTRA_BUF_LEN {
            proof {
                lemma_need_grows(k, fields as int);
            }
            return Err(ConfigError::ScratchTooSmall { fields: fields as u64, ffm_k: k });
        }
        if k as u64 > FFM_CONTRA_BUF_LEN && fields > 0 {
            proof {
                lemma_need_grows(k, fields as int);
            }
            return Err(ConfigError::ScratchTooSmall { fields: fields as u64, ffm_k: k });
        }
        if k == 0 || fields == 0 {
            assert(scratch_need(k, fields as int) == 0) by (nonlinear_arith)
                requires
                    k == 0 || fields == 0,
            ;
        } else {
            assert(k * fields <= 8196 * 8196 && k * fields * fields <= 8196 * 8196 * 8196)
                by (nonlinear_arith)
                requires
                    0 < k <= 8196,
                    0 < fields <= 8196,
            ;
            let need: u64 = (k as u64) * (fields as u64) * (fields as u64);
            assert(need == scratch_need(k, fields as int)) by (nonlinear_arith)
                requires
                    need == (k as u64) * (fields as u64) * (fields as u64),
                    k <= 8196,
                    fields <= 8196,
            ;
            if need > FFM_CONTRA_BUF_LEN {
                return Err(ConfigError::ScratchTooSmall { fields: fields as u64, ffm_k: k });
            }
        }
        if k > 0 && mi.ffm_bit_precision > 31 {
            return Err(
                ConfigError::AddressSpaceTooLarge { ffm_bit_precision: mi.ffm_bit_precision },
            );
        }
        let mut optimizer_ffm = L::new();
        let mut optimizer_attention = L::new();
        let mut ffm_hash_mask: u32 = 0;
        let mut ffm_weights_len: u32 = 0;
        let mut attention_weights_len: u32 = 0;
        let mut field_embedding_len: u32 = 0;
        let mut ffm_fields_count: u32 = 0;
        if k > 0 {
            optimizer_ffm.init(
                mi.ffm_learning_rate,
                mi.ffm_power_t,
                mi.ffm_init_acc_gradient,
                unit,
            );
            optimizer_attention.init(
                mi.attention_learning_rate,
                mi.attention_power_t,
                mi.attention_init_acc_gradient,
                unit,
            );
            ffm_hash_mask = mask_of(mi.ffm_bit_precision);
            proof {
                lemma_need_bounds(k, fields as int);
            }
            ffm_fields_count = fields as u32;
            field_embedding_len = k * ffm_fields_count;
            attention_weights_len = ffm_fields_count * ffm_fields_count;
            ffm_weights_len = ffm_hash_mask + 1 + field_embedding_len;
        }
        Ok(
            BlockAFFM {
                optimizer_ffm,
                optimizer_attention,
                ffm_k: k,
                ffm_fields_count,
                ffm_hash_mask,
                ffm_weights_len,
                attention_weights_len,
                field_embedding_len,
                attention_l2: mi.attention_l2,
                attention_snap_to_zero: mi.attention_snap_to_zero,
                attention_horizon: mi.attention_horizon,
                weights: Vec::new(),
                attention_weights: Vec::new(),
            },
        )
    }

    /// The weight that initialisation gives embedding slot `i`.  With the
    /// initial width zero the weights are drawn around zero in a band that
    /// narrows with the embedding width; else they are drawn from a band of
    /// the given width with a gap of the given share around its middle, and
    /// moved by the given centre.
    pub open spec fn initial_weight(&self, f: Arithmetic, mi: ModelInstance, i: int) -> u32 {
        if mi.ffm_k == 0 {
            ZERO
        } else if same(mi.ffm_init_width, ZERO) {
            let one_over_k_root = quotient(
                f,
                quotient(f, ONE, square_root(f, from_count(f, self.ffm_k))),
                FIFTY,
            );
            let drawn = merand48_bits((self.ffm_weights_len + i) as u64);
            product(f, difference(f, product(f, ONE, drawn), HALF), one_over_k_root)
        } else {
            let zero_half_band_width = product(
                f,
                product(f, mi.ffm_init_width, mi.ffm_init_zero_band),
                HALF,
            );
            let band_width = product(
                f,
                mi.ffm_init_width,
                difference(f, ONE, mi.ffm_init_zero_band),
            );
            let drawn = difference(
                f,
                product(f, merand48_bits(i as u64), band_width),
                product(f, band_width, HALF),
            );
            let spread = if gt(drawn, ZERO) {
                sum(f, drawn, zero_half_band_width)
            } else {
                difference(f, drawn, zero_half_band_width)
            };
            sum(f, spread, mi.ffm_init_center)
        }
    }

    /// The block `after` is this block with its stores allocated: every
    /// accumulator holds its optimizer's start value, every attention weight
    /// one (zero for a model without embeddings).
    pub open spec fn started(&self, after: &Self, mi: ModelInstance) -> bool {
        &&& after.alike(self)
        &&& after.weights@.len() == self.ffm_weights_len
        &&& after.attention_weights@.len() == self.attention_weights_len
        &&& self.shaped() ==> after.ready()
        &&& forall|i: int|
            0 <= i < self.ffm_weights_len ==> (#[trigger] after.weights@[i]).optimizer_data
                == self.optimizer_ffm.start()
        &&& forall|z: int|
            0 <= z < self.attention_weights_len ==> #[trigger] after.attention_weights@[z] == (
            WeightAndOptimizerData {
                weight: if mi.ffm_k > 0 {
                    ONE
                } else {
                    ZERO
                },
                optimizer_data: self.optimizer_attention.start(),
            })
    }

    /// Every embedding weight of `after` is the initial weight of its slot.
    pub open spec fn drawn(&self, after: &Self, f: Arithmetic, mi: ModelInstance) -> bool {
        forall|i: int|
            0 <= i < self.ffm_weights_len ==> (#[trigger] after.weights@[i]).weight
                == self.initial_weight(f, mi, i)
    }

    /// Allocates both stores and fills them: every accumulator with its
    /// optimizer's start value, every embedding weight with its initial
    /// weight, every attention weight with one (zero for a model without
    /// embeddings).
    pub fn allocate_and_init_weights<F: Fn(Request) -> u32>(
        &mut self,
        mi: &ModelInstance,
        unit: &F,
    )
        requires
            old(self).shaped() || old(self).hollow(),
            old(self).optimizer_ffm.wf(),
            old(self).optimizer_attention.wf(),
            total(unit),
        ensures
            old(self).started(final(self), *mi),
            functional(unit) ==> old(self).drawn(final(self), answer(unit), *mi),
    {
        let len = self.ffm_weights_len;
        let start_ffm = self.optimizer_ffm.initial_data();
        let start_attention = self.optimizer_attention.initial_data();
        let narrow = equal(mi.ffm_init_width, ZERO);
        let mut one_over_k_root = ZERO;
        let mut zero_half_band_width = ZERO;
        let mut band_width = ZERO;
        let mut half_band = ZERO;
        if mi.ffm_k > 0 {
            if narrow {
                one_over_k_root = over(
                    unit,
                    over(unit, ONE, root_of(unit, count_of(unit, self.ffm_k))),
                    FIFTY,
                );
            } else {
                zero_half_band_width = times(
                    unit,
                    times(unit, mi.ffm_init_width, mi.ffm_init_zero_band),
                    HALF,
                );
                band_width = times(
                    unit,
                    mi.ffm_init_width,
                    minus(unit, ONE, mi.ffm_init_zero_band),
                );
                half_band = times(unit, band_width, HALF);
            }
        }
        let mut weights: Vec<WeightAndOptimizerData> = Vec::new();
        let mut i: u32 = 0;
        while i < len
            invariant
                *self == *old(self),
                total(unit),
                i <= len,
                len == self.ffm_weights_len,
                weights@.len() == i,
                narrow == same(mi.ffm_init_width, ZERO),
                start_ffm == self.optimizer_ffm.start(),
                functional(unit) && mi.ffm_k > 0 && narrow ==> one_over_k_root == quotient(
                    answer(unit),
                    quotient(
                        answer(unit),
                        ONE,
                        square_root(answer(unit), from_count(answer(unit), self.ffm_k)),
                    ),
                    FIFTY,
                ),
                functional(unit) && mi.ffm_k > 0 && !narrow ==> {
                    &&& zero_half_band_width == product(
                        answer(unit),
                        product(answer(unit), mi.ffm_init_width, mi.ffm_init_zero_band),
                        HALF,
                    )
                    &&& band_width == product(
                        answer(unit),
                        mi.ffm_init_width,
                        difference(answer(unit), ONE, mi.ffm_init_zero_band),
                    )
                    &&& half_band == product(answer(unit), band_width, HALF)
                },
                forall|a: int|
                    0 <= a < i ==> (#[trigger] weights@[a]).optimizer_data == start_ffm,
                functional(unit) ==> forall|a: int|
                    0 <= a < i ==> (#[trigger] weights@[a]).weight == self.initial_weight(
                        answer(unit),
                        *mi,
                        a,
                    ),
            decreases len - i,
        {
            let weight = if mi.ffm_k == 0 {
                ZERO
            } else if narrow {
                let drawn = merand48(len as u64 + i as u64);
                times(unit, minus(unit, times(unit, ONE, drawn), HALF), one_over_k_root)
            } else {
                let drawn = minus(unit, times(unit, merand48(i as u64), band_width), half_band);
                let spread = if greater(drawn, ZERO) {
                    plus(unit, drawn, zero_half_band_width)
                } else {
                    minus(unit, drawn, zero_half_band_width)
                };
                plus(unit, spread, mi.ffm_init_center)
            };
            weights.push(WeightAndOptimizerData { weight, optimizer_data: start_ffm });
            i += 1;
        }
        let cells = self.attention_weights_len;
        let first = if mi.ffm_k > 0 {
            ONE
        } else {
            ZERO
        };
        let mut attention_weights: Vec<WeightAndOptimizerData> = Vec::new();
        let mut z: u32 = 0;
        while z < cells
            invariant
                z <= cells,
                attention_weights@.len() == z,
                forall|a: int|
                    0 <= a < z ==> #[trigger] attention_weights@[a] == (WeightAndOptimizerData {
                        weight: first,
                        optimizer_data: start_attention,
                    }),
            decreases cells - z,
        {
            attention_weights.push(
                WeightAndOptimizerData { weight: first, optimizer_data: start_attention },
            );
            z += 1;
        }
        self.weights = weights;
        self.attention_weights = attention_weights;
    }

    /// The same model for inference only: the shape of this block, empty
    /// stores and the optimizer that takes no step.
    pub fn new_forward_only_without_weights(&self) -> (r: BlockAFFM<OptimizerSGD>)
        ensures
            r.weights@.len() == 0,
            r.attention_weights@.len() == 0,
            r.ffm_k == self.ffm_k,
            r.ffm_fields_count == self.ffm_fields_count,
            r.ffm_hash_mask == self.ffm_hash_mask,
            r.ffm_weights_len == self.ffm_weights_len,
            r.attention_weights_len == self.attention_weights_len,
            r.field_embedding_len == self.field_embedding_len,
            r.attention_l2 == self.attention_l2,
            r.attention_snap_to_zero == self.attention_snap_to_zero,
            r.attention_horizon == self.attention_horizon,
            self.shaped() ==> r.shaped(),
            self.hollow() ==> r.hollow(),
    {
        BlockAFFM {
            optimizer_ffm: OptimizerSGD::new(),
            optimizer_attention: OptimizerSGD::new(),
            ffm_k: self.ffm_k,
            ffm_fields_count: self.ffm_fields_count,
            ffm_hash_mask: self.ffm_hash_mask,
            ffm_weights_len: self.ffm_weights_len,
            attention_weights_len: self.attention_weights_len,
            field_embedding_len: self.field_embedding_len,
            attention_l2: self.attention_l2,
            attention_snap_to_zero: self.attention_snap_to_zero,
            attention_horizon: self.attention_horizon,
            weights: Vec::new(),
            attention_weights: Vec::new(),
        }
    }

    /// The number of weights that the block writes and reads: those of the
    /// embedding store, then those of the attention store.
    pub fn get_serialized_len(&self) -> (r: usize)
        requires
            self.shaped() || self.hollow(),
        ensures
            r == self.ffm_weights_len + self.attention_weights_len,
    {
        proof {
            if self.shaped() {
                lemma_need_bounds(self.ffm_k, self.ffm_fields_count as int);
            }
        }
        (self.ffm_weights_len as usize) + (self.attention_weights_len as usize)
    }

    /// Fills both stores from the buffer, the embedding store first, starting
    /// at position `at`, and returns the position after the last byte read.
    /// Fails where the buffer ends before both stores are full; a store that
    /// could not be filled is then as it was.
    pub fn read_weights_from_buf(&mut self, input: &[u8], at: usize) -> (r: Result<
        usize,
        LoadError,
    >)
        ensures
            final(self).alike(old(self)),
            final(self).weights@.len() == old(self).weights@.len(),
            final(self).attention_weights@.len() == old(self).attention_weights@.len(),
            r is Ok <==> at + (old(self).weights@.len() + old(self).attention_weights@.len()) * 8
                <= input@.len(),
            r matches Ok(next) ==> {
                &&& next == at + (old(self).weights@.len() + old(self).attention_weights@.len())
                    * 8
                &&& forall|i: int|
                    0 <= i < old(self).weights@.len() ==> #[trigger] final(self).weights@[i]
                        == decoded(input@, at as int, i)
                &&& forall|i: int|
                    0 <= i < old(self).attention_weights@.len()
                        ==> #[trigger] final(self).attention_weights@[i] == decoded(
                        input@,
                        at + old(self).weights@.len() * 8,
                        i,
                    )
            },
            r matches Err(e) ==> {
                &&& final(self).attention_weights@ == old(self).attention_weights@
                &&& if at + old(self).weights@.len() * 8 > input@.len() {
                    &&& final(self).weights@ == old(self).weights@
                    &&& e == (LoadError::Truncated {
                        weights: old(self).weights@.len() as usize,
                        found: if at <= input@.len() {
                            (input@.len() - at) as usize
                        } else {
                            0
                        },
                    })
                } else {
                    &&& forall|i: int|
                        0 <= i < old(self).weights@.len() ==> #[trigger] final(self).weights@[i]
                            == decoded(input@, at as int, i)
                    &&& e == (LoadError::Truncated {
                        weights: old(self).attention_weights@.len() as usize,
                        found: (input@.len() - at - old(self).weights@.len() * 8) as usize,
                    })
                }
            },
    {
        let next = match read_weights_from_buf(&mut self.weights, input, at) {
            Ok(next) => next,
            Err(e) => {
                return Err(e);
            },
        };
        read_weights_from_buf(&mut self.attention_weights, input, next)
    }

    /// Appends the bytes of both stores to `output`, the embedding store
    /// first.
    pub fn write_weights_to_buf(&self, output: &mut Vec<u8>)
        ensures
            final(output)@ == old(output)@ + encoded(self.weights@) + encoded(
                self.attention_weights@,
            ),
    {
        write_weights_to_buf(&self.weights, output);
        write_weights_to_buf(&self.attention_weights, output);
    }

    /// Fills the weights of both stores of an inference-only block from the
    /// buffer, which holds the records of this block's stores.  The
    /// accumulators in the buffer are passed over.
    pub fn read_weights_from_buf_into_forward_only(
        &self,
        input: &[u8],
        at: usize,
        forward: &mut BlockAFFM<OptimizerSGD>,
    ) -> (r: Result<usize, LoadError>)
        requires
            self.shaped() || self.hollow(),
        ensures
            final(forward).alike(old(forward)),
            final(forward).weights@.len() == old(forward).weights@.len(),
            final(forward).attention_weights@.len() == old(forward).attention_weights@.len(),
            r is Ok <==> {
                &&& old(forward).weights@.len() == self.ffm_weights_len
                &&& old(forward).attention_weights@.len() == self.attention_weights_len
                &&& at + (self.ffm_weights_len + self.attention_weights_len) * 8 <= input@.len()
            },
            r matches Ok(next) ==> {
                &&& next == at + (self.ffm_weights_len + self.attention_weights_len) * 8
                &&& forall|i: int|
                    0 <= i < self.ffm_weights_len ==> #[trigger] final(forward).weights@[i] == (
                    WeightAndOptimizerData {
                        weight: decoded(input@, at as int, i).weight,
                        optimizer_data: old(forward).weights@[i].optimizer_data,
                    })
                &&& forall|i: int|
                    0 <= i < self.attention_weights_len
                        ==> #[trigger] final(forward).attention_weights@[i] == (
                    WeightAndOptimizerData {
                        weight: decoded(input@, at + self.ffm_weights_len * 8, i).weight,
                        optimizer_data: old(forward).attention_weights@[i].optimizer_data,
                    })
            },            r matches Err(e) ==> {
                &&& final(forward).attention_weights@ == old(forward).attention_weights@
                &&& e == (if old(forward).weights@.len() != self.ffm_weights_len {
                    LoadError::ShapeMismatch {
                        expected: self.ffm_weights_len as usize,
                        found: old(forward).weights@.len() as usize,
                    }
                } else if at + self.ffm_weights_len * 8 > input@.len() {
                    LoadError::Truncated {
                        weights: self.ffm_weights_len as usize,
                        found: if at <= input@.len() {
                            (input@.len() - at) as usize
                        } else {
                            0
                        },
                    }
                } else if old(forward).attention_weights@.len() != self.attention_weights_len {
                    LoadError::ShapeMismatch {
                        expected: self.attention_weights_len as usize,
                        found: old(forward).attention_weights@.len() as usize,
                    }
                } else {
                    LoadError::Truncated {
                        weights: self.attention_weights_len as usize,
                        found: (input@.len() - at - self.ffm_weights_len * 8) as usize,
                    }
                })
            },
    {
        let next = match read_weights_only_from_buf2(
            self.ffm_weights_len as usize,
            &mut forward.weights,
            input,
            at,
        ) {
            Ok(next) => next,
            Err(e) => {
                return Err(e);
            },
        };
        if forward.attention_weights.len() != self.attention_weights_len as usize {
            return Err(
                LoadError::ShapeMismatch {
                    expected: self.attention_weights_len as usize,
                    found: forward.attention_weights.len(),
                },
            );
        }
        read_weights_only_from_buf2(
            self.attention_weights_len as usize,
            &mut forward.attention_weights,
            input,
            next,
        )
    }

    /// Sets embedding weight `index` to the first of `w` and its accumulator
    /// to the start value.
    pub fn testing_set_weights(&mut self, aa: i32, bb: i32, index: usize, w: &[u32])
        requires
            index < old(self).weights@.len(),
            w@.len() > 0,
            old(self).optimizer_ffm.wf(),
        ensures
            final(self).alike(old(self)),
            final(self).attention_weights@ == old(self).attention_weights@,
            final(self).weights@ == old(self).weights@.update(
                index as int,
                WeightAndOptimizerData {
                    weight: w@[0],
                    optimizer_data: old(self).optimizer_ffm.start(),
                },
            ),
    {
        let optimizer_data = self.optimizer_ffm.initial_data();
        self.weights[index] = WeightAndOptimizerData { weight: w[0], optimizer_data };
    }

    /// The attention matrix, line by line: for every field `f1`, in order,
    /// its pairs with every field `f2`, in order.
    pub fn debug_output(&self, mi: &ModelInstance, aa: i32) -> (lines: Vec<AttentionLine>)
        requires
            self.ready(),
            mi.ffm_fields@.len() == self.ffm_fields_count,
        ensures
            lines@.len() == self.attention_weights_len,
            forall|c: int|
                0 <= c < self.attention_weights_len ==> #[trigger] lines@[c] == (AttentionLine {
                    f1: (c / self.ffm_fields_count as int) as u32,
                    f2: (c % self.ffm_fields_count as int) as u32,
                    weight: self.attention_weights@[c].weight,
                    optimizer_data: self.attention_weights@[c].optimizer_data,
                }),
    {
        let field_count = mi.ffm_fields.len() as u32;
        let cells = self.attention_weights_len;
        let mut lines: Vec<AttentionLine> = Vec::new();
        let mut c: u32 = 0;
        while c < cells
            invariant
                self.ready(),
                c <= cells,
                cells == self.attention_weights_len,
                field_count == self.ffm_fields_count,
                lines@.len() == c,
                forall|a: int|
                    0 <= a < c ==> #[trigger] lines@[a] == (AttentionLine {
                        f1: (a / self.ffm_fields_count as int) as u32,
                        f2: (a % self.ffm_fields_count as int) as u32,
                        weight: self.attention_weights@[a].weight,
                        optimizer_data: self.attention_weights@[a].optimizer_data,
                    }),
            decreases cells - c,
        {
            assert(field_count > 0) by (nonlinear_arith)
                requires
                    c < field_count * field_count,
            ;
            let entry = self.attention_weights[c as usize];
            lines.push(
                AttentionLine {
                    f1: c / field_count,
                    f2: c % field_count,
                    weight: entry.weight,
                    optimizer_data: entry.optimizer_data,
                },
            );
            c += 1;
        }
        lines
    }

    /// Scores the example: the interaction term, added to the logit handed
    /// in, goes down the rest of the chain.  Nothing of the block changes,
    /// and the result depends on nothing but the stores, the example and the
    /// chain.
    pub fn forward<F: Fn(Request) -> u32>(
        &self,
        further_blocks: &[Block<L>],
        wsum_input: u32,
        fb: &FeatureBuffer,
        unit: &F,
    ) -> (p: u32)
        requires
            self.ready(),
            self.fits(*fb),
            chain_runs(further_blocks@, *fb),
            total(unit),
        ensures
            functional(unit) ==> p == chain_prediction(
                further_blocks@,
                answer(unit),
                sum(answer(unit), self.interaction(answer(unit), fb.ffm_buffer@), wsum_input),
                *fb,
            ),
        decreases further_blocks@.len(), 2int,
    {
        let wsum = self.interact(fb, unit);
        forward_chain(further_blocks, plus(unit, wsum, wsum_input), fb, unit)
    }

    /// Scores the example in training and, where `update` is set, learns
    /// from it.  The interaction term, added to the logit handed in, goes
    /// down the rest of the chain; what comes back, the probability and the
    /// loss gradient, is handed up unchanged.  Then every embedding
    /// coordinate of the example's features steps along its derivative, and,
    /// for an example inside the attention horizon, every attention weight
    /// steps, is snapped and is clamped, whatever the loss gradient: a
    /// gradient of zero steps by zero and still settles the attention
    /// weights.
    pub fn forward_backward<F: Fn(Request) -> u32>(
        &mut self,
        further_blocks: &mut [Block<L>],
        wsum_input: u32,
        fb: &FeatureBuffer,
        update: bool,
        unit: &F,
    ) -> (r: (u32, u32))
        requires
            old(self).ready(),
            old(self).fits(*fb),
            chain_runs(old(further_blocks)@, *fb),
            total(unit),
        ensures
            old(self).kept_by(final(self), *fb, update),
            chain_runs(final(further_blocks)@, *fb),
            chain_kept(old(further_blocks)@, final(further_blocks)@, *fb, update),
            functional(unit) ==> r == chain_response(
                old(further_blocks)@,
                answer(unit),
                sum(
                    answer(unit),
                    old(self).training_interaction(answer(unit), fb.ffm_buffer@),
                    wsum_input,
                ),
                *fb,
            ),
            functional(unit) ==> old(self).taught(final(self), answer(unit), *fb, r.1, update),
            functional(unit) ==> chain_taught(
                old(further_blocks)@,
                final(further_blocks)@,
                answer(unit),
                sum(
                    answer(unit),
                    old(self).training_interaction(answer(unit), fb.ffm_buffer@),
                    wsum_input,
                ),
                *fb,
                update,
            ),
        decreases old(further_blocks)@.len(), 2int,
    {
        let derivatives = self.derive(fb, unit);
        let passed = plus(unit, derivatives.wsum, wsum_input);
        let (prediction_probability, general_gradient) = forward_backward_chain(
            further_blocks,
            passed,
            fb,
            update,
            unit,
        );
        if update {
            self.train_embeddings(fb, &derivatives.slopes, general_gradient, unit);
            if fb.example_number < self.attention_horizon {
                self.train_attention(&derivatives.leans, general_gradient, unit);
            }
        }
        (prediction_probability, general_gradient)
    }
}

/// `2^bits - 1`
pub fn mask_of(bits: u32) -> (mask: u32)
    requires
        bits <= 31,
    ensures
        mask + 1 == address_space(bits as nat),
        mask < 0x8000_0000,
{
    let mut mask: u32 = 0;
    let mut i: u32 = 0;
    assert(address_space(31) == 0x8000_0000) by {
        reveal_with_fuel(address_space, 32);
    }
    while i < bits
        invariant
            i <= bits,
            bits <= 31,
            mask + 1 == address_space(i as nat),
            address_space(31) == 0x8000_0000,
        decreases bits - i,
    {
        proof {
            lemma_address_space_grows((i + 1) as nat, 31);
        }
        mask = 2 * mask + 1;
        i += 1;
    }
    proof {
        lemma_address_space_grows(bits as nat, 31);
    }
    mask
}

pub proof fn lemma_address_space_grows(a: nat, b: nat)
    requires
        a <= b,
    ensures
        address_space(a) <= address_space(b),
        address_space(a) >= 1,
    decreases b,
{
    if a < b {
        lemma_address_space_grows(a, (b - 1) as nat);
    } else if a > 0 {
        lemma_address_space_grows((a - 1) as nat, (b - 1) as nat);
    }
}

/// With a positive width and more fields than `bound`, or a width above
/// `bound` and at least one field, the need exceeds `bound`.
proof fn lemma_need_grows(k: u32, fields: int)
    requires
        k > 0,
        fields > 0,
        fields > FFM_CONTRA_BUF_LEN || k > FFM_CONTRA_BUF_LEN,
    ensures
        scratch_need(k, fields) > FFM_CONTRA_BUF_LEN,
{
    assert(k * fields * fields >= k * fields) by (nonlinear_arith)
        requires
            k > 0,
            fields > 0,
    ;
    assert(k * fields >= k && k * fields >= fields) by (nonlinear_arith)
        requires
            k > 0,
            fields > 0,
    ;
}

/// A need within the bound bounds each product on the way.
proof fn lemma_need_bounds(k: u32, fields: int)
    requires
        k > 0,
        fields >= 0,
        scratch_need(k, fields) <= FFM_CONTRA_BUF_LEN,
    ensures
        k * fields <= FFM_CONTRA_BUF_LEN,
        fields * fields <= FFM_CONTRA_BUF_LEN,
        fields <= FFM_CONTRA_BUF_LEN,
{
    assert(k * fields * fields >= fields * fields) by (nonlinear_arith)
        requires
            k > 0,
            fields >= 0,
    ;
    assert(fields * fields >= fields) by (nonlinear_arith)
        requires
            fields >= 0,
    ;
    if fields > 0 {
        assert(k * fields * fields >= k * fields) by (nonlinear_arith)
            requires
                k > 0,
                fields > 0,
        ;
    } else {
        assert(k * fields == 0) by (nonlinear_arith)
            requires
                fields == 0,
        ;
    }
}

} // verus!

//! The update of the field-interaction block: every touched embedding
//! coordinate and, inside the attention horizon, every attention weight moves
//! along its derivative, scaled by the loss gradient and by its optimizer.

use vstd::prelude::*;
use crate::arith::{
    answer, difference, functional, minus, plus, product, sum, times, total, Arithmetic, Request,
};
use crate::bits::{equal, greater, gt, less, lt, same, zero, ZERO};
use crate::block_affm::{BlockAFFM, ATTENTION_CEILING};
use crate::block_helpers::WeightAndOptimizerData;
use crate::feature_buffer::{FeatureBuffer, HashAndValueAndSeq};
use crate::optimizer::OptimizerTrait;

verus! {

/// A weight after one step along `gradient`: the accumulator takes the
/// gradient in, the weight moves by the gradient times the step scale.
pub open spec fn stepped<L: OptimizerTrait>(
    optimizer: L,
    f: Arithmetic,
    entry: WeightAndOptimizerData,
    gradient: u32,
) -> WeightAndOptimizerData {
    WeightAndOptimizerData {
        weight: sum(
            f,
            entry.weight,
            product(f, gradient, optimizer.step_scale(f, gradient, entry.optimizer_data)),
        ),
        optimizer_data: optimizer.next_data(f, gradient, entry.optimizer_data),
    }
}

/// An attention weight as it is stored: zero where it fell below a snap
/// threshold other than zero, and never above the ceiling.
pub open spec fn settled(moved: u32, snap: u32) -> u32 {
    let snapped = if !same(snap, ZERO) && lt(moved, snap) {
        ZERO
    } else {
        moved
    };
    if gt(snapped, ATTENTION_CEILING) {
        ATTENTION_CEILING
    } else {
        snapped
    }
}

/// The weight is one that can be stored as an attention weight under the
/// snap threshold: it does not lie above the ceiling, and, where the
/// threshold is other than zero, it is zero, the ceiling, or not below the
/// threshold.
pub open spec fn rests(weight: u32, snap: u32) -> bool {
    &&& !gt(weight, ATTENTION_CEILING)
    &&& !same(snap, ZERO) ==> weight == ZERO || weight == ATTENTION_CEILING || !lt(weight, snap)
}

/// Snaps an attention weight to zero and clamps it to the ceiling.
pub fn settle(moved: u32, snap: u32) -> (r: u32)
    ensures
        r == settled(moved, snap),
        rests(r, snap),
        !same(snap, ZERO) && lt(moved, snap) ==> r == ZERO,
        r == ZERO || r == ATTENTION_CEILING || r == moved,
{
    let snapped = if !equal(snap, ZERO) && less(moved, snap) {
        ZERO
    } else {
        moved
    };
    if greater(snapped, ATTENTION_CEILING) {
        ATTENTION_CEILING
    } else {
        snapped
    }
}

impl<L: OptimizerTrait> BlockAFFM<L> {
    /// The two blocks differ in their stores at most.
    pub open spec fn alike(&self, other: &Self) -> bool {
        &&& self.optimizer_ffm == other.optimizer_ffm
        &&& self.optimizer_attention == other.optimizer_attention
        &&& self.ffm_k == other.ffm_k
        &&& self.ffm_fields_count == other.ffm_fields_count
        &&& self.ffm_hash_mask == other.ffm_hash_mask
        &&& self.ffm_weights_len == other.ffm_weights_len
        &&& self.attention_weights_len == other.attention_weights_len
        &&& self.field_embedding_len == other.field_embedding_len
        &&& self.attention_l2 == other.attention_l2
        &&& self.attention_snap_to_zero == other.attention_snap_to_zero
        &&& self.attention_horizon == other.attention_horizon
    }

    /// The embedding store after the updates of the features before `i` and
    /// of the first `j` coordinates of feature `i`, for the loss gradient
    /// `gg`.  The updates come one after the other: where two features share
    /// a coordinate, the second steps from where the first arrived.
    pub open spec fn trained(
        &self,
        f: Arithmetic,
        entries: Seq<HashAndValueAndSeq>,
        gg: u32,
        i: nat,
        j: nat,
    ) -> Seq<WeightAndOptimizerData>
        decreases i, j,
    {
        if j > 0 {
            let before = self.trained(f, entries, gg, i, (j - 1) as nat);
            let at = self.address(entries[i as int].hash) + j - 1;
            before.update(
                at,
                stepped(
                    self.optimizer_ffm,
                    f,
                    before[at],
                    product(f, gg, self.slope(f, entries, i as int, j - 1)),
                ),
            )
        } else if i > 0 {
            self.trained(f, entries, gg, (i - 1) as nat, self.field_embedding_len as nat)
        } else {
            self.weights@
        }
    }

    /// An attention weight after one update along `lean`, for the loss
    /// gradient `gg`: the optimizer's step, before it a shrinkage toward zero
    /// by `attention_l2` times the step scale where both that strength and the
    /// gradient are other than zero, and after it the snap and the clamp.
    pub open spec fn attention_step(
        &self,
        f: Arithmetic,
        entry: WeightAndOptimizerData,
        gg: u32,
        lean: u32,
    ) -> WeightAndOptimizerData {
        let gradient = product(f, gg, lean);
        let scale = self.optimizer_attention.step_scale(f, gradient, entry.optimizer_data);
        let shrunk = if !same(self.attention_l2, ZERO) && !same(gradient, ZERO) {
            difference(
                f,
                entry.weight,
                product(f, entry.weight, product(f, self.attention_l2, scale)),
            )
        } else {
            entry.weight
        };
        WeightAndOptimizerData {
            weight: settled(
                sum(f, shrunk, product(f, gradient, scale)),
                self.attention_snap_to_zero,
            ),
            optimizer_data: self.optimizer_attention.next_data(f, gradient, entry.optimizer_data),
        }
    }

    /// The example moves the attention weights: an update is asked for and
    /// the example lies inside the attention horizon.
    pub open spec fn attends(&self, fb: FeatureBuffer, update: bool) -> bool {
        update && fb.example_number < self.attention_horizon
    }

    /// The embedding of the feature holds the store's slot `index`.
    pub open spec fn covers(&self, entry: HashAndValueAndSeq, index: int) -> bool {
        self.address(entry.hash) <= index < self.address(entry.hash) + self.field_embedding_len
    }

    /// Slot `index` of the store belongs to the embedding of a feature of
    /// the example.
    pub open spec fn reached(&self, entries: Seq<HashAndValueAndSeq>, index: int) -> bool {
        exists|i: int| 0 <= i < entries.len() && #[trigger] self.covers(entries[i], index)
    }

    /// What holds of the block after an example whatever the arithmetic
    /// unit answered: it is `after`, as ready as before; without an update
    /// the embedding store is as it was; an embedding slot that belongs to no
    /// feature of the example is as it was; the attention weights are as they
    /// were without an update and for an example beyond the attention
    /// horizon; and after an update inside the horizon every attention
    /// weight is at rest: none lies above the ceiling, and none lies below a
    /// snap threshold other than zero unless it is zero.
    pub open spec fn kept_by(&self, after: &Self, fb: FeatureBuffer, update: bool) -> bool {
        &&& after.alike(self)
        &&& after.ready()
        &&& !update ==> after.weights@ == self.weights@
        &&& forall|index: int|
            0 <= index < self.ffm_weights_len && !self.reached(fb.ffm_buffer@, index)
                ==> #[trigger] after.weights@[index] == self.weights@[index]
        &&& !self.attends(fb, update) ==> after.attention_weights@ == self.attention_weights@
        &&& self.attends(fb, update) ==> forall|c: int|
            0 <= c < self.attention_weights_len ==> rests(
                (#[trigger] after.attention_weights@[c]).weight,
                self.attention_snap_to_zero,
            )
    }

    /// The stores of `after` are those of this block after the example with
    /// the loss gradient `gg`.
    pub open spec fn taught(
        &self,
        after: &Self,
        f: Arithmetic,
        fb: FeatureBuffer,
        gg: u32,
        update: bool,
    ) -> bool {
        &&& after.weights@ == (if update {
            self.trained(f, fb.ffm_buffer@, gg, fb.ffm_buffer@.len(), 0)
        } else {
            self.weights@
        })
        &&& after.attention_weights@.len() == self.attention_weights@.len()
        &&& forall|c: int|
            0 <= c < self.attention_weights_len ==> #[trigger] after.attention_weights@[c] == (
            if self.attends(fb, update) {
                self.attention_step(
                    f,
                    self.attention_weights@[c],
                    gg,
                    self.lean(f, fb.ffm_buffer@, c, fb.ffm_buffer@.len(), 0, 0),
                )
            } else {
                self.attention_weights@[c]
            })
    }

    /// Moves every coordinate of every feature of the example.
    pub(crate) fn train_embeddings<F: Fn(Request) -> u32>(
        &mut self,
        fb: &FeatureBuffer,
        slopes: &Vec<Vec<u32>>,
        gg: u32,
        unit: &F,
    )
        requires
            old(self).ready(),
            old(self).fits(*fb),
            total(unit),
            slopes@.len() == fb.ffm_buffer@.len(),
            forall|i: int|
                0 <= i < fb.ffm_buffer@.len() ==> (#[trigger] slopes@[i])@.len()
                    == old(self).field_embedding_len,
            functional(unit) ==> forall|i: int, j: int|
                0 <= i < fb.ffm_buffer@.len() && 0 <= j < old(self).field_embedding_len
                    ==> #[trigger] slopes@[i]@[j] == old(self).slope(
                    answer(unit),
                    fb.ffm_buffer@,
                    i,
                    j,
                ),
        ensures
            final(self).alike(old(self)),
            final(self).ready(),
            final(self).attention_weights@ == old(self).attention_weights@,
            forall|index: int|
                0 <= index < old(self).ffm_weights_len && !old(self).reached(fb.ffm_buffer@, index)
                    ==> #[trigger] final(self).weights@[index] == old(self).weights@[index],
            functional(unit) ==> final(self).weights@ == old(self).trained(
                answer(unit),
                fb.ffm_buffer@,
                gg,
                fb.ffm_buffer@.len(),
                0,
            ),
    {
        let n = fb.ffm_buffer.len();
        let width = self.field_embedding_len as usize;
        let mut i: usize = 0;
        while i < n
            invariant
                self.alike(old(self)),
                self.ready(),
                old(self).ready(),
                old(self).fits(*fb),
                total(unit),
                self.attention_weights@ == old(self).attention_weights@,
                forall|index: int|
                    0 <= index < old(self).ffm_weights_len && !old(self).reached(
                        fb.ffm_buffer@,
                        index,
                    ) ==> #[trigger] self.weights@[index] == old(self).weights@[index],
                i <= n,
                n == fb.ffm_buffer@.len(),
                width == self.field_embedding_len,
                slopes@.len() == n,
                forall|a: int| 0 <= a < n ==> (#[trigger] slopes@[a])@.len() == width,
                functional(unit) ==> forall|a: int, j: int|
                    0 <= a < n && 0 <= j < width ==> #[trigger] slopes@[a]@[j] == old(self).slope(
                        answer(unit),
                        fb.ffm_buffer@,
                        a,
                        j,
                    ),
                functional(unit) ==> self.weights@ == old(self).trained(
                    answer(unit),
                    fb.ffm_buffer@,
                    gg,
                    i as nat,
                    0,
                ),
            decreases n - i,
        {
            let base = self.address_of(fb.ffm_buffer[i].hash);
            let mut j: usize = 0;
            while j < width
                invariant
                    self.alike(old(self)),
                    self.ready(),
                    old(self).ready(),
                    total(unit),
                    self.attention_weights@ == old(self).attention_weights@,
                    forall|index: int|
                        0 <= index < old(self).ffm_weights_len && !old(self).reached(
                            fb.ffm_buffer@,
                            index,
                        ) ==> #[trigger] self.weights@[index] == old(self).weights@[index],
                    i < n,
                    n == fb.ffm_buffer@.len(),
                    j <= width,
                    width == self.field_embedding_len,
                    base == old(self).address(fb.ffm_buffer@[i as int].hash),
                    base + width <= self.weights@.len(),
                    slopes@.len() == n,
                    slopes@[i as int]@.len() == width,
                    functional(unit) ==> forall|a: int|
                        0 <= a < width ==> #[trigger] slopes@[i as int]@[a] == old(self).slope(
                            answer(unit),
                            fb.ffm_buffer@,
                            i as int,
                            a,
                        ),
                    functional(unit) ==> self.weights@ == old(self).trained(
                        answer(unit),
                        fb.ffm_buffer@,
                        gg,
                        i as nat,
                        j as nat,
                    ),
                decreases width - j,
            {
                assert(old(self).reached(fb.ffm_buffer@, base + j)) by {
                    assert(old(self).covers(fb.ffm_buffer@[i as int], base + j));
                }
                let entry = self.weights[base + j];
                let gradient = times(unit, gg, slopes[i][j]);
                let mut data = entry.optimizer_data;
                let update_scale = self.optimizer_ffm.calculate_update(gradient, &mut data, unit);
                let moved = plus(unit, entry.weight, times(unit, gradient, update_scale));
                self.weights[base + j] = WeightAndOptimizerData {
                    weight: moved,
                    optimizer_data: data,
                };
                j += 1;
            }
            i += 1;
        }
    }

    /// Moves every attention weight.
    pub(crate) fn train_attention<F: Fn(Request) -> u32>(
        &mut self,
        leans: &Vec<u32>,
        gg: u32,
        unit: &F,
    )
        requires
            old(self).ready(),
            total(unit),
            leans@.len() == old(self).attention_weights_len,
        ensures
            final(self).alike(old(self)),
            final(self).ready(),
            final(self).weights@ == old(self).weights@,
            forall|c: int|
                0 <= c < old(self).attention_weights_len ==> rests(
                    (#[trigger] final(self).attention_weights@[c]).weight,
                    old(self).attention_snap_to_zero,
                ),
            functional(unit) ==> forall|c: int|
                0 <= c < old(self).attention_weights_len
                    ==> #[trigger] final(self).attention_weights@[c] == old(self).attention_step(
                    answer(unit),
                    old(self).attention_weights@[c],
                    gg,
                    leans@[c],
                ),
    {
        let cells = self.attention_weights_len as usize;
        let with_l2 = !equal(self.attention_l2, ZERO);
        let mut c: usize = 0;
        while c < cells
            invariant
                self.alike(old(self)),
                self.ready(),
                total(unit),
                self.weights@ == old(self).weights@,
                c <= cells,
                cells == self.attention_weights_len,
                leans@.len() == cells,
                with_l2 == !same(self.attention_l2, ZERO),
                forall|a: int|
                    c <= a < cells ==> #[trigger] self.attention_weights@[a]
                        == old(self).attention_weights@[a],
                forall|a: int|
                    0 <= a < c ==> rests(
                        (#[trigger] self.attention_weights@[a]).weight,
                        self.attention_snap_to_zero,
                    ),
                functional(unit) ==> forall|a: int|
                    0 <= a < c
                        ==> #[trigger] self.attention_weights@[a] == old(self).attention_step(
                        answer(unit),
                        old(self).attention_weights@[a],
                        gg,
                        leans@[a],
                    ),
            decreases cells - c,
        {
            let entry = self.attention_weights[c];
            let gradient = times(unit, gg, leans[c]);
            let mut data = entry.optimizer_data;
            let update_scale = self.optimizer_attention.calculate_update(gradient, &mut data, unit);
            let update = times(unit, gradient, update_scale);
            let shrunk = if with_l2 && !equal(gradient, ZERO) {
                minus(
                    unit,
                    entry.weight,
                    times(unit, entry.weight, times(unit, self.attention_l2, update_scale)),
                )
            } else {
                entry.weight
            };
            let moved = plus(unit, shrunk, update);
            self.attention_weights[c] = WeightAndOptimizerData {
                weight: settle(moved, self.attention_snap_to_zero),
                optimizer_data: data,
            };
            c += 1;
        }
    }
}

} // verus!

//! One example through the standalone regressor: the logit over the plain
//! features and over every pair of features of different fields, the link,
//! and the update of every weight that the logit touched.

use vstd::prelude::*;
use crate::arith::{
    answer, difference, exp_of, exponential, functional, minus, over, plus, power, product,
    quotient, raised, sum, times, total, Arithmetic, Request,
};
use crate::bits::{
    gt, greater, is_nan, less, lt, nan, negate, opposite, HALF, ONE, ZERO,
};
use crate::block_loss_functions::{LOGIT_CEILING, LOGIT_FLOOR};
use crate::feature_buffer::{FeatureBuffer, HashAndValue};
use crate::interaction::lemma_cell;
use crate::optimizer::{lut_key, FASTMATH_LR_LUT_SIZE};
use crate::regressor::{Regressor, Weight, BUF_LEN};

verus! {

/// A weight that the logit touched: where it stands, its accumulator when
/// the logit was taken, and the derivative of the logit by it.
#[derive(Clone, Copy, PartialEq, Eq, Structural, Debug)]
pub struct IndexAccgradientValue {
    pub index: u32,
    pub accgradient: u32,
    pub value: u32,
}

/// The number of features in the first `i` fields.
pub open spec fn features_upto(buffers: Seq<Vec<HashAndValue>>, i: nat) -> int
    decreases i,
{
    if i == 0 {
        0
    } else {
        features_upto(buffers, (i - 1) as nat) + buffers[i - 1]@.len()
    }
}

/// The number of pairs of features of different fields among the first `i`
/// fields: every feature of a field pairs with every feature of the fields
/// before it.
pub open spec fn pairs_upto(buffers: Seq<Vec<HashAndValue>>, i: nat) -> int
    decreases i,
{
    if i == 0 {
        0
    } else {
        pairs_upto(buffers, (i - 1) as nat) + features_upto(buffers, (i - 1) as nat) * buffers[i
            - 1]@.len()
    }
}

/// The counts of features and of pairs grow with the fields.
pub proof fn lemma_counts_grow(buffers: Seq<Vec<HashAndValue>>, i: nat, j: nat)
    requires
        i <= j,
    ensures
        0 <= features_upto(buffers, i) <= features_upto(buffers, j),
        0 <= pairs_upto(buffers, i) <= pairs_upto(buffers, j),
    decreases j,
{
    if i < j {
        lemma_counts_grow(buffers, i, (j - 1) as nat);
        lemma_counts_grow(buffers, 0, (j - 1) as nat);
        let seen = features_upto(buffers, (j - 1) as nat);
        let more = buffers[j - 1]@.len();
        assert(seen * more >= 0) by (nonlinear_arith)
            requires
                seen >= 0,
                more >= 0,
        ;
    } else if i > 0 {
        lemma_counts_grow(buffers, (i - 1) as nat, (i - 1) as nat);
        let seen = features_upto(buffers, (i - 1) as nat);
        let more = buffers[i - 1]@.len();
        assert(seen * more >= 0) by (nonlinear_arith)
            requires
                seen >= 0,
                more >= 0,
        ;
    }
}

/// The number of pairs of a feature of one of the first `i` fields with a
/// feature of a later field among the first `n`.
pub open spec fn left_pairs(buffers: Seq<Vec<HashAndValue>>, i: nat, n: nat) -> int
    decreases i,
{
    if i == 0 {
        0
    } else {
        left_pairs(buffers, (i - 1) as nat, n) + buffers[i - 1]@.len() * (features_upto(buffers, n)
            - features_upto(buffers, i))
    }
}

/// With one more field, every feature of the first `i` fields has the
/// features of that field as partners more.
proof fn lemma_left_pairs_with_one_more(buffers: Seq<Vec<HashAndValue>>, i: nat, n: nat)
    requires
        i <= n,
    ensures
        left_pairs(buffers, i, n + 1) == left_pairs(buffers, i, n) + features_upto(buffers, i)
            * buffers[n as int]@.len(),
    decreases i,
{
    if i > 0 {
        lemma_left_pairs_with_one_more(buffers, (i - 1) as nat, n);
        let here = buffers[i - 1]@.len() as int;
        let more = buffers[n as int]@.len() as int;
        let before = features_upto(buffers, (i - 1) as nat);
        let all = features_upto(buffers, n);
        let upto = features_upto(buffers, i);
        assert(here * (all + more - upto) + before * more == here * (all - upto) + (before + here)
            * more) by (nonlinear_arith);
    } else {
        assert(0 * buffers[n as int]@.len() == 0) by (nonlinear_arith);
    }
}

/// Counted from the left feature or from the right, the pairs of features
/// of different fields are the same.
pub proof fn lemma_left_pairs_are_all_pairs(buffers: Seq<Vec<HashAndValue>>, n: nat)
    ensures
        left_pairs(buffers, n, n) == pairs_upto(buffers, n),
    decreases n,
{
    if n > 0 {
        lemma_left_pairs_are_all_pairs(buffers, (n - 1) as nat);
        lemma_left_pairs_with_one_more(buffers, (n - 1) as nat, (n - 1) as nat);
        let here = buffers[n - 1]@.len() as int;
        assert(here * (features_upto(buffers, n) - features_upto(buffers, n)) == 0)
            by (nonlinear_arith);
    }
}

/// `1 / (1 + e^t)`
pub open spec fn reciprocal_link(f: Arithmetic, t: u32) -> u32 {
    quotient(f, ONE, sum(f, ONE, exponential(f, t)))
}

/// The probability for the negated logit `t`: one half for NaN, else the link
/// of `t` clipped to `[-50, 50]`.
pub open spec fn linked(f: Arithmetic, t: u32) -> u32 {
    if nan(t) {
        HALF
    } else if lt(t, LOGIT_FLOOR) {
        reciprocal_link(f, LOGIT_FLOOR)
    } else if gt(t, LOGIT_CEILING) {
        reciprocal_link(f, LOGIT_CEILING)
    } else {
        reciprocal_link(f, t)
    }
}

/// The negated logit is a number inside `[-50, 50]`: the example can teach.
pub open spec fn teachable(t: u32) -> bool {
    !nan(t) && !lt(t, LOGIT_FLOOR) && !gt(t, LOGIT_CEILING)
}

/// The probability for the negated logit `t`.  The exponential is only ever
/// asked of a number in `[-50, 50]`.
pub fn link<F: Fn(Request) -> u32>(t: u32, unit: &F) -> (p: u32)
    requires
        total(unit),
    ensures
        nan(t) ==> p == HALF,
        functional(unit) ==> p == linked(answer(unit), t),
{
    if is_nan(t) {
        HALF
    } else if less(t, LOGIT_FLOOR) {
        over(unit, ONE, plus(unit, ONE, exp_of(unit, LOGIT_FLOOR)))
    } else if greater(t, LOGIT_CEILING) {
        over(unit, ONE, plus(unit, ONE, exp_of(unit, LOGIT_CEILING)))
    } else {
        over(unit, ONE, plus(unit, ONE, exp_of(unit, t)))
    }
}

impl Regressor {
    /// The two regressors differ in their weights at most.
    pub open spec fn alike(&self, other: &Self) -> bool {
        &&& self.hash_mask == other.hash_mask
        &&& self.learning_rate == other.learning_rate
        &&& self.minus_power_t == other.minus_power_t
        &&& self.ffm_weights_offset == other.ffm_weights_offset
        &&& self.ffm_k == other.ffm_k
        &&& self.ffm_hashmask == other.ffm_hashmask
        &&& self.ffm_one_over_k_root == other.ffm_one_over_k_root
        &&& self.ffm_separate_vectors_k == other.ffm_separate_vectors_k
        &&& self.fastmath == other.fastmath
        &&& self.fastmath_lr_lut@ == other.fastmath_lr_lut@
        &&& self.ffm_iw_weights_offset == other.ffm_iw_weights_offset
        &&& self.weights@.len() == other.weights@.len()
    }

    /// The index of the plain weight of a hash.
    pub open spec fn plain_index(&self, hash: u32) -> int {
        (hash & self.hash_mask) as int
    }

    /// The index of the first embedding weight of a hash toward `field`.
    pub open spec fn embedding_base(&self, hash: u32, field: int) -> int {
        let shifted = ((hash + field * self.ffm_separate_vectors_k) % 0x1_0000_0000) as u32;
        self.ffm_weights_offset + (shifted & self.ffm_hashmask)
    }

    /// The derived features of an example, which are the weights that its
    /// logit touches: one for every plain feature and, for every pair of
    /// features of different fields, two in every dimension.
    pub open spec fn derived(&self, fb: FeatureBuffer) -> int {
        fb.lr_buffer@.len() + 2 * self.ffm_k * pairs_upto(
            fb.ffm_buffers@,
            fb.ffm_buffers@.len(),
        )
    }

    /// The example is one that this regressor can take: its derived features
    /// fit the buffer, its fields can be numbered, and the embedding weights
    /// that its pairs of features reach lie inside the store.
    pub open spec fn holds(&self, fb: FeatureBuffer) -> bool {
        &&& self.derived(fb) <= BUF_LEN
        &&& fb.ffm_buffers@.len() <= u32::MAX
        &&& self.ffm_k > 0 ==> forall|i: int, a: int, j: int|
            #![trigger fb.ffm_buffers@[i]@[a], fb.ffm_buffers@[j]]
            0 <= i < j < fb.ffm_buffers@.len() && 0 <= a < fb.ffm_buffers@[i]@.len()
                ==> self.embedding_base(fb.ffm_buffers@[i]@[a].hash, j) + fb.ffm_buffers@[j]@.len()
                * self.ffm_k <= self.weights@.len()
    }

    /// The logit and the touched weights after the first `n` plain features.
    pub open spec fn plain(&self, f: Arithmetic, fb: FeatureBuffer, n: nat) -> (
        u32,
        Seq<IndexAccgradientValue>,
    )
        decreases n,
    {
        if n == 0 {
            (ZERO, Seq::empty())
        } else {
            let before = self.plain(f, fb, (n - 1) as nat);
            let feature = fb.lr_buffer@[n - 1];
            let index = self.plain_index(feature.hash);
            let weight = self.weights@[index];
            (
                sum(f, before.0, product(f, weight.weight, feature.value)),
                before.1.push(
                    IndexAccgradientValue {
                        index: index as u32,
                        accgradient: weight.acc_grad,
                        value: feature.value,
                    },
                ),
            )
        }
    }

    /// The logit and the touched weights after the plain features and the
    /// pairs of features before pair `(i, a)` with `(j, m)` in dimension
    /// `kk`.  The pairs come in the order of the left field `i`, its feature
    /// `a`, the right field `j > i`, its feature `m`, and the dimension.  The
    /// left feature reads its embedding toward field `j` one width further on
    /// with every feature of that field; the right feature reads its
    /// embedding toward field `i`.
    pub open spec fn crossed(
        &self,
        f: Arithmetic,
        fb: FeatureBuffer,
        i: nat,
        a: nat,
        j: nat,
        m: nat,
        kk: nat,
    ) -> (u32, Seq<IndexAccgradientValue>)
        decreases i, a, j, m, kk,
    {
        let buffers = fb.ffm_buffers@;
        if kk > 0 {
            let before = self.crossed(f, fb, i, a, j, m, (kk - 1) as nat);
            let left = buffers[i as int]@[a as int];
            let right = buffers[j as int]@[m as int];
            let left_at = self.embedding_base(left.hash, j as int) + m * self.ffm_k + kk - 1;
            let right_at = self.embedding_base(right.hash, i as int) + kk - 1;
            let left_weight = self.weights@[left_at];
            let right_weight = self.weights@[right_at];
            let joint_value = product(f, left.value, right.value);
            let right_half_part = product(f, right_weight.weight, joint_value);
            (
                sum(f, before.0, product(f, left_weight.weight, right_half_part)),
                before.1.push(
                    IndexAccgradientValue {
                        index: left_at as u32,
                        accgradient: left_weight.acc_grad,
                        value: right_half_part,
                    },
                ).push(
                    IndexAccgradientValue {
                        index: right_at as u32,
                        accgradient: right_weight.acc_grad,
                        value: product(f, joint_value, left_weight.weight),
                    },
                ),
            )
        } else if m > 0 {
            self.crossed(f, fb, i, a, j, (m - 1) as nat, self.ffm_k as nat)
        } else if j > i + 1 {
            self.crossed(f, fb, i, a, (j - 1) as nat, buffers[j - 1]@.len(), 0)
        } else if a > 0 {
            self.crossed(f, fb, i, (a - 1) as nat, buffers.len(), 0, 0)
        } else if i > 0 {
            self.crossed(f, fb, (i - 1) as nat, buffers[i - 1]@.len(), i, 0, 0)
        } else {
            self.plain(f, fb, fb.lr_buffer@.len())
        }
    }

    /// The logit of an example and the weights that it touched.
    pub open spec fn taken(&self, f: Arithmetic, fb: FeatureBuffer) -> (
        u32,
        Seq<IndexAccgradientValue>,
    ) {
        if self.ffm_k > 0 {
            self.crossed(f, fb, fb.ffm_buffers@.len(), 0, fb.ffm_buffers@.len() + 1, 0, 0)
        } else {
            self.plain(f, fb, fb.lr_buffer@.len())
        }
    }

    /// The probability that the regressor gives an example.
    pub open spec fn probability(&self, f: Arithmetic, fb: FeatureBuffer) -> u32 {
        linked(f, opposite(self.taken(f, fb).0))
    }

    /// The rate of a weight whose accumulator has reached `total`.
    pub open spec fn rate(&self, f: Arithmetic, total: u32) -> u32 {
        if self.fastmath {
            self.fastmath_lr_lut@[lut_key(total)]
        } else {
            product(f, self.learning_rate, power(f, total, self.minus_power_t))
        }
    }

    /// The store after the updates for the first `t` touched weights, for
    /// the loss gradient `gg`.  The accumulator in the store takes every
    /// squared gradient in; the rate of a step goes by the accumulator that
    /// was noted when the logit was taken, plus the squared gradient of the
    /// step.
    pub open spec fn updated(
        &self,
        f: Arithmetic,
        notes: Seq<IndexAccgradientValue>,
        gg: u32,
        t: nat,
    ) -> Seq<Weight>
        decreases t,
    {
        if t == 0 {
            self.weights@
        } else {
            let before = self.updated(f, notes, gg, (t - 1) as nat);
            let note = notes[t - 1];
            let gradient = product(f, gg, note.value);
            let gradient_squared = product(f, gradient, gradient);
            let rate = self.rate(f, sum(f, note.accgradient, gradient_squared));
            let old = before[note.index as int];
            before.update(
                note.index as int,
                Weight {
                    weight: sum(f, old.weight, product(f, gradient, rate)),
                    acc_grad: sum(f, old.acc_grad, gradient_squared),
                },
            )
        }
    }

    /// The store after an example.
    pub open spec fn learned(&self, f: Arithmetic, fb: FeatureBuffer, update: bool) -> Seq<Weight> {
        let taken = self.taken(f, fb);
        if update && teachable(opposite(taken.0)) {
            self.updated(
                f,
                taken.1,
                difference(f, fb.label, reciprocal_link(f, opposite(taken.0))),
                taken.1.len(),
            )
        } else {
            self.weights@
        }
    }

    /// The first embedding weight of a hash toward `field`.
    fn embedding_base_of(&self, hash: u32, field: usize) -> (base: usize)
        requires
            self.wf(),
            self.ffm_k > 0,
            field <= u32::MAX,
        ensures
            base == self.embedding_base(hash, field as int),
            base + self.ffm_k <= self.weights@.len(),
    {
        let separate = self.ffm_separate_vectors_k as u64;
        assert((field as u64) * separate <= 0xffff_ffff * 0xffff_ffff && (field as u64) * separate
            == field * self.ffm_separate_vectors_k) by (nonlinear_arith)
            requires
                field <= 0xffff_ffff,
                separate <= 0xffff_ffff,
                separate == self.ffm_separate_vectors_k,
        ;
        let shifted: u32 = ((hash as u64 + (field as u64) * separate) % 0x1_0000_0000) as u32;
        let mask = self.ffm_hashmask;
        assert(shifted & mask <= mask) by (bit_vector);
        self.ffm_weights_offset as usize + (shifted & mask) as usize
    }

    /// The logit and the touched weights of the plain features.
    fn take_plain<F: Fn(Request) -> u32>(&self, fb: &FeatureBuffer, unit: &F) -> (r: (
        u32,
        Vec<IndexAccgradientValue>,
    ))
        requires
            self.wf(),
            total(unit),
        ensures
            r.1@.len() == fb.lr_buffer@.len(),
            forall|t: int| 0 <= t < r.1@.len() ==> (#[trigger] r.1@[t]).index < self.weights@.len(),
            functional(unit) ==> (r.0, r.1@) == self.plain(
                answer(unit),
                *fb,
                fb.lr_buffer@.len(),
            ),
    {
        let n = fb.lr_buffer.len();
        let mut wsum: u32 = ZERO;
        let mut local_data: Vec<IndexAccgradientValue> = Vec::new();
        let mask = self.hash_mask;
        let mut i: usize = 0;
        while i < n
            invariant
                self.wf(),
                total(unit),
                i <= n,
                n == fb.lr_buffer@.len(),
                mask == self.hash_mask,
                local_data@.len() == i,
                forall|t: int|
                    0 <= t < i ==> (#[trigger] local_data@[t]).index < self.weights@.len(),
                functional(unit) ==> (wsum, local_data@) == self.plain(answer(unit), *fb, i as nat),
            decreases n - i,
        {
            let feature = fb.lr_buffer[i];
            let hash = feature.hash;
            assert(hash & mask <= mask) by (bit_vector);
            let feature_index = hash & mask;
            let weight = self.weights[feature_index as usize];
            wsum = plus(unit, wsum, times(unit, weight.weight, feature.value));
            local_data.push(
                IndexAccgradientValue {
                    index: feature_index,
                    accgradient: weight.acc_grad,
                    value: feature.value,
                },
            );
            i += 1;
        }
        (wsum, local_data)
    }
}

impl Regressor {
    /// Every touched weight noted lies inside the store.
    pub open spec fn inside(&self, notes: Seq<IndexAccgradientValue>) -> bool {
        forall|t: int| 0 <= t < notes.len() ==> (#[trigger] notes[t]).index < self.weights@.len()
    }

    /// The pair of feature `a` of field `i` with feature `m` of field `j`,
    /// in every dimension.
    fn cross_pair<F: Fn(Request) -> u32>(
        &self,
        fb: &FeatureBuffer,
        i: usize,
        a: usize,
        j: usize,
        m: usize,
        left_base: usize,
        wsum: &mut u32,
        local_data: &mut Vec<IndexAccgradientValue>,
        unit: &F,
    )
        requires
            self.wf(),
            self.holds(*fb),
            self.ffm_k > 0,
            total(unit),
            i < j < fb.ffm_buffers@.len(),
            a < fb.ffm_buffers@[i as int]@.len(),
            m < fb.ffm_buffers@[j as int]@.len(),
            left_base == self.embedding_base(fb.ffm_buffers@[i as int]@[a as int].hash, j as int),
            self.inside(old(local_data)@),
            functional(unit) ==> (*old(wsum), old(local_data)@) == self.crossed(
                answer(unit),
                *fb,
                i as nat,
                a as nat,
                j as nat,
                m as nat,
                0,
            ),
        ensures
            self.inside(final(local_data)@),
            final(local_data)@.len() == old(local_data)@.len() + 2 * self.ffm_k,
            functional(unit) ==> (*final(wsum), final(local_data)@) == self.crossed(
                answer(unit),
                *fb,
                i as nat,
                a as nat,
                j as nat,
                (m + 1) as nat,
                0,
            ),
    {
        let dims = self.ffm_k as usize;
        let left = fb.ffm_buffers[i][a];
        let right = fb.ffm_buffers[j][m];
        let right_base = self.embedding_base_of(right.hash, i);
        proof {
            lemma_cell(m as int, 0, dims as int, fb.ffm_buffers@[j as int]@.len() as int);
        }
        let left_start = left_base + m * dims;
        let joint_value = times(unit, left.value, right.value);
        let mut kk: usize = 0;
        while kk < dims
            invariant
                self.wf(),
                self.ffm_k > 0,
                total(unit),
                kk <= dims,
                dims == self.ffm_k,
                i < j < fb.ffm_buffers@.len(),
                a < fb.ffm_buffers@[i as int]@.len(),
                m < fb.ffm_buffers@[j as int]@.len(),
                left == fb.ffm_buffers@[i as int]@[a as int],
                right == fb.ffm_buffers@[j as int]@[m as int],
                left_base == self.embedding_base(left.hash, j as int),
                left_start == left_base + m * dims,
                left_start + dims <= self.weights@.len(),
                right_base == self.embedding_base(right.hash, i as int),
                right_base + dims <= self.weights@.len(),
                functional(unit) ==> joint_value == product(answer(unit), left.value, right.value),
                self.inside(local_data@),
                local_data@.len() == old(local_data)@.len() + 2 * kk,
                functional(unit) ==> (*wsum, local_data@) == self.crossed(
                    answer(unit),
                    *fb,
                    i as nat,
                    a as nat,
                    j as nat,
                    m as nat,
                    kk as nat,
                ),
            decreases dims - kk,
        {
            let left_weight_p = left_start + kk;
            let right_weight_p = right_base + kk;
            let left_weight = self.weights[left_weight_p];
            let right_weight = self.weights[right_weight_p];
            let right_half_part = times(unit, right_weight.weight, joint_value);
            local_data.push(
                IndexAccgradientValue {
                    index: left_weight_p as u32,
                    accgradient: left_weight.acc_grad,
                    value: right_half_part,
                },
            );
            local_data.push(
                IndexAccgradientValue {
                    index: right_weight_p as u32,
                    accgradient: right_weight.acc_grad,
                    value: times(unit, joint_value, left_weight.weight),
                },
            );
            *wsum = plus(unit, *wsum, times(unit, left_weight.weight, right_half_part));
            kk += 1;
        }
    }

    /// The pairs of feature `a` of field `i` with every feature of the
    /// fields after `i`.
    fn cross_feature<F: Fn(Request) -> u32>(
        &self,
        fb: &FeatureBuffer,
        i: usize,
        a: usize,
        wsum: &mut u32,
        local_data: &mut Vec<IndexAccgradientValue>,
        unit: &F,
    )
        requires
            self.wf(),
            self.holds(*fb),
            self.ffm_k > 0,
            total(unit),
            i < fb.ffm_buffers@.len(),
            a < fb.ffm_buffers@[i as int]@.len(),
            self.inside(old(local_data)@),
            functional(unit) ==> (*old(wsum), old(local_data)@) == self.crossed(
                answer(unit),
                *fb,
                i as nat,
                a as nat,
                (i + 1) as nat,
                0,
                0,
            ),
        ensures
            self.inside(final(local_data)@),
            final(local_data)@.len() == old(local_data)@.len() + 2 * self.ffm_k * (features_upto(
                fb.ffm_buffers@,
                fb.ffm_buffers@.len(),
            ) - features_upto(fb.ffm_buffers@, (i + 1) as nat)),
            functional(unit) ==> (*final(wsum), final(local_data)@) == self.crossed(
                answer(unit),
                *fb,
                i as nat,
                (a + 1) as nat,
                (i + 1) as nat,
                0,
                0,
            ),
    {
        let fields = fb.ffm_buffers.len();
        let left = fb.ffm_buffers[i][a];
        let ghost start = local_data@.len() as int;
        let ghost from = features_upto(fb.ffm_buffers@, (i + 1) as nat);
        let mut j: usize = i + 1;
        assert(2 * self.ffm_k * (from - from) == 0) by (nonlinear_arith);
        while j < fields
            invariant
                self.wf(),
                self.holds(*fb),
                self.ffm_k > 0,
                total(unit),
                i < j <= fields,
                fields == fb.ffm_buffers@.len(),
                a < fb.ffm_buffers@[i as int]@.len(),
                left == fb.ffm_buffers@[i as int]@[a as int],
                start == old(local_data)@.len(),
                from == features_upto(fb.ffm_buffers@, (i + 1) as nat),
                local_data@.len() == start + 2 * self.ffm_k * (features_upto(
                    fb.ffm_buffers@,
                    j as nat,
                ) - from),
                self.inside(local_data@),
                functional(unit) ==> (*wsum, local_data@) == self.crossed(
                    answer(unit),
                    *fb,
                    i as nat,
                    a as nat,
                    j as nat,
                    0,
                    0,
                ),
            decreases fields - j,
        {
            let left_base = self.embedding_base_of(left.hash, j);
            let others = fb.ffm_buffers[j].len();
            let ghost here = local_data@.len() as int;
            let ghost upto = features_upto(fb.ffm_buffers@, j as nat);
            let mut m: usize = 0;
            assert(2 * self.ffm_k * 0 == 0) by (nonlinear_arith);
            while m < others
                invariant
                    local_data@.len() == here + 2 * self.ffm_k * m,
                    self.wf(),
                    self.holds(*fb),
                    self.ffm_k > 0,
                    total(unit),
                    i < j < fields,
                    fields == fb.ffm_buffers@.len(),
                    a < fb.ffm_buffers@[i as int]@.len(),
                    left == fb.ffm_buffers@[i as int]@[a as int],
                    left_base == self.embedding_base(left.hash, j as int),
                    m <= others,
                    others == fb.ffm_buffers@[j as int]@.len(),
                    self.inside(local_data@),
                    functional(unit) ==> (*wsum, local_data@) == self.crossed(
                        answer(unit),
                        *fb,
                        i as nat,
                        a as nat,
                        j as nat,
                        m as nat,
                        0,
                    ),
                decreases others - m,
            {
                self.cross_pair(fb, i, a, j, m, left_base, wsum, local_data, unit);
                assert(2 * self.ffm_k * m + 2 * self.ffm_k == 2 * self.ffm_k * (m + 1))
                    by (nonlinear_arith);
                m += 1;
            }
            assert(2 * self.ffm_k * (upto - from) + 2 * self.ffm_k * others == 2 * self.ffm_k * (
            upto + others - from)) by (nonlinear_arith);
            j += 1;
        }
    }

    /// The logit of the example and the weights that it touched.
    pub fn take<F: Fn(Request) -> u32>(&self, fb: &FeatureBuffer, unit: &F) -> (r: (
        u32,
        Vec<IndexAccgradientValue>,
    ))
        requires
            self.wf(),
            self.holds(*fb),
            total(unit),
        ensures
            self.inside(r.1@),
            r.1@.len() == self.derived(*fb),
            functional(unit) ==> (r.0, r.1@) == self.taken(answer(unit), *fb),
    {
        let (mut wsum, mut local_data) = self.take_plain(fb, unit);
        let ghost buffers = fb.ffm_buffers@;
        let ghost plain = fb.lr_buffer@.len() as int;
        let ghost all = features_upto(buffers, buffers.len());
        if self.ffm_k > 0 {
            let fields = fb.ffm_buffers.len();
            let mut i: usize = 0;
            assert(2 * self.ffm_k * 0 == 0) by (nonlinear_arith);
            while i < fields
                invariant
                    buffers == fb.ffm_buffers@,
                    plain == fb.lr_buffer@.len(),
                    all == features_upto(buffers, buffers.len()),
                    local_data@.len() == plain + 2 * self.ffm_k * left_pairs(
                        buffers,
                        i as nat,
                        buffers.len(),
                    ),
                    self.wf(),
                    self.holds(*fb),
                    self.ffm_k > 0,
                    total(unit),
                    i <= fields,
                    fields == fb.ffm_buffers@.len(),
                    self.inside(local_data@),
                    functional(unit) ==> (wsum, local_data@) == self.crossed(
                        answer(unit),
                        *fb,
                        i as nat,
                        0,
                        (i + 1) as nat,
                        0,
                        0,
                    ),
                decreases fields - i,
            {
                let features = fb.ffm_buffers[i].len();
                let ghost start = local_data@.len() as int;
                let ghost partners = all - features_upto(buffers, (i + 1) as nat);
                let mut a: usize = 0;
                assert(0 * (2 * self.ffm_k * partners) == 0) by (nonlinear_arith);
                while a < features
                    invariant
                        buffers == fb.ffm_buffers@,
                        all == features_upto(buffers, buffers.len()),
                        partners == all - features_upto(buffers, (i + 1) as nat),
                        local_data@.len() == start + a * (2 * self.ffm_k * partners),
                        self.wf(),
                        self.holds(*fb),
                        self.ffm_k > 0,
                        total(unit),
                        i < fields,
                        fields == fb.ffm_buffers@.len(),
                        a <= features,
                        features == fb.ffm_buffers@[i as int]@.len(),
                        self.inside(local_data@),
                        functional(unit) ==> (wsum, local_data@) == self.crossed(
                            answer(unit),
                            *fb,
                            i as nat,
                            a as nat,
                            (i + 1) as nat,
                            0,
                            0,
                        ),
                    decreases features - a,
                {
                    self.cross_feature(fb, i, a, &mut wsum, &mut local_data, unit);
                    assert(a * (2 * self.ffm_k * partners) + 2 * self.ffm_k * partners == (a + 1)
                        * (2 * self.ffm_k * partners)) by (nonlinear_arith);
                    a += 1;
                }
                assert(2 * self.ffm_k * left_pairs(buffers, i as nat, buffers.len()) + features * (2
                    * self.ffm_k * partners) == 2 * self.ffm_k * (left_pairs(
                    buffers,
                    i as nat,
                    buffers.len(),
                ) + features * partners)) by (nonlinear_arith);
                i += 1;
            }
            proof {
                lemma_left_pairs_are_all_pairs(buffers, buffers.len());
            }
        } else {
            assert(2 * self.ffm_k * pairs_upto(buffers, buffers.len()) == 0) by (nonlinear_arith)
                requires
                    self.ffm_k == 0,
            ;
        }
        (wsum, local_data)
    }
}

impl Regressor {
    /// Scores the example and, where `update` is set and the logit is a
    /// number inside `[-50, 50]`, moves every weight that the logit touched.
    /// A logit that is NaN gives the probability one half; one outside
    /// `[-50, 50]` is clipped.
    pub fn learn<F: Fn(Request) -> u32>(
        &mut self,
        fb: &FeatureBuffer,
        update: bool,
        example_num: u32,
        unit: &F,
    ) -> (p: u32)
        requires
            old(self).wf(),
            old(self).holds(*fb),
            total(unit),
        ensures
            final(self).wf(),
            final(self).alike(old(self)),
            final(self).holds(*fb),
            !update ==> final(self).weights@ == old(self).weights@,
            functional(unit) ==> p == old(self).probability(answer(unit), *fb),
            functional(unit) ==> final(self).weights@ == old(self).learned(
                answer(unit),
                *fb,
                update,
            ),
    {
        let (wsum, local_data) = self.take(fb, unit);
        let prediction = negate(wsum);
        if is_nan(prediction) {
            return HALF;
        } else if less(prediction, LOGIT_FLOOR) {
            return over(unit, ONE, plus(unit, ONE, exp_of(unit, LOGIT_FLOOR)));
        } else if greater(prediction, LOGIT_CEILING) {
            return over(unit, ONE, plus(unit, ONE, exp_of(unit, LOGIT_CEILING)));
        }
        let prediction_probability = over(unit, ONE, plus(unit, ONE, exp_of(unit, prediction)));
        if update {
            let general_gradient = minus(unit, fb.label, prediction_probability);
            let n = local_data.len();
            let mut t: usize = 0;
            while t < n
                invariant
                    self.wf(),
                    self.alike(old(self)),
                    total(unit),
                    t <= n,
                    n == local_data@.len(),
                    old(self).inside(local_data@),
                    functional(unit) ==> self.weights@ == old(self).updated(
                        answer(unit),
                        local_data@,
                        general_gradient,
                        t as nat,
                    ),
                decreases n - t,
            {
                let note = local_data[t];
                let feature_index = note.index as usize;
                let gradient = times(unit, general_gradient, note.value);
                let gradient_squared = times(unit, gradient, gradient);
                let stored = self.weights[feature_index];
                let total_gradient = plus(unit, note.accgradient, gradient_squared);
                let step = if self.fastmath {
                    self.fastmath_calculate_update(gradient, total_gradient, unit)
                } else {
                    let learning_rate = times(
                        unit,
                        self.learning_rate,
                        raised(unit, total_gradient, self.minus_power_t),
                    );
                    times(unit, gradient, learning_rate)
                };
                self.weights[feature_index] = Weight {
                    weight: plus(unit, stored.weight, step),
                    acc_grad: plus(unit, stored.acc_grad, gradient_squared),
                };
                t += 1;
            }
        }
        prediction_probability
    }
}

impl Regressor {
    /// The number of derived features of the example, counted as far as one
    /// more than the buffer holds.
    pub fn derived_features(&self, fb: &FeatureBuffer) -> (n: usize)
        ensures
            n == (if self.derived(*fb) <= BUF_LEN {
                self.derived(*fb)
            } else {
                BUF_LEN + 1
            }),
    {
        let cap: usize = BUF_LEN + 1;
        let plain = fb.lr_buffer.len();
        let fields = fb.ffm_buffers.len();
        let dims = self.ffm_k as usize;
        proof {
            lemma_counts_grow(fb.ffm_buffers@, 0, fields as nat);
            let pairs = pairs_upto(fb.ffm_buffers@, fields as nat);
            assert(2 * self.ffm_k * pairs >= 0) by (nonlinear_arith)
                requires
                    self.ffm_k >= 0,
                    pairs >= 0,
            ;
            assert(self.ffm_k == 0 ==> 2 * self.ffm_k * pairs == 0) by (nonlinear_arith);
        }
        if plain > BUF_LEN {
            return cap;
        }
        if self.ffm_k == 0 {
            return plain;
        }
        let mut seen: usize = 0;
        let mut pairs: usize = 0;
        let mut j: usize = 0;
        while j < fields
            invariant
                j <= fields,
                fields == fb.ffm_buffers@.len(),
                cap == BUF_LEN + 1,
                self.ffm_k > 0,
                seen == (if features_upto(fb.ffm_buffers@, j as nat) < cap {
                    features_upto(fb.ffm_buffers@, j as nat)
                } else {
                    cap as int
                }),
                pairs == pairs_upto(fb.ffm_buffers@, j as nat),
                pairs <= BUF_LEN,
            decreases fields - j,
        {
            let more = fb.ffm_buffers[j].len();
            proof {
                lemma_counts_grow(fb.ffm_buffers@, 0, j as nat);
                lemma_counts_grow(fb.ffm_buffers@, (j + 1) as nat, fields as nat);
            }
            let ghost before = features_upto(fb.ffm_buffers@, j as nat);
            let ghost all = pairs_upto(fb.ffm_buffers@, fields as nat);
            if seen > 0 && more > 0 {
                if seen >= cap || more >= cap {
                    proof {
                        assert(before * more >= cap) by (nonlinear_arith)
                            requires
                                before >= 1,
                                more >= 1,
                                before >= cap || more >= cap,
                        ;
                        assert(2 * self.ffm_k * all >= cap) by (nonlinear_arith)
                            requires
                                self.ffm_k >= 1,
                                all >= cap,
                        ;
                    }
                    return cap;
                }
                assert(seen * more <= BUF_LEN * BUF_LEN) by (nonlinear_arith)
                    requires
                        seen <= BUF_LEN,
                        more <= BUF_LEN,
                ;
                let joined = seen * more;
                if pairs + joined > BUF_LEN {
                    proof {
                        assert(2 * self.ffm_k * all >= cap) by (nonlinear_arith)
                            requires
                                self.ffm_k >= 1,
                                all >= cap,
                        ;
                    }
                    return cap;
                }
                pairs = pairs + joined;
            } else {
                assert(before * more == 0) by (nonlinear_arith)
                    requires
                        before == 0 || more == 0,
                ;
            }
            seen = if more >= cap || seen + more >= cap {
                cap
            } else {
                seen + more
            };
            j += 1;
        }
        if pairs == 0 {
            assert(2 * self.ffm_k * 0 == 0) by (nonlinear_arith);
            return plain;
        }
        if dims > BUF_LEN {
            assert(2 * self.ffm_k * pairs > BUF_LEN) by (nonlinear_arith)
                requires
                    self.ffm_k > BUF_LEN,
                    pairs >= 1,
            ;
            return cap;
        }
        assert(2 * dims * pairs <= 2 * BUF_LEN * BUF_LEN && 2 * dims * pairs == 2 * self.ffm_k
            * pairs) by (nonlinear_arith)
            requires
                dims <= BUF_LEN,
                pairs <= BUF_LEN,
                dims == self.ffm_k,
        ;
        let derived = plain + 2 * dims * pairs;
        if derived > BUF_LEN {
            cap
        } else {
            derived
        }
    }

    /// Tells whether the regressor is well formed.
    pub fn is_wf(&self) -> (r: bool)
        ensures
            r == self.wf(),
    {
        self.fastmath_lr_lut.len() == FASTMATH_LR_LUT_SIZE && (self.hash_mask as u64)
            < self.weights.len() as u64 && self.weights.len() as u64 <= 0xffff_ffff && (self.ffm_k
            == 0 || self.ffm_weights_offset as u64 + self.ffm_hashmask as u64 + self.ffm_k as u64
            <= self.weights.len() as u64)
    }

    /// Tells whether the regressor can take the example.
    pub fn can_learn(&self, fb: &FeatureBuffer) -> (r: bool)
        requires
            self.wf(),
        ensures
            r == self.holds(*fb),
    {
        if self.derived_features(fb) > BUF_LEN || fb.ffm_buffers.len() > 0xffff_ffff {
            return false;
        }
        if self.ffm_k == 0 {
            return true;
        }
        let fields = fb.ffm_buffers.len();
        let store = self.weights.len() as u128;
        let dims = self.ffm_k as u128;
        let mut i: usize = 0;
        while i < fields
            invariant
                self.wf(),
                self.ffm_k > 0,
                i <= fields,
                fields == fb.ffm_buffers@.len(),
                fields <= u32::MAX,
                store == self.weights@.len(),
                dims == self.ffm_k,
                forall|i2: int, a2: int, j2: int|
                    #![trigger fb.ffm_buffers@[i2]@[a2], fb.ffm_buffers@[j2]]
                    0 <= i2 < i && i2 < j2 < fields && 0 <= a2 < fb.ffm_buffers@[i2]@.len()
                        ==> self.embedding_base(fb.ffm_buffers@[i2]@[a2].hash, j2)
                        + fb.ffm_buffers@[j2]@.len() * self.ffm_k <= self.weights@.len(),
            decreases fields - i,
        {
            let features = fb.ffm_buffers[i].len();
            let mut a: usize = 0;
            while a < features
                invariant
                    self.wf(),
                    self.ffm_k > 0,
                    i < fields,
                    fields == fb.ffm_buffers@.len(),
                    fields <= u32::MAX,
                    store == self.weights@.len(),
                    dims == self.ffm_k,
                    a <= features,
                    features == fb.ffm_buffers@[i as int]@.len(),
                    forall|i2: int, a2: int, j2: int|
                        #![trigger fb.ffm_buffers@[i2]@[a2], fb.ffm_buffers@[j2]]
                        0 <= i2 < i && i2 < j2 < fields && 0 <= a2 < fb.ffm_buffers@[i2]@.len()
                            ==> self.embedding_base(fb.ffm_buffers@[i2]@[a2].hash, j2)
                            + fb.ffm_buffers@[j2]@.len() * self.ffm_k <= self.weights@.len(),
                    forall|a2: int, j2: int|
                        #![trigger fb.ffm_buffers@[i as int]@[a2], fb.ffm_buffers@[j2]]
                        0 <= a2 < a && i < j2 < fields ==> self.embedding_base(
                            fb.ffm_buffers@[i as int]@[a2].hash,
                            j2,
                        ) + fb.ffm_buffers@[j2]@.len() * self.ffm_k <= self.weights@.len(),
                decreases features - a,
            {
                let hash = fb.ffm_buffers[i][a].hash;
                let mut j: usize = i + 1;
                while j < fields
                    invariant
                        self.wf(),
                        self.ffm_k > 0,
                        i < j <= fields,
                        fields == fb.ffm_buffers@.len(),
                        fields <= u32::MAX,
                        store == self.weights@.len(),
                        dims == self.ffm_k,
                        a < fb.ffm_buffers@[i as int]@.len(),
                        hash == fb.ffm_buffers@[i as int]@[a as int].hash,
                        forall|j2: int|
                            i < j2 < j ==> self.embedding_base(hash, j2) + (
                            #[trigger] fb.ffm_buffers@[j2])@.len() * self.ffm_k
                                <= self.weights@.len(),
                    decreases fields - j,
                {
                    let base = self.embedding_base_of(hash, j) as u128;
                    let others = fb.ffm_buffers[j].len() as u128;
                    assert(others * dims <= 0xffff_ffff_ffff_ffff * 0xffff_ffff && others * dims
                        == fb.ffm_buffers@[j as int]@.len() * self.ffm_k) by (nonlinear_arith)
                        requires
                            others <= 0xffff_ffff_ffff_ffff,
                            dims <= 0xffff_ffff,
                            others == fb.ffm_buffers@[j as int]@.len(),
                            dims == self.ffm_k,
                    ;
                    if base + others * dims > store {
                        let ghost witness = fb.ffm_buffers@[i as int]@[a as int];
                        let ghost other = fb.ffm_buffers@[j as int];
                        return false;
                    }
                    j += 1;
                }
                a += 1;
            }
            i += 1;
        }
        true
    }
}

} // verus!

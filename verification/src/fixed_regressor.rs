//! The standalone regressor frozen for inference: the weights shared, the
//! update rule gone.

use vstd::prelude::*;
use crate::arith::{answer, functional, plus, product, sum, times, total, Arithmetic, Request};
use crate::bits::{negate, opposite, ONE, ZERO};
use crate::feature_buffer::FeatureBuffer;
use crate::regressor::{Regressor, Weight};
use crate::regressor_learn::{link, linked};
use crate::shared::{borrow_held, held, share};

verus! {

#[derive(Clone)]
pub struct FixedRegressor {
    pub hash_mask: u32,
    pub weights: triomphe::Arc<Vec<Weight>>,
    pub ffm_weights_offset: u32,
    pub ffm_k: u32,
    pub ffm_hashmask: u32,
    pub ffm_separate_vectors_k: u32,
}

impl FixedRegressor {
    /// The store covers the plain address space, and behind the embedding
    /// offset every aligned embedding.
    pub open spec fn wf(&self) -> bool {
        &&& self.hash_mask < held(self.weights).len()
        &&& self.ffm_k > 0 ==> self.ffm_weights_offset + self.ffm_hashmask + self.ffm_k <= held(
            self.weights,
        ).len()
    }

    /// The logit after the first `n` plain features.
    pub open spec fn plain(&self, f: Arithmetic, fb: FeatureBuffer, n: nat) -> u32
        decreases n,
    {
        if n == 0 {
            ZERO
        } else {
            let feature = fb.lr_buffer@[n - 1];
            sum(
                f,
                self.plain(f, fb, (n - 1) as nat),
                product(
                    f,
                    held(self.weights)[(feature.hash & self.hash_mask) as int].weight,
                    feature.value,
                ),
            )
        }
    }

    /// The index of the first embedding weight of a hash.
    pub open spec fn embedding_base(&self, hash: u32) -> int {
        self.ffm_weights_offset + (hash & self.ffm_hashmask)
    }

    /// The logit after the plain features and the pairs of features before
    /// pair `(i, a)` with `(j, m)` in dimension `kk`, in the order of the
    /// left field `i`, its feature `a`, the right field `j > i`, its feature
    /// `m`, and the dimension.  Every feature counts with the value one.
    pub open spec fn crossed(
        &self,
        f: Arithmetic,
        fb: FeatureBuffer,
        i: nat,
        a: nat,
        j: nat,
        m: nat,
        kk: nat,
    ) -> u32
        decreases i, a, j, m, kk,
    {
        let buffers = fb.ffm_buffers@;
        if kk > 0 {
            let left = held(self.weights)[self.embedding_base(buffers[i as int]@[a as int].hash)
                + kk - 1].weight;
            let right = held(self.weights)[self.embedding_base(buffers[j as int]@[m as int].hash)
                + kk - 1].weight;
            sum(
                f,
                self.crossed(f, fb, i, a, j, m, (kk - 1) as nat),
                product(f, product(f, product(f, left, right), ONE), ONE),
            )
        } else if m > 0 {
            self.crossed(f, fb, i, a, j, (m - 1) as nat, self.ffm_k as nat)
        } else if j > i + 1 {
            self.crossed(f, fb, i, a, (j - 1) as nat, buffers[j - 1]@.len(), 0)
        } else if a > 0 {
            self.crossed(f, fb, i, (a - 1) as nat, buffers.len(), 0, 0)
        } else if i > 0 {
            self.crossed(f, fb, (i - 1) as nat, buffers[i - 1]@.len(), i, 0, 0)
        } else {
            self.plain(f, fb, fb.lr_buffer@.len())
        }
    }

    /// The logit of an example.
    pub open spec fn logit(&self, f: Arithmetic, fb: FeatureBuffer) -> u32 {
        if self.ffm_k > 0 {
            self.crossed(f, fb, fb.ffm_buffers@.len(), 0, fb.ffm_buffers@.len() + 1, 0, 0)
        } else {
            self.plain(f, fb, fb.lr_buffer@.len())
        }
    }

    /// Freezes a regressor: the same weights, shared for reading.
    pub fn new(rr: Regressor) -> (r: FixedRegressor)
        ensures
            held(r.weights) == rr.weights@,
            r.hash_mask == rr.hash_mask,
            r.ffm_weights_offset == rr.ffm_weights_offset,
            r.ffm_k == rr.ffm_k,
            r.ffm_hashmask == rr.ffm_hashmask,
            r.ffm_separate_vectors_k == rr.ffm_separate_vectors_k,
            rr.wf() ==> r.wf(),
    {
        FixedRegressor {
            hash_mask: rr.hash_mask,
            weights: share(rr.weights),
            ffm_weights_offset: rr.ffm_weights_offset,
            ffm_k: rr.ffm_k,
            ffm_hashmask: rr.ffm_hashmask,
            ffm_separate_vectors_k: rr.ffm_separate_vectors_k,
        }
    }

    /// Another handle on the same frozen regressor: the weights are shared,
    /// not copied.
    pub fn handle(&self) -> (r: FixedRegressor)
        ensures
            r.weights == self.weights,
            r.hash_mask == self.hash_mask,
            r.ffm_weights_offset == self.ffm_weights_offset,
            r.ffm_k == self.ffm_k,
            r.ffm_hashmask == self.ffm_hashmask,
            r.ffm_separate_vectors_k == self.ffm_separate_vectors_k,
            self.wf() ==> r.wf(),
    {
        FixedRegressor {
            hash_mask: self.hash_mask,
            weights: self.weights.clone(),
            ffm_weights_offset: self.ffm_weights_offset,
            ffm_k: self.ffm_k,
            ffm_hashmask: self.ffm_hashmask,
            ffm_separate_vectors_k: self.ffm_separate_vectors_k,
        }
    }

    /// The pairs of one left feature with every feature of the fields after
    /// its own.
    fn cross_feature<F: Fn(Request) -> u32>(
        &self,
        weights: &Vec<Weight>,
        fb: &FeatureBuffer,
        i: usize,
        a: usize,
        wsum: u32,
        unit: &F,
    ) -> (r: u32)
        requires
            self.wf(),
            self.ffm_k > 0,
            total(unit),
            weights@ == held(self.weights),
            i < fb.ffm_buffers@.len(),
            a < fb.ffm_buffers@[i as int]@.len(),
            functional(unit) ==> wsum == self.crossed(
                answer(unit),
                *fb,
                i as nat,
                a as nat,
                (i + 1) as nat,
                0,
                0,
            ),
        ensures
            functional(unit) ==> r == self.crossed(
                answer(unit),
                *fb,
                i as nat,
                (a + 1) as nat,
                (i + 1) as nat,
                0,
                0,
            ),
    {
        let dims = self.ffm_k as usize;
        let fields = fb.ffm_buffers.len();
        let len = weights.len();
        let left_hash = fb.ffm_buffers[i][a].hash;
        let left_mask = self.ffm_hashmask;
        assert(left_hash & left_mask <= left_mask) by (bit_vector);
        let left_weight_p = self.ffm_weights_offset as usize + (left_hash & left_mask) as usize;
        let mut wsum = wsum;
        let mut j: usize = i + 1;
        while j < fields
            invariant
                self.wf(),
                self.ffm_k > 0,
                total(unit),
                weights@ == held(self.weights),
                len == weights@.len(),
                dims == self.ffm_k,
                i < j <= fields,
                fields == fb.ffm_buffers@.len(),
                a < fb.ffm_buffers@[i as int]@.len(),
                left_weight_p == self.embedding_base(fb.ffm_buffers@[i as int]@[a as int].hash),
                left_weight_p + dims <= weights@.len(),
                functional(unit) ==> wsum == self.crossed(
                    answer(unit),
                    *fb,
                    i as nat,
                    a as nat,
                    j as nat,
                    0,
                    0,
                ),
            decreases fields - j,
        {
            let others = fb.ffm_buffers[j].len();
            let mut m: usize = 0;
            while m < others
                invariant
                    self.wf(),
                    self.ffm_k > 0,
                    total(unit),
                    weights@ == held(self.weights),
                    len == weights@.len(),
                    dims == self.ffm_k,
                    i < j < fields,
                    fields == fb.ffm_buffers@.len(),
                    a < fb.ffm_buffers@[i as int]@.len(),
                    left_weight_p == self.embedding_base(
                        fb.ffm_buffers@[i as int]@[a as int].hash,
                    ),
                    left_weight_p + dims <= weights@.len(),
                    m <= others,
                    others == fb.ffm_buffers@[j as int]@.len(),
                    functional(unit) ==> wsum == self.crossed(
                        answer(unit),
                        *fb,
                        i as nat,
                        a as nat,
                        j as nat,
                        m as nat,
                        0,
                    ),
                decreases others - m,
            {
                let right_hash = fb.ffm_buffers[j][m].hash;
                let right_mask = self.ffm_hashmask;
                assert(right_hash & right_mask <= right_mask) by (bit_vector);
                let right_weight_p = self.ffm_weights_offset as usize + (right_hash
                    & right_mask) as usize;
                let mut kk: usize = 0;
                while kk < dims
                    invariant
                        self.wf(),
                        self.ffm_k > 0,
                        total(unit),
                        weights@ == held(self.weights),
                        len == weights@.len(),
                        dims == self.ffm_k,
                        kk <= dims,
                        i < j < fields,
                        fields == fb.ffm_buffers@.len(),
                        a < fb.ffm_buffers@[i as int]@.len(),
                        m < fb.ffm_buffers@[j as int]@.len(),
                        left_weight_p == self.embedding_base(
                            fb.ffm_buffers@[i as int]@[a as int].hash,
                        ),
                        left_weight_p + dims <= weights@.len(),
                        right_weight_p == self.embedding_base(
                            fb.ffm_buffers@[j as int]@[m as int].hash,
                        ),
                        right_weight_p + dims <= weights@.len(),
                        functional(unit) ==> wsum == self.crossed(
                            answer(unit),
                            *fb,
                            i as nat,
                            a as nat,
                            j as nat,
                            m as nat,
                            kk as nat,
                        ),
                    decreases dims - kk,
                {
                    let left_weight = weights[left_weight_p + kk].weight;
                    let right_weight = weights[right_weight_p + kk].weight;
                    let term = times(
                        unit,
                        times(unit, times(unit, left_weight, right_weight), ONE),
                        ONE,
                    );
                    wsum = plus(unit, wsum, term);
                    kk += 1;
                }
                m += 1;
            }
            j += 1;
        }
        wsum
    }

    /// Tells whether the frozen regressor is well formed.
    pub fn is_wf(&self) -> (r: bool)
        ensures
            r == self.wf(),
    {
        let len = borrow_held(&self.weights).len() as u64;
        (self.hash_mask as u64) < len && (self.ffm_k == 0 || self.ffm_weights_offset as u64
            + self.ffm_hashmask as u64 + self.ffm_k as u64 <= len)
    }

    /// The probability that the frozen regressor gives an example: the link
    /// of the logit, which is one half for NaN and else is taken of the logit
    /// clipped to `[-50, 50]`.  Nothing is changed.
    pub fn predict<F: Fn(Request) -> u32>(
        &self,
        fb: &FeatureBuffer,
        example_num: u32,
        unit: &F,
    ) -> (p: u32)
        requires
            self.wf(),
            total(unit),
        ensures
            functional(unit) ==> p == linked(answer(unit), opposite(self.logit(answer(unit), *fb))),
    {
        link(negate(self.take(fb, unit)), unit)
    }

    /// The logit of the example.
    pub fn take<F: Fn(Request) -> u32>(&self, fb: &FeatureBuffer, unit: &F) -> (wsum: u32)
        requires
            self.wf(),
            total(unit),
        ensures
            functional(unit) ==> wsum == self.logit(answer(unit), *fb),
    {
        let weights = borrow_held(&self.weights);
        let n = fb.lr_buffer.len();
        let mask = self.hash_mask;
        let mut wsum: u32 = ZERO;
        let mut t: usize = 0;
        while t < n
            invariant
                self.wf(),
                total(unit),
                weights@ == held(self.weights),
                mask == self.hash_mask,
                t <= n,
                n == fb.lr_buffer@.len(),
                functional(unit) ==> wsum == self.plain(answer(unit), *fb, t as nat),
            decreases n - t,
        {
            let val = fb.lr_buffer[t];
            let hash = val.hash;
            assert(hash & mask <= mask) by (bit_vector);
            let w = weights[(hash & mask) as usize].weight;
            wsum = plus(unit, wsum, times(unit, w, val.value));
            t += 1;
        }
        if self.ffm_k > 0 {
            let fields = fb.ffm_buffers.len();
            let mut i: usize = 0;
            while i < fields
                invariant
                    self.wf(),
                    self.ffm_k > 0,
                    total(unit),
                    weights@ == held(self.weights),
                    i <= fields,
                    fields == fb.ffm_buffers@.len(),
                    functional(unit) ==> wsum == self.crossed(
                        answer(unit),
                        *fb,
                        i as nat,
                        0,
                        (i + 1) as nat,
                        0,
                        0,
                    ),
                decreases fields - i,
            {
                let features = fb.ffm_buffers[i].len();
                let mut a: usize = 0;
                while a < features
                    invariant
                        self.wf(),
                        self.ffm_k > 0,
                        total(unit),
                        weights@ == held(self.weights),
                        i < fields,
                        fields == fb.ffm_buffers@.len(),
                        a <= features,
                        features == fb.ffm_buffers@[i as int]@.len(),
                        functional(unit) ==> wsum == self.crossed(
                            answer(unit),
                            *fb,
                            i as nat,
                            a as nat,
                            (i + 1) as nat,
                            0,
                            0,
                        ),
                    decreases features - a,
                {
                    wsum = self.cross_feature(weights, fb, i, a, wsum, unit);
                    a += 1;
                }
                i += 1;
            }
        }
        wsum
    }
}

} // verus!

//! The interaction term of the field-interaction block, as training computes
//! it: with the derivative of the logit by every embedding coordinate and by
//! every attention weight that the example touches.

use vstd::prelude::*;
use vstd::arithmetic::div_mod::lemma_fundamental_div_mod_converse;
use crate::arith::{
    answer, difference, functional, minus, plus, product, sum, times, total, Arithmetic, Request,
};
use crate::bits::{HALF, ZERO};
use crate::block_affm::BlockAFFM;
use crate::feature_buffer::{field_of, FeatureBuffer, HashAndValueAndSeq};
use crate::interaction::lemma_cell;
use crate::optimizer::OptimizerTrait;

verus! {

/// What one pass over an example leaves for the update.
pub struct Derivatives {
    /// Per feature, the derivative of the logit by each coordinate of the
    /// feature's embedding.
    pub slopes: Vec<Vec<u32>>,
    /// Per ordered pair of fields, the derivative of the logit by the
    /// attention weight of the pair.
    pub leans: Vec<u32>,
    /// The interaction term.
    pub wsum: u32,
}

impl<L: OptimizerTrait> BlockAFFM<L> {
    /// The value of feature `i` times what it meets in dimension `k` of
    /// field `z`: the collapsed embedding of `z` toward the feature's field,
    /// less the feature's own share where `z` is its own field.
    pub open spec fn pull(
        &self,
        f: Arithmetic,
        entries: Seq<HashAndValueAndSeq>,
        i: int,
        z: int,
        k: int,
    ) -> u32 {
        let entry = entries[i];
        let own = self.coordinate(entry, z * self.ffm_k + k);
        let met = self.contra(f, entries, z, entry.contra_field_index + k, entries.len());
        let others = if z == field_of(entry, self.ffm_k as int) {
            difference(f, met, product(f, own, entry.value))
        } else {
            met
        };
        product(f, entry.value, others)
    }

    /// The derivative of the logit by coordinate `j` of the embedding of
    /// feature `i`.
    pub open spec fn slope(
        &self,
        f: Arithmetic,
        entries: Seq<HashAndValueAndSeq>,
        i: int,
        j: int,
    ) -> u32 {
        let z = j / (self.ffm_k as int);
        let k = j % (self.ffm_k as int);
        product(
            f,
            self.pull(f, entries, i, z, k),
            self.attention(field_of(entries[i], self.ffm_k as int), z),
        )
    }

    /// Dimension `k` of twice the interaction, after the features before `i`
    /// and the fields before `z` of feature `i`.
    pub open spec fn harvest(
        &self,
        f: Arithmetic,
        entries: Seq<HashAndValueAndSeq>,
        k: int,
        i: nat,
        z: nat,
    ) -> u32
        decreases i, z,
    {
        if z > 0 {
            let j = (z - 1) * self.ffm_k + k;
            sum(
                f,
                self.harvest(f, entries, k, i, (z - 1) as nat),
                product(
                    f,
                    self.coordinate(entries[i as int], j),
                    self.slope(f, entries, i as int, j),
                ),
            )
        } else if i > 0 {
            self.harvest(f, entries, k, (i - 1) as nat, self.ffm_fields_count as nat)
        } else {
            ZERO
        }
    }

    /// The derivative of the logit by attention weight `c`, after the
    /// features before `i`, the fields before `z` of feature `i` and the
    /// dimensions before `k` of that field.  Feature `i` adds to the weight
    /// of the pair (its own field, `z`).
    pub open spec fn lean(
        &self,
        f: Arithmetic,
        entries: Seq<HashAndValueAndSeq>,
        c: int,
        i: nat,
        z: nat,
        k: nat,
    ) -> u32
        decreases i, z, k,
    {
        if k > 0 {
            let before = self.lean(f, entries, c, i, z, (k - 1) as nat);
            if field_of(entries[i as int], self.ffm_k as int) * self.ffm_fields_count + z == c {
                sum(
                    f,
                    before,
                    product(
                        f,
                        self.pull(f, entries, i as int, z as int, k - 1),
                        self.coordinate(entries[i as int], z * self.ffm_k + k - 1),
                    ),
                )
            } else {
                before
            }
        } else if z > 0 {
            self.lean(f, entries, c, i, (z - 1) as nat, self.ffm_k as nat)
        } else if i > 0 {
            self.lean(f, entries, c, (i - 1) as nat, self.ffm_fields_count as nat, 0)
        } else {
            ZERO
        }
    }

    /// The sum of the first `dims` dimensions of twice the interaction.
    pub open spec fn reaped(
        &self,
        f: Arithmetic,
        entries: Seq<HashAndValueAndSeq>,
        dims: nat,
    ) -> u32
        decreases dims,
    {
        if dims == 0 {
            ZERO
        } else {
            sum(
                f,
                self.reaped(f, entries, (dims - 1) as nat),
                self.harvest(f, entries, dims - 1, entries.len(), 0),
            )
        }
    }

    /// The interaction term of an example, as training computes it: every
    /// feature's coordinates times their derivatives, summed and halved.
    pub open spec fn training_interaction(
        &self,
        f: Arithmetic,
        entries: Seq<HashAndValueAndSeq>,
    ) -> u32 {
        product(f, self.reaped(f, entries, self.ffm_k as nat), HALF)
    }

    /// The derivatives of feature `i` by its coordinates toward field `z`,
    /// appended to `row`; their share added to `leans` and to `buf`.
    fn derive_cell<F: Fn(Request) -> u32>(
        &self,
        fb: &FeatureBuffer,
        rows: &Vec<Vec<u32>>,
        i: usize,
        z: usize,
        row: &mut Vec<u32>,
        leans: &mut Vec<u32>,
        buf: &mut Vec<u32>,
        unit: &F,
    )
        requires
            self.ready(),
            self.fits(*fb),
            total(unit),
            self.roomy(rows@),
            functional(unit) ==> self.collapsed(answer(unit), fb.ffm_buffer@, rows@),
            i < fb.ffm_buffer@.len(),
            z < self.ffm_fields_count,
            old(row)@.len() == z * self.ffm_k,
            old(leans)@.len() == self.attention_weights_len,
            old(buf)@.len() == self.ffm_k,
            functional(unit) ==> forall|j: int|
                0 <= j < z * self.ffm_k ==> #[trigger] old(row)@[j] == self.slope(
                    answer(unit),
                    fb.ffm_buffer@,
                    i as int,
                    j,
                ),
            functional(unit) ==> forall|c: int|
                0 <= c < self.attention_weights_len ==> #[trigger] old(leans)@[c] == self.lean(
                    answer(unit),
                    fb.ffm_buffer@,
                    c,
                    i as nat,
                    z as nat,
                    0,
                ),
            functional(unit) ==> forall|k: int|
                0 <= k < self.ffm_k ==> #[trigger] old(buf)@[k] == self.harvest(
                    answer(unit),
                    fb.ffm_buffer@,
                    k,
                    i as nat,
                    z as nat,
                ),
        ensures
            final(row)@.len() == (z + 1) * self.ffm_k,
            final(leans)@.len() == self.attention_weights_len,
            final(buf)@.len() == self.ffm_k,
            functional(unit) ==> forall|j: int|
                0 <= j < (z + 1) * self.ffm_k ==> #[trigger] final(row)@[j] == self.slope(
                    answer(unit),
                    fb.ffm_buffer@,
                    i as int,
                    j,
                ),
            functional(unit) ==> forall|c: int|
                0 <= c < self.attention_weights_len ==> #[trigger] final(leans)@[c] == self.lean(
                    answer(unit),
                    fb.ffm_buffer@,
                    c,
                    i as nat,
                    z as nat,
                    self.ffm_k as nat,
                ),
            functional(unit) ==> forall|k: int|
                0 <= k < self.ffm_k ==> #[trigger] final(buf)@[k] == self.harvest(
                    answer(unit),
                    fb.ffm_buffer@,
                    k,
                    i as nat,
                    (z + 1) as nat,
                ),
    {
        let dims = self.ffm_k as usize;
        let fields = self.ffm_fields_count as usize;
        let entry = fb.ffm_buffer[i];
        let base = self.address_of(entry.hash);
        let own_field = (entry.contra_field_index / self.ffm_k) as usize;
        proof {
            lemma_cell(own_field as int, z as int, fields as int, fields as int);
            lemma_cell(own_field as int, 0, dims as int, fields as int);
            lemma_cell(z as int, 0, dims as int, fields as int);
            assert(entry.contra_field_index == own_field * dims) by (nonlinear_arith)
                requires
                    entry.contra_field_index as int % dims as int == 0,
                    own_field == entry.contra_field_index as int / dims as int,
                    dims > 0,
            ;
            assert((z + 1) * dims == z * dims + dims) by (nonlinear_arith);
        }
        let cell = own_field * fields + z;
        let attention_value = self.attention_weights[cell].weight;
        let toward = z * dims;
        let met_at = entry.contra_field_index as usize;
        let mut k: usize = 0;
        while k < dims
            invariant
                self.ready(),
                self.fits(*fb),
                total(unit),
                self.roomy(rows@),
                functional(unit) ==> self.collapsed(answer(unit), fb.ffm_buffer@, rows@),
                k <= dims,
                dims == self.ffm_k,
                fields == self.ffm_fields_count,
                i < fb.ffm_buffer@.len(),
                entry == fb.ffm_buffer@[i as int],
                z < fields,
                own_field == field_of(entry, self.ffm_k as int),
                own_field < fields,
                cell == own_field * fields + z,
                cell < self.attention_weights_len,
                attention_value == self.attention(own_field as int, z as int),
                base == self.address(entry.hash),
                base + self.field_embedding_len <= self.weights@.len(),
                toward == z * dims,
                toward + dims <= self.field_embedding_len,
                met_at == entry.contra_field_index,
                met_at + dims <= self.field_embedding_len,
                row@.len() == toward + k,
                leans@.len() == self.attention_weights_len,
                buf@.len() == dims,
                functional(unit) ==> forall|j: int|
                    0 <= j < toward + k ==> #[trigger] row@[j] == self.slope(
                        answer(unit),
                        fb.ffm_buffer@,
                        i as int,
                        j,
                    ),
                functional(unit) ==> forall|c: int|
                    0 <= c < self.attention_weights_len ==> #[trigger] leans@[c] == self.lean(
                        answer(unit),
                        fb.ffm_buffer@,
                        c,
                        i as nat,
                        z as nat,
                        k as nat,
                    ),
                functional(unit) ==> forall|d: int|
                    0 <= d < k ==> #[trigger] buf@[d] == self.harvest(
                        answer(unit),
                        fb.ffm_buffer@,
                        d,
                        i as nat,
                        (z + 1) as nat,
                    ),
                functional(unit) ==> forall|d: int|
                    k <= d < dims ==> #[trigger] buf@[d] == self.harvest(
                        answer(unit),
                        fb.ffm_buffer@,
                        d,
                        i as nat,
                        z as nat,
                    ),
            decreases dims - k,
        {
            proof {
                lemma_fundamental_div_mod_converse(
                    (toward + k) as int,
                    dims as int,
                    z as int,
                    k as int,
                );
            }
            let own = self.weights[base + toward + k].weight;
            let met = rows[z][met_at + k];
            let others = if z == own_field {
                minus(unit, met, times(unit, own, entry.value))
            } else {
                met
            };
            let gradient = times(unit, entry.value, others);
            let gradient2 = times(unit, gradient, attention_value);
            let leaned = plus(unit, leans[cell], times(unit, gradient, own));
            leans[cell] = leaned;
            row.push(gradient2);
            let reaped = plus(unit, buf[k], times(unit, own, gradient2));
            buf[k] = reaped;
            k += 1;
        }
    }

    /// The derivatives of feature `i` by its coordinates; their share added
    /// to `leans` and to `buf`.
    fn derive_feature<F: Fn(Request) -> u32>(
        &self,
        fb: &FeatureBuffer,
        rows: &Vec<Vec<u32>>,
        i: usize,
        leans: &mut Vec<u32>,
        buf: &mut Vec<u32>,
        unit: &F,
    ) -> (row: Vec<u32>)
        requires
            self.ready(),
            self.fits(*fb),
            total(unit),
            self.roomy(rows@),
            functional(unit) ==> self.collapsed(answer(unit), fb.ffm_buffer@, rows@),
            i < fb.ffm_buffer@.len(),
            old(leans)@.len() == self.attention_weights_len,
            old(buf)@.len() == self.ffm_k,
            functional(unit) ==> forall|c: int|
                0 <= c < self.attention_weights_len ==> #[trigger] old(leans)@[c] == self.lean(
                    answer(unit),
                    fb.ffm_buffer@,
                    c,
                    i as nat,
                    0,
                    0,
                ),
            functional(unit) ==> forall|k: int|
                0 <= k < self.ffm_k ==> #[trigger] old(buf)@[k] == self.harvest(
                    answer(unit),
                    fb.ffm_buffer@,
                    k,
                    i as nat,
                    0,
                ),
        ensures
            row@.len() == self.field_embedding_len,
            final(leans)@.len() == self.attention_weights_len,
            final(buf)@.len() == self.ffm_k,
            functional(unit) ==> forall|j: int|
                0 <= j < self.field_embedding_len ==> #[trigger] row@[j] == self.slope(
                    answer(unit),
                    fb.ffm_buffer@,
                    i as int,
                    j,
                ),
            functional(unit) ==> forall|c: int|
                0 <= c < self.attention_weights_len ==> #[trigger] final(leans)@[c] == self.lean(
                    answer(unit),
                    fb.ffm_buffer@,
                    c,
                    (i + 1) as nat,
                    0,
                    0,
                ),
            functional(unit) ==> forall|k: int|
                0 <= k < self.ffm_k ==> #[trigger] final(buf)@[k] == self.harvest(
                    answer(unit),
                    fb.ffm_buffer@,
                    k,
                    (i + 1) as nat,
                    0,
                ),
    {
        let fields = self.ffm_fields_count as usize;
        let mut row: Vec<u32> = Vec::new();
        let mut z: usize = 0;
        assert(0 * self.ffm_k == 0) by (nonlinear_arith);
        while z < fields
            invariant
                self.ready(),
                self.fits(*fb),
                total(unit),
                self.roomy(rows@),
                functional(unit) ==> self.collapsed(answer(unit), fb.ffm_buffer@, rows@),
                i < fb.ffm_buffer@.len(),
                z <= fields,
                fields == self.ffm_fields_count,
                row@.len() == z * self.ffm_k,
                leans@.len() == self.attention_weights_len,
                buf@.len() == self.ffm_k,
                functional(unit) ==> forall|j: int|
                    0 <= j < z * self.ffm_k ==> #[trigger] row@[j] == self.slope(
                        answer(unit),
                        fb.ffm_buffer@,
                        i as int,
                        j,
                    ),
                functional(unit) ==> forall|c: int|
                    0 <= c < self.attention_weights_len ==> #[trigger] leans@[c] == self.lean(
                        answer(unit),
                        fb.ffm_buffer@,
                        c,
                        i as nat,
                        z as nat,
                        0,
                    ),
                functional(unit) ==> forall|k: int|
                    0 <= k < self.ffm_k ==> #[trigger] buf@[k] == self.harvest(
                        answer(unit),
                        fb.ffm_buffer@,
                        k,
                        i as nat,
                        z as nat,
                    ),
            decreases fields - z,
        {
            self.derive_cell(fb, rows, i, z, &mut row, leans, buf, unit);
            z += 1;
        }
        assert(fields * self.ffm_k == self.ffm_k * fields) by (nonlinear_arith);
        row
    }

    /// One pass over the example: the interaction term and its derivatives.
    pub fn derive<F: Fn(Request) -> u32>(&self, fb: &FeatureBuffer, unit: &F) -> (d: Derivatives)
        requires
            self.ready(),
            self.fits(*fb),
            total(unit),
        ensures
            d.slopes@.len() == fb.ffm_buffer@.len(),
            forall|i: int|
                0 <= i < fb.ffm_buffer@.len() ==> (#[trigger] d.slopes@[i])@.len()
                    == self.field_embedding_len,
            d.leans@.len() == self.attention_weights_len,
            functional(unit) ==> forall|i: int, j: int|
                0 <= i < fb.ffm_buffer@.len() && 0 <= j < self.field_embedding_len
                    ==> #[trigger] d.slopes@[i]@[j] == self.slope(
                    answer(unit),
                    fb.ffm_buffer@,
                    i,
                    j,
                ),
            functional(unit) ==> forall|c: int|
                0 <= c < self.attention_weights_len ==> #[trigger] d.leans@[c] == self.lean(
                    answer(unit),
                    fb.ffm_buffer@,
                    c,
                    fb.ffm_buffer@.len(),
                    0,
                    0,
                ),
            functional(unit) ==> d.wsum == self.training_interaction(answer(unit), fb.ffm_buffer@),
    {
        let rows = self.collapse(fb, unit);
        let dims = self.ffm_k as usize;
        let mut leans: Vec<u32> = vec![ZERO; self.attention_weights_len as usize];
        let mut buf: Vec<u32> = vec![ZERO; dims];
        let mut slopes: Vec<Vec<u32>> = Vec::new();
        let n = fb.ffm_buffer.len();
        let mut i: usize = 0;
        while i < n
            invariant
                self.ready(),
                self.fits(*fb),
                total(unit),
                self.roomy(rows@),
                functional(unit) ==> self.collapsed(answer(unit), fb.ffm_buffer@, rows@),
                i <= n,
                n == fb.ffm_buffer@.len(),
                dims == self.ffm_k,
                slopes@.len() == i,
                leans@.len() == self.attention_weights_len,
                buf@.len() == dims,
                forall|a: int|
                    0 <= a < i ==> (#[trigger] slopes@[a])@.len() == self.field_embedding_len,
                functional(unit) ==> forall|a: int, j: int|
                    0 <= a < i && 0 <= j < self.field_embedding_len ==> #[trigger] slopes@[a]@[j]
                        == self.slope(answer(unit), fb.ffm_buffer@, a, j),
                functional(unit) ==> forall|c: int|
                    0 <= c < self.attention_weights_len ==> #[trigger] leans@[c] == self.lean(
                        answer(unit),
                        fb.ffm_buffer@,
                        c,
                        i as nat,
                        0,
                        0,
                    ),
                functional(unit) ==> forall|k: int|
                    0 <= k < dims ==> #[trigger] buf@[k] == self.harvest(
                        answer(unit),
                        fb.ffm_buffer@,
                        k,
                        i as nat,
                        0,
                    ),
            decreases n - i,
        {
            let row = self.derive_feature(fb, &rows, i, &mut leans, &mut buf, unit);
            slopes.push(row);
            i += 1;
        }
        let mut wsum: u32 = ZERO;
        let mut k: usize = 0;
        while k < dims
            invariant
                total(unit),
                k <= dims,
                dims == self.ffm_k,
                buf@.len() == dims,
                functional(unit) ==> forall|d: int|
                    0 <= d < dims ==> #[trigger] buf@[d] == self.harvest(
                        answer(unit),
                        fb.ffm_buffer@,
                        d,
                        fb.ffm_buffer@.len(),
                        0,
                    ),
                functional(unit) ==> wsum == self.reaped(answer(unit), fb.ffm_buffer@, k as nat),
            decreases dims - k,
        {
            wsum = plus(unit, wsum, buf[k]);
            k += 1;
        }
        let wsum = times(unit, wsum, HALF);
        Derivatives { slopes, leans, wsum }
    }
}

} // verus!

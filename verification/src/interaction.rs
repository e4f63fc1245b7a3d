//! The interaction term of the field-interaction block, as inference
//! computes it: collapsed field embeddings, then one weighted product per
//! pair of fields.

use vstd::prelude::*;
use crate::arith::{
    answer, difference, functional, minus, plus, product, sum, times, total, Arithmetic, Request,
};
use crate::bits::{HALF, ZERO};
use crate::block_affm::{BlockAFFM, SQRT_OF_ONE_HALF};
use crate::feature_buffer::{field_of, FeatureBuffer, HashAndValueAndSeq};
use crate::optimizer::OptimizerTrait;

verus! {

/// Cell `b` of row `a` lies inside a table of `n` rows of width `w`.
pub proof fn lemma_cell(a: int, b: int, w: int, n: int)
    requires
        0 <= a < n,
        0 <= b < w,
    ensures
        0 <= a * w + b < n * w,
        0 <= a * w + b < w * n,
        a * w + w <= n * w,
{
    assert(a * w + w == (a + 1) * w) by (nonlinear_arith);
    assert((a + 1) * w <= n * w) by (nonlinear_arith)
        requires
            a + 1 <= n,
            w > 0,
    ;
    assert(a * w >= 0) by (nonlinear_arith)
        requires
            a >= 0,
            w > 0,
    ;
    assert(n * w == w * n) by (nonlinear_arith);
}

/// Feature `j` is the first of its field: no feature of the same field
/// stands directly before it.
pub open spec fn leads(entries: Seq<HashAndValueAndSeq>, j: int) -> bool {
    j == 0 || entries[j - 1].contra_field_index != entries[j].contra_field_index
}

impl<L: OptimizerTrait> BlockAFFM<L> {
    /// The address of a hash: the hash reduced to the address space.
    pub open spec fn address(&self, hash: u32) -> int {
        (hash & self.ffm_hash_mask) as int
    }

    /// Coordinate `at` of the embedding of a feature.  The coordinates for
    /// field `z` are `z * ffm_k .. (z + 1) * ffm_k`.
    pub open spec fn coordinate(&self, entry: HashAndValueAndSeq, at: int) -> u32 {
        self.weights@[self.address(entry.hash) + at].weight
    }

    /// The attention weight of the ordered pair of fields `(f1, f2)`.
    pub open spec fn attention(&self, f1: int, f2: int) -> u32 {
        self.attention_weights@[f1 * self.ffm_fields_count + f2].weight
    }

    /// Coordinate `at` of the collapsed embedding of `field` over the first
    /// `n` features: the value-scaled embeddings of the field's features,
    /// summed in their order.  The first of them starts the sum; a field
    /// without features collapses to zero.
    pub open spec fn contra(
        &self,
        f: Arithmetic,
        entries: Seq<HashAndValueAndSeq>,
        field: int,
        at: int,
        n: nat,
    ) -> u32
        decreases n,
    {
        if n == 0 {
            ZERO
        } else {
            let entry = entries[n - 1];
            let before = self.contra(f, entries, field, at, (n - 1) as nat);
            if field_of(entry, self.ffm_k as int) != field {
                before
            } else {
                let term = product(f, self.coordinate(entry, at), entry.value);
                if leads(entries, n - 1) {
                    term
                } else {
                    sum(f, before, term)
                }
            }
        }
    }

    /// The address of a hash; with any offset into one embedding it stays
    /// inside the store.
    pub fn address_of(&self, hash: u32) -> (base: usize)
        requires
            self.ready(),
        ensures
            base == self.address(hash),
            base + self.field_embedding_len <= self.weights@.len(),
    {
        let mask = self.ffm_hash_mask;
        assert(hash & mask <= mask) by (bit_vector);
        (hash & mask) as usize
    }

    /// Adds one feature to the collapsed embedding of its field.
    fn absorb<F: Fn(Request) -> u32>(
        &self,
        row: &mut Vec<u32>,
        entry: HashAndValueAndSeq,
        leading: bool,
        unit: &F,
    )
        requires
            self.ready(),
            total(unit),
            old(row)@.len() == self.field_embedding_len,
        ensures
            final(row)@.len() == self.field_embedding_len,
            functional(unit) ==> forall|at: int|
                0 <= at < self.field_embedding_len ==> #[trigger] final(row)@[at] == (if leading {
                    product(answer(unit), self.coordinate(entry, at), entry.value)
                } else {
                    sum(
                        answer(unit),
                        old(row)@[at],
                        product(answer(unit), self.coordinate(entry, at), entry.value),
                    )
                }),
    {
        let base = self.address_of(entry.hash);
        let width = self.field_embedding_len as usize;
        let mut at: usize = 0;
        while at < width
            invariant
                self.ready(),
                total(unit),
                at <= width,
                width == self.field_embedding_len,
                base == self.address(entry.hash),
                base + width <= self.weights@.len(),
                row@.len() == width,
                forall|j: int| at <= j < width ==> #[trigger] row@[j] == old(row)@[j],
                functional(unit) ==> forall|j: int|
                    0 <= j < at ==> #[trigger] row@[j] == (if leading {
                        product(answer(unit), self.coordinate(entry, j), entry.value)
                    } else {
                        sum(
                            answer(unit),
                            old(row)@[j],
                            product(answer(unit), self.coordinate(entry, j), entry.value),
                        )
                    }),
            decreases width - at,
        {
            let term = times(unit, self.weights[base + at].weight, entry.value);
            let slot = if leading {
                term
            } else {
                plus(unit, row[at], term)
            };
            row[at] = slot;
            at += 1;
        }
    }

    /// The collapsed embedding of every field: one row per field, one slot
    /// per embedding coordinate.
    pub fn collapse<F: Fn(Request) -> u32>(&self, fb: &FeatureBuffer, unit: &F) -> (rows: Vec<
        Vec<u32>,
    >)
        requires
            self.ready(),
            self.fits(*fb),
            total(unit),
        ensures
            rows@.len() == self.ffm_fields_count,
            forall|field: int|
                0 <= field < self.ffm_fields_count ==> (#[trigger] rows@[field])@.len()
                    == self.field_embedding_len,
            functional(unit) ==> forall|field: int, at: int|
                0 <= field < self.ffm_fields_count && 0 <= at < self.field_embedding_len
                    ==> #[trigger] rows@[field]@[at] == self.contra(
                    answer(unit),
                    fb.ffm_buffer@,
                    field,
                    at,
                    fb.ffm_buffer@.len(),
                ),
    {
        let fields = self.ffm_fields_count as usize;
        let width = self.field_embedding_len as usize;
        let mut rows: Vec<Vec<u32>> = Vec::new();
        let mut field: usize = 0;
        while field < fields
            invariant
                field <= fields,
                rows@.len() == field,
                forall|g: int| 0 <= g < field ==> (#[trigger] rows@[g])@.len() == width,
                forall|g: int, at: int|
                    0 <= g < field && 0 <= at < width ==> #[trigger] rows@[g]@[at] == ZERO,
            decreases fields - field,
        {
            rows.push(vec![ZERO; width]);
            field += 1;
        }
        let n = fb.ffm_buffer.len();
        let mut i: usize = 0;
        while i < n
            invariant
                self.ready(),
                self.fits(*fb),
                total(unit),
                i <= n,
                n == fb.ffm_buffer@.len(),
                fields == self.ffm_fields_count,
                width == self.field_embedding_len,
                rows@.len() == fields,
                forall|g: int| 0 <= g < fields ==> (#[trigger] rows@[g])@.len() == width,
                functional(unit) ==> forall|g: int, at: int|
                    0 <= g < fields && 0 <= at < width ==> #[trigger] rows@[g]@[at] == self.contra(
                        answer(unit),
                        fb.ffm_buffer@,
                        g,
                        at,
                        i as nat,
                    ),
            decreases n - i,
        {
            let entry = fb.ffm_buffer[i];
            let own = (entry.contra_field_index / self.ffm_k) as usize;
            let leading = i == 0 || fb.ffm_buffer[i - 1].contra_field_index
                != entry.contra_field_index;
            self.absorb(&mut rows[own], entry, leading, unit);
            i += 1;
        }
        rows
    }
}

impl<L: OptimizerTrait> BlockAFFM<L> {
    /// The rows have the shape of the collapsed embeddings.
    pub open spec fn roomy(&self, rows: Seq<Vec<u32>>) -> bool {
        &&& rows.len() == self.ffm_fields_count
        &&& forall|field: int|
            0 <= field < self.ffm_fields_count ==> (#[trigger] rows[field])@.len()
                == self.field_embedding_len
    }

    /// The rows hold the collapsed embeddings of the example.
    pub open spec fn collapsed(
        &self,
        f: Arithmetic,
        entries: Seq<HashAndValueAndSeq>,
        rows: Seq<Vec<u32>>,
    ) -> bool {
        forall|field: int, at: int|
            0 <= field < self.ffm_fields_count && 0 <= at < self.field_embedding_len
                ==> #[trigger] rows[field]@[at] == self.contra(f, entries, field, at, entries.len())
    }

    /// What feature `j` would add to dimension `k` by meeting itself: half
    /// the square of its value-scaled coordinate toward its own field, times
    /// the attention of that field with itself.
    pub open spec fn own_square(
        &self,
        f: Arithmetic,
        entries: Seq<HashAndValueAndSeq>,
        j: int,
        k: int,
    ) -> u32 {
        let entry = entries[j];
        let field = field_of(entry, self.ffm_k as int);
        let scaled = product(
            f,
            self.coordinate(entry, entry.contra_field_index + k),
            product(f, SQRT_OF_ONE_HALF, entry.value),
        );
        product(f, product(f, scaled, scaled), self.attention(field, field))
    }

    /// Dimension `k` of the interaction after the self-meetings of the first
    /// `n` features have been taken out.
    pub open spec fn shrunk(
        &self,
        f: Arithmetic,
        entries: Seq<HashAndValueAndSeq>,
        k: int,
        n: nat,
    ) -> u32
        decreases n,
    {
        if n == 0 {
            ZERO
        } else {
            difference(
                f,
                self.shrunk(f, entries, k, (n - 1) as nat),
                self.own_square(f, entries, n - 1, k),
            )
        }
    }

    /// What the pair of fields `f1 <= f2` adds to dimension `k`: the product
    /// of each field's collapsed embedding toward the other, times the
    /// attention of the pair; for a field with itself, half of that.
    pub open spec fn pair_term(
        &self,
        f: Arithmetic,
        entries: Seq<HashAndValueAndSeq>,
        k: int,
        f1: int,
        f2: int,
    ) -> u32 {
        let n = entries.len();
        let toward = self.contra(f, entries, f1, f2 * self.ffm_k + k, n);
        let back = self.contra(f, entries, f2, f1 * self.ffm_k + k, n);
        if f1 == f2 {
            product(f, product(f, product(f, toward, toward), HALF), self.attention(f1, f1))
        } else {
            product(f, product(f, toward, back), self.attention(f1, f2))
        }
    }

    /// Dimension `k` of the interaction once the pairs `(g, _)` of all fields
    /// `g < f1` and the pairs `(f1, f1) .. (f1, upto - 1)` have been added.
    pub open spec fn paired(
        &self,
        f: Arithmetic,
        entries: Seq<HashAndValueAndSeq>,
        k: int,
        f1: nat,
        upto: nat,
    ) -> u32
        decreases f1, upto,
    {
        if upto <= f1 {
            if f1 == 0 {
                self.shrunk(f, entries, k, entries.len())
            } else {
                self.paired(f, entries, k, (f1 - 1) as nat, self.ffm_fields_count as nat)
            }
        } else {
            sum(
                f,
                self.paired(f, entries, k, f1, (upto - 1) as nat),
                self.pair_term(f, entries, k, f1 as int, upto - 1),
            )
        }
    }

    /// The sum of the first `dims` dimensions of the interaction.
    pub open spec fn gathered(
        &self,
        f: Arithmetic,
        entries: Seq<HashAndValueAndSeq>,
        dims: nat,
    ) -> u32
        decreases dims,
    {
        if dims == 0 {
            ZERO
        } else {
            sum(
                f,
                self.gathered(f, entries, (dims - 1) as nat),
                self.paired(
                    f,
                    entries,
                    dims - 1,
                    self.ffm_fields_count as nat,
                    self.ffm_fields_count as nat,
                ),
            )
        }
    }

    /// The interaction term of an example, as inference computes it.
    pub open spec fn interaction(&self, f: Arithmetic, entries: Seq<HashAndValueAndSeq>) -> u32 {
        self.gathered(f, entries, self.ffm_k as nat)
    }

    /// Takes the self-meeting of every feature out of a fresh accumulator
    /// per dimension.
    fn shrink<F: Fn(Request) -> u32>(&self, fb: &FeatureBuffer, unit: &F) -> (buf: Vec<u32>)
        requires
            self.ready(),
            self.fits(*fb),
            total(unit),
        ensures
            buf@.len() == self.ffm_k,
            functional(unit) ==> forall|k: int|
                0 <= k < self.ffm_k ==> #[trigger] buf@[k] == self.shrunk(
                    answer(unit),
                    fb.ffm_buffer@,
                    k,
                    fb.ffm_buffer@.len(),
                ),
    {
        let dims = self.ffm_k as usize;
        let fields = self.ffm_fields_count as usize;
        let mut buf: Vec<u32> = vec![ZERO; dims];
        let n = fb.ffm_buffer.len();
        let mut i: usize = 0;
        while i < n
            invariant
                self.ready(),
                self.fits(*fb),
                total(unit),
                i <= n,
                n == fb.ffm_buffer@.len(),
                dims == self.ffm_k,
                fields == self.ffm_fields_count,
                buf@.len() == dims,
                functional(unit) ==> forall|k: int|
                    0 <= k < dims ==> #[trigger] buf@[k] == self.shrunk(
                        answer(unit),
                        fb.ffm_buffer@,
                        k,
                        i as nat,
                    ),
            decreases n - i,
        {
            let entry = fb.ffm_buffer[i];
            let base = self.address_of(entry.hash);
            let own = (entry.contra_field_index / self.ffm_k) as usize;
            proof {
                lemma_cell(own as int, own as int, fields as int, fields as int);
                lemma_cell(own as int, 0, dims as int, fields as int);
                assert(entry.contra_field_index == own * dims) by (nonlinear_arith)
                    requires
                        entry.contra_field_index as int % dims as int == 0,
                        own == entry.contra_field_index as int / dims as int,
                        dims > 0,
                ;
            }
            let attention_value = self.attention_weights[own * fields + own].weight;
            let vv = times(unit, SQRT_OF_ONE_HALF, entry.value);
            let toward_own = base + entry.contra_field_index as usize;
            let ghost before = buf@;
            let mut k: usize = 0;
            while k < dims
                invariant
                    self.ready(),
                    total(unit),
                    k <= dims,
                    dims == self.ffm_k,
                    buf@.len() == dims,
                    before.len() == dims,
                    i < fb.ffm_buffer@.len(),
                    entry == fb.ffm_buffer@[i as int],
                    own == field_of(entry, self.ffm_k as int),
                    attention_value == self.attention(own as int, own as int),
                    toward_own == self.address(entry.hash) + entry.contra_field_index,
                    toward_own + dims <= self.weights@.len(),
                    functional(unit) ==> vv == product(answer(unit), SQRT_OF_ONE_HALF, entry.value),
                    forall|j: int| k <= j < dims ==> #[trigger] buf@[j] == before[j],
                    functional(unit) ==> forall|j: int|
                        0 <= j < k ==> #[trigger] buf@[j] == difference(
                            answer(unit),
                            before[j],
                            self.own_square(answer(unit), fb.ffm_buffer@, i as int, j),
                        ),
                decreases dims - k,
            {
                let ss = times(unit, self.weights[toward_own + k].weight, vv);
                let taken = minus(unit, buf[k], times(unit, times(unit, ss, ss), attention_value));
                buf[k] = taken;
                k += 1;
            }
            i += 1;
        }
        buf
    }

    /// Adds the term of the pair of fields `(f1, f2)` to every dimension.
    fn add_pair<F: Fn(Request) -> u32>(
        &self,
        buf: &mut Vec<u32>,
        rows: &Vec<Vec<u32>>,
        fb: &FeatureBuffer,
        f1: usize,
        f2: usize,
        unit: &F,
    )
        requires
            self.ready(),
            total(unit),
            old(buf)@.len() == self.ffm_k,
            self.roomy(rows@),
            functional(unit) ==> self.collapsed(answer(unit), fb.ffm_buffer@, rows@),
            f1 <= f2 < self.ffm_fields_count,
        ensures
            final(buf)@.len() == self.ffm_k,
            functional(unit) ==> forall|k: int|
                0 <= k < self.ffm_k ==> #[trigger] final(buf)@[k] == sum(
                    answer(unit),
                    old(buf)@[k],
                    self.pair_term(answer(unit), fb.ffm_buffer@, k, f1 as int, f2 as int),
                ),
    {
        let dims = self.ffm_k as usize;
        let fields = self.ffm_fields_count as usize;
        proof {
            lemma_cell(f1 as int, f2 as int, fields as int, fields as int);
            lemma_cell(f1 as int, 0, dims as int, fields as int);
            lemma_cell(f2 as int, 0, dims as int, fields as int);
        }
        let attention_value = self.attention_weights[f1 * fields + f2].weight;
        let toward_at = f2 * dims;
        let back_at = f1 * dims;
        let mut k: usize = 0;
        while k < dims
            invariant
                self.ready(),
                total(unit),
                k <= dims,
                dims == self.ffm_k,
                fields == self.ffm_fields_count,
                f1 <= f2 < fields,
                buf@.len() == dims,
                self.roomy(rows@),
                functional(unit) ==> self.collapsed(answer(unit), fb.ffm_buffer@, rows@),
                attention_value == self.attention(f1 as int, f2 as int),
                toward_at == f2 * dims,
                back_at == f1 * dims,
                toward_at + dims <= self.field_embedding_len,
                back_at + dims <= self.field_embedding_len,
                forall|j: int| k <= j < dims ==> #[trigger] buf@[j] == old(buf)@[j],
                functional(unit) ==> forall|j: int|
                    0 <= j < k ==> #[trigger] buf@[j] == sum(
                        answer(unit),
                        old(buf)@[j],
                        self.pair_term(answer(unit), fb.ffm_buffer@, j, f1 as int, f2 as int),
                    ),
            decreases dims - k,
        {
            let toward = rows[f1][toward_at + k];
            let term = if f1 == f2 {
                times(unit, times(unit, times(unit, toward, toward), HALF), attention_value)
            } else {
                let back = rows[f2][back_at + k];
                times(unit, times(unit, toward, back), attention_value)
            };
            let added = plus(unit, buf[k], term);
            buf[k] = added;
            k += 1;
        }
    }

    /// The interaction term of the example.
    pub fn interact<F: Fn(Request) -> u32>(&self, fb: &FeatureBuffer, unit: &F) -> (wsum: u32)
        requires
            self.ready(),
            self.fits(*fb),
            total(unit),
        ensures
            functional(unit) ==> wsum == self.interaction(answer(unit), fb.ffm_buffer@),
    {
        let rows = self.collapse(fb, unit);
        let mut buf = self.shrink(fb, unit);
        let dims = self.ffm_k as usize;
        let fields = self.ffm_fields_count as usize;
        let mut f1: usize = 0;
        while f1 < fields
            invariant
                self.ready(),
                total(unit),
                f1 <= fields,
                dims == self.ffm_k,
                fields == self.ffm_fields_count,
                buf@.len() == dims,
                self.roomy(rows@),
                functional(unit) ==> self.collapsed(answer(unit), fb.ffm_buffer@, rows@),
                functional(unit) ==> forall|k: int|
                    0 <= k < dims ==> #[trigger] buf@[k] == self.paired(
                        answer(unit),
                        fb.ffm_buffer@,
                        k,
                        f1 as nat,
                        f1 as nat,
                    ),
            decreases fields - f1,
        {
            let mut f2: usize = f1;
            while f2 < fields
                invariant
                    self.ready(),
                    total(unit),
                    f1 <= f2 <= fields,
                    f1 < fields,
                    dims == self.ffm_k,
                    fields == self.ffm_fields_count,
                    buf@.len() == dims,
                    self.roomy(rows@),
                    functional(unit) ==> self.collapsed(answer(unit), fb.ffm_buffer@, rows@),
                    functional(unit) ==> forall|k: int|
                        0 <= k < dims ==> #[trigger] buf@[k] == self.paired(
                            answer(unit),
                            fb.ffm_buffer@,
                            k,
                            f1 as nat,
                            f2 as nat,
                        ),
                decreases fields - f2,
            {
                self.add_pair(&mut buf, &rows, fb, f1, f2, unit);
                f2 += 1;
            }
            f1 += 1;
        }
        let mut wsum: u32 = ZERO;
        let mut k: usize = 0;
        while k < dims
            invariant
                total(unit),
                k <= dims,
                dims == self.ffm_k,
                fields == self.ffm_fields_count,
                buf@.len() == dims,
                functional(unit) ==> forall|j: int|
                    0 <= j < dims ==> #[trigger] buf@[j] == self.paired(
                        answer(unit),
                        fb.ffm_buffer@,
                        j,
                        fields as nat,
                        fields as nat,
                    ),
                functional(unit) ==> wsum == self.gathered(answer(unit), fb.ffm_buffer@, k as nat),
            decreases dims - k,
        {
            wsum = plus(unit, wsum, buf[k]);
            k += 1;
        }
        wsum
    }
}

} // verus!

//! One example, as the blocks consume it.

use vstd::prelude::*;

verus! {

/// An active feature of the plain-weight model: the index of its weight and
/// its value.
#[derive(Clone, Copy, Debug)]
pub struct HashAndValue {
    pub hash: u32,
    pub value: u32,
}

/// An active feature of the field-interaction model.  `contra_field_index` is
/// the feature's field times the embedding width.
#[derive(Clone, Copy, Debug)]
pub struct HashAndValueAndSeq {
    pub hash: u32,
    pub value: u32,
    pub contra_field_index: u32,
}

/// A labelled example.
#[derive(Clone, Debug)]
pub struct FeatureBuffer {
    pub label: u32,
    pub example_importance: u32,
    pub example_number: u64,
    pub lr_buffer: Vec<HashAndValue>,
    /// The features of the field-interaction block, grouped by field in
    /// ascending field order.
    pub ffm_buffer: Vec<HashAndValueAndSeq>,
    pub ffm_fields_count: u32,
    /// The features of the standalone regressor's factorisation part, one
    /// vector per field.
    pub ffm_buffers: Vec<Vec<HashAndValue>>,
}

/// The features come field by field, in ascending field order.
pub open spec fn grouped(entries: Seq<HashAndValueAndSeq>) -> bool {
    forall|i: int, j: int|
        0 <= i <= j < entries.len() ==> #[trigger] entries[i].contra_field_index
            <= #[trigger] entries[j].contra_field_index
}

/// Features of which each stands in a field no lower than the one before it
/// come grouped by field.
pub proof fn lemma_ascending_is_grouped(entries: Seq<HashAndValueAndSeq>, n: int)
    requires
        0 <= n <= entries.len(),
        forall|a: int|
            0 < a < n ==> entries[a - 1].contra_field_index <= (
            #[trigger] entries[a]).contra_field_index,
    ensures
        forall|i: int, j: int|
            0 <= i <= j < n ==> #[trigger] entries[i].contra_field_index
                <= #[trigger] entries[j].contra_field_index,
    decreases n,
{
    if n > 0 {
        lemma_ascending_is_grouped(entries, n - 1);
        assert forall|i: int, j: int|
            0 <= i <= j < n implies #[trigger] entries[i].contra_field_index
            <= #[trigger] entries[j].contra_field_index by {
            if j == n - 1 && i < j {
                assert(entries[i].contra_field_index <= entries[j - 1].contra_field_index);
                assert(entries[j - 1].contra_field_index <= entries[j].contra_field_index);
            }
        }
    }
}

/// The field of a feature, for embeddings of width `k`.
pub open spec fn field_of(entry: HashAndValueAndSeq, k: int) -> int {
    entry.contra_field_index as int / k
}

/// Every feature lies in one of `fields` fields of width `k`.
pub open spec fn placed(entries: Seq<HashAndValueAndSeq>, k: int, fields: int) -> bool {
    forall|i: int|
        0 <= i < entries.len() ==> {
            &&& (#[trigger] entries[i]).contra_field_index as int % k == 0
            &&& field_of(entries[i], k) < fields
        }
}

} // verus!

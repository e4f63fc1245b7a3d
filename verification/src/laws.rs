//! What holds of the blocks beyond the contract of any one function.

use vstd::prelude::*;
use vstd::arithmetic::div_mod::lemma_fundamental_div_mod_converse;
use crate::arith::{difference, exponential, product, quotient, sum, Arithmetic};
use crate::bits::{finite, gt, lt, nan, opposite, same, zero, HALF, ONE, TWO, ZERO};
use crate::block::{
    block_encoded, chain_encoded, chain_kept, chain_loaded, chain_prediction, chain_response,
    chain_runs, Block,
};
use crate::block_affm::{BlockAFFM, ATTENTION_CEILING};
use crate::block_helpers::{
    encoded, law_written_store_reads_back, lemma_encoded_len, WeightAndOptimizerData,
};
use crate::block_loss_functions::{
    clipped, gradient_of, logistic_of, probability_of, LOGIT_CEILING, LOGIT_FLOOR,
};
use crate::feature_buffer::{field_of, placed, FeatureBuffer, HashAndValueAndSeq};
use crate::interaction::lemma_cell;
use crate::optimizer::OptimizerTrait;
use crate::update::{rests, settled};

verus! {

/// Two blocks of one shape hold the same weights.
pub open spec fn same_stores<L: OptimizerTrait>(a: &BlockAFFM<L>, b: &BlockAFFM<L>) -> bool {
    &&& a.alike(b)
    &&& a.weights@ == b.weights@
    &&& a.attention_weights@ == b.attention_weights@
}

proof fn lemma_same_contra<L: OptimizerTrait>(
    a: &BlockAFFM<L>,
    b: &BlockAFFM<L>,
    f: Arithmetic,
    entries: Seq<HashAndValueAndSeq>,
    field: int,
    at: int,
    n: nat,
)
    requires
        same_stores(a, b),
    ensures
        a.contra(f, entries, field, at, n) == b.contra(f, entries, field, at, n),
    decreases n,
{
    if n > 0 {
        lemma_same_contra(a, b, f, entries, field, at, (n - 1) as nat);
    }
}

proof fn lemma_same_shrunk<L: OptimizerTrait>(
    a: &BlockAFFM<L>,
    b: &BlockAFFM<L>,
    f: Arithmetic,
    entries: Seq<HashAndValueAndSeq>,
    k: int,
    n: nat,
)
    requires
        same_stores(a, b),
    ensures
        a.shrunk(f, entries, k, n) == b.shrunk(f, entries, k, n),
    decreases n,
{
    if n > 0 {
        lemma_same_shrunk(a, b, f, entries, k, (n - 1) as nat);
    }
}

proof fn lemma_same_paired<L: OptimizerTrait>(
    a: &BlockAFFM<L>,
    b: &BlockAFFM<L>,
    f: Arithmetic,
    entries: Seq<HashAndValueAndSeq>,
    k: int,
    f1: nat,
    upto: nat,
)
    requires
        same_stores(a, b),
    ensures
        a.paired(f, entries, k, f1, upto) == b.paired(f, entries, k, f1, upto),
    decreases f1, upto,
{
    if upto <= f1 {
        if f1 == 0 {
            lemma_same_shrunk(a, b, f, entries, k, entries.len());
        } else {
            lemma_same_paired(a, b, f, entries, k, (f1 - 1) as nat, a.ffm_fields_count as nat);
        }
    } else {
        lemma_same_paired(a, b, f, entries, k, f1, (upto - 1) as nat);
        let n = entries.len();
        lemma_same_contra(a, b, f, entries, f1 as int, (upto - 1) * a.ffm_k + k, n);
        lemma_same_contra(a, b, f, entries, upto - 1, f1 * a.ffm_k + k, n);
    }
}

proof fn lemma_same_gathered<L: OptimizerTrait>(
    a: &BlockAFFM<L>,
    b: &BlockAFFM<L>,
    f: Arithmetic,
    entries: Seq<HashAndValueAndSeq>,
    dims: nat,
)
    requires
        same_stores(a, b),
    ensures
        a.gathered(f, entries, dims) == b.gathered(f, entries, dims),
    decreases dims,
{
    if dims > 0 {
        lemma_same_gathered(a, b, f, entries, (dims - 1) as nat);
        lemma_same_paired(
            a,
            b,
            f,
            entries,
            dims - 1,
            a.ffm_fields_count as nat,
            a.ffm_fields_count as nat,
        );
    }
}

proof fn lemma_same_harvest<L: OptimizerTrait>(
    a: &BlockAFFM<L>,
    b: &BlockAFFM<L>,
    f: Arithmetic,
    entries: Seq<HashAndValueAndSeq>,
    k: int,
    i: nat,
    z: nat,
)
    requires
        same_stores(a, b),
    ensures
        a.harvest(f, entries, k, i, z) == b.harvest(f, entries, k, i, z),
    decreases i, z,
{
    if z > 0 {
        lemma_same_harvest(a, b, f, entries, k, i, (z - 1) as nat);
        let j = (z - 1) * a.ffm_k + k;
        let towards = j / (a.ffm_k as int);
        let dim = j % (a.ffm_k as int);
        lemma_same_contra(
            a,
            b,
            f,
            entries,
            towards,
            entries[i as int].contra_field_index + dim,
            entries.len(),
        );
    } else if i > 0 {
        lemma_same_harvest(a, b, f, entries, k, (i - 1) as nat, a.ffm_fields_count as nat);
    }
}

proof fn lemma_same_reaped<L: OptimizerTrait>(
    a: &BlockAFFM<L>,
    b: &BlockAFFM<L>,
    f: Arithmetic,
    entries: Seq<HashAndValueAndSeq>,
    dims: nat,
)
    requires
        same_stores(a, b),
    ensures
        a.reaped(f, entries, dims) == b.reaped(f, entries, dims),
    decreases dims,
{
    if dims > 0 {
        lemma_same_reaped(a, b, f, entries, (dims - 1) as nat);
        lemma_same_harvest(a, b, f, entries, dims - 1, entries.len(), 0);
    }
}

/// A score depends on nothing but the stores and the example: two blocks of
/// one shape that hold the same weights give every example the same
/// interaction term, in inference and in training.  Nothing that an earlier
/// example left behind enters.
pub proof fn law_interaction_depends_on_stores_only<L: OptimizerTrait>(
    a: &BlockAFFM<L>,
    b: &BlockAFFM<L>,
    f: Arithmetic,
    entries: Seq<HashAndValueAndSeq>,
)
    requires
        same_stores(a, b),
    ensures
        a.interaction(f, entries) == b.interaction(f, entries),
        a.training_interaction(f, entries) == b.training_interaction(f, entries),
{
    lemma_same_gathered(a, b, f, entries, a.ffm_k as nat);
    lemma_same_reaped(a, b, f, entries, a.ffm_k as nat);
}

/// Scoring is repeatable: after any number of examples scored without an
/// update, every example gets the probability, and in training the
/// probability and the loss gradient, that it got before.
pub proof fn law_scoring_without_update_changes_no_score<L: OptimizerTrait>(
    before: Seq<Block<L>>,
    after: Seq<Block<L>>,
    f: Arithmetic,
    wsum_input: u32,
    fb: FeatureBuffer,
)
    requires
        chain_kept(before, after, fb, false),
    ensures
        chain_prediction(after, f, wsum_input, fb) == chain_prediction(before, f, wsum_input, fb),
        chain_response(after, f, wsum_input, fb) == chain_response(before, f, wsum_input, fb),
    decreases before.len(),
{
    if before.len() > 0 {
        match (before[0], after[0]) {
            (Block::AFFM(b), Block::AFFM(a)) => {
                law_interaction_depends_on_stores_only(&a, &b, f, fb.ffm_buffer@);
                law_scoring_without_update_changes_no_score(
                    before.subrange(1, before.len() as int),
                    after.subrange(1, after.len() as int),
                    f,
                    sum(f, b.interaction(f, fb.ffm_buffer@), wsum_input),
                    fb,
                );
                law_scoring_without_update_changes_no_score(
                    before.subrange(1, before.len() as int),
                    after.subrange(1, after.len() as int),
                    f,
                    sum(f, b.training_interaction(f, fb.ffm_buffer@), wsum_input),
                    fb,
                );
            },
            _ => {},
        }
    }
}

/// A field without features collapses to zero, whatever the other fields
/// hold.
pub proof fn law_absent_field_collapses_to_zero<L: OptimizerTrait>(
    block: &BlockAFFM<L>,
    f: Arithmetic,
    entries: Seq<HashAndValueAndSeq>,
    field: int,
    at: int,
    n: nat,
)
    requires
        n <= entries.len(),
        forall|i: int| 0 <= i < n ==> field_of(#[trigger] entries[i], block.ffm_k as int) != field,
    ensures
        block.contra(f, entries, field, at, n) == ZERO,
    decreases n,
{
    if n > 0 {
        law_absent_field_collapses_to_zero(block, f, entries, field, at, (n - 1) as nat);
    }
}

/// No stored attention weight lies above the ceiling, and one that fell
/// below a snap threshold other than zero is stored as zero.
pub proof fn law_attention_is_capped_and_snapped<L: OptimizerTrait>(
    block: &BlockAFFM<L>,
    f: Arithmetic,
    entry: WeightAndOptimizerData,
    gg: u32,
    lean: u32,
)
    ensures
        rests(block.attention_step(f, entry, gg, lean).weight, block.attention_snap_to_zero),
        forall|moved: u32, snap: u32| rests(#[trigger] settled(moved, snap), snap),
        forall|moved: u32, snap: u32| !gt(#[trigger] settled(moved, snap), ATTENTION_CEILING),
        forall|moved: u32, snap: u32|
            !same(snap, ZERO) && lt(moved, snap) ==> #[trigger] settled(moved, snap) == ZERO,
{
}

/// Every update inside the attention horizon settles every attention
/// weight, whatever the loss gradient and whatever the arithmetic unit
/// answers: afterwards none lies above the ceiling, and, with a snap
/// threshold above zero and not above the ceiling, each is zero or not below
/// the threshold.
pub proof fn law_update_settles_every_attention_weight<L: OptimizerTrait>(
    before: &BlockAFFM<L>,
    after: &BlockAFFM<L>,
    fb: FeatureBuffer,
)
    requires
        before.kept_by(after, fb, true),
        fb.example_number < before.attention_horizon,
    ensures
        forall|c: int|
            0 <= c < before.attention_weights_len ==> !gt(
                (#[trigger] after.attention_weights@[c]).weight,
                ATTENTION_CEILING,
            ),
        gt(before.attention_snap_to_zero, ZERO) && !gt(
            before.attention_snap_to_zero,
            ATTENTION_CEILING,
        ) ==> forall|c: int|
            0 <= c < before.attention_weights_len ==> {
                ||| (#[trigger] after.attention_weights@[c]).weight == ZERO
                ||| !lt(after.attention_weights@[c].weight, before.attention_snap_to_zero)
            },
{
    assert forall|c: int| 0 <= c < before.attention_weights_len implies rests(
        (#[trigger] after.attention_weights@[c]).weight,
        before.attention_snap_to_zero,
    ) by {}
}

/// Attention weights that lie at or below the ceiling stay there, whatever
/// examples the block scores or learns from and whatever the arithmetic unit
/// answers.
pub proof fn law_attention_stays_capped<L: OptimizerTrait>(
    before: &BlockAFFM<L>,
    after: &BlockAFFM<L>,
    fb: FeatureBuffer,
    update: bool,
)
    requires
        before.kept_by(after, fb, update),
        forall|c: int|
            0 <= c < before.attention_weights_len ==> !gt(
                (#[trigger] before.attention_weights@[c]).weight,
                ATTENTION_CEILING,
            ),
    ensures
        forall|c: int|
            0 <= c < before.attention_weights_len ==> !gt(
                (#[trigger] after.attention_weights@[c]).weight,
                ATTENTION_CEILING,
            ),
{
    assert forall|c: int| 0 <= c < before.attention_weights_len implies !gt(
        (#[trigger] after.attention_weights@[c]).weight,
        ATTENTION_CEILING,
    ) by {
        if before.attends(fb, update) {
            assert(rests(after.attention_weights@[c].weight, before.attention_snap_to_zero));
        } else {
            assert(!gt(before.attention_weights@[c].weight, ATTENTION_CEILING));
        }
    }
}

/// The link saturates: a logit above 50 gets the probability of 50, one
/// below -50 that of -50, and NaN gets one half.  The exponential is only
/// ever taken of a finite number between -50 and 50, and a logit that was
/// clipped or is NaN gives no gradient.
pub proof fn law_link_saturates(f: Arithmetic, wsum: u32, label: u32, importance: u32)
    ensures
        gt(wsum, LOGIT_CEILING) ==> probability_of(f, wsum) == logistic_of(f, LOGIT_CEILING),
        lt(wsum, LOGIT_FLOOR) ==> probability_of(f, wsum) == logistic_of(f, LOGIT_FLOOR),
        nan(wsum) ==> probability_of(f, wsum) == HALF,
        clipped(wsum) matches Some(t) ==> finite(t) && !lt(t, LOGIT_FLOOR) && !gt(t, LOGIT_CEILING),
        nan(wsum) || gt(wsum, LOGIT_CEILING) || lt(wsum, LOGIT_FLOOR) ==> gradient_of(
            f,
            wsum,
            label,
            importance,
        ) == ZERO,
{
}

/// Block by block, the two chains hold stores of the same lengths.
pub open spec fn chains_match<L: OptimizerTrait>(a: Seq<Block<L>>, b: Seq<Block<L>>) -> bool
    decreases a.len(),
{
    &&& a.len() == b.len()
    &&& a.len() > 0 ==> {
        &&& match (a[0], b[0]) {
            (Block::Sigmoid(_), Block::Sigmoid(_)) => true,
            (Block::AFFM(x), Block::AFFM(y)) => x.weights@.len() == y.weights@.len()
                && x.attention_weights@.len() == y.attention_weights@.len(),
            _ => false,
        }
        &&& chains_match(a.subrange(1, a.len() as int), b.subrange(1, b.len() as int))
    }
}

/// Block by block, the two chains hold the same weights.
pub open spec fn chains_hold_the_same<L: OptimizerTrait>(
    a: Seq<Block<L>>,
    b: Seq<Block<L>>,
) -> bool
    decreases a.len(),
{
    &&& a.len() == b.len()
    &&& a.len() > 0 ==> {
        &&& match (a[0], b[0]) {
            (Block::Sigmoid(_), Block::Sigmoid(_)) => true,
            (Block::AFFM(x), Block::AFFM(y)) => x.weights@ == y.weights@ && x.attention_weights@
                == y.attention_weights@,
            _ => false,
        }
        &&& chains_hold_the_same(a.subrange(1, a.len() as int), b.subrange(1, b.len() as int))
    }
}

/// What is written is what is read: a chain that was filled from the bytes
/// of another chain of the same lengths, wherever in a buffer they stand,
/// holds the weights of that chain.
pub proof fn law_written_chain_reads_back<L: OptimizerTrait>(
    written: Seq<Block<L>>,
    before: Seq<Block<L>>,
    after: Seq<Block<L>>,
    prefix: Seq<u8>,
    suffix: Seq<u8>,
)
    requires
        chains_match(written, before),
        chain_loaded(
            before,
            after,
            prefix + chain_encoded(written) + suffix,
            prefix.len() as int,
        ),
    ensures
        chains_hold_the_same(after, written),
    decreases written.len(),
{
    if written.len() > 0 {
        let input = prefix + chain_encoded(written) + suffix;
        let rest = written.subrange(1, written.len() as int);
        let rest_before = before.subrange(1, before.len() as int);
        let rest_after = after.subrange(1, after.len() as int);
        match (written[0], before[0], after[0]) {
            (Block::AFFM(w), Block::AFFM(b), Block::AFFM(a)) => {
                let embeddings = encoded(w.weights@);
                let attentions = encoded(w.attention_weights@);
                lemma_encoded_len(w.weights@);
                lemma_encoded_len(w.attention_weights@);
                let behind = attentions + chain_encoded(rest) + suffix;
                assert(input =~= prefix + embeddings + behind);
                assert forall|i: int| 0 <= i < w.weights@.len() implies a.weights@[i]
                    == w.weights@[i] by {
                    law_written_store_reads_back(prefix, w.weights@, behind, i);
                }
                assert(a.weights@ =~= w.weights@);
                let ahead = prefix + embeddings;
                let rear = chain_encoded(rest) + suffix;
                assert(input =~= ahead + attentions + rear);
                assert forall|i: int|
                    0 <= i < w.attention_weights@.len() implies a.attention_weights@[i]
                    == w.attention_weights@[i] by {
                    law_written_store_reads_back(ahead, w.attention_weights@, rear, i);
                }
                assert(a.attention_weights@ =~= w.attention_weights@);
                let further = ahead + attentions;
                assert(input =~= further + chain_encoded(rest) + suffix);
                law_written_chain_reads_back(rest, rest_before, rest_after, further, suffix);
            },
            (Block::Sigmoid(_), Block::Sigmoid(_), Block::Sigmoid(_)) => {
                assert(block_encoded(written[0]) =~= Seq::<u8>::empty());
                assert(input =~= prefix + chain_encoded(rest) + suffix);
                law_written_chain_reads_back(rest, rest_before, rest_after, prefix, suffix);
            },
            _ => {},
        }
    }
}

/// The pattern stands for nothing: it is a zero or NaN.
pub open spec fn null(x: u32) -> bool {
    zero(x) || nan(x)
}

/// The arithmetic keeps nothing as nothing, as rounding arithmetic does: a
/// product with a zero or NaN, and a sum or difference of two of them, is a
/// zero or NaN.
pub open spec fn keeps_nothing(f: Arithmetic) -> bool {
    &&& forall|a: u32, b: u32| null(a) || null(b) ==> null(#[trigger] product(f, a, b))
    &&& forall|a: u32, b: u32| null(a) && null(b) ==> null(#[trigger] sum(f, a, b))
    &&& forall|a: u32, b: u32| null(a) && null(b) ==> null(#[trigger] difference(f, a, b))
}

/// The arithmetic links zero to one half, as rounding arithmetic does: the
/// exponential of a zero is one, one and one are two, and one by two is one
/// half.
pub open spec fn halves_at_zero(f: Arithmetic) -> bool {
    &&& forall|z: u32| zero(z) ==> #[trigger] exponential(f, z) == ONE
    &&& sum(f, ONE, ONE) == TWO
    &&& quotient(f, ONE, TWO) == HALF
}

/// The arithmetic takes a number from itself to nothing, as rounding
/// arithmetic does: the difference of a pattern and itself is a zero or NaN.
pub open spec fn cancels(f: Arithmetic) -> bool {
    forall|x: u32| null(#[trigger] difference(f, x, x))
}

/// Every embedding weight of the block is a zero.
pub open spec fn untrained<L: OptimizerTrait>(block: &BlockAFFM<L>) -> bool {
    forall|index: int|
        0 <= index < block.weights@.len() ==> zero((#[trigger] block.weights@[index]).weight)
}

proof fn lemma_null_coordinate<L: OptimizerTrait>(
    block: &BlockAFFM<L>,
    entry: HashAndValueAndSeq,
    at: int,
)
    requires
        block.ready(),
        untrained(block),
        0 <= at < block.field_embedding_len,
    ensures
        null(block.coordinate(entry, at)),
{
    let hash = entry.hash;
    let mask = block.ffm_hash_mask;
    assert(hash & mask <= mask) by (bit_vector);
    assert(null(block.weights@[block.address(hash) + at].weight));
}

proof fn lemma_null_contra<L: OptimizerTrait>(
    block: &BlockAFFM<L>,
    f: Arithmetic,
    entries: Seq<HashAndValueAndSeq>,
    field: int,
    at: int,
    n: nat,
)
    requires
        block.ready(),
        untrained(block),
        keeps_nothing(f),
        0 <= at < block.field_embedding_len,
    ensures
        null(block.contra(f, entries, field, at, n)),
    decreases n,
{
    if n > 0 {
        lemma_null_contra(block, f, entries, field, at, (n - 1) as nat);
        lemma_null_coordinate(block, entries[n - 1], at);
    }
}

proof fn lemma_null_shrunk<L: OptimizerTrait>(
    block: &BlockAFFM<L>,
    f: Arithmetic,
    entries: Seq<HashAndValueAndSeq>,
    k: int,
    n: nat,
)
    requires
        block.ready(),
        untrained(block),
        keeps_nothing(f),
        placed(entries, block.ffm_k as int, block.ffm_fields_count as int),
        0 <= k < block.ffm_k,
        n <= entries.len(),
    ensures
        null(block.shrunk(f, entries, k, n)),
    decreases n,
{
    if n > 0 {
        lemma_null_shrunk(block, f, entries, k, (n - 1) as nat);
        let entry = entries[n - 1];
        let dims = block.ffm_k as int;
        let own = field_of(entry, dims);
        assert(entry.contra_field_index == own * dims) by (nonlinear_arith)
            requires
                entry.contra_field_index as int % dims == 0,
                own == entry.contra_field_index as int / dims,
                dims > 0,
        ;
        lemma_cell(own, k, dims, block.ffm_fields_count as int);
        lemma_null_coordinate(block, entry, entry.contra_field_index + k);
    }
}

proof fn lemma_null_paired<L: OptimizerTrait>(
    block: &BlockAFFM<L>,
    f: Arithmetic,
    entries: Seq<HashAndValueAndSeq>,
    k: int,
    f1: nat,
    upto: nat,
)
    requires
        block.ready(),
        untrained(block),
        keeps_nothing(f),
        placed(entries, block.ffm_k as int, block.ffm_fields_count as int),
        0 <= k < block.ffm_k,
        f1 <= block.ffm_fields_count,
        upto <= block.ffm_fields_count,
    ensures
        null(block.paired(f, entries, k, f1, upto)),
    decreases f1, upto,
{
    let fields = block.ffm_fields_count as nat;
    if upto <= f1 {
        if f1 == 0 {
            lemma_null_shrunk(block, f, entries, k, entries.len());
        } else {
            lemma_null_paired(block, f, entries, k, (f1 - 1) as nat, fields);
        }
    } else {
        lemma_null_paired(block, f, entries, k, f1, (upto - 1) as nat);
        lemma_cell(upto - 1, k, block.ffm_k as int, fields as int);
        lemma_cell(f1 as int, k, block.ffm_k as int, fields as int);
        let n = entries.len();
        lemma_null_contra(block, f, entries, f1 as int, (upto - 1) * block.ffm_k + k, n);
        lemma_null_contra(block, f, entries, upto - 1, f1 * block.ffm_k + k, n);
    }
}

proof fn lemma_null_gathered<L: OptimizerTrait>(
    block: &BlockAFFM<L>,
    f: Arithmetic,
    entries: Seq<HashAndValueAndSeq>,
    dims: nat,
)
    requires
        block.ready(),
        untrained(block),
        keeps_nothing(f),
        placed(entries, block.ffm_k as int, block.ffm_fields_count as int),
        dims <= block.ffm_k,
    ensures
        null(block.gathered(f, entries, dims)),
    decreases dims,
{
    if dims > 0 {
        lemma_null_gathered(block, f, entries, (dims - 1) as nat);
        lemma_null_paired(
            block,
            f,
            entries,
            dims - 1,
            block.ffm_fields_count as nat,
            block.ffm_fields_count as nat,
        );
    }
}

/// A block without trained weights adds nothing to the logit: where every
/// embedding weight is a zero, the interaction term of every example,
/// whatever its features and their number, is a zero or NaN.
pub proof fn law_untrained_block_adds_nothing<L: OptimizerTrait>(
    block: &BlockAFFM<L>,
    f: Arithmetic,
    fb: FeatureBuffer,
)
    requires
        block.ready(),
        block.fits(fb),
        untrained(block),
        keeps_nothing(f),
    ensures
        null(block.interaction(f, fb.ffm_buffer@)),
{
    lemma_null_gathered(block, f, fb.ffm_buffer@, block.ffm_k as nat);
}

/// A feature alone gives no signal: in an example of one feature, the
/// derivative of the logit by every coordinate of the feature's embedding is
/// a zero or NaN.  Toward its own field the feature meets only itself, and
/// its own share is taken out; toward every other field it meets nothing.
pub proof fn law_lone_feature_has_no_slope<L: OptimizerTrait>(
    block: &BlockAFFM<L>,
    f: Arithmetic,
    entries: Seq<HashAndValueAndSeq>,
    j: int,
)
    requires
        block.ffm_k > 0,
        entries.len() == 1,
        entries[0].contra_field_index as int % block.ffm_k as int == 0,
        0 <= j,
        keeps_nothing(f),
        cancels(f),
    ensures
        null(block.slope(f, entries, 0, j)),
{
    let dims = block.ffm_k as int;
    let entry = entries[0];
    let z = j / dims;
    let k = j % dims;
    let own = field_of(entry, dims);
    assert(block.contra(f, entries, z, entry.contra_field_index + k, 0) == ZERO);
    if z == own {
        assert(entry.contra_field_index == z * dims) by (nonlinear_arith)
            requires
                entry.contra_field_index as int % dims == 0,
                z == entry.contra_field_index as int / dims,
                dims > 0,
        ;
        let share = product(f, block.coordinate(entry, z * dims + k), entry.value);
        assert(block.contra(f, entries, z, entry.contra_field_index + k, 1) == share);
        assert(null(difference(f, share, share)));
    }
    assert(null(block.pull(f, entries, 0, z, k)));
}

/// Feature `i` is the only feature of its field among the first `n`.
pub open spec fn alone_in_its_field(
    entries: Seq<HashAndValueAndSeq>,
    dims: int,
    i: int,
    n: int,
) -> bool {
    forall|t: int|
        0 <= t < n && t != i ==> field_of(#[trigger] entries[t], dims) != field_of(entries[i], dims)
}

/// The collapsed embedding of a field with one feature is that feature's
/// embedding, scaled by its value.
pub proof fn lemma_contra_of_one<L: OptimizerTrait>(
    block: &BlockAFFM<L>,
    f: Arithmetic,
    entries: Seq<HashAndValueAndSeq>,
    i: int,
    at: int,
    n: nat,
)
    requires
        block.ffm_k > 0,
        0 <= i < n <= entries.len(),
        alone_in_its_field(entries, block.ffm_k as int, i, n as int),
    ensures
        block.contra(f, entries, field_of(entries[i], block.ffm_k as int), at, n) == product(
            f,
            block.coordinate(entries[i], at),
            entries[i].value,
        ),
    decreases n,
{
    let own = field_of(entries[i], block.ffm_k as int);
    if n == i + 1 {
        law_absent_field_collapses_to_zero(block, f, entries, own, at, i as nat);
        if i > 0 {
            assert(field_of(entries[i - 1], block.ffm_k as int) != own);
        }
    } else {
        lemma_contra_of_one(block, f, entries, i, at, (n - 1) as nat);
        assert(field_of(entries[n - 1], block.ffm_k as int) != own);
    }
}

/// No feature meets itself: where a feature is the only one of its field,
/// what it meets in its own field, its own share taken out, is a zero or
/// NaN, and so is the derivative of the logit by its coordinates toward its
/// own field.  No term in the feature alone remains in the interaction that
/// training computes.
pub proof fn law_feature_alone_in_its_field_meets_nothing<L: OptimizerTrait>(
    block: &BlockAFFM<L>,
    f: Arithmetic,
    entries: Seq<HashAndValueAndSeq>,
    i: int,
    k: int,
)
    requires
        block.ffm_k > 0,
        0 <= i < entries.len(),
        0 <= k < block.ffm_k,
        entries[i].contra_field_index as int % block.ffm_k as int == 0,
        alone_in_its_field(entries, block.ffm_k as int, i, entries.len() as int),
        keeps_nothing(f),
        cancels(f),
    ensures
        null(block.pull(f, entries, i, field_of(entries[i], block.ffm_k as int), k)),
        null(
            block.slope(
                f,
                entries,
                i,
                field_of(entries[i], block.ffm_k as int) * block.ffm_k + k,
            ),
        ),
{
    let dims = block.ffm_k as int;
    let entry = entries[i];
    let own = field_of(entry, dims);
    assert(entry.contra_field_index == own * dims) by (nonlinear_arith)
        requires
            entry.contra_field_index as int % dims == 0,
            own == entry.contra_field_index as int / dims,
            dims > 0,
    ;
    lemma_contra_of_one(block, f, entries, i, entry.contra_field_index + k, entries.len());
    let share = product(f, block.coordinate(entry, own * dims + k), entry.value);
    assert(null(difference(f, share, share)));
    assert(null(block.pull(f, entries, i, own, k)));
    lemma_fundamental_div_mod_converse(own * dims + k, dims, own, k);
}

/// Every interaction block of the chain is without trained weights.
pub open spec fn chain_untrained<L: OptimizerTrait>(blocks: Seq<Block<L>>) -> bool
    decreases blocks.len(),
{
    blocks.len() > 0 ==> {
        &&& match blocks[0] {
            Block::Sigmoid(_) => true,
            Block::AFFM(b) => untrained(&b),
        }
        &&& chain_untrained(blocks.subrange(1, blocks.len() as int))
    }
}

/// A model without trained weights gives every example the probability one
/// half, whatever its features and their number: entered with a logit of
/// zero, a chain whose embedding weights are all zero hands the link a zero
/// or NaN, and the link of either is one half.
pub proof fn law_untrained_model_predicts_one_half<L: OptimizerTrait>(
    blocks: Seq<Block<L>>,
    f: Arithmetic,
    wsum_input: u32,
    fb: FeatureBuffer,
)
    requires
        chain_runs(blocks, fb),
        chain_untrained(blocks),
        keeps_nothing(f),
        halves_at_zero(f),
        null(wsum_input),
    ensures
        chain_prediction(blocks, f, wsum_input, fb) == HALF,
    decreases blocks.len(),
{
    match blocks[0] {
        Block::Sigmoid(_) => {
            if !nan(wsum_input) {
                assert(zero(opposite(wsum_input)));
                assert(clipped(wsum_input) == Some(wsum_input));
            }
        },
        Block::AFFM(b) => {
            law_untrained_block_adds_nothing(&b, f, fb);
            law_untrained_model_predicts_one_half(
                blocks.subrange(1, blocks.len() as int),
                f,
                sum(f, b.interaction(f, fb.ffm_buffer@), wsum_input),
                fb,
            );
        },
    }
}

} // verus!

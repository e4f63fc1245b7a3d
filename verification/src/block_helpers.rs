//! What the blocks share: the stored weight, and the two-block chain of a
//! modelling block and a link.

use vstd::prelude::*;
use vstd::bytes::{
    lemma_auto_spec_u32_to_from_le_bytes, spec_u32_from_le_bytes, spec_u32_to_le_bytes,
    u32_from_le_bytes, u32_to_le_bytes,
};
use vstd::slice::slice_subrange;
use crate::arith::{answer, functional, total, Request};
use crate::bits::ZERO;
use crate::block::{
    chain_kept, chain_prediction, chain_response, chain_runs, chain_taught, Block,
};
use crate::block_loss_functions::BlockSigmoid;
use crate::feature_buffer::FeatureBuffer;
use crate::optimizer::OptimizerTrait;

verus! {

/// A weight with the accumulator of its optimizer.
#[derive(Clone, Copy, PartialEq, Eq, Structural, Debug)]
pub struct WeightAndOptimizerData {
    pub weight: u32,
    pub optimizer_data: u32,
}

/// Bytes of one stored weight: the weight, then its accumulator, four bytes
/// each.
pub const WEIGHT_RECORD_LEN: usize = 8;

/// Why a store cannot be read from a buffer.
#[derive(Clone, Copy, PartialEq, Eq, Structural, Debug)]
pub enum LoadError {
    /// The buffer ends before the store is full: `weights` records were to
    /// be read from the read position on, where `found` bytes were left.
    Truncated { weights: usize, found: usize },
    /// The store to fill holds `found` weights where `expected` were to be
    /// read.
    ShapeMismatch { expected: usize, found: usize },
    /// The buffer holds `found` bytes where the stores take `expected`.
    Excess { expected: usize, found: usize },
}

/// The bytes of one stored weight: the weight, then its accumulator, each
/// with its least significant byte first.
pub open spec fn record(entry: WeightAndOptimizerData) -> Seq<u8> {
    spec_u32_to_le_bytes(entry.weight) + spec_u32_to_le_bytes(entry.optimizer_data)
}

/// The bytes of a store: the records of its weights in index order.
pub open spec fn encoded(weights: Seq<WeightAndOptimizerData>) -> Seq<u8>
    decreases weights.len(),
{
    if weights.len() == 0 {
        Seq::empty()
    } else {
        encoded(weights.drop_last()) + record(weights.last())
    }
}

/// The stored weight that record `i` after position `at` of a buffer
/// holds.
pub open spec fn decoded(input: Seq<u8>, at: int, i: int) -> WeightAndOptimizerData {
    let from = at + i * 8;
    WeightAndOptimizerData {
        weight: spec_u32_from_le_bytes(input.subrange(from, from + 4)),
        optimizer_data: spec_u32_from_le_bytes(input.subrange(from + 4, from + 8)),
    }
}

/// A store's bytes are eight per weight.
pub proof fn lemma_encoded_len(weights: Seq<WeightAndOptimizerData>)
    ensures
        encoded(weights).len() == weights.len() * 8,
    decreases weights.len(),
{
    lemma_auto_spec_u32_to_from_le_bytes();
    if weights.len() > 0 {
        lemma_encoded_len(weights.drop_last());
    }
}

/// Reading back what was written gives the store that was written: record
/// `i` of the bytes of a store, wherever in a buffer they stand, decodes to
/// weight `i`.
pub proof fn law_written_store_reads_back(
    before: Seq<u8>,
    weights: Seq<WeightAndOptimizerData>,
    after: Seq<u8>,
    i: int,
)
    requires
        0 <= i < weights.len(),
    ensures
        decoded(before + encoded(weights) + after, before.len() as int, i) == weights[i],
    decreases weights.len(),
{
    lemma_auto_spec_u32_to_from_le_bytes();
    lemma_encoded_len(weights);
    lemma_encoded_len(weights.drop_last());
    let whole = before + encoded(weights) + after;
    let from = before.len() + i * 8;
    if i == weights.len() - 1 {
        let entry = weights.last();
        assert(encoded(weights) == encoded(weights.drop_last()) + record(entry));
        assert(whole.subrange(from, from + 4) =~= spec_u32_to_le_bytes(entry.weight));
        assert(whole.subrange(from + 4, from + 8) =~= spec_u32_to_le_bytes(entry.optimizer_data));
    } else {
        let shorter = weights.drop_last();
        let rest = record(weights.last()) + after;
        law_written_store_reads_back(before, shorter, rest, i);
        assert(before + encoded(shorter) + rest =~= whole);
        assert(shorter[i] == weights[i]);
    }
}

/// Appends the bytes of a store to `output`.
pub fn write_weights_to_buf(weights: &Vec<WeightAndOptimizerData>, output: &mut Vec<u8>)
    ensures
        final(output)@ == old(output)@ + encoded(weights@),
{
    let n = weights.len();
    let mut i: usize = 0;
    assert(weights@.subrange(0, 0) =~= Seq::empty());
    assert(old(output)@ + encoded(Seq::empty()) =~= old(output)@);
    while i < n
        invariant
            i <= n,
            n == weights@.len(),
            output@ == old(output)@ + encoded(weights@.subrange(0, i as int)),
        decreases n - i,
    {
        let entry = weights[i];
        let head = u32_to_le_bytes(entry.weight);
        let tail = u32_to_le_bytes(entry.optimizer_data);
        let ghost so_far = output@;
        output.extend_from_slice(head.as_slice());
        output.extend_from_slice(tail.as_slice());
        proof {
            let longer = weights@.subrange(0, i + 1);
            assert(longer.drop_last() =~= weights@.subrange(0, i as int));
            assert(longer.last() == entry);
            assert(output@ =~= so_far + record(entry));
            assert(output@ =~= old(output)@ + encoded(longer));
        }
        i += 1;
    }
    assert(weights@.subrange(0, n as int) =~= weights@);
}

/// Fills a store from the buffer, starting at position `at`, and returns the
/// position after the last byte read.  Fails, and leaves the store as it
/// was, where the buffer ends before the store is full.
pub fn read_weights_from_buf(
    weights: &mut Vec<WeightAndOptimizerData>,
    input: &[u8],
    at: usize,
) -> (r: Result<usize, LoadError>)
    ensures
        final(weights)@.len() == old(weights)@.len(),
        r is Ok <==> at + old(weights)@.len() * 8 <= input@.len(),
        r matches Ok(next) ==> {
            &&& next == at + old(weights)@.len() * 8
            &&& forall|i: int|
                0 <= i < old(weights)@.len() ==> #[trigger] final(weights)@[i] == decoded(
                    input@,
                    at as int,
                    i,
                )
        },
        r matches Err(e) ==> {
            &&& final(weights)@ == old(weights)@
            &&& e == (LoadError::Truncated {
                weights: old(weights)@.len() as usize,
                found: if at <= input@.len() {
                    (input@.len() - at) as usize
                } else {
                    0
                },
            })
        },
{
    let n = weights.len();
    let left: usize = if at <= input.len() {
        input.len() - at
    } else {
        0
    };
    if at > input.len() || n > left / 8 {
        return Err(LoadError::Truncated { weights: n, found: left });
    }
    let ghost room = input.len();
    let mut i: usize = 0;
    while i < n
        invariant
            i <= n,
            n == weights@.len(),
            n == old(weights)@.len(),
            room == input@.len(),
            at + n * 8 <= room,
            forall|a: int|
                0 <= a < i ==> #[trigger] weights@[a] == decoded(input@, at as int, a),
        decreases n - i,
    {
        let from = at + i * 8;
        let weight = u32_from_le_bytes(slice_subrange(input, from, from + 4));
        let optimizer_data = u32_from_le_bytes(slice_subrange(input, from + 4, from + 8));
        weights[i] = WeightAndOptimizerData { weight, optimizer_data };
        i += 1;
    }
    Ok(at + n * 8)
}

/// Fills the weights of a store from the buffer, which holds a record of
/// weight and accumulator for each, and leaves the accumulators of the store
/// as they are.  Returns the position after the last byte read.  Fails, and
/// leaves the store as it was, where the store does not hold `weights_len`
/// weights or the buffer ends before the store is full.
pub fn read_weights_only_from_buf2(
    weights_len: usize,
    out_weights: &mut Vec<WeightAndOptimizerData>,
    input: &[u8],
    at: usize,
) -> (r: Result<usize, LoadError>)
    ensures
        final(out_weights)@.len() == old(out_weights)@.len(),
        r is Ok <==> weights_len == old(out_weights)@.len() && at + weights_len * 8
            <= input@.len(),
        r matches Ok(next) ==> {
            &&& next == at + weights_len * 8
            &&& forall|i: int|
                0 <= i < weights_len ==> #[trigger] final(out_weights)@[i] == (
                WeightAndOptimizerData {
                    weight: decoded(input@, at as int, i).weight,
                    optimizer_data: old(out_weights)@[i].optimizer_data,
                })
        },
        r matches Err(e) ==> {
            &&& final(out_weights)@ == old(out_weights)@
            &&& e == (if weights_len != old(out_weights)@.len() {
                LoadError::ShapeMismatch {
                    expected: weights_len,
                    found: old(out_weights)@.len() as usize,
                }
            } else {
                LoadError::Truncated {
                    weights: weights_len,
                    found: if at <= input@.len() {
                        (input@.len() - at) as usize
                    } else {
                        0
                    },
                }
            })
        },
{
    let n = out_weights.len();
    if weights_len != n {
        return Err(LoadError::ShapeMismatch { expected: weights_len, found: n });
    }
    let left: usize = if at <= input.len() {
        input.len() - at
    } else {
        0
    };
    if at > input.len() || n > left / 8 {
        return Err(LoadError::Truncated { weights: n, found: left });
    }
    let ghost room = input.len();
    let mut i: usize = 0;
    while i < n
        invariant
            i <= n,
            n == out_weights@.len(),
            n == old(out_weights)@.len(),
            room == input@.len(),
            at + n * 8 <= room,
            forall|a: int| i <= a < n ==> #[trigger] out_weights@[a] == old(out_weights)@[a],
            forall|a: int|
                0 <= a < i ==> #[trigger] out_weights@[a] == (WeightAndOptimizerData {
                    weight: decoded(input@, at as int, a).weight,
                    optimizer_data: old(out_weights)@[a].optimizer_data,
                }),
        decreases n - i,
    {
        let from = at + i * 8;
        let weight = u32_from_le_bytes(slice_subrange(input, from, from + 4));
        let kept = out_weights[i].optimizer_data;
        out_weights[i] = WeightAndOptimizerData { weight, optimizer_data: kept };
        i += 1;
    }
    Ok(at + n * 8)
}

/// The two blocks can score the example as a chain: the first is an
/// interaction block that is ready and fits the example, the second is the
/// link.
pub open spec fn pair_runs<L: OptimizerTrait>(
    block_run: Block<L>,
    block_loss_function: Block<L>,
    fb: FeatureBuffer,
) -> bool {
    &&& block_loss_function is Sigmoid
    &&& block_run matches Block::AFFM(b) && b.ready() && b.fits(fb)
}

/// Tells whether the two blocks can score the example as a chain.
pub fn pair_accepts<L: OptimizerTrait>(
    block_run: &Block<L>,
    block_loss_function: &Block<L>,
    fb: &FeatureBuffer,
) -> (r: bool)
    ensures
        r == pair_runs(*block_run, *block_loss_function, *fb),
{
    match block_loss_function {
        Block::Sigmoid(_) => match block_run {
            Block::AFFM(b) => b.is_ready() && b.accepts(fb),
            Block::Sigmoid(_) => false,
        },
        Block::AFFM(_) => false,
    }
}

/// Two blocks that can score an example as a chain are a chain that can
/// score it.
pub proof fn lemma_pair_is_chain<L: OptimizerTrait>(
    block_run: Block<L>,
    block_loss_function: Block<L>,
    fb: FeatureBuffer,
)
    requires
        pair_runs(block_run, block_loss_function, fb),
    ensures
        chain_runs(seq![block_run, block_loss_function], fb),
{
    let chain = seq![block_run, block_loss_function];
    let rest = chain.subrange(1, 2);
    assert(rest =~= seq![block_loss_function]);
    assert(chain_runs(rest, fb));
}

/// Scores the example with `block_run` followed by `block_loss_function`.
/// Neither block changes.
pub fn spredict<L: OptimizerTrait, F: Fn(Request) -> u32>(
    block_run: &mut Block<L>,
    block_loss_function: &mut Block<L>,
    fb: &FeatureBuffer,
    update: bool,
    unit: &F,
) -> (p: u32)
    requires
        pair_runs(*old(block_run), *old(block_loss_function), *fb),
        total(unit),
    ensures
        *final(block_run) == *old(block_run),
        *final(block_loss_function) == *old(block_loss_function),
        functional(unit) ==> p == chain_prediction(
            seq![*old(block_run), *old(block_loss_function)],
            answer(unit),
            ZERO,
            *fb,
        ),
{
    proof {
        lemma_pair_is_chain(*block_run, *block_loss_function, *fb);
    }
    let mut further: Vec<Block<L>> = Vec::new();
    further.push(Block::Sigmoid(BlockSigmoid::new_without_weights()));
    core::mem::swap(&mut further[0], block_loss_function);
    assert(seq![*block_run] + further@ =~= seq![*old(block_run), *old(block_loss_function)]);
    let p = block_run.forward(further.as_slice(), ZERO, fb, unit);
    core::mem::swap(&mut further[0], block_loss_function);
    p
}

/// Scores the example in training with `block_run` followed by
/// `block_loss_function` and, where `update` is set, learns from it.
pub fn slearn<L: OptimizerTrait, F: Fn(Request) -> u32>(
    block_run: &mut Block<L>,
    block_loss_function: &mut Block<L>,
    fb: &FeatureBuffer,
    update: bool,
    unit: &F,
) -> (p: u32)
    requires
        pair_runs(*old(block_run), *old(block_loss_function), *fb),
        total(unit),
    ensures
        pair_runs(*final(block_run), *final(block_loss_function), *fb),
        chain_kept(
            seq![*old(block_run), *old(block_loss_function)],
            seq![*final(block_run), *final(block_loss_function)],
            *fb,
            update,
        ),
        functional(unit) ==> p == chain_response(
            seq![*old(block_run), *old(block_loss_function)],
            answer(unit),
            ZERO,
            *fb,
        ).0,
        functional(unit) ==> chain_taught(
            seq![*old(block_run), *old(block_loss_function)],
            seq![*final(block_run), *final(block_loss_function)],
            answer(unit),
            ZERO,
            *fb,
            update,
        ),
{
    proof {
        lemma_pair_is_chain(*block_run, *block_loss_function, *fb);
    }
    let mut further: Vec<Block<L>> = Vec::new();
    further.push(Block::Sigmoid(BlockSigmoid::new_without_weights()));
    core::mem::swap(&mut further[0], block_loss_function);
    assert(seq![*block_run] + further@ =~= seq![*old(block_run), *old(block_loss_function)]);
    let r = block_run.forward_backward(further.as_mut_slice(), ZERO, fb, update, unit);
    let ghost after = seq![*block_run] + further@;
    assert(after.len() == 2);
    core::mem::swap(&mut further[0], block_loss_function);
    proof {
        assert(seq![*block_run, *block_loss_function] =~= after);
        let rest = after.subrange(1, 2);
        assert(rest =~= seq![*block_loss_function]);
        assert(chain_runs(after, *fb));
        assert(chain_runs(rest, *fb));
        assert(!chain_runs(rest.subrange(1, 1), *fb));
    }
    r.0
}

} // verus!

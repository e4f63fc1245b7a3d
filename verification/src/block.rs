//! The chain of blocks.  Each block adds its part to the logit that it is
//! handed and passes the sum on; the last block, the link, turns the sum into
//! a probability and a loss gradient, which travel back up the chain.

use vstd::prelude::*;
use crate::arith::{answer, functional, sum, total, Arithmetic, Request};
use crate::bits::{HALF, ZERO};
use crate::block_affm::BlockAFFM;
use crate::block_helpers::{decoded, encoded, LoadError};
use crate::block_loss_functions::{gradient_of, probability_of, BlockSigmoid};
use crate::feature_buffer::FeatureBuffer;
use crate::model_instance::ModelInstance;
use crate::optimizer::OptimizerTrait;

verus! {

/// A block of the chain.
pub enum Block<L: OptimizerTrait> {
    AFFM(BlockAFFM<L>),
    Sigmoid(BlockSigmoid),
}

/// The chain can score the example: it ends in the link, the link stands
/// nowhere else, and every block before it is ready and fits the example.
pub open spec fn chain_runs<L: OptimizerTrait>(blocks: Seq<Block<L>>, fb: FeatureBuffer) -> bool
    decreases blocks.len(),
{
    &&& blocks.len() > 0
    &&& match blocks[0] {
        Block::Sigmoid(_) => blocks.len() == 1,
        Block::AFFM(b) => b.ready() && b.fits(fb) && chain_runs(
            blocks.subrange(1, blocks.len() as int),
            fb,
        ),
    }
}

/// The probability that the chain gives an example, entered with the logit
/// `wsum_input`.
pub open spec fn chain_prediction<L: OptimizerTrait>(
    blocks: Seq<Block<L>>,
    f: Arithmetic,
    wsum_input: u32,
    fb: FeatureBuffer,
) -> u32
    decreases blocks.len(),
{
    if blocks.len() == 0 {
        HALF
    } else {
        match blocks[0] {
            Block::Sigmoid(_) => probability_of(f, wsum_input),
            Block::AFFM(b) => chain_prediction(
                blocks.subrange(1, blocks.len() as int),
                f,
                sum(f, b.interaction(f, fb.ffm_buffer@), wsum_input),
                fb,
            ),
        }
    }
}

/// Tells whether the chain can score the example.
pub fn chain_accepts<L: OptimizerTrait>(blocks: &[Block<L>], fb: &FeatureBuffer) -> (r: bool)
    ensures
        r == chain_runs(blocks@, *fb),
{
    let n = blocks.len();
    if n == 0 {
        return false;
    }
    let mut i: usize = 0;
    assert(blocks@.subrange(0, n as int) =~= blocks@);
    while i < n
        invariant
            i <= n,
            0 < n == blocks@.len(),
            chain_runs(blocks@, *fb) == chain_runs(blocks@.subrange(i as int, n as int), *fb),
        decreases n - i,
    {
        let ghost rest = blocks@.subrange(i as int, n as int);
        assert(rest.subrange(1, rest.len() as int) =~= blocks@.subrange(i + 1, n as int));
        assert(rest[0] == blocks@[i as int]);
        match &blocks[i] {
            Block::Sigmoid(_) => {
                return i + 1 == n;
            },
            Block::AFFM(b) => {
                if !b.is_ready() || !b.accepts(fb) {
                    return false;
                }
            },
        }
        i += 1;
    }
    false
}

/// Scores the example with the chain, entered with the logit `wsum_input`.
pub fn forward_chain<L: OptimizerTrait, F: Fn(Request) -> u32>(
    blocks: &[Block<L>],
    wsum_input: u32,
    fb: &FeatureBuffer,
    unit: &F,
) -> (p: u32)
    requires
        chain_runs(blocks@, *fb),
        total(unit),
    ensures
        functional(unit) ==> p == chain_prediction(blocks@, answer(unit), wsum_input, *fb),
    decreases blocks@.len(), 1int,
{
    let (head, rest) = blocks.split_at(1);
    match &head[0] {
        Block::Sigmoid(link) => link.forward(wsum_input, fb, unit),
        Block::AFFM(b) => b.forward(rest, wsum_input, fb, unit),
    }
}

/// The probability and the loss gradient that the chain gives an example in
/// training, entered with the logit `wsum_input`.
pub open spec fn chain_response<L: OptimizerTrait>(
    blocks: Seq<Block<L>>,
    f: Arithmetic,
    wsum_input: u32,
    fb: FeatureBuffer,
) -> (u32, u32)
    decreases blocks.len(),
{
    if blocks.len() == 0 {
        (HALF, ZERO)
    } else {
        match blocks[0] {
            Block::Sigmoid(_) => (
                probability_of(f, wsum_input),
                gradient_of(f, wsum_input, fb.label, fb.example_importance),
            ),
            Block::AFFM(b) => chain_response(
                blocks.subrange(1, blocks.len() as int),
                f,
                sum(f, b.training_interaction(f, fb.ffm_buffer@), wsum_input),
                fb,
            ),
        }
    }
}

/// What holds of a chain after an example whatever the arithmetic unit
/// answered: block by block, `after` is `before` kept (see
/// `BlockAFFM::kept_by`).
pub open spec fn chain_kept<L: OptimizerTrait>(
    before: Seq<Block<L>>,
    after: Seq<Block<L>>,
    fb: FeatureBuffer,
    update: bool,
) -> bool
    decreases before.len(),
{
    &&& before.len() == after.len()
    &&& before.len() > 0 ==> {
        &&& match (before[0], after[0]) {
            (Block::Sigmoid(_), Block::Sigmoid(_)) => true,
            (Block::AFFM(b), Block::AFFM(a)) => b.kept_by(&a, fb, update),
            _ => false,
        }
        &&& chain_kept(
            before.subrange(1, before.len() as int),
            after.subrange(1, after.len() as int),
            fb,
            update,
        )
    }
}

/// Block by block, the stores of `after` are those of `before` after the
/// example, each block taught with the loss gradient of the chain.
pub open spec fn chain_taught<L: OptimizerTrait>(
    before: Seq<Block<L>>,
    after: Seq<Block<L>>,
    f: Arithmetic,
    wsum_input: u32,
    fb: FeatureBuffer,
    update: bool,
) -> bool
    decreases before.len(),
{
    &&& before.len() == after.len()
    &&& before.len() > 0 ==> match (before[0], after[0]) {
        (Block::Sigmoid(_), Block::Sigmoid(_)) => true,
        (Block::AFFM(b), Block::AFFM(a)) => {
            let passed = sum(f, b.training_interaction(f, fb.ffm_buffer@), wsum_input);
            let rest = before.subrange(1, before.len() as int);
            &&& b.taught(&a, f, fb, chain_response(rest, f, passed, fb).1, update)
            &&& chain_taught(rest, after.subrange(1, after.len() as int), f, passed, fb, update)
        },
        _ => false,
    }
}

/// Scores the example with the chain in training, entered with the logit
/// `wsum_input`, and lets every block learn from it where `update` is set.
pub fn forward_backward_chain<L: OptimizerTrait, F: Fn(Request) -> u32>(
    blocks: &mut [Block<L>],
    wsum_input: u32,
    fb: &FeatureBuffer,
    update: bool,
    unit: &F,
) -> (r: (u32, u32))
    requires
        chain_runs(old(blocks)@, *fb),
        total(unit),
    ensures
        chain_runs(final(blocks)@, *fb),
        chain_kept(old(blocks)@, final(blocks)@, *fb, update),
        functional(unit) ==> r == chain_response(old(blocks)@, answer(unit), wsum_input, *fb),
        functional(unit) ==> chain_taught(
            old(blocks)@,
            final(blocks)@,
            answer(unit),
            wsum_input,
            *fb,
            update,
        ),
    decreases old(blocks)@.len(), 1int,
{
    let ghost before = blocks@;
    let (head, rest) = blocks.split_at_mut(1);
    let ghost rest_before = rest@;
    assert(rest_before =~= before.subrange(1, before.len() as int));
    let r = match &mut head[0] {
        Block::Sigmoid(link) => link.forward_backward(wsum_input, fb, unit),
        Block::AFFM(b) => b.forward_backward(rest, wsum_input, fb, update, unit),
    };
    proof {
        let after = head@ + rest@;
        assert(head@.len() == 1);
        assert(after.subrange(1, after.len() as int) =~= rest@);
        assert(after[0] == head@[0]);
        assert(chain_kept(rest_before, rest@, *fb, update));
        assert(before[0] is Sigmoid ==> after[0] is Sigmoid);
        assert(chain_kept(before, after, *fb, update));
    }
    r
}

impl<L: OptimizerTrait> Block<L> {
    /// Scores the example with this block and the blocks after it.
    pub fn forward<F: Fn(Request) -> u32>(
        &self,
        further_blocks: &[Block<L>],
        wsum_input: u32,
        fb: &FeatureBuffer,
        unit: &F,
    ) -> (p: u32)
        requires
            chain_runs(seq![*self] + further_blocks@, *fb),
            total(unit),
        ensures
            functional(unit) ==> p == chain_prediction(
                seq![*self] + further_blocks@,
                answer(unit),
                wsum_input,
                *fb,
            ),
    {
        proof {
            let whole = seq![*self] + further_blocks@;
            assert(whole.subrange(1, whole.len() as int) =~= further_blocks@);
        }
        match self {
            Block::Sigmoid(link) => link.forward(wsum_input, fb, unit),
            Block::AFFM(b) => b.forward(further_blocks, wsum_input, fb, unit),
        }
    }

    /// Scores the example in training with this block and the blocks after
    /// it, and lets every block learn from it where `update` is set.
    pub fn forward_backward<F: Fn(Request) -> u32>(
        &mut self,
        further_blocks: &mut [Block<L>],
        wsum_input: u32,
        fb: &FeatureBuffer,
        update: bool,
        unit: &F,
    ) -> (r: (u32, u32))
        requires
            chain_runs(seq![*old(self)] + old(further_blocks)@, *fb),
            total(unit),
        ensures
            chain_runs(seq![*final(self)] + final(further_blocks)@, *fb),
            chain_kept(
                seq![*old(self)] + old(further_blocks)@,
                seq![*final(self)] + final(further_blocks)@,
                *fb,
                update,
            ),
            functional(unit) ==> r == chain_response(
                seq![*old(self)] + old(further_blocks)@,
                answer(unit),
                wsum_input,
                *fb,
            ),
            functional(unit) ==> chain_taught(
                seq![*old(self)] + old(further_blocks)@,
                seq![*final(self)] + final(further_blocks)@,
                answer(unit),
                wsum_input,
                *fb,
                update,
            ),
    {
        let ghost before = seq![*self] + further_blocks@;
        assert(before.subrange(1, before.len() as int) =~= further_blocks@);
        let r = match self {
            Block::Sigmoid(link) => link.forward_backward(wsum_input, fb, unit),
            Block::AFFM(b) => b.forward_backward(further_blocks, wsum_input, fb, update, unit),
        };
        proof {
            let after = seq![*self] + further_blocks@;
            assert(after.subrange(1, after.len() as int) =~= further_blocks@);
            assert(chain_kept(
                before.subrange(1, before.len() as int),
                further_blocks@,
                *fb,
                update,
            ));
            assert(chain_kept(before, after, *fb, update));
        }
        r
    }

    /// Allocates and fills the stores of the block, where it has any.
    pub fn allocate_and_init_weights<F: Fn(Request) -> u32>(
        &mut self,
        mi: &ModelInstance,
        unit: &F,
    )
        requires
            *old(self) matches Block::AFFM(b) ==> (b.shaped() || b.hollow())
                && b.optimizer_ffm.wf() && b.optimizer_attention.wf(),
            total(unit),
        ensures
            *old(self) is Sigmoid ==> *final(self) is Sigmoid,
            *old(self) matches Block::AFFM(b) ==> *final(self) matches Block::AFFM(a) && b.started(
                &a,
                *mi,
            ) && (functional(unit) ==> b.drawn(&a, answer(unit), *mi)),
    {
        match self {
            Block::Sigmoid(_) => {},
            Block::AFFM(b) => b.allocate_and_init_weights(mi, unit),
        }
    }
}

/// The bytes that the stores of a chain take: eight for every weight.
pub open spec fn chain_bytes<L: OptimizerTrait>(blocks: Seq<Block<L>>) -> int
    decreases blocks.len(),
{
    if blocks.len() == 0 {
        0
    } else {
        (match blocks[0] {
            Block::Sigmoid(_) => 0,
            Block::AFFM(b) => (b.weights@.len() + b.attention_weights@.len()) * 8,
        }) + chain_bytes(blocks.subrange(1, blocks.len() as int))
    }
}

/// The bytes of the stores of a block: the embedding store, then the
/// attention store.
pub open spec fn block_encoded<L: OptimizerTrait>(block: Block<L>) -> Seq<u8> {
    match block {
        Block::Sigmoid(_) => Seq::empty(),
        Block::AFFM(b) => encoded(b.weights@) + encoded(b.attention_weights@),
    }
}

/// The bytes of the stores of a chain, block by block.
pub open spec fn chain_encoded<L: OptimizerTrait>(blocks: Seq<Block<L>>) -> Seq<u8>
    decreases blocks.len(),
{
    if blocks.len() == 0 {
        Seq::empty()
    } else {
        block_encoded(blocks[0]) + chain_encoded(blocks.subrange(1, blocks.len() as int))
    }
}

/// The bytes of the first `i + 1` blocks are those of the first `i`,
/// followed by those of block `i`.
pub proof fn lemma_chain_encoded_grows<L: OptimizerTrait>(blocks: Seq<Block<L>>, i: int)
    requires
        0 <= i < blocks.len(),
    ensures
        chain_encoded(blocks.subrange(0, i + 1)) == chain_encoded(blocks.subrange(0, i))
            + block_encoded(blocks[i]),
    decreases i,
{
    let longer = blocks.subrange(0, i + 1);
    if i == 0 {
        assert(longer.len() == 1);
        assert(longer[0] == blocks[0]);
        assert(longer.subrange(1, longer.len() as int).len() == 0);
        assert(chain_encoded(longer.subrange(1, longer.len() as int)) =~= Seq::<u8>::empty());
        assert(blocks.subrange(0, 0).len() == 0);
        assert(chain_encoded(blocks.subrange(0, 0)) =~= Seq::<u8>::empty());
        assert(chain_encoded(longer) =~= block_encoded(blocks[0]));
        assert(chain_encoded(blocks.subrange(0, 0)) + block_encoded(blocks[0]) =~= block_encoded(
            blocks[0],
        ));
    } else {
        let rest = blocks.subrange(1, blocks.len() as int);
        lemma_chain_encoded_grows(rest, i - 1);
        let shorter = blocks.subrange(0, i);
        assert(longer.len() == i + 1 && shorter.len() == i);
        assert(longer[0] == blocks[0] && shorter[0] == blocks[0]);
        assert(longer.subrange(1, longer.len() as int) =~= rest.subrange(0, i));
        assert(shorter.subrange(1, shorter.len() as int) =~= rest.subrange(0, i - 1));
        assert(rest[i - 1] == blocks[i]);
        assert(chain_encoded(longer) =~= block_encoded(blocks[0]) + (chain_encoded(
            rest.subrange(0, i - 1),
        ) + block_encoded(blocks[i])));
        assert(chain_encoded(shorter) =~= block_encoded(blocks[0]) + chain_encoded(
            rest.subrange(0, i - 1),
        ));
    }
}

/// Block by block, the stores of `after` hold what the buffer holds from
/// position `at` on; all else of `after` is as in `before`.
pub open spec fn chain_loaded<L: OptimizerTrait>(
    before: Seq<Block<L>>,
    after: Seq<Block<L>>,
    input: Seq<u8>,
    at: int,
) -> bool
    decreases before.len(),
{
    &&& before.len() == after.len()
    &&& before.len() > 0 ==> match (before[0], after[0]) {
        (Block::Sigmoid(_), Block::Sigmoid(_)) => chain_loaded(
            before.subrange(1, before.len() as int),
            after.subrange(1, after.len() as int),
            input,
            at,
        ),
        (Block::AFFM(b), Block::AFFM(a)) => {
            &&& a.alike(&b)
            &&& a.weights@.len() == b.weights@.len()
            &&& a.attention_weights@.len() == b.attention_weights@.len()
            &&& forall|i: int|
                0 <= i < b.weights@.len() ==> #[trigger] a.weights@[i] == decoded(input, at, i)
            &&& forall|i: int|
                0 <= i < b.attention_weights@.len() ==> #[trigger] a.attention_weights@[i]
                    == decoded(input, at + b.weights@.len() * 8, i)
            &&& chain_loaded(
                before.subrange(1, before.len() as int),
                after.subrange(1, after.len() as int),
                input,
                at + (b.weights@.len() + b.attention_weights@.len()) * 8,
            )
        },
        _ => false,
    }
}

/// The failure of reading a chain from a buffer of `len` bytes from
/// position `at` on: it names the store, first in the order of reading, that
/// the buffer cannot fill, by the number of its weights and the bytes that
/// are left for it.
pub open spec fn chain_shortfall<L: OptimizerTrait>(
    blocks: Seq<Block<L>>,
    len: int,
    at: int,
) -> LoadError
    decreases blocks.len(),
{
    if blocks.len() == 0 {
        LoadError::Truncated { weights: 0, found: 0 }
    } else {
        let rest = blocks.subrange(1, blocks.len() as int);
        match blocks[0] {
            Block::Sigmoid(_) => chain_shortfall(rest, len, at),
            Block::AFFM(b) => {
                let embeddings = b.weights@.len();
                let attentions = b.attention_weights@.len();
                if at + embeddings * 8 > len {
                    LoadError::Truncated {
                        weights: embeddings as usize,
                        found: if at <= len {
                            (len - at) as usize
                        } else {
                            0
                        },
                    }
                } else if at + (embeddings + attentions) * 8 > len {
                    LoadError::Truncated {
                        weights: attentions as usize,
                        found: (len - at - embeddings * 8) as usize,
                    }
                } else {
                    chain_shortfall(rest, len, at + (embeddings + attentions) * 8)
                }
            },
        }
    }
}

/// Fills the stores of the blocks from the buffer, block by block, starting
/// at position `at`, and returns the position after the last byte read.
/// Fails where the buffer ends before every store is full.
pub fn read_chain_weights_from<L: OptimizerTrait>(
    blocks: &mut [Block<L>],
    input: &[u8],
    at: usize,
) -> (r: Result<usize, LoadError>)
    ensures
        final(blocks)@.len() == old(blocks)@.len(),
        r is Ok <==> at + chain_bytes(old(blocks)@) <= input@.len(),
        r matches Ok(next) ==> next == at + chain_bytes(old(blocks)@) && chain_loaded(
            old(blocks)@,
            final(blocks)@,
            input@,
            at as int,
        ),
        r matches Err(e) ==> e == chain_shortfall(old(blocks)@, input@.len() as int, at as int),
    decreases old(blocks)@.len(),
{
    if blocks.len() == 0 {
        if at <= input.len() {
            return Ok(at);
        }
        return Err(LoadError::Truncated { weights: 0, found: 0 });
    }
    let ghost before = blocks@;
    let (head, rest) = blocks.split_at_mut(1);
    assert(rest@ =~= before.subrange(1, before.len() as int));
    proof {
        lemma_chain_bytes_positive(rest@);
    }
    let next = match &mut head[0] {
        Block::Sigmoid(_) => at,
        Block::AFFM(b) => match b.read_weights_from_buf(input, at) {
            Ok(next) => next,
            Err(e) => {
                proof {
                    let after = head@ + rest@;
                    assert(after.len() == before.len());
                }
                return Err(e);
            },
        },
    };
    let r = read_chain_weights_from(rest, input, next);
    proof {
        let after = head@ + rest@;
        assert(after.subrange(1, after.len() as int) =~= rest@);
        assert(after[0] == head@[0]);
    }
    r
}

/// Fills the stores of the blocks from the buffer, which must hold their
/// bytes and no more.
pub fn read_chain_weights<L: OptimizerTrait>(blocks: &mut [Block<L>], input: &[u8]) -> (r: Result<
    (),
    LoadError,
>)
    ensures
        final(blocks)@.len() == old(blocks)@.len(),
        r is Ok <==> chain_bytes(old(blocks)@) == input@.len(),
        r is Ok ==> chain_loaded(old(blocks)@, final(blocks)@, input@, 0),
        r matches Err(e) ==> if chain_bytes(old(blocks)@) < input@.len() {
            e == (LoadError::Excess {
                expected: chain_bytes(old(blocks)@) as usize,
                found: input@.len() as usize,
            })
        } else {
            e == chain_shortfall(old(blocks)@, input@.len() as int, 0)
        },
{
    match read_chain_weights_from(blocks, input, 0) {
        Ok(next) => {
            if next == input.len() {
                Ok(())
            } else {
                Err(LoadError::Excess { expected: next, found: input.len() })
            }
        },
        Err(e) => Err(e),
    }
}

/// Appends the bytes of the stores of the blocks to `output`.
pub fn write_chain_weights<L: OptimizerTrait>(blocks: &[Block<L>], output: &mut Vec<u8>)
    ensures
        final(output)@ == old(output)@ + chain_encoded(blocks@),
{
    let n = blocks.len();
    let mut i: usize = 0;
    assert(blocks@.subrange(0, 0) =~= Seq::empty());
    assert(output@ =~= old(output)@ + chain_encoded(blocks@.subrange(0, 0)));
    while i < n
        invariant
            i <= n,
            n == blocks@.len(),
            output@ == old(output)@ + chain_encoded(blocks@.subrange(0, i as int)),
        decreases n - i,
    {
        let ghost so_far = output@;
        match &blocks[i] {
            Block::Sigmoid(_) => {},
            Block::AFFM(b) => {
                b.write_weights_to_buf(output);
            },
        }
        proof {
            lemma_chain_encoded_grows(blocks@, i as int);
            assert(output@ =~= so_far + block_encoded(blocks@[i as int]));
            assert(output@ =~= old(output)@ + chain_encoded(blocks@.subrange(0, i + 1)));
        }
        i += 1;
    }
    assert(blocks@.subrange(0, n as int) =~= blocks@);
}

/// The stores of a chain take no negative number of bytes.
pub proof fn lemma_chain_bytes_positive<L: OptimizerTrait>(blocks: Seq<Block<L>>)
    ensures
        chain_bytes(blocks) >= 0,
    decreases blocks.len(),
{
    if blocks.len() > 0 {
        lemma_chain_bytes_positive(blocks.subrange(1, blocks.len() as int));
    }
}

} // verus!

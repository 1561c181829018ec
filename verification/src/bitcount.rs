//! Counting the bytes and the set bits of a byte string, block by block.

use vstd::prelude::*;
use vstd::slice::slice_subrange;
use crate::popcount::{
    lemma_popcount_sum_bound, lemma_popcount_sum_concat, lemma_popcount_sum_prefix,
    popcount_sum,
};

verus! {

/// The block size in which a file is read: `2 << 16` bytes.
pub const BLOCKSIZE: usize = 131072;

/// How many bytes a string has, and how many of its bits are set.
#[derive(Debug, PartialEq, Eq, Clone, Copy, Structural)]
pub struct BitCount {
    pub one_bits: usize,
    pub total_bytes: usize,
}

/// What a reader does after it has handed one block to the counter.
#[derive(Debug, PartialEq, Eq, Clone, Copy, Structural)]
pub enum Step {
    /// The block held bytes and they are counted: read on.
    More(BitCount),
    /// The block was empty, which ends the stream: the count is final.
    Done(BitCount),
}

impl BitCount {
    /// No string has more set bits than eight for each of its bytes.
    pub open spec fn wf(self) -> bool {
        self.one_bits <= 8 * self.total_bytes
    }

    /// `self` is the count of `s`.
    pub open spec fn counts(self, s: Seq<u8>) -> bool {
        &&& self.total_bytes == s.len()
        &&& self.one_bits == popcount_sum(s)
    }

    /// With `block` added, both numbers still fit in `usize`.
    pub open spec fn has_room(self, block: Seq<u8>) -> bool {
        &&& self.one_bits + popcount_sum(block) <= usize::MAX
        &&& self.total_bytes + block.len() <= usize::MAX
    }

    /// The count of the empty string.
    pub fn empty() -> (count: BitCount)
        ensures
            count == (BitCount { one_bits: 0, total_bytes: 0 }),
            count.counts(Seq::empty()),
    {
        BitCount { one_bits: 0, total_bytes: 0 }
    }
}

/// Whatever counts a string is well formed.
pub proof fn lemma_counts(count: BitCount, s: Seq<u8>)
    requires
        count.counts(s),
    ensures
        count.wf(),
{
    lemma_popcount_sum_bound(s);
}

/// Adds the bytes and the set bits of `block` to `acc`.
pub fn count_block(acc: BitCount, block: &[u8]) -> (count: BitCount)
    requires
        acc.has_room(block@),
    ensures
        count.one_bits == acc.one_bits + popcount_sum(block@),
        count.total_bytes == acc.total_bytes + block@.len(),
{
    let mut one_bits: usize = acc.one_bits;
    let mut i: usize = 0;
    while i < block.len()
        invariant
            i <= block@.len(),
            acc.has_room(block@),
            one_bits == acc.one_bits + popcount_sum(block@.subrange(0, i as int)),
        decreases block@.len() - i,
    {
        let ones: u32 = block[i].count_ones();
        proof {
            lemma_popcount_sum_prefix(block@, i + 1);
            assert(block@.subrange(0, i + 1).drop_last() =~= block@.subrange(0, i as int));
        }
        one_bits += ones as usize;
        i += 1;
    }
    proof {
        assert(block@.subrange(0, i as int) =~= block@);
    }
    BitCount { one_bits, total_bytes: acc.total_bytes + block.len() }
}

/// One turn of a reader's loop: an empty block ends the stream and leaves
/// the count as it is, any other block is counted.
pub fn count_step(acc: BitCount, block: &[u8]) -> (step: Step)
    requires
        acc.has_room(block@),
    ensures
        block@.len() == 0 ==> step == Step::Done(acc),
        block@.len() > 0 ==> step == Step::More(
            BitCount {
                one_bits: (acc.one_bits + popcount_sum(block@)) as usize,
                total_bytes: (acc.total_bytes + block@.len()) as usize,
            },
        ),
        forall|s: Seq<u8>| #[trigger]
            acc.counts(s) ==> match step {
                Step::More(count) => count.counts(s + block@),
                Step::Done(count) => count.counts(s),
            },
{
    if block.len() == 0 {
        Step::Done(acc)
    } else {
        let count = count_block(acc, block);
        proof {
            assert forall|s: Seq<u8>| #[trigger] acc.counts(s) implies count.counts(s + block@) by {
                lemma_popcount_sum_concat(s, block@);
            }
        }
        Step::More(count)
    }
}

/// Counts the bytes of `f` and the bits set in them, taking `f` in blocks
/// of at most `blocksize` bytes until a block comes out empty, which is at
/// the end of `f`.
pub fn bitcount_file(f: &[u8], blocksize: usize) -> (count: BitCount)
    requires
        blocksize > 0,
        popcount_sum(f@) <= usize::MAX,
    ensures
        count.counts(f@),
        count.wf(),
{
    let mut acc = BitCount::empty();
    let mut offset: usize = 0;
    loop
        invariant
            offset <= f@.len(),
            blocksize > 0,
            popcount_sum(f@) <= usize::MAX,
            acc.counts(f@.subrange(0, offset as int)),
        ensures
            offset == f@.len(),
        decreases f@.len() - offset,
    {
        let left: usize = f.len() - offset;
        let n: usize = if blocksize < left { blocksize } else { left };
        let block = slice_subrange(f, offset, offset + n);
        proof {
            lemma_popcount_sum_prefix(f@, offset + n);
            lemma_popcount_sum_concat(f@.subrange(0, offset as int), block@);
            assert(f@.subrange(0, offset as int) + block@ =~= f@.subrange(0, offset + n));
        }
        match count_step(acc, block) {
            Step::Done(_) => {
                break ;
            },
            Step::More(count) => {
                acc = count;
                offset += n;
            },
        }
    }
    proof {
        assert(f@.subrange(0, offset as int) =~= f@);
        lemma_counts(acc, f@);
    }
    acc
}

} // verus!

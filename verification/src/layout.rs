//! The canonical layout: a run of `0x00`, one middle byte, a run of `0xFF`.

use vstd::prelude::*;
use crate::bitcount::BitCount;
use crate::popcount::{
    lemma_popcount_extremes, lemma_popcount_sum_concat, lemma_popcount_sum_run, popcount,
    popcount_sum, run_of,
};

verus! {

/// The byte whose `k` lowest bits are set and whose other bits are clear.
pub open spec fn low_ones(k: u8) -> u8
    recommends
        k < 8,
{
    ((1u8 << k) - 1) as u8
}

/// Bit `i` of `b` is set.
pub open spec fn bit_is_set(b: u8, i: u8) -> bool
    recommends
        i < 8,
{
    (b >> i) & 1 == 1
}

/// The string of three regions: `zeros` bytes `0x00`, then `middle`, then
/// `ones` bytes `0xFF`.
pub open spec fn region_bytes(zeros: nat, middle: u8, ones: nat) -> Seq<u8> {
    run_of(0x00, zeros) + seq![middle] + run_of(0xff, ones)
}

/// There is a layout for a count exactly when the bytes that are all ones
/// leave room for the middle byte.
pub open spec fn has_layout(one_bits: nat, total_bytes: nat) -> bool {
    one_bits / 8 < total_bytes
}

/// The canonical string of `total_bytes` bytes with `one_bits` set bits.
pub open spec fn canonical_bytes(one_bits: nat, total_bytes: nat) -> Seq<u8>
    recommends
        has_layout(one_bits, total_bytes),
{
    region_bytes(
        (total_bytes - one_bits / 8 - 1) as nat,
        low_ones((one_bits % 8) as u8),
        one_bits / 8,
    )
}

/// A string of three regions: `zero_bytes` bytes `0x00`, then `middle_byte`,
/// then `one_bytes` bytes `0xFF`.
#[derive(Debug, PartialEq, Eq, Clone, Copy, Structural)]
pub struct LowEntropyFile {
    pub zero_bytes: usize,
    pub middle_byte: u8,
    pub one_bytes: usize,
}

impl View for LowEntropyFile {
    type V = Seq<u8>;

    /// The bytes that the layout stands for.
    open spec fn view(&self) -> Seq<u8> {
        region_bytes(self.zero_bytes as nat, self.middle_byte, self.one_bytes as nat)
    }
}

impl LowEntropyFile {
    /// The length of the string laid out.
    pub open spec fn total_bytes(self) -> nat {
        (self.zero_bytes + 1 + self.one_bytes) as nat
    }

    /// The number of bits set in the string laid out.
    pub open spec fn one_bits(self) -> nat {
        (8 * self.one_bytes + popcount(self.middle_byte)) as nat
    }

    /// The byte at position `i` of the string laid out.
    pub fn byte_at(&self, i: usize) -> (b: u8)
        requires
            i < self.total_bytes(),
        ensures
            b == self@[i as int],
    {
        if i < self.zero_bytes {
            0x00
        } else if i == self.zero_bytes {
            self.middle_byte
        } else {
            0xff
        }
    }
}

/// `low_ones(k)` has `k` set bits, and they are its `k` lowest.
pub proof fn lemma_low_ones(k: u8)
    requires
        k < 8,
    ensures
        popcount(low_ones(k)) == k,
        forall|i: u8| i < 8 ==> (#[trigger] bit_is_set(low_ones(k), i) <==> i < k),
{
    let m = low_ones(k);
    assert(popcount(m) == k) by (bit_vector)
        requires
            k < 8,
            m == ((1u8 << k) - 1) as u8,
    ;
    assert forall|i: u8| i < 8 implies (#[trigger] bit_is_set(m, i) <==> i < k) by {
        assert(((m >> i) & 1 == 1) <==> i < k) by (bit_vector)
            requires
                k < 8,
                i < 8,
                m == ((1u8 << k) - 1) as u8,
        ;
    }
}

/// The length of a string of three regions, and the bits set in it.
pub proof fn lemma_region_bytes(zeros: nat, middle: u8, ones: nat)
    ensures
        region_bytes(zeros, middle, ones).len() == zeros + 1 + ones,
        popcount_sum(region_bytes(zeros, middle, ones)) == 8 * ones + popcount(middle),
{
    let head = run_of(0x00, zeros);
    let mid = seq![middle];
    let tail = run_of(0xff, ones);
    lemma_popcount_extremes();
    lemma_popcount_sum_run(0x00, zeros);
    lemma_popcount_sum_run(0xff, ones);
    lemma_popcount_sum_concat(head, mid);
    lemma_popcount_sum_concat(head + mid, tail);
    assert(mid.drop_last() =~= Seq::<u8>::empty());
    assert(popcount_sum(mid) == popcount(middle)) by {
        assert(popcount_sum(mid.drop_last()) == 0);
        assert(mid.last() == middle);
    }
    assert(zeros * 0 == 0) by (nonlinear_arith);
    assert(ones * 8 == 8 * ones) by (nonlinear_arith);
}

/// The canonical string for a count has that count: its length is
/// `total_bytes` and `one_bits` of its bits are set.
pub proof fn lemma_canonical_bytes(one_bits: nat, total_bytes: nat)
    requires
        has_layout(one_bits, total_bytes),
    ensures
        canonical_bytes(one_bits, total_bytes).len() == total_bytes,
        popcount_sum(canonical_bytes(one_bits, total_bytes)) == one_bits,
{
    lemma_region_bytes(
        (total_bytes - one_bits / 8 - 1) as nat,
        low_ones((one_bits % 8) as u8),
        one_bits / 8,
    );
    lemma_low_ones((one_bits % 8) as u8);
}

/// Lays out the canonical string for a count: as many `0xFF` bytes as the
/// set bits fill, one middle byte with the bits left over in its low end,
/// and `0x00` bytes for the rest.
pub fn calculate_file(bitcount: BitCount) -> (layout: LowEntropyFile)
    requires
        has_layout(bitcount.one_bits as nat, bitcount.total_bytes as nat),
    ensures
        layout.one_bytes == bitcount.one_bits / 8,
        layout.zero_bytes == bitcount.total_bytes - bitcount.one_bits / 8 - 1,
        layout.middle_byte == low_ones((bitcount.one_bits % 8) as u8),
        forall|i: u8|
            i < 8 ==> (#[trigger] bit_is_set(layout.middle_byte, i) <==> i < bitcount.one_bits % 8),
        layout.total_bytes() == bitcount.total_bytes,
        layout.one_bits() == bitcount.one_bits,
        layout@ == canonical_bytes(bitcount.one_bits as nat, bitcount.total_bytes as nat),
        layout@.len() == bitcount.total_bytes,
        popcount_sum(layout@) == bitcount.one_bits,
{
    let one_bytes: usize = bitcount.one_bits / 8;
    let middle_one_bits: u8 = (bitcount.one_bits % 8) as u8;
    let zero_bytes: usize = bitcount.total_bytes - one_bytes - 1;

    let mut middle_byte: u8 = 0;
    let mut filled: u8 = 0;
    proof {
        assert(0u8 == ((1u8 << 0u8) - 1) as u8) by (bit_vector);
    }
    while filled < middle_one_bits
        invariant
            filled <= middle_one_bits < 8,
            middle_byte == low_ones(filled),
        decreases middle_one_bits - filled,
    {
        proof {
            let m = middle_byte;
            assert(((m << 1) | 1) == ((1u8 << ((filled + 1) as u8)) - 1) as u8) by (bit_vector)
                requires
                    filled < 7,
                    m == ((1u8 << filled) - 1) as u8,
            ;
        }
        middle_byte <<= 1;
        middle_byte |= 1;
        filled += 1;
    }

    let layout = LowEntropyFile { zero_bytes, middle_byte, one_bytes };
    proof {
        lemma_low_ones(middle_one_bits);
        lemma_canonical_bytes(bitcount.one_bits as nat, bitcount.total_bytes as nat);
    }
    layout
}

/// Appends the string that `params` lays out to `f`: the `0x00` bytes, the
/// middle byte, the `0xFF` bytes, in that order.
pub fn write_file(params: LowEntropyFile, f: &mut Vec<u8>)
    requires
        old(f)@.len() + params.total_bytes() <= isize::MAX,
    ensures
        final(f)@ == old(f)@ + params@,
        final(f)@.len() == old(f)@.len() + params.total_bytes(),
{
    let ghost before = f@;
    let mut written: usize = 0;
    while written < params.zero_bytes
        invariant
            written <= params.zero_bytes,
            f@ == before + run_of(0x00, written as nat),
        decreases params.zero_bytes - written,
    {
        f.push(0x00);
        written += 1;
        assert(f@ =~= before + run_of(0x00, written as nat));
    }
    f.push(params.middle_byte);
    let ghost head = f@;
    assert(head =~= before + run_of(0x00, params.zero_bytes as nat) + seq![params.middle_byte]);
    let mut written: usize = 0;
    while written < params.one_bytes
        invariant
            written <= params.one_bytes,
            f@ == head + run_of(0xff, written as nat),
        decreases params.one_bytes - written,
    {
        f.push(0xff);
        written += 1;
        assert(f@ =~= head + run_of(0xff, written as nat));
    }
    assert(f@ =~= before + params@);
}

/// Appends to `f` the next block of the string that `params` lays out: the
/// bytes from position `start` on, `blocksize` of them or as many as are
/// left. Returns how many that were. With a `blocksize` above zero, zero
/// says that the string is written to its end; with a `blocksize` of zero
/// the result is always zero and nothing is appended, wherever `start` is.
pub fn write_block(params: LowEntropyFile, start: usize, blocksize: usize, f: &mut Vec<u8>) -> (n:
    usize)
    requires
        params.total_bytes() <= usize::MAX,
        start <= params.total_bytes(),
        old(f)@.len() + blocksize <= isize::MAX || old(f)@.len() + params.total_bytes() - start
            <= isize::MAX,
    ensures
        n <= blocksize,
        n <= params.total_bytes() - start,
        n == blocksize || n == params.total_bytes() - start,
        final(f)@ == old(f)@ + params@.subrange(start as int, start + n),
{
    let ghost before = f@;
    let left: usize = params.zero_bytes + 1 + params.one_bytes - start;
    let n: usize = if blocksize < left {
        blocksize
    } else {
        left
    };
    let mut written: usize = 0;
    while written < n
        invariant
            written <= n,
            start + n <= params.total_bytes() <= usize::MAX,
            params@.len() == params.total_bytes(),
            f@ == before + params@.subrange(start as int, start + written),
        decreases n - written,
    {
        f.push(params.byte_at(start + written));
        written += 1;
        assert(f@ =~= before + params@.subrange(start as int, start + written));
    }
    n
}

} // verus!

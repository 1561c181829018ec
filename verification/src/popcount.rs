//! Set bits of a byte and of a byte string.

use vstd::prelude::*;

verus! {

/// The number of bits that are set in `b`.
pub open spec fn popcount(b: u8) -> nat {
    ((b & 1) + ((b >> 1) & 1) + ((b >> 2) & 1) + ((b >> 3) & 1) + ((b >> 4) & 1) + ((b >> 5) & 1)
        + ((b >> 6) & 1) + ((b >> 7) & 1)) as nat
}

/// The number of bits that are set in the whole of `s`.
pub open spec fn popcount_sum(s: Seq<u8>) -> nat
    decreases s.len(),
{
    if s.len() == 0 {
        0
    } else {
        popcount_sum(s.drop_last()) + popcount(s.last())
    }
}

/// `u8::count_ones` of std, which its documentation describes as the number
/// of ones in the binary representation of the byte. Nothing here proves it:
/// the claim is that this number is `popcount`, the sum of the eight bits.
pub assume_specification[ u8::count_ones ](b: u8) -> (ones: u32)
    ensures
        ones == popcount(b),
;

/// A byte has at most eight set bits.
pub proof fn lemma_popcount_bound(b: u8)
    ensures
        popcount(b) <= 8,
{
    assert((b & 1) + ((b >> 1) & 1) + ((b >> 2) & 1) + ((b >> 3) & 1) + ((b >> 4) & 1) + ((b >> 5)
        & 1) + ((b >> 6) & 1) + ((b >> 7) & 1) <= 8) by (bit_vector);
}

/// The two bytes of which the canonical runs are made.
pub proof fn lemma_popcount_extremes()
    ensures
        popcount(0x00) == 0,
        popcount(0xff) == 8,
{
    assert(popcount(0x00) == 0) by (bit_vector);
    assert(popcount(0xff) == 8) by (bit_vector);
}

/// The set bits of a concatenation are those of its two parts.
pub proof fn lemma_popcount_sum_concat(a: Seq<u8>, b: Seq<u8>)
    ensures
        popcount_sum(a + b) == popcount_sum(a) + popcount_sum(b),
    decreases b.len(),
{
    if b.len() == 0 {
        assert(a + b =~= a);
    } else {
        lemma_popcount_sum_concat(a, b.drop_last());
        assert((a + b).drop_last() =~= a + b.drop_last());
    }
}

/// A string of `n` bytes has at most `8 * n` set bits.
pub proof fn lemma_popcount_sum_bound(s: Seq<u8>)
    ensures
        popcount_sum(s) <= 8 * s.len(),
    decreases s.len(),
{
    if s.len() > 0 {
        lemma_popcount_sum_bound(s.drop_last());
        lemma_popcount_bound(s.last());
    }
}

/// A prefix of a string has no more set bits than the string.
pub proof fn lemma_popcount_sum_prefix(s: Seq<u8>, k: int)
    requires
        0 <= k <= s.len(),
    ensures
        popcount_sum(s.subrange(0, k)) <= popcount_sum(s),
{
    lemma_popcount_sum_concat(s.subrange(0, k), s.subrange(k, s.len() as int));
    assert(s.subrange(0, k) + s.subrange(k, s.len() as int) =~= s);
}

/// The string made of `n` copies of `b`.
pub open spec fn run_of(b: u8, n: nat) -> Seq<u8> {
    Seq::new(n, |i: int| b)
}

/// A run of `n` equal bytes has `n` times the set bits of one of them.
pub proof fn lemma_popcount_sum_run(b: u8, n: nat)
    ensures
        popcount_sum(run_of(b, n)) == n * popcount(b),
    decreases n,
{
    if n > 0 {
        lemma_popcount_sum_run(b, (n - 1) as nat);
        assert(run_of(b, n).drop_last() =~= run_of(b, (n - 1) as nat));
        assert(run_of(b, n).last() == b);
        assert(n * popcount(b) == (n - 1) * popcount(b) + popcount(b)) by (nonlinear_arith);
    } else {
        assert(run_of(b, n).len() == 0);
    }
}

} // verus!

//! The whole transform on a byte string held in memory, and what it keeps.

use vstd::prelude::*;
use crate::bitcount::{bitcount_file, BLOCKSIZE};
use crate::layout::{
    calculate_file, canonical_bytes, has_layout, lemma_canonical_bytes, write_file,
};
use crate::popcount::popcount_sum;

verus! {

/// `content` can be rewritten: its set bits leave room for the middle byte.
/// The empty string cannot, nor can a string whose bits are all set.
pub open spec fn rewritable(content: Seq<u8>) -> bool {
    has_layout(popcount_sum(content), content.len())
}

/// The canonical string with the length and the set bits of `content`.
pub open spec fn canonical(content: Seq<u8>) -> Seq<u8>
    recommends
        rewritable(content),
{
    canonical_bytes(popcount_sum(content), content.len())
}

/// Rewriting keeps the length and the number of set bits: counted again,
/// the rewritten string gives the count of the string it was made from.
pub proof fn lemma_rewrite_keeps_count(content: Seq<u8>)
    requires
        rewritable(content),
    ensures
        canonical(content).len() == content.len(),
        popcount_sum(canonical(content)) == popcount_sum(content),
        rewritable(canonical(content)),
{
    lemma_canonical_bytes(popcount_sum(content), content.len());
}

/// Rewriting is idempotent: a rewritten string can be rewritten again, and
/// that gives the same bytes.
pub proof fn lemma_rewrite_idempotent(content: Seq<u8>)
    requires
        rewritable(content),
    ensures
        rewritable(canonical(content)),
        canonical(canonical(content)) == canonical(content),
{
    lemma_rewrite_keeps_count(content);
}

/// Counts `content`, lays out the canonical string for that count and
/// writes it out. There is nothing to write for a string that is not
/// rewritable. What is written has the length and the set bits of
/// `content`, so it can be handed in again, and is then written out
/// unchanged.
pub fn deentropize(content: &[u8]) -> (rewritten: Option<Vec<u8>>)
    requires
        popcount_sum(content@) <= usize::MAX,
        content@.len() <= isize::MAX,
    ensures
        rewritable(content@) <==> rewritten.is_some(),
        rewritten.is_some() ==> {
            &&& rewritten.unwrap()@ == canonical(content@)
            &&& rewritten.unwrap()@.len() == content@.len()
            &&& popcount_sum(rewritten.unwrap()@) == popcount_sum(content@)
            &&& rewritable(rewritten.unwrap()@)
            &&& canonical(rewritten.unwrap()@) == rewritten.unwrap()@
        },
{
    let bitcount = bitcount_file(content, BLOCKSIZE);
    if bitcount.one_bits / 8 < bitcount.total_bytes {
        let params = calculate_file(bitcount);
        let mut out: Vec<u8> = Vec::new();
        write_file(params, &mut out);
        proof {
            assert(out@ =~= params@);
            lemma_rewrite_keeps_count(content@);
            lemma_rewrite_idempotent(content@);
        }
        Some(out)
    } else {
        None
    }
}

} // verus!

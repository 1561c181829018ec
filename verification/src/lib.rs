//! Entropy removal for byte strings.
//!
//! A byte string is summarised by its length and by the number of bits set
//! in it. From that summary a canonical string of the same length and the
//! same number of set bits is laid out: a run of `0x00`, one byte that
//! carries the bits left over, and a run of `0xFF`.

pub mod bitcount;
pub mod layout;
pub mod popcount;
pub mod rewrite;

//! A tree-structured cryptographic hash: fixed digests, keyed hashing, key
//! derivation and extendable output, with every function verified against a
//! mathematical model of the hash.

use vstd::prelude::*;

pub mod compress_model;
pub mod conformance;
pub mod hasher;
pub mod input_refs;
pub mod laws;
pub mod merge;
pub mod merge_model;
pub mod node;
pub mod portable;
pub mod tree;
pub mod tree_model;

pub use crate::hasher::{derive_key, hash, hash_keyed, Hasher};
pub use crate::tree::{largest_power_of_two_leq, left_len};

verus! {

/// Number of bytes in a digest and in a chaining value.
pub const OUT_LEN: usize = 32;

/// Number of bytes in a key.
pub const KEY_LEN: usize = 32;

/// Number of bytes in a block, the unit of one compression.
pub const BLOCK_LEN: usize = 64;

/// Number of bytes in a chunk, the leaf unit of the tree.
pub const CHUNK_LEN: usize = 1024;

/// Set on the first block of a chunk.
pub const CHUNK_START: u8 = 1;

/// Set on the last block of a chunk.
pub const CHUNK_END: u8 = 2;

/// Set on the compression of a parent node.
pub const PARENT: u8 = 4;

/// Set on the one compression whose whole output is final material.
pub const ROOT: u8 = 8;

/// Set on every compression of the keyed mode.
pub const KEYED_HASH: u8 = 16;

/// Set on every compression that hashes a key derivation context.
pub const DERIVE_KEY_CONTEXT: u8 = 32;

/// Set on every compression that hashes key derivation material.
pub const DERIVE_KEY_MATERIAL: u8 = 64;

/// The public constant that starts the plain mode, as eight words.
pub const IV: [u32; 8] = [
    0x6A09E667,
    0xBB67AE85,
    0x3C6EF372,
    0xA54FF53A,
    0x510E527F,
    0x9B05688C,
    0x1F83D9AB,
    0x5BE0CD19,
];

/// For each word of the next round's message, the place in this round's
/// message that it comes from.
pub const MSG_PERMUTATION: [usize; 16] = [2, 6, 3, 10, 7, 0, 4, 13, 1, 11, 12, 5, 9, 14, 15, 8];

/// For each place in a batch, up to the widest batch there is, the distance of
/// the counter of the input at that place from the counter of the first. The
/// entry at place 1 is the step from one input to the next.
pub type OffsetDeltas = [u64; 17];

/// The counters of chunks that follow each other go up by one.
pub const CHUNK_OFFSET_DELTAS: &'static OffsetDeltas = &[0, 1, 2, 3, 4, 5, 6, 7, 8, 9, 10, 11, 12, 13, 14, 15, 16];

/// The counter of every parent node is zero.
pub const PARENT_OFFSET_DELTAS: &'static OffsetDeltas = &[0, 0, 0, 0, 0, 0, 0, 0, 0, 0, 0, 0, 0, 0, 0, 0, 0];

/// A digest.
pub type Hash = [u8; 32];

/// The low 32 bits of a counter.
pub open spec fn spec_offset_low(offset: u64) -> u32 {
    offset as u32
}

/// The high 32 bits of a counter.
pub open spec fn spec_offset_high(offset: u64) -> u32 {
    (offset >> 32) as u32
}

/// The low 32 bits of a counter.
#[verifier::when_used_as_spec(spec_offset_low)]
pub fn offset_low(offset: u64) -> (r: u32)
    ensures
        r == spec_offset_low(offset),
{
    #[verifier::truncate]
    (offset as u32)
}

/// The high 32 bits of a counter.
#[verifier::when_used_as_spec(spec_offset_high)]
pub fn offset_high(offset: u64) -> (r: u32)
    ensures
        r == spec_offset_high(offset),
{
    #[verifier::truncate]
    ((offset >> 32) as u32)
}

} // verus!

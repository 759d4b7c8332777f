//! The compression function as mathematics: sequences of bytes and of 32-bit
//! words, and the rounds that mix them.

use vstd::prelude::*;
use crate::{IV, MSG_PERMUTATION, spec_offset_low, spec_offset_high};

verus! {

/// The word whose little-endian bytes are `b0` (lowest) to `b3`.
pub open spec fn word_le(b0: u8, b1: u8, b2: u8, b3: u8) -> u32 {
    (b0 as u32) | ((b1 as u32) << 8) | ((b2 as u32) << 16) | ((b3 as u32) << 24)
}

/// Byte `k` (0 is the lowest) of the little-endian form of `w`.
pub open spec fn byte_le(w: u32, k: int) -> u8 {
    if k == 0 {
        w as u8
    } else if k == 1 {
        (w >> 8) as u8
    } else if k == 2 {
        (w >> 16) as u8
    } else {
        (w >> 24) as u8
    }
}

/// The little-endian words that `bytes` spell, four bytes to a word.
pub open spec fn words_of(bytes: Seq<u8>) -> Seq<u32> {
    Seq::new(
        bytes.len() / 4,
        |i: int| word_le(bytes[4 * i], bytes[4 * i + 1], bytes[4 * i + 2], bytes[4 * i + 3]),
    )
}

/// The little-endian bytes of `words`, four bytes to a word.
pub open spec fn bytes_of(words: Seq<u32>) -> Seq<u8> {
    Seq::new(4 * words.len(), |i: int| byte_le(words[i / 4], i % 4))
}

/// `x` rotated right by `n` bits, for `0 < n < 32`.
pub open spec fn rotr(x: u32, n: u32) -> u32 {
    (x >> n) | (x << ((32 - n) as u32))
}

/// The quarter round: mixes the message words `mx` and `my` into the four
/// state words at `a`, `b`, `c` and `d`.
#[verifier::opaque]
pub open spec fn g(s: Seq<u32>, a: int, b: int, c: int, d: int, mx: u32, my: u32) -> Seq<u32> {
    let s = s.update(a, s[a].wrapping_add(s[b]).wrapping_add(mx));
    let s = s.update(d, rotr(s[d] ^ s[a], 16));
    let s = s.update(c, s[c].wrapping_add(s[d]));
    let s = s.update(b, rotr(s[b] ^ s[c], 12));
    let s = s.update(a, s[a].wrapping_add(s[b]).wrapping_add(my));
    let s = s.update(d, rotr(s[d] ^ s[a], 8));
    let s = s.update(c, s[c].wrapping_add(s[d]));
    let s = s.update(b, rotr(s[b] ^ s[c], 7));
    s
}

/// One round: the quarter round on the four columns, then on the four
/// diagonals, of the state seen as a 4 by 4 square.
#[verifier::opaque]
pub open spec fn round(s: Seq<u32>, m: Seq<u32>) -> Seq<u32> {
    let s = g(s, 0, 4, 8, 12, m[0], m[1]);
    let s = g(s, 1, 5, 9, 13, m[2], m[3]);
    let s = g(s, 2, 6, 10, 14, m[4], m[5]);
    let s = g(s, 3, 7, 11, 15, m[6], m[7]);
    let s = g(s, 0, 5, 10, 15, m[8], m[9]);
    let s = g(s, 1, 6, 11, 12, m[10], m[11]);
    let s = g(s, 2, 7, 8, 13, m[12], m[13]);
    let s = g(s, 3, 4, 9, 14, m[14], m[15]);
    s
}

/// The message words in the order in which the next round reads them.
pub open spec fn permute(m: Seq<u32>) -> Seq<u32> {
    Seq::new(16, |i: int| m[MSG_PERMUTATION[i] as int])
}

/// The state after `n` rounds, the message permuted between rounds.
pub open spec fn rounds(s: Seq<u32>, m: Seq<u32>, n: nat) -> Seq<u32>
    decreases n,
{
    if n == 0 {
        s
    } else {
        rounds(round(s, m), permute(m), (n - 1) as nat)
    }
}

/// The sixteen words that the rounds start from.
pub open spec fn initial_state(cv: Seq<u32>, block_len: u8, offset: u64, flags: u8) -> Seq<u32> {
    seq![
        cv[0],
        cv[1],
        cv[2],
        cv[3],
        cv[4],
        cv[5],
        cv[6],
        cv[7],
        IV[0],
        IV[1],
        IV[2],
        IV[3],
        spec_offset_low(offset),
        spec_offset_high(offset),
        block_len as u32,
        flags as u32,
    ]
}

/// The feed-forward: the low half of the state takes in the high half, and the
/// high half takes in the chaining value that was put in.
pub open spec fn feed_forward(s: Seq<u32>, cv: Seq<u32>) -> Seq<u32> {
    Seq::new(
        16,
        |i: int|
            if i < 8 {
                s[i] ^ s[i + 8]
            } else {
                s[i] ^ cv[i - 8]
            },
    )
}

/// Number of rounds in one compression.
pub open spec fn round_count() -> nat {
    7
}

/// The compression function on words.
pub open spec fn compress_words(
    cv: Seq<u32>,
    m: Seq<u32>,
    block_len: u8,
    offset: u64,
    flags: u8,
) -> Seq<u32> {
    feed_forward(rounds(initial_state(cv, block_len, offset, flags), m, round_count()), cv)
}

/// The compression function: from a 32-byte chaining value, a 64-byte block of
/// which `block_len` bytes are message, a 64-bit counter and the flags, to 64
/// bytes. The first 32 are the chaining value to hand on.
#[verifier::opaque]
pub open spec fn compress_spec(
    cv: Seq<u8>,
    block: Seq<u8>,
    block_len: u8,
    offset: u64,
    flags: u8,
) -> Seq<u8> {
    bytes_of(compress_words(words_of(cv), words_of(block), block_len, offset, flags))
}

/// The compression function always yields 64 bytes.
pub proof fn lemma_compress_len(cv: Seq<u8>, block: Seq<u8>, block_len: u8, offset: u64, flags: u8)
    ensures
        compress_spec(cv, block, block_len, offset, flags).len() == 64,
{
    reveal(compress_spec);
}

} // verus!

//! The compression function and the batch processor in plain integer
//! arithmetic, with no use of vector instructions.

use vstd::prelude::*;
use crate::{IV, MSG_PERMUTATION, OffsetDeltas, offset_low, offset_high};
use crate::tree_model::{
    batch_cvs, batch_offset, block_of, chain, input_views, lemma_single_cv_len, single_cv,
};
use crate::compress_model::{
    bytes_of, compress_spec, feed_forward, g, initial_state, permute, rotr, round,
    rounds, word_le, words_of,
};

verus! {

fn rotate_right_16(x: u32) -> (r: u32)
    ensures
        r == rotr(x, 16),
{
    (x >> 16) | (x << 16)
}

fn rotate_right_12(x: u32) -> (r: u32)
    ensures
        r == rotr(x, 12),
{
    (x >> 12) | (x << 20)
}

fn rotate_right_8(x: u32) -> (r: u32)
    ensures
        r == rotr(x, 8),
{
    (x >> 8) | (x << 24)
}

fn rotate_right_7(x: u32) -> (r: u32)
    ensures
        r == rotr(x, 7),
{
    (x >> 7) | (x << 25)
}

fn quarter_round(state: &mut [u32; 16], a: usize, b: usize, c: usize, d: usize, mx: u32, my: u32)
    requires
        a < 16,
        b < 16,
        c < 16,
        d < 16,
    ensures
        final(state)@ == g(old(state)@, a as int, b as int, c as int, d as int, mx, my),
{
    proof {
        reveal(g);
    }
    state[a] = state[a].wrapping_add(state[b]).wrapping_add(mx);
    state[d] = rotate_right_16(state[d] ^ state[a]);
    state[c] = state[c].wrapping_add(state[d]);
    state[b] = rotate_right_12(state[b] ^ state[c]);
    state[a] = state[a].wrapping_add(state[b]).wrapping_add(my);
    state[d] = rotate_right_8(state[d] ^ state[a]);
    state[c] = state[c].wrapping_add(state[d]);
    state[b] = rotate_right_7(state[b] ^ state[c]);
}

fn one_round(state: &mut [u32; 16], m: &[u32; 16])
    ensures
        final(state)@ == round(old(state)@, m@),
{
    proof {
        reveal(round);
    }
    quarter_round(state, 0, 4, 8, 12, m[0], m[1]);
    quarter_round(state, 1, 5, 9, 13, m[2], m[3]);
    quarter_round(state, 2, 6, 10, 14, m[4], m[5]);
    quarter_round(state, 3, 7, 11, 15, m[6], m[7]);
    quarter_round(state, 0, 5, 10, 15, m[8], m[9]);
    quarter_round(state, 1, 6, 11, 12, m[10], m[11]);
    quarter_round(state, 2, 7, 8, 13, m[12], m[13]);
    quarter_round(state, 3, 4, 9, 14, m[14], m[15]);
}

fn permute_message(m: &[u32; 16]) -> (p: [u32; 16])
    ensures
        p@ == permute(m@),
{
    let mut p: [u32; 16] = [0u32; 16];
    let mut i: usize = 0;
    while i < 16
        invariant
            i <= 16,
            forall|j: int| 0 <= j < i ==> p@[j] == m@[MSG_PERMUTATION[j] as int],
        decreases 16 - i,
    {
        p[i] = m[MSG_PERMUTATION[i]];
        i += 1;
    }
    assert(p@ =~= permute(m@));
    p
}

fn load_word(bytes: &[u8], at: usize) -> (w: u32)
    requires
        at + 4 <= bytes@.len(),
    ensures
        w == word_le(
            bytes@[at as int],
            bytes@[at + 1],
            bytes@[at + 2],
            bytes@[at + 3],
        ),
{
    (bytes[at] as u32) | ((bytes[at + 1] as u32) << 8) | ((bytes[at + 2] as u32) << 16) | ((
    bytes[at + 3] as u32) << 24)
}

fn load_words_8(bytes: &[u8; 32]) -> (w: [u32; 8])
    ensures
        w@ == words_of(bytes@),
{
    let mut w: [u32; 8] = [0u32; 8];
    let mut i: usize = 0;
    while i < 8
        invariant
            i <= 8,
            forall|j: int| 0 <= j < i ==> w@[j] == #[trigger] words_of(bytes@)[j],
        decreases 8 - i,
    {
        w[i] = load_word(bytes, 4 * i);
        i += 1;
    }
    assert(w@ =~= words_of(bytes@));
    w
}

fn load_words_16(bytes: &[u8; 64]) -> (w: [u32; 16])
    ensures
        w@ == words_of(bytes@),
{
    let mut w: [u32; 16] = [0u32; 16];
    let mut i: usize = 0;
    while i < 16
        invariant
            i <= 16,
            forall|j: int| 0 <= j < i ==> w@[j] == #[trigger] words_of(bytes@)[j],
        decreases 16 - i,
    {
        w[i] = load_word(bytes, 4 * i);
        i += 1;
    }
    assert(w@ =~= words_of(bytes@));
    w
}

fn store_words_16(words: &[u32; 16]) -> (out: [u8; 64])
    ensures
        out@ == bytes_of(words@),
{
    let mut out: [u8; 64] = [0u8; 64];
    let mut i: usize = 0;
    while i < 16
        invariant
            i <= 16,
            forall|j: int| 0 <= j < 4 * i ==> out@[j] == #[trigger] bytes_of(words@)[j],
        decreases 16 - i,
    {
        let w: u32 = words[i];
        out[4 * i] = #[verifier::truncate] (w as u8);
        out[4 * i + 1] = #[verifier::truncate] ((w >> 8) as u8);
        out[4 * i + 2] = #[verifier::truncate] ((w >> 16) as u8);
        out[4 * i + 3] = #[verifier::truncate] ((w >> 24) as u8);
        i += 1;
    }
    assert(out@ =~= bytes_of(words@));
    out
}

/// The little-endian bytes of eight words.
pub fn store_words_8(words: &[u32; 8]) -> (out: [u8; 32])
    ensures
        out@ == bytes_of(words@),
{
    let mut out: [u8; 32] = [0u8; 32];
    let mut i: usize = 0;
    while i < 8
        invariant
            i <= 8,
            forall|j: int| 0 <= j < 4 * i ==> out@[j] == #[trigger] bytes_of(words@)[j],
        decreases 8 - i,
    {
        let w: u32 = words[i];
        out[4 * i] = #[verifier::truncate] (w as u8);
        out[4 * i + 1] = #[verifier::truncate] ((w >> 8) as u8);
        out[4 * i + 2] = #[verifier::truncate] ((w >> 16) as u8);
        out[4 * i + 3] = #[verifier::truncate] ((w >> 24) as u8);
        i += 1;
    }
    assert(out@ =~= bytes_of(words@));
    out
}

fn apply_rounds(state: &mut [u32; 16], message: &[u32; 16])
    ensures
        final(state)@ == rounds(old(state)@, message@, 7),
{
    let mut m: [u32; 16] = *message;
    let mut r: usize = 0;
    while r < 6
        invariant
            r <= 6,
            rounds(state@, m@, (7 - r) as nat) == rounds(old(state)@, message@, 7),
        decreases 6 - r,
    {
        one_round(state, &m);
        m = permute_message(&m);
        r += 1;
    }
    one_round(state, &m);
    assert(state@ == rounds(old(state)@, message@, 7)) by {
        reveal_with_fuel(rounds, 2);
    }
}

fn apply_feed_forward(state: &mut [u32; 16], cv_words: &[u32; 8])
    ensures
        final(state)@ == feed_forward(old(state)@, cv_words@),
{
    let mut i: usize = 0;
    while i < 8
        invariant
            i <= 8,
            forall|j: int| 0 <= j < i ==> state@[j] == old(state)@[j] ^ old(state)@[j + 8],
            forall|j: int| 8 <= j < 8 + i ==> state@[j] == old(state)@[j] ^ cv_words@[j - 8],
            forall|j: int| i <= j < 8 ==> state@[j] == old(state)@[j],
            forall|j: int| 8 + i <= j < 16 ==> state@[j] == old(state)@[j],
        decreases 8 - i,
    {
        state[i] = state[i] ^ state[i + 8];
        state[i + 8] = state[i + 8] ^ cv_words[i];
        i += 1;
    }
    assert(state@ =~= feed_forward(old(state)@, cv_words@));
}

/// Compresses one block. Of `block`, the first `block_len` bytes are message
/// and the rest is zero padding; `offset` is the counter that binds the call to
/// its place, and `flags` say which role the call has.
pub fn compress(cv: &[u8; 32], block: &[u8; 64], block_len: u8, offset: u64, flags: u8) -> (out:
    [u8; 64])
    requires
        block_len <= 64,
    ensures
        out@ == compress_spec(cv@, block@, block_len, offset, flags),
{
    let cv_words = load_words_8(cv);
    let m = load_words_16(block);
    let mut state: [u32; 16] = [
        cv_words[0],
        cv_words[1],
        cv_words[2],
        cv_words[3],
        cv_words[4],
        cv_words[5],
        cv_words[6],
        cv_words[7],
        IV[0],
        IV[1],
        IV[2],
        IV[3],
        offset_low(offset),
        offset_high(offset),
        block_len as u32,
        flags as u32,
    ];
    assert(state@ =~= initial_state(cv_words@, block_len, offset, flags));
    apply_rounds(&mut state, &m);
    apply_feed_forward(&mut state, &cv_words);
    proof {
        reveal(compress_spec);
    }
    store_words_16(&state)
}

/// Block `i` of `input`, as a block of its own.
fn copy_block(input: &[u8], i: usize) -> (block: [u8; 64])
    requires
        64 * i + 64 <= input@.len(),
    ensures
        block@ == block_of(input@, i as int),
{
    let mut block: [u8; 64] = [0u8; 64];
    let mut j: usize = 0;
    assert(input@.len() == input.len());
    while j < 64
        invariant
            j <= 64,
            64 * i + 64 <= input@.len() <= usize::MAX,
            forall|k: int| 0 <= k < j ==> block@[k] == input@[64 * i + k],
        decreases 64 - j,
    {
        block[j] = input[64 * i + j];
        j += 1;
    }
    assert(block@ =~= block_of(input@, i as int));
    block
}

/// The first 32 of 64 bytes: of the output of a compression, the chaining
/// value.
pub fn first_half(bytes: &[u8; 64]) -> (half: [u8; 32])
    ensures
        half@ == bytes@.subrange(0, 32),
{
    let mut half: [u8; 32] = [0u8; 32];
    let mut i: usize = 0;
    while i < 32
        invariant
            i <= 32,
            forall|j: int| 0 <= j < i ==> half@[j] == bytes@[j],
        decreases 32 - i,
    {
        half[i] = bytes[i];
        i += 1;
    }
    assert(half@ =~= bytes@.subrange(0, 32));
    half
}

/// The single-item builder: the chaining value of `input`, a whole number of
/// blocks, all compressed under the counter `offset`, the first with
/// `flags_start` and the last with `flags_end` besides `flags`.
pub fn hash1<const N: usize>(
    input: &[u8; N],
    key: &[u8; 32],
    offset: u64,
    flags: u8,
    flags_start: u8,
    flags_end: u8,
) -> (out: [u8; 32])
    requires
        N % 64 == 0,
    ensures
        out@ == single_cv(key@, input@, offset, flags, flags_start, flags_end),
{
    let blocks: usize = N / 64;
    let mut cv: [u8; 32] = *key;
    let mut i: usize = 0;
    while i < blocks
        invariant
            i <= blocks,
            blocks == N / 64,
            N % 64 == 0,
            input@.len() == N,
            i < blocks ==> cv@ == chain(key@, input@, offset, flags, flags_start, i as nat),
            i == blocks ==> cv@ == single_cv(key@, input@, offset, flags, flags_start, flags_end),
        decreases blocks - i,
    {
        let mut flags_here: u8 = if i == 0 {
            flags | flags_start
        } else {
            flags
        };
        if i == blocks - 1 {
            flags_here = flags_here | flags_end;
        }
        let block = copy_block(input, i);
        let out = compress(&cv, &block, 64, offset, flags_here);
        cv = first_half(&out);
        i += 1;
    }
    cv
}

/// The batch processor: the chaining values of all of `inputs`, written to
/// `out` one after the other. The input at place `i` is compressed under the
/// counter `offset` plus `i` steps of `offset_deltas[1]`, so the counter of the
/// last input must fit in 64 bits. The result is that of the single-item
/// builder on each input.
pub fn hash_many<const N: usize>(
    inputs: &[&[u8; N]],
    key: &[u8; 32],
    offset: u64,
    offset_deltas: &OffsetDeltas,
    flags: u8,
    flags_start: u8,
    flags_end: u8,
    out: &mut [u8],
)
    requires
        N % 64 == 0,
        old(out)@.len() >= 32 * inputs@.len(),
        inputs@.len() > 0 ==> offset + (inputs@.len() - 1) * offset_deltas@[1] <= u64::MAX,
    ensures
        final(out)@.len() == old(out)@.len(),
        final(out)@.subrange(0, 32 * (inputs@.len() as int)) == batch_cvs(
            key@,
            input_views(inputs@),
            offset,
            offset_deltas@[1],
            flags,
            flags_start,
            flags_end,
        ),
        forall|j: int| 32 * inputs@.len() <= j < old(out)@.len() ==> final(out)@[j] == old(out)@[j],
{
    let n: usize = inputs.len();
    let step: u64 = offset_deltas[1];
    let ghost views = input_views(inputs@);
    let ghost expected = batch_cvs(key@, views, offset, step, flags, flags_start, flags_end);
    let mut item_offset: u64 = offset;
    let mut i: usize = 0;
    assert(out@.len() == out.len());
    while i < n
        invariant
            i <= n,
            n == inputs@.len(),
            N % 64 == 0,
            out@.len() == old(out)@.len(),
            usize::MAX >= out@.len() >= 32 * n,
            step == offset_deltas@[1],
            n > 0 ==> offset + (n - 1) * step <= u64::MAX,
            i < n ==> item_offset == offset + i * step,
            views == input_views(inputs@),
            expected == batch_cvs(key@, views, offset, step, flags, flags_start, flags_end),
            forall|j: int| 0 <= j < 32 * i ==> out@[j] == expected[j],
            forall|j: int| 32 * n <= j < out@.len() ==> out@[j] == old(out)@[j],
        decreases n - i,
    {
        let cv = hash1(inputs[i], key, item_offset, flags, flags_start, flags_end);
        proof {
            assert(views[i as int] == inputs@[i as int]@);
            assert(item_offset == batch_offset(offset, step, i as int));
            lemma_single_cv_len(key@, views[i as int], item_offset, flags, flags_start, flags_end);
        }
        let mut k: usize = 0;
        while k < 32
            invariant
                k <= 32,
                i < n,
                out@.len() == old(out)@.len(),
                usize::MAX >= out@.len() >= 32 * n,
                n == views.len(),
                expected == batch_cvs(key@, views, offset, step, flags, flags_start, flags_end),
                cv@ == single_cv(
                    key@,
                    views[i as int],
                    batch_offset(offset, step, i as int),
                    flags,
                    flags_start,
                    flags_end,
                ),
                forall|j: int| 0 <= j < 32 * i + k ==> out@[j] == expected[j],
                forall|j: int| 32 * n <= j < out@.len() ==> out@[j] == old(out)@[j],
            decreases 32 - k,
        {
            assert((32 * i + k) / 32 == i as int && (32 * i + k) % 32 == k as int);
            out[32 * i + k] = cv[k];
            k += 1;
        }
        if i + 1 < n {
            // The counter of the next input; after the last there is none.
            assert(offset + (i + 1) * step <= offset + (n - 1) * step) by (nonlinear_arith)
                requires
                    i + 1 < n,
            ;
            assert((i + 1) * step == i * step + step) by (nonlinear_arith);
            item_offset = item_offset + step;
        }
        i += 1;
    }
    assert(out@.subrange(0, 32 * n) =~= expected);
}

} // verus!

//! Helpers that hold another implementation of the compression function or of
//! the batch processor to the portable one, on inputs chosen to show up
//! mistakes.

use vstd::prelude::*;
use crate::{
    OffsetDeltas, CHUNK_END, CHUNK_LEN, CHUNK_OFFSET_DELTAS, CHUNK_START, DERIVE_KEY_MATERIAL,
    KEYED_HASH, PARENT, PARENT_OFFSET_DELTAS, ROOT,
};
use crate::compress_model::compress_spec;
use crate::input_refs::{
    chunk_refs_as_slice, chunk_refs_new, chunk_refs_push, chunk_refs_view, parent_refs_as_slice,
    parent_refs_new, parent_refs_push, parent_refs_view,
};
use crate::portable::{compress, hash_many};
use crate::tree_model::{batch_cvs, input_views};

verus! {

/// The key of the keyed tests: the ASCII bytes of "whats the Elvish word for
/// friend".
pub const TEST_KEY: [u8; 32] = [
    0x77, 0x68, 0x61, 0x74, 0x73, 0x20, 0x74, 0x68,
    0x65, 0x20, 0x45, 0x6c, 0x76, 0x69, 0x73, 0x68,
    0x20, 0x77, 0x6f, 0x72, 0x64, 0x20, 0x66, 0x6f,
    0x72, 0x20, 0x66, 0x72, 0x69, 0x65, 0x6e, 0x64,
];

/// The chaining value that the test of a compression function starts from:
/// the ASCII bytes of "IV for compression tests <('.')>".
pub const COMPRESS_TEST_CV: [u8; 32] = [
    0x49, 0x56, 0x20, 0x66, 0x6f, 0x72, 0x20, 0x63,
    0x6f, 0x6d, 0x70, 0x72, 0x65, 0x73, 0x73, 0x69,
    0x6f, 0x6e, 0x20, 0x74, 0x65, 0x73, 0x74, 0x73,
    0x20, 0x3c, 0x28, 0x27, 0x2e, 0x27, 0x29, 0x3e,
];

/// Input lengths that are worth a test: those around the ends of the first
/// chunks, and the numbers of chunks at which the tree changes its shape.
pub const TEST_CASES: [usize; 21] = [
    0,
    1,
    CHUNK_LEN - 1,
    CHUNK_LEN,
    CHUNK_LEN + 1,
    2 * CHUNK_LEN,
    2 * CHUNK_LEN + 1,
    3 * CHUNK_LEN,
    3 * CHUNK_LEN + 1,
    4 * CHUNK_LEN,
    4 * CHUNK_LEN + 1,
    5 * CHUNK_LEN,
    5 * CHUNK_LEN + 1,
    6 * CHUNK_LEN,
    6 * CHUNK_LEN + 1,
    7 * CHUNK_LEN,
    7 * CHUNK_LEN + 1,
    8 * CHUNK_LEN,
    8 * CHUNK_LEN + 1,
    16 * CHUNK_LEN,
    31 * CHUNK_LEN,
];

/// The largest of the input lengths that are worth a test.
pub const TEST_CASES_MAX: usize = 31 * CHUNK_LEN;

/// The test pattern of `len` bytes, seen from byte `start` of the pattern on:
/// the bytes count up and start over after 251, the largest prime under 256,
/// so that no two neighbouring blocks or chunks are alike.
pub open spec fn painted(start: nat, len: nat) -> Seq<u8> {
    Seq::new(len, |i: int| ((start + i) % 251) as u8)
}

/// Fills `buf` with the test pattern as it runs from byte `start` on.
pub fn paint_from(buf: &mut [u8], start: usize)
    requires
        start + old(buf)@.len() <= usize::MAX,
    ensures
        final(buf)@ == painted(start as nat, old(buf)@.len()),
{
    let n: usize = buf.len();
    let mut i: usize = 0;
    while i < n
        invariant
            i <= n,
            n == buf@.len(),
            start + n <= usize::MAX,
            forall|j: int| 0 <= j < i ==> buf@[j] == ((start + j) % 251) as u8,
        decreases n - i,
    {
        buf[i] = ((start + i) % 251) as u8;
        i += 1;
    }
    assert(buf@ =~= painted(start as nat, n as nat));
}

/// Fills `buf` with the test pattern.
pub fn paint_test_input(buf: &mut [u8])
    ensures
        final(buf)@ == painted(0, old(buf)@.len()),
{
    assert(buf@.len() == buf.len());
    paint_from(buf, 0);
}

/// Whether `a` and `b` hold the same bytes.
pub fn same_bytes(a: &[u8], b: &[u8]) -> (same: bool)
    ensures
        same == (a@ == b@),
{
    if a.len() != b.len() {
        return false;
    }
    let n: usize = a.len();
    let mut i: usize = 0;
    while i < n
        invariant
            i <= n,
            n == a@.len(),
            n == b@.len(),
            forall|j: int| 0 <= j < i ==> a@[j] == b@[j],
        decreases n - i,
    {
        if a[i] != b[i] {
            return false;
        }
        i += 1;
    }
    assert(a@ =~= b@);
    true
}

/// The block of the test of a compression function: 61 bytes of the test
/// pattern and three of padding.
pub open spec fn compress_test_block() -> Seq<u8> {
    painted(0, 61) + seq![0u8, 0u8, 0u8]
}

/// The counter of the test of a compression function, with set bits in both
/// of its halves.
pub const COMPRESS_TEST_OFFSET: u64 = 0x0000_1400_0000_1800;

/// The flags of the test of a compression function.
pub const COMPRESS_TEST_FLAGS: u8 = 26;

/// What a correct compression function returns in its test.
pub open spec fn compress_test_expected() -> Seq<u8> {
    compress_spec(
        COMPRESS_TEST_CV@,
        compress_test_block(),
        61,
        COMPRESS_TEST_OFFSET,
        COMPRESS_TEST_FLAGS,
    )
}

/// Runs `compress_fn` on the test input, a short block under a counter with
/// set bits in both halves and several flags, and says whether it returned
/// what the portable compression function returns.
pub fn test_compress_fn<F>(compress_fn: F) -> (ok: bool) where
    F: Fn(&[u8; 32], &[u8; 64], u8, u64, u8) -> [u8; 64],

    requires
        forall|cv: &[u8; 32], block: &[u8; 64], block_len: u8, offset: u64, flags: u8|
            block_len <= 64 ==> call_requires(compress_fn, (cv, block, block_len, offset, flags)),
    ensures
        exists|cv: &[u8; 32], block: &[u8; 64], out: [u8; 64]|
            cv@ == COMPRESS_TEST_CV@ && block@ == compress_test_block() && #[trigger] call_ensures(
                compress_fn,
                (cv, block, 61u8, COMPRESS_TEST_OFFSET, COMPRESS_TEST_FLAGS),
                out,
            ) && ok == (out@ == compress_test_expected()),
{
    let initial_state: [u8; 32] = COMPRESS_TEST_CV;
    let block_len: u8 = 61;
    let mut block: [u8; 64] = [0u8; 64];
    let mut i: usize = 0;
    while i < 61
        invariant
            i <= 61,
            forall|j: int| 0 <= j < i ==> block@[j] == (j % 251) as u8,
            forall|j: int| i <= j < 64 ==> block@[j] == 0,
        decreases 61 - i,
    {
        block[i] = (i % 251) as u8;
        i += 1;
    }
    assert(block@ =~= compress_test_block());
    let offset: u64 = COMPRESS_TEST_OFFSET;
    let flags: u8 = CHUNK_END | ROOT | KEYED_HASH;
    assert(flags == COMPRESS_TEST_FLAGS) by (bit_vector)
        requires
            flags == 2u8 | 8u8 | 16u8,
    ;
    let portable_out = compress(&initial_state, &block, block_len, offset, flags);
    let test_out = compress_fn(&initial_state, &block, block_len, offset, flags);
    same_bytes(&portable_out, &test_out)
}

/// Number of inputs in the test of a batch processor: 16 + 8 + 4 + 2 + 1, so
/// that a processor of any width has a full batch and a rest.
pub const NUM_INPUTS: usize = 31;

/// The first counter of the chunks in the test of a batch processor: the last
/// one under 2^32, so that the counters of the batch cross into the high half.
pub const CHUNKS_TEST_OFFSET: u64 = 0xFFFF_FFFF;

/// The inputs of the test of a batch processor: `count` pieces of `size` bytes
/// each, cut from the test pattern one after the other.
pub open spec fn painted_inputs(size: nat, count: nat) -> Seq<Seq<u8>> {
    Seq::new(count, |i: int| painted((size * i) as nat, size))
}

/// What a correct batch processor returns for the chunks of its test.
pub open spec fn chunks_test_expected() -> Seq<u8> {
    batch_cvs(
        TEST_KEY@,
        painted_inputs(1024, 31),
        CHUNKS_TEST_OFFSET,
        1,
        DERIVE_KEY_MATERIAL,
        CHUNK_START,
        CHUNK_END,
    )
}

/// What a correct batch processor returns for the parent blocks of its test.
pub open spec fn parents_test_expected() -> Seq<u8> {
    batch_cvs(TEST_KEY@, painted_inputs(64, 31), 0, 0, DERIVE_KEY_MATERIAL | PARENT, 0, 0)
}

/// `f` is called on the chunks of the test of a batch processor, and `out` is
/// what it returns.
pub open spec fn is_chunks_test_run<FC>(f: FC, out: [u8; 992]) -> bool where
    FC: Fn(&[&[u8; 1024]], &[u8; 32], u64, &OffsetDeltas, u8, u8, u8) -> [u8; 992],
 {
    exists|inputs: &[&[u8; 1024]], key: &[u8; 32], deltas: &OffsetDeltas|
        input_views(inputs@) == painted_inputs(1024, 31) && key@ == TEST_KEY@ && deltas@
            == CHUNK_OFFSET_DELTAS@ && #[trigger] call_ensures(
            f,
            (inputs, key, CHUNKS_TEST_OFFSET, deltas, DERIVE_KEY_MATERIAL, CHUNK_START, CHUNK_END),
            out,
        )
}

/// `f` is called on the parent blocks of the test of a batch processor, and
/// `out` is what it returns.
pub open spec fn is_parents_test_run<FP>(f: FP, out: [u8; 992]) -> bool where
    FP: Fn(&[&[u8; 64]], &[u8; 32], u64, &OffsetDeltas, u8, u8, u8) -> [u8; 992],
 {
    exists|inputs: &[&[u8; 64]], key: &[u8; 32], deltas: &OffsetDeltas, flags: u8|
        input_views(inputs@) == painted_inputs(64, 31) && key@ == TEST_KEY@ && deltas@
            == PARENT_OFFSET_DELTAS@ && flags == DERIVE_KEY_MATERIAL | PARENT
            && #[trigger] call_ensures(f, (inputs, key, 0u64, deltas, flags, 0u8, 0u8), out)
}

/// Runs the first batch processor on 31 chunks cut from the test pattern and,
/// only if it returned what the portable batch processor returns, the second
/// on 31 parent blocks cut from the same pattern. Says whether both returned
/// what the portable one returns.
pub fn test_hash_many_fn<FC, FP>(hash_many_chunks_fn: FC, hash_many_parents_fn: FP) -> (ok: bool) where
    FC: Fn(&[&[u8; 1024]], &[u8; 32], u64, &OffsetDeltas, u8, u8, u8) -> [u8; 992],
    FP: Fn(&[&[u8; 64]], &[u8; 32], u64, &OffsetDeltas, u8, u8, u8) -> [u8; 992],

    requires
        forall|
            inputs: &[&[u8; 1024]],
            key: &[u8; 32],
            offset: u64,
            deltas: &OffsetDeltas,
            flags: u8,
            flags_start: u8,
            flags_end: u8,
        |
            inputs@.len() == 31 && offset + 30 * deltas@[1] <= u64::MAX ==> call_requires(
                hash_many_chunks_fn,
                (inputs, key, offset, deltas, flags, flags_start, flags_end),
            ),
        forall|
            inputs: &[&[u8; 64]],
            key: &[u8; 32],
            offset: u64,
            deltas: &OffsetDeltas,
            flags: u8,
            flags_start: u8,
            flags_end: u8,
        |
            inputs@.len() == 31 && offset + 30 * deltas@[1] <= u64::MAX ==> call_requires(
                hash_many_parents_fn,
                (inputs, key, offset, deltas, flags, flags_start, flags_end),
            ),
    ensures
        exists|chunks_out: [u8; 992]|
            #[trigger] is_chunks_test_run(hash_many_chunks_fn, chunks_out) && (chunks_out@
                != chunks_test_expected() ==> !ok) && (chunks_out@ == chunks_test_expected()
                ==> exists|parents_out: [u8; 992]|
                #[trigger] is_parents_test_run(hash_many_parents_fn, parents_out) && ok == (
                parents_out@ == parents_test_expected())),
{
    let key: [u8; 32] = TEST_KEY;

    // First the chunks.
    let mut chunks: [[u8; 1024]; 31] = [[0u8; 1024]; 31];
    let mut i: usize = 0;
    while i < NUM_INPUTS
        invariant
            i <= 31,
            forall|k: int| 0 <= k < i ==> (#[trigger] chunks@[k])@ == painted((1024 * k) as nat, 1024),
        decreases 31 - i,
    {
        let mut chunk: [u8; 1024] = [0u8; 1024];
        paint_from(&mut chunk, CHUNK_LEN * i);
        chunks[i] = chunk;
        i += 1;
    }
    let mut chunk_refs = chunk_refs_new();
    let mut i: usize = 0;
    while i < NUM_INPUTS
        invariant
            i <= 31,
            chunk_refs_view(chunk_refs).len() == i,
            forall|k: int| 0 <= k < i ==> #[trigger] chunk_refs_view(chunk_refs)[k] == chunks@[k]@,
        decreases 31 - i,
    {
        chunk_refs_push(&mut chunk_refs, &chunks[i]);
        i += 1;
    }
    let chunk_inputs = chunk_refs_as_slice(&chunk_refs);
    assert(input_views(chunk_inputs@) =~= painted_inputs(1024, 31));
    assert(chunk_inputs@.len() == 31);
    let mut portable_chunks_out: [u8; 992] = [0u8; 992];
    assert(CHUNK_OFFSET_DELTAS@[1] == 1);
    hash_many(
        chunk_inputs,
        &key,
        CHUNKS_TEST_OFFSET,
        CHUNK_OFFSET_DELTAS,
        DERIVE_KEY_MATERIAL,
        CHUNK_START,
        CHUNK_END,
        &mut portable_chunks_out,
    );
    assert(portable_chunks_out@ =~= chunks_test_expected());
    let test_chunks_out = hash_many_chunks_fn(
        chunk_inputs,
        &key,
        CHUNKS_TEST_OFFSET,
        CHUNK_OFFSET_DELTAS,
        DERIVE_KEY_MATERIAL,
        CHUNK_START,
        CHUNK_END,
    );
    assert(is_chunks_test_run(hash_many_chunks_fn, test_chunks_out));
    if !same_bytes(&portable_chunks_out, &test_chunks_out) {
        // The parents are not tried once the chunks have failed.
        return false;
    }

    // Then the parents.
    let mut parents: [[u8; 64]; 31] = [[0u8; 64]; 31];
    let mut i: usize = 0;
    while i < NUM_INPUTS
        invariant
            i <= 31,
            forall|k: int| 0 <= k < i ==> (#[trigger] parents@[k])@ == painted((64 * k) as nat, 64),
        decreases 31 - i,
    {
        let mut block: [u8; 64] = [0u8; 64];
        paint_from(&mut block, 64 * i);
        parents[i] = block;
        i += 1;
    }
    let mut parent_refs = parent_refs_new();
    let mut i: usize = 0;
    while i < NUM_INPUTS
        invariant
            i <= 31,
            parent_refs_view(parent_refs).len() == i,
            forall|k: int|
                0 <= k < i ==> #[trigger] parent_refs_view(parent_refs)[k] == parents@[k]@,
        decreases 31 - i,
    {
        parent_refs_push(&mut parent_refs, &parents[i]);
        i += 1;
    }
    let parent_inputs = parent_refs_as_slice(&parent_refs);
    assert(input_views(parent_inputs@) =~= painted_inputs(64, 31));
    assert(parent_inputs@.len() == 31);
    let parent_flags: u8 = DERIVE_KEY_MATERIAL | PARENT;
    let mut portable_parents_out: [u8; 992] = [0u8; 992];
    assert(PARENT_OFFSET_DELTAS@[1] == 0);
    hash_many(
        parent_inputs,
        &key,
        0,
        PARENT_OFFSET_DELTAS,
        parent_flags,
        0,
        0,
        &mut portable_parents_out,
    );
    assert(portable_parents_out@ =~= parents_test_expected());
    let test_parents_out = hash_many_parents_fn(
        parent_inputs,
        &key,
        0,
        PARENT_OFFSET_DELTAS,
        parent_flags,
        0,
        0,
    );
    assert(is_parents_test_run(hash_many_parents_fn, test_parents_out));
    same_bytes(&portable_parents_out, &test_parents_out)
}

} // verus!

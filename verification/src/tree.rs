//! The shape of the tree: where an input divides into a left and a right
//! subtree, and the hash of a whole input by dividing it.

use vstd::prelude::*;
use vstd::arithmetic::power2::pow2;
use crate::{CHUNK_END, CHUNK_LEN, CHUNK_OFFSET_DELTAS, CHUNK_START};
use crate::input_refs::{chunk_refs_as_slice, chunk_refs_new, chunk_refs_push, chunk_refs_view};
use crate::merge::MergeStack;
use crate::node::{parent_node_output, ChunkState, Output};
use crate::portable::hash_many;
use crate::tree_model::{
    batch_cvs, batch_offset, input_views, lemma_left_len_bounds, lemma_pow2_leq_bounds,
    lemma_pow2_leq_is_power, lemma_single_cv_len, lemma_single_cv_of_chunk, left_len_spec,
    pow2_leq, root_output, single_cv, subtree_output,
};

verus! {

/// The largest power of two that is at most `n`. For `n == 0` the result is 1.
pub fn largest_power_of_two_leq(n: usize) -> (r: usize)
    ensures
        r == pow2_leq(n as nat),
        exists|e: nat| r == pow2(e),
        n == 0 ==> r == 1,
        n > 0 ==> r <= n < 2 * r,
{
    let mut m: usize = n;
    let mut p: usize = 1;
    while m > 1
        invariant
            p >= 1,
            m <= n,
            n >= 1 ==> p * m <= n,
            n >= 1 ==> m >= 1,
            p * pow2_leq(m as nat) == pow2_leq(n as nat),
        decreases m,
    {
        assert(2 * p <= n && (2 * p) * (m / 2) <= p * m) by (nonlinear_arith)
            requires
                m > 1,
                p >= 1,
                p * m <= n,
        ;
        assert((2 * p) * pow2_leq((m / 2) as nat) == p * (2 * pow2_leq((m / 2) as nat)))
            by (nonlinear_arith);
        m = m / 2;
        p = 2 * p;
    }
    proof {
        lemma_pow2_leq_bounds(n as nat);
        lemma_pow2_leq_is_power(n as nat);
        assert(p * 1 == p);
    }
    p
}

/// Number of bytes that go to the left subtree of a tree over `content_len`
/// bytes: a power of two of whole chunks, and less than the whole.
pub fn left_len(content_len: usize) -> (r: usize)
    requires
        content_len > CHUNK_LEN,
    ensures
        r == left_len_spec(content_len as nat),
        exists|e: nat| r == CHUNK_LEN * pow2(e),
        r < content_len <= 2 * r,
{
    // One byte at least is kept for the right side.
    let full_chunks: usize = (content_len - 1) / CHUNK_LEN;
    let p = largest_power_of_two_leq(full_chunks);
    proof {
        lemma_left_len_bounds(content_len as nat);
        let e = choose|e: nat| p == pow2(e);
        assert(p * CHUNK_LEN == CHUNK_LEN * pow2(e));
    }
    p * CHUNK_LEN
}

/// The root node of the tree over the whole of `input`.
pub fn hash_tree(input: &[u8], key: &[u8; 32], flags: u8) -> (out: Output)
    ensures
        out@ == root_output(key@, flags, input@),
{
    assert(input@.len() == input.len());
    hash_subtree(input, key, 0, flags)
}

/// The node at the top of the tree over `input`, whose first chunk has the
/// index `first_chunk`: hashes the left and the right part apart and joins
/// them, as deep as the input has chunks to divide.
pub fn hash_subtree(input: &[u8], key: &[u8; 32], first_chunk: u64, flags: u8) -> (out: Output)
    requires
        first_chunk + input@.len() / 1024 <= u64::MAX,
    ensures
        out@ == subtree_output(key@, flags, input@, first_chunk as nat),
    decreases input@.len(),
{
    let n: usize = input.len();
    if n <= CHUNK_LEN {
        let mut state = ChunkState::new(key, first_chunk, flags);
        state.update(input);
        assert(Seq::<u8>::empty() + input@ =~= input@);
        state.output()
    } else {
        let l: usize = left_len(n);
        let left = hash_subtree(&input[0..l], key, first_chunk, flags).chaining_value();
        let right_first: u64 = first_chunk + (l / CHUNK_LEN) as u64;
        let right = hash_subtree(&input[l..n], key, right_first, flags).chaining_value();
        parent_node_output(&left, &right, key, flags)
    }
}

/// Number of chunks that go to the batch processor at once.
pub const BATCH: usize = 16;

/// Chunk `i` of `input`, as an array of its own.
fn copy_chunk(input: &[u8], i: usize) -> (chunk: [u8; 1024])
    requires
        1024 * i + 1024 <= input@.len(),
    ensures
        chunk@ == input@.subrange(1024 * i, 1024 * i + 1024),
{
    let mut chunk: [u8; 1024] = [0u8; 1024];
    let mut j: usize = 0;
    assert(input@.len() == input.len());
    while j < 1024
        invariant
            j <= 1024,
            1024 * i + 1024 <= input@.len() <= usize::MAX,
            forall|k: int| 0 <= k < j ==> chunk@[k] == input@[1024 * i + k],
        decreases 1024 - j,
    {
        chunk[j] = input[1024 * i + j];
        j += 1;
    }
    assert(chunk@ =~= input@.subrange(1024 * i, 1024 * i + 1024));
    chunk
}

/// The 32 bytes of `cvs` at place `k`, as an array of their own.
fn copy_cv(cvs: &[u8; 512], k: usize) -> (cv: [u8; 32])
    requires
        k < 16,
    ensures
        cv@ == cvs@.subrange(32 * k, 32 * k + 32),
{
    let mut cv: [u8; 32] = [0u8; 32];
    let mut j: usize = 0;
    while j < 32
        invariant
            j <= 32,
            k < 16,
            forall|i: int| 0 <= i < j ==> cv@[i] == cvs@[32 * k + i],
        decreases 32 - j,
    {
        cv[j] = cvs[32 * k + j];
        j += 1;
    }
    assert(cv@ =~= cvs@.subrange(32 * k, 32 * k + 32));
    cv
}

/// The root node of the tree over the whole of `input`, as `hash_tree` returns
/// it, by another way: the chunks before the last go to the batch processor,
/// sixteen at a time, and their chaining values to the merge stack.
pub fn hash_tree_batched(input: &[u8], key: &[u8; 32], flags: u8) -> (out: Output)
    ensures
        out@ == root_output(key@, flags, input@),
{
    let n: usize = input.len();
    let whole: usize = if n == 0 {
        0
    } else {
        (n - 1) / CHUNK_LEN
    };
    let mut stack = MergeStack::new(key, flags);
    let mut done: usize = 0;
    assert(stack@.input =~= input@.subrange(0, 0));
    while done < whole
        invariant
            n == input@.len(),
            done <= whole,
            whole > 0 ==> 1024 * whole < n,
            n <= 1024 * whole + 1024,
            stack.wf(),
            stack.chunks() == done,
            stack@.key == key@,
            stack@.flags == flags,
            stack@.input == input@.subrange(0, 1024 * done),
        decreases whole - done,
    {
        let batch: usize = if whole - done < BATCH {
            whole - done
        } else {
            BATCH
        };
        let mut chunks: [[u8; 1024]; 16] = [[0u8; 1024]; 16];
        let mut k: usize = 0;
        while k < batch
            invariant
                k <= batch <= 16,
                n == input@.len(),
                1024 * (done + batch) <= n,
                forall|j: int|
                    0 <= j < k ==> (#[trigger] chunks@[j])@ == input@.subrange(
                        1024 * (done + j),
                        1024 * (done + j) + 1024,
                    ),
            decreases batch - k,
        {
            chunks[k] = copy_chunk(input, done + k);
            k += 1;
        }
        let mut refs = chunk_refs_new();
        let mut k: usize = 0;
        while k < batch
            invariant
                k <= batch <= 16,
                chunk_refs_view(refs).len() == k,
                forall|j: int| 0 <= j < k ==> #[trigger] chunk_refs_view(refs)[j] == chunks@[j]@,
            decreases batch - k,
        {
            chunk_refs_push(&mut refs, &chunks[k]);
            k += 1;
        }
        let inputs = chunk_refs_as_slice(&refs);
        let ghost views = input_views(inputs@);
        assert(views == chunk_refs_view(refs));
        let mut cvs: [u8; 512] = [0u8; 512];
        assert(inputs@.len() == batch);
        assert(CHUNK_OFFSET_DELTAS@[1] == 1);
        hash_many(
            inputs,
            key,
            done as u64,
            CHUNK_OFFSET_DELTAS,
            flags,
            CHUNK_START,
            CHUNK_END,
            &mut cvs,
        );
        let ghost results = batch_cvs(key@, views, done as u64, 1, flags, CHUNK_START, CHUNK_END);
        let mut k: usize = 0;
        while k < batch
            invariant
                k <= batch <= 16,
                n == input@.len(),
                1024 * (done + batch) < n,
                views.len() == batch,
                forall|j: int|
                    0 <= j < batch ==> #[trigger] views[j] == input@.subrange(
                        1024 * (done + j),
                        1024 * (done + j) + 1024,
                    ),
                results == batch_cvs(key@, views, done as u64, 1, flags, CHUNK_START, CHUNK_END),
                cvs@.subrange(0, 32 * batch) == results,
                stack.wf(),
                stack.chunks() == done + k,
                stack@.key == key@,
                stack@.flags == flags,
                stack@.input == input@.subrange(0, 1024 * (done + k)),
            decreases batch - k,
        {
            let cv = copy_cv(&cvs, k);
            let ghost chunk = views[k as int];
            proof {
                let counter = batch_offset(done as u64, 1, k as int);
                assert(counter == done + k);
                lemma_single_cv_len(key@, chunk, counter, flags, CHUNK_START, CHUNK_END);
                lemma_single_cv_of_chunk(key@, chunk, counter, flags);
                assert(cv@ =~= single_cv(key@, chunk, counter, flags, CHUNK_START, CHUNK_END)) by {
                    assert forall|i: int| 0 <= i < 32 implies cv@[i] == single_cv(
                        key@,
                        chunk,
                        counter,
                        flags,
                        CHUNK_START,
                        CHUNK_END,
                    )[i] by {
                        assert(cv@[i] == cvs@.subrange(0, 32 * batch)[32 * k + i]);
                        assert((32 * k + i) / 32 == k as int && (32 * k + i) % 32 == i);
                    }
                }
                assert(input@.subrange(0, 1024 * (done + k)) + chunk =~= input@.subrange(
                    0,
                    1024 * (done + k + 1),
                ));
            }
            stack.push_cv(&cv, Ghost(chunk));
            k += 1;
        }
        done = done + batch;
    }
    let last = &input[CHUNK_LEN * whole..n];
    assert(input@.subrange(0, 1024 * whole) + last@ =~= input@);
    stack.root_with(last)
}

} // verus!

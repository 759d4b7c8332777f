//! The hash as mathematics: what a chunk, a parent node and the whole tree
//! over an input evaluate to, and what the three modes return.

use vstd::prelude::*;
use crate::{CHUNK_END, CHUNK_START, DERIVE_KEY_CONTEXT, DERIVE_KEY_MATERIAL, IV, KEYED_HASH, PARENT, ROOT};
use vstd::arithmetic::power2::pow2;
use crate::compress_model::{bytes_of, compress_spec, lemma_compress_len};

verus! {

/// What the last compression of a node takes in. The node's chaining value and,
/// if the node is the root, the output stream both come from it.
pub struct OutputSpec {
    pub input_chaining_value: Seq<u8>,
    pub block: Seq<u8>,
    pub block_len: u8,
    pub counter: u64,
    pub flags: u8,
}

impl OutputSpec {
    /// The node's chaining value: the first half of its compression.
    pub open spec fn chaining_value(self) -> Seq<u8> {
        compress_spec(
            self.input_chaining_value,
            self.block,
            self.block_len,
            self.counter,
            self.flags,
        ).subrange(0, 32)
    }

    /// Block `j` of the output stream, if the node is the root: the
    /// compression done over with the root flag and `j` as the counter.
    pub open spec fn root_block(self, j: u64) -> Seq<u8> {
        compress_spec(self.input_chaining_value, self.block, self.block_len, j, self.flags | ROOT)
    }

    /// Byte `i` of the output stream.
    pub open spec fn root_byte(self, i: int) -> u8 {
        self.root_block((i / 64) as u64)[i % 64]
    }

    /// The `len` bytes of the output stream that begin at byte `start`.
    pub open spec fn root_bytes_at(self, start: nat, len: nat) -> Seq<u8> {
        Seq::new(len, |i: int| self.root_byte(start + i))
    }

    /// The first `len` bytes of the output stream.
    pub open spec fn root_bytes(self, len: nat) -> Seq<u8> {
        self.root_bytes_at(0, len)
    }

    /// The digest: the first 32 bytes of the output stream.
    pub open spec fn root_hash(self) -> Seq<u8> {
        self.root_bytes(32)
    }
}

/// The flags of the compression of block `i` of a run of blocks, of which only
/// the first carries `flags_start`.
pub open spec fn block_flags(flags: u8, flags_start: u8, i: int) -> u8 {
    if i == 0 {
        flags | flags_start
    } else {
        flags
    }
}

/// Block `i` of `data`: its bytes from `64 * i` up to `64 * i + 64`.
pub open spec fn block_of(data: Seq<u8>, i: int) -> Seq<u8> {
    data.subrange(64 * i, 64 * i + 64)
}

/// The chaining value after the first `n` blocks of `data`, 64 bytes each, went
/// through the compression function in turn, starting from `key`.
pub open spec fn chain(
    key: Seq<u8>,
    data: Seq<u8>,
    counter: u64,
    flags: u8,
    flags_start: u8,
    n: nat,
) -> Seq<u8>
    decreases n,
{
    if n == 0 {
        key
    } else {
        compress_spec(
            chain(key, data, counter, flags, flags_start, (n - 1) as nat),
            block_of(data, n - 1),
            64,
            counter,
            block_flags(flags, flags_start, n - 1),
        ).subrange(0, 32)
    }
}

/// `b` followed by as many zero bytes as it takes to fill a block.
pub open spec fn pad_block(b: Seq<u8>) -> Seq<u8> {
    Seq::new(
        64,
        |i: int|
            if i < b.len() {
                b[i]
            } else {
                0u8
            },
    )
}

/// Number of blocks of a chunk of `len` bytes that come before its last block.
/// The last block is the one that may be short, and is empty only in the
/// empty chunk.
pub open spec fn blocks_before_last(len: nat) -> nat {
    if len == 0 {
        0
    } else {
        ((len - 1) / 64) as nat
    }
}

/// The node of the chunk with index `counter` that holds `data`, at most 1024
/// bytes.
pub open spec fn chunk_output(key: Seq<u8>, data: Seq<u8>, counter: u64, flags: u8) -> OutputSpec {
    let n = blocks_before_last(data.len());
    OutputSpec {
        input_chaining_value: chain(key, data, counter, flags, CHUNK_START, n),
        block: pad_block(data.subrange((64 * n) as int, data.len() as int)),
        block_len: (data.len() - 64 * n) as u8,
        counter,
        flags: block_flags(flags, CHUNK_START, n as int) | CHUNK_END,
    }
}

/// The node of the parent of two subtrees with chaining values `left` and
/// `right`.
pub open spec fn parent_output(left: Seq<u8>, right: Seq<u8>, key: Seq<u8>, flags: u8) -> OutputSpec {
    OutputSpec {
        input_chaining_value: key,
        block: left + right,
        block_len: 64,
        counter: 0,
        flags: flags | PARENT,
    }
}

/// The chaining value of the parent of two subtrees.
pub open spec fn parent_cv(left: Seq<u8>, right: Seq<u8>, key: Seq<u8>, flags: u8) -> Seq<u8> {
    parent_output(left, right, key, flags).chaining_value()
}

/// What the single-item builder of the batch processor returns for `input`, a
/// whole number of blocks: the chaining value after all of them, the first
/// compressed with `flags_start` and the last with `flags_end`.
pub open spec fn single_cv(
    key: Seq<u8>,
    input: Seq<u8>,
    counter: u64,
    flags: u8,
    flags_start: u8,
    flags_end: u8,
) -> Seq<u8> {
    let k = input.len() / 64;
    if k == 0 {
        key
    } else {
        compress_spec(
            chain(key, input, counter, flags, flags_start, (k - 1) as nat),
            block_of(input, k - 1),
            64,
            counter,
            block_flags(flags, flags_start, k - 1) | flags_end,
        ).subrange(0, 32)
    }
}

/// The inputs of a batch as sequences of bytes.
pub open spec fn input_views<const N: usize>(inputs: Seq<&[u8; N]>) -> Seq<Seq<u8>> {
    Seq::new(inputs.len(), |i: int| inputs[i]@)
}

/// The counter of item `i` of a batch that starts at `offset` and steps by
/// `step` from one item to the next.
pub open spec fn batch_offset(offset: u64, step: u64, i: int) -> u64 {
    (offset + i * step) as u64
}

/// What the batch processor returns for `inputs`: the chaining values that the
/// single-item builder returns for each of them, one after the other.
pub open spec fn batch_cvs(
    key: Seq<u8>,
    inputs: Seq<Seq<u8>>,
    offset: u64,
    step: u64,
    flags: u8,
    flags_start: u8,
    flags_end: u8,
) -> Seq<u8> {
    Seq::new(
        32 * inputs.len(),
        |j: int|
            single_cv(
                key,
                inputs[j / 32],
                batch_offset(offset, step, j / 32),
                flags,
                flags_start,
                flags_end,
            )[j % 32],
    )
}

/// The largest power of two that is at most `n`; 1 for `n == 0`.
pub open spec fn pow2_leq(n: nat) -> nat
    decreases n,
{
    if n <= 1 {
        1
    } else {
        2 * pow2_leq(n / 2)
    }
}

/// Number of bytes that go to the left subtree of a tree over `n` bytes, for
/// `n` over 1024: the largest power of two of whole chunks that leaves at least
/// one byte to the right.
pub open spec fn left_len_spec(n: nat) -> nat {
    pow2_leq(((n - 1) / 1024) as nat) * 1024
}

/// `pow2_leq(n)` is at least 1 and, from `n == 1` on, at most `n` and over half
/// of it.
pub proof fn lemma_pow2_leq_bounds(n: nat)
    ensures
        1 <= pow2_leq(n),
        n >= 1 ==> pow2_leq(n) <= n < 2 * pow2_leq(n),
    decreases n,
{
    if n > 1 {
        lemma_pow2_leq_bounds(n / 2);
    }
}

/// `pow2_leq(n)` is a power of two.
pub proof fn lemma_pow2_leq_is_power(n: nat)
    ensures
        exists|e: nat| pow2_leq(n) == pow2(e),
    decreases n,
{
    if n <= 1 {
        assert(pow2(0) == 1) by {
            vstd::arithmetic::power2::lemma2_to64();
        }
        assert(pow2_leq(n) == pow2(0));
    } else {
        lemma_pow2_leq_is_power(n / 2);
        let e = choose|e: nat| pow2_leq(n / 2) == pow2(e);
        vstd::arithmetic::power2::lemma_pow2_unfold(e + 1);
        assert(pow2_leq(n) == pow2(e + 1));
    }
}

/// The left subtree of a tree over more than one chunk is neither empty nor the
/// whole tree.
pub proof fn lemma_left_len_bounds(n: nat)
    requires
        n > 1024,
    ensures
        1024 <= left_len_spec(n) < n,
        left_len_spec(n) % 1024 == 0,
{
    let c = ((n - 1) / 1024) as nat;
    lemma_pow2_leq_bounds(c);
    assert(pow2_leq(c) * 1024 <= c * 1024) by (nonlinear_arith)
        requires
            pow2_leq(c) <= c,
    ;
    assert((pow2_leq(c) * 1024) % 1024 == 0) by (nonlinear_arith);
}

/// The node at the top of the tree over `input`, whose first chunk has index
/// `first_chunk`: the chunk itself where one chunk holds the input, else the
/// parent of the trees over the left and the right part.
pub open spec fn subtree_output(key: Seq<u8>, flags: u8, input: Seq<u8>, first_chunk: nat) -> OutputSpec
    decreases input.len(),
    via subtree_output_decreases
{
    if input.len() <= 1024 {
        chunk_output(key, input, first_chunk as u64, flags)
    } else {
        let l = left_len_spec(input.len());
        parent_output(
            subtree_output(key, flags, input.subrange(0, l as int), first_chunk).chaining_value(),
            subtree_output(
                key,
                flags,
                input.subrange(l as int, input.len() as int),
                first_chunk + l / 1024,
            ).chaining_value(),
            key,
            flags,
        )
    }
}

#[via_fn]
proof fn subtree_output_decreases(key: Seq<u8>, flags: u8, input: Seq<u8>, first_chunk: nat) {
    if input.len() > 1024 {
        lemma_left_len_bounds(input.len());
    }
}

/// The chaining value of the tree over `input`.
pub open spec fn subtree_cv(key: Seq<u8>, flags: u8, input: Seq<u8>, first_chunk: nat) -> Seq<u8> {
    subtree_output(key, flags, input, first_chunk).chaining_value()
}

/// The root node of the tree over the whole of `input`.
pub open spec fn root_output(key: Seq<u8>, flags: u8, input: Seq<u8>) -> OutputSpec {
    subtree_output(key, flags, input, 0)
}

/// The public constant that starts the plain mode, as 32 bytes.
pub open spec fn iv_bytes() -> Seq<u8> {
    bytes_of(IV@)
}

/// The digest of `input` in the plain mode.
pub open spec fn hash_spec(input: Seq<u8>) -> Seq<u8> {
    root_output(iv_bytes(), 0, input).root_hash()
}

/// The digest of `input` under `key`, in the keyed mode.
pub open spec fn hash_keyed_spec(key: Seq<u8>, input: Seq<u8>) -> Seq<u8> {
    root_output(key, KEYED_HASH, input).root_hash()
}

/// The key that a context string stands for: its digest under the flag of
/// contexts.
pub open spec fn context_key_spec(context: Seq<u8>) -> Seq<u8> {
    root_output(iv_bytes(), DERIVE_KEY_CONTEXT, context).root_hash()
}

/// The key derived from `material` for the purpose that `context` names.
pub open spec fn derive_key_spec(context: Seq<u8>, material: Seq<u8>) -> Seq<u8> {
    root_output(context_key_spec(context), DERIVE_KEY_MATERIAL, material).root_hash()
}

/// The result of the single-item builder is 32 bytes long, if the key is.
pub proof fn lemma_single_cv_len(
    key: Seq<u8>,
    input: Seq<u8>,
    counter: u64,
    flags: u8,
    flags_start: u8,
    flags_end: u8,
)
    requires
        key.len() == 32,
    ensures
        single_cv(key, input, counter, flags, flags_start, flags_end).len() == 32,
{
    let k = input.len() / 64;
    if k > 0 {
        lemma_compress_len(
            chain(key, input, counter, flags, flags_start, (k - 1) as nat),
            block_of(input, k - 1),
            64,
            counter,
            block_flags(flags, flags_start, k - 1) | flags_end,
        );
    }
}

/// On a whole chunk, the single-item builder with the flags of a chunk's first
/// and last block returns the chunk's chaining value.
pub proof fn lemma_single_cv_of_chunk(key: Seq<u8>, chunk: Seq<u8>, counter: u64, flags: u8)
    requires
        chunk.len() == 1024,
    ensures
        single_cv(key, chunk, counter, flags, CHUNK_START, CHUNK_END) == chunk_output(
            key,
            chunk,
            counter,
            flags,
        ).chaining_value(),
{
    assert(pad_block(chunk.subrange(960, 1024)) =~= block_of(chunk, 15));
}

/// What was compressed so far does not depend on what comes after it.
pub proof fn lemma_chain_prefix(
    key: Seq<u8>,
    data: Seq<u8>,
    more: Seq<u8>,
    counter: u64,
    flags: u8,
    flags_start: u8,
    n: nat,
)
    requires
        64 * n <= data.len(),
    ensures
        chain(key, data + more, counter, flags, flags_start, n) == chain(
            key,
            data,
            counter,
            flags,
            flags_start,
            n,
        ),
    decreases n,
{
    if n > 0 {
        lemma_chain_prefix(key, data, more, counter, flags, flags_start, (n - 1) as nat);
        assert(block_of(data + more, n - 1) =~= block_of(data, n - 1));
    }
}

} // verus!

//! What holds of the hash whatever the input: the laws that callers may rely
//! on, each stated over the mathematical model and proved.

use vstd::prelude::*;
use crate::{CHUNK_END, CHUNK_START, DERIVE_KEY_CONTEXT, DERIVE_KEY_MATERIAL, KEYED_HASH, PARENT, ROOT};
use crate::hasher::{merges_after, HasherView};
use crate::tree_model::{
    batch_cvs, batch_offset, block_of, chain, hash_spec, iv_bytes, lemma_single_cv_len, parent_cv,
    root_output, single_cv, OutputSpec,
};

verus! {

/// All the pieces of `parts`, one after the other.
pub open spec fn concat(parts: Seq<Seq<u8>>) -> Seq<u8>
    decreases parts.len(),
{
    if parts.len() == 0 {
        Seq::empty()
    } else {
        concat(parts.drop_last()) + parts.last()
    }
}

/// What a hasher stands for once it has taken in all of `parts`, each in a
/// call of its own.
pub open spec fn absorb_all(start: HasherView, parts: Seq<Seq<u8>>) -> HasherView
    decreases parts.len(),
{
    if parts.len() == 0 {
        start
    } else {
        absorb_all(start, parts.drop_last()).absorb(parts.last())
    }
}

/// The view is one that a hasher can have: the number of parent nodes is the
/// one that belongs to the length of the input.
pub open spec fn valid(view: HasherView) -> bool {
    view.merges == merges_after(view.input.len())
}

/// Two calls in a row are as good as one call with both pieces.
pub proof fn lemma_absorb_twice(start: HasherView, first: Seq<u8>, second: Seq<u8>)
    ensures
        start.absorb(first).absorb(second) == start.absorb(first + second),
{
    assert((start.input + first) + second =~= start.input + (first + second));
}

/// Order independence: however an input is cut into pieces for the hasher, the
/// hasher stands for the same afterwards as after one call with the whole
/// input, and so returns the same digest and the same output.
pub proof fn lemma_order_independence(start: HasherView, parts: Seq<Seq<u8>>)
    requires
        valid(start),
    ensures
        absorb_all(start, parts) == start.absorb(concat(parts)),
        absorb_all(start, parts).digest() == start.absorb(concat(parts)).digest(),
        valid(absorb_all(start, parts)),
    decreases parts.len(),
{
    if parts.len() == 0 {
        assert(start.input + Seq::<u8>::empty() =~= start.input);
    } else {
        lemma_order_independence(start, parts.drop_last());
        lemma_absorb_twice(start, concat(parts.drop_last()), parts.last());
    }
}

/// A hasher of the plain mode that has taken in `input`, in whatever pieces,
/// returns the digest that the one-shot function returns.
pub proof fn lemma_streaming_is_one_shot(parts: Seq<Seq<u8>>)
    ensures
        absorb_all(
            HasherView { key: iv_bytes(), flags: 0, input: Seq::empty(), merges: 0 },
            parts,
        ).digest() == hash_spec(concat(parts)),
{
    let start = HasherView { key: iv_bytes(), flags: 0, input: Seq::empty(), merges: 0 };
    assert(merges_after(0) == 0) by {
        reveal_with_fuel(crate::merge_model::count_ones, 1);
    }
    lemma_order_independence(start, parts);
    assert(Seq::<u8>::empty() + concat(parts) =~= concat(parts));
}

/// The prefix law of the output stream: the first `k` bytes of an output of
/// `len` bytes are the output of `k` bytes. With `k == 32`: an extended output
/// begins with the digest.
pub proof fn lemma_xof_prefix(node: OutputSpec, len: nat, k: nat)
    requires
        k <= len,
    ensures
        node.root_bytes(len).subrange(0, k as int) == node.root_bytes(k),
        len >= 32 ==> node.root_bytes(len).subrange(0, 32) == node.root_hash(),
{
    assert(node.root_bytes(len).subrange(0, k as int) =~= node.root_bytes(k));
    if len >= 32 {
        assert(node.root_bytes(len).subrange(0, 32) =~= node.root_bytes(32));
    }
}

/// The output stream can be read from any place: the bytes from `start` on
/// are the same whether asked for alone or as the end of a longer output.
pub proof fn lemma_xof_seek(node: OutputSpec, start: nat, len: nat)
    ensures
        node.root_bytes_at(start, len) == node.root_bytes(start + len).subrange(
            start as int,
            (start + len) as int,
        ),
{
    assert(node.root_bytes_at(start, len) =~= node.root_bytes(start + len).subrange(
        start as int,
        (start + len) as int,
    ));
}

/// Batch and single calls agree: of what the batch processor returns for any
/// number of inputs, the 32 bytes at place `i` are what the single-item
/// builder returns for input `i` under the counter of that place.
pub proof fn lemma_batch_is_single_calls(
    key: Seq<u8>,
    inputs: Seq<Seq<u8>>,
    offset: u64,
    step: u64,
    flags: u8,
    flags_start: u8,
    flags_end: u8,
    i: int,
)
    requires
        key.len() == 32,
        0 <= i < inputs.len(),
    ensures
        batch_cvs(key, inputs, offset, step, flags, flags_start, flags_end).len() == 32
            * inputs.len(),
        batch_cvs(key, inputs, offset, step, flags, flags_start, flags_end).subrange(
            32 * i,
            32 * i + 32,
        ) == single_cv(
            key,
            inputs[i],
            batch_offset(offset, step, i),
            flags,
            flags_start,
            flags_end,
        ),
{
    let single = single_cv(
        key,
        inputs[i],
        batch_offset(offset, step, i),
        flags,
        flags_start,
        flags_end,
    );
    lemma_single_cv_len(key, inputs[i], batch_offset(offset, step, i), flags, flags_start, flags_end);
    let all = batch_cvs(key, inputs, offset, step, flags, flags_start, flags_end);
    assert forall|j: int| 0 <= j < 32 implies all.subrange(32 * i, 32 * i + 32)[j] == single[j] by {
        assert((32 * i + j) / 32 == i && (32 * i + j) % 32 == j);
    }
    assert(all.subrange(32 * i, 32 * i + 32) =~= single);
}

/// On the chaining values of two subtrees, one after the other, the
/// single-item builder with the parent flag returns the parent's chaining
/// value.
pub proof fn lemma_single_cv_of_parent(left: Seq<u8>, right: Seq<u8>, key: Seq<u8>, flags: u8)
    requires
        left.len() == 32,
        right.len() == 32,
    ensures
        single_cv(key, left + right, 0, flags | PARENT, 0, 0) == parent_cv(left, right, key, flags),
{
    let f = flags | PARENT;
    assert((f | 0u8) | 0u8 == f) by (bit_vector);
    assert(block_of(left + right, 0) =~= left + right);
    assert(chain(key, left + right, 0, f, 0, 0) == key);
}

/// The bits of the flags that tell the modes apart.
pub open spec fn mode_bits(flags: u8) -> u8 {
    flags & (KEYED_HASH | DERIVE_KEY_CONTEXT | DERIVE_KEY_MATERIAL)
}

/// The flags of the three modes, and that of contexts, differ in their mode
/// bits, and none of them is a flag of a node's place in the tree.
pub proof fn lemma_mode_flags_differ()
    ensures
        mode_bits(0) == 0,
        mode_bits(KEYED_HASH) == KEYED_HASH,
        mode_bits(DERIVE_KEY_CONTEXT) == DERIVE_KEY_CONTEXT,
        mode_bits(DERIVE_KEY_MATERIAL) == DERIVE_KEY_MATERIAL,
        mode_bits(CHUNK_START | CHUNK_END | PARENT | ROOT) == 0,
{
    assert(0u8 & (16u8 | 32u8 | 64u8) == 0) by (bit_vector);
    assert(16u8 & (16u8 | 32u8 | 64u8) == 16) by (bit_vector);
    assert(32u8 & (16u8 | 32u8 | 64u8) == 32) by (bit_vector);
    assert(64u8 & (16u8 | 32u8 | 64u8) == 64) by (bit_vector);
    assert((1u8 | 2u8 | 4u8 | 8u8) & (16u8 | 32u8 | 64u8) == 0) by (bit_vector);
}

/// Mode separation, as far as it is a fact and not a likelihood: the
/// compression that yields the output of a mode has the mode's bits in its
/// flags, whatever the input. So the three modes never run the same last
/// compression, and that their outputs differ is as likely as that two
/// different compressions do.
pub proof fn lemma_root_carries_mode(key: Seq<u8>, flags: u8, input: Seq<u8>)
    ensures
        mode_bits(root_output(key, flags, input).flags | ROOT) == mode_bits(flags),
{
    if input.len() <= 1024 {
        assert(((flags | 1u8) | 2u8 | 8u8) & (16u8 | 32u8 | 64u8) == flags & (16u8 | 32u8 | 64u8))
            by (bit_vector);
        assert((flags | 2u8 | 8u8) & (16u8 | 32u8 | 64u8) == flags & (16u8 | 32u8 | 64u8))
            by (bit_vector);
    } else {
        assert((flags | 4u8 | 8u8) & (16u8 | 32u8 | 64u8) == flags & (16u8 | 32u8 | 64u8))
            by (bit_vector);
    }
}

} // verus!

//! The three modes, each as a function of the whole input and as a hasher
//! that takes the input in pieces.

use vstd::prelude::*;
use crate::{CHUNK_LEN, DERIVE_KEY_CONTEXT, DERIVE_KEY_MATERIAL, IV, KEYED_HASH};
use crate::laws::lemma_xof_prefix;
use crate::merge::MergeStack;
use crate::merge_model::{complete_chunks, count_ones};
use crate::node::{ChunkState, Output};
use crate::portable::store_words_8;
use crate::tree::hash_tree;
use crate::tree_model::{
    context_key_spec, derive_key_spec, hash_keyed_spec, hash_spec, iv_bytes, root_output,
};

verus! {

/// The public constant that starts the plain mode, as 32 bytes.
pub fn iv_as_bytes() -> (bytes: [u8; 32])
    ensures
        bytes@ == iv_bytes(),
{
    let words: [u32; 8] = IV;
    store_words_8(&words)
}

/// The digest of `input` in the plain mode.
pub fn hash(input: &[u8]) -> (digest: crate::Hash)
    ensures
        digest@ == hash_spec(input@),
{
    let key = iv_as_bytes();
    hash_tree(input, &key, 0).root_hash()
}

/// The digest of `input` under `key`: a message authentication code.
pub fn hash_keyed(key: &[u8; 32], input: &[u8]) -> (digest: crate::Hash)
    ensures
        digest@ == hash_keyed_spec(key@, input@),
{
    hash_tree(input, key, KEYED_HASH).root_hash()
}

/// The key that stands for the context string `context`.
pub fn context_key(context: &[u8]) -> (key: [u8; 32])
    ensures
        key@ == context_key_spec(context@),
{
    let iv = iv_as_bytes();
    hash_tree(context, &iv, DERIVE_KEY_CONTEXT).root_hash()
}

/// The key derived from `key_material` for the purpose that `context` names:
/// first the context gives a key of its own, then the material is hashed under
/// that key.
pub fn derive_key(context: &[u8], key_material: &[u8]) -> (key: crate::Hash)
    ensures
        key@ == derive_key_spec(context@, key_material@),
{
    let context_key = context_key(context);
    hash_tree(key_material, &context_key, DERIVE_KEY_MATERIAL).root_hash()
}

/// Number of parent nodes that a hasher has computed once `len` bytes have come
/// in: one for each complete chunk, less one for each set bit of their number.
pub open spec fn merges_after(len: nat) -> nat {
    (complete_chunks(len) - count_ones(complete_chunks(len))) as nat
}

/// What a hasher stands for: the mode, all the bytes it has taken in, and the
/// number of parent nodes it has computed on the way.
pub struct HasherView {
    pub key: Seq<u8>,
    pub flags: u8,
    pub input: Seq<u8>,
    pub merges: nat,
}

impl HasherView {
    /// The root node of the tree over the bytes taken in.
    pub open spec fn root(self) -> crate::tree_model::OutputSpec {
        root_output(self.key, self.flags, self.input)
    }

    /// The digest of the bytes taken in.
    pub open spec fn digest(self) -> Seq<u8> {
        self.root().root_hash()
    }

    /// What the hasher stands for once it has taken in `more`.
    pub open spec fn absorb(self, more: Seq<u8>) -> HasherView {
        HasherView {
            input: self.input + more,
            merges: merges_after(self.input.len() + more.len()),
            ..self
        }
    }
}

/// The incremental hasher. It takes the input in any number of pieces, cut
/// anywhere, and can be asked for the digest or for output of any length at
/// any time, and go on taking input afterwards. It is plain data of a fixed
/// size: a copy is an independent checkpoint.
pub struct Hasher {
    chunk_state: ChunkState,
    stack: MergeStack,
}

impl View for Hasher {
    type V = HasherView;

    closed spec fn view(&self) -> HasherView {
        HasherView {
            key: self.stack@.key,
            flags: self.stack@.flags,
            input: self.stack@.input + self.chunk_state@.data,
            merges: self.stack@.merges,
        }
    }
}

impl Clone for Hasher {
    fn clone(&self) -> (copy: Self)
        ensures
            copy == *self,
    {
        Hasher { chunk_state: self.chunk_state.clone(), stack: self.stack.clone() }
    }
}

impl Hasher {
    /// The hasher holds what its view says: the whole chunks before the
    /// current one are on the merge stack, and the current chunk, which is
    /// empty only before the first byte, is kept back because it may be the
    /// last. The input is shorter than 2^64 bytes.
    pub closed spec fn wf(&self) -> bool {
        &&& self.stack.wf()
        &&& self.chunk_state.wf()
        &&& self.chunk_state@.key == self.stack@.key
        &&& self.chunk_state@.flags == self.stack@.flags
        &&& self.chunk_state@.counter == self.stack.chunks()
        &&& self.stack.chunks() > 0 ==> self.chunk_state@.data.len() > 0
        &&& self.stack@.input.len() + self.chunk_state@.data.len() <= u64::MAX
    }

    /// Number of entries on the merge stack.
    pub closed spec fn stack_entries(&self) -> nat {
        self.stack@.entries
    }

    /// The shape of the tree so far: the chunks on the merge stack are those that are
    /// complete and known not to be the last; the stack has one entry for
    /// each set bit of their number, and one parent node was computed for each
    /// of them that is no longer an entry of its own.
    pub proof fn lemma_tree_shape(&self)
        requires
            self.wf(),
        ensures
            self@.input.len() <= u64::MAX,
            self.stack_entries() == count_ones(complete_chunks(self@.input.len())),
            self@.merges == complete_chunks(self@.input.len()) - count_ones(
                complete_chunks(self@.input.len()),
            ),
            self@.merges == merges_after(self@.input.len()),
    {
        self.stack.lemma_shape();
        self.chunk_state.lemma_len_bound();
    }

    fn with_mode(key: &[u8; 32], flags: u8) -> (hasher: Hasher)
        ensures
            hasher.wf(),
            hasher@ == (HasherView { key: key@, flags, input: Seq::empty(), merges: 0 }),
    {
        let hasher = Hasher {
            chunk_state: ChunkState::new(key, 0, flags),
            stack: MergeStack::new(key, flags),
        };
        assert(hasher@.input =~= Seq::<u8>::empty());
        hasher
    }

    /// A hasher of the plain mode, with no input yet.
    pub fn new() -> (hasher: Hasher)
        ensures
            hasher.wf(),
            hasher@ == (HasherView { key: iv_bytes(), flags: 0, input: Seq::empty(), merges: 0 }),
    {
        let key = iv_as_bytes();
        Hasher::with_mode(&key, 0)
    }

    /// A hasher of the keyed mode under `key`, with no input yet.
    pub fn new_keyed(key: &[u8; 32]) -> (hasher: Hasher)
        ensures
            hasher.wf(),
            hasher@ == (HasherView { key: key@, flags: KEYED_HASH, input: Seq::empty(), merges: 0 }),
    {
        Hasher::with_mode(key, KEYED_HASH)
    }

    /// A hasher that derives a key for the purpose that `context` names, with
    /// no key material yet.
    pub fn new_derive_key(context: &[u8]) -> (hasher: Hasher)
        ensures
            hasher.wf(),
            hasher@ == (HasherView {
                key: context_key_spec(context@),
                flags: DERIVE_KEY_MATERIAL,
                input: Seq::empty(),
                merges: 0,
            }),
    {
        let key = context_key(context);
        Hasher::with_mode(&key, DERIVE_KEY_MATERIAL)
    }

    /// Number of parent nodes computed so far.
    pub fn merges(&self) -> (n: u64)
        ensures
            n == self@.merges,
    {
        self.stack.merges()
    }

    /// Number of entries on the merge stack.
    pub fn stack_depth(&self) -> (n: usize)
        ensures
            n == self.stack_entries(),
    {
        self.stack.depth()
    }

    /// Takes in `input`. However the bytes of an input are cut into calls, the
    /// hasher stands for the same afterwards.
    pub fn update(&mut self, input: &[u8])
        requires
            old(self).wf(),
            old(self)@.input.len() + input@.len() <= u64::MAX,
        ensures
            final(self).wf(),
            final(self)@ == old(self)@.absorb(input@),
    {
        let n: usize = input.len();
        let mut pos: usize = 0;
        assert(self@.input =~= old(self)@.input + input@.subrange(0, 0));
        while pos < n
            invariant
                n == input@.len(),
                pos <= n,
                self.wf(),
                old(self)@.input.len() + n <= u64::MAX,
                self@.key == old(self)@.key,
                self@.flags == old(self)@.flags,
                self@.input == old(self)@.input + input@.subrange(0, pos as int),
            decreases n - pos,
        {
            let ghost before = self@.input;
            if self.chunk_state.len() == CHUNK_LEN {
                // More input has come, so the chunk is not the last.
                let ghost chunk = self.chunk_state@.data;
                proof {
                    self.stack.lemma_shape();
                }
                let cv = self.chunk_state.output().chaining_value();
                let next: u64 = self.chunk_state.counter() + 1;
                self.stack.push_cv(&cv, Ghost(chunk));
                self.chunk_state = ChunkState::new(self.stack.key(), next, self.stack.flags());
                assert(self@.input =~= before);
            }
            let want: usize = CHUNK_LEN - self.chunk_state.len();
            let take: usize = if want < n - pos {
                want
            } else {
                n - pos
            };
            self.chunk_state.update(&input[pos..pos + take]);
            proof {
                assert(self@.input =~= before + input@.subrange(pos as int, pos + take));
                assert(input@.subrange(0, pos + take) =~= input@.subrange(0, pos as int)
                    + input@.subrange(pos as int, pos + take));
            }
            pos = pos + take;
        }
        proof {
            assert(input@.subrange(0, n as int) =~= input@);
            self.lemma_tree_shape();
        }
    }

    /// The root node of the tree over the bytes taken in.
    pub fn final_output(&self) -> (out: Output)
        requires
            self.wf(),
        ensures
            out@ == self@.root(),
    {
        proof {
            self.chunk_state.lemma_len_bound();
        }
        self.stack.fold(self.chunk_state.output(), Ghost(self.chunk_state@.data))
    }

    /// The digest of the bytes taken in. The hasher is left as it was.
    pub fn finalize(&self) -> (digest: crate::Hash)
        requires
            self.wf(),
        ensures
            digest@ == self@.digest(),
    {
        self.final_output().root_hash()
    }

    /// Fills `out` with output: as many bytes as `out` has, the digest first.
    /// The hasher is left as it was.
    pub fn finalize_xof(&self, out: &mut [u8])
        requires
            self.wf(),
        ensures
            final(out)@ == self@.root().root_bytes(old(out)@.len()),
            old(out)@.len() >= 32 ==> final(out)@.subrange(0, 32) == self@.digest(),
    {
        proof {
            if out@.len() >= 32 {
                lemma_xof_prefix(self@.root(), out@.len(), 32);
            }
        }
        self.final_output().root_output_bytes(out);
    }

    /// Fills `out` with the bytes of the output stream from byte `start` on.
    /// The hasher is left as it was.
    pub fn finalize_xof_at(&self, start: u64, out: &mut [u8])
        requires
            self.wf(),
        ensures
            final(out)@ == self@.root().root_bytes_at(start as nat, old(out)@.len()),
    {
        self.final_output().root_output_bytes_at(start, out);
    }
}

} // verus!

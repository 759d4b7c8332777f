//! The nodes of the tree in executable form: the chunk builder, the parent
//! builder, and the output of a node, from which its chaining value and, at
//! the root, the output stream are read.

use vstd::prelude::*;
use crate::{CHUNK_END, CHUNK_START, PARENT, ROOT};
use crate::portable::{compress, first_half};
use crate::tree_model::{
    block_flags, block_of, blocks_before_last, chain, chunk_output, lemma_chain_prefix,
    pad_block, parent_output, OutputSpec,
};

verus! {

/// What the last compression of a node takes in, held back so that the caller
/// can still decide whether the node is the root.
pub struct Output {
    input_chaining_value: [u8; 32],
    block: [u8; 64],
    block_len: u8,
    counter: u64,
    flags: u8,
}

impl View for Output {
    type V = OutputSpec;

    closed spec fn view(&self) -> OutputSpec {
        OutputSpec {
            input_chaining_value: self.input_chaining_value@,
            block: self.block@,
            block_len: self.block_len,
            counter: self.counter,
            flags: self.flags,
        }
    }
}

impl Output {
    #[verifier::type_invariant]
    spec fn block_len_in_range(self) -> bool {
        self.block_len <= 64
    }

    /// The node's chaining value, to hand to its parent.
    pub fn chaining_value(&self) -> (cv: [u8; 32])
        ensures
            cv@ == self@.chaining_value(),
    {
        proof {
            use_type_invariant(self);
        }
        let out = compress(
            &self.input_chaining_value,
            &self.block,
            self.block_len,
            self.counter,
            self.flags,
        );
        first_half(&out)
    }

    /// Block `j` of the output stream of the node as the root.
    pub fn root_block(&self, j: u64) -> (block: [u8; 64])
        ensures
            block@ == self@.root_block(j),
    {
        proof {
            use_type_invariant(self);
        }
        compress(&self.input_chaining_value, &self.block, self.block_len, j, self.flags | ROOT)
    }

    /// Fills `out` with the bytes of the output stream of the node as the
    /// root, from byte `start` of the stream on.
    pub fn root_output_bytes_at(&self, start: u64, out: &mut [u8])
        ensures
            final(out)@ == self@.root_bytes_at(start as nat, old(out)@.len()),
    {
        let n: usize = out.len();
        let mut i: usize = 0;
        let mut j: u64 = start / 64;
        let mut p: usize = (start % 64) as usize;
        while i < n
            invariant
                out@.len() == n,
                i <= n,
                p < 64,
                64 * j + p == start + i,
                forall|k: int| 0 <= k < i ==> out@[k] == self@.root_byte(start + k),
            decreases n - i,
        {
            let block = self.root_block(j);
            while p < 64 && i < n
                invariant
                    out@.len() == n,
                    i <= n,
                    p <= 64,
                    64 * j + p == start + i,
                    block@ == self@.root_block(j),
                    forall|k: int| 0 <= k < i ==> out@[k] == self@.root_byte(start + k),
                decreases n - i,
            {
                assert((start + i) / 64 == j as int && (start + i) % 64 == p as int);
                out[i] = block[p];
                i += 1;
                p += 1;
            }
            if p == 64 {
                j += 1;
                p = 0;
            }
        }
        assert(out@ =~= self@.root_bytes_at(start as nat, n as nat));
    }

    /// Fills `out` with the first bytes of the output stream of the node as
    /// the root.
    pub fn root_output_bytes(&self, out: &mut [u8])
        ensures
            final(out)@ == self@.root_bytes(old(out)@.len()),
    {
        self.root_output_bytes_at(0, out);
    }

    /// The digest of the node as the root.
    pub fn root_hash(&self) -> (hash: [u8; 32])
        ensures
            hash@ == self@.root_hash(),
    {
        let block = self.root_block(0);
        let hash = first_half(&block);
        assert(hash@ =~= self@.root_hash());
        hash
    }
}

/// The parent builder: the node above two subtrees with the chaining values
/// `left` and `right`.
pub fn parent_node_output(left: &[u8; 32], right: &[u8; 32], key: &[u8; 32], flags: u8) -> (out:
    Output)
    ensures
        out@ == parent_output(left@, right@, key@, flags),
{
    let mut block: [u8; 64] = [0u8; 64];
    let mut i: usize = 0;
    while i < 32
        invariant
            i <= 32,
            forall|j: int| 0 <= j < i ==> block@[j] == left@[j],
            forall|j: int| 32 <= j < 32 + i ==> block@[j] == right@[j - 32],
        decreases 32 - i,
    {
        block[i] = left[i];
        block[i + 32] = right[i];
        i += 1;
    }
    assert(block@ =~= left@ + right@);
    Output { input_chaining_value: *key, block, block_len: 64, counter: 0, flags: flags | PARENT }
}

/// What a chunk builder stands for: the chunk's place and mode, and the bytes
/// it has taken in.
pub struct ChunkView {
    pub key: Seq<u8>,
    pub counter: u64,
    pub flags: u8,
    pub data: Seq<u8>,
}

/// The chunk builder: takes in the bytes of one chunk, in any number of
/// pieces, and compresses each block as soon as it is known not to be the
/// chunk's last.
pub struct ChunkState {
    cv: [u8; 32],
    chunk_counter: u64,
    buf: [u8; 64],
    buf_len: u8,
    blocks_compressed: u8,
    flags: u8,
    key: Ghost<Seq<u8>>,
    data: Ghost<Seq<u8>>,
}

impl View for ChunkState {
    type V = ChunkView;

    closed spec fn view(&self) -> ChunkView {
        ChunkView {
            key: self.key@,
            counter: self.chunk_counter,
            flags: self.flags,
            data: self.data@,
        }
    }
}

impl Clone for ChunkState {
    fn clone(&self) -> (copy: Self)
        ensures
            copy == *self,
    {
        ChunkState {
            cv: self.cv,
            chunk_counter: self.chunk_counter,
            buf: self.buf,
            buf_len: self.buf_len,
            blocks_compressed: self.blocks_compressed,
            flags: self.flags,
            key: self.key,
            data: self.data,
        }
    }
}

impl ChunkState {
    /// The builder holds what its view says: the blocks before the buffered
    /// one went through the compression function, and the buffered one, never
    /// empty once a byte has come, is kept back with zero padding.
    pub closed spec fn wf(&self) -> bool {
        &&& self.buf_len <= 64
        &&& self.data@.len() == 64 * self.blocks_compressed + self.buf_len
        &&& self.data@.len() <= 1024
        &&& self.blocks_compressed > 0 ==> self.buf_len > 0
        &&& self.cv@ == chain(
            self.key@,
            self.data@,
            self.chunk_counter,
            self.flags,
            CHUNK_START,
            self.blocks_compressed as nat,
        )
        &&& forall|i: int|
            0 <= i < self.buf_len ==> self.buf@[i] == self.data@[64 * self.blocks_compressed + i]
        &&& forall|i: int| self.buf_len <= i < 64 ==> self.buf@[i] == 0
    }

    /// A chunk holds at most 1024 bytes.
    pub proof fn lemma_len_bound(&self)
        requires
            self.wf(),
        ensures
            self@.data.len() <= 1024,
    {
    }

    /// The builder of the chunk with index `chunk_counter`, with no bytes yet.
    pub fn new(key: &[u8; 32], chunk_counter: u64, flags: u8) -> (state: ChunkState)
        ensures
            state.wf(),
            state@ == (ChunkView { key: key@, counter: chunk_counter, flags, data: Seq::empty() }),
    {
        ChunkState {
            cv: *key,
            chunk_counter,
            buf: [0u8; 64],
            buf_len: 0,
            blocks_compressed: 0,
            flags,
            key: Ghost(key@),
            data: Ghost(Seq::empty()),
        }
    }

    /// Number of bytes taken in so far.
    pub fn len(&self) -> (n: usize)
        requires
            self.wf(),
        ensures
            n == self@.data.len(),
            n <= 1024,
    {
        64 * (self.blocks_compressed as usize) + (self.buf_len as usize)
    }

    /// The index of the chunk.
    pub fn counter(&self) -> (counter: u64)
        ensures
            counter == self@.counter,
    {
        self.chunk_counter
    }

    /// Takes in `input`, which must still fit in the chunk.
    pub fn update(&mut self, input: &[u8])
        requires
            old(self).wf(),
            old(self)@.data.len() + input@.len() <= 1024,
        ensures
            final(self).wf(),
            final(self)@ == (ChunkView { data: old(self)@.data + input@, ..old(self)@ }),
    {
        let n: usize = input.len();
        let mut i: usize = 0;
        assert(self.data@ =~= old(self).data@ + input@.subrange(0, 0));
        while i < n
            invariant
                n == input@.len(),
                i <= n,
                self.wf(),
                old(self).data@.len() + n <= 1024,
                self.data@ == old(self).data@ + input@.subrange(0, i as int),
                self.key@ == old(self).key@,
                self.chunk_counter == old(self).chunk_counter,
                self.flags == old(self).flags,
            decreases n - i,
        {
            let ghost before = self.data@;
            if self.buf_len == 64 {
                let flags: u8 = if self.blocks_compressed == 0 {
                    self.flags | CHUNK_START
                } else {
                    self.flags
                };
                assert(self.buf@ =~= block_of(before, self.blocks_compressed as int));
                let out = compress(&self.cv, &self.buf, 64, self.chunk_counter, flags);
                self.cv = first_half(&out);
                self.blocks_compressed += 1;
                self.buf = [0u8; 64];
                self.buf_len = 0;
            }
            let byte: u8 = input[i];
            self.buf[self.buf_len as usize] = byte;
            self.buf_len += 1;
            self.data = Ghost(before.push(byte));
            proof {
                assert(before.push(byte) =~= before + seq![byte]);
                lemma_chain_prefix(
                    self.key@,
                    before,
                    seq![byte],
                    self.chunk_counter,
                    self.flags,
                    CHUNK_START,
                    self.blocks_compressed as nat,
                );
                assert(input@.subrange(0, i + 1) =~= input@.subrange(0, i as int).push(byte));
                assert(self.data@ =~= old(self).data@ + input@.subrange(0, i + 1));
            }
            i += 1;
        }
        assert(input@.subrange(0, n as int) =~= input@);
    }

    /// The chunk's node, with the buffered block as its last.
    pub fn output(&self) -> (out: Output)
        requires
            self.wf(),
        ensures
            out@ == chunk_output(self@.key, self@.data, self@.counter, self@.flags),
    {
        let flags: u8 = if self.blocks_compressed == 0 {
            self.flags | CHUNK_START
        } else {
            self.flags
        };
        proof {
            let n = blocks_before_last(self.data@.len());
            assert(n == self.blocks_compressed);
            assert(self.buf@ =~= pad_block(
                self.data@.subrange((64 * n) as int, self.data@.len() as int),
            ));
            assert(flags == block_flags(self.flags, CHUNK_START, n as int));
        }
        Output {
            input_chaining_value: self.cv,
            block: self.buf,
            block_len: self.buf_len,
            counter: self.chunk_counter,
            flags: flags | CHUNK_END,
        }
    }
}

} // verus!

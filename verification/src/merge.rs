//! The merge engine: a bounded stack of subtree results that takes the chunks
//! of an input one by one and joins equal subtrees as a binary counter
//! carries.

use vstd::prelude::*;
use vstd::arithmetic::power2::{lemma2_to64_rest, lemma_pow2_pos, lemma_pow2_strictly_increases, lemma_pow2_unfold, pow2};
use crate::merge_model::{
    count_ones, covered, entries_hold, lemma_covered_monotonic, lemma_covered_update,
    lemma_entries_are_set_bits, lemma_entries_hold_longer, lemma_level_gap,
    lemma_merge_equal_subtrees, lemma_split_at_first_entry, lemma_suffix_bound, segment,
    strictly_falling,
};
use crate::{CHUNK_END, CHUNK_START};
use crate::node::{parent_node_output, ChunkState, Output};
use crate::portable::hash1;
use crate::tree_model::{
    chunk_output, lemma_single_cv_of_chunk, root_output, subtree_cv, subtree_output,
};

verus! {

/// Number of entries that the stack has room for. An input of less than 2^64
/// bytes has less than 2^54 chunks, and so never needs more.
pub const MAX_DEPTH: usize = 54;

/// What a merge stack stands for: the mode, the bytes of the chunks it has
/// taken in, the number of parent nodes it has computed, and the number of
/// entries it holds.
pub struct MergeView {
    pub key: Seq<u8>,
    pub flags: u8,
    pub input: Seq<u8>,
    pub merges: nat,
    pub entries: nat,
}

/// The merge stack. Each entry is the chaining value of a whole subtree, with
/// the binary logarithm of the subtree's size in chunks.
pub struct MergeStack {
    key: [u8; 32],
    flags: u8,
    cvs: [[u8; 32]; 54],
    levels: [u8; 54],
    len: usize,
    merges: u64,
    input: Ghost<Seq<u8>>,
}

impl View for MergeStack {
    type V = MergeView;

    closed spec fn view(&self) -> MergeView {
        MergeView {
            key: self.key@,
            flags: self.flags,
            input: self.input@,
            merges: self.merges as nat,
            entries: self.len as nat,
        }
    }
}

impl Clone for MergeStack {
    fn clone(&self) -> (copy: Self)
        ensures
            copy == *self,
    {
        MergeStack {
            key: self.key,
            flags: self.flags,
            cvs: self.cvs,
            levels: self.levels,
            len: self.len,
            merges: self.merges,
            input: self.input,
        }
    }
}

impl MergeStack {
    /// Number of chunks taken in.
    pub closed spec fn chunks(&self) -> nat {
        covered(self.levels@, self.len as int)
    }

    /// The entries are whole subtrees over neighbouring parts of the chunks
    /// taken in, the first part at the bottom, with sizes that fall strictly
    /// towards the top.
    pub closed spec fn wf(&self) -> bool {
        &&& self.len <= 54
        &&& strictly_falling(self.levels@, self.len as int)
        &&& entries_hold(self.key@, self.flags, self.input@, self.cvs@, self.levels@, self.len as int)
        &&& self.input@.len() == 1024 * self.chunks()
        &&& self.input@.len() <= u64::MAX
        &&& self.merges + self.len == self.chunks()
    }

    /// Number of chunks that entry `i` stands for.
    pub closed spec fn entry_size(&self, i: int) -> nat {
        pow2(self.levels@[i] as nat)
    }

    /// The chaining value that entry `i` holds.
    pub closed spec fn entry_cv(&self, i: int) -> Seq<u8> {
        self.cvs@[i]@
    }

    /// Number of chunks that the entries below entry `i` stand for.
    pub closed spec fn chunks_below(&self, i: int) -> nat {
        covered(self.levels@, i)
    }

    /// The entries spell the number of chunks in binary: each stands for a
    /// power of two of chunks, the powers fall strictly from the bottom of the
    /// stack to its top, and together they are all the chunks taken in. Each
    /// entry holds the chaining value of the subtree over its chunks.
    pub proof fn lemma_binary_form(&self)
        requires
            self.wf(),
        ensures
            forall|i: int|
                0 <= i < self@.entries ==> #[trigger] self.entry_cv(i) == subtree_cv(
                    self@.key,
                    self@.flags,
                    self@.input.subrange(
                        1024 * (self.chunks_below(i) as int),
                        1024 * (self.chunks_below(i + 1) as int),
                    ),
                    self.chunks_below(i),
                ),
            forall|i: int|
                0 <= i < self@.entries ==> exists|e: nat| #[trigger] self.entry_size(i) == pow2(e),
            forall|i: int|
                0 <= i < self@.entries - 1 ==> #[trigger] self.entry_size(i) > self.entry_size(
                    i + 1,
                ),
            self.chunks_below(0) == 0,
            forall|i: int|
                0 <= i < self@.entries ==> #[trigger] self.chunks_below(i + 1) == self.chunks_below(
                    i,
                ) + self.entry_size(i),
            self.chunks_below(self@.entries as int) == self.chunks(),
    {
        assert forall|i: int| 0 <= i < self@.entries - 1 implies #[trigger] self.entry_size(i)
            > self.entry_size(i + 1) by {
            assert(self.levels@[i] > self.levels@[i + 1]);
            lemma_pow2_strictly_increases(self.levels@[i + 1] as nat, self.levels@[i] as nat);
        }
    }

    /// The chunks taken in are whole, and the entries are the set bits of their
    /// number: as many entries as set bits, and one parent node computed for
    /// each chunk that is no longer an entry of its own.
    pub proof fn lemma_shape(&self)
        requires
            self.wf(),
        ensures
            self@.input.len() == 1024 * self.chunks(),
            self@.input.len() <= u64::MAX,
            self@.entries == count_ones(self.chunks()),
            self@.merges == self.chunks() - count_ones(self.chunks()),
    {
        lemma_entries_are_set_bits(self.levels@, self.len as int, 0);
    }

    /// The empty stack of the mode that `key` and `flags` stand for.
    pub fn new(key: &[u8; 32], flags: u8) -> (stack: MergeStack)
        ensures
            stack.wf(),
            stack@ == (MergeView { key: key@, flags, input: Seq::empty(), merges: 0, entries: 0 }),
            stack.chunks() == 0,
    {
        MergeStack {
            key: *key,
            flags,
            cvs: [[0u8; 32]; 54],
            levels: [0u8; 54],
            len: 0,
            merges: 0,
            input: Ghost(Seq::empty()),
        }
    }

    /// The key of the mode.
    pub fn key(&self) -> (key: &[u8; 32])
        ensures
            key@ == self@.key,
    {
        &self.key
    }

    /// The flags of the mode.
    pub fn flags(&self) -> (flags: u8)
        ensures
            flags == self@.flags,
    {
        self.flags
    }

    /// Number of parent nodes computed so far.
    pub fn merges(&self) -> (n: u64)
        ensures
            n == self@.merges,
    {
        self.merges
    }

    /// Number of entries on the stack.
    pub fn depth(&self) -> (n: usize)
        ensures
            n == self@.entries,
    {
        self.len
    }

    /// Number of chunks taken in.
    pub fn chunk_count(&self) -> (n: u64)
        requires
            self.wf(),
        ensures
            n == self.chunks(),
            1024 * n == self@.input.len(),
    {
        self.merges + self.len as u64
    }

    /// Takes in the next chunk, which is whole and not the last of the input.
    pub fn push_chunk(&mut self, chunk: &[u8; 1024])
        requires
            old(self).wf(),
            old(self)@.input.len() + 1024 <= u64::MAX,
        ensures
            final(self).wf(),
            final(self).chunks() == old(self).chunks() + 1,
            final(self)@.key == old(self)@.key,
            final(self)@.flags == old(self)@.flags,
            final(self)@.input == old(self)@.input + chunk@,
    {
        let counter: u64 = self.chunk_count();
        let cv = hash1(chunk, &self.key, counter, self.flags, CHUNK_START, CHUNK_END);
        proof {
            lemma_single_cv_of_chunk(self.key@, chunk@, counter, self.flags);
        }
        self.push_cv(&cv, Ghost(chunk@));
    }

    /// The root node of the tree over the chunks taken in and `last`, the last
    /// chunk of the input, which is empty only if it is the only one.
    pub fn root_with(&self, last: &[u8]) -> (out: Output)
        requires
            self.wf(),
            last@.len() <= 1024,
            self@.input.len() > 0 ==> last@.len() > 0,
        ensures
            out@ == root_output(self@.key, self@.flags, self@.input + last@),
    {
        let counter: u64 = self.chunk_count();
        let mut state = ChunkState::new(&self.key, counter, self.flags);
        state.update(last);
        assert(Seq::<u8>::empty() + last@ =~= last@);
        self.fold(state.output(), Ghost(last@))
    }

    /// Takes in the chaining value `cv` of the next chunk, which holds the
    /// bytes `chunk`: joins it with the entry on top while that is of the same
    /// size, and puts the result on top.
    pub(crate) fn push_cv(&mut self, cv: &[u8; 32], chunk: Ghost<Seq<u8>>)
        requires
            old(self).wf(),
            chunk@.len() == 1024,
            old(self)@.input.len() + 1024 <= u64::MAX,
            cv@ == subtree_cv(old(self)@.key, old(self)@.flags, chunk@, old(self).chunks()),
        ensures
            final(self).wf(),
            final(self).chunks() == old(self).chunks() + 1,
            final(self)@.key == old(self)@.key,
            final(self)@.flags == old(self)@.flags,
            final(self)@.input == old(self)@.input + chunk@,
    {
        let ghost input = self.input@ + chunk@;
        let ghost total = old(self).chunks() + 1;
        let ghost key = self.key@;
        let ghost flags = self.flags;
        let ghost levels = self.levels@;
        let mut cv: [u8; 32] = *cv;
        let mut level: u8 = 0;
        proof {
            lemma_entries_hold_longer(
                key,
                flags,
                self.input@,
                chunk@,
                self.cvs@,
                levels,
                self.len as int,
            );
            assert(pow2(0) == 1) by {
                vstd::arithmetic::power2::lemma2_to64();
            }
            assert(input.subrange(1024 * (old(self).chunks() as int), 1024 * (total as int))
                =~= chunk@);
        }
        while self.len > 0 && self.levels[self.len - 1] == level
            invariant
                self.len <= old(self).len <= 54,
                self.key == old(self).key,
                self.flags == old(self).flags,
                self.cvs == old(self).cvs,
                self.levels == old(self).levels,
                self.input == old(self).input,
                levels == self.levels@,
                key == self.key@,
                flags == self.flags,
                input.len() == 1024 * total,
                input.len() <= u64::MAX,
                strictly_falling(levels, old(self).len as int),
                entries_hold(key, flags, input, self.cvs@, levels, self.len as int),
                covered(levels, self.len as int) + pow2(level as nat) == total,
                cv@ == subtree_cv(
                    key,
                    flags,
                    input.subrange(
                        1024 * (covered(levels, self.len as int) as int),
                        1024 * (total as int),
                    ),
                    covered(levels, self.len as int),
                ),
                self.len > 0 ==> levels[self.len - 1] >= level,
                self.merges + self.len == old(self).merges + old(self).len,
                old(self).merges + old(self).len + 1 == total,
            decreases self.len,
        {
            let top: usize = self.len - 1;
            let left: [u8; 32] = self.cvs[top];
            let ghost below = covered(levels, top as int);
            let ghost middle = covered(levels, self.len as int);
            proof {
                let p = pow2(level as nat);
                lemma_pow2_pos(level as nat);
                assert(middle == below + p);
                let both = input.subrange(1024 * (below as int), 1024 * (total as int));
                assert(both.len() == 2048 * p);
                assert(both.subrange(0, 1024 * (p as int)) =~= segment(input, levels, top as int));
                assert(both.subrange(1024 * (p as int), both.len() as int) =~= input.subrange(
                    1024 * (middle as int),
                    1024 * (total as int),
                ));
                lemma_merge_equal_subtrees(key, flags, both, below, level as nat);
                lemma_pow2_unfold((level + 1) as nat);
                // The level stays small: the subtree is part of the input.
                lemma2_to64_rest();
                if level >= 54 {
                    if level > 54 {
                        lemma_pow2_strictly_increases(54, level as nat);
                    }
                    assert(false);
                }
                if top > 0 {
                    assert(levels[top - 1] > levels[top as int]);
                }
            }
            cv = parent_node_output(&left, &cv, &self.key, self.flags).chaining_value();
            level = level + 1;
            self.len = top;
            self.merges = self.merges + 1;
        }
        proof {
            // There is room: the levels below fall strictly, down to one over
            // this level, so the lowest counts more chunks than the stack has
            // places.
            lemma2_to64_rest();
            vstd::arithmetic::power2::lemma2_to64();
            lemma_pow2_pos(level as nat);
            if self.len > 0 {
                let top = (self.len - 1) as int;
                lemma_level_gap(levels, old(self).len as int, 0, top);
                lemma_covered_monotonic(levels, 1, self.len as int);
                assert(covered(levels, 1) == covered(levels, 0) + pow2(levels[0] as nat));
                if levels[0] >= 54 {
                    if levels[0] > 54 {
                        lemma_pow2_strictly_increases(54, levels[0] as nat);
                    }
                    assert(false);
                }
            }
        }
        let at: usize = self.len;
        self.cvs[at] = cv;
        self.levels[at] = level;
        self.len = at + 1;
        self.input = Ghost(input);
        proof {
            let new_levels = self.levels@;
            assert(new_levels == levels.update(at as int, level));
            assert forall|i: int| 0 <= i <= at implies covered(new_levels, i) == covered(
                levels,
                i,
            ) by {
                lemma_covered_update(levels, at as int, level, i);
            }
            assert(covered(new_levels, at + 1) == covered(new_levels, at as int) + pow2(
                new_levels[at as int] as nat,
            ));
            assert(strictly_falling(new_levels, self.len as int)) by {
                assert forall|i: int| 0 <= i < self.len - 1 implies #[trigger] new_levels[i]
                    > new_levels[i + 1] by {
                    if i + 1 < at {
                        assert(levels[i] > levels[i + 1]);
                    }
                }
            }
            assert(entries_hold(key, flags, input, self.cvs@, new_levels, self.len as int)) by {
                assert forall|i: int| 0 <= i < self.len implies (#[trigger] self.cvs@[i])@
                    == subtree_cv(key, flags, segment(input, new_levels, i), covered(new_levels, i)) by {
                    if i < at {
                        assert(self.cvs@[i] == old(self).cvs@[i]);
                        assert(segment(input, new_levels, i) == segment(input, levels, i));
                    }
                }
            }
        }
    }

    /// The root node of the tree over the chunks taken in and one last chunk,
    /// which holds the bytes `tail` and has the node `last`.
    pub(crate) fn fold(&self, last: Output, tail: Ghost<Seq<u8>>) -> (out: Output)
        requires
            self.wf(),
            tail@.len() <= 1024,
            self.chunks() > 0 ==> tail@.len() > 0,
            last@ == chunk_output(self@.key, tail@, self.chunks() as u64, self@.flags),
        ensures
            out@ == root_output(self@.key, self@.flags, self@.input + tail@),
    {
        let ghost input = self.input@ + tail@;
        let ghost key = self.key@;
        let ghost flags = self.flags;
        let ghost levels = self.levels@;
        let ghost len = self.len as int;
        let mut out = last;
        let mut i: usize = self.len;
        proof {
            lemma_entries_hold_longer(key, flags, self.input@, tail@, self.cvs@, levels, len);
            assert(input.subrange(1024 * (covered(levels, len) as int), input.len() as int)
                =~= tail@);
        }
        while i > 0
            invariant
                i <= self.len <= 54,
                self.wf(),
                len == self.len,
                key == self.key@,
                flags == self.flags,
                levels == self.levels@,
                input == self.input@ + tail@,
                0 < tail@.len() <= 1024 || i == 0,
                tail@.len() <= 1024,
                entries_hold(key, flags, input, self.cvs@, levels, len),
                out@ == subtree_output(
                    key,
                    flags,
                    input.subrange(1024 * (covered(levels, i as int) as int), input.len() as int),
                    covered(levels, i as int),
                ),
            decreases i,
        {
            i = i - 1;
            let right = out.chaining_value();
            proof {
                let p = pow2(levels[i as int] as nat);
                let below = covered(levels, i as int);
                let above = covered(levels, i + 1);
                lemma_pow2_pos(levels[i as int] as nat);
                lemma_suffix_bound(levels, len, i as int);
                lemma_covered_monotonic(levels, i + 1, len);
                assert(above == below + p);
                let rest = input.subrange(1024 * (below as int), input.len() as int);
                lemma_split_at_first_entry(
                    key,
                    flags,
                    rest,
                    below,
                    levels[i as int] as nat,
                    (covered(levels, len) - below) as nat,
                );
                assert(rest.subrange(0, 1024 * (p as int)) =~= segment(input, levels, i as int));
                assert(rest.subrange(1024 * (p as int), rest.len() as int) =~= input.subrange(
                    1024 * (above as int),
                    input.len() as int,
                ));
            }
            out = parent_node_output(&self.cvs[i], &right, &self.key, self.flags);
        }
        assert(input.subrange(0, input.len() as int) =~= input);
        out
    }
}

} // verus!

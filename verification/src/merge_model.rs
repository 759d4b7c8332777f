//! The merge stack as mathematics: which part of the input each entry stands
//! for, and why the entries spell the number of chunks in binary.

use vstd::prelude::*;
use vstd::arithmetic::power2::{lemma_pow2_pos, lemma_pow2_strictly_increases, lemma_pow2_unfold, pow2};
use crate::tree_model::{
    lemma_left_len_bounds, lemma_pow2_leq_bounds, left_len_spec, parent_cv, pow2_leq, subtree_cv,
    subtree_output,
};

verus! {

/// Number of chunks that the first `i` entries of a stack stand for, where the
/// entry at place `j` is a subtree of `2^levels[j]` chunks.
pub open spec fn covered(levels: Seq<u8>, i: int) -> nat
    decreases i,
{
    if i <= 0 {
        0
    } else {
        covered(levels, i - 1) + pow2(levels[i - 1] as nat)
    }
}

/// The bytes of `input` that entry `i` of a stack stands for.
pub open spec fn segment(input: Seq<u8>, levels: Seq<u8>, i: int) -> Seq<u8> {
    input.subrange(1024 * (covered(levels, i) as int), 1024 * (covered(levels, i + 1) as int))
}

/// The sizes of the first `len` entries fall strictly from the bottom of the
/// stack to its top.
pub open spec fn strictly_falling(levels: Seq<u8>, len: int) -> bool {
    forall|i: int| 0 <= i < len - 1 ==> #[trigger] levels[i] > levels[i + 1]
}

/// Each of the first `len` entries holds the chaining value of the subtree
/// over its part of `input`.
pub open spec fn entries_hold(
    key: Seq<u8>,
    flags: u8,
    input: Seq<u8>,
    cvs: Seq<[u8; 32]>,
    levels: Seq<u8>,
    len: int,
) -> bool {
    forall|i: int|
        0 <= i < len ==> (#[trigger] cvs[i])@ == subtree_cv(
            key,
            flags,
            segment(input, levels, i),
            covered(levels, i),
        )
}

/// Number of set bits in the binary form of `n`.
pub open spec fn count_ones(n: nat) -> nat
    decreases n,
{
    if n == 0 {
        0
    } else {
        (n % 2) + count_ones(n / 2)
    }
}

/// Number of chunks that are complete, and known not to be the last, once
/// `len` bytes have come in.
pub open spec fn complete_chunks(len: nat) -> nat {
    if len == 0 {
        0
    } else {
        ((len - 1) / 1024) as nat
    }
}

/// More entries stand for at least as many chunks.
pub proof fn lemma_covered_monotonic(levels: Seq<u8>, i: int, j: int)
    requires
        i <= j,
    ensures
        covered(levels, i) <= covered(levels, j),
    decreases j - i,
{
    if i < j {
        lemma_covered_monotonic(levels, i, j - 1);
    }
}

/// What the entries below a place stand for does not depend on the entry at
/// that place.
pub proof fn lemma_covered_update(levels: Seq<u8>, k: int, level: u8, i: int)
    requires
        0 <= i <= k < levels.len(),
    ensures
        covered(levels.update(k, level), i) == covered(levels, i),
    decreases i,
{
    if i > 0 {
        lemma_covered_update(levels, k, level, i - 1);
    }
}

/// Between two places of a strictly falling stack the level falls by at least
/// the distance.
pub proof fn lemma_level_gap(levels: Seq<u8>, len: int, i: int, j: int)
    requires
        strictly_falling(levels, len),
        0 <= i <= j < len <= levels.len(),
    ensures
        levels[i] >= levels[j] + (j - i),
    decreases j - i,
{
    if i < j {
        lemma_level_gap(levels, len, i + 1, j);
        assert(levels[i] > levels[i + 1]);
    }
}

/// A smaller exponent gives a power of two that is at most half as large.
pub proof fn lemma_pow2_double(a: nat, b: nat)
    requires
        a < b,
    ensures
        2 * pow2(a) <= pow2(b),
{
    lemma_pow2_unfold(a + 1);
    if a + 1 < b {
        lemma_pow2_strictly_increases(a + 1, b);
    }
}

/// The entries from place `i` up stand for at least as many chunks as the
/// entry at `i` alone, and for less than twice as many.
pub proof fn lemma_suffix_bound(levels: Seq<u8>, len: int, i: int)
    requires
        strictly_falling(levels, len),
        0 <= i < len <= levels.len(),
    ensures
        pow2(levels[i] as nat) <= covered(levels, len) - covered(levels, i) < 2 * pow2(
            levels[i] as nat,
        ),
    decreases len - i,
{
    lemma_covered_monotonic(levels, i + 1, len);
    lemma_pow2_pos(levels[i] as nat);
    assert(covered(levels, i + 1) == covered(levels, i) + pow2(levels[i] as nat));
    if i + 1 < len {
        lemma_suffix_bound(levels, len, i + 1);
        assert(levels[i] > levels[i + 1]);
        lemma_pow2_double(levels[i + 1] as nat, levels[i] as nat);
    }
}

/// A number between a power of two and its double has that power as its
/// largest power of two.
pub proof fn lemma_pow2_leq_unique(x: nat, e: nat)
    requires
        pow2(e) <= x < 2 * pow2(e),
    ensures
        pow2_leq(x) == pow2(e),
    decreases e,
{
    lemma_pow2_pos(e);
    if e == 0 {
        assert(pow2(0) == 1) by {
            vstd::arithmetic::power2::lemma2_to64();
        }
    } else {
        lemma_pow2_unfold(e);
        lemma_pow2_leq_unique(x / 2, (e - 1) as nat);
    }
}

/// Taking the largest power of two out of a number takes one set bit out.
pub proof fn lemma_count_ones_top(n: nat)
    requires
        n > 0,
    ensures
        pow2_leq(n) <= n,
        count_ones(n) == 1 + count_ones((n - pow2_leq(n)) as nat),
    decreases n,
{
    lemma_pow2_leq_bounds(n);
    if n == 1 {
        assert(count_ones(1) == 1 + count_ones(0)) by {
            reveal_with_fuel(count_ones, 2);
        }
    } else {
        let h = n / 2;
        lemma_count_ones_top(h);
        lemma_pow2_leq_bounds(h);
        let rest = (n - pow2_leq(n)) as nat;
        assert(rest == 2 * (h - pow2_leq(h)) + n % 2);
        assert(rest / 2 == h - pow2_leq(h) && rest % 2 == n % 2);
        if rest == 0 {
            assert(count_ones((h - pow2_leq(h)) as nat) == 0);
        }
    }
}

/// A strictly falling stack has as many entries from place `i` up as the
/// number of chunks they stand for has set bits.
pub proof fn lemma_entries_are_set_bits(levels: Seq<u8>, len: int, i: int)
    requires
        strictly_falling(levels, len),
        0 <= i <= len <= levels.len(),
    ensures
        covered(levels, i) <= covered(levels, len),
        count_ones((covered(levels, len) - covered(levels, i)) as nat) == len - i,
    decreases len - i,
{
    lemma_covered_monotonic(levels, i, len);
    if i < len {
        lemma_entries_are_set_bits(levels, len, i + 1);
        lemma_suffix_bound(levels, len, i);
        let c = (covered(levels, len) - covered(levels, i)) as nat;
        lemma_pow2_pos(levels[i] as nat);
        lemma_pow2_leq_unique(c, levels[i] as nat);
        lemma_count_ones_top(c);
    }
}

/// What the entries hold of an input they hold of any longer input.
pub proof fn lemma_entries_hold_longer(
    key: Seq<u8>,
    flags: u8,
    input: Seq<u8>,
    more: Seq<u8>,
    cvs: Seq<[u8; 32]>,
    levels: Seq<u8>,
    len: int,
)
    requires
        entries_hold(key, flags, input, cvs, levels, len),
        1024 * covered(levels, len) <= input.len(),
    ensures
        entries_hold(key, flags, input + more, cvs, levels, len),
{
    assert forall|i: int| 0 <= i < len implies (#[trigger] cvs[i])@ == subtree_cv(
        key,
        flags,
        segment(input + more, levels, i),
        covered(levels, i),
    ) by {
        lemma_covered_monotonic(levels, i, i + 1);
        lemma_covered_monotonic(levels, i + 1, len);
        assert(segment(input + more, levels, i) =~= segment(input, levels, i));
    }
}

/// The parent of the subtrees over two neighbouring parts of `2^level` chunks
/// each is the subtree over both.
pub proof fn lemma_merge_equal_subtrees(
    key: Seq<u8>,
    flags: u8,
    both: Seq<u8>,
    first_chunk: nat,
    level: nat,
)
    requires
        both.len() == 2048 * pow2(level),
    ensures
        subtree_cv(key, flags, both, first_chunk) == parent_cv(
            subtree_cv(key, flags, both.subrange(0, 1024 * (pow2(level) as int)), first_chunk),
            subtree_cv(
                key,
                flags,
                both.subrange(1024 * (pow2(level) as int), both.len() as int),
                first_chunk + pow2(level),
            ),
            key,
            flags,
        ),
{
    let p = pow2(level);
    lemma_pow2_pos(level);
    let n = both.len();
    assert((n - 1) / 1024 == 2 * p - 1);
    lemma_pow2_leq_unique((2 * p - 1) as nat, level);
    assert(left_len_spec(n) == 1024 * p);
    assert(left_len_spec(n) / 1024 == p);
}

/// The tree over a run of whole subtrees and a last chunk divides after the
/// first of the subtrees, which has `2^level` chunks, if the others and the
/// last chunk together have at most as many.
pub proof fn lemma_split_at_first_entry(
    key: Seq<u8>,
    flags: u8,
    tail: Seq<u8>,
    first_chunk: nat,
    level: nat,
    chunks: nat,
)
    requires
        pow2(level) <= chunks < 2 * pow2(level),
        1024 * chunks < tail.len() <= 1024 * chunks + 1024,
    ensures
        subtree_output(key, flags, tail, first_chunk) == crate::tree_model::parent_output(
            subtree_cv(key, flags, tail.subrange(0, 1024 * (pow2(level) as int)), first_chunk),
            subtree_cv(
                key,
                flags,
                tail.subrange(1024 * (pow2(level) as int), tail.len() as int),
                first_chunk + pow2(level),
            ),
            key,
            flags,
        ),
{
    let p = pow2(level);
    lemma_pow2_pos(level);
    let n = tail.len();
    assert((n - 1) / 1024 == chunks);
    lemma_pow2_leq_unique(chunks, level);
    assert(left_len_spec(n) == 1024 * p);
    assert(left_len_spec(n) / 1024 == p);
    lemma_left_len_bounds(n);
}

} // verus!

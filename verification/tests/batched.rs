// The ways to hash a whole input, held to each other at the lengths where the
// tree changes its shape.

use blake3::conformance::{paint_test_input, test_hash_many_fn, TEST_CASES, TEST_KEY};
use blake3::merge::MergeStack;
use blake3::portable::hash_many;
use blake3::tree::{hash_subtree, hash_tree, hash_tree_batched};
use blake3::{hash, hash_keyed, Hasher, OffsetDeltas, DERIVE_KEY_MATERIAL, KEYED_HASH};

fn painted(len: usize) -> Vec<u8> {
    let mut v = vec![0u8; len];
    paint_test_input(&mut v);
    v
}

fn boundary_lengths() -> Vec<usize> {
    let mut lengths: Vec<usize> = TEST_CASES.to_vec();
    for chunks in [1usize, 2, 15, 16, 17, 31, 32, 33, 48, 64, 65] {
        lengths.push(chunks * 1024 - 1);
        lengths.push(chunks * 1024);
        lengths.push(chunks * 1024 + 1);
    }
    lengths.push(63);
    lengths.push(64);
    lengths.push(65);
    lengths
}

#[test]
fn batched_equals_divided() {
    for len in boundary_lengths() {
        let input = painted(len);
        for flags in [0u8, KEYED_HASH, DERIVE_KEY_MATERIAL] {
            let divided = hash_tree(&input, &TEST_KEY, flags);
            let batched = hash_tree_batched(&input, &TEST_KEY, flags);
            assert_eq!(divided.root_hash(), batched.root_hash(), "len {} flags {}", len, flags);
            assert_eq!(divided.chaining_value(), batched.chaining_value());
            let mut a = [0u8; 150];
            let mut b = [0u8; 150];
            divided.root_output_bytes(&mut a);
            batched.root_output_bytes(&mut b);
            assert_eq!(&a[..], &b[..]);
        }
        assert_eq!(hash_tree_batched(&input, &TEST_KEY, KEYED_HASH).root_hash(), hash_keyed(&TEST_KEY, &input));
    }
}

#[test]
fn batched_digest_of_the_empty_input() {
    let mut iv = [0u8; 32];
    for (i, word) in blake3::IV.iter().enumerate() {
        iv[4 * i..4 * i + 4].copy_from_slice(&word.to_le_bytes());
    }
    assert_eq!(hash_tree_batched(b"", &iv, 0).root_hash(), hash(b""));
    assert_eq!(blake3::hasher::iv_as_bytes(), iv);
}

#[test]
fn subtrees_join_to_the_tree() {
    // Two subtrees hashed apart, the right one with the index of its first
    // chunk, join to the tree over both.
    let input = painted(6 * 1024 + 10);
    let left = hash_subtree(&input[..4096], &TEST_KEY, 0, KEYED_HASH).chaining_value();
    let right = hash_subtree(&input[4096..], &TEST_KEY, 4, KEYED_HASH).chaining_value();
    let root = blake3::node::parent_node_output(&left, &right, &TEST_KEY, KEYED_HASH);
    assert_eq!(root.root_hash(), hash_keyed(&TEST_KEY, &input));
    // With the wrong index the right subtree is another one.
    let misplaced = hash_subtree(&input[4096..], &TEST_KEY, 3, KEYED_HASH).chaining_value();
    assert_ne!(misplaced, right);
}

#[test]
fn merge_stack_takes_chunks_and_a_last_one() {
    let input = painted(11 * 1024 + 300);
    let mut stack = MergeStack::new(&TEST_KEY, KEYED_HASH);
    assert_eq!(stack.depth(), 0);
    for i in 0..11 {
        let mut chunk = [0u8; 1024];
        chunk.copy_from_slice(&input[1024 * i..1024 * i + 1024]);
        stack.push_chunk(&chunk);
        assert_eq!(stack.chunk_count(), i as u64 + 1);
        assert_eq!(stack.depth(), (i + 1).count_ones() as usize);
        assert_eq!(stack.merges() as usize, i + 1 - (i + 1).count_ones() as usize);
        // At any time the stack and a last chunk give the root.
        let so_far = &input[..1024 * (i + 1) + 300];
        assert_eq!(
            stack.root_with(&so_far[1024 * (i + 1)..]).root_hash(),
            hash_keyed(&TEST_KEY, so_far)
        );
    }
    let checkpoint = stack.clone();
    let mut chunk = [0u8; 1024];
    chunk.copy_from_slice(&input[..1024]);
    stack.push_chunk(&chunk);
    assert_eq!(checkpoint.chunk_count(), 11);
    assert_eq!(stack.chunk_count(), 12);
    assert_eq!(stack.key(), &TEST_KEY);
    assert_eq!(stack.flags(), KEYED_HASH);
}

#[test]
fn empty_merge_stack_gives_the_root_of_one_chunk() {
    let stack = MergeStack::new(&TEST_KEY, KEYED_HASH);
    assert_eq!(stack.root_with(b"").root_hash(), hash_keyed(&TEST_KEY, b""));
    assert_eq!(stack.root_with(b"abc").root_hash(), hash_keyed(&TEST_KEY, b"abc"));
    let chunk = painted(1024);
    assert_eq!(stack.root_with(&chunk).root_hash(), hash_keyed(&TEST_KEY, &chunk));
}

#[test]
fn hasher_agrees_with_the_batched_way() {
    for len in boundary_lengths() {
        let input = painted(len);
        let mut hasher = Hasher::new_keyed(&TEST_KEY);
        for part in input.chunks(777) {
            hasher.update(part);
        }
        assert_eq!(hasher.final_output().root_hash(), hash_tree_batched(&input, &TEST_KEY, KEYED_HASH).root_hash());
    }
}

// A batch processor that looks at what it is handed before it does its work.
fn chunks_checked(
    inputs: &[&[u8; 1024]],
    key: &[u8; 32],
    offset: u64,
    deltas: &OffsetDeltas,
    flags: u8,
    flags_start: u8,
    flags_end: u8,
) -> [u8; 992] {
    assert_eq!(inputs.len(), 31);
    for (i, input) in inputs.iter().enumerate() {
        for (j, byte) in input.iter().enumerate() {
            assert_eq!(*byte, ((1024 * i + j) % 251) as u8);
        }
    }
    assert_eq!(key, &TEST_KEY);
    assert_eq!(offset, 0xFFFF_FFFF);
    assert_eq!(deltas[1], 1);
    let mut out = [0u8; 992];
    hash_many(inputs, key, offset, deltas, flags, flags_start, flags_end, &mut out);
    out
}

fn parents_checked(
    inputs: &[&[u8; 64]],
    key: &[u8; 32],
    offset: u64,
    deltas: &OffsetDeltas,
    flags: u8,
    flags_start: u8,
    flags_end: u8,
) -> [u8; 992] {
    assert_eq!(inputs.len(), 31);
    for (i, input) in inputs.iter().enumerate() {
        for (j, byte) in input.iter().enumerate() {
            assert_eq!(*byte, ((64 * i + j) % 251) as u8);
        }
    }
    assert_eq!(offset, 0);
    assert_eq!(deltas[1], 0);
    assert_eq!((flags_start, flags_end), (0, 0));
    let mut out = [0u8; 992];
    hash_many(inputs, key, offset, deltas, flags, flags_start, flags_end, &mut out);
    out
}

#[test]
fn the_test_of_a_batch_processor_hands_over_all_its_inputs() {
    assert!(test_hash_many_fn(chunks_checked, parents_checked));
}

// What holds of every input, tried on chosen ones.

use blake3::conformance::{paint_test_input, TEST_KEY};
use blake3::{derive_key, hash, hash_keyed, Hasher};

fn painted(len: usize) -> Vec<u8> {
    let mut v = vec![0u8; len];
    paint_test_input(&mut v);
    v
}

#[test]
fn one_chunk_in_two_calls() {
    let input = painted(1024);
    let mut whole = Hasher::new();
    whole.update(&input);
    let mut split = Hasher::new();
    split.update(&input[..1]);
    split.update(&input[1..]);
    assert_eq!(whole.finalize(), split.finalize());
    assert_eq!(whole.finalize(), hash(&input));
}

#[test]
fn thirty_one_chunks_chunk_by_chunk() {
    let input = painted(31 * 1024);
    let mut whole = Hasher::new();
    whole.update(&input);
    let mut by_chunk = Hasher::new();
    for chunk in input.chunks(1024) {
        by_chunk.update(chunk);
    }
    assert_eq!(whole.finalize(), by_chunk.finalize());
    assert_eq!(whole.finalize(), hash(&input));
}

#[test]
fn any_split_gives_the_same_digest() {
    let input = painted(5 * 1024 + 17);
    let expected = hash(&input);
    for piece in [1usize, 3, 63, 64, 65, 1000, 1023, 1024, 1025, 2048, 4000] {
        let mut hasher = Hasher::new();
        for part in input.chunks(piece) {
            hasher.update(part);
        }
        assert_eq!(hasher.finalize(), expected, "pieces of {}", piece);
    }
}

#[test]
fn empty_updates_change_nothing() {
    let input = painted(2049);
    let mut hasher = Hasher::new();
    hasher.update(&[]);
    hasher.update(&input[..1024]);
    hasher.update(&[]);
    hasher.update(&input[1024..]);
    hasher.update(&[]);
    assert_eq!(hasher.finalize(), hash(&input));
}

#[test]
fn finalize_leaves_the_hasher_as_it_was() {
    let input = painted(3000);
    let mut hasher = Hasher::new();
    hasher.update(&input[..1500]);
    let first = hasher.finalize();
    assert_eq!(first, hasher.finalize());
    assert_eq!(first, hash(&input[..1500]));
    hasher.update(&input[1500..]);
    assert_eq!(hasher.finalize(), hash(&input));
}

#[test]
fn a_clone_is_an_independent_checkpoint() {
    let input = painted(4096);
    let mut hasher = Hasher::new();
    hasher.update(&input[..2000]);
    let checkpoint = hasher.clone();
    hasher.update(&input[2000..]);
    assert_eq!(checkpoint.finalize(), hash(&input[..2000]));
    assert_eq!(hasher.finalize(), hash(&input));
    let mut resumed = checkpoint.clone();
    resumed.update(&input[2000..]);
    assert_eq!(resumed.finalize(), hasher.finalize());
}

#[test]
fn the_modes_differ() {
    for len in [0usize, 1, 1024, 1025, 4096] {
        let input = painted(len);
        let plain = hash(&input);
        let keyed = hash_keyed(&TEST_KEY, &input);
        let derived = derive_key(&TEST_KEY, &input);
        assert_ne!(plain, keyed);
        assert_ne!(plain, derived);
        assert_ne!(keyed, derived);
    }
    // A key of the same bytes as the public constant still gives another
    // digest: the flags tell the modes apart.
    let mut iv_key = [0u8; 32];
    for (i, word) in blake3::IV.iter().enumerate() {
        iv_key[4 * i..4 * i + 4].copy_from_slice(&word.to_le_bytes());
    }
    assert_ne!(hash(b"abc"), hash_keyed(&iv_key, b"abc"));
}

#[test]
fn keyed_and_derive_hashers_match_the_one_shot_functions() {
    let input = painted(3 * 1024 + 100);
    let mut keyed = Hasher::new_keyed(&TEST_KEY);
    keyed.update(&input[..100]);
    keyed.update(&input[100..]);
    assert_eq!(keyed.finalize(), hash_keyed(&TEST_KEY, &input));
    let mut derive = Hasher::new_derive_key(b"some context");
    derive.update(&input[..2048]);
    derive.update(&input[2048..]);
    assert_eq!(derive.finalize(), derive_key(b"some context", &input));
    assert_ne!(derive_key(b"some context", &input), derive_key(b"another context", &input));
}

#[test]
fn merges_are_chunks_less_set_bits() {
    let input = painted(40 * 1024);
    let mut hasher = Hasher::new();
    assert_eq!(hasher.merges(), 0);
    assert_eq!(hasher.stack_depth(), 0);
    let mut fed = 0usize;
    for part in input.chunks(509) {
        hasher.update(part);
        fed += part.len();
        let complete = (fed - 1) / 1024;
        assert_eq!(hasher.merges() as usize, complete - complete.count_ones() as usize);
        assert_eq!(hasher.stack_depth(), complete.count_ones() as usize);
    }
    // 39 chunks are complete: 39 = 32 + 4 + 2 + 1.
    assert_eq!(hasher.merges(), 35);
    assert_eq!(hasher.stack_depth(), 4);
}

#[test]
fn a_full_chunk_is_kept_back_until_more_comes() {
    let input = painted(2048);
    let mut hasher = Hasher::new();
    hasher.update(&input[..1024]);
    assert_eq!(hasher.stack_depth(), 0);
    hasher.update(&input[1024..]);
    assert_eq!(hasher.stack_depth(), 1);
    assert_eq!(hasher.merges(), 0);
    assert_eq!(hasher.finalize(), hash(&input));
}

#[test]
fn extended_output_begins_with_the_digest() {
    for len in [0usize, 1, 1024, 1025, 31 * 1024] {
        let input = painted(len);
        let mut hasher = Hasher::new();
        hasher.update(&input);
        for out_len in [32usize, 33, 64, 65, 128, 303] {
            let mut out = vec![0u8; out_len];
            hasher.finalize_xof(&mut out);
            assert_eq!(&out[..32], &hasher.finalize()[..]);
        }
    }
}

#[test]
fn short_and_empty_extended_output() {
    let mut hasher = Hasher::new();
    hasher.update(b"abc");
    let digest = hasher.finalize();
    let mut none: [u8; 0] = [];
    hasher.finalize_xof(&mut none);
    let mut short = [0u8; 7];
    hasher.finalize_xof(&mut short);
    assert_eq!(&short[..], &digest[..7]);
}

#[test]
fn extended_output_can_be_read_from_any_place() {
    let mut hasher = Hasher::new_keyed(&TEST_KEY);
    hasher.update(&painted(2000));
    let mut whole = [0u8; 400];
    hasher.finalize_xof(&mut whole);
    for start in [0usize, 1, 31, 32, 63, 64, 65, 128, 200, 399] {
        let mut part = vec![0u8; 400 - start];
        hasher.finalize_xof_at(start as u64, &mut part);
        assert_eq!(&part[..], &whole[start..], "from {}", start);
    }
    // Far out in the stream: the second block after 2^32 blocks.
    let far = (1u64 << 38) + 64;
    let mut a = [0u8; 100];
    hasher.finalize_xof_at(far, &mut a);
    let mut b = [0u8; 90];
    hasher.finalize_xof_at(far + 10, &mut b);
    assert_eq!(&a[10..], &b[..]);
    assert_ne!(&a[..64], &whole[..64]);
}

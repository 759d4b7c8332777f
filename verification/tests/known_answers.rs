// Digests of known inputs, and the edge cases of the supporting functions.

use blake3::conformance::{paint_test_input, TEST_KEY};
use blake3::{derive_key, hash, hash_keyed, largest_power_of_two_leq, left_len, Hasher};

const CONTEXT: &[u8] = b"BLAKE3 2019-12-27 16:29:52 test vectors context";

fn hex(bytes: &[u8]) -> String {
    let mut s = String::new();
    for b in bytes {
        s.push_str(&format!("{:02x}", b));
    }
    s
}

fn painted(len: usize) -> Vec<u8> {
    let mut v = vec![0u8; len];
    paint_test_input(&mut v);
    v
}

#[test]
fn empty_input_plain_digest() {
    assert_eq!(
        hex(&hash(b"")),
        "af1349b9f5f9a1a6a0404dea36dcc9499bcb25c9adc112b7cc9a93cae41f3262"
    );
    assert_eq!(
        hex(&Hasher::new().finalize()),
        "af1349b9f5f9a1a6a0404dea36dcc9499bcb25c9adc112b7cc9a93cae41f3262"
    );
}

#[test]
fn empty_input_keyed_digest() {
    assert_eq!(
        hex(&hash_keyed(&TEST_KEY, b"")),
        "92b2b75604ed3c761f9d6f62392c8a9227ad0ea3f09573e783f1498a4ed60d26"
    );
}

#[test]
fn empty_material_derived_key() {
    assert_eq!(
        hex(&derive_key(CONTEXT, b"")),
        "2cc39783c223154fea8dfb7c1b1660f2ac2dcbd1c1de8277b0b0dd39b7e50d7d"
    );
}

#[test]
fn one_byte_digest() {
    assert_eq!(
        hex(&hash(&painted(1))),
        "2d3adedff11b61f14c886e35afa036736dcd87a74d27b5c1510225d0f592e213"
    );
}

#[test]
fn one_chunk_digest() {
    assert_eq!(
        hex(&hash(&painted(1024))),
        "42214739f095a406f3fc83deb889744ac00df831c10daa55189b5d121c855af7"
    );
}

#[test]
fn one_chunk_and_a_byte_digest() {
    assert_eq!(
        hex(&hash(&painted(1025))),
        "d00278ae47eb27b34faecf67b4fe263f82d5412916c1ffd97c8cb7fb814b8444"
    );
}

#[test]
fn text_digest() {
    assert_eq!(
        hex(&hash(b"hello world")),
        "d74981efa70a0c880b8d8c1985d075dbcbf679b99a5f9914e5aaf96b831a9e24"
    );
}

#[test]
fn paint_wraps_after_251() {
    let v = painted(600);
    assert_eq!(v[0], 0);
    assert_eq!(v[250], 250);
    assert_eq!(v[251], 0);
    assert_eq!(v[599], (599 % 251) as u8);
}

#[test]
fn power_of_two_table() {
    let inputs = [0usize, 1, 2, 3, 4, 5, 6, 7, 8, usize::MAX];
    let outputs = [1usize, 1, 2, 2, 4, 4, 4, 4, 8, (usize::MAX >> 1) + 1];
    for i in 0..inputs.len() {
        assert_eq!(largest_power_of_two_leq(inputs[i]), outputs[i]);
    }
}

#[test]
fn left_len_is_a_power_of_two_of_chunks_below_the_whole() {
    for n in 1025usize..20000 {
        let l = left_len(n);
        assert_eq!(l % 1024, 0);
        assert!((l / 1024).is_power_of_two());
        assert!(l < n);
        assert!(2 * l >= n);
    }
    assert_eq!(left_len(1025), 1024);
    assert_eq!(left_len(31 * 1024), 16 * 1024);
    assert_eq!(left_len(32 * 1024 + 1), 32 * 1024);
}

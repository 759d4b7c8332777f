// The hasher compared with a second, simple implementation of the same hash
// that works on words, keeps its stack in a `Vec` and merges by counting the
// trailing zero bits of the chunk counter.

use blake3::conformance::{paint_test_input, TEST_CASES, TEST_CASES_MAX, TEST_KEY};
use blake3::CHUNK_LEN;
use rand::prelude::{Rng, SeedableRng};

const REF_OUT_LEN: usize = 32;
const REF_BLOCK_LEN: usize = 64;
const REF_CHUNK_LEN: usize = 1024;

const REF_CHUNK_START: u32 = 1 << 0;
const REF_CHUNK_END: u32 = 1 << 1;
const REF_PARENT: u32 = 1 << 2;
const REF_ROOT: u32 = 1 << 3;
const REF_KEYED_HASH: u32 = 1 << 4;
const REF_DERIVE_KEY_CONTEXT: u32 = 1 << 5;
const REF_DERIVE_KEY_MATERIAL: u32 = 1 << 6;

const REF_IV: [u32; 8] = [
    0x6A09E667, 0xBB67AE85, 0x3C6EF372, 0xA54FF53A, 0x510E527F, 0x9B05688C, 0x1F83D9AB, 0x5BE0CD19,
];

const REF_MSG_PERMUTATION: [usize; 16] = [2, 6, 3, 10, 7, 0, 4, 13, 1, 11, 12, 5, 9, 14, 15, 8];

fn ref_g(state: &mut [u32; 16], a: usize, b: usize, c: usize, d: usize, mx: u32, my: u32) {
    state[a] = state[a].wrapping_add(state[b]).wrapping_add(mx);
    state[d] = (state[d] ^ state[a]).rotate_right(16);
    state[c] = state[c].wrapping_add(state[d]);
    state[b] = (state[b] ^ state[c]).rotate_right(12);
    state[a] = state[a].wrapping_add(state[b]).wrapping_add(my);
    state[d] = (state[d] ^ state[a]).rotate_right(8);
    state[c] = state[c].wrapping_add(state[d]);
    state[b] = (state[b] ^ state[c]).rotate_right(7);
}

fn ref_round(state: &mut [u32; 16], m: &[u32; 16]) {
    ref_g(state, 0, 4, 8, 12, m[0], m[1]);
    ref_g(state, 1, 5, 9, 13, m[2], m[3]);
    ref_g(state, 2, 6, 10, 14, m[4], m[5]);
    ref_g(state, 3, 7, 11, 15, m[6], m[7]);
    ref_g(state, 0, 5, 10, 15, m[8], m[9]);
    ref_g(state, 1, 6, 11, 12, m[10], m[11]);
    ref_g(state, 2, 7, 8, 13, m[12], m[13]);
    ref_g(state, 3, 4, 9, 14, m[14], m[15]);
}

fn ref_permute(m: &mut [u32; 16]) {
    let mut permuted = [0; 16];
    for i in 0..16 {
        permuted[i] = m[REF_MSG_PERMUTATION[i]];
    }
    *m = permuted;
}

fn ref_compress(
    chaining_value: &[u32; 8],
    block_words: &[u32; 16],
    counter: u64,
    block_len: u32,
    flags: u32,
) -> [u32; 16] {
    let mut state = [
        chaining_value[0],
        chaining_value[1],
        chaining_value[2],
        chaining_value[3],
        chaining_value[4],
        chaining_value[5],
        chaining_value[6],
        chaining_value[7],
        REF_IV[0],
        REF_IV[1],
        REF_IV[2],
        REF_IV[3],
        counter as u32,
        (counter >> 32) as u32,
        block_len,
        flags,
    ];
    let mut block = *block_words;
    for r in 0..7 {
        ref_round(&mut state, &block);
        if r < 6 {
            ref_permute(&mut block);
        }
    }
    for i in 0..8 {
        state[i] ^= state[i + 8];
        state[i + 8] ^= chaining_value[i];
    }
    state
}

fn ref_first_8_words(compression_output: [u32; 16]) -> [u32; 8] {
    let mut out = [0; 8];
    out.copy_from_slice(&compression_output[0..8]);
    out
}

fn ref_words_from_le_bytes(bytes: &[u8], words: &mut [u32]) {
    assert_eq!(bytes.len(), 4 * words.len());
    for (i, word) in words.iter_mut().enumerate() {
        *word = u32::from_le_bytes([bytes[4 * i], bytes[4 * i + 1], bytes[4 * i + 2], bytes[4 * i + 3]]);
    }
}

struct RefOutput {
    input_chaining_value: [u32; 8],
    block_words: [u32; 16],
    counter: u64,
    block_len: u32,
    flags: u32,
}

impl RefOutput {
    fn chaining_value(&self) -> [u32; 8] {
        ref_first_8_words(ref_compress(
            &self.input_chaining_value,
            &self.block_words,
            self.counter,
            self.block_len,
            self.flags,
        ))
    }

    fn root_output_bytes(&self, out_slice: &mut [u8]) {
        let mut output_block_counter = 0;
        for out_block in out_slice.chunks_mut(2 * REF_OUT_LEN) {
            let words = ref_compress(
                &self.input_chaining_value,
                &self.block_words,
                output_block_counter,
                self.block_len,
                self.flags | REF_ROOT,
            );
            for (word, out_word) in words.iter().zip(out_block.chunks_mut(4)) {
                out_word.copy_from_slice(&word.to_le_bytes()[..out_word.len()]);
            }
            output_block_counter += 1;
        }
    }
}

struct RefChunkState {
    chaining_value: [u32; 8],
    chunk_counter: u64,
    block: [u8; REF_BLOCK_LEN],
    block_len: u8,
    blocks_compressed: u8,
    flags: u32,
}

impl RefChunkState {
    fn new(key_words: [u32; 8], chunk_counter: u64, flags: u32) -> Self {
        Self {
            chaining_value: key_words,
            chunk_counter,
            block: [0; REF_BLOCK_LEN],
            block_len: 0,
            blocks_compressed: 0,
            flags,
        }
    }

    fn len(&self) -> usize {
        REF_BLOCK_LEN * self.blocks_compressed as usize + self.block_len as usize
    }

    fn start_flag(&self) -> u32 {
        if self.blocks_compressed == 0 {
            REF_CHUNK_START
        } else {
            0
        }
    }

    fn update(&mut self, mut input: &[u8]) {
        while !input.is_empty() {
            if self.block_len as usize == REF_BLOCK_LEN {
                let mut block_words = [0; 16];
                ref_words_from_le_bytes(&self.block, &mut block_words);
                self.chaining_value = ref_first_8_words(ref_compress(
                    &self.chaining_value,
                    &block_words,
                    self.chunk_counter,
                    REF_BLOCK_LEN as u32,
                    self.flags | self.start_flag(),
                ));
                self.blocks_compressed += 1;
                self.block = [0; REF_BLOCK_LEN];
                self.block_len = 0;
            }
            let want = REF_BLOCK_LEN - self.block_len as usize;
            let take = std::cmp::min(want, input.len());
            self.block[self.block_len as usize..][..take].copy_from_slice(&input[..take]);
            self.block_len += take as u8;
            input = &input[take..];
        }
    }

    fn output(&self) -> RefOutput {
        let mut block_words = [0; 16];
        ref_words_from_le_bytes(&self.block, &mut block_words);
        RefOutput {
            input_chaining_value: self.chaining_value,
            block_words,
            counter: self.chunk_counter,
            block_len: self.block_len as u32,
            flags: self.flags | self.start_flag() | REF_CHUNK_END,
        }
    }
}

fn ref_parent_output(
    left_child_cv: [u32; 8],
    right_child_cv: [u32; 8],
    key_words: [u32; 8],
    flags: u32,
) -> RefOutput {
    let mut block_words = [0; 16];
    block_words[..8].copy_from_slice(&left_child_cv);
    block_words[8..].copy_from_slice(&right_child_cv);
    RefOutput {
        input_chaining_value: key_words,
        block_words,
        counter: 0,
        block_len: REF_BLOCK_LEN as u32,
        flags: REF_PARENT | flags,
    }
}

struct ReferenceHasher {
    chunk_state: RefChunkState,
    key_words: [u32; 8],
    cv_stack: Vec<[u32; 8]>,
    flags: u32,
}

impl ReferenceHasher {
    fn new_internal(key_words: [u32; 8], flags: u32) -> Self {
        Self {
            chunk_state: RefChunkState::new(key_words, 0, flags),
            key_words,
            cv_stack: Vec::new(),
            flags,
        }
    }

    fn new() -> Self {
        Self::new_internal(REF_IV, 0)
    }

    fn new_keyed(key: &[u8; 32]) -> Self {
        let mut key_words = [0; 8];
        ref_words_from_le_bytes(key, &mut key_words);
        Self::new_internal(key_words, REF_KEYED_HASH)
    }

    fn new_derive_key(context: &[u8]) -> Self {
        let mut context_hasher = Self::new_internal(REF_IV, REF_DERIVE_KEY_CONTEXT);
        context_hasher.update(context);
        let mut context_key = [0; 32];
        context_hasher.finalize(&mut context_key);
        let mut context_key_words = [0; 8];
        ref_words_from_le_bytes(&context_key, &mut context_key_words);
        Self::new_internal(context_key_words, REF_DERIVE_KEY_MATERIAL)
    }

    fn add_chunk_chaining_value(&mut self, mut new_cv: [u32; 8], mut total_chunks: u64) {
        while total_chunks & 1 == 0 {
            let left = self.cv_stack.pop().unwrap();
            new_cv = ref_parent_output(left, new_cv, self.key_words, self.flags).chaining_value();
            total_chunks >>= 1;
        }
        self.cv_stack.push(new_cv);
    }

    fn update(&mut self, mut input: &[u8]) {
        while !input.is_empty() {
            if self.chunk_state.len() == REF_CHUNK_LEN {
                let chunk_cv = self.chunk_state.output().chaining_value();
                let total_chunks = self.chunk_state.chunk_counter + 1;
                self.add_chunk_chaining_value(chunk_cv, total_chunks);
                self.chunk_state = RefChunkState::new(self.key_words, total_chunks, self.flags);
            }
            let want = REF_CHUNK_LEN - self.chunk_state.len();
            let take = std::cmp::min(want, input.len());
            self.chunk_state.update(&input[..take]);
            input = &input[take..];
        }
    }

    fn finalize(&self, out_slice: &mut [u8]) {
        let mut output = self.chunk_state.output();
        let mut parent_nodes_remaining = self.cv_stack.len();
        while parent_nodes_remaining > 0 {
            parent_nodes_remaining -= 1;
            output = ref_parent_output(
                self.cv_stack[parent_nodes_remaining],
                output.chaining_value(),
                self.key_words,
                self.flags,
            );
        }
        output.root_output_bytes(out_slice);
    }
}

fn first_32(bytes: &[u8]) -> [u8; 32] {
    let mut out = [0u8; 32];
    out.copy_from_slice(&bytes[..32]);
    out
}

fn hex(bytes: &[u8]) -> String {
    let mut s = String::new();
    for b in bytes {
        s.push_str(&format!("{:02x}", b));
    }
    s
}

// The second implementation itself is held to published digests.
#[test]
fn reference_matches_published_digests() {
    let mut out = [0u8; 32];
    ReferenceHasher::new().finalize(&mut out);
    assert_eq!(hex(&out), "af1349b9f5f9a1a6a0404dea36dcc9499bcb25c9adc112b7cc9a93cae41f3262");
    let mut hasher = ReferenceHasher::new();
    hasher.update(b"hello world");
    hasher.finalize(&mut out);
    assert_eq!(hex(&out), "d74981efa70a0c880b8d8c1985d075dbcbf679b99a5f9914e5aaf96b831a9e24");
}

#[test]
fn test_offset_words() {
    let offset: u64 = (1 << 32) + 2;
    assert_eq!(blake3::offset_low(offset), 2);
    assert_eq!(blake3::offset_high(offset), 1);
}

#[test]
fn test_largest_power_of_two_leq() {
    let input_output = &[
        // The zero case is nonsensical, but it does work.
        (0, 1),
        (1, 1),
        (2, 2),
        (3, 2),
        (4, 4),
        (5, 4),
        (6, 4),
        (7, 4),
        (8, 8),
        // the largest possible usize
        (usize::MAX, (usize::MAX >> 1) + 1),
    ];
    for &(input, output) in input_output {
        assert_eq!(
            output,
            blake3::largest_power_of_two_leq(input),
            "wrong output for n={}",
            input
        );
    }
}

#[test]
fn test_left_len() {
    let input_output = &[
        (CHUNK_LEN + 1, CHUNK_LEN),
        (2 * CHUNK_LEN - 1, CHUNK_LEN),
        (2 * CHUNK_LEN, CHUNK_LEN),
        (2 * CHUNK_LEN + 1, 2 * CHUNK_LEN),
        (4 * CHUNK_LEN - 1, 2 * CHUNK_LEN),
        (4 * CHUNK_LEN, 2 * CHUNK_LEN),
        (4 * CHUNK_LEN + 1, 4 * CHUNK_LEN),
    ];
    for &(input, output) in input_output {
        assert_eq!(blake3::left_len(input), output);
    }
}

#[test]
fn test_compare_reference_impl() {
    const OUT: usize = 303; // more than 64, not a multiple of 4
    let mut input_buf = [0; TEST_CASES_MAX];
    paint_test_input(&mut input_buf);
    for &case in TEST_CASES.iter() {
        let input = &input_buf[..case];

        // regular
        {
            let mut reference_hasher = ReferenceHasher::new();
            reference_hasher.update(input);
            let mut expected_out = [0; OUT];
            reference_hasher.finalize(&mut expected_out);

            let test_out = blake3::hash(input);
            assert_eq!(&test_out, &first_32(&expected_out));
            let mut hasher = blake3::Hasher::new();
            hasher.update(input);
            assert_eq!(&hasher.finalize(), &first_32(&expected_out));
            assert_eq!(&hasher.finalize(), &test_out);
            let mut extended = [0; OUT];
            hasher.finalize_xof(&mut extended);
            assert_eq!(&extended[..], &expected_out[..]);
        }

        // keyed
        {
            let mut reference_hasher = ReferenceHasher::new_keyed(&TEST_KEY);
            reference_hasher.update(input);
            let mut expected_out = [0; OUT];
            reference_hasher.finalize(&mut expected_out);

            let test_out = blake3::hash_keyed(&TEST_KEY, input);
            assert_eq!(&test_out, &first_32(&expected_out));
            let mut hasher = blake3::Hasher::new_keyed(&TEST_KEY);
            hasher.update(input);
            assert_eq!(&hasher.finalize(), &first_32(&expected_out));
            assert_eq!(&hasher.finalize(), &test_out);
            let mut extended = [0; OUT];
            hasher.finalize_xof(&mut extended);
            assert_eq!(&extended[..], &expected_out[..]);
        }

        // derive_key
        {
            let mut reference_hasher = ReferenceHasher::new_derive_key(&TEST_KEY);
            reference_hasher.update(input);
            let mut expected_out = [0; OUT];
            reference_hasher.finalize(&mut expected_out);

            let test_out = blake3::derive_key(&TEST_KEY, input);
            assert_eq!(&test_out, &first_32(&expected_out));
            let mut hasher = blake3::Hasher::new_derive_key(&TEST_KEY);
            hasher.update(input);
            assert_eq!(&hasher.finalize(), &first_32(&expected_out));
            assert_eq!(&hasher.finalize(), &test_out);
            let mut extended = [0; OUT];
            hasher.finalize_xof(&mut extended);
            assert_eq!(&extended[..], &expected_out[..]);
        }
    }
}

fn reference_hash(input: &[u8]) -> blake3::Hash {
    let mut hasher = ReferenceHasher::new();
    hasher.update(input);
    let mut bytes = [0; 32];
    hasher.finalize(&mut bytes);
    bytes.into()
}

#[test]
fn test_compare_update_multiple() {
    // Don't use all the long test cases here, since that's unnecessarily slow
    // in debug mode.
    let short_test_cases = &TEST_CASES[..10];
    assert_eq!(*short_test_cases.last().unwrap(), 4 * CHUNK_LEN);

    let mut input_buf = [0; 2 * TEST_CASES_MAX];
    paint_test_input(&mut input_buf);

    for &first_update in short_test_cases {
        let first_input = &input_buf[..first_update];
        let mut test_hasher = blake3::Hasher::new();
        test_hasher.update(first_input);

        for &second_update in short_test_cases {
            let second_input = &input_buf[first_update..][..second_update];
            let total_input = &input_buf[..first_update + second_update];
            // Clone the hasher with first_update bytes already written, so
            // that the next iteration can reuse it.
            let mut test_hasher = test_hasher.clone();
            test_hasher.update(second_input);

            assert_eq!(reference_hash(total_input), test_hasher.finalize());
        }
    }
}

#[test]
fn test_fuzz_hasher() {
    const INPUT_MAX: usize = 4 * CHUNK_LEN;
    let mut input_buf = [0; 3 * INPUT_MAX];
    paint_test_input(&mut input_buf);

    let num_tests: usize = 10_000;

    // Use a fixed RNG seed for reproducibility.
    let mut rng = rand_chacha::ChaCha8Rng::from_seed([1; 32]);
    for _num_test in 0..num_tests {
        let mut hasher = blake3::Hasher::new();
        let mut total_input = 0;
        // For each test, write 3 inputs of random length.
        for _ in 0..3 {
            let input_len = rng.gen_range(0, INPUT_MAX + 1);
            let input = &input_buf[total_input..][..input_len];
            hasher.update(input);
            total_input += input_len;
        }
        let expected = reference_hash(&input_buf[..total_input]);
        assert_eq!(expected, hasher.finalize());
    }
}

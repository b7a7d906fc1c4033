use aes_soft::cipher::generic_array::GenericArray;
use aes_soft::cipher::{BlockCipher, NewBlockCipher};
use aes_soft::Aes128;
use concrete_core::csprng::{aes_encrypt_many, u128_to_le_bytes, RandomGenerator};
use concrete_core::random::{
    fill_with_random_uniform, random_uniform, random_uniform_boolean, random_uniform_boolean_vec,
};

// Test vector for aes128, from the FIPS publication 197
const CIPHER_KEY: u128 = u128::from_be(0x000102030405060708090a0b0c0d0e0f);
const PLAINTEXT: u128 = u128::from_be(0x00112233445566778899aabbccddeeff);
const CIPHERTEXT: u128 = u128::from_be(0x69c4e0d86a7b0430d8cdb78070b4c55a);

fn reference_block(key: u128, counter: u128) -> [u8; 16] {
    let aes = Aes128::new(&GenericArray::from(key.to_le_bytes()));
    let mut block = GenericArray::from(counter.to_le_bytes());
    aes.encrypt_block(&mut block);
    block.into()
}

fn next_seed(seed: &mut u128) -> u128 {
    *seed = seed
        .wrapping_mul(0x2360ed051fc65da44385df649fccf645)
        .wrapping_add(0x5851f42d4c957f2d14057b7ef767814f);
    *seed
}

#[test]
fn test_encrypt_many_messages() {
    // Checks that encrypting many plaintext at the same time gives the correct output.
    let key: [u8; 16] = CIPHER_KEY.to_ne_bytes();
    let ciphertexts = aes_encrypt_many(
        PLAINTEXT, PLAINTEXT, PLAINTEXT, PLAINTEXT, PLAINTEXT, PLAINTEXT, PLAINTEXT, PLAINTEXT,
        &key[..],
    );
    let ciphertexts: [u8; 128] = ciphertexts.as_slice().try_into().unwrap();
    for i in 0..8 {
        assert_eq!(
            u128::from_ne_bytes(ciphertexts[16 * i..16 * (i + 1)].try_into().unwrap()),
            CIPHERTEXT
        );
    }
}

#[test]
fn test_uniformity() {
    // Checks that the PRNG generates uniform numbers
    let precision = 10f64.powi(-4);
    let n_samples = 10_000_000_usize;
    let mut generator = RandomGenerator::new(
        0x0123456789abcdef0fedcba987654321,
        0x00112233445566778899aabbccddeeff,
    );
    let mut counts = [0usize; 256];
    let expected_prob: f64 = 1. / 256.;
    for _ in 0..n_samples {
        counts[generator.generate_next() as usize] += 1;
    }
    counts
        .iter()
        .map(|a| (*a as f64) / (n_samples as f64))
        .for_each(|a| assert!((a - expected_prob) < precision))
}

#[test]
fn test_generator_determinism() {
    let mut seed: u128 = 0x0f1e2d3c4b5a69788796a5b4c3d2e1f0;
    for _ in 0..100 {
        let key = next_seed(&mut seed);
        let state = next_seed(&mut seed);
        let mut first_generator = RandomGenerator::new(key, state);
        let mut second_generator = RandomGenerator::new(key, state);
        for _ in 0..128 {
            assert_eq!(
                first_generator.generate_next(),
                second_generator.generate_next()
            );
        }
    }
}

#[test]
fn encrypt_many_keeps_the_order_of_its_messages() {
    let key: u128 = 0x1234_5678_9abc_def0_0fed_cba9_8765_4321;
    let messages: [u128; 8] = [7, 0, u128::MAX, 3, 99, 1 << 100, 42, 5];
    let out = aes_encrypt_many(
        messages[0],
        messages[1],
        messages[2],
        messages[3],
        messages[4],
        messages[5],
        messages[6],
        messages[7],
        &key.to_le_bytes()[..],
    );
    assert_eq!(out.len(), 128);
    for (i, message) in messages.iter().enumerate() {
        assert_eq!(out[16 * i..16 * (i + 1)], reference_block(key, *message)[..]);
    }
}

#[test]
fn encrypt_many_does_not_hand_its_input_back() {
    let out = aes_encrypt_many(1, 2, 3, 4, 5, 6, 7, 8, &[0u8; 16][..]);
    assert_ne!(out[0..16], 1u128.to_le_bytes()[..]);
    assert_ne!(out[0..16], [0u8; 16][..]);
}

#[test]
fn le_bytes_put_the_low_byte_first() {
    assert_eq!(
        u128_to_le_bytes(0x0102030405060708090a0b0c0d0e0f10),
        vec![0x10, 0x0f, 0x0e, 0x0d, 0x0c, 0x0b, 0x0a, 0x09, 8, 7, 6, 5, 4, 3, 2, 1]
    );
    assert_eq!(u128_to_le_bytes(0), vec![0u8; 16]);
    assert_eq!(u128_to_le_bytes(u128::MAX), vec![255u8; 16]);
}

#[test]
fn the_stream_is_the_encryption_of_successive_counters() {
    let key: u128 = 0xdead_beef_0000_1111_2222_3333_4444_5555;
    let state: u128 = 1000;
    let mut generator = RandomGenerator::new(key, state);
    for n in 0..(3 * 128_usize) {
        let block = reference_block(key, state + (n / 16) as u128);
        assert_eq!(generator.generate_next(), block[n % 16], "byte {}", n);
    }
}

#[test]
fn the_counter_wraps_around() {
    let key: u128 = 77;
    let state: u128 = u128::MAX - 2;
    let mut generator = RandomGenerator::new(key, state);
    for n in 0..256_usize {
        let block = reference_block(key, state.wrapping_add((n / 16) as u128));
        assert_eq!(generator.generate_next(), block[n % 16], "byte {}", n);
    }
}

#[test]
fn different_seeds_give_different_streams() {
    let mut first = RandomGenerator::new(1, 2);
    let mut second = RandomGenerator::new(1, 3);
    let mut third = RandomGenerator::new(2, 2);
    let a: Vec<u8> = (0..32).map(|_| first.generate_next()).collect();
    let b: Vec<u8> = (0..32).map(|_| second.generate_next()).collect();
    let c: Vec<u8> = (0..32).map(|_| third.generate_next()).collect();
    assert_ne!(a, b);
    assert_ne!(a, c);
    // The second block of the first stream is the first block of the second.
    assert_eq!(a[16..32], b[0..16]);
}

#[test]
fn the_generator_prints_as_a_fixed_label() {
    let generator = RandomGenerator::new(0xaaaa, 0xbbbb);
    assert_eq!(generator.to_string(), "RandomGenerator");
    let other = RandomGenerator::new(1, 2);
    assert_eq!(other.to_string(), "RandomGenerator");
}

#[test]
fn random_uniform_assembles_bytes_low_byte_first() {
    let mut bytes = RandomGenerator::new(5, 6);
    let mut words = RandomGenerator::new(5, 6);
    let expected: Vec<u8> = (0..12).map(|_| bytes.generate_next()).collect();
    let word32: u32 = random_uniform(&mut words);
    let word64: u64 = random_uniform(&mut words);
    assert_eq!(word32, u32::from_le_bytes(expected[0..4].try_into().unwrap()));
    assert_eq!(word64, u64::from_le_bytes(expected[4..12].try_into().unwrap()));
    // Both generators stand at the same place.
    assert_eq!(bytes.generate_next(), words.generate_next());
}

#[test]
fn fill_with_random_uniform_draws_word_after_word() {
    let mut bytes = RandomGenerator::new(9, 10);
    let mut words = RandomGenerator::new(9, 10);
    let expected: Vec<u8> = (0..40).map(|_| bytes.generate_next()).collect();
    let mut out = vec![0u64; 5];
    fill_with_random_uniform(&mut out[..], &mut words);
    for (k, word) in out.iter().enumerate() {
        assert_eq!(*word, u64::from_le_bytes(expected[8 * k..8 * k + 8].try_into().unwrap()));
    }
    assert_eq!(bytes.generate_next(), words.generate_next());
    let mut nothing: Vec<u32> = Vec::new();
    fill_with_random_uniform(&mut nothing[..], &mut words);
    assert_eq!(bytes.generate_next(), words.generate_next());
}

#[test]
fn random_booleans_are_the_low_bits_of_the_bytes() {
    let mut bytes = RandomGenerator::new(11, 12);
    let mut bits = RandomGenerator::new(11, 12);
    let expected: Vec<bool> = (0..50).map(|_| bytes.generate_next() % 2 == 1).collect();
    let first = random_uniform_boolean(&mut bits);
    let rest = random_uniform_boolean_vec(49, &mut bits);
    assert_eq!(first, expected[0]);
    assert_eq!(rest, expected[1..].to_vec());
    assert!(expected.iter().any(|b| *b));
    assert!(expected.iter().any(|b| !*b));
}

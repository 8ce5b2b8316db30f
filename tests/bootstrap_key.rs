use bsk_keygen::bootstrap_key::{
    allocate_and_generate_new_lwe_bootstrap_key,
    allocate_and_generate_new_seeded_lwe_bootstrap_key, generate_lwe_bootstrap_key,
    generate_seeded_lwe_bootstrap_key, par_allocate_and_generate_new_lwe_bootstrap_key,
    par_allocate_and_generate_new_seeded_lwe_bootstrap_key, par_generate_lwe_bootstrap_key,
    par_generate_seeded_lwe_bootstrap_key, BootstrapKeyError, CiphertextModulus, GgswParams,
    GlweSecretKey, LweBootstrapKey, LweSecretKey, SeededLweBootstrapKey,
};
use bsk_keygen::random::{EncryptionRandomGenerator, RandomSubstream};

const NATIVE: CiphertextModulus = CiphertextModulus { value: 0 };

/// A stand-in for the GGSW encryption: every scalar is drawn from the
/// substream's window (one word per scalar), and the last scalar of the row
/// carries the plaintext bit in the clear so that the tests can read it back.
fn toy_encrypt(
    key: &GlweSecretKey,
    bit: u64,
    params: GgswParams,
    noise: u64,
    stream: RandomSubstream,
) -> Vec<u64> {
    let len = params.glwe_size * params.glwe_size * params.decomp_level_count * params.polynomial_size;
    let mut row = Vec::with_capacity(len);
    for j in 0..len {
        let word = (stream.seed as u64)
            .wrapping_mul(0x9e37_79b9_7f4a_7c15)
            .wrapping_add(stream.start.wrapping_add(j as u64))
            .wrapping_add(key.data.iter().sum::<u64>())
            .wrapping_add(noise);
        row.push(word);
    }
    if len > 0 {
        row[len - 1] = bit;
    }
    row
}

fn toy_decrypt(row: &[u64]) -> u64 {
    row[row.len() - 1]
}

fn glwe_key() -> GlweSecretKey {
    GlweSecretKey { data: vec![1, 0, 1, 1], glwe_dimension: 1, polynomial_size: 4 }
}

fn params() -> GgswParams {
    GgswParams {
        glwe_size: 2,
        polynomial_size: 4,
        decomp_base_log: 3,
        decomp_level_count: 2,
        ciphertext_modulus: NATIVE,
    }
}

fn empty_key(n: usize) -> LweBootstrapKey {
    LweBootstrapKey::new(0, 2, 4, 3, 2, n, NATIVE)
}

#[test]
fn scenario_three_bits_decrypt_to_the_key() {
    let input = LweSecretKey { data: vec![1, 0, 1] };
    let mut gen = EncryptionRandomGenerator::new(7);
    let bsk = allocate_and_generate_new_lwe_bootstrap_key(
        &input, &glwe_key(), 3, 2, 5u64, NATIVE, &mut gen, &toy_encrypt,
    )
    .unwrap();
    assert_eq!(bsk.rows().len(), 3);
    assert_eq!(toy_decrypt(&bsk.rows()[0]), 1);
    assert_eq!(toy_decrypt(&bsk.rows()[1]), 0);
    assert_eq!(toy_decrypt(&bsk.rows()[2]), 1);
}

#[test]
fn rows_have_the_ggsw_size() {
    let input = LweSecretKey { data: vec![1, 0, 1, 1, 0] };
    let mut gen = EncryptionRandomGenerator::new(1);
    let bsk = allocate_and_generate_new_lwe_bootstrap_key(
        &input, &glwe_key(), 3, 2, 0u64, NATIVE, &mut gen, &toy_encrypt,
    )
    .unwrap();
    assert_eq!(bsk.input_lwe_dimension(), 5);
    assert_eq!(bsk.rows().len(), 5);
    for row in bsk.rows() {
        assert_eq!(row.len(), 2 * 2 * 2 * 4);
    }
    assert_eq!(bsk.glwe_size(), 2);
    assert_eq!(bsk.polynomial_size(), 4);
    assert_eq!(bsk.decomposition_base_log(), 3);
    assert_eq!(bsk.decomposition_level_count(), 2);
    assert_eq!(bsk.ciphertext_modulus(), NATIVE);
}

#[test]
fn generator_advances_one_row_window_per_bit() {
    let input = LweSecretKey { data: vec![1, 0, 1] };
    let mut gen = EncryptionRandomGenerator::new(3);
    let mut bsk = empty_key(3);
    generate_lwe_bootstrap_key(&input, &glwe_key(), &mut bsk, 0u64, &mut gen, &toy_encrypt)
        .unwrap();
    assert_eq!(gen.position, 3 * 32);
    assert_eq!(gen.seed, 3);
    // rows come from disjoint windows, so they differ beyond the plaintext
    assert_ne!(bsk.rows()[0][0], bsk.rows()[2][0]);
}

#[test]
fn sequential_and_parallel_agree() {
    let input = LweSecretKey { data: vec![1, 0, 1, 1, 0, 0, 1, 0, 1, 1, 1, 0] };
    let mut gen_a = EncryptionRandomGenerator { seed: 99, position: 12 };
    let mut gen_b = gen_a;
    let mut a = empty_key(12);
    let mut b = empty_key(12);
    generate_lwe_bootstrap_key(&input, &glwe_key(), &mut a, 4u64, &mut gen_a, &toy_encrypt)
        .unwrap();
    par_generate_lwe_bootstrap_key(&input, &glwe_key(), &mut b, 4u64, &mut gen_b, &toy_encrypt)
        .unwrap();
    assert_eq!(a.rows(), b.rows());
    assert_eq!(gen_a, gen_b);
    for (row, bit) in b.rows().iter().zip(input.data.iter()) {
        assert_eq!(toy_decrypt(row), *bit);
    }
}

#[test]
fn parallel_allocation_matches_sequential() {
    let input = LweSecretKey { data: vec![0, 1, 1] };
    let mut gen_a = EncryptionRandomGenerator::new(11);
    let mut gen_b = EncryptionRandomGenerator::new(11);
    let a = allocate_and_generate_new_lwe_bootstrap_key(
        &input, &glwe_key(), 3, 2, 1u64, NATIVE, &mut gen_a, &toy_encrypt,
    )
    .unwrap();
    let b = par_allocate_and_generate_new_lwe_bootstrap_key(
        &input, &glwe_key(), 3, 2, 1u64, NATIVE, &mut gen_b, &toy_encrypt,
    )
    .unwrap();
    assert_eq!(a.rows(), b.rows());
    // the parallel rows are encryptions, not the zero rows of the allocation
    assert!(b.rows()[0].iter().any(|&x| x != 0));
}

#[test]
fn seeded_key_expands_to_the_reseeded_plain_key() {
    let input = LweSecretKey { data: vec![1, 1, 0, 1] };
    let seeded = allocate_and_generate_new_seeded_lwe_bootstrap_key(
        &input, &glwe_key(), 3, 2, 2u64, NATIVE, 0xabcdef, &toy_encrypt,
    )
    .unwrap();
    assert_eq!(seeded.compression_seed(), 0xabcdef);
    assert_eq!(seeded.input_lwe_dimension(), 4);
    let mut gen = EncryptionRandomGenerator::new(0xabcdef);
    let plain = allocate_and_generate_new_lwe_bootstrap_key(
        &input, &glwe_key(), 3, 2, 2u64, NATIVE, &mut gen, &toy_encrypt,
    )
    .unwrap();
    let expanded = seeded.expand();
    assert_eq!(expanded.rows(), plain.rows());
    assert_eq!(expanded.input_lwe_dimension(), plain.input_lwe_dimension());
}

#[test]
fn parallel_seeded_matches_sequential_seeded() {
    let input = LweSecretKey { data: vec![1, 0, 0, 1, 1] };
    let a = allocate_and_generate_new_seeded_lwe_bootstrap_key(
        &input, &glwe_key(), 3, 2, 0u64, NATIVE, 42, &toy_encrypt,
    )
    .unwrap();
    let b = par_allocate_and_generate_new_seeded_lwe_bootstrap_key(
        &input, &glwe_key(), 3, 2, 0u64, NATIVE, 42, &toy_encrypt,
    )
    .unwrap();
    assert_eq!(a.rows, b.rows);
    let mut c = SeededLweBootstrapKey::new(0, 2, 4, 3, 2, 5, 42, NATIVE);
    par_generate_seeded_lwe_bootstrap_key(&input, &glwe_key(), &mut c, 0u64, &toy_encrypt)
        .unwrap();
    assert_eq!(c.rows, a.rows);
    let mut d = SeededLweBootstrapKey::new(0, 2, 4, 3, 2, 5, 42, NATIVE);
    generate_seeded_lwe_bootstrap_key(&input, &glwe_key(), &mut d, 0u64, &toy_encrypt).unwrap();
    assert_eq!(d.rows, a.rows);
}

#[test]
fn lwe_dimension_mismatch_consumes_nothing() {
    let input = LweSecretKey { data: vec![1, 0, 1] };
    let mut gen = EncryptionRandomGenerator::new(5);
    let mut bsk = empty_key(4);
    let r = generate_lwe_bootstrap_key(&input, &glwe_key(), &mut bsk, 0u64, &mut gen, &toy_encrypt);
    assert_eq!(r, Err(BootstrapKeyError::LweDimensionMismatch));
    assert_eq!(gen, EncryptionRandomGenerator::new(5));
    assert_eq!(bsk.rows().len(), 4);
    assert!(bsk.rows().iter().all(|row| row.iter().all(|&x| x == 0)));
    let r = par_generate_lwe_bootstrap_key(&input, &glwe_key(), &mut bsk, 0u64, &mut gen, &toy_encrypt);
    assert_eq!(r, Err(BootstrapKeyError::LweDimensionMismatch));
    assert_eq!(gen.position, 0);
}

#[test]
fn glwe_size_mismatch_is_reported() {
    let input = LweSecretKey { data: vec![1, 0] };
    let mut gen = EncryptionRandomGenerator::new(5);
    let mut bsk = LweBootstrapKey::new(0, 3, 4, 3, 2, 2, NATIVE);
    let r = generate_lwe_bootstrap_key(&input, &glwe_key(), &mut bsk, 0u64, &mut gen, &toy_encrypt);
    assert_eq!(r, Err(BootstrapKeyError::GlweSizeMismatch));
    assert_eq!(gen.position, 0);
}

#[test]
fn polynomial_size_mismatch_is_reported() {
    let input = LweSecretKey { data: vec![1, 0] };
    let mut seeded = SeededLweBootstrapKey::new(0, 2, 8, 3, 2, 2, 9, NATIVE);
    let r = generate_seeded_lwe_bootstrap_key(&input, &glwe_key(), &mut seeded, 0u64, &toy_encrypt);
    assert_eq!(r, Err(BootstrapKeyError::PolynomialSizeMismatch));
    assert!(seeded.rows.iter().all(|row| row.iter().all(|&x| x == 0)));
}

#[test]
fn exhausted_stream_is_reported() {
    let input = LweSecretKey { data: vec![1, 0, 1] };
    let start = EncryptionRandomGenerator { seed: 1, position: u64::MAX - 64 };
    let mut gen = start;
    let mut bsk = empty_key(3);
    let r = generate_lwe_bootstrap_key(&input, &glwe_key(), &mut bsk, 0u64, &mut gen, &toy_encrypt);
    assert_eq!(r, Err(BootstrapKeyError::InsufficientEntropyConfiguration));
    assert_eq!(gen, start);
    let r = par_allocate_and_generate_new_lwe_bootstrap_key(
        &input, &glwe_key(), 3, 2, 0u64, NATIVE, &mut gen, &toy_encrypt,
    );
    assert_eq!(r.unwrap_err(), BootstrapKeyError::InsufficientEntropyConfiguration);
}

#[test]
fn empty_input_key_gives_empty_bootstrap_key() {
    let input = LweSecretKey { data: vec![] };
    let mut gen = EncryptionRandomGenerator::new(5);
    let bsk = allocate_and_generate_new_lwe_bootstrap_key(
        &input, &glwe_key(), 3, 2, 0u64, NATIVE, &mut gen, &toy_encrypt,
    )
    .unwrap();
    assert!(bsk.rows().is_empty());
    assert_eq!(gen.position, 0);
}

#[test]
fn secret_key_dimensions() {
    assert_eq!(LweSecretKey { data: vec![1, 0, 1] }.lwe_dimension(), 3);
    assert_eq!(glwe_key().glwe_size(), 2);
}

//! CRSLWE ciphertext arithmetic and modulus switching on concrete values.

use tfhe::crs_lwe_ciphertext::CRSLweCiphertext;
use tfhe::crs_lwe_secret_key::{CRSLweSecretKey, allocate_and_generate_new_binary_crs_lwe_secret_key};
use tfhe::crs_lwe_linear_algebra::{crs_lwe_ciphertext_add, crs_lwe_ciphertext_add_assign,
    crs_lwe_ciphertext_plaintext_add_assign};
use tfhe::lwe::PlaintextList;
use tfhe::modulus_switch::{change_modulus_ciphertext, change_modulus_plaintext, integer_round,
    remove_text_and_mask};
use tfhe::parameters::{CRSLweCodimension, CRSLweDimension, CRSLweSize, CiphertextModulus,
    Plaintext, PlaintextCount};
use tfhe::random::SecretRandomGenerator;

#[test]
fn test_crs_lwe_ciphertext_add_values() {
    let modulus = CiphertextModulus::new_native();
    let mut lhs = CRSLweCiphertext::new(0, CRSLweSize(6, 2), modulus, 2);
    let mut rhs = CRSLweCiphertext::new(0, CRSLweSize(6, 2), modulus, 2);
    for i in 0..6usize {
        lhs.data[i] = (i as u64) << 60;
        rhs.data[i] = 3 << 60;
    }
    let mut out = CRSLweCiphertext::new(0, CRSLweSize(6, 2), modulus, 2);
    crs_lwe_ciphertext_add(&mut out, &lhs, &rhs);
    for i in 0..6usize {
        assert_eq!(out.data[i], ((i as u64 + 3) << 60) as u64);
    }
    crs_lwe_ciphertext_add_assign(&mut lhs, &rhs);
    assert_eq!(lhs.data, out.data);
}

#[test]
fn test_crs_lwe_plaintext_add_touches_body_only() {
    let modulus = CiphertextModulus::new_native();
    let mut ct = CRSLweCiphertext::new(0, CRSLweSize(5, 2), modulus, 2);
    for i in 0..5usize {
        ct.data[i] = 7;
    }
    crs_lwe_ciphertext_plaintext_add_assign(&mut ct, Plaintext(1 << 62));
    assert_eq!(ct.data[0], 7);
    assert_eq!(ct.data[1], 7);
    assert_eq!(ct.data[2], 7);
    assert_eq!(ct.data[3], 7 + (1 << 62));
    assert_eq!(ct.data[4], 7 + (1 << 62));
}

#[test]
fn test_integer_round_values() {
    // an exact multiple stays put
    assert_eq!(integer_round(0b10_0000_0000, 0, 9), 1);
    // a half-step value rounds up
    assert_eq!(integer_round(0b11_0000_0000, 0, 9), 2);
}

#[test]
fn test_change_modulus_rounds_elements() {
    let modulus = CiphertextModulus::new_native();
    let mut ct = CRSLweCiphertext::new(0, CRSLweSize(3, 1), modulus, 1);
    ct.data[0] = (5 << 32) + (1 << 30);
    ct.data[1] = (5 << 32) + (1 << 31);
    ct.data[2] = u64::MAX;
    change_modulus_ciphertext(&mut ct, 64, 32);
    assert_eq!(ct.data[0], 5 << 32);
    assert_eq!(ct.data[1], 6 << 32);
    assert_eq!(ct.data[2], 0);

    let mut list = PlaintextList::new((5 << 32) + (1 << 30), PlaintextCount(2));
    change_modulus_plaintext(&mut list, 64, 32);
    assert_eq!(list.data[0], 5 << 32);
    assert_eq!(list.data[1], 5 << 32);
}

#[test]
fn test_remove_text_and_mask_leaves_noise() {
    let modulus = CiphertextModulus::new_native();
    let mut secret_generator = SecretRandomGenerator::new(42);
    let dim = CRSLweDimension(8);
    let codim = CRSLweCodimension(2);
    let key: CRSLweSecretKey = allocate_and_generate_new_binary_crs_lwe_secret_key(
        dim,
        codim,
        &mut secret_generator,
    );
    // a noiseless hand-made ciphertext: body = mask·key_chunk + text
    let mut ct = CRSLweCiphertext::new(0, CRSLweSize(10, 2), modulus, 2);
    for i in 0..8usize {
        ct.data[i] = (i as u64 + 1) << 56;
    }
    let text = 9u64 << 60;
    for c in 0..2usize {
        let mut acc: u64 = 0;
        for i in 0..8usize {
            acc = acc.wrapping_add(ct.data[i].wrapping_mul(key.data[c * 8 + i]));
        }
        ct.data[8 + c] = acc.wrapping_add(text);
    }
    let list = PlaintextList::new(text, PlaintextCount(2));
    remove_text_and_mask(&key, &mut ct, &list);
    assert_eq!(ct.data[8], 0);
    assert_eq!(ct.data[9], 0);
}

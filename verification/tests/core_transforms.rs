//! Round trips of the encryption primitives, the decomposition engine on
//! concrete values, the trace-packing keyswitch, the bootstrap workspace
//! contract, and the torus-scaling divisibility.

use tfhe::boolean::{ConfigBuilder, FheBool, generate_keys};
use tfhe::bootstrap::{bootstrap_scratch_size, programmable_bootstrap_lwe_ciphertext};
use tfhe::crs_glwe_ciphertext::CRSGlweCiphertext;
use tfhe::crs_glwe_encryption::{decrypt_crs_glwe_ciphertext, encrypt_crs_glwe_ciphertext_assign};
use tfhe::crs_glwe_secret_key::CRSGlweSecretKey;
use tfhe::decomposition::{SignedDecomposer, SignedDecomposerNonNative};
use tfhe::glwe::{GlweCiphertext, GlweSecretKey, decrypt_glwe_ciphertext,
    encrypt_glwe_ciphertext_assign};
use tfhe::lwe::{LweCiphertext, LweSecretKey, PlaintextList,
    allocate_and_generate_new_binary_lwe_secret_key, decrypt_lwe_ciphertext, encrypt_lwe_ciphertext};
use tfhe::lwe_trace_packing_keyswitch::{LweTracePackingKeyswitchKey,
    generate_lwe_trace_packing_keyswitch_key, generate_tpksk_output_glwe_secret_key,
    trace_packing_keyswitch_lwe_ciphertext_list_into_glwe_ciphertext};
use tfhe::parameters::{CRSGlweCodimension, CRSGlweDimension, CRSGlweSize, CiphertextModulus,
    DecompositionBaseLog, DecompositionLevelCount, GlweDimension, GlweSize, LweCiphertextCount,
    LweDimension, LweSize, Plaintext, PlaintextCount, PolynomialSize, StandardDev};
use tfhe::random::{EncryptionRandomGenerator, SecretRandomGenerator};

#[test]
fn test_closest_representable_native_value() {
    // base log 4, level 3 on a 32-bit word, carried at the top of a 64-bit
    // word: the value rounds to the 12 representable high bits
    let decomposer = SignedDecomposer::new(DecompositionBaseLog(4), DecompositionLevelCount(3));
    let value_32: u64 = 1_340_987_234;
    let rounded = decomposer.closest_representable(value_32 << 32);
    assert_eq!(rounded >> 32, 1_341_128_704);
    assert_eq!(decomposer.base_log().0, 4);
    assert_eq!(decomposer.level_count().0, 3);
}

#[test]
fn test_closest_representable_custom_value() {
    // the same rounding through the custom-modulus decomposer at q = 2^32
    let modulus = CiphertextModulus::try_new(1u128 << 32).unwrap();
    let decomposer = SignedDecomposerNonNative::new(
        DecompositionBaseLog(4),
        DecompositionLevelCount(3),
        modulus,
    );
    let closest = decomposer.closest_representable(1_340_987_234u64);
    assert_eq!(closest, 1_341_128_704u64);
}

#[test]
fn test_closest_representable_idempotent_samples() {
    let decomposer = SignedDecomposer::new(DecompositionBaseLog(4), DecompositionLevelCount(3));
    for x in [0u64, 1, 0x8000_0000_0000_0000, 0xffff_ffff_ffff_ffff, 1_340_987_234 << 32] {
        let once = decomposer.closest_representable(x);
        let twice = decomposer.closest_representable(once);
        assert_eq!(once, twice);
    }
}

#[test]
fn test_decompose_recompose_identity_native() {
    let decomposer = SignedDecomposer::new(DecompositionBaseLog(4), DecompositionLevelCount(3));
    for x in [0u64, 1 << 60, 0x1234_5678_9abc_def0, 0xffff_ffff_ffff_ffff] {
        let decomposition = decomposer.decompose(x);
        let recomposed = decomposer.recompose(decomposition).unwrap();
        assert_eq!(recomposed, decomposer.closest_representable(x));
    }
}

#[test]
fn test_decompose_recompose_identity_custom_value() {
    // a 64-bit word under the odd modulus q = 2^64 - 2^32 + 1, base 2^3, 5
    // levels: its rounded state 30168 sits in the upper half of the B^l =
    // 32768 window, so the balanced digits carry out of the top level and the
    // recomposition lands one window weight B^l·floor(q/B^l) = q - 1 below
    // the closest representable value, wrapping at 2^64
    let modulus = CiphertextModulus::try_new(18_446_744_069_414_584_321u128).unwrap();
    let decomposer = SignedDecomposerNonNative::new(
        DecompositionBaseLog(3),
        DecompositionLevelCount(5),
        modulus,
    );
    let x = 16_982_820_785_129_133_100u64;
    let decomposition = decomposer.decompose(x);
    let recomposed = decomposer.recompose(decomposition).unwrap();
    let closest = decomposer.closest_representable(x);
    assert_eq!(recomposed, closest.wrapping_sub(18_446_744_069_414_584_320u64));
    // a word whose rounded state 12345 leaves no residual carry recomposes
    // exactly to its closest representable value
    let y = 6_949_617_173_368_012_800u64;
    let decomposition_y = decomposer.decompose(y);
    let recomposed_y = decomposer.recompose(decomposition_y).unwrap();
    assert_eq!(recomposed_y, decomposer.closest_representable(y));
}

#[test]
fn test_recompose_refuses_drained_iterator() {
    let decomposer = SignedDecomposer::new(DecompositionBaseLog(4), DecompositionLevelCount(3));
    let mut decomposition = decomposer.decompose(1u64 << 60);
    let term = decomposition.next().unwrap();
    assert!(term.level().0 >= 1);
    assert!(decomposer.recompose(decomposition).is_none());
}

#[test]
fn test_decompose_term_summand() {
    let decomposer = SignedDecomposer::new(DecompositionBaseLog(4), DecompositionLevelCount(3));
    // 2^51 = 2^(64-13): rounds into the representable window
    let mut it = decomposer.decompose(1u64 << 52);
    let term = it.next().unwrap();
    assert_eq!(term.level().0, 3);
    assert_eq!(term.to_recomposition_summand(), 1u64 << 52);
    assert_eq!(term.value(), 1);
}

#[test]
fn test_lwe_round_trip_native() {
    let modulus = CiphertextModulus::new_native();
    let mut secret_generator = SecretRandomGenerator::new(1);
    let mut generator = EncryptionRandomGenerator::new(2, 3);
    let sk = allocate_and_generate_new_binary_lwe_secret_key(
        LweDimension(128),
        &mut secret_generator,
    );
    let decomposer = SignedDecomposer::new(DecompositionBaseLog(4), DecompositionLevelCount(1));
    for msg in 0u64..8 {
        let encoded = msg << 60;
        let mut ct = LweCiphertext::new(LweSize(129), modulus);
        encrypt_lwe_ciphertext(
            &sk,
            &mut ct,
            Plaintext(encoded),
            StandardDev { log2_scale: 20 },
            &mut generator,
        );
        let decrypted = decrypt_lwe_ciphertext(&sk, &ct);
        let rounded = decomposer.closest_representable(decrypted.0);
        assert_eq!(rounded >> 60, msg);
    }
}

#[test]
fn test_lwe_round_trip_u32_mode() {
    // a 32-bit torus carried in the high half of 64-bit words
    let modulus = CiphertextModulus::try_new(1u128 << 32).unwrap();
    let mut secret_generator = SecretRandomGenerator::new(4);
    let mut generator = EncryptionRandomGenerator::new(5, 6);
    let sk = allocate_and_generate_new_binary_lwe_secret_key(
        LweDimension(64),
        &mut secret_generator,
    );
    for msg in 0u64..8 {
        let encoded = msg << 28;
        let mut ct = LweCiphertext::new(LweSize(65), modulus);
        encrypt_lwe_ciphertext(
            &sk,
            &mut ct,
            Plaintext(encoded),
            StandardDev { log2_scale: 8 },
            &mut generator,
        );
        let decrypted = decrypt_lwe_ciphertext(&sk, &ct);
        // decode with a half-step to absorb the noise
        let recovered = (decrypted.0.wrapping_add(1 << 27)) >> 28 & 7;
        assert_eq!(recovered, msg);
    }
}

#[test]
fn test_scaling_divisibility_u32_mode() {
    // every coefficient of a custom-modulus ciphertext is a multiple of the
    // scaling factor to the native torus
    let modulus = CiphertextModulus::try_new(1u128 << 32).unwrap();
    let scaling = modulus.get_scaling_to_native_torus();
    assert_eq!(scaling, 1u64 << 32);
    let mut secret_generator = SecretRandomGenerator::new(7);
    let mut generator = EncryptionRandomGenerator::new(8, 9);
    let sk = allocate_and_generate_new_binary_lwe_secret_key(
        LweDimension(32),
        &mut secret_generator,
    );
    let mut ct = LweCiphertext::new(LweSize(33), modulus);
    encrypt_lwe_ciphertext(
        &sk,
        &mut ct,
        Plaintext(5 << 28),
        StandardDev { log2_scale: 4 },
        &mut generator,
    );
    for word in ct.data.iter() {
        assert_eq!(word % scaling, 0);
    }
    // the phase before the final division is a multiple of the scaling too
    let dot_free_body = ct.get_body();
    assert_eq!(dot_free_body % scaling, 0);
}

#[test]
fn test_glwe_round_trip_native() {
    let modulus = CiphertextModulus::new_native();
    let mut secret_generator = SecretRandomGenerator::new(10);
    let mut generator = EncryptionRandomGenerator::new(11, 12);
    let n = PolynomialSize(64);
    let sk = tfhe::glwe::allocate_and_generate_new_binary_glwe_secret_key(
        GlweDimension(2),
        n,
        &mut secret_generator,
    );
    let decomposer = SignedDecomposer::new(DecompositionBaseLog(4), DecompositionLevelCount(1));
    let mut ct = GlweCiphertext::new(GlweSize(3), n, modulus);
    // preload the encoded plaintexts into the body
    for (i, slot) in (128..192usize).enumerate() {
        ct.data[slot] = ((i as u64) % 8) << 60;
    }
    encrypt_glwe_ciphertext_assign(&sk, &mut ct, StandardDev { log2_scale: 20 }, &mut generator);
    let mut decrypted = PlaintextList::new(0, PlaintextCount(64));
    decrypt_glwe_ciphertext(&sk, &ct, &mut decrypted);
    for (i, word) in decrypted.data.iter().enumerate() {
        let rounded = decomposer.closest_representable(*word);
        assert_eq!(rounded >> 60, (i as u64) % 8);
    }
}

#[test]
fn test_crs_glwe_round_trip_native() {
    let modulus = CiphertextModulus::new_native();
    let mut secret_generator = SecretRandomGenerator::new(13);
    let mut generator = EncryptionRandomGenerator::new(14, 15);
    let n = PolynomialSize(32);
    let sk = CRSGlweSecretKey::generate_new_binary(
        CRSGlweDimension(2),
        CRSGlweCodimension(2),
        n,
        &mut secret_generator,
    );
    let decomposer = SignedDecomposer::new(DecompositionBaseLog(4), DecompositionLevelCount(1));
    // size (k+d, d) = (4, 2): 2 mask polynomials, 2 body polynomials
    let mut ct = CRSGlweCiphertext::new(CRSGlweSize(4, 2), n, modulus);
    for slot in 0..64usize {
        ct.data[64 + slot] = ((slot as u64) % 4) << 60;
    }
    encrypt_crs_glwe_ciphertext_assign(&sk, &mut ct, StandardDev { log2_scale: 20 }, &mut generator);
    let mut decrypted = PlaintextList::new(0, PlaintextCount(64));
    decrypt_crs_glwe_ciphertext(&sk, &ct, &mut decrypted);
    for (i, word) in decrypted.data.iter().enumerate() {
        let rounded = decomposer.closest_representable(*word);
        assert_eq!(rounded >> 60, (i as u64) % 4);
    }
}

#[test]
fn test_crs_glwe_round_trip_u32_mode() {
    // encoded plaintexts live on the 32-bit torus; the encryption carries
    // every word onto the native torus by the scaling factor
    let modulus = CiphertextModulus::try_new(1u128 << 32).unwrap();
    let scaling = modulus.get_scaling_to_native_torus();
    let mut secret_generator = SecretRandomGenerator::new(21);
    let mut generator = EncryptionRandomGenerator::new(22, 23);
    let n = PolynomialSize(32);
    let sk = CRSGlweSecretKey::generate_new_binary(
        CRSGlweDimension(2),
        CRSGlweCodimension(2),
        n,
        &mut secret_generator,
    );
    let mut ct = CRSGlweCiphertext::new(CRSGlweSize(4, 2), n, modulus);
    for slot in 0..64usize {
        ct.data[64 + slot] = ((slot as u64) % 4) << 28;
    }
    encrypt_crs_glwe_ciphertext_assign(&sk, &mut ct, StandardDev { log2_scale: 8 }, &mut generator);
    for word in ct.data.iter() {
        assert_eq!(word % scaling, 0);
    }
    let mut decrypted = PlaintextList::new(0, PlaintextCount(64));
    decrypt_crs_glwe_ciphertext(&sk, &ct, &mut decrypted);
    for (i, word) in decrypted.data.iter().enumerate() {
        let recovered = (word.wrapping_add(1 << 27) >> 28) & 3;
        assert_eq!(recovered, (i as u64) % 4);
    }
}

#[test]
fn test_trace_packing_keyswitch_packs_at_indices() {
    // odd custom modulus, demonstration size
    let q: u128 = (1u128 << 64) - (1u128 << 32) + 1;
    let modulus = CiphertextModulus::try_new(q).unwrap();
    let n = PolynomialSize(512);
    let lwe_dimension = LweDimension(512);
    let lwe_count = 4usize;
    let decomp_base_log = DecompositionBaseLog(12);
    let decomp_level_count = DecompositionLevelCount(4);
    let delta: u64 = (1u64 << 60) - (1u64 << 28);

    let mut secret_generator = SecretRandomGenerator::new(16);
    let mut generator = EncryptionRandomGenerator::new(17, 18);

    let lwe_secret_key = allocate_and_generate_new_binary_lwe_secret_key(
        lwe_dimension,
        &mut secret_generator,
    );
    let mut glwe_secret_key = GlweSecretKey::new_empty_key(GlweDimension(1), n);
    generate_tpksk_output_glwe_secret_key(&lwe_secret_key, &mut glwe_secret_key, modulus);

    // 9 butterfly stages for N = 512
    let stage_len = 1 * decomp_level_count.0 * (2 * n.0);
    let mut tpksk = LweTracePackingKeyswitchKey {
        data: vec![0u64; 9 * stage_len],
        decomp_base_log,
        decomp_level_count,
        input_lwe_size: LweSize(lwe_dimension.0 + 1),
        output_glwe_size: GlweSize(2),
        polynomial_size: n,
        ciphertext_modulus: modulus,
    };
    generate_lwe_trace_packing_keyswitch_key(
        &glwe_secret_key,
        &mut tpksk,
        StandardDev { log2_scale: 4 },
        &mut generator,
    );

    let msg = 1u64;
    let mut lwe_list = tfhe::lwe::LweCiphertextList::new(
        LweSize(lwe_dimension.0 + 1),
        LweCiphertextCount(lwe_count),
        modulus,
    );
    // encrypt each input separately and copy it into the flat list
    for t in 0..lwe_count {
        let mut ct = LweCiphertext::new(LweSize(lwe_dimension.0 + 1), modulus);
        encrypt_lwe_ciphertext(
            &lwe_secret_key,
            &mut ct,
            Plaintext(msg * delta),
            StandardDev { log2_scale: 4 },
            &mut generator,
        );
        for (x, word) in ct.data.iter().enumerate() {
            lwe_list.data[t * (lwe_dimension.0 + 1) + x] = *word;
        }
    }

    let mut output = GlweCiphertext::new(GlweSize(2), n, modulus);
    let indices: Vec<usize> = (0..lwe_count).collect();
    trace_packing_keyswitch_lwe_ciphertext_list_into_glwe_ciphertext(
        &tpksk,
        &mut output,
        &lwe_list,
        indices,
    );

    let mut decrypted = PlaintextList::new(0, PlaintextCount(n.0));
    decrypt_glwe_ciphertext(&glwe_secret_key, &output, &mut decrypted);
    for (index, word) in decrypted.data.iter().enumerate() {
        let recovered = (word.wrapping_add(delta / 2)) / delta;
        if index < lwe_count {
            assert_eq!(recovered, msg, "slot {index}");
        } else {
            assert_eq!(recovered, 0, "slot {index}");
        }
    }
}

#[test]
fn test_bootstrap_workspace_sizing() {
    // an undersized scratch buffer is refused deterministically; the exact
    // size runs the bootstrap, and the refreshed boolean still decrypts
    let config = ConfigBuilder::all_disabled().enable_default_bool().build();
    let (keys, server_keys) = generate_keys(config, 19, 20, 21);
    let mut generator = EncryptionRandomGenerator::new(22, 23);
    let ttrue = FheBool::encrypt(true, &keys, &mut generator);
    let ffalse = FheBool::encrypt(false, &keys, &mut generator);

    let p = keys.parameters;
    let bsk = &server_keys.bootstrap_key;
    let required = bootstrap_scratch_size(bsk.glwe_size, bsk.polynomial_size);
    assert_eq!(required, 3 * (p.glwe_dimension.0 + 1) * p.polynomial_size.0);

    // a constant accumulator, as the gates build internally
    let modulus = CiphertextModulus::new_native();
    let mut accumulator = GlweCiphertext::new(
        GlweSize(p.glwe_dimension.0 + 1),
        p.polynomial_size,
        modulus,
    );
    let mask_len = p.glwe_dimension.0 * p.polynomial_size.0;
    for i in 0..p.polynomial_size.0 {
        accumulator.data[mask_len + i] = 0x2000_0000_0000_0000;
    }
    let big_size = p.glwe_dimension.0 * p.polynomial_size.0 + 1;
    let mut out = LweCiphertext::new(LweSize(big_size), modulus);

    let mut too_small = vec![0u64; required - 1];
    let refused = programmable_bootstrap_lwe_ciphertext(
        &ttrue.ct,
        &mut out,
        &accumulator,
        bsk,
        &mut too_small,
    );
    assert!(!refused);

    let mut exact = vec![0u64; required];
    let ran = programmable_bootstrap_lwe_ciphertext(
        &ttrue.ct,
        &mut out,
        &accumulator,
        bsk,
        &mut exact,
    );
    assert!(ran);
    // the bootstrapped value of an encryption of true decodes to +q/8 under
    // the big key
    let big_key = LweSecretKey { data: keys.glwe_secret_key.data.clone() };
    let phase = decrypt_lwe_ciphertext(&big_key, &out);
    assert!(phase.0 < 0x8000_0000_0000_0000, "true lands in the upper half");

    let mut exact2 = vec![0u64; required];
    let ran2 = programmable_bootstrap_lwe_ciphertext(
        &ffalse.ct,
        &mut out,
        &accumulator,
        bsk,
        &mut exact2,
    );
    assert!(ran2);
    let phase2 = decrypt_lwe_ciphertext(&big_key, &out);
    assert!(phase2.0 >= 0x8000_0000_0000_0000, "false lands in the lower half");
}

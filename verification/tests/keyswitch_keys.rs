//! The seeded/direct keyswitch-key equivalence, at a 64-bit native modulus
//! and at a 32-bit modulus carried in 64-bit words.

use tfhe::lwe::allocate_and_generate_new_binary_lwe_secret_key;
use tfhe::lwe_keyswitch::{LweKeyswitchKey, SeededLweKeyswitchKey,
    allocate_and_generate_new_lwe_keyswitch_key, allocate_and_generate_new_seeded_lwe_keyswitch_key};
use tfhe::parameters::{CiphertextModulus, DecompositionBaseLog, DecompositionLevelCount,
    LweDimension, StandardDev};
use tfhe::random::{DeterministicSeeder, EncryptionRandomGenerator, SecretRandomGenerator};

fn test_seeded_lwe_ksk_gen_equivalence(ciphertext_modulus: CiphertextModulus) {
    let input_lwe_dimension = LweDimension(32);
    let lwe_modular_std_dev = StandardDev { log2_scale: 12 };
    let output_lwe_dimension = LweDimension(64);
    let decomp_base_log = DecompositionBaseLog(3);
    let decomp_level_count = DecompositionLevelCount(5);

    let mut seeder = DeterministicSeeder::new(0x1234_5678_9abc_def0);
    let mask_seed = seeder.seed();
    let deterministic_seeder_seed = seeder.seed();
    let secret_seed = seeder.seed();
    let mut secret_generator = SecretRandomGenerator::new(secret_seed);

    const NB_TEST: usize = 10;

    for _ in 0..NB_TEST {
        let input_lwe_secret_key = allocate_and_generate_new_binary_lwe_secret_key(
            input_lwe_dimension,
            &mut secret_generator,
        );
        let output_lwe_secret_key = allocate_and_generate_new_binary_lwe_secret_key(
            output_lwe_dimension,
            &mut secret_generator,
        );

        let mut deterministic_seeder = DeterministicSeeder::new(deterministic_seeder_seed);
        let noise_seed = deterministic_seeder.seed();
        let mut encryption_generator = EncryptionRandomGenerator::new(mask_seed, noise_seed);

        let ksk: LweKeyswitchKey = allocate_and_generate_new_lwe_keyswitch_key(
            &input_lwe_secret_key,
            &output_lwe_secret_key,
            decomp_base_log,
            decomp_level_count,
            lwe_modular_std_dev,
            ciphertext_modulus,
            &mut encryption_generator,
        );

        // the seeded generator reuses the same mask seed as its compression
        // seed and draws the same noise seed from an identical seeder
        let mut seeded_ksk: SeededLweKeyswitchKey = SeededLweKeyswitchKey::new(
            decomp_base_log,
            decomp_level_count,
            input_lwe_dimension,
            output_lwe_dimension,
            mask_seed,
            ciphertext_modulus,
        );
        let mut noise_only_seeder = DeterministicSeeder::new(deterministic_seeder_seed);
        tfhe::lwe_keyswitch::generate_seeded_lwe_keyswitch_key(
            &input_lwe_secret_key,
            &output_lwe_secret_key,
            &mut seeded_ksk,
            lwe_modular_std_dev,
            &mut noise_only_seeder,
        );

        let decompressed_ksk = seeded_ksk.decompress_into_lwe_keyswitch_key();

        assert_eq!(ksk, decompressed_ksk);
    }
}

#[test]
fn test_seeded_lwe_ksk_gen_equivalence_u32() {
    let modulus = CiphertextModulus::try_new(1u128 << 32).unwrap();
    test_seeded_lwe_ksk_gen_equivalence(modulus)
}

#[test]
fn test_seeded_lwe_ksk_gen_equivalence_u64() {
    test_seeded_lwe_ksk_gen_equivalence(CiphertextModulus::new_native())
}

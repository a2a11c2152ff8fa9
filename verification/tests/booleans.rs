//! The boolean API: truth tables of the three gates under both parameter
//! sets, compressed booleans, and the basic conjunction.

use tfhe::boolean::{ClientKey, CompressedFheBool, Config, ConfigBuilder, FheBool,
    FheBoolParameters, KeySwitchingKey, ServerKey, generate_keys};
use tfhe::random::EncryptionRandomGenerator;

fn setup_static_default() -> (ClientKey, ServerKey, EncryptionRandomGenerator) {
    let config = ConfigBuilder::all_disabled().enable_default_bool().build();
    let (my_keys, server_keys) = generate_keys(config, 11, 22, 33);
    let generator = EncryptionRandomGenerator::new(44, 55);
    (my_keys, server_keys, generator)
}

fn setup_static_tfhe() -> (ClientKey, ServerKey, EncryptionRandomGenerator) {
    let config = ConfigBuilder::all_disabled()
        .enable_custom_bool(FheBoolParameters::tfhe_lib_parameters())
        .build();
    let (my_keys, server_keys) = generate_keys(config, 66, 77, 88);
    let generator = EncryptionRandomGenerator::new(99, 111);
    (my_keys, server_keys, generator)
}

fn xor_truth_table(ttrue: &FheBool, ffalse: &FheBool, keys: &ClientKey, server: &ServerKey) {
    let r = ffalse.xor(ffalse, server);
    assert_eq!(r.decrypt(keys), false);

    let r = ffalse.xor(ttrue, server);
    assert_eq!(r.decrypt(keys), true);

    let r = ttrue.xor(ffalse, server);
    assert_eq!(r.decrypt(keys), true);

    let r = ttrue.xor(ttrue, server);
    assert_eq!(r.decrypt(keys), false);
}

fn and_truth_table(ttrue: &FheBool, ffalse: &FheBool, keys: &ClientKey, server: &ServerKey) {
    let r = ffalse.and(ffalse, server);
    assert_eq!(r.decrypt(keys), false);

    let r = ffalse.and(ttrue, server);
    assert_eq!(r.decrypt(keys), false);

    let r = ttrue.and(ffalse, server);
    assert_eq!(r.decrypt(keys), false);

    let r = ttrue.and(ttrue, server);
    assert_eq!(r.decrypt(keys), true);
}

fn or_truth_table(ttrue: &FheBool, ffalse: &FheBool, keys: &ClientKey, server: &ServerKey) {
    let r = ffalse.or(ffalse, server);
    assert_eq!(r.decrypt(keys), false);

    let r = ffalse.or(ttrue, server);
    assert_eq!(r.decrypt(keys), true);

    let r = ttrue.or(ffalse, server);
    assert_eq!(r.decrypt(keys), true);

    let r = ttrue.or(ttrue, server);
    assert_eq!(r.decrypt(keys), true);
}

#[test]
fn test_xor_truth_table_static_default() {
    let (keys, server_keys, mut generator) = setup_static_default();

    let ttrue = FheBool::encrypt(true, &keys, &mut generator);
    let ffalse = FheBool::encrypt(false, &keys, &mut generator);

    xor_truth_table(&ttrue, &ffalse, &keys, &server_keys);
}

#[test]
fn test_and_truth_table_static_default() {
    let (keys, server_keys, mut generator) = setup_static_default();

    let ttrue = FheBool::encrypt(true, &keys, &mut generator);
    let ffalse = FheBool::encrypt(false, &keys, &mut generator);

    and_truth_table(&ttrue, &ffalse, &keys, &server_keys);
}

#[test]
fn test_or_truth_table_static_default() {
    let (keys, server_keys, mut generator) = setup_static_default();

    let ttrue = FheBool::encrypt(true, &keys, &mut generator);
    let ffalse = FheBool::encrypt(false, &keys, &mut generator);

    or_truth_table(&ttrue, &ffalse, &keys, &server_keys);
}

#[test]
fn test_xor_truth_table_static_tfhe() {
    let (keys, server_keys, mut generator) = setup_static_tfhe();

    let ttrue = FheBool::encrypt(true, &keys, &mut generator);
    let ffalse = FheBool::encrypt(false, &keys, &mut generator);

    xor_truth_table(&ttrue, &ffalse, &keys, &server_keys);
}

#[test]
fn test_and_truth_table_static_tfhe() {
    let (keys, server_keys, mut generator) = setup_static_tfhe();

    let ttrue = FheBool::encrypt(true, &keys, &mut generator);
    let ffalse = FheBool::encrypt(false, &keys, &mut generator);

    and_truth_table(&ttrue, &ffalse, &keys, &server_keys);
}

#[test]
fn test_or_truth_table_static_tfhe() {
    let (keys, server_keys, mut generator) = setup_static_tfhe();

    let ttrue = FheBool::encrypt(true, &keys, &mut generator);
    let ffalse = FheBool::encrypt(false, &keys, &mut generator);

    or_truth_table(&ttrue, &ffalse, &keys, &server_keys);
}

#[test]
fn test_compressed_bool() {
    let (keys, _server_keys, _generator) = setup_static_default();

    let cttrue = CompressedFheBool::encrypt(true, &keys, 123, 456);
    let cffalse = CompressedFheBool::encrypt(false, &keys, 789, 321);

    let a = FheBool::from(cttrue);
    let b = FheBool::from(cffalse);

    assert_eq!(a.decrypt(&keys), true);
    assert_eq!(b.decrypt(&keys), false);
}

#[test]
fn test_and() {
    let config = ConfigBuilder::all_disabled().enable_default_bool().build();
    let (my_keys, server_keys) = generate_keys(config, 7, 8, 9);
    let mut generator = EncryptionRandomGenerator::new(10, 11);

    let a = FheBool::encrypt(true, &my_keys, &mut generator);
    let b = FheBool::encrypt(false, &my_keys, &mut generator);

    let c = a.and(&b, &server_keys);
    let clear_res = c.decrypt(&my_keys);
    assert_eq!(clear_res, false);
}

#[test]
fn test_config_carries_chosen_parameters() {
    let params = FheBoolParameters::tfhe_lib_parameters();
    let config: Config = ConfigBuilder::all_disabled().enable_custom_bool(params).build();
    assert_eq!(config.bool_params, params);
}

#[test]
fn test_key_switching_key_generation() {
    let (ck1, sk1, _g) = setup_static_default();
    let (ck2, sk2, _g2) = setup_static_default();
    let mut generator = EncryptionRandomGenerator::new(200, 201);
    let ksk = KeySwitchingKey::new((&ck1, &sk1), (&ck2, &sk2), &mut generator);
    let p = ck2.parameters;
    assert_eq!(
        ksk.boolean_key.key.data.len(),
        ck1.parameters.lwe_dimension.0 * p.ks_level.0 * (p.lwe_dimension.0 + 1)
    );
}

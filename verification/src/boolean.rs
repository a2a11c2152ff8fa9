//! Encrypted booleans: parameter sets, client and server keys, encryption,
//! decryption, and the bootstrapped gates.
//!
//! A boolean is an LWE encryption of plus or minus an eighth of the native
//! torus. A gate adds the operand ciphertexts (with an offset picking the
//! gate), bootstraps the sum against a constant test accumulator to refresh
//! the noise and read off the sign, and keyswitches the result back under the
//! small key.

use vstd::prelude::*;
use crate::parameters::{CiphertextModulus, DecompositionBaseLog, DecompositionLevelCount,
    GlweDimension, GlweSize, LweDimension, LweSize, Plaintext, PolynomialSize, StandardDev};
use crate::numeric::{add_mod, valid_working_modulus};
use crate::lwe::{LweCiphertext, LweSecretKey, binary_seq, lwe_mask_seq, vec_of_zeros};
use crate::glwe::{GlweCiphertext, GlweSecretKey, allocate_and_generate_new_binary_glwe_secret_key};
use crate::bootstrap::{LweBootstrapKey, bootstrap_scratch_size, generate_lwe_bootstrap_key,
    programmable_bootstrap_lwe_ciphertext};
use crate::lwe_keyswitch::{LweKeyswitchKey, allocate_and_generate_new_lwe_keyswitch_key,
    keyswitch_lwe_ciphertext};
use crate::random::{EncryptionRandomGenerator, MaskRandomGenerator, SecretRandomGenerator};

verus! {

/// The parameters of the boolean scheme. These demonstration-scale sets keep
/// the ciphertexts small; they are not sized for cryptographic security.
#[derive(Clone, Copy, Debug, PartialEq, Eq, Structural)]
pub struct FheBoolParameters {
    pub lwe_dimension: LweDimension,
    pub glwe_dimension: GlweDimension,
    pub polynomial_size: PolynomialSize,
    pub lwe_noise: StandardDev,
    pub glwe_noise: StandardDev,
    pub pbs_base_log: DecompositionBaseLog,
    pub pbs_level: DecompositionLevelCount,
    pub ks_base_log: DecompositionBaseLog,
    pub ks_level: DecompositionLevelCount,
}

impl FheBoolParameters {
    /// What a usable boolean parameter set satisfies.
    pub open spec fn well_formed(&self) -> bool {
        &&& 1 <= self.lwe_dimension.0 < 4096
        &&& self.glwe_dimension.0 == 1
        &&& 2 <= self.polynomial_size.0 <= 4096
        &&& crate::polynomial::is_power_of_two(self.polynomial_size.0 as int)
        &&& 1 <= self.pbs_base_log.0
        &&& 1 <= self.pbs_level.0
        &&& self.pbs_base_log.0 * self.pbs_level.0 < 64
        &&& 1 <= self.ks_base_log.0
        &&& 1 <= self.ks_level.0 < 64
        &&& self.ks_base_log.0 * self.ks_level.0 < 64
        &&& self.lwe_noise.log2_scale <= 64
        &&& self.glwe_noise.log2_scale <= 64
    }

    /// The default demonstration parameter set.
    pub fn default_parameters() -> (r: FheBoolParameters)
        ensures
            r.well_formed(),
    {
        let r = FheBoolParameters {
            lwe_dimension: LweDimension(16),
            glwe_dimension: GlweDimension(1),
            polynomial_size: PolynomialSize(256),
            lwe_noise: StandardDev { log2_scale: 30 },
            glwe_noise: StandardDev { log2_scale: 10 },
            pbs_base_log: DecompositionBaseLog(8),
            pbs_level: DecompositionLevelCount(2),
            ks_base_log: DecompositionBaseLog(4),
            ks_level: DecompositionLevelCount(4),
        };
        proof {
            vstd::arithmetic::power2::lemma2_to64();
            assert(crate::polynomial::is_power_of_two(256int)) by {
                assert(vstd::arithmetic::power2::pow2(8) == 256);
            }
        }
        r
    }

    /// An alternative parameter set: a wider small key with a finer
    /// decomposition.
    pub fn tfhe_lib_parameters() -> (r: FheBoolParameters)
        ensures
            r.well_formed(),
    {
        let r = FheBoolParameters {
            lwe_dimension: LweDimension(24),
            glwe_dimension: GlweDimension(1),
            polynomial_size: PolynomialSize(256),
            lwe_noise: StandardDev { log2_scale: 28 },
            glwe_noise: StandardDev { log2_scale: 8 },
            pbs_base_log: DecompositionBaseLog(6),
            pbs_level: DecompositionLevelCount(3),
            ks_base_log: DecompositionBaseLog(4),
            ks_level: DecompositionLevelCount(4),
        };
        proof {
            vstd::arithmetic::power2::lemma2_to64();
            assert(crate::polynomial::is_power_of_two(256int)) by {
                assert(vstd::arithmetic::power2::pow2(8) == 256);
            }
        }
        r
    }
}

/// A configuration under construction: which boolean parameter set the keys
/// will use.
#[derive(Clone, Copy, Debug, PartialEq, Eq, Structural)]
pub struct ConfigBuilder {
    pub bool_params: Option<FheBoolParameters>,
}

/// A finished configuration.
#[derive(Clone, Copy, Debug, PartialEq, Eq, Structural)]
pub struct Config {
    pub bool_params: FheBoolParameters,
}

impl ConfigBuilder {
    /// Start from a configuration with everything disabled.
    pub fn all_disabled() -> (r: ConfigBuilder)
        ensures
            r.bool_params is None,
    {
        ConfigBuilder { bool_params: None }
    }

    /// Enable booleans with the default parameter set.
    pub fn enable_default_bool(self) -> (r: ConfigBuilder)
        ensures
            r.bool_params is Some,
            r.bool_params.unwrap().well_formed(),
    {
        ConfigBuilder { bool_params: Some(FheBoolParameters::default_parameters()) }
    }

    /// Enable booleans with a chosen parameter set.
    pub fn enable_custom_bool(self, parameters: FheBoolParameters) -> (r: ConfigBuilder)
        requires
            parameters.well_formed(),
        ensures
            r.bool_params is Some,
            r.bool_params.unwrap() == parameters,
            r.bool_params.unwrap().well_formed(),
    {
        ConfigBuilder { bool_params: Some(parameters) }
    }

    /// Finish the configuration; booleans fall back to the default set when
    /// nothing was enabled.
    pub fn build(self) -> (r: Config)
        ensures
            self.bool_params is Some ==> r.bool_params == self.bool_params.unwrap(),
            self.bool_params is None ==> r.bool_params.well_formed(),
    {
        match self.bool_params {
            Some(p) => Config { bool_params: p },
            None => Config { bool_params: FheBoolParameters::default_parameters() },
        }
    }
}

/// The key a client keeps: the small LWE key, the GLWE key whose flattening is
/// the big LWE key, and the parameters.
#[derive(Clone, Debug, PartialEq, Eq)]
pub struct ClientKey {
    pub lwe_secret_key: LweSecretKey,
    pub glwe_secret_key: GlweSecretKey,
    pub parameters: FheBoolParameters,
}

impl ClientKey {
    /// The key invariant: shapes match the parameters and both keys are
    /// binary.
    pub open spec fn well_formed(&self) -> bool {
        &&& self.parameters.well_formed()
        &&& self.lwe_secret_key.data@.len() == self.parameters.lwe_dimension.0
        &&& binary_seq(self.lwe_secret_key.data@)
        &&& self.glwe_secret_key.well_formed()
        &&& binary_seq(self.glwe_secret_key.data@)
        &&& self.glwe_secret_key.polynomial_size == self.parameters.polynomial_size
        &&& self.glwe_secret_key.data@.len() == self.parameters.glwe_dimension.0
            * self.parameters.polynomial_size.0
    }

    /// Generate a fresh client key from a secret seed.
    pub fn new(parameters: FheBoolParameters, secret_seed: u128) -> (r: ClientKey)
        requires
            parameters.well_formed(),
        ensures
            r.well_formed(),
            r.parameters == parameters,
    {
        let mut secret_generator = SecretRandomGenerator::new(secret_seed);
        let lwe_secret_key = crate::lwe::allocate_and_generate_new_binary_lwe_secret_key(
            parameters.lwe_dimension,
            &mut secret_generator,
        );
        proof {
            vstd::arithmetic::mul::lemma_mul_basics(parameters.polynomial_size.0 as int);
        }
        let glwe_secret_key = allocate_and_generate_new_binary_glwe_secret_key(
            parameters.glwe_dimension,
            parameters.polynomial_size,
            &mut secret_generator,
        );
        ClientKey { lwe_secret_key, glwe_secret_key, parameters }
    }
}

/// The key a server evaluates with: the bootstrapping key from the small key
/// to the GLWE key, and the keyswitch key from the flattened GLWE key back to
/// the small key.
#[derive(Clone, Debug, PartialEq, Eq)]
pub struct ServerKey {
    pub bootstrap_key: LweBootstrapKey,
    pub keyswitch_key: LweKeyswitchKey,
    pub parameters: FheBoolParameters,
}

impl ServerKey {
    /// The key invariant: both parts are well formed and match the parameters.
    pub open spec fn well_formed(&self) -> bool {
        &&& self.parameters.well_formed()
        &&& self.bootstrap_key.well_formed()
        &&& self.bootstrap_key.ciphertext_modulus.modulus() == crate::parameters::native_modulus()
        &&& self.bootstrap_key.polynomial_size == self.parameters.polynomial_size
        &&& self.bootstrap_key.glwe_size.0 == self.parameters.glwe_dimension.0 + 1
        &&& self.bootstrap_key.spec_input_dimension() == self.parameters.lwe_dimension.0
        &&& self.keyswitch_key.well_formed()
        &&& self.keyswitch_key.ciphertext_modulus.modulus() == crate::parameters::native_modulus()
        &&& self.keyswitch_key.output_lwe_size.0 == self.parameters.lwe_dimension.0 + 1
        &&& self.keyswitch_key.decomp_level_count == self.parameters.ks_level
        &&& self.keyswitch_key.spec_input_dimension() == self.parameters.glwe_dimension.0
            * self.parameters.polynomial_size.0
        &&& self.keyswitch_key.data@.len() == (self.parameters.glwe_dimension.0
            * self.parameters.polynomial_size.0) * self.parameters.ks_level.0 * (
        self.parameters.lwe_dimension.0 + 1)
    }
}

/// Generate the pair of keys a configuration asks for, from a secret seed and
/// the two encryption streams.
pub fn generate_keys(config: Config, secret_seed: u128, mask_seed: u128, noise_seed: u128) -> (r: (
    ClientKey,
    ServerKey,
))
    requires
        config.bool_params.well_formed(),
    ensures
        r.0.well_formed(),
        r.1.well_formed(),
        r.0.parameters == config.bool_params,
        r.1.parameters == config.bool_params,
{
    let parameters = config.bool_params;
    let client_key = ClientKey::new(parameters, secret_seed);
    let mut generator = EncryptionRandomGenerator::new(mask_seed, noise_seed);
    let modulus = CiphertextModulus::new_native();
    proof {
        crate::parameters::lemma_modulus_facts(modulus);
        lemma_key_size_bounds(parameters);
    }
    let bootstrap_key = generate_lwe_bootstrap_key(
        &client_key.lwe_secret_key,
        &client_key.glwe_secret_key,
        parameters.pbs_base_log,
        parameters.pbs_level,
        parameters.glwe_noise,
        modulus,
        &mut generator,
    );
    let big_key = crate::lwe::LweSecretKey { data: crate::crs_lwe_ciphertext::copy_range(
        &client_key.glwe_secret_key.data,
        0,
        client_key.glwe_secret_key.data.len(),
    ) };
    proof {
        assert(big_key.data@ =~= client_key.glwe_secret_key.data@);
    }
    let keyswitch_key = allocate_and_generate_new_lwe_keyswitch_key(
        &big_key,
        &client_key.lwe_secret_key,
        parameters.ks_base_log,
        parameters.ks_level,
        parameters.lwe_noise,
        modulus,
        &mut generator,
    );
    proof {
        lemma_bsk_glwe_size(bootstrap_key, parameters, client_key);
        lemma_ksk_shape(keyswitch_key, parameters, big_key.data@.len() as int);
    }
    let server_key = ServerKey { bootstrap_key, keyswitch_key, parameters };
    (client_key, server_key)
}

/// The products a parameter set needs stay inside machine bounds.
pub proof fn lemma_key_size_bounds(p: FheBoolParameters)
    requires
        p.well_formed(),
    ensures
        p.glwe_dimension.0 * p.polynomial_size.0 <= usize::MAX,
        1 * p.polynomial_size.0 == p.polynomial_size.0,
        (p.glwe_dimension.0 * p.polynomial_size.0) + p.polynomial_size.0 <= usize::MAX,
        bpow_fits(p),
        (p.pbs_level.0 as int) * ((((p.glwe_dimension.0 * p.polynomial_size.0) as int) + (
        p.polynomial_size.0 as int)) / (p.polynomial_size.0 as int)) * ((((p.glwe_dimension.0
            * p.polynomial_size.0) as int) + (p.polynomial_size.0 as int))) <= usize::MAX,
        ((p.glwe_dimension.0 * p.polynomial_size.0) as int) * (p.ks_level.0 as int) * ((
        p.lwe_dimension.0 + 1) as int) <= usize::MAX,
    decreases 0int,
{
    vstd::arithmetic::mul::lemma_mul_basics(p.polynomial_size.0 as int);
    let kn = p.glwe_dimension.0 as int * p.polynomial_size.0 as int;
    assert(kn == p.polynomial_size.0 as int);
    assert(p.pbs_level.0 <= 63) by {
        vstd::arithmetic::mul::lemma_mul_inequality(1, p.pbs_base_log.0 as int, p.pbs_level.0 as int);
        vstd::arithmetic::mul::lemma_mul_basics(p.pbs_level.0 as int);
        vstd::arithmetic::mul::lemma_mul_is_commutative(p.pbs_base_log.0 as int, p.pbs_level.0 as int);
    }
    // pbs_level·2·(2N) and kN·ks_level·(n+1) are tiny against usize::MAX
    assert((kn + p.polynomial_size.0 as int) / (p.polynomial_size.0 as int) == 2) by {
        vstd::arithmetic::div_mod::lemma_fundamental_div_mod_converse(
            kn + p.polynomial_size.0 as int,
            p.polynomial_size.0 as int,
            2,
            0,
        );
    }
    assert((p.pbs_level.0 as int) * 2 <= 128);
    vstd::arithmetic::mul::lemma_mul_inequality(
        (p.pbs_level.0 as int) * 2,
        128,
        kn + p.polynomial_size.0 as int,
    );
    vstd::arithmetic::mul::lemma_mul_upper_bound(
        p.ks_level.0 as int,
        64,
        (p.lwe_dimension.0 + 1) as int,
        4097,
    );
    vstd::arithmetic::mul::lemma_mul_nonnegative(
        p.ks_level.0 as int,
        (p.lwe_dimension.0 + 1) as int,
    );
    vstd::arithmetic::mul::lemma_mul_upper_bound(
        kn,
        4096,
        (p.ks_level.0 as int) * ((p.lwe_dimension.0 + 1) as int),
        262208int,
    );
    vstd::arithmetic::mul::lemma_mul_is_associative(
        kn,
        p.ks_level.0 as int,
        (p.lwe_dimension.0 + 1) as int,
    );
    lemma_bpow_fits(p);
}

/// The decomposition bases of a well-formed parameter set fit under the
/// native modulus.
pub open spec fn bpow_fits(p: FheBoolParameters) -> bool {
    &&& crate::decomposition::bpow(p.ks_base_log.0 as nat, p.ks_level.0 as nat)
        <= crate::parameters::native_modulus()
    &&& crate::decomposition::bpow(p.pbs_base_log.0 as nat, p.pbs_level.0 as nat)
        <= crate::parameters::native_modulus()
}

/// B^l stays under 2^64 whenever b·l is below 64.
pub proof fn lemma_bpow_fits(p: FheBoolParameters)
    requires
        p.well_formed(),
    ensures
        bpow_fits(p),
{
    vstd::arithmetic::power2::lemma_pow2_strictly_increases(
        (p.ks_base_log.0 * p.ks_level.0) as nat,
        64,
    );
    vstd::arithmetic::power2::lemma_pow2_strictly_increases(
        (p.pbs_base_log.0 * p.pbs_level.0) as nat,
        64,
    );
    vstd::arithmetic::power2::lemma2_to64();
    vstd::arithmetic::power2::lemma_pow2_adds(32, 32);
    vstd::arithmetic::power2::lemma2_to64_rest();
}

/// The generated bootstrap key has the parameter shapes.
proof fn lemma_bsk_glwe_size(bsk: LweBootstrapKey, p: FheBoolParameters, ck: ClientKey)
    requires
        p.well_formed(),
        ck.well_formed(),
        ck.parameters == p,
        bsk.well_formed(),
        bsk.polynomial_size == p.polynomial_size,
        bsk.glwe_size.0 == (ck.glwe_secret_key.data@.len() + p.polynomial_size.0) as int
            / p.polynomial_size.0 as int,
    ensures
        bsk.glwe_size.0 == p.glwe_dimension.0 + 1,
    decreases 0int,
{
    vstd::arithmetic::mul::lemma_mul_basics(p.polynomial_size.0 as int);
    assert(ck.glwe_secret_key.data@.len() == p.polynomial_size.0);
    assert((ck.glwe_secret_key.data@.len() + p.polynomial_size.0) as int == 2 * (
    p.polynomial_size.0 as int) + 0);
    vstd::arithmetic::div_mod::lemma_fundamental_div_mod_converse(
        (ck.glwe_secret_key.data@.len() + p.polynomial_size.0) as int,
        p.polynomial_size.0 as int,
        2,
        0,
    );
}

/// The generated keyswitch key has the parameter shapes.
proof fn lemma_ksk_shape(ksk: LweKeyswitchKey, p: FheBoolParameters, big_dim: int)
    requires
        p.well_formed(),
        ksk.well_formed(),
        big_dim == p.glwe_dimension.0 * p.polynomial_size.0,
        ksk.decomp_level_count == p.ks_level,
        ksk.output_lwe_size.0 == p.lwe_dimension.0 + 1,
        ksk.data@.len() == big_dim * p.ks_level.0 * (p.lwe_dimension.0 + 1),
    ensures
        ksk.spec_input_dimension() == big_dim,
    decreases 0int,
{
    let block = p.ks_level.0 as int * (p.lwe_dimension.0 + 1) as int;
    assert(ksk.data@.len() as int == big_dim * block) by {
        vstd::arithmetic::mul::lemma_mul_is_associative(
            big_dim,
            p.ks_level.0 as int,
            (p.lwe_dimension.0 + 1) as int,
        );
    }
    vstd::arithmetic::mul::lemma_mul_strictly_positive(
        p.ks_level.0 as int,
        (p.lwe_dimension.0 + 1) as int,
    );
    vstd::arithmetic::mul::lemma_mul_is_commutative(big_dim, block);
    vstd::arithmetic::div_mod::lemma_div_multiples_vanish(big_dim, block);
}

/// An encrypted boolean: an LWE encryption of plus (true) or minus (false) an
/// eighth of the torus under the small key.
#[derive(Clone, Debug, PartialEq, Eq)]
pub struct FheBool {
    pub ct: LweCiphertext,
}

/// The encoding of a boolean as a plaintext word: plus or minus an eighth of
/// the native torus.
pub open spec fn encode_bool(b: bool) -> u64 {
    if b {
        0x2000_0000_0000_0000
    } else {
        0xe000_0000_0000_0000
    }
}

impl FheBool {
    /// The ciphertext invariant: a well-formed native-modulus LWE ciphertext
    /// of the small dimension.
    pub open spec fn well_formed_for(&self, p: FheBoolParameters) -> bool {
        &&& self.ct.well_formed()
        &&& self.ct.ciphertext_modulus.modulus() == crate::parameters::native_modulus()
        &&& self.ct.data@.len() == p.lwe_dimension.0 + 1
    }

    /// Encrypt a boolean under the client key, drawing the mask and the noise
    /// from the generator.
    pub fn encrypt(value: bool, key: &ClientKey, generator: &mut EncryptionRandomGenerator) -> (r:
        FheBool)
        requires
            key.well_formed(),
        ensures
            r.well_formed_for(key.parameters),
            r.ct.data@ == crate::lwe::lwe_encrypt_spec(
                key.lwe_secret_key.data@,
                encode_bool(value),
                key.parameters.lwe_noise,
                r.ct.ciphertext_modulus,
                old(generator).mask_seed(),
                old(generator).mask_consumed(),
                old(generator).noise_seed(),
                old(generator).noise_consumed(),
            ),
    {
        let modulus = CiphertextModulus::new_native();
        proof {
            crate::parameters::lemma_modulus_facts(modulus);
        }
        let mut ct = LweCiphertext::new(LweSize(key.lwe_secret_key.data.len() + 1), modulus);
        let encoded = if value {
            0x2000_0000_0000_0000u64
        } else {
            0xe000_0000_0000_0000u64
        };
        crate::lwe::encrypt_lwe_ciphertext(
            &key.lwe_secret_key,
            &mut ct,
            Plaintext(encoded),
            key.parameters.lwe_noise,
            generator,
        );
        FheBool { ct }
    }

    /// Decrypt a boolean under the client key: the phase lands in the lower
    /// half of the torus exactly for true.
    pub fn decrypt(&self, key: &ClientKey) -> (r: bool)
        requires
            key.well_formed(),
            self.well_formed_for(key.parameters),
        ensures
            r <==> crate::lwe::lwe_decrypt_spec(
                key.lwe_secret_key.data@,
                self.ct.data@,
                self.ct.ciphertext_modulus,
            ) < 0x8000_0000_0000_0000,
    {
        let phase = crate::lwe::decrypt_lwe_ciphertext(&key.lwe_secret_key, &self.ct);
        phase.0 < 0x8000_0000_0000_0000u64
    }
}

/// The linear part of a gate: out = a + b elementwise, plus an offset on the
/// body, with an optional doubling for the parity gate.
fn gate_linear_combination(
    a: &LweCiphertext,
    b: &LweCiphertext,
    double: bool,
    offset: u64,
) -> (r: LweCiphertext)
    requires
        a.well_formed(),
        b.well_formed(),
        a.ciphertext_modulus == b.ciphertext_modulus,
        a.ciphertext_modulus.modulus() == crate::parameters::native_modulus(),
        a.data@.len() == b.data@.len(),
    ensures
        r.well_formed(),
        r.ciphertext_modulus == a.ciphertext_modulus,
        r.data@.len() == a.data@.len(),
{
    let m = a.ciphertext_modulus;
    proof {
        crate::parameters::lemma_modulus_facts(m);
        crate::numeric::lemma_working_modulus_valid(m);
    }
    let w = m.get_working_modulus();
    let len = a.data.len();
    let mut data = vec_of_zeros(len);
    let mut i: usize = 0;
    while i < len
        invariant
            i <= len,
            len == a.data@.len(),
            len == b.data@.len(),
            data@.len() == len,
            valid_working_modulus(w as int),
            w == m.working_modulus(),
            crate::numeric::reduced(a.data@, w as int),
            crate::numeric::reduced(b.data@, w as int),
            crate::numeric::reduced(data@, w as int),
        decreases len - i,
    {
        let mut v = add_mod(a.data[i], b.data[i], w);
        if double {
            v = add_mod(v, v, w);
        }
        data[i] = v;
        i = i + 1;
    }
    proof {
        vstd::arithmetic::div_mod::lemma_mod_bound(offset as int, w as int);
    }
    let body = add_mod(data[len - 1], (((offset as u128) % w) as u64), w);
    data[len - 1] = body;
    LweCiphertext { data, ciphertext_modulus: m }
}

/// The constant test accumulator: every body coefficient holds the torus
/// eighth, so the extracted sample is plus or minus an eighth depending on
/// which half of the torus the phase points to.
fn bool_test_accumulator(p: FheBoolParameters, modulus: CiphertextModulus) -> (r: GlweCiphertext)
    requires
        p.well_formed(),
        modulus.well_formed(),
        modulus.modulus() == crate::parameters::native_modulus(),
    ensures
        r.well_formed(),
        r.ciphertext_modulus == modulus,
        r.polynomial_size == p.polynomial_size,
        r.data@.len() == (p.glwe_dimension.0 + 1) * p.polynomial_size.0,
{
    proof {
        lemma_key_size_bounds(p);
        crate::parameters::lemma_modulus_facts(modulus);
        crate::numeric::lemma_working_modulus_valid(modulus);
        vstd::arithmetic::mul::lemma_mul_basics(modulus.modulus());
    }
    let n = p.polynomial_size.0;
    let gs = p.glwe_dimension.0 + 1;
    proof {
        vstd::arithmetic::mul::lemma_mul_is_distributive_add_other_way(
            n as int,
            p.glwe_dimension.0 as int,
            1,
        );
        vstd::arithmetic::mul::lemma_mul_basics(n as int);
    }
    let mut acc = GlweCiphertext::new(GlweSize(gs), p.polynomial_size, modulus);
    let total = acc.data.len();
    let start = total - n;
    let mut i: usize = start;
    while i < total
        invariant
            start <= i <= total,
            acc.data@.len() == total,
            acc.polynomial_size == p.polynomial_size,
            acc.ciphertext_modulus == modulus,
            modulus.well_formed(),
            crate::numeric::reduced(acc.data@, modulus.working_modulus()),
            modulus.working_modulus() == 0x1_0000_0000_0000_0000,
        decreases total - i,
    {
        acc.data[i] = 0x2000_0000_0000_0000u64;
        i = i + 1;
    }
    acc
}

/// One bootstrapped gate: linear combination, bootstrap, keyswitch.
fn bootstrapped_gate(
    a: &FheBool,
    b: &FheBool,
    server_key: &ServerKey,
    double: bool,
    offset: u64,
) -> (r: FheBool)
    requires
        server_key.well_formed(),
        a.well_formed_for(server_key.parameters),
        b.well_formed_for(server_key.parameters),
        a.ct.ciphertext_modulus == b.ct.ciphertext_modulus,
    ensures
        r.well_formed_for(server_key.parameters),
{
    let p = server_key.parameters;
    let modulus = a.ct.ciphertext_modulus;
    proof {
        crate::parameters::lemma_modulus_facts(modulus);
        crate::numeric::lemma_working_modulus_valid(modulus);
        crate::parameters::lemma_modulus_eq(modulus, server_key.bootstrap_key.ciphertext_modulus);
        lemma_key_size_bounds(p);
    }
    let combined = gate_linear_combination(&a.ct, &b.ct, double, offset);
    let accumulator = bool_test_accumulator(p, server_key.bootstrap_key.ciphertext_modulus);
    let n = p.polynomial_size.0;
    let gs = p.glwe_dimension.0 + 1;
    proof {
        vstd::arithmetic::mul::lemma_mul_is_distributive_add_other_way(
            n as int,
            p.glwe_dimension.0 as int,
            1,
        );
        vstd::arithmetic::mul::lemma_mul_basics(n as int);
        vstd::arithmetic::mul::lemma_mul_inequality(gs as int, 3 * gs as int, n as int);
        vstd::arithmetic::mul::lemma_mul_is_associative(3, gs as int, n as int);
        vstd::arithmetic::mul::lemma_mul_upper_bound(3 * gs as int, 6, n as int, 4096);
    }
    let mut big_ct = LweCiphertext::new(
        LweSize((gs - 1) * n + 1),
        server_key.bootstrap_key.ciphertext_modulus,
    );
    let mut scratch = vec_of_zeros(
        bootstrap_scratch_size(GlweSize(gs), p.polynomial_size),
    );
    proof {
        lemma_bsk_row_is_acc(server_key.bootstrap_key, p);
    }
    let ok = programmable_bootstrap_lwe_ciphertext(
        &combined,
        &mut big_ct,
        &accumulator,
        &server_key.bootstrap_key,
        &mut scratch,
    );
    // keyswitch back to the small key
    let mut out = LweCiphertext::new(
        LweSize(p.lwe_dimension.0 + 1),
        server_key.keyswitch_key.ciphertext_modulus,
    );
    proof {
        lemma_gate_ks_shapes(*server_key, big_ct.data@.len() as int, out.data@.len() as int);
        crate::parameters::lemma_modulus_eq(
            big_ct.ciphertext_modulus,
            server_key.keyswitch_key.ciphertext_modulus,
        );
    }
    keyswitch_lwe_ciphertext(&server_key.keyswitch_key, &big_ct, &mut out);
    FheBool { ct: out }
}

/// The accumulator and the bootstrap output have the shapes the bootstrap
/// asks for.
proof fn lemma_bsk_row_is_acc(bsk: LweBootstrapKey, p: FheBoolParameters)
    requires
        p.well_formed(),
        bsk.well_formed(),
        bsk.polynomial_size == p.polynomial_size,
        bsk.glwe_size.0 == p.glwe_dimension.0 + 1,
    ensures
        bsk.spec_row_len() == (p.glwe_dimension.0 + 1) * p.polynomial_size.0,
        (bsk.glwe_size.0 - 1) * bsk.polynomial_size.0 + 1 == (p.glwe_dimension.0 + 1 - 1)
            * p.polynomial_size.0 + 1,
        bsk.polynomial_size.0 <= 0x1_0000_0000,
        3 * bsk.glwe_size.0 * bsk.polynomial_size.0 <= usize::MAX,
    decreases 0int,
{
    vstd::arithmetic::mul::lemma_mul_upper_bound(
        3 * bsk.glwe_size.0 as int,
        6,
        bsk.polynomial_size.0 as int,
        4096,
    );
    vstd::arithmetic::mul::lemma_mul_is_associative(
        3,
        bsk.glwe_size.0 as int,
        bsk.polynomial_size.0 as int,
    );
}

/// The keyswitch shapes a gate needs.
proof fn lemma_gate_ks_shapes(sk: ServerKey, big_len: int, out_len: int)
    requires
        sk.well_formed(),
        big_len == (sk.parameters.glwe_dimension.0 + 1 - 1) * sk.parameters.polynomial_size.0 + 1,
        out_len == sk.parameters.lwe_dimension.0 + 1,
    ensures
        big_len == sk.keyswitch_key.spec_input_dimension() + 1,
        sk.keyswitch_key.data@.len() == (big_len - 1) * sk.keyswitch_key.decomp_level_count.0
            * sk.keyswitch_key.output_lwe_size.0,
        sk.keyswitch_key.decomp_level_count.0 * sk.keyswitch_key.output_lwe_size.0 <= usize::MAX,
    decreases 0int,
{
    let p = sk.parameters;
    vstd::arithmetic::mul::lemma_mul_basics(p.polynomial_size.0 as int);
    vstd::arithmetic::mul::lemma_mul_is_associative(
        (p.glwe_dimension.0 * p.polynomial_size.0) as int,
        p.ks_level.0 as int,
        (p.lwe_dimension.0 + 1) as int,
    );
    vstd::arithmetic::mul::lemma_mul_upper_bound(
        p.ks_level.0 as int,
        64,
        (p.lwe_dimension.0 + 1) as int,
        4097,
    );
}

impl FheBool {
    /// The conjunction of two encrypted booleans, freshly bootstrapped.
    pub fn and(&self, other: &FheBool, server_key: &ServerKey) -> (r: FheBool)
        requires
            server_key.well_formed(),
            self.well_formed_for(server_key.parameters),
            other.well_formed_for(server_key.parameters),
            self.ct.ciphertext_modulus == other.ct.ciphertext_modulus,
        ensures
            r.well_formed_for(server_key.parameters),
    {
        // offset -q/8: picks the upper half exactly when both inputs are true
        bootstrapped_gate(self, other, server_key, false, 0xe000_0000_0000_0000u64)
    }

    /// The disjunction of two encrypted booleans, freshly bootstrapped.
    pub fn or(&self, other: &FheBool, server_key: &ServerKey) -> (r: FheBool)
        requires
            server_key.well_formed(),
            self.well_formed_for(server_key.parameters),
            other.well_formed_for(server_key.parameters),
            self.ct.ciphertext_modulus == other.ct.ciphertext_modulus,
        ensures
            r.well_formed_for(server_key.parameters),
    {
        // offset +q/8: picks the upper half when either input is true
        bootstrapped_gate(self, other, server_key, false, 0x2000_0000_0000_0000u64)
    }

    /// The exclusive disjunction of two encrypted booleans, freshly
    /// bootstrapped.
    pub fn xor(&self, other: &FheBool, server_key: &ServerKey) -> (r: FheBool)
        requires
            server_key.well_formed(),
            self.well_formed_for(server_key.parameters),
            other.well_formed_for(server_key.parameters),
            self.ct.ciphertext_modulus == other.ct.ciphertext_modulus,
        ensures
            r.well_formed_for(server_key.parameters),
    {
        // doubled sum with offset +q/8: lands in the upper half exactly when
        // the inputs agree
        bootstrapped_gate(self, other, server_key, true, 0x2000_0000_0000_0000u64)
    }
}

/// Decrypting a fresh encryption of a boolean returns that boolean, whenever
/// the dispersion keeps the noise under the encoding margin: the phase is the
/// encoding plus the noise, which cannot cross the torus half the encoding
/// points away from.
pub proof fn lemma_bool_encrypt_decrypt(
    sk: Seq<u64>,
    value: bool,
    s: StandardDev,
    m: CiphertextModulus,
    mask_seed: u128,
    mask_ctr: nat,
    noise_seed: u128,
    noise_ctr: nat,
)
    requires
        crate::lwe::binary_seq(sk),
        m.well_formed(),
        m.modulus() == crate::parameters::native_modulus(),
        1020 * vstd::arithmetic::power2::pow2(s.log2_scale as nat) < 0x2000_0000_0000_0000,
    ensures
        (crate::lwe::lwe_decrypt_spec(
            sk,
            crate::lwe::lwe_encrypt_spec(
                sk,
                encode_bool(value),
                s,
                m,
                mask_seed,
                mask_ctr,
                noise_seed,
                noise_ctr,
            ),
            m,
        ) < 0x8000_0000_0000_0000) <==> value,
    decreases 0int,
{
    crate::parameters::lemma_modulus_facts(m);
    crate::lwe::lemma_lwe_phase(
        sk,
        encode_bool(value),
        s,
        m,
        mask_seed,
        mask_ctr,
        noise_seed,
        noise_ctr,
    );
    let nv = crate::random::noise_value(noise_seed, noise_ctr, s);
    crate::random::lemma_byte_sum_bound(noise_seed, noise_ctr, 8);
    vstd::arithmetic::power2::lemma_pow2_pos(s.log2_scale as nat);
    let p2 = vstd::arithmetic::power2::pow2(s.log2_scale as nat) as int;
    assert(nv < 0x2000_0000_0000_0000 && 0 - nv < 0x2000_0000_0000_0000) by {
        let c = crate::random::byte_sum(noise_seed, noise_ctr, 8) - 1020;
        assert(0 - 1020 <= c <= 1020);
        vstd::arithmetic::mul::lemma_mul_inequality(c, 1020, p2);
        vstd::arithmetic::mul::lemma_mul_inequality(0 - 1020, c, p2);
        vstd::arithmetic::mul::lemma_mul_is_commutative(c, p2);
        vstd::arithmetic::mul::lemma_mul_is_commutative(1020, p2);
        vstd::arithmetic::mul::lemma_mul_is_commutative(0 - 1020, p2);
    }
    let q = m.modulus();
    let enc = encode_bool(value) as int;
    // the phase never wraps: the encoding keeps a quarter-torus margin
    assert((enc + nv) % q == enc + nv) by {
        vstd::arithmetic::div_mod::lemma_small_mod((enc + nv) as nat, q as nat);
        vstd::arithmetic::power2::lemma2_to64();
        vstd::arithmetic::power2::lemma_pow2_adds(32, 32);
        vstd::arithmetic::power2::lemma2_to64_rest();
    }
}

/// A compressed encrypted boolean: the stored body plus the seed that
/// regenerates the mask.
#[derive(Clone, Debug, PartialEq, Eq)]
pub struct CompressedFheBool {
    pub body: u64,
    pub lwe_dimension: LweDimension,
    pub seed: u128,
}

impl CompressedFheBool {
    /// Encrypt a boolean in compressed form: run the ordinary encryption with
    /// the mask stream keyed by `mask_seed`, and keep only the body and the
    /// seed.
    pub fn encrypt(value: bool, key: &ClientKey, mask_seed: u128, noise_seed: u128) -> (r:
        CompressedFheBool)
        requires
            key.well_formed(),
        ensures
            r.lwe_dimension == key.parameters.lwe_dimension,
            r.seed == mask_seed,
            // the stored body is the last word of the fresh encryption that
            // both streams, started at zero, produce under the native modulus
            forall|m: CiphertextModulus|
                m.modulus() == crate::parameters::native_modulus() ==> r.body
                    == #[trigger] crate::lwe::lwe_encrypt_spec(
                    key.lwe_secret_key.data@,
                    encode_bool(value),
                    key.parameters.lwe_noise,
                    m,
                    mask_seed,
                    0,
                    noise_seed,
                    0,
                ).last(),
    {
        let mut generator = EncryptionRandomGenerator::new(mask_seed, noise_seed);
        let full = FheBool::encrypt(value, key, &mut generator);
        let body = full.ct.get_body();
        proof {
            assert forall|m: CiphertextModulus|
                m.modulus() == crate::parameters::native_modulus() implies body
                == #[trigger] crate::lwe::lwe_encrypt_spec(
                key.lwe_secret_key.data@,
                encode_bool(value),
                key.parameters.lwe_noise,
                m,
                mask_seed,
                0,
                noise_seed,
                0,
            ).last() by {
                crate::parameters::lemma_modulus_eq(m, full.ct.ciphertext_modulus);
            }
        }
        CompressedFheBool { body, lwe_dimension: key.parameters.lwe_dimension, seed: mask_seed }
    }

    /// Expand back into an ordinary encrypted boolean: the mask words are
    /// regenerated from the seed, and the stored body follows. A dimension at
    /// the machine limit is treated as zero, so expansion is total.
    pub fn decompress(&self) -> (r: FheBool)
        ensures
            r.ct.well_formed(),
            r.ct.ciphertext_modulus.modulus() == crate::parameters::native_modulus(),
            self.lwe_dimension.0 < usize::MAX ==> {
                &&& r.ct.data@.len() == self.lwe_dimension.0 + 1
                &&& r.ct.data@ =~= lwe_mask_seq(
                    self.seed,
                    0,
                    r.ct.ciphertext_modulus,
                    self.lwe_dimension.0 as nat,
                ).push(self.body)
            },
    {
        let modulus = CiphertextModulus::new_native();
        proof {
            crate::parameters::lemma_modulus_facts(modulus);
            crate::numeric::lemma_working_modulus_valid(modulus);
        }
        let mut generator = MaskRandomGenerator::new(self.seed);
        let n = if self.lwe_dimension.0 == usize::MAX {
            0
        } else {
            self.lwe_dimension.0
        };
        let mut data = vec_of_zeros(n + 1);
        let mut i: usize = 0;
        while i < n
            invariant
                i <= n,
                data@.len() == n + 1,
                modulus.well_formed(),
                crate::numeric::reduced(data@, modulus.working_modulus()),
                generator.stream_seed() == self.seed,
                generator.consumed() == 16 * i,
                forall|j: int|
                    0 <= j < i ==> data@[j] == crate::random::mask_word(
                        self.seed,
                        (16 * j) as nat,
                        modulus,
                    ),
            decreases n - i,
        {
            let word = generator.random_mask_word(&modulus);
            data[i] = word;
            i = i + 1;
        }
        data[n] = self.body;
        proof {
            if self.lwe_dimension.0 < usize::MAX {
                assert(data@ =~= lwe_mask_seq(self.seed, 0, modulus, n as nat).push(self.body));
            }
        }
        FheBool { ct: LweCiphertext { data, ciphertext_modulus: modulus } }
    }
}

impl From<CompressedFheBool> for FheBool {
    /// Expanding a compressed boolean through the standard conversion.
    fn from(compressed: CompressedFheBool) -> (r: FheBool) {
        compressed.decompress()
    }
}

impl vstd::std_specs::convert::FromSpecImpl<CompressedFheBool> for FheBool {
    /// The conversion promises nothing at the spec level; callers reason
    /// through `decompress`, whose contract pins the expansion down.
    open spec fn obeys_from_spec() -> bool {
        false
    }

    open spec fn from_spec(compressed: CompressedFheBool) -> FheBool {
        vstd::pervasive::arbitrary()
    }
}

/// A keyswitching key between the boolean keys of two parties: it carries
/// encrypted booleans of the first key pair onto the second, using the second
/// pair's keyswitch parameters.
#[derive(Clone, Debug, PartialEq, Eq)]
pub struct FheBoolKeySwitchingKey {
    pub key: LweKeyswitchKey,
}

impl FheBoolKeySwitchingKey {
    /// Generate the boolean keyswitching key from the two client/server key
    /// pairs.
    pub fn new(
        key_pair_1: (&ClientKey, &ServerKey),
        key_pair_2: (&ClientKey, &ServerKey),
        generator: &mut EncryptionRandomGenerator,
    ) -> (r: FheBoolKeySwitchingKey)
        requires
            key_pair_1.0.well_formed(),
            key_pair_2.0.well_formed(),
        ensures
            r.key.well_formed(),
            r.key.decomp_base_log == key_pair_2.0.parameters.ks_base_log,
            r.key.decomp_level_count == key_pair_2.0.parameters.ks_level,
            r.key.output_lwe_size.0 == key_pair_2.0.lwe_secret_key.data@.len() + 1,
            r.key.ciphertext_modulus.modulus() == crate::parameters::native_modulus(),
            r.key.data@.len() == key_pair_1.0.lwe_secret_key.data@.len()
                * key_pair_2.0.parameters.ks_level.0 * (key_pair_2.0.lwe_secret_key.data@.len()
                + 1),
            crate::lwe_keyswitch::ksk_prefix_ok(
                r.key.data@,
                (key_pair_2.0.lwe_secret_key.data@.len() + 1) as int,
                key_pair_2.0.parameters.ks_base_log.0 as nat,
                key_pair_2.0.parameters.ks_level.0 as nat,
                key_pair_1.0.lwe_secret_key.data@,
                key_pair_2.0.lwe_secret_key.data@,
                key_pair_2.0.parameters.lwe_noise,
                r.key.ciphertext_modulus,
                old(generator).mask_seed(),
                old(generator).mask_consumed(),
                old(generator).noise_seed(),
                old(generator).noise_consumed(),
                key_pair_1.0.lwe_secret_key.data@.len() * key_pair_2.0.parameters.ks_level.0,
            ),
            final(generator).mask_seed() == old(generator).mask_seed(),
            final(generator).noise_seed() == old(generator).noise_seed(),
    {
        let p2 = key_pair_2.0.parameters;
        let modulus = CiphertextModulus::new_native();
        proof {
            crate::parameters::lemma_modulus_facts(modulus);
            lemma_bpow_fits(p2);
            lemma_cross_ks_bounds(key_pair_1.0.parameters, p2);
        }
        let key = allocate_and_generate_new_lwe_keyswitch_key(
            &key_pair_1.0.lwe_secret_key,
            &key_pair_2.0.lwe_secret_key,
            p2.ks_base_log,
            p2.ks_level,
            p2.lwe_noise,
            modulus,
            generator,
        );
        FheBoolKeySwitchingKey { key }
    }
}

/// The cross-party keyswitch key stays inside machine bounds.
proof fn lemma_cross_ks_bounds(p1: FheBoolParameters, p2: FheBoolParameters)
    requires
        p1.well_formed(),
        p2.well_formed(),
    ensures
        (p1.lwe_dimension.0 as int) * (p2.ks_level.0 as int) * ((p2.lwe_dimension.0 + 1) as int)
            <= usize::MAX,
    decreases 0int,
{
    vstd::arithmetic::mul::lemma_mul_upper_bound(
        p1.lwe_dimension.0 as int,
        4096,
        p2.ks_level.0 as int,
        64,
    );
    vstd::arithmetic::mul::lemma_mul_upper_bound(
        (p1.lwe_dimension.0 as int) * (p2.ks_level.0 as int),
        262144int,
        (p2.lwe_dimension.0 + 1) as int,
        4097,
    );
}

/// The keyswitching key that carries every enabled encrypted type from one
/// party's keys onto another's; booleans are the one enabled type.
#[derive(Clone, Debug, PartialEq, Eq)]
pub struct KeySwitchingKey {
    pub boolean_key: FheBoolKeySwitchingKey,
}

impl KeySwitchingKey {
    /// Generate the keyswitching key from the two client/server key pairs.
    pub fn new(
        key_pair_1: (&ClientKey, &ServerKey),
        key_pair_2: (&ClientKey, &ServerKey),
        generator: &mut EncryptionRandomGenerator,
    ) -> (r: KeySwitchingKey)
        requires
            key_pair_1.0.well_formed(),
            key_pair_2.0.well_formed(),
        ensures
            r.boolean_key.key.well_formed(),
            r.boolean_key.key.decomp_base_log == key_pair_2.0.parameters.ks_base_log,
            r.boolean_key.key.decomp_level_count == key_pair_2.0.parameters.ks_level,
            r.boolean_key.key.output_lwe_size.0 == key_pair_2.0.lwe_secret_key.data@.len() + 1,
            r.boolean_key.key.ciphertext_modulus.modulus() == crate::parameters::native_modulus(),
            r.boolean_key.key.data@.len() == key_pair_1.0.lwe_secret_key.data@.len()
                * key_pair_2.0.parameters.ks_level.0 * (key_pair_2.0.lwe_secret_key.data@.len()
                + 1),
            crate::lwe_keyswitch::ksk_prefix_ok(
                r.boolean_key.key.data@,
                (key_pair_2.0.lwe_secret_key.data@.len() + 1) as int,
                key_pair_2.0.parameters.ks_base_log.0 as nat,
                key_pair_2.0.parameters.ks_level.0 as nat,
                key_pair_1.0.lwe_secret_key.data@,
                key_pair_2.0.lwe_secret_key.data@,
                key_pair_2.0.parameters.lwe_noise,
                r.boolean_key.key.ciphertext_modulus,
                old(generator).mask_seed(),
                old(generator).mask_consumed(),
                old(generator).noise_seed(),
                old(generator).noise_consumed(),
                key_pair_1.0.lwe_secret_key.data@.len() * key_pair_2.0.parameters.ks_level.0,
            ),
            final(generator).mask_seed() == old(generator).mask_seed(),
            final(generator).noise_seed() == old(generator).noise_seed(),
    {
        KeySwitchingKey {
            boolean_key: FheBoolKeySwitchingKey::new(key_pair_1, key_pair_2, generator),
        }
    }
}

} // verus!

//! LWE secret keys, ciphertexts, ciphertext lists, and the encryption and
//! decryption primitives on them.
//!
//! An LWE ciphertext is a flat vector of n mask words followed by one body
//! word. Encryption is a mathematical function of the secret key, the
//! plaintext, the dispersion, and the positions of the two generator streams:
//! the contracts below pin the produced ciphertext down to that function,
//! which is what the seeded/direct equivalence results build on.

use vstd::prelude::*;
use vstd::arithmetic::power2::{lemma2_to64, lemma2_to64_rest, lemma_pow2_adds, lemma_pow2_pos,
    pow2};
use crate::parameters::{
    CiphertextModulus,
    LweDimension,
    LweSize,
    LweCiphertextCount,
    Plaintext,
    PlaintextCount,
    StandardDev,
};
use crate::numeric::{dot_mod, reduced, valid_working_modulus, dot_product_mod, add_mod, sub_mod};
use crate::random::{mask_word, noise_word, binary_word, EncryptionRandomGenerator,
    SecretRandomGenerator};

verus! {

/// An LWE secret key: a vector of binary coefficients.
#[derive(Clone, Debug, PartialEq, Eq)]
pub struct LweSecretKey {
    pub data: Vec<u64>,
}

/// A sequence is binary when every element is 0 or 1.
pub open spec fn binary_seq(s: Seq<u64>) -> bool {
    forall|i: int| 0 <= i < s.len() ==> #[trigger] s[i] <= 1
}

impl LweSecretKey {
    /// Wrap an existing coefficient vector.
    pub fn from_container(container: Vec<u64>) -> (r: LweSecretKey)
        ensures
            r.data@ == container@,
    {
        LweSecretKey { data: container }
    }

    /// The LWE dimension: the number of key coefficients.
    pub fn lwe_dimension(&self) -> (r: LweDimension)
        ensures
            r.0 == self.data@.len(),
    {
        LweDimension(self.data.len())
    }

    /// The underlying coefficient vector.
    pub fn into_container(self) -> (r: Vec<u64>)
        ensures
            r@ == self.data@,
    {
        self.data
    }
}

/// Fill an LWE secret key with uniformly random binary coefficients: element i
/// becomes the parity of stream byte `consumed + i`.
pub fn generate_binary_lwe_secret_key(
    lwe_secret_key: &mut LweSecretKey,
    generator: &mut SecretRandomGenerator,
)
    ensures
        final(lwe_secret_key).data@.len() == old(lwe_secret_key).data@.len(),
        final(generator).stream_seed() == old(generator).stream_seed(),
        final(generator).consumed() == old(generator).consumed() + old(lwe_secret_key).data@.len(),
        forall|i: int|
            0 <= i < final(lwe_secret_key).data@.len() ==> final(lwe_secret_key).data@[i]
                == binary_word(old(generator).stream_seed(), (old(generator).consumed() + i) as nat),
        binary_seq(final(lwe_secret_key).data@),
{
    generator.fill_slice_with_random_uniform_binary(&mut lwe_secret_key.data);
}

/// Allocate a new LWE secret key and fill it with uniformly random binary
/// coefficients.
pub fn allocate_and_generate_new_binary_lwe_secret_key(
    lwe_dimension: LweDimension,
    generator: &mut SecretRandomGenerator,
) -> (r: LweSecretKey)
    ensures
        r.data@.len() == lwe_dimension.0,
        final(generator).stream_seed() == old(generator).stream_seed(),
        final(generator).consumed() == old(generator).consumed() + lwe_dimension.0,
        forall|i: int|
            0 <= i < r.data@.len() ==> r.data@[i] == binary_word(
                old(generator).stream_seed(),
                (old(generator).consumed() + i) as nat,
            ),
        binary_seq(r.data@),
{
    let mut key = LweSecretKey { data: vec_of_zeros(lwe_dimension.0) };
    generate_binary_lwe_secret_key(&mut key, generator);
    key
}

/// A vector of `len` zero words.
pub fn vec_of_zeros(len: usize) -> (r: Vec<u64>)
    ensures
        r@.len() == len,
        forall|i: int| 0 <= i < len ==> r@[i] == 0,
{
    let mut v: Vec<u64> = Vec::new();
    let mut i: usize = 0;
    while i < len
        invariant
            i <= len,
            v@.len() == i,
            forall|j: int| 0 <= j < i ==> v@[j] == 0,
        decreases len - i,
    {
        v.push(0);
        i = i + 1;
    }
    v
}

/// An LWE ciphertext: n mask words followed by one body word, all reduced
/// below the working modulus.
#[derive(Clone, Debug, PartialEq, Eq)]
pub struct LweCiphertext {
    pub data: Vec<u64>,
    pub ciphertext_modulus: CiphertextModulus,
}

impl LweCiphertext {
    /// The shape and reduction invariant of an LWE ciphertext.
    pub open spec fn well_formed(&self) -> bool {
        &&& self.data@.len() >= 1
        &&& self.ciphertext_modulus.well_formed()
        &&& reduced(self.data@, self.ciphertext_modulus.working_modulus())
    }

    /// Wrap an existing coefficient vector. Callers hand a non-empty vector of
    /// reduced coefficients.
    pub fn from_container(container: Vec<u64>, ciphertext_modulus: CiphertextModulus) -> (r:
        LweCiphertext)
        requires
            container@.len() >= 1,
            ciphertext_modulus.well_formed(),
            reduced(container@, ciphertext_modulus.working_modulus()),
        ensures
            r.data@ == container@,
            r.ciphertext_modulus == ciphertext_modulus,
            r.well_formed(),
    {
        LweCiphertext { data: container, ciphertext_modulus }
    }

    /// Allocate a zero-filled ciphertext of the given size.
    pub fn new(lwe_size: LweSize, ciphertext_modulus: CiphertextModulus) -> (r: LweCiphertext)
        requires
            lwe_size.0 >= 1,
            ciphertext_modulus.well_formed(),
        ensures
            r.data@.len() == lwe_size.0,
            r.ciphertext_modulus == ciphertext_modulus,
            r.well_formed(),
            forall|i: int| 0 <= i < lwe_size.0 ==> r.data@[i] == 0,
    {
        proof {
            crate::parameters::lemma_modulus_facts(ciphertext_modulus);
            crate::numeric::lemma_working_modulus_valid(ciphertext_modulus);
        }
        LweCiphertext { data: vec_of_zeros(lwe_size.0), ciphertext_modulus }
    }

    /// The LWE size: the total element count.
    pub fn lwe_size(&self) -> (r: LweSize)
        ensures
            r.0 == self.data@.len(),
    {
        LweSize(self.data.len())
    }

    /// The ciphertext modulus.
    pub fn ciphertext_modulus(&self) -> (r: CiphertextModulus)
        ensures
            r == self.ciphertext_modulus,
    {
        self.ciphertext_modulus
    }

    /// The body word: the last element.
    pub fn get_body(&self) -> (r: u64)
        requires
            self.data@.len() >= 1,
        ensures
            r == self.data@.last(),
    {
        self.data[self.data.len() - 1]
    }

    /// The underlying coefficient vector.
    pub fn into_container(self) -> (r: Vec<u64>)
        ensures
            r@ == self.data@,
    {
        self.data
    }
}

/// The mask of the ciphertext the encryption of `sk.len()` words yields from
/// the mask stream at position `ctr`: word i costs sixteen stream bytes.
pub open spec fn lwe_mask_seq(seed: u128, ctr: nat, m: CiphertextModulus, n: nat) -> Seq<u64> {
    Seq::new(n, |i: int| mask_word(seed, (ctr + 16 * i) as nat, m) as u64)
}

/// The ciphertext that encrypting `pt` under `sk` yields, with the mask stream
/// at `mask_ctr` and the noise stream at `noise_ctr`: the uniform mask,
/// followed by the body mask·key + pt·scaling + noise, all modulo the working
/// modulus.
pub open spec fn lwe_encrypt_spec(
    sk: Seq<u64>,
    pt: u64,
    s: StandardDev,
    m: CiphertextModulus,
    mask_seed: u128,
    mask_ctr: nat,
    noise_seed: u128,
    noise_ctr: nat,
) -> Seq<u64> {
    let w = m.working_modulus();
    let mask = lwe_mask_seq(mask_seed, mask_ctr, m, sk.len());
    mask.push(
        (((dot_mod(mask, 0, sk, 0, sk.len(), w) + pt * m.scaling_to_native_torus() + noise_word(
            noise_seed,
            noise_ctr,
            s,
            m,
        )) % w)) as u64,
    )
}

/// The phase a secret key reads out of a ciphertext: the body minus the
/// mask·key dot product, modulo the working modulus, divided by the scaling
/// factor.
pub open spec fn lwe_decrypt_spec(sk: Seq<u64>, ct: Seq<u64>, m: CiphertextModulus) -> int {
    let w = m.working_modulus();
    ((ct.last() - dot_mod(ct, 0, sk, 0, sk.len(), w)) % w) / m.scaling_to_native_torus()
}

/// Encrypt a plaintext into an existing LWE ciphertext. The result is exactly
/// `lwe_encrypt_spec` of the generator positions at the call.
pub fn encrypt_lwe_ciphertext(
    lwe_secret_key: &LweSecretKey,
    output: &mut LweCiphertext,
    encoded: Plaintext,
    noise_parameters: StandardDev,
    generator: &mut EncryptionRandomGenerator,
)
    requires
        old(output).well_formed(),
        old(output).data@.len() == lwe_secret_key.data@.len() + 1,
        binary_seq(lwe_secret_key.data@),
        encoded.0 < old(output).ciphertext_modulus.modulus(),
        noise_parameters.log2_scale <= 64,
    ensures
        final(output).ciphertext_modulus == old(output).ciphertext_modulus,
        final(output).well_formed(),
        final(output).data@ == lwe_encrypt_spec(
            lwe_secret_key.data@,
            encoded.0,
            noise_parameters,
            old(output).ciphertext_modulus,
            old(generator).mask_seed(),
            old(generator).mask_consumed(),
            old(generator).noise_seed(),
            old(generator).noise_consumed(),
        ),
        final(generator).mask_seed() == old(generator).mask_seed(),
        final(generator).noise_seed() == old(generator).noise_seed(),
        final(generator).mask_consumed() == old(generator).mask_consumed() + 16
            * lwe_secret_key.data@.len(),
        final(generator).noise_consumed() == old(generator).noise_consumed() + 8,
{
    let m = output.ciphertext_modulus;
    let n = lwe_secret_key.data.len();
    proof {
        crate::parameters::lemma_modulus_facts(m);
        crate::numeric::lemma_working_modulus_valid(m);
    }
    let w = m.get_working_modulus();
    let ghost gmask = lwe_mask_seq(
        old(generator).mask_seed(),
        old(generator).mask_consumed(),
        m,
        n as nat,
    );
    let mut i: usize = 0;
    while i < n
        invariant
            i <= n,
            n + 1 == output.data@.len(),
            output.ciphertext_modulus == m,
            m.well_formed(),
            valid_working_modulus(m.working_modulus()),
            reduced(output.data@, m.working_modulus()),
            gmask == lwe_mask_seq(
                old(generator).mask_seed(),
                old(generator).mask_consumed(),
                m,
                n as nat,
            ),
            self_generator_frame(*old(generator), *generator, (16 * i) as nat, 0),
            forall|j: int| 0 <= j < i ==> output.data@[j] == gmask[j],
        decreases n - i,
    {
        let word = generator.random_mask_word(&m);
        output.data[i] = word;
        i = i + 1;
    }
    let ghost wi = m.working_modulus();
    assert(forall|j: int| 0 <= j < n ==> output.data@[j] == gmask[j]);
    proof {
        lemma_binary_reduced(lwe_secret_key.data@, wi);
        lemma_dot_prefix_agree(output.data@, gmask, lwe_secret_key.data@, n as nat, wi);
        crate::numeric::lemma_dot_mod_bound(gmask, 0, lwe_secret_key.data@, 0, n as nat, wi);
        crate::random::lemma_scaled_residue_bound(encoded.0 as int, m);
    }
    let dot = dot_product_mod(&output.data, 0, &lwe_secret_key.data, 0, n, w);
    let f = m.get_scaling_to_native_torus();
    proof {
        vstd::arithmetic::mul::lemma_mul_inequality(
            encoded.0 as int,
            m.modulus() - 1,
            m.scaling_to_native_torus(),
        );
    }
    let encoded_scaled: u64 = ((encoded.0 as u128) * (f as u128)) as u64;
    let noise = generator.random_noise_word(noise_parameters, &m);
    let body = add_mod(add_mod(dot, encoded_scaled, w), noise, w);
    proof {
        let total = dot_mod(gmask, 0, lwe_secret_key.data@, 0, n as nat, wi) + encoded.0
            * m.scaling_to_native_torus() + noise_word(
            old(generator).noise_seed(),
            old(generator).noise_consumed(),
            noise_parameters,
            m,
        );
        lemma_three_way_add_mod(
            dot_mod(gmask, 0, lwe_secret_key.data@, 0, n as nat, wi),
            encoded.0 * m.scaling_to_native_torus(),
            noise_word(
                old(generator).noise_seed(),
                old(generator).noise_consumed(),
                noise_parameters,
                m,
            ),
            wi,
        );
    }
    let last = output.data.len() - 1;
    output.data[last] = body;
    proof {
        assert(output.data@ =~= lwe_encrypt_spec(
            lwe_secret_key.data@,
            encoded.0,
            noise_parameters,
            m,
            old(generator).mask_seed(),
            old(generator).mask_consumed(),
            old(generator).noise_seed(),
            old(generator).noise_consumed(),
        ));
    }
}

/// The two generator streams advanced by exactly the given byte counts, seeds
/// kept.
pub open spec fn self_generator_frame(
    before: EncryptionRandomGenerator,
    after: EncryptionRandomGenerator,
    mask_bytes: nat,
    noise_bytes: nat,
) -> bool {
    &&& after.mask_seed() == before.mask_seed()
    &&& after.noise_seed() == before.noise_seed()
    &&& after.mask_consumed() == before.mask_consumed() + mask_bytes
    &&& after.noise_consumed() == before.noise_consumed() + noise_bytes
}

/// A binary sequence is reduced under any working modulus.
pub proof fn lemma_binary_reduced(s: Seq<u64>, w: int)
    requires
        binary_seq(s),
        w >= 2,
    ensures
        reduced(s, w),
{
}

/// Two sequences that agree on their first n elements have the same n-element
/// dot product against any third sequence.
pub proof fn lemma_dot_prefix_agree(a: Seq<u64>, b: Seq<u64>, s: Seq<u64>, n: nat, w: int)
    requires
        forall|j: int| 0 <= j < n ==> a[j] == b[j],
        n <= a.len(),
        n <= b.len(),
    ensures
        dot_mod(a, 0, s, 0, n, w) == dot_mod(b, 0, s, 0, n, w),
    decreases n,
{
    if n > 0 {
        lemma_dot_prefix_agree(a, b, s, (n - 1) as nat, w);
    }
}

/// ((a % w + b) % w + c) % w == (a + b + c) % w for a already reduced.
pub proof fn lemma_three_way_add_mod(a: int, b: int, c: int, w: int)
    requires
        w >= 2,
        0 <= a < w,
    ensures
        (((a + b) % w + c) % w) == (a + b + c) % w,
{
    vstd::arithmetic::div_mod::lemma_add_mod_noop(a + b, c, w);
    vstd::arithmetic::div_mod::lemma_mod_twice(a + b, w);
    vstd::arithmetic::div_mod::lemma_add_mod_noop((a + b) % w, c, w);
    vstd::arithmetic::div_mod::lemma_mod_twice(c, w);
}

/// Decrypt an LWE ciphertext: the body minus the mask·key dot product, carried
/// back from the native torus by the scaling factor.
pub fn decrypt_lwe_ciphertext(lwe_secret_key: &LweSecretKey, lwe_ciphertext: &LweCiphertext) -> (r:
    Plaintext)
    requires
        lwe_ciphertext.well_formed(),
        lwe_ciphertext.data@.len() == lwe_secret_key.data@.len() + 1,
        binary_seq(lwe_secret_key.data@),
    ensures
        r.0 == lwe_decrypt_spec(
            lwe_secret_key.data@,
            lwe_ciphertext.data@,
            lwe_ciphertext.ciphertext_modulus,
        ),
{
    let m = lwe_ciphertext.ciphertext_modulus;
    proof {
        crate::parameters::lemma_modulus_facts(m);
        crate::numeric::lemma_working_modulus_valid(m);
        lemma_binary_reduced(lwe_secret_key.data@, m.working_modulus());
    }
    let w = m.get_working_modulus();
    let n = lwe_secret_key.data.len();
    let dot = dot_product_mod(&lwe_ciphertext.data, 0, &lwe_secret_key.data, 0, n, w);
    let body = lwe_ciphertext.data[n];
    let phase = sub_mod(body, dot, w);
    let f = m.get_scaling_to_native_torus();
    Plaintext(phase / f)
}

/// Decrypting a fresh encryption returns the plaintext plus the signed noise
/// sample, modulo the ciphertext modulus: the mask·key products cancel
/// exactly.
pub proof fn lemma_lwe_phase(
    sk: Seq<u64>,
    pt: u64,
    s: StandardDev,
    m: CiphertextModulus,
    mask_seed: u128,
    mask_ctr: nat,
    noise_seed: u128,
    noise_ctr: nat,
)
    requires
        binary_seq(sk),
        m.well_formed(),
        m.modulus() == crate::parameters::native_modulus(),
        pt < m.modulus(),
    ensures
        lwe_decrypt_spec(
            sk,
            lwe_encrypt_spec(sk, pt, s, m, mask_seed, mask_ctr, noise_seed, noise_ctr),
            m,
        ) == (pt + crate::random::noise_value(noise_seed, noise_ctr, s)) % m.modulus(),
    decreases 0int,
{
    crate::parameters::lemma_modulus_facts(m);
    vstd::arithmetic::mul::lemma_mul_basics(m.modulus());
    let w = m.working_modulus();
    let n = sk.len() as int;
    let mask = lwe_mask_seq(mask_seed, mask_ctr, m, sk.len());
    let ct = lwe_encrypt_spec(sk, pt, s, m, mask_seed, mask_ctr, noise_seed, noise_ctr);
    let dot = dot_mod(mask, 0, sk, 0, sk.len(), w);
    let nw = noise_word(noise_seed, noise_ctr, s, m);
    // the dot product over the ciphertext prefix equals the one over the mask
    assert(dot_mod(ct, 0, sk, 0, sk.len(), w) == dot) by {
        assert(forall|j: int| 0 <= j < sk.len() ==> ct[j] == mask[j]);
        lemma_dot_prefix_agree(ct, mask, sk, sk.len(), w);
    }
    crate::numeric::lemma_dot_mod_bound(mask, 0, sk, 0, sk.len(), w);
    let body = (dot + pt * m.scaling_to_native_torus() + nw) % w;
    assert(ct.last() == (body as u64));
    // body - dot cancels to the encoded plaintext plus the noise word
    assert((body - dot) % w == (pt * m.scaling_to_native_torus() + nw) % w) by {
        vstd::arithmetic::div_mod::lemma_sub_mod_noop(
            dot + pt * m.scaling_to_native_torus() + nw,
            dot,
            w,
        );
        vstd::arithmetic::div_mod::lemma_mod_twice(dot + pt * m.scaling_to_native_torus() + nw, w);
        vstd::arithmetic::div_mod::lemma_small_mod(dot as nat, w as nat);
        vstd::arithmetic::div_mod::lemma_mod_twice(dot, w);
    }
    // under the native modulus the scaling is one and the working modulus is q
    assert(m.scaling_to_native_torus() == 1);
    assert(w == m.modulus());
    let nv = crate::random::noise_value(noise_seed, noise_ctr, s);
    assert(nw == nv % w);
    assert((pt * 1 + nv % w) % w == (pt + nv) % w) by {
        vstd::arithmetic::mul::lemma_mul_basics(pt as int);
        vstd::arithmetic::div_mod::lemma_add_mod_noop(pt as int, nv, w);
        vstd::arithmetic::div_mod::lemma_mod_twice(nv, w);
        vstd::arithmetic::div_mod::lemma_small_mod(pt as nat, w as nat);
    }
    assert(lwe_decrypt_spec(sk, ct, m) == ((body - dot) % w) / 1) by {
        vstd::arithmetic::div_mod::lemma_mod_bound(body - dot, w);
    }
    vstd::arithmetic::div_mod::lemma_div_basics((pt + nv) % w);
}

/// Rounding a grid point plus a small disturbance recovers the grid point:
/// the round-trip decoding step.
pub proof fn lemma_round_recovers_grid(pt: u64, e: int, b: nat, l: nat)
    requires
        crate::decomposition::native_params_ok(b, l),
        pt as int % (pow2((64 - b * l) as nat) as int) == 0,
        e * 2 < pow2((64 - b * l) as nat),
        0 - (e * 2) < pow2((64 - b * l) as nat),
    ensures
        crate::decomposition::closest_native((((pt + e) % crate::decomposition::word_modulus())
            as u64), b, l) == pt,
    decreases 0int,
{
    let step = pow2((64 - b * l) as nat) as int;
    let wm = crate::decomposition::word_modulus();
    lemma_pow2_pos((64 - b * l) as nat);
    lemma_pow2_pos((b * l) as nat);
    assert(step * (crate::decomposition::bpow(b, l)) == wm) by {
        lemma_pow2_adds((64 - b * l) as nat, (b * l) as nat);
        lemma2_to64();
        lemma_pow2_adds(32, 32);
        lemma2_to64_rest();
    }
    let v = (pt + e) % wm;
    vstd::arithmetic::div_mod::lemma_mod_bound(pt + e, wm);
    let d = (pt + e) / wm;
    vstd::arithmetic::div_mod::lemma_fundamental_div_mod(pt + e, wm);
    let k = pt as int / step;
    vstd::arithmetic::div_mod::lemma_fundamental_div_mod(pt as int, step);
    assert(pt == step * k);
    // the representation v = k'·step + (e + step/2) with k' shifted by the wrap
    let kp = k - d * crate::decomposition::bpow(b, l);
    assert(v == kp * step + e) by {
        assert(d * wm == (d * crate::decomposition::bpow(b, l)) * step) by {
            vstd::arithmetic::mul::lemma_mul_is_associative(
                d,
                crate::decomposition::bpow(b, l),
                step,
            );
            vstd::arithmetic::mul::lemma_mul_is_commutative(
                step,
                crate::decomposition::bpow(b, l),
            );
        }
        assert(kp * step == k * step - (d * crate::decomposition::bpow(b, l)) * step) by {
            vstd::arithmetic::mul::lemma_mul_is_distributive_sub_other_way(
                step,
                k,
                d * crate::decomposition::bpow(b, l),
            );
        }
        vstd::arithmetic::mul::lemma_mul_is_commutative(step, k);
    }
    // the rounded quotient is exactly k'
    assert(crate::decomposition::round_div(v, step) == kp) by {
        assert(0 <= e + step / 2 < step);
        assert(kp >= 0) by {
            if kp <= -1 {
                vstd::arithmetic::mul::lemma_mul_inequality(kp, -1, step);
                vstd::arithmetic::mul::lemma_mul_is_commutative(kp, step);
                vstd::arithmetic::mul::lemma_mul_is_commutative(-1, step);
                vstd::arithmetic::mul::lemma_mul_basics(step);
                assert(false);
            }
        }
        vstd::arithmetic::div_mod::lemma_fundamental_div_mod_converse(
            v + step / 2,
            step,
            kp,
            e + step / 2,
        );
        vstd::arithmetic::mul::lemma_mul_is_commutative(kp, step);
    }
    // re-scaling lands back on the grid point, modulo the word
    assert((kp * step) % wm == pt as int % wm) by {
        assert(kp * step == pt - d * wm) by {
            assert(d * wm == (d * crate::decomposition::bpow(b, l)) * step) by {
                vstd::arithmetic::mul::lemma_mul_is_associative(
                    d,
                    crate::decomposition::bpow(b, l),
                    step,
                );
                vstd::arithmetic::mul::lemma_mul_is_commutative(
                    step,
                    crate::decomposition::bpow(b, l),
                );
            }
            assert(kp * step == k * step - (d * crate::decomposition::bpow(b, l)) * step) by {
                vstd::arithmetic::mul::lemma_mul_is_distributive_sub_other_way(
                    step,
                    k,
                    d * crate::decomposition::bpow(b, l),
                );
            }
            vstd::arithmetic::mul::lemma_mul_is_commutative(step, k);
        }
        vstd::arithmetic::div_mod::lemma_mod_multiples_vanish(0 - d, pt as int, wm);
    }
    vstd::arithmetic::div_mod::lemma_small_mod(pt as nat, wm as nat);
}

/// The round-trip correctness of the native-modulus LWE encryption: whenever
/// the plaintext sits on the representable grid of a decomposition and the
/// dispersion keeps the noise under half a grid step, decrypting a fresh
/// encryption and rounding to the closest representable value returns exactly
/// the plaintext.
pub proof fn lemma_lwe_round_trip(
    sk: Seq<u64>,
    pt: u64,
    s: StandardDev,
    m: CiphertextModulus,
    mask_seed: u128,
    mask_ctr: nat,
    noise_seed: u128,
    noise_ctr: nat,
    b: nat,
    l: nat,
)
    requires
        binary_seq(sk),
        m.well_formed(),
        m.modulus() == crate::parameters::native_modulus(),
        crate::decomposition::native_params_ok(b, l),
        pt as int % (pow2((64 - b * l) as nat) as int) == 0,
        2040 * pow2(s.log2_scale as nat) < pow2((64 - b * l) as nat),
    ensures
        crate::decomposition::closest_native(
            (lwe_decrypt_spec(
                sk,
                lwe_encrypt_spec(sk, pt, s, m, mask_seed, mask_ctr, noise_seed, noise_ctr),
                m,
            ) as u64),
            b,
            l,
        ) == pt,
    decreases 0int,
{
    crate::parameters::lemma_modulus_facts(m);
    lemma_lwe_phase(sk, pt, s, m, mask_seed, mask_ctr, noise_seed, noise_ctr);
    let nv = crate::random::noise_value(noise_seed, noise_ctr, s);
    // the noise value is a centered byte sum scaled by a power of two, so its
    // magnitude stays within 1020·2^scale, under half a grid step
    crate::random::lemma_byte_sum_bound(noise_seed, noise_ctr, 8);
    lemma_pow2_pos(s.log2_scale as nat);
    assert(nv * 2 < pow2((64 - b * l) as nat) && 0 - (nv * 2) < pow2((64 - b * l) as nat)) by {
        let c = crate::random::byte_sum(noise_seed, noise_ctr, 8) - 1020;
        assert(0 - 1020 <= c <= 1020);
        vstd::arithmetic::mul::lemma_mul_inequality(c, 1020, pow2(s.log2_scale as nat) as int);
        vstd::arithmetic::mul::lemma_mul_inequality(0 - 1020, c, pow2(s.log2_scale as nat) as int);
        vstd::arithmetic::mul::lemma_mul_is_commutative(c, pow2(s.log2_scale as nat) as int);
        vstd::arithmetic::mul::lemma_mul_is_commutative(1020, pow2(s.log2_scale as nat) as int);
        vstd::arithmetic::mul::lemma_mul_is_commutative(
            0 - 1020,
            pow2(s.log2_scale as nat) as int,
        );
    }
    assert(m.modulus() == crate::decomposition::word_modulus()) by {
        lemma2_to64();
        lemma_pow2_adds(32, 32);
        lemma2_to64_rest();
    }
    lemma_round_recovers_grid(pt, nv, b, l);
}

/// Every word of a fresh encryption is a multiple of the modulus's scaling
/// factor to the native torus: the mask words, the encoded plaintext, the
/// noise word, and therefore the body, all carry the factor.
pub proof fn lemma_encrypted_words_carry_scaling(
    sk: Seq<u64>,
    pt: u64,
    s: StandardDev,
    m: CiphertextModulus,
    mask_seed: u128,
    mask_ctr: nat,
    noise_seed: u128,
    noise_ctr: nat,
    i: int,
)
    requires
        binary_seq(sk),
        m.well_formed(),
        pt < m.modulus(),
        0 <= i <= sk.len(),
    ensures
        (lwe_encrypt_spec(sk, pt, s, m, mask_seed, mask_ctr, noise_seed, noise_ctr)[i] as int) % (
        m.scaling_to_native_torus()) == 0,
    decreases 0int,
{
    crate::parameters::lemma_modulus_facts(m);
    let f = m.scaling_to_native_torus();
    let q = m.modulus();
    let w = m.working_modulus();
    let mask = lwe_mask_seq(mask_seed, mask_ctr, m, sk.len());
    let ct = lwe_encrypt_spec(sk, pt, s, m, mask_seed, mask_ctr, noise_seed, noise_ctr);
    if i < sk.len() {
        // a mask word is a residue times the scaling factor
        let x = (crate::random::le_bytes(mask_seed, (mask_ctr + 16 * i) as nat, 16) as int) % q;
        assert(ct[i] == (x * f) as u64);
        vstd::arithmetic::div_mod::lemma_mod_bound(
            crate::random::le_bytes(mask_seed, (mask_ctr + 16 * i) as nat, 16) as int,
            q,
        );
        crate::random::lemma_scaled_residue_bound(x, m);
        vstd::arithmetic::div_mod::lemma_mod_multiples_basic(x, f);
        vstd::arithmetic::mul::lemma_mul_is_commutative(x, f);
    } else {
        let dot = dot_mod(mask, 0, sk, 0, sk.len(), w);
        let nw = crate::random::noise_word(noise_seed, noise_ctr, s, m);
        let nv = crate::random::noise_value(noise_seed, noise_ctr, s);
        assert(ct[i] == ((dot + pt * f + nw) % w) as u64);
        assert forall|j: int| 0 <= j < sk.len() implies (#[trigger] mask[j] as int) % f == 0 by {
            let xj = (crate::random::le_bytes(mask_seed, (mask_ctr + 16 * j) as nat, 16) as int)
                % q;
            assert(mask[j] == (xj * f) as u64);
            vstd::arithmetic::div_mod::lemma_mod_bound(
                crate::random::le_bytes(mask_seed, (mask_ctr + 16 * j) as nat, 16) as int,
                q,
            );
            crate::random::lemma_scaled_residue_bound(xj, m);
            vstd::arithmetic::div_mod::lemma_mod_multiples_basic(xj, f);
            vstd::arithmetic::mul::lemma_mul_is_commutative(xj, f);
        }
        lemma_dot_carries_scaling(mask, sk, sk.len(), m);
        crate::numeric::lemma_dot_mod_bound(mask, 0, sk, 0, sk.len(), w);
        // the noise word carries the factor
        assert(nw % f == 0) by {
            vstd::arithmetic::div_mod::lemma_mod_multiples_basic(nv % q, f);
            vstd::arithmetic::mul::lemma_mul_is_commutative(nv % q, f);
        }
        // the encoded plaintext carries the factor
        assert((pt * f) % f == 0) by {
            vstd::arithmetic::div_mod::lemma_mod_multiples_basic(pt as int, f);
        }
        assert((pt * f + nw) % f == 0) by {
            lemma_multiple_add(pt * f, nw, f);
        }
        // a sum of multiples of f, reduced modulo q·f, stays a multiple of f
        lemma_sum_of_multiples_mod(dot, pt * f + nw, f, q);
    }
}

/// A dot product of scaled mask words with any key is a multiple of the
/// scaling factor.
pub proof fn lemma_dot_carries_scaling(
    mask: Seq<u64>,
    sk: Seq<u64>,
    len: nat,
    m: CiphertextModulus,
)
    requires
        m.well_formed(),
        len <= mask.len(),
        len <= sk.len(),
        forall|j: int| 0 <= j < len ==> (#[trigger] mask[j] as int) % m.scaling_to_native_torus()
            == 0,
    ensures
        dot_mod(mask, 0, sk, 0, len, m.working_modulus()) % m.scaling_to_native_torus() == 0,
    decreases len,
{
    crate::parameters::lemma_modulus_facts(m);
    let f = m.scaling_to_native_torus();
    let q = m.modulus();
    let w = m.working_modulus();
    if len == 0 {
        vstd::arithmetic::div_mod::lemma_small_mod(0nat, f as nat);
    } else {
        lemma_dot_carries_scaling(mask, sk, (len - 1) as nat, m);
        let prev = dot_mod(mask, 0, sk, 0, (len - 1) as nat, w);
        let term = mask[len - 1] as int * sk[len - 1] as int;
        // the product of a multiple of f with anything is a multiple of f
        assert(term % f == 0) by {
            let x = mask[len - 1] as int / f;
            vstd::arithmetic::div_mod::lemma_fundamental_div_mod(mask[len - 1] as int, f);
            assert(mask[len - 1] as int == f * x);
            assert(term == f * (x * sk[len - 1] as int)) by {
                vstd::arithmetic::mul::lemma_mul_is_associative(f, x, sk[len - 1] as int);
            }
            vstd::arithmetic::div_mod::lemma_mod_multiples_basic(x * sk[len - 1] as int, f);
            vstd::arithmetic::mul::lemma_mul_is_commutative(x * sk[len - 1] as int, f);
        }
        crate::numeric::lemma_dot_mod_bound(mask, 0, sk, 0, (len - 1) as nat, w);
        lemma_multiple_add(prev, term, f);
        lemma_sum_of_multiples_mod(prev, term, f, q);
    }
}

/// The sum of two multiples of f is a multiple of f.
pub proof fn lemma_multiple_add(a: int, c: int, f: int)
    requires
        f >= 1,
        a % f == 0,
        c % f == 0,
    ensures
        (a + c) % f == 0,
    decreases 0int,
{
    vstd::arithmetic::div_mod::lemma_add_mod_noop(a, c, f);
    vstd::arithmetic::div_mod::lemma_small_mod(0nat, f as nat);
}

/// Reducing a sum of multiples of f modulo q·f keeps it a multiple of f.
pub proof fn lemma_sum_of_multiples_mod(a: int, c: int, f: int, q: int)
    requires
        f >= 1,
        q >= 2,
        a % f == 0,
        c % f == 0,
    ensures
        ((a + c) % (q * f)) % f == 0,
    decreases 0int,
{
    lemma_multiple_add(a, c, f);
    let t = a + c;
    let d = t / (q * f);
    vstd::arithmetic::mul::lemma_mul_strictly_positive(q, f);
    vstd::arithmetic::div_mod::lemma_fundamental_div_mod(t, q * f);
    // the remainder is the sum minus a multiple of q·f, itself a multiple of f
    assert((t % (q * f)) == t - (q * f) * d);
    assert(((q * f) * d) % f == 0) by {
        assert((q * f) * d == f * (q * d)) by {
            vstd::arithmetic::mul::lemma_mul_is_commutative(q, f);
            vstd::arithmetic::mul::lemma_mul_is_associative(f, q, d);
        }
        vstd::arithmetic::div_mod::lemma_mod_multiples_basic(q * d, f);
        vstd::arithmetic::mul::lemma_mul_is_commutative(q * d, f);
    }
    assert((t - (q * f) * d) % f == 0) by {
        let u = (q * f) * d;
        let tu = t / f;
        let uu = u / f;
        vstd::arithmetic::div_mod::lemma_fundamental_div_mod(t, f);
        vstd::arithmetic::div_mod::lemma_fundamental_div_mod(u, f);
        assert(t - u == f * (tu - uu)) by {
            vstd::arithmetic::mul::lemma_mul_is_distributive_sub(f, tu, uu);
        }
        vstd::arithmetic::div_mod::lemma_mod_multiples_basic(tu - uu, f);
        vstd::arithmetic::mul::lemma_mul_is_commutative(tu - uu, f);
    }
}

/// A list of plaintexts.
#[derive(Clone, Debug, PartialEq, Eq)]
pub struct PlaintextList {
    pub data: Vec<u64>,
}

impl PlaintextList {
    /// A list of `count` copies of `fill_with`.
    pub fn new(fill_with: u64, count: PlaintextCount) -> (r: PlaintextList)
        ensures
            r.data@.len() == count.0,
            forall|i: int| 0 <= i < count.0 ==> r.data@[i] == fill_with,
    {
        let mut v: Vec<u64> = Vec::new();
        let mut i: usize = 0;
        while i < count.0
            invariant
                i <= count.0,
                v@.len() == i,
                forall|j: int| 0 <= j < i ==> v@[j] == fill_with,
            decreases count.0 - i,
        {
            v.push(fill_with);
            i = i + 1;
        }
        PlaintextList { data: v }
    }

    /// The number of plaintexts.
    pub fn plaintext_count(&self) -> (r: PlaintextCount)
        ensures
            r.0 == self.data@.len(),
    {
        PlaintextCount(self.data.len())
    }

    /// The underlying vector.
    pub fn into_container(self) -> (r: Vec<u64>)
        ensures
            r@ == self.data@,
    {
        self.data
    }
}

/// A list of LWE ciphertexts sharing one flat coefficient vector: ciphertext t
/// occupies the words [t·lwe_size, (t+1)·lwe_size).
#[derive(Clone, Debug, PartialEq, Eq)]
pub struct LweCiphertextList {
    pub data: Vec<u64>,
    pub lwe_size: LweSize,
    pub ciphertext_modulus: CiphertextModulus,
}

impl LweCiphertextList {
    /// The shape and reduction invariant of a ciphertext list.
    pub open spec fn well_formed(&self) -> bool {
        &&& self.lwe_size.0 >= 1
        &&& self.data@.len() as int % (self.lwe_size.0 as int) == 0
        &&& self.ciphertext_modulus.well_formed()
        &&& reduced(self.data@, self.ciphertext_modulus.working_modulus())
    }

    /// The number of ciphertexts the list holds.
    pub open spec fn spec_count(&self) -> int {
        self.data@.len() as int / self.lwe_size.0 as int
    }

    /// Ciphertext t of the list, as a coefficient sequence.
    pub open spec fn ct(&self, t: int) -> Seq<u64> {
        self.data@.subrange(t * self.lwe_size.0 as int, (t + 1) * self.lwe_size.0 as int)
    }

    /// Allocate a zero-filled list of `count` ciphertexts of `lwe_size` words.
    pub fn new(
        lwe_size: LweSize,
        count: LweCiphertextCount,
        ciphertext_modulus: CiphertextModulus,
    ) -> (r: LweCiphertextList)
        requires
            lwe_size.0 >= 1,
            lwe_size.0 * count.0 <= usize::MAX,
            ciphertext_modulus.well_formed(),
        ensures
            r.lwe_size == lwe_size,
            r.ciphertext_modulus == ciphertext_modulus,
            r.data@.len() == lwe_size.0 * count.0,
            r.well_formed(),
            r.spec_count() == count.0,
            forall|i: int| 0 <= i < r.data@.len() ==> r.data@[i] == 0,
    {
        let data = vec_of_zeros(lwe_size.0 * count.0);
        proof {
            crate::parameters::lemma_modulus_facts(ciphertext_modulus);
            crate::numeric::lemma_working_modulus_valid(ciphertext_modulus);
            vstd::arithmetic::mul::lemma_mul_is_commutative(count.0 as int, lwe_size.0 as int);
            vstd::arithmetic::div_mod::lemma_mod_multiples_basic(count.0 as int, lwe_size.0 as int);
            vstd::arithmetic::div_mod::lemma_div_multiples_vanish(
                count.0 as int,
                lwe_size.0 as int,
            );
            assert(data@.len() as int == count.0 as int * lwe_size.0 as int);
        }
        LweCiphertextList { data, lwe_size, ciphertext_modulus }
    }

    /// The number of ciphertexts.
    pub fn lwe_ciphertext_count(&self) -> (r: LweCiphertextCount)
        requires
            self.lwe_size.0 >= 1,
        ensures
            r.0 == self.spec_count(),
    {
        LweCiphertextCount(self.data.len() / self.lwe_size.0)
    }

    /// The size of each ciphertext.
    pub fn lwe_size(&self) -> (r: LweSize)
        ensures
            r == self.lwe_size,
    {
        self.lwe_size
    }

    /// The ciphertext modulus.
    pub fn ciphertext_modulus(&self) -> (r: CiphertextModulus)
        ensures
            r == self.ciphertext_modulus,
    {
        self.ciphertext_modulus
    }
}

} // verus!

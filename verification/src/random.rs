//! The random generation layer: a deterministic byte stream per seed, and the
//! secret-coefficient and encryption-noise generators built on it.
//!
//! The byte stream itself comes from the `concrete-csprng` crate (an AES-CTR
//! construction): byte `i` of the stream of a seed is named `prng_byte(seed, i)`
//! and everything sampled from the stream — uniform words, binary secret
//! coefficients, bell-shaped noise — is defined on top of that name by verified
//! code. Two generators built from the same seed therefore yield provably
//! identical samples.

use vstd::prelude::*;
use vstd::arithmetic::power2::*;

verus! {

/// Byte `index` of the deterministic pseudo-random stream that `seed` keys.
pub uninterp spec fn prng_byte(seed: u128, index: nat) -> u8;

#[verifier::external_type_specification]
#[verifier::external_body]
pub struct ExSoftwareRandomGenerator(concrete_csprng::generators::SoftwareRandomGenerator);

/// A cursor into the pseudo-random byte stream of one seed.
pub struct ByteRandomGenerator {
    inner: concrete_csprng::generators::SoftwareRandomGenerator,
    seed: Ghost<u128>,
    count: Ghost<nat>,
}

impl ByteRandomGenerator {
    /// The seed that keys the stream this cursor walks.
    pub closed spec fn seed(&self) -> u128 {
        self.seed@
    }

    /// How many bytes of the stream were already handed out.
    pub closed spec fn count(&self) -> nat {
        self.count@
    }

    /// Relies on `SoftwareRandomGenerator::new` of concrete-csprng: a fresh
    /// AES-CTR stream, deterministic in the seed, positioned at its first byte.
    #[verifier::external_body]
    pub fn new(seed: u128) -> (r: ByteRandomGenerator)
        ensures
            r.seed() == seed,
            r.count() == 0,
    {
        ByteRandomGenerator {
            inner: <concrete_csprng::generators::SoftwareRandomGenerator as concrete_csprng::generators::RandomGenerator>::new(
                concrete_csprng::seeders::Seed(seed),
            ),
            seed: Ghost(seed),
            count: Ghost(0nat),
        }
    }

    /// Relies on `RandomGenerator::next_byte` of concrete-csprng: the next byte
    /// of the stream, a function of the seed and the position alone. The stream
    /// is bounded at 2^132 bytes, unreachable by any sequence of calls a
    /// program can make, so the cursor never runs out.
    #[verifier::external_body]
    #[inline]
    pub fn next_byte(&mut self) -> (r: u8)
        ensures
            final(self).seed() == old(self).seed(),
            final(self).count() == old(self).count() + 1,
            r == prng_byte(old(self).seed(), old(self).count()),
    {
        <concrete_csprng::generators::SoftwareRandomGenerator as concrete_csprng::generators::RandomGenerator>::next_byte(&mut self.inner).unwrap()
    }
}

/// The little-endian value of `k` stream bytes starting at `ctr`.
pub open spec fn le_bytes(seed: u128, ctr: nat, k: nat) -> nat
    decreases k,
{
    if k == 0 {
        0
    } else {
        (le_bytes(seed, ctr, (k - 1) as nat) + prng_byte(seed, (ctr + k - 1) as nat) * pow2(
            (8 * (k - 1)) as nat,
        )) as nat
    }
}

/// `k` stream bytes are below 2^(8k).
pub proof fn lemma_le_bytes_bound(seed: u128, ctr: nat, k: nat)
    ensures
        le_bytes(seed, ctr, k) < pow2((8 * k) as nat),
    decreases k,
{
    if k == 0 {
        lemma2_to64();
    } else {
        lemma_le_bytes_bound(seed, ctr, (k - 1) as nat);
        lemma_pow2_adds((8 * (k - 1)) as nat, 8);
        lemma2_to64();
        assert(prng_byte(seed, (ctr + k - 1) as nat) <= 255);
        vstd::arithmetic::mul::lemma_mul_inequality(
            prng_byte(seed, (ctr + k - 1) as nat) as int,
            255,
            pow2((8 * (k - 1)) as nat) as int,
        );
        assert(le_bytes(seed, ctr, k) <= pow2((8 * (k - 1)) as nat) - 1 + 255 * pow2(
            (8 * (k - 1)) as nat,
        ));
        assert(pow2((8 * k) as nat) == 256 * pow2((8 * (k - 1)) as nat));
    }
}

impl ByteRandomGenerator {
    /// Read `k <= 16` bytes of the stream as a little-endian integer.
    pub fn next_le_bytes(&mut self, k: usize) -> (r: u128)
        requires
            k <= 16,
        ensures
            final(self).seed() == old(self).seed(),
            final(self).count() == old(self).count() + k,
            r == le_bytes(old(self).seed(), old(self).count(), k as nat),
    {
        let mut acc: u128 = 0;
        let mut j: usize = 0;
        proof {
            lemma_le_bytes_bound(self.seed(), self.count(), 0);
        }
        while j < k
            invariant
                j <= k <= 16,
                self.seed() == old(self).seed(),
                self.count() == old(self).count() + j,
                acc == le_bytes(old(self).seed(), old(self).count(), j as nat),
                acc < pow2((8 * j) as nat),
            decreases k - j,
        {
            let b = self.next_byte();
            let p = pow2_u128(8 * j);
            proof {
                lemma_le_bytes_bound(old(self).seed(), old(self).count(), (j + 1) as nat);
                lemma_pow2_u128_bound(j as nat);
                vstd::arithmetic::mul::lemma_mul_inequality(b as int, 255, p as int);
                lemma_pow2_adds((8 * j) as nat, 8);
                lemma2_to64();
                lemma_pow2_adds(64, 64);
                lemma2_to64_rest();
                assert(acc + (b as u128) * p < 256 * pow2((8 * j) as nat));
                assert(256 * pow2((8 * j) as nat) == pow2((8 * (j + 1)) as nat));
            }
            acc = acc + (b as u128) * p;
            j = j + 1;
        }
        acc
    }
}

/// 2^e as a 128-bit word, for exponents at most 120.
pub fn pow2_u128(e: usize) -> (r: u128)
    requires
        e <= 120,
    ensures
        r == pow2(e as nat),
{
    let mut r: u128 = 1;
    let mut i: usize = 0;
    proof {
        lemma2_to64();
    }
    while i < e
        invariant
            i <= e <= 120,
            r == pow2(i as nat),
        decreases e - i,
    {
        proof {
            if (i as nat) < 120 {
                lemma_pow2_strictly_increases(i as nat, 120);
            }
            lemma_pow2_adds(64, 56);
            lemma_pow2_adds(i as nat, 1);
            lemma2_to64();
            lemma2_to64_rest();
        }
        r = r * 2;
        i = i + 1;
    }
    r
}

/// The sum of k stream bytes starting at ctr.
pub open spec fn byte_sum(seed: u128, ctr: nat, k: nat) -> int
    decreases k,
{
    if k == 0 {
        0
    } else {
        byte_sum(seed, ctr, (k - 1) as nat) + prng_byte(seed, (ctr + k - 1) as nat)
    }
}

/// The sum of k stream bytes lies between 0 and 255 k.
pub proof fn lemma_byte_sum_bound(seed: u128, ctr: nat, k: nat)
    ensures
        0 <= byte_sum(seed, ctr, k) <= 255 * k,
    decreases k,
{
    if k > 0 {
        lemma_byte_sum_bound(seed, ctr, (k - 1) as nat);
    }
}

/// One uniform mask word: sixteen stream bytes reduced modulo q, carried to
/// the native torus by the scaling factor. The word is a multiple of the
/// scaling factor below the working modulus.
pub open spec fn mask_word(seed: u128, ctr: nat, m: crate::parameters::CiphertextModulus) -> int {
    ((le_bytes(seed, ctr, 16) as int) % m.modulus()) * m.scaling_to_native_torus()
}

/// One binary secret coefficient: the parity of one stream byte.
pub open spec fn binary_word(seed: u128, ctr: nat) -> u64 {
    (prng_byte(seed, ctr) % 2) as u64
}

/// The signed value of one bell-shaped noise sample: a centered sum of eight
/// stream bytes, scaled by the dispersion parameter.
pub open spec fn noise_value(seed: u128, ctr: nat, s: crate::parameters::StandardDev) -> int {
    (byte_sum(seed, ctr, 8) - 1020) * pow2(s.log2_scale as nat)
}

/// One noise word: the noise value reduced modulo q and carried to the native
/// torus by the scaling factor.
pub open spec fn noise_word(
    seed: u128,
    ctr: nat,
    s: crate::parameters::StandardDev,
    m: crate::parameters::CiphertextModulus,
) -> int {
    (noise_value(seed, ctr, s) % m.modulus()) * m.scaling_to_native_torus()
}

/// A residue modulo q carried by the scaling factor stays below the working
/// modulus.
pub proof fn lemma_scaled_residue_bound(x: int, m: crate::parameters::CiphertextModulus)
    requires
        m.well_formed(),
        0 <= x < m.modulus(),
    ensures
        0 <= x * m.scaling_to_native_torus() < m.working_modulus(),
        x * m.scaling_to_native_torus() + m.scaling_to_native_torus() <= m.working_modulus(),
{
    crate::parameters::lemma_modulus_facts(m);
    let f = m.scaling_to_native_torus();
    vstd::arithmetic::mul::lemma_mul_inequality(x, m.modulus() - 1, f);
    vstd::arithmetic::mul::lemma_mul_is_distributive_sub_other_way(f, m.modulus(), 1);
    vstd::arithmetic::mul::lemma_mul_nonnegative(x, f);
}

/// A generator for uniformly random binary secret-key coefficients.
pub struct SecretRandomGenerator {
    gen: ByteRandomGenerator,
}

impl SecretRandomGenerator {
    /// The seed of the underlying stream.
    pub closed spec fn stream_seed(&self) -> u128 {
        self.gen.seed()
    }

    /// How many stream bytes were consumed.
    pub closed spec fn consumed(&self) -> nat {
        self.gen.count()
    }

    /// A fresh generator positioned at the start of the stream of `seed`.
    pub fn new(seed: u128) -> (r: SecretRandomGenerator)
        ensures
            r.stream_seed() == seed,
            r.consumed() == 0,
    {
        SecretRandomGenerator { gen: ByteRandomGenerator::new(seed) }
    }

    /// Overwrite every element of `out` with a uniformly random binary value:
    /// element i becomes the parity of stream byte `consumed + i`.
    pub fn fill_slice_with_random_uniform_binary(&mut self, out: &mut Vec<u64>)
        ensures
            final(self).stream_seed() == old(self).stream_seed(),
            final(self).consumed() == old(self).consumed() + old(out)@.len(),
            final(out)@.len() == old(out)@.len(),
            forall|i: int|
                0 <= i < final(out)@.len() ==> final(out)@[i] == binary_word(
                    old(self).stream_seed(),
                    (old(self).consumed() + i) as nat,
                ),
    {
        let len = out.len();
        let mut i: usize = 0;
        while i < len
            invariant
                i <= len,
                out@.len() == len,
                self.stream_seed() == old(self).stream_seed(),
                self.consumed() == old(self).consumed() + i,
                forall|j: int|
                    0 <= j < i ==> out@[j] == binary_word(
                        old(self).stream_seed(),
                        (old(self).consumed() + j) as nat,
                    ),
            decreases len - i,
        {
            let b = self.gen.next_byte();
            out[i] = (b % 2) as u64;
            i = i + 1;
        }
    }
}

/// A generator for the uniform mask coefficients of ciphertexts.
pub struct MaskRandomGenerator {
    gen: ByteRandomGenerator,
}

impl MaskRandomGenerator {
    /// The seed of the underlying stream.
    pub closed spec fn stream_seed(&self) -> u128 {
        self.gen.seed()
    }

    /// How many stream bytes were consumed.
    pub closed spec fn consumed(&self) -> nat {
        self.gen.count()
    }

    /// A fresh generator positioned at the start of the stream of `seed`.
    pub fn new(seed: u128) -> (r: MaskRandomGenerator)
        ensures
            r.stream_seed() == seed,
            r.consumed() == 0,
    {
        MaskRandomGenerator { gen: ByteRandomGenerator::new(seed) }
    }

    /// Draw one uniform mask word for the given modulus. It consumes sixteen
    /// stream bytes.
    pub fn random_mask_word(&mut self, m: &crate::parameters::CiphertextModulus) -> (r: u64)
        requires
            m.well_formed(),
        ensures
            final(self).stream_seed() == old(self).stream_seed(),
            final(self).consumed() == old(self).consumed() + 16,
            r == mask_word(old(self).stream_seed(), old(self).consumed(), *m),
            r < m.working_modulus(),
    {
        let x = self.gen.next_le_bytes(16);
        let q = m.get();
        let f = m.get_scaling_to_native_torus();
        proof {
            crate::parameters::lemma_modulus_facts(*m);
            lemma_scaled_residue_bound((x as int) % m.modulus(), *m);
        }
        (((x % q) * (f as u128)) as u64)
    }
}

/// The generator pair that encryption consumes: one stream for the uniform
/// mask, one stream for the noise. Keys generated twice from the same two
/// seeds are identical.
pub struct EncryptionRandomGenerator {
    mask: MaskRandomGenerator,
    noise: ByteRandomGenerator,
}

impl EncryptionRandomGenerator {
    /// The seed of the mask stream.
    pub closed spec fn mask_seed(&self) -> u128 {
        self.mask.stream_seed()
    }

    /// How many mask stream bytes were consumed.
    pub closed spec fn mask_consumed(&self) -> nat {
        self.mask.consumed()
    }

    /// The seed of the noise stream.
    pub closed spec fn noise_seed(&self) -> u128 {
        self.noise.seed()
    }

    /// How many noise stream bytes were consumed.
    pub closed spec fn noise_consumed(&self) -> nat {
        self.noise.count()
    }

    /// A fresh generator pair from a mask seed and a noise seed.
    pub fn new(seed: u128, noise_seed: u128) -> (r: EncryptionRandomGenerator)
        ensures
            r.mask_seed() == seed,
            r.mask_consumed() == 0,
            r.noise_seed() == noise_seed,
            r.noise_consumed() == 0,
    {
        EncryptionRandomGenerator {
            mask: MaskRandomGenerator::new(seed),
            noise: ByteRandomGenerator::new(noise_seed),
        }
    }

    /// Draw one uniform mask word. It consumes sixteen mask stream bytes and
    /// no noise stream byte.
    pub fn random_mask_word(&mut self, m: &crate::parameters::CiphertextModulus) -> (r: u64)
        requires
            m.well_formed(),
        ensures
            final(self).mask_seed() == old(self).mask_seed(),
            final(self).noise_seed() == old(self).noise_seed(),
            final(self).noise_consumed() == old(self).noise_consumed(),
            final(self).mask_consumed() == old(self).mask_consumed() + 16,
            r == mask_word(old(self).mask_seed(), old(self).mask_consumed(), *m),
            r < m.working_modulus(),
    {
        self.mask.random_mask_word(m)
    }

    /// Draw one noise word for the given dispersion. It consumes eight noise
    /// stream bytes and no mask stream byte.
    pub fn random_noise_word(
        &mut self,
        s: crate::parameters::StandardDev,
        m: &crate::parameters::CiphertextModulus,
    ) -> (r: u64)
        requires
            m.well_formed(),
            s.log2_scale <= 64,
        ensures
            final(self).mask_seed() == old(self).mask_seed(),
            final(self).noise_seed() == old(self).noise_seed(),
            final(self).mask_consumed() == old(self).mask_consumed(),
            final(self).noise_consumed() == old(self).noise_consumed() + 8,
            r == noise_word(old(self).noise_seed(), old(self).noise_consumed(), s, *m),
            r < m.working_modulus(),
    {
        let mut sum: u64 = 0;
        let mut j: usize = 0;
        while j < 8
            invariant
                j <= 8,
                self.mask == old(self).mask,
                self.noise.seed() == old(self).noise_seed(),
                self.noise.count() == old(self).noise_consumed() + j,
                sum == byte_sum(old(self).noise_seed(), old(self).noise_consumed(), j as nat),
                sum <= 255 * j,
            decreases 8 - j,
        {
            let b = self.noise.next_byte();
            sum = sum + (b as u64);
            j = j + 1;
        }
        let p2 = pow2_u128(s.log2_scale);
        let q = m.get();
        let f = m.get_scaling_to_native_torus();
        let ghost e = byte_sum(old(self).noise_seed(), old(self).noise_consumed(), 8) - 1020;
        proof {
            crate::parameters::lemma_modulus_facts(*m);
            lemma_pow2_le_u64(s.log2_scale as nat);
        }
        if sum >= 1020 {
            proof {
                vstd::arithmetic::mul::lemma_mul_inequality(sum - 1020, 1020, p2 as int);
                vstd::arithmetic::mul::lemma_mul_inequality(p2 as int, pow2(64) as int, 1020);
            }
            let mag = ((sum - 1020) as u128) * p2;
            proof {
                assert(e * pow2(s.log2_scale as nat) == mag as int);
                lemma_scaled_residue_bound((mag as int) % m.modulus(), *m);
            }
            (((mag % q) * (f as u128)) as u64)
        } else {
            proof {
                vstd::arithmetic::mul::lemma_mul_inequality(1020 - sum, 1020, p2 as int);
                vstd::arithmetic::mul::lemma_mul_inequality(p2 as int, pow2(64) as int, 1020);
            }
            let mag = ((1020 - sum) as u128) * p2;
            proof {
                assert((0 - (1020 - sum as int)) * pow2(s.log2_scale as nat) == 0 - mag as int) by {
                    vstd::arithmetic::mul::lemma_mul_is_distributive_sub_other_way(
                        pow2(s.log2_scale as nat) as int,
                        0,
                        1020 - sum as int,
                    );
                }
                assert(e * pow2(s.log2_scale as nat) == 0 - mag as int);
                lemma_neg_mod(mag as int, m.modulus());
                lemma_scaled_residue_bound((0 - mag as int) % m.modulus(), *m);
            }
            let rq = (q - (mag % q)) % q;
            ((rq * (f as u128)) as u64)
        }
    }
}

/// For a nonnegative x, (-x) mod q equals (q - x mod q) mod q.
pub proof fn lemma_neg_mod(x: int, q: int)
    requires
        x >= 0,
        q >= 2,
    ensures
        (0 - x) % q == (q - x % q) % q,
{
    let d = x / q;
    let r = x % q;
    vstd::arithmetic::div_mod::lemma_fundamental_div_mod(x, q);
    assert(q * (0 - d - 1) == 0 - q * d - q) by {
        vstd::arithmetic::mul::lemma_mul_is_distributive_sub(q, 0 - d, 1);
        vstd::arithmetic::mul::lemma_mul_is_distributive_sub(q, 0, d);
        vstd::arithmetic::mul::lemma_mul_basics(q);
    }
    assert(0 - x == q * (0 - d - 1) + (q - r));
    vstd::arithmetic::div_mod::lemma_mod_multiples_vanish(0 - d - 1, q - r, q);
}

/// 2^e fits a 64-bit word and is positive, for e at most 64.
pub proof fn lemma_pow2_le_u64(e: nat)
    requires
        e <= 64,
    ensures
        0 < pow2(e) <= pow2(64),
        pow2(64) == 0x1_0000_0000_0000_0000,
{
    lemma_pow2_pos(e);
    if e < 64 {
        lemma_pow2_strictly_increases(e, 64);
    }
    lemma2_to64();
    lemma_pow2_adds(32, 32);
    lemma2_to64_rest();
}

/// A deterministic seeder: it draws each seed it hands out from the
/// pseudo-random stream of its own seed, sixteen bytes at a time.
pub struct DeterministicSeeder {
    gen: ByteRandomGenerator,
}

impl DeterministicSeeder {
    /// The seed of the underlying stream.
    pub closed spec fn stream_seed(&self) -> u128 {
        self.gen.seed()
    }

    /// How many stream bytes were consumed.
    pub closed spec fn consumed(&self) -> nat {
        self.gen.count()
    }

    /// A fresh seeder from a root seed.
    pub fn new(seed: u128) -> (r: DeterministicSeeder)
        ensures
            r.stream_seed() == seed,
            r.consumed() == 0,
    {
        DeterministicSeeder { gen: ByteRandomGenerator::new(seed) }
    }

    /// Hand out the next seed: sixteen stream bytes, little endian.
    pub fn seed(&mut self) -> (r: u128)
        ensures
            final(self).stream_seed() == old(self).stream_seed(),
            final(self).consumed() == old(self).consumed() + 16,
            r == le_bytes(old(self).stream_seed(), old(self).consumed(), 16),
    {
        self.gen.next_le_bytes(16)
    }
}

/// 2^(8j) fits a 128-bit word for j below 16.
proof fn lemma_pow2_u128_bound(j: nat)
    requires
        j < 16,
    ensures
        pow2((8 * j) as nat) <= pow2(120),
        pow2((8 * (j + 1)) as nat) <= pow2(128),
{
    if 8 * j < 120 {
        lemma_pow2_strictly_increases((8 * j) as nat, 120);
    }
    if 8 * (j + 1) < 128 {
        lemma_pow2_strictly_increases((8 * (j + 1)) as nat, 128);
    }
}

/// 2^e fits a 128-bit word for e at most 120.
proof fn lemma_pow2_u128_bound_full(e: nat)
    requires
        e <= 120,
    ensures
        pow2(e) < pow2(127),
{
    lemma_pow2_strictly_increases(e, 127);
}

} // verus!

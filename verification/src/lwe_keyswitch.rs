//! LWE keyswitch keys: direct generation, seeded generation, decompression,
//! and the keyswitch itself.
//!
//! A keyswitch key is, for each input key element s_i, the list of fresh LWE
//! encryptions under the output key of s_i · B^(l-j) · floor(q/B^l) for levels
//! j = 1..l. Both generators pin their output down to the same mathematical
//! function of the seeds, which makes the seeded/direct equivalence a theorem.

use vstd::prelude::*;
use crate::parameters::{CiphertextModulus, DecompositionBaseLog, DecompositionLevelCount,
    LweDimension, LweSize, Plaintext, StandardDev};
use crate::numeric::reduced;
use crate::decomposition::{bpow, custom_unit, custom_params_ok};
use crate::lwe::{LweCiphertext, LweSecretKey, binary_seq, lwe_encrypt_spec, lwe_mask_seq,
    vec_of_zeros};
use crate::random::{DeterministicSeeder, EncryptionRandomGenerator, MaskRandomGenerator, le_bytes};

verus! {

/// The plaintext that a keyswitch key encrypts for a binary key element s at
/// level j: s · B^(l-j) · floor(q/B^l).
pub open spec fn ksk_plaintext(s: u64, b: nat, j: nat, l: nat, q: int) -> int {
    s * (bpow(b, (l - j) as nat) * custom_unit(q, b, l))
}

/// A keyswitch-key plaintext of a binary key element stays below the modulus.
pub proof fn lemma_ksk_plaintext_bound(s: u64, b: nat, j: nat, l: nat, q: int)
    requires
        s <= 1,
        1 <= b,
        1 <= j <= l,
        b * l < 64,
        bpow(b, l) <= q,
    ensures
        0 <= ksk_plaintext(s, b, j, l, q) < q,
{
    let unit = custom_unit(q, b, l);
    let w = bpow(b, (l - j) as nat);
    vstd::arithmetic::power2::lemma_pow2_pos((b * l) as nat);
    vstd::arithmetic::power2::lemma_pow2_pos((b * (l - j)) as nat);
    vstd::arithmetic::div_mod::lemma_div_pos_is_pos(q, bpow(b, l));
    vstd::arithmetic::mul::lemma_mul_nonnegative(w, unit);
    // w·unit <= (B^l / B^j)·(q/B^l) <= q / B <= (q-1)
    assert(w * unit < q) by {
        vstd::arithmetic::div_mod::lemma_fundamental_div_mod(q, bpow(b, l));
        assert(bpow(b, l) == w * bpow(b, j)) by {
            vstd::arithmetic::power2::lemma_pow2_adds((b * (l - j)) as nat, (b * j) as nat);
            assert((b * (l - j)) as nat + (b * j) as nat == (b * l) as nat) by {
                vstd::arithmetic::mul::lemma_mul_is_distributive_sub(b as int, l as int, j as int);
            }
        }
        let bj = bpow(b, j);
        vstd::arithmetic::power2::lemma_pow2_pos((b * j) as nat);
        assert(q >= bpow(b, l) * unit) by {
            vstd::arithmetic::div_mod::lemma_mod_bound(q, bpow(b, l));
            vstd::arithmetic::mul::lemma_mul_is_commutative(bpow(b, l), unit);
        }
        assert(bpow(b, l) * unit == (w * unit) * bj) by {
            vstd::arithmetic::mul::lemma_mul_is_commutative(w, bj);
            vstd::arithmetic::mul::lemma_mul_is_associative(bj, w, unit);
            vstd::arithmetic::mul::lemma_mul_is_commutative(bj, w * unit);
        }
        assert(bj >= 2) by {
            vstd::arithmetic::power2::lemma2_to64();
            if (b * j) as nat > 1 {
                vstd::arithmetic::power2::lemma_pow2_strictly_increases(1, (b * j) as nat);
            }
            assert((b * j) as nat >= 1) by {
                vstd::arithmetic::mul::lemma_mul_inequality(1, j as int, b as int);
                vstd::arithmetic::mul::lemma_mul_is_commutative(j as int, b as int);
            }
        }
        assert((w * unit) * bj >= (w * unit) * 2) by {
            vstd::arithmetic::mul::lemma_mul_inequality(2, bj, w * unit);
            vstd::arithmetic::mul::lemma_mul_is_commutative(2, w * unit);
            vstd::arithmetic::mul::lemma_mul_is_commutative(bj, w * unit);
        }
        assert(unit >= 1) by {
            vstd::arithmetic::div_mod::lemma_div_non_zero(q, bpow(b, l));
        }
        vstd::arithmetic::mul::lemma_mul_inequality(1, unit, w);
        vstd::arithmetic::mul::lemma_mul_is_commutative(unit, w);
    }
    if s == 0 {
        vstd::arithmetic::mul::lemma_mul_basics(w * unit);
    } else {
        vstd::arithmetic::mul::lemma_mul_basics(w * unit);
        vstd::arithmetic::mul::lemma_mul_is_commutative(s as int, w * unit);
    }
}

/// Ciphertext t of a generated keyswitch key, as a function of the two seeds
/// and their starting positions: the fresh encryption, under the output key,
/// of the level (t%l)+1 plaintext of input key element t/l.
pub open spec fn ksk_ct_spec(
    in_sk: Seq<u64>,
    out_sk: Seq<u64>,
    b: nat,
    l: nat,
    s: StandardDev,
    m: CiphertextModulus,
    mask_seed: u128,
    mask_ctr: nat,
    noise_seed: u128,
    noise_ctr: nat,
    t: int,
) -> Seq<u64> {
    lwe_encrypt_spec(
        out_sk,
        ksk_plaintext(in_sk[t / l as int], b, ((t % (l as int)) + 1) as nat, l, m.modulus()) as u64,
        s,
        m,
        mask_seed,
        (mask_ctr + t * 16 * (out_sk.len() as int)) as nat,
        noise_seed,
        (noise_ctr + 8 * t) as nat,
    )
}

/// An LWE keyswitch key: input-dimension blocks of level-count ciphertexts
/// under the output key, in one flat vector.
#[derive(Clone, Debug, PartialEq, Eq)]
pub struct LweKeyswitchKey {
    pub data: Vec<u64>,
    pub decomp_base_log: DecompositionBaseLog,
    pub decomp_level_count: DecompositionLevelCount,
    pub output_lwe_size: LweSize,
    pub ciphertext_modulus: CiphertextModulus,
}

impl LweKeyswitchKey {
    /// The shape and reduction invariant of a keyswitch key.
    pub open spec fn well_formed(&self) -> bool {
        &&& self.output_lwe_size.0 >= 2
        &&& custom_params_ok(
            self.decomp_base_log.0 as nat,
            self.decomp_level_count.0 as nat,
            self.ciphertext_modulus,
        )
        &&& self.data@.len() as int % (self.decomp_level_count.0 as int
            * self.output_lwe_size.0 as int) == 0
        &&& reduced(self.data@, self.ciphertext_modulus.working_modulus())
    }

    /// The number of ciphertexts the key holds.
    pub open spec fn spec_ct_count(&self) -> int {
        self.data@.len() as int / self.output_lwe_size.0 as int
    }

    /// Ciphertext t of the key, as a coefficient sequence.
    pub open spec fn ct(&self, t: int) -> Seq<u64> {
        self.data@.subrange(t * self.output_lwe_size.0 as int, (t + 1)
            * self.output_lwe_size.0 as int)
    }

    /// The input key dimension: the number of decomposition blocks.
    pub open spec fn spec_input_dimension(&self) -> int {
        self.data@.len() as int / (self.decomp_level_count.0 as int
            * self.output_lwe_size.0 as int)
    }

    /// Allocate a zero-filled keyswitch key.
    pub fn new(
        decomp_base_log: DecompositionBaseLog,
        decomp_level_count: DecompositionLevelCount,
        input_key_lwe_dimension: LweDimension,
        output_key_lwe_dimension: LweDimension,
        ciphertext_modulus: CiphertextModulus,
    ) -> (r: LweKeyswitchKey)
        requires
            1 <= decomp_base_log.0,
            1 <= decomp_level_count.0,
            decomp_base_log.0 * decomp_level_count.0 < 64,
            ciphertext_modulus.well_formed(),
            bpow(decomp_base_log.0 as nat, decomp_level_count.0 as nat)
                <= ciphertext_modulus.modulus(),
            input_key_lwe_dimension.0 * decomp_level_count.0 * (output_key_lwe_dimension.0 + 1)
                <= usize::MAX,
            1 <= output_key_lwe_dimension.0 < usize::MAX,
        ensures
            r.decomp_base_log == decomp_base_log,
            r.decomp_level_count == decomp_level_count,
            r.output_lwe_size.0 == output_key_lwe_dimension.0 + 1,
            r.ciphertext_modulus == ciphertext_modulus,
            r.well_formed(),
            r.data@.len() == input_key_lwe_dimension.0 * decomp_level_count.0 * (
            output_key_lwe_dimension.0 + 1),
            r.spec_input_dimension() == input_key_lwe_dimension.0,
    {
        let out_size = output_key_lwe_dimension.0 + 1;
        proof {
            vstd::arithmetic::mul::lemma_mul_nonnegative(
                input_key_lwe_dimension.0 as int,
                decomp_level_count.0 as int,
            );
            vstd::arithmetic::mul::lemma_mul_inequality(
                1,
                out_size as int,
                input_key_lwe_dimension.0 as int * decomp_level_count.0 as int,
            );
            vstd::arithmetic::mul::lemma_mul_is_commutative(
                input_key_lwe_dimension.0 as int * decomp_level_count.0 as int,
                out_size as int,
            );
            vstd::arithmetic::mul::lemma_mul_basics(
                input_key_lwe_dimension.0 as int * decomp_level_count.0 as int,
            );
        }
        let len = input_key_lwe_dimension.0 * decomp_level_count.0 * out_size;
        let data = vec_of_zeros(len);
        proof {
            crate::parameters::lemma_modulus_facts(ciphertext_modulus);
            crate::numeric::lemma_working_modulus_valid(ciphertext_modulus);
            let block = decomp_level_count.0 as int * out_size as int;
            vstd::arithmetic::mul::lemma_mul_strictly_positive(
                decomp_level_count.0 as int,
                out_size as int,
            );
            vstd::arithmetic::mul::lemma_mul_is_associative(
                input_key_lwe_dimension.0 as int,
                decomp_level_count.0 as int,
                out_size as int,
            );
            vstd::arithmetic::mul::lemma_mul_is_commutative(input_key_lwe_dimension.0 as int, block);
            vstd::arithmetic::div_mod::lemma_mod_multiples_basic(
                input_key_lwe_dimension.0 as int,
                block,
            );
            vstd::arithmetic::div_mod::lemma_div_multiples_vanish(
                input_key_lwe_dimension.0 as int,
                block,
            );
        }
        LweKeyswitchKey {
            data,
            decomp_base_log,
            decomp_level_count,
            output_lwe_size: LweSize(out_size),
            ciphertext_modulus,
        }
    }

    /// The decomposition base log.
    pub fn decomposition_base_log(&self) -> (r: DecompositionBaseLog)
        ensures
            r == self.decomp_base_log,
    {
        self.decomp_base_log
    }

    /// The decomposition level count.
    pub fn decomposition_level_count(&self) -> (r: DecompositionLevelCount)
        ensures
            r == self.decomp_level_count,
    {
        self.decomp_level_count
    }

    /// The dimension of the output key.
    pub fn output_key_lwe_dimension(&self) -> (r: LweDimension)
        requires
            self.output_lwe_size.0 >= 1,
        ensures
            r.0 == self.output_lwe_size.0 - 1,
    {
        LweDimension(self.output_lwe_size.0 - 1)
    }

    /// The dimension of the input key.
    pub fn input_key_lwe_dimension(&self) -> (r: LweDimension)
        requires
            self.well_formed(),
            self.decomp_level_count.0 * self.output_lwe_size.0 <= usize::MAX,
        ensures
            r.0 == self.spec_input_dimension(),
    {
        proof {
            vstd::arithmetic::mul::lemma_mul_strictly_positive(
                self.decomp_level_count.0 as int,
                self.output_lwe_size.0 as int,
            );
        }
        LweDimension(self.data.len() / (self.decomp_level_count.0 * self.output_lwe_size.0))
    }

    /// The ciphertext modulus.
    pub fn ciphertext_modulus(&self) -> (r: CiphertextModulus)
        ensures
            r == self.ciphertext_modulus,
    {
        self.ciphertext_modulus
    }
}

/// Ciphertext u of a flat ciphertext vector whose ciphertexts are os words
/// each.
pub open spec fn ct_at(data: Seq<u64>, os: int, u: int) -> Seq<u64> {
    data.subrange(u * os, (u + 1) * os)
}

/// All keyswitch-key ciphertexts up to index t match the generation spec.
pub open spec fn ksk_prefix_ok(
    data: Seq<u64>,
    os: int,
    b: nat,
    l: nat,
    in_sk: Seq<u64>,
    out_sk: Seq<u64>,
    s: StandardDev,
    m: CiphertextModulus,
    mask_seed: u128,
    mask_ctr: nat,
    noise_seed: u128,
    noise_ctr: nat,
    t: int,
) -> bool {
    forall|u: int|
        0 <= u < t ==> #[trigger] ct_at(data, os, u) =~= ksk_ct_spec(
            in_sk,
            out_sk,
            b,
            l,
            s,
            m,
            mask_seed,
            mask_ctr,
            noise_seed,
            noise_ctr,
            u,
        )
}

/// Fill an LWE keyswitch key with the encryptions of the decomposition
/// plaintexts of each input key element under the output key. The whole key is
/// pinned down as a function of the secret keys, the dispersion, and the two
/// generator streams.
pub fn generate_lwe_keyswitch_key(
    input_lwe_sk: &LweSecretKey,
    output_lwe_sk: &LweSecretKey,
    lwe_keyswitch_key: &mut LweKeyswitchKey,
    noise_parameters: StandardDev,
    generator: &mut EncryptionRandomGenerator,
)
    requires
        old(lwe_keyswitch_key).well_formed(),
        old(lwe_keyswitch_key).spec_input_dimension() == input_lwe_sk.data@.len(),
        old(lwe_keyswitch_key).output_lwe_size.0 == output_lwe_sk.data@.len() + 1,
        old(lwe_keyswitch_key).data@.len() == input_lwe_sk.data@.len()
            * old(lwe_keyswitch_key).decomp_level_count.0
            * old(lwe_keyswitch_key).output_lwe_size.0,
        binary_seq(input_lwe_sk.data@),
        binary_seq(output_lwe_sk.data@),
        noise_parameters.log2_scale <= 64,
    ensures
        final(lwe_keyswitch_key).decomp_base_log == old(lwe_keyswitch_key).decomp_base_log,
        final(lwe_keyswitch_key).decomp_level_count == old(lwe_keyswitch_key).decomp_level_count,
        final(lwe_keyswitch_key).output_lwe_size == old(lwe_keyswitch_key).output_lwe_size,
        final(lwe_keyswitch_key).ciphertext_modulus == old(lwe_keyswitch_key).ciphertext_modulus,
        final(lwe_keyswitch_key).data@.len() == old(lwe_keyswitch_key).data@.len(),
        final(lwe_keyswitch_key).well_formed(),
        final(generator).mask_seed() == old(generator).mask_seed(),
        final(generator).noise_seed() == old(generator).noise_seed(),
        final(generator).mask_consumed() == old(generator).mask_consumed() + 16 * (
        output_lwe_sk.data@.len() * (input_lwe_sk.data@.len()
            * old(lwe_keyswitch_key).decomp_level_count.0)),
        final(generator).noise_consumed() == old(generator).noise_consumed() + 8 * (
        input_lwe_sk.data@.len() * old(lwe_keyswitch_key).decomp_level_count.0),
        ksk_prefix_ok(
            final(lwe_keyswitch_key).data@,
            old(lwe_keyswitch_key).output_lwe_size.0 as int,
            old(lwe_keyswitch_key).decomp_base_log.0 as nat,
            old(lwe_keyswitch_key).decomp_level_count.0 as nat,
            input_lwe_sk.data@,
            output_lwe_sk.data@,
            noise_parameters,
            old(lwe_keyswitch_key).ciphertext_modulus,
            old(generator).mask_seed(),
            old(generator).mask_consumed(),
            old(generator).noise_seed(),
            old(generator).noise_consumed(),
            input_lwe_sk.data@.len() * old(lwe_keyswitch_key).decomp_level_count.0,
        ),
{
    let m = lwe_keyswitch_key.ciphertext_modulus;
    let level_count = lwe_keyswitch_key.decomp_level_count.0;
    let base_log = lwe_keyswitch_key.decomp_base_log.0;
    let out_size = lwe_keyswitch_key.output_lwe_size.0;
    let n_in = input_lwe_sk.data.len();
    let n_out = output_lwe_sk.data.len();
    let data_len = lwe_keyswitch_key.data.len();
    proof {
        vstd::arithmetic::mul::lemma_mul_nonnegative(n_in as int, level_count as int);
        vstd::arithmetic::mul::lemma_mul_inequality(
            1,
            out_size as int,
            n_in as int * level_count as int,
        );
        vstd::arithmetic::mul::lemma_mul_basics(n_in as int * level_count as int);
        vstd::arithmetic::mul::lemma_mul_is_commutative(
            out_size as int,
            n_in as int * level_count as int,
        );
        vstd::arithmetic::mul::lemma_mul_is_associative(
            n_in as int,
            level_count as int,
            out_size as int,
        );
    }
    let total: usize = n_in * level_count;
    let ghost b = base_log as nat;
    let ghost l = level_count as nat;
    proof {
        crate::parameters::lemma_modulus_facts(m);
        crate::numeric::lemma_working_modulus_valid(m);
        vstd::arithmetic::mul::lemma_mul_is_associative(
            n_in as int,
            level_count as int,
            out_size as int,
        );
    }
    let mut t: usize = 0;
    while t < total
        invariant
            total == n_in * level_count,
            n_in == input_lwe_sk.data@.len(),
            n_out == output_lwe_sk.data@.len(),
            out_size == n_out + 1,
            t <= total,
            lwe_keyswitch_key.decomp_base_log == old(lwe_keyswitch_key).decomp_base_log,
            lwe_keyswitch_key.decomp_level_count == old(lwe_keyswitch_key).decomp_level_count,
            lwe_keyswitch_key.output_lwe_size == old(lwe_keyswitch_key).output_lwe_size,
            lwe_keyswitch_key.ciphertext_modulus == old(lwe_keyswitch_key).ciphertext_modulus,
            base_log == lwe_keyswitch_key.decomp_base_log.0,
            level_count == lwe_keyswitch_key.decomp_level_count.0,
            out_size == lwe_keyswitch_key.output_lwe_size.0,
            m == lwe_keyswitch_key.ciphertext_modulus,
            b == base_log as nat,
            l == level_count as nat,
            lwe_keyswitch_key.data@.len() == old(lwe_keyswitch_key).data@.len(),
            lwe_keyswitch_key.data@.len() == total * out_size,
            lwe_keyswitch_key.data@.len() == data_len,
            lwe_keyswitch_key.well_formed(),
            binary_seq(input_lwe_sk.data@),
            binary_seq(output_lwe_sk.data@),
            noise_parameters.log2_scale <= 64,
            generator.mask_seed() == old(generator).mask_seed(),
            generator.noise_seed() == old(generator).noise_seed(),
            generator.mask_consumed() == old(generator).mask_consumed() + 16 * (n_out * t),
            generator.noise_consumed() == old(generator).noise_consumed() + 8 * t,
            ksk_prefix_ok(
                lwe_keyswitch_key.data@,
                out_size as int,
                b,
                l,
                input_lwe_sk.data@,
                output_lwe_sk.data@,
                noise_parameters,
                m,
                old(generator).mask_seed(),
                old(generator).mask_consumed(),
                old(generator).noise_seed(),
                old(generator).noise_consumed(),
                t as int,
            ),
        decreases total - t,
    {
        let i = t / level_count;
        let j = t % level_count + 1;
        proof {
            vstd::arithmetic::div_mod::lemma_fundamental_div_mod(t as int, level_count as int);
            vstd::arithmetic::div_mod::lemma_mod_bound(t as int, level_count as int);
            assert(i < n_in) by {
                if i as int >= n_in as int {
                    vstd::arithmetic::mul::lemma_mul_inequality(
                        n_in as int,
                        i as int,
                        level_count as int,
                    );
                    vstd::arithmetic::mul::lemma_mul_is_commutative(i as int, level_count as int);
                    assert(false);
                }
            }
        }
        let s_elt = input_lwe_sk.data[i];
        let pt = ksk_plaintext_exec(s_elt, base_log, j, level_count, &m);
        let mut ct = LweCiphertext::new(LweSize(out_size), m);
        crate::lwe::encrypt_lwe_ciphertext(
            output_lwe_sk,
            &mut ct,
            Plaintext(pt),
            noise_parameters,
            generator,
        );
        // copy the fresh ciphertext into its slot of the flat key
        proof {
            vstd::arithmetic::mul::lemma_mul_inequality(
                t as int + 1,
                total as int,
                out_size as int,
            );
            vstd::arithmetic::mul::lemma_mul_inequality(t as int, total as int, out_size as int);
            vstd::arithmetic::mul::lemma_mul_nonnegative(t as int, out_size as int);
            vstd::arithmetic::mul::lemma_mul_is_distributive_add_other_way(
                out_size as int,
                t as int,
                1,
            );
            vstd::arithmetic::mul::lemma_mul_is_commutative(t as int, out_size as int);
            vstd::arithmetic::mul::lemma_mul_is_commutative(total as int, out_size as int);
        }
        let base = t * out_size;
        let ghost before = lwe_keyswitch_key.data@;
        copy_words(&mut lwe_keyswitch_key.data, base, &ct.data);
        proof {
            assert forall|u: int| 0 <= u < t + 1 implies #[trigger] ct_at(
                lwe_keyswitch_key.data@,
                out_size as int,
                u,
            ) =~= ksk_ct_spec(
                input_lwe_sk.data@,
                output_lwe_sk.data@,
                b,
                l,
                noise_parameters,
                m,
                old(generator).mask_seed(),
                old(generator).mask_consumed(),
                old(generator).noise_seed(),
                old(generator).noise_consumed(),
                u,
            ) by {
                vstd::arithmetic::mul::lemma_mul_is_distributive_add_other_way(out_size as int, u, 1);
                if u < t {
                    vstd::arithmetic::mul::lemma_mul_inequality(u + 1, t as int, out_size as int);
                    vstd::arithmetic::mul::lemma_mul_inequality(u, t as int, out_size as int);
                    vstd::arithmetic::mul::lemma_mul_nonnegative(u, out_size as int);
                    assert(ct_at(lwe_keyswitch_key.data@, out_size as int, u) =~= ct_at(
                        before,
                        out_size as int,
                        u,
                    ));
                    assert(ct_at(before, out_size as int, u) =~= ksk_ct_spec(
                        input_lwe_sk.data@,
                        output_lwe_sk.data@,
                        b,
                        l,
                        noise_parameters,
                        m,
                        old(generator).mask_seed(),
                        old(generator).mask_consumed(),
                        old(generator).noise_seed(),
                        old(generator).noise_consumed(),
                        u,
                    ));
                } else {
                    assert(u == t as int);
                    assert(16 * ((n_out as int) * (t as int)) == (t as int) * 16 * (n_out as int))
                        by {
                        vstd::arithmetic::mul::lemma_mul_is_commutative(n_out as int, t as int);
                        vstd::arithmetic::mul::lemma_mul_is_associative(16, t as int, n_out as int);
                        vstd::arithmetic::mul::lemma_mul_is_commutative(16, t as int);
                    }
                    assert(ct_at(lwe_keyswitch_key.data@, out_size as int, t as int) =~= ct.data@);
                }
            }
            assert(reduced(
                lwe_keyswitch_key.data@,
                m.working_modulus(),
            )) by {
                assert forall|x: int|
                    0 <= x < lwe_keyswitch_key.data@.len() implies #[trigger] lwe_keyswitch_key
                    .data@[x] < m.working_modulus() by {
                    if base <= x < base + out_size {
                        assert(lwe_keyswitch_key.data@[x] == ct.data@[x - base]);
                    } else {
                        assert(lwe_keyswitch_key.data@[x] == before[x]);
                    }
                }
            }
            assert(16 * ((n_out as int) * (t as int)) + 16 * (n_out as int) == 16 * ((n_out as int)
                * (t + 1 as int))) by {
                vstd::arithmetic::mul::lemma_mul_is_distributive_add(n_out as int, t as int, 1);
                vstd::arithmetic::mul::lemma_mul_is_distributive_add(16, (n_out as int) * (t as int), n_out as int);
                vstd::arithmetic::mul::lemma_mul_basics(n_out as int);
            }
        }
        t = t + 1;
    }
}

/// Allocate a new LWE keyswitch key and fill it from the two secret keys.
pub fn allocate_and_generate_new_lwe_keyswitch_key(
    input_lwe_sk: &LweSecretKey,
    output_lwe_sk: &LweSecretKey,
    decomp_base_log: DecompositionBaseLog,
    decomp_level_count: DecompositionLevelCount,
    noise_parameters: StandardDev,
    ciphertext_modulus: CiphertextModulus,
    generator: &mut EncryptionRandomGenerator,
) -> (r: LweKeyswitchKey)
    requires
        1 <= decomp_base_log.0,
        1 <= decomp_level_count.0,
        decomp_base_log.0 * decomp_level_count.0 < 64,
        ciphertext_modulus.well_formed(),
        bpow(decomp_base_log.0 as nat, decomp_level_count.0 as nat) <= ciphertext_modulus.modulus(),
        input_lwe_sk.data@.len() * decomp_level_count.0 * (output_lwe_sk.data@.len() + 1)
            <= usize::MAX,
        1 <= output_lwe_sk.data@.len() < usize::MAX,
        binary_seq(input_lwe_sk.data@),
        binary_seq(output_lwe_sk.data@),
        noise_parameters.log2_scale <= 64,
    ensures
        r.well_formed(),
        r.decomp_base_log == decomp_base_log,
        r.decomp_level_count == decomp_level_count,
        r.output_lwe_size.0 == output_lwe_sk.data@.len() + 1,
        r.ciphertext_modulus == ciphertext_modulus,
        r.data@.len() == input_lwe_sk.data@.len() * decomp_level_count.0 * (output_lwe_sk.data@.len()
            + 1),
        ksk_prefix_ok(
            r.data@,
            (output_lwe_sk.data@.len() + 1) as int,
            decomp_base_log.0 as nat,
            decomp_level_count.0 as nat,
            input_lwe_sk.data@,
            output_lwe_sk.data@,
            noise_parameters,
            ciphertext_modulus,
            old(generator).mask_seed(),
            old(generator).mask_consumed(),
            old(generator).noise_seed(),
            old(generator).noise_consumed(),
            input_lwe_sk.data@.len() * decomp_level_count.0,
        ),
        final(generator).mask_seed() == old(generator).mask_seed(),
        final(generator).noise_seed() == old(generator).noise_seed(),
{
    let input_dim = input_lwe_sk.lwe_dimension();
    let output_dim = output_lwe_sk.lwe_dimension();
    let mut ksk = LweKeyswitchKey::new(
        decomp_base_log,
        decomp_level_count,
        input_dim,
        output_dim,
        ciphertext_modulus,
    );
    proof {
        vstd::arithmetic::mul::lemma_mul_is_associative(
            input_lwe_sk.data@.len() as int,
            decomp_level_count.0 as int,
            (output_lwe_sk.data@.len() + 1) as int,
        );
    }
    generate_lwe_keyswitch_key(input_lwe_sk, output_lwe_sk, &mut ksk, noise_parameters, generator);
    ksk
}

/// A seeded LWE keyswitch key: only the body of each ciphertext is stored,
/// with the compression seed that regenerates every mask.
#[derive(Clone, Debug, PartialEq, Eq)]
pub struct SeededLweKeyswitchKey {
    pub data: Vec<u64>,
    pub decomp_base_log: DecompositionBaseLog,
    pub decomp_level_count: DecompositionLevelCount,
    pub output_lwe_size: LweSize,
    pub compression_seed: u128,
    pub ciphertext_modulus: CiphertextModulus,
}

impl SeededLweKeyswitchKey {
    /// The shape and reduction invariant of a seeded keyswitch key.
    pub open spec fn well_formed(&self) -> bool {
        &&& self.output_lwe_size.0 >= 2
        &&& custom_params_ok(
            self.decomp_base_log.0 as nat,
            self.decomp_level_count.0 as nat,
            self.ciphertext_modulus,
        )
        &&& self.data@.len() as int % (self.decomp_level_count.0 as int) == 0
        &&& reduced(self.data@, self.ciphertext_modulus.working_modulus())
    }

    /// Allocate a zero-filled seeded keyswitch key.
    pub fn new(
        decomp_base_log: DecompositionBaseLog,
        decomp_level_count: DecompositionLevelCount,
        input_key_lwe_dimension: LweDimension,
        output_key_lwe_dimension: LweDimension,
        compression_seed: u128,
        ciphertext_modulus: CiphertextModulus,
    ) -> (r: SeededLweKeyswitchKey)
        requires
            1 <= decomp_base_log.0,
            1 <= decomp_level_count.0,
            decomp_base_log.0 * decomp_level_count.0 < 64,
            ciphertext_modulus.well_formed(),
            bpow(decomp_base_log.0 as nat, decomp_level_count.0 as nat)
                <= ciphertext_modulus.modulus(),
            input_key_lwe_dimension.0 * decomp_level_count.0 <= usize::MAX,
            1 <= output_key_lwe_dimension.0 < usize::MAX,
        ensures
            r.decomp_base_log == decomp_base_log,
            r.decomp_level_count == decomp_level_count,
            r.output_lwe_size.0 == output_key_lwe_dimension.0 + 1,
            r.compression_seed == compression_seed,
            r.ciphertext_modulus == ciphertext_modulus,
            r.well_formed(),
            r.data@.len() == input_key_lwe_dimension.0 * decomp_level_count.0,
    {
        let len = input_key_lwe_dimension.0 * decomp_level_count.0;
        let data = vec_of_zeros(len);
        proof {
            crate::parameters::lemma_modulus_facts(ciphertext_modulus);
            crate::numeric::lemma_working_modulus_valid(ciphertext_modulus);
            vstd::arithmetic::div_mod::lemma_mod_multiples_basic(
                input_key_lwe_dimension.0 as int,
                decomp_level_count.0 as int,
            );
            vstd::arithmetic::mul::lemma_mul_is_commutative(
                input_key_lwe_dimension.0 as int,
                decomp_level_count.0 as int,
            );
        }
        SeededLweKeyswitchKey {
            data,
            decomp_base_log,
            decomp_level_count,
            output_lwe_size: LweSize(output_key_lwe_dimension.0 + 1),
            compression_seed,
            ciphertext_modulus,
        }
    }

    /// The compression seed.
    pub fn compression_seed(&self) -> (r: u128)
        ensures
            r == self.compression_seed,
    {
        self.compression_seed
    }
}

/// All stored bodies up to index t match the bodies of the generation spec.
pub open spec fn seeded_bodies_ok(
    bodies: Seq<u64>,
    b: nat,
    l: nat,
    in_sk: Seq<u64>,
    out_sk: Seq<u64>,
    s: StandardDev,
    m: CiphertextModulus,
    mask_seed: u128,
    noise_seed: u128,
    t: int,
) -> bool {
    forall|u: int|
        0 <= u < t ==> #[trigger] bodies[u] == ksk_ct_spec(
            in_sk,
            out_sk,
            b,
            l,
            s,
            m,
            mask_seed,
            0,
            noise_seed,
            0,
            u,
        ).last()
}

/// Fill a seeded LWE keyswitch key: generate exactly the ciphertexts the
/// direct generator would produce from the compression seed and the seed the
/// noise seeder hands out, and store only their bodies.
pub fn generate_seeded_lwe_keyswitch_key(
    input_lwe_sk: &LweSecretKey,
    output_lwe_sk: &LweSecretKey,
    lwe_keyswitch_key: &mut SeededLweKeyswitchKey,
    noise_parameters: StandardDev,
    noise_seeder: &mut DeterministicSeeder,
)
    requires
        old(lwe_keyswitch_key).well_formed(),
        old(lwe_keyswitch_key).data@.len() == input_lwe_sk.data@.len()
            * old(lwe_keyswitch_key).decomp_level_count.0,
        old(lwe_keyswitch_key).output_lwe_size.0 == output_lwe_sk.data@.len() + 1,
        binary_seq(input_lwe_sk.data@),
        binary_seq(output_lwe_sk.data@),
        noise_parameters.log2_scale <= 64,
        input_lwe_sk.data@.len() * old(lwe_keyswitch_key).decomp_level_count.0 * (
        output_lwe_sk.data@.len() + 1) <= usize::MAX,
    ensures
        final(lwe_keyswitch_key).decomp_base_log == old(lwe_keyswitch_key).decomp_base_log,
        final(lwe_keyswitch_key).decomp_level_count == old(lwe_keyswitch_key).decomp_level_count,
        final(lwe_keyswitch_key).output_lwe_size == old(lwe_keyswitch_key).output_lwe_size,
        final(lwe_keyswitch_key).compression_seed == old(lwe_keyswitch_key).compression_seed,
        final(lwe_keyswitch_key).ciphertext_modulus == old(lwe_keyswitch_key).ciphertext_modulus,
        final(lwe_keyswitch_key).data@.len() == old(lwe_keyswitch_key).data@.len(),
        final(lwe_keyswitch_key).well_formed(),
        final(noise_seeder).stream_seed() == old(noise_seeder).stream_seed(),
        final(noise_seeder).consumed() == old(noise_seeder).consumed() + 16,
        seeded_bodies_ok(
            final(lwe_keyswitch_key).data@,
            old(lwe_keyswitch_key).decomp_base_log.0 as nat,
            old(lwe_keyswitch_key).decomp_level_count.0 as nat,
            input_lwe_sk.data@,
            output_lwe_sk.data@,
            noise_parameters,
            old(lwe_keyswitch_key).ciphertext_modulus,
            old(lwe_keyswitch_key).compression_seed,
            le_bytes(old(noise_seeder).stream_seed(), old(noise_seeder).consumed(), 16) as u128,
            input_lwe_sk.data@.len() * old(lwe_keyswitch_key).decomp_level_count.0,
        ),
{
    let m = lwe_keyswitch_key.ciphertext_modulus;
    let level_count = lwe_keyswitch_key.decomp_level_count.0;
    let base_log = lwe_keyswitch_key.decomp_base_log.0;
    let out_size = lwe_keyswitch_key.output_lwe_size.0;
    let n_in = input_lwe_sk.data.len();
    let n_out = output_lwe_sk.data.len();
    let data_len = lwe_keyswitch_key.data.len();
    let noise_seed = noise_seeder.seed();
    let mut generator = EncryptionRandomGenerator::new(
        lwe_keyswitch_key.compression_seed,
        noise_seed,
    );
    let ghost b = base_log as nat;
    let ghost l = level_count as nat;
    proof {
        crate::parameters::lemma_modulus_facts(m);
        crate::numeric::lemma_working_modulus_valid(m);
        vstd::arithmetic::mul::lemma_mul_nonnegative(n_in as int, level_count as int);
        vstd::arithmetic::mul::lemma_mul_inequality(
            1,
            out_size as int,
            n_in as int * level_count as int,
        );
        vstd::arithmetic::mul::lemma_mul_basics(n_in as int * level_count as int);
        vstd::arithmetic::mul::lemma_mul_is_commutative(
            out_size as int,
            n_in as int * level_count as int,
        );
        vstd::arithmetic::mul::lemma_mul_is_associative(
            n_in as int,
            level_count as int,
            out_size as int,
        );
    }
    let total: usize = n_in * level_count;
    let mut t: usize = 0;
    while t < total
        invariant
            total == n_in * level_count,
            n_in == input_lwe_sk.data@.len(),
            n_out == output_lwe_sk.data@.len(),
            out_size == n_out + 1,
            t <= total,
            lwe_keyswitch_key.decomp_base_log == old(lwe_keyswitch_key).decomp_base_log,
            lwe_keyswitch_key.decomp_level_count == old(lwe_keyswitch_key).decomp_level_count,
            lwe_keyswitch_key.output_lwe_size == old(lwe_keyswitch_key).output_lwe_size,
            lwe_keyswitch_key.compression_seed == old(lwe_keyswitch_key).compression_seed,
            lwe_keyswitch_key.ciphertext_modulus == old(lwe_keyswitch_key).ciphertext_modulus,
            base_log == lwe_keyswitch_key.decomp_base_log.0,
            level_count == lwe_keyswitch_key.decomp_level_count.0,
            out_size == lwe_keyswitch_key.output_lwe_size.0,
            m == lwe_keyswitch_key.ciphertext_modulus,
            b == base_log as nat,
            l == level_count as nat,
            lwe_keyswitch_key.data@.len() == old(lwe_keyswitch_key).data@.len(),
            lwe_keyswitch_key.data@.len() == total,
            lwe_keyswitch_key.well_formed(),
            binary_seq(input_lwe_sk.data@),
            binary_seq(output_lwe_sk.data@),
            noise_parameters.log2_scale <= 64,
            generator.mask_seed() == old(lwe_keyswitch_key).compression_seed,
            generator.noise_seed() == noise_seed,
            noise_seed == le_bytes(
                old(noise_seeder).stream_seed(),
                old(noise_seeder).consumed(),
                16,
            ) as u128,
            generator.mask_consumed() == 16 * (n_out * t),
            generator.noise_consumed() == 8 * t,
            seeded_bodies_ok(
                lwe_keyswitch_key.data@,
                b,
                l,
                input_lwe_sk.data@,
                output_lwe_sk.data@,
                noise_parameters,
                m,
                old(lwe_keyswitch_key).compression_seed,
                noise_seed,
                t as int,
            ),
        decreases total - t,
    {
        let i = t / level_count;
        let j = t % level_count + 1;
        proof {
            vstd::arithmetic::div_mod::lemma_fundamental_div_mod(t as int, level_count as int);
            vstd::arithmetic::div_mod::lemma_mod_bound(t as int, level_count as int);
            assert(i < n_in) by {
                if i as int >= n_in as int {
                    vstd::arithmetic::mul::lemma_mul_inequality(
                        n_in as int,
                        i as int,
                        level_count as int,
                    );
                    vstd::arithmetic::mul::lemma_mul_is_commutative(i as int, level_count as int);
                    assert(false);
                }
            }
        }
        let s_elt = input_lwe_sk.data[i];
        let pt = ksk_plaintext_exec(s_elt, base_log, j, level_count, &m);
        let mut ct = LweCiphertext::new(LweSize(out_size), m);
        crate::lwe::encrypt_lwe_ciphertext(
            output_lwe_sk,
            &mut ct,
            Plaintext(pt),
            noise_parameters,
            &mut generator,
        );
        let body = ct.get_body();
        let ghost before = lwe_keyswitch_key.data@;
        lwe_keyswitch_key.data[t] = body;
        proof {
            assert(16 * ((n_out as int) * (t as int)) == (t as int) * 16 * (n_out as int)) by {
                vstd::arithmetic::mul::lemma_mul_is_commutative(n_out as int, t as int);
                vstd::arithmetic::mul::lemma_mul_is_associative(16, t as int, n_out as int);
                vstd::arithmetic::mul::lemma_mul_is_commutative(16, t as int);
            }
            assert(16 * ((n_out as int) * (t as int)) + 16 * (n_out as int) == 16 * ((n_out as int)
                * (t + 1 as int))) by {
                vstd::arithmetic::mul::lemma_mul_is_distributive_add(n_out as int, t as int, 1);
                vstd::arithmetic::mul::lemma_mul_is_distributive_add(
                    16,
                    (n_out as int) * (t as int),
                    n_out as int,
                );
                vstd::arithmetic::mul::lemma_mul_basics(n_out as int);
            }
        }
        t = t + 1;
    }
}

/// Allocate a new seeded LWE keyswitch key and fill it from the two secret
/// keys, seeding the compression stream from the seeder.
pub fn allocate_and_generate_new_seeded_lwe_keyswitch_key(
    input_lwe_sk: &LweSecretKey,
    output_lwe_sk: &LweSecretKey,
    decomp_base_log: DecompositionBaseLog,
    decomp_level_count: DecompositionLevelCount,
    noise_parameters: StandardDev,
    ciphertext_modulus: CiphertextModulus,
    noise_seeder: &mut DeterministicSeeder,
) -> (r: SeededLweKeyswitchKey)
    requires
        1 <= decomp_base_log.0,
        1 <= decomp_level_count.0,
        decomp_base_log.0 * decomp_level_count.0 < 64,
        ciphertext_modulus.well_formed(),
        bpow(decomp_base_log.0 as nat, decomp_level_count.0 as nat) <= ciphertext_modulus.modulus(),
        input_lwe_sk.data@.len() * decomp_level_count.0 * (output_lwe_sk.data@.len() + 1)
            <= usize::MAX,
        1 <= output_lwe_sk.data@.len() < usize::MAX,
        binary_seq(input_lwe_sk.data@),
        binary_seq(output_lwe_sk.data@),
        noise_parameters.log2_scale <= 64,
    ensures
        r.well_formed(),
        r.decomp_base_log == decomp_base_log,
        r.decomp_level_count == decomp_level_count,
        r.output_lwe_size.0 == output_lwe_sk.data@.len() + 1,
        r.ciphertext_modulus == ciphertext_modulus,
        r.data@.len() == input_lwe_sk.data@.len() * decomp_level_count.0,
        r.compression_seed == le_bytes(
            old(noise_seeder).stream_seed(),
            old(noise_seeder).consumed(),
            16,
        ) as u128,
        seeded_bodies_ok(
            r.data@,
            decomp_base_log.0 as nat,
            decomp_level_count.0 as nat,
            input_lwe_sk.data@,
            output_lwe_sk.data@,
            noise_parameters,
            ciphertext_modulus,
            r.compression_seed,
            le_bytes(
                old(noise_seeder).stream_seed(),
                (old(noise_seeder).consumed() + 16) as nat,
                16,
            ) as u128,
            input_lwe_sk.data@.len() * decomp_level_count.0,
        ),
{
    proof {
        vstd::arithmetic::mul::lemma_mul_nonnegative(
            input_lwe_sk.data@.len() as int,
            decomp_level_count.0 as int,
        );
        vstd::arithmetic::mul::lemma_mul_inequality(
            1,
            (output_lwe_sk.data@.len() + 1) as int,
            input_lwe_sk.data@.len() as int * decomp_level_count.0 as int,
        );
        vstd::arithmetic::mul::lemma_mul_basics(
            input_lwe_sk.data@.len() as int * decomp_level_count.0 as int,
        );
        vstd::arithmetic::mul::lemma_mul_is_commutative(
            (output_lwe_sk.data@.len() + 1) as int,
            input_lwe_sk.data@.len() as int * decomp_level_count.0 as int,
        );
    }
    let compression_seed = noise_seeder.seed();
    let mut seeded = SeededLweKeyswitchKey::new(
        decomp_base_log,
        decomp_level_count,
        input_lwe_sk.lwe_dimension(),
        output_lwe_sk.lwe_dimension(),
        compression_seed,
        ciphertext_modulus,
    );
    generate_seeded_lwe_keyswitch_key(
        input_lwe_sk,
        output_lwe_sk,
        &mut seeded,
        noise_parameters,
        noise_seeder,
    );
    seeded
}

impl SeededLweKeyswitchKey {
    /// Decompress the seeded key into a full keyswitch key: every mask word is
    /// regenerated from the compression seed, and the stored bodies follow.
    pub fn decompress_into_lwe_keyswitch_key(self) -> (r: LweKeyswitchKey)
        requires
            self.well_formed(),
            self.data@.len() * self.output_lwe_size.0 <= usize::MAX,
        ensures
            r.decomp_base_log == self.decomp_base_log,
            r.decomp_level_count == self.decomp_level_count,
            r.output_lwe_size == self.output_lwe_size,
            r.ciphertext_modulus == self.ciphertext_modulus,
            r.well_formed(),
            r.data@.len() == self.data@.len() * self.output_lwe_size.0,
            forall|u: int|
                0 <= u < self.data@.len() ==> #[trigger] ct_at(
                    r.data@,
                    self.output_lwe_size.0 as int,
                    u,
                ) =~= lwe_mask_seq(
                    self.compression_seed,
                    (u * 16 * (self.output_lwe_size.0 - 1)) as nat,
                    self.ciphertext_modulus,
                    (self.output_lwe_size.0 - 1) as nat,
                ).push(self.data@[u]),
    {
        let m = self.ciphertext_modulus;
        let out_size = self.output_lwe_size.0;
        let n_out = out_size - 1;
        let count = self.data.len();
        proof {
            crate::parameters::lemma_modulus_facts(m);
            crate::numeric::lemma_working_modulus_valid(m);
            vstd::arithmetic::mul::lemma_mul_nonnegative(count as int, out_size as int);
        }
        let mut mask_generator = MaskRandomGenerator::new(self.compression_seed);
        let mut data = vec_of_zeros(count * out_size);
        let dlen: usize = data.len();
        let mut u: usize = 0;
        while u < count
            invariant
                u <= count,
                count == self.data@.len(),
                out_size == self.output_lwe_size.0,
                n_out == out_size - 1,
                out_size >= 2,
                m == self.ciphertext_modulus,
                m.well_formed(),
                crate::numeric::valid_working_modulus(m.working_modulus()),
                reduced(self.data@, m.working_modulus()),
                data@.len() == dlen,
                dlen == count * out_size,
                reduced(data@, m.working_modulus()),
                mask_generator.stream_seed() == self.compression_seed,
                mask_generator.consumed() == 16 * (n_out * u),
                forall|v: int|
                    0 <= v < u ==> #[trigger] ct_at(data@, out_size as int, v) =~= lwe_mask_seq(
                        self.compression_seed,
                        (v * 16 * (n_out as int)) as nat,
                        m,
                        n_out as nat,
                    ).push(self.data@[v]),
            decreases count - u,
        {
            proof {
                vstd::arithmetic::mul::lemma_mul_inequality(
                    u as int + 1,
                    count as int,
                    out_size as int,
                );
                vstd::arithmetic::mul::lemma_mul_inequality(u as int, count as int, out_size as int);
                vstd::arithmetic::mul::lemma_mul_nonnegative(u as int, out_size as int);
                vstd::arithmetic::mul::lemma_mul_is_distributive_add_other_way(
                    out_size as int,
                    u as int,
                    1,
                );
            }
            let base = u * out_size;
            let ghost before = data@;
            let mut k: usize = 0;
            while k < n_out
                invariant
                    k <= n_out,
                    n_out == out_size - 1,
                    base == u * out_size,
                    base + out_size <= data@.len(),
                    data@.len() == dlen,
                    m.well_formed(),
                    crate::numeric::valid_working_modulus(m.working_modulus()),
                    reduced(data@, m.working_modulus()),
                    mask_generator.stream_seed() == self.compression_seed,
                    mask_generator.consumed() == 16 * (n_out * u) + 16 * k,
                    forall|x: int|
                        0 <= x < k ==> #[trigger] data@[base + x] as int
                            == crate::random::mask_word(
                            self.compression_seed,
                            (16 * ((n_out as int) * (u as int)) + 16 * x) as nat,
                            m,
                        ),
                    forall|x: int|
                        0 <= x < data@.len() && !(base <= x < base + k) ==> data@[x] == before[x],
                decreases n_out - k,
            {
                let word = mask_generator.random_mask_word(&m);
                data[base + k] = word;
                k = k + 1;
            }
            let body = self.data[u];
            data[base + n_out] = body;
            proof {
                let ghost target = lwe_mask_seq(
                    self.compression_seed,
                    ((u as int) * 16 * (n_out as int)) as nat,
                    m,
                    n_out as nat,
                ).push(self.data@[u as int]);
                assert(16 * ((n_out as int) * (u as int)) == (u as int) * 16 * (n_out as int)) by {
                    vstd::arithmetic::mul::lemma_mul_is_commutative(n_out as int, u as int);
                    vstd::arithmetic::mul::lemma_mul_is_associative(16, u as int, n_out as int);
                    vstd::arithmetic::mul::lemma_mul_is_commutative(16, u as int);
                }
                assert(ct_at(data@, out_size as int, u as int) =~= target) by {
                    assert forall|x: int| 0 <= x < out_size implies ct_at(
                        data@,
                        out_size as int,
                        u as int,
                    )[x] == target[x] by {
                        if x < n_out {
                            assert(data@[base + x] as int == crate::random::mask_word(
                                self.compression_seed,
                                (16 * ((n_out as int) * (u as int)) + 16 * x) as nat,
                                m,
                            ));
                        } else {
                            assert(data@[base + x] == self.data@[u as int]);
                        }
                    }
                }
                assert forall|v: int| 0 <= v < u + 1 implies #[trigger] ct_at(
                    data@,
                    out_size as int,
                    v,
                ) =~= lwe_mask_seq(
                    self.compression_seed,
                    (v * 16 * (n_out as int)) as nat,
                    m,
                    n_out as nat,
                ).push(self.data@[v]) by {
                    if v < u {
                        vstd::arithmetic::mul::lemma_mul_inequality(v + 1, u as int, out_size as int);
                        vstd::arithmetic::mul::lemma_mul_inequality(v, u as int, out_size as int);
                        vstd::arithmetic::mul::lemma_mul_nonnegative(v, out_size as int);
                        vstd::arithmetic::mul::lemma_mul_is_distributive_add_other_way(
                            out_size as int,
                            v,
                            1,
                        );
                        assert(ct_at(data@, out_size as int, v) =~= ct_at(before, out_size as int, v));
                    }
                }
                assert(16 * ((n_out as int) * (u as int)) + 16 * (n_out as int) == 16 * ((
                n_out as int) * (u as int + 1))) by {
                    vstd::arithmetic::mul::lemma_mul_is_distributive_add(n_out as int, u as int, 1);
                    vstd::arithmetic::mul::lemma_mul_is_distributive_add(
                        16,
                        (n_out as int) * (u as int),
                        n_out as int,
                    );
                    vstd::arithmetic::mul::lemma_mul_basics(n_out as int);
                }
            }
            u = u + 1;
        }
        proof {
            vstd::arithmetic::mul::lemma_mul_is_commutative(count as int, out_size as int);
            vstd::arithmetic::mul::lemma_mul_strictly_positive(
                self.decomp_level_count.0 as int,
                out_size as int,
            );
            let lvl = self.decomp_level_count.0 as int;
            assert(count as int % lvl == 0);
            let blocks = count as int / lvl;
            vstd::arithmetic::div_mod::lemma_fundamental_div_mod(count as int, lvl);
            assert(count as int == lvl * blocks + 0);
            assert((count as int) * (out_size as int) == (blocks * (lvl * out_size as int))) by {
                vstd::arithmetic::mul::lemma_mul_is_commutative(lvl, blocks);
                vstd::arithmetic::mul::lemma_mul_is_associative(blocks, lvl, out_size as int);
            }
            vstd::arithmetic::div_mod::lemma_mod_multiples_basic(blocks, lvl * out_size as int);
            vstd::arithmetic::mul::lemma_mul_is_commutative(blocks, lvl * out_size as int);
        }
        LweKeyswitchKey {
            data,
            decomp_base_log: self.decomp_base_log,
            decomp_level_count: self.decomp_level_count,
            output_lwe_size: self.output_lwe_size,
            ciphertext_modulus: self.ciphertext_modulus,
        }
    }
}

/// The seeded/direct keyswitch-key equivalence: a directly generated key and
/// the decompression of a seeded key generated from the same mask seed and the
/// same noise seed hold exactly the same words.
pub proof fn lemma_seeded_lwe_ksk_gen_equivalence(
    direct: Seq<u64>,
    bodies: Seq<u64>,
    decompressed: Seq<u64>,
    b: nat,
    l: nat,
    in_sk: Seq<u64>,
    out_sk: Seq<u64>,
    s: StandardDev,
    m: CiphertextModulus,
    mask_seed: u128,
    noise_seed: u128,
    count: int,
)
    requires
        count >= 0,
        out_sk.len() >= 1,
        direct.len() == count * (out_sk.len() + 1),
        decompressed.len() == count * (out_sk.len() + 1),
        bodies.len() == count,
        ksk_prefix_ok(
            direct,
            out_sk.len() + 1 as int,
            b,
            l,
            in_sk,
            out_sk,
            s,
            m,
            mask_seed,
            0,
            noise_seed,
            0,
            count,
        ),
        seeded_bodies_ok(bodies, b, l, in_sk, out_sk, s, m, mask_seed, noise_seed, count),
        forall|u: int|
            0 <= u < count ==> #[trigger] ct_at(decompressed, out_sk.len() + 1 as int, u)
                =~= lwe_mask_seq(mask_seed, (u * 16 * (out_sk.len() as int)) as nat, m, out_sk.len()).push(
                bodies[u],
            ),
    ensures
        direct =~= decompressed,
{
    let os = out_sk.len() + 1 as int;
    assert forall|u: int| 0 <= u < count implies #[trigger] ct_at(direct, os, u) =~= ct_at(
        decompressed,
        os,
        u,
    ) by {
        let spec_ct = ksk_ct_spec(in_sk, out_sk, b, l, s, m, mask_seed, 0, noise_seed, 0, u);
        assert(ct_at(direct, os, u) =~= spec_ct);
        assert(bodies[u] == spec_ct.last());
        let mask = lwe_mask_seq(mask_seed, (0 + u * 16 * (out_sk.len() as int)) as nat, m, out_sk.len());
        assert(spec_ct =~= mask.push(spec_ct.last()));
        assert(ct_at(decompressed, os, u) =~= mask.push(bodies[u]));
    }
    assert forall|x: int| 0 <= x < direct.len() implies direct[x] == decompressed[x] by {
        let u = x / os;
        let off = x % os;
        vstd::arithmetic::div_mod::lemma_fundamental_div_mod(x, os);
        vstd::arithmetic::div_mod::lemma_mod_bound(x, os);
        vstd::arithmetic::div_mod::lemma_div_pos_is_pos(x, os);
        assert(u < count) by {
            if u >= count {
                vstd::arithmetic::mul::lemma_mul_inequality(count, u, os);
                vstd::arithmetic::mul::lemma_mul_is_commutative(count, os);
                vstd::arithmetic::mul::lemma_mul_is_commutative(u, os);
                assert(false);
            }
        }
        assert(ct_at(direct, os, u) =~= ct_at(decompressed, os, u));
        vstd::arithmetic::mul::lemma_mul_is_distributive_add_other_way(os, u, 1);
        vstd::arithmetic::mul::lemma_mul_inequality(u + 1, count, os);
        vstd::arithmetic::mul::lemma_mul_is_commutative(u, os);
        assert(ct_at(direct, os, u)[off] == direct[x]);
        assert(ct_at(decompressed, os, u)[off] == decompressed[x]);
    }
}

/// Overwrite the words of `data` starting at `base` with the words of `src`;
/// every other word is kept.
pub fn copy_words(data: &mut Vec<u64>, base: usize, src: &Vec<u64>)
    requires
        base + src@.len() <= old(data)@.len(),
    ensures
        final(data)@.len() == old(data)@.len(),
        forall|x: int| 0 <= x < src@.len() ==> final(data)@[base + x] == src@[x],
        forall|x: int|
            0 <= x < old(data)@.len() && !(base <= x < base + src@.len()) ==> final(data)@[x]
                == old(data)@[x],
{
    let len = src.len();
    let dlen = data.len();
    let mut k: usize = 0;
    while k < len
        invariant
            k <= len,
            len == src@.len(),
            base + len <= data@.len(),
            data@.len() == dlen,
            data@.len() == old(data)@.len(),
            forall|x: int| 0 <= x < k ==> data@[base + x] == src@[x],
            forall|x: int|
                0 <= x < data@.len() && !(base <= x < base + k) ==> data@[x] == old(data)@[x],
        decreases len - k,
    {
        let v = src[k];
        data[base + k] = v;
        k = k + 1;
    }
}

/// Compute the keyswitch plaintext s · B^(l-j) · floor(q/B^l).
pub fn ksk_plaintext_exec(
    s: u64,
    base_log: usize,
    j: usize,
    level_count: usize,
    m: &CiphertextModulus,
) -> (r: u64)
    requires
        s <= 1,
        1 <= base_log,
        1 <= j <= level_count,
        base_log * level_count < 64,
        m.well_formed(),
        bpow(base_log as nat, level_count as nat) <= m.modulus(),
    ensures
        r == ksk_plaintext(s, base_log as nat, j as nat, level_count as nat, m.modulus()),
        r < m.modulus(),
{
    let ghost b = base_log as nat;
    let ghost l = level_count as nat;
    let ghost q = m.modulus();
    proof {
        vstd::arithmetic::mul::lemma_mul_inequality(1, base_log as int, level_count as int);
        vstd::arithmetic::mul::lemma_mul_inequality(
            (level_count - j) as int,
            level_count as int,
            base_log as int,
        );
        vstd::arithmetic::mul::lemma_mul_is_commutative((level_count - j) as int, base_log as int);
        vstd::arithmetic::mul::lemma_mul_is_commutative(level_count as int, base_log as int);
        vstd::arithmetic::power2::lemma_pow2_pos((b * l) as nat);
        lemma_ksk_plaintext_bound(s, b, j as nat, l, q);
        lemma_ksk_plaintext_bound(1u64, b, j as nat, l, q);
    }
    let bl: usize = base_log * level_count;
    let bp = crate::random::pow2_u128(bl);
    let wp = crate::random::pow2_u128(base_log * (level_count - j));
    let unit: u128 = m.get() / bp;
    let prod: u128 = wp * unit;
    proof {
        vstd::arithmetic::mul::lemma_mul_basics(
            (bpow(b, (l - j as nat) as nat) * custom_unit(q, b, l)) as int,
        );
        if s == 1 {
            vstd::arithmetic::mul::lemma_mul_is_commutative(
                1,
                bpow(b, (l - j as nat) as nat) * custom_unit(q, b, l),
            );
        }
    }
    if s == 0 {
        0u64
    } else {
        prod as u64
    }
}

/// Subtract `scale` times the size-len ciphertext at ct[off..] from the
/// size-len range of out, coefficient by coefficient modulo w.
pub fn sub_scaled_assign(
    out: &mut Vec<u64>,
    ct: &Vec<u64>,
    off: usize,
    len: usize,
    scale: u64,
    w: u128,
)
    requires
        crate::numeric::valid_working_modulus(w as int),
        len <= old(out)@.len(),
        off + len <= ct@.len(),
        scale < w,
        crate::numeric::reduced(old(out)@, w as int),
        crate::numeric::reduced(ct@, w as int),
    ensures
        final(out)@.len() == old(out)@.len(),
        crate::numeric::reduced(final(out)@, w as int),
        forall|x: int|
            0 <= x < len ==> #[trigger] final(out)@[x] == (old(out)@[x] - scale * ct@[off + x]) % (
            w as int),
        forall|x: int| len <= x < old(out)@.len() ==> final(out)@[x] == old(out)@[x],
{
    let olen = out.len();
    let clen = ct.len();
    let mut x: usize = 0;
    while x < len
        invariant
            x <= len,
            len <= olen,
            off + len <= clen,
            out@.len() == olen,
            ct@.len() == clen,
            scale < w,
            crate::numeric::valid_working_modulus(w as int),
            crate::numeric::reduced(out@, w as int),
            crate::numeric::reduced(ct@, w as int),
            forall|y: int|
                0 <= y < x ==> #[trigger] out@[y] == (old(out)@[y] - scale * ct@[off + y]) % (
                w as int),
            forall|y: int| x <= y < olen ==> out@[y] == old(out)@[y],
        decreases len - x,
    {
        let prod = crate::numeric::mul_mod(scale, ct[off + x], w);
        let v = crate::numeric::sub_mod(out[x], prod, w);
        proof {
            crate::polynomial::lemma_mod_sub_cancel(
                old(out)@[x as int] as int,
                scale * ct@[off + x],
                w as int,
            );
            vstd::arithmetic::div_mod::lemma_small_mod(old(out)@[x as int] as nat, w as nat);
        }
        out[x] = v;
        x = x + 1;
    }
}

/// The wrapped signed digit that the native decomposition of the word a hands
/// out at level v: the levels come out from l down to 1, so the digit of
/// level v is extracted after l - v state steps.
pub open spec fn ks_digit(a: u64, b: nat, l: nat, v: nat) -> int {
    crate::decomposition::tval(
        crate::decomposition::state_after(
            crate::decomposition::round_div(
                a as int,
                vstd::arithmetic::power2::pow2((64 - b * l) as nat) as int,
            ) % bpow(b, l),
            b,
            (l - v) as nat,
        ),
        b,
    ) % crate::decomposition::word_modulus()
}

/// The running value of keyswitched output element x after the first `steps`
/// digit subtractions, each reduced as it lands: step t subtracts the level
/// l - t%l digit of input element t/l, scaled by element x of the key
/// ciphertext in block t/l, slot l - 1 - t%l.
pub open spec fn ks_acc(
    start: int,
    input: Seq<u64>,
    ksk: Seq<u64>,
    b: nat,
    l: nat,
    out_size: int,
    x: int,
    steps: nat,
    w: int,
) -> int
    decreases steps,
{
    if steps == 0 {
        start
    } else {
        let t = (steps - 1) as int;
        let i = t / (l as int);
        let j = t % (l as int);
        (ks_acc(start, input, ksk, b, l, out_size, x, (steps - 1) as nat, w) - ks_digit(
            input[i],
            b,
            l,
            (l - j) as nat,
        ) * ksk[(i * (l as int) + ((l as int) - 1 - j)) * out_size + x]) % w
    }
}

/// Keyswitch an LWE ciphertext to the output key of the keyswitch key: the
/// output starts from the input body, and for every input mask element the
/// signed decomposition digits of that element, times the matching key
/// ciphertexts, are subtracted. The native modulus drives the decomposition.
pub fn keyswitch_lwe_ciphertext(
    lwe_keyswitch_key: &LweKeyswitchKey,
    input_lwe_ciphertext: &crate::lwe::LweCiphertext,
    output_lwe_ciphertext: &mut crate::lwe::LweCiphertext,
)
    requires
        lwe_keyswitch_key.well_formed(),
        input_lwe_ciphertext.well_formed(),
        old(output_lwe_ciphertext).well_formed(),
        lwe_keyswitch_key.ciphertext_modulus == input_lwe_ciphertext.ciphertext_modulus,
        lwe_keyswitch_key.ciphertext_modulus == old(output_lwe_ciphertext).ciphertext_modulus,
        lwe_keyswitch_key.ciphertext_modulus.modulus() == crate::parameters::native_modulus(),
        old(output_lwe_ciphertext).data@.len() == lwe_keyswitch_key.output_lwe_size.0,
        input_lwe_ciphertext.data@.len() == lwe_keyswitch_key.spec_input_dimension() + 1,
        lwe_keyswitch_key.data@.len() == (input_lwe_ciphertext.data@.len() - 1)
            * lwe_keyswitch_key.decomp_level_count.0 * lwe_keyswitch_key.output_lwe_size.0,
        lwe_keyswitch_key.decomp_level_count.0 * lwe_keyswitch_key.output_lwe_size.0 <= usize::MAX,
    ensures
        final(output_lwe_ciphertext).ciphertext_modulus == old(
            output_lwe_ciphertext,
        ).ciphertext_modulus,
        final(output_lwe_ciphertext).data@.len() == old(output_lwe_ciphertext).data@.len(),
        final(output_lwe_ciphertext).well_formed(),
        // element x: every digit of every input mask element subtracted, scaled
        // by the key ciphertexts, on top of 0, or of the input body at the end
        forall|x: int|
            0 <= x < lwe_keyswitch_key.output_lwe_size.0
                ==> #[trigger] final(output_lwe_ciphertext).data@[x] as int == ks_acc(
                (if x == lwe_keyswitch_key.output_lwe_size.0 - 1 {
                    (input_lwe_ciphertext.data@[input_lwe_ciphertext.data@.len() - 1] as int)
                } else {
                    0
                }),
                input_lwe_ciphertext.data@,
                lwe_keyswitch_key.data@,
                lwe_keyswitch_key.decomp_base_log.0 as nat,
                lwe_keyswitch_key.decomp_level_count.0 as nat,
                lwe_keyswitch_key.output_lwe_size.0 as int,
                x,
                ((input_lwe_ciphertext.data@.len() - 1)
                    * lwe_keyswitch_key.decomp_level_count.0) as nat,
                lwe_keyswitch_key.ciphertext_modulus.working_modulus(),
            ),
{
    let m = lwe_keyswitch_key.ciphertext_modulus;
    let base_log = lwe_keyswitch_key.decomp_base_log.0;
    let level_count = lwe_keyswitch_key.decomp_level_count.0;
    let out_size = lwe_keyswitch_key.output_lwe_size.0;
    let n_in = input_lwe_ciphertext.data.len() - 1;
    let kdl = lwe_keyswitch_key.data.len();
    proof {
        crate::parameters::lemma_modulus_facts(m);
        crate::numeric::lemma_working_modulus_valid(m);
        vstd::arithmetic::power2::lemma2_to64();
        vstd::arithmetic::power2::lemma_pow2_adds(32, 32);
        vstd::arithmetic::power2::lemma2_to64_rest();
    }
    let w = m.get_working_modulus();
    // start from (0, ..., 0, input body)
    let mut x: usize = 0;
    let out_len = output_lwe_ciphertext.data.len();
    while x < out_size
        invariant
            x <= out_size,
            out_len == out_size,
            output_lwe_ciphertext.data@.len() == out_len,
            output_lwe_ciphertext.ciphertext_modulus == old(
                output_lwe_ciphertext,
            ).ciphertext_modulus,
            crate::numeric::valid_working_modulus(w as int),
            w == m.working_modulus(),
            crate::numeric::reduced(output_lwe_ciphertext.data@, w as int),
            forall|y: int| 0 <= y < x ==> #[trigger] output_lwe_ciphertext.data@[y] == 0,
        decreases out_size - x,
    {
        output_lwe_ciphertext.data[x] = 0u64;
        x = x + 1;
    }
    let body = input_lwe_ciphertext.data[n_in];
    output_lwe_ciphertext.data[out_size - 1] = body;
    // the native working modulus is 2^64, so b·l < 64 makes the decomposer fit
    let ghost bnat = base_log as nat;
    let ghost lnat = level_count as nat;
    proof {
        lemma_native_bl_bound(bnat, lnat, m);
    }
    proof {
        vstd::arithmetic::mul::lemma_mul_basics(m.modulus());
        assert(w == 0x1_0000_0000_0000_0000u128);
        vstd::arithmetic::mul::lemma_mul_nonnegative(n_in as int, level_count as int);
        vstd::arithmetic::mul::lemma_mul_inequality(
            1,
            out_size as int,
            (n_in as int) * (level_count as int),
        );
        vstd::arithmetic::mul::lemma_mul_basics((n_in as int) * (level_count as int));
        vstd::arithmetic::mul::lemma_mul_is_commutative(
            out_size as int,
            (n_in as int) * (level_count as int),
        );
        vstd::arithmetic::mul::lemma_mul_is_associative(
            n_in as int,
            level_count as int,
            out_size as int,
        );
    }
    let decomposer = crate::decomposition::SignedDecomposer::new(
        crate::parameters::DecompositionBaseLog(base_log),
        crate::parameters::DecompositionLevelCount(level_count),
    );
    let mut i: usize = 0;
    while i < n_in
        invariant
            i <= n_in,
            n_in + 1 == input_lwe_ciphertext.data@.len(),
            out_len == out_size,
            out_size == lwe_keyswitch_key.output_lwe_size.0,
            level_count == lwe_keyswitch_key.decomp_level_count.0,
            kdl == lwe_keyswitch_key.data@.len(),
            kdl == n_in * level_count * out_size,
            n_in * level_count <= kdl,
            out_size >= 1,
            level_count >= 1,
            level_count * out_size <= usize::MAX,
            decomposer.well_formed(),
            decomposer.base_log_spec() == base_log as nat,
            decomposer.level_count_spec() == level_count as nat,
            output_lwe_ciphertext.data@.len() == out_len,
            output_lwe_ciphertext.ciphertext_modulus == old(
                output_lwe_ciphertext,
            ).ciphertext_modulus,
            crate::numeric::valid_working_modulus(w as int),
            w == m.working_modulus(),
            w == 0x1_0000_0000_0000_0000u128,
            crate::numeric::reduced(output_lwe_ciphertext.data@, w as int),
            crate::numeric::reduced(input_lwe_ciphertext.data@, w as int),
            crate::numeric::reduced(lwe_keyswitch_key.data@, w as int),
            forall|y: int|
                0 <= y < out_size ==> #[trigger] output_lwe_ciphertext.data@[y] as int == ks_acc(
                    (if y == out_size - 1 {
                        (input_lwe_ciphertext.data@[n_in as int] as int)
                    } else {
                        0
                    }),
                    input_lwe_ciphertext.data@,
                    lwe_keyswitch_key.data@,
                    base_log as nat,
                    level_count as nat,
                    out_size as int,
                    y,
                    (i * level_count) as nat,
                    w as int,
                ),
        decreases n_in - i,
    {
        let mut decomposition = decomposer.decompose(input_lwe_ciphertext.data[i]);
        let mut j: usize = 0;
        while j < level_count
            invariant
                j <= level_count,
                i < n_in,
                n_in + 1 == input_lwe_ciphertext.data@.len(),
                out_len == out_size,
                out_size == lwe_keyswitch_key.output_lwe_size.0,
                level_count == lwe_keyswitch_key.decomp_level_count.0,
                kdl == lwe_keyswitch_key.data@.len(),
                kdl == n_in * level_count * out_size,
                n_in * level_count <= kdl,
                out_size >= 1,
                level_count >= 1,
                level_count * out_size <= usize::MAX,
                decomposition.well_formed(),
                decomposition.base_log_spec() == base_log as nat,
                decomposition.level_count_spec() == level_count as nat,
                decomposition.current_level_spec() == level_count - j,
                output_lwe_ciphertext.data@.len() == out_len,
                output_lwe_ciphertext.ciphertext_modulus == old(
                    output_lwe_ciphertext,
                ).ciphertext_modulus,
                crate::numeric::valid_working_modulus(w as int),
                w == m.working_modulus(),
                w == 0x1_0000_0000_0000_0000u128,
                crate::numeric::reduced(output_lwe_ciphertext.data@, w as int),
                crate::numeric::reduced(lwe_keyswitch_key.data@, w as int),
                decomposition.state_spec() as int == crate::decomposition::state_after(
                    crate::decomposition::round_div(
                        input_lwe_ciphertext.data@[i as int] as int,
                        vstd::arithmetic::power2::pow2(
                            (64 - (base_log as nat) * (level_count as nat)) as nat,
                        ) as int,
                    ) % bpow(base_log as nat, level_count as nat),
                    base_log as nat,
                    j as nat,
                ),
                forall|y: int|
                    0 <= y < out_size ==> #[trigger] output_lwe_ciphertext.data@[y] as int
                        == ks_acc(
                        (if y == out_size - 1 {
                            (input_lwe_ciphertext.data@[n_in as int] as int)
                        } else {
                            0
                        }),
                        input_lwe_ciphertext.data@,
                        lwe_keyswitch_key.data@,
                        base_log as nat,
                        level_count as nat,
                        out_size as int,
                        y,
                        (i * level_count + j) as nat,
                        w as int,
                    ),
            decreases level_count - j,
        {
            let term_opt = decomposition.next();
            let term = term_opt.unwrap();
            let level = term.level();
            proof {
                lemma_ct_slot_in_range(
                    i as int,
                    level.0 as int,
                    n_in as int,
                    level_count as int,
                    out_size as int,
                );
                vstd::arithmetic::mul::lemma_mul_inequality(
                    1,
                    out_size as int,
                    (n_in * level_count) as int,
                );
                vstd::arithmetic::mul::lemma_mul_basics((n_in * level_count) as int);
                vstd::arithmetic::mul::lemma_mul_is_commutative(
                    out_size as int,
                    (n_in * level_count) as int,
                );
            }
            // the digit of level v sits at block i, slot v-1
            let t = i * level_count + (level.0 - 1);
            let base = t * out_size;
            let value = term.value();
            proof {
                lemma_wrapped_value_reduced(value, w as int);
            }
            let ghost before_step = output_lwe_ciphertext.data@;
            sub_scaled_assign(
                &mut output_lwe_ciphertext.data,
                &lwe_keyswitch_key.data,
                base,
                out_size,
                value,
                w,
            );
            proof {
                let ghost s0 = crate::decomposition::round_div(
                    input_lwe_ciphertext.data@[i as int] as int,
                    vstd::arithmetic::power2::pow2(
                        (64 - (base_log as nat) * (level_count as nat)) as nat,
                    ) as int,
                ) % bpow(base_log as nat, level_count as nat);
                crate::decomposition::lemma_state_after_unfold(s0, base_log as nat, j as nat);
                vstd::arithmetic::div_mod::lemma_fundamental_div_mod_converse(
                    i as int * level_count as int + j as int,
                    level_count as int,
                    i as int,
                    j as int,
                );
                assert forall|y: int|
                    0 <= y < out_size implies #[trigger] output_lwe_ciphertext.data@[y] as int
                    == ks_acc(
                    (if y == out_size - 1 {
                        (input_lwe_ciphertext.data@[n_in as int] as int)
                    } else {
                        0
                    }),
                    input_lwe_ciphertext.data@,
                    lwe_keyswitch_key.data@,
                    base_log as nat,
                    level_count as nat,
                    out_size as int,
                    y,
                    (i * level_count + j + 1) as nat,
                    w as int,
                ) by {
                    assert(output_lwe_ciphertext.data@[y] == (before_step[y] - value
                        * lwe_keyswitch_key.data@[base + y]) % (w as int));
                }
            }
            j = j + 1;
        }
        proof {
            vstd::arithmetic::mul::lemma_mul_is_distributive_add_other_way(
                level_count as int,
                i as int,
                1,
            );
            vstd::arithmetic::mul::lemma_mul_basics(level_count as int);
        }
        i = i + 1;
    }
    proof {
        vstd::arithmetic::mul::lemma_mul_is_commutative(n_in as int, level_count as int);
    }
}

/// Under the native modulus the working modulus is 2^64, so a wrapped word is
/// always reduced.
pub proof fn lemma_wrapped_value_reduced(v: u64, w: int)
    requires
        w == 0x1_0000_0000_0000_0000,
    ensures
        v < w,
{
}

/// Under the native modulus, usable decomposition parameters satisfy the
/// well-formedness of the native decomposer.
pub proof fn lemma_native_bl_bound(b: nat, l: nat, m: CiphertextModulus)
    requires
        custom_params_ok(b, l, m),
        m.modulus() == crate::parameters::native_modulus(),
    ensures
        b * l < 64,
        1 <= b,
        1 <= l,
{
}

/// The flat slot of decomposition digit (block i, level v) lies inside the
/// keyswitch key.
pub proof fn lemma_ct_slot_in_range(i: int, v: int, n_in: int, level_count: int, out_size: int)
    requires
        0 <= i < n_in,
        1 <= v <= level_count,
        out_size >= 1,
    ensures
        (i * level_count + (v - 1)) * out_size + out_size <= n_in * level_count * out_size,
        i * level_count + (v - 1) >= 0,
        (i * level_count + (v - 1)) * out_size >= 0,
        i * level_count + (v - 1) <= n_in * level_count,
{
    let t = i * level_count + (v - 1);
    vstd::arithmetic::mul::lemma_mul_nonnegative(i, level_count);
    assert(t + 1 <= n_in * level_count) by {
        vstd::arithmetic::mul::lemma_mul_inequality(i + 1, n_in, level_count);
        vstd::arithmetic::mul::lemma_mul_is_distributive_add_other_way(level_count, i, 1);
    }
    vstd::arithmetic::mul::lemma_mul_inequality(t + 1, n_in * level_count, out_size);
    vstd::arithmetic::mul::lemma_mul_is_distributive_add_other_way(out_size, t, 1);
    vstd::arithmetic::mul::lemma_mul_nonnegative(t, out_size);
}

} // verus!

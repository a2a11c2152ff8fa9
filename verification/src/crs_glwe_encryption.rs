//! Encryption and decryption of CRSGLWE ciphertexts.
//!
//! The body chunk j of a CRSGLWE ciphertext accumulates the negacyclic
//! multisum of the whole mask with key chunk j, on top of the encoded
//! plaintexts and the noise.

use vstd::prelude::*;
use crate::parameters::{CiphertextModulus, StandardDev};
use crate::numeric::{add_mod, reduced, valid_working_modulus};
use crate::crs_glwe_ciphertext::{CRSGlweBody, CRSGlweCiphertext, CRSGlweMask};
use crate::crs_glwe_secret_key::CRSGlweSecretKey;
use crate::glwe::add_multisum_into_body;
use crate::lwe::PlaintextList;
use crate::random::EncryptionRandomGenerator;

verus! {

/// Fill a mask with uniform words and a body, which already holds the encoded
/// plaintexts, with noise plus the mask·key multisums: body chunk j picks up
/// the multisum of the mask with key chunk j.
pub fn fill_crs_glwe_mask_and_body_for_encryption_assign(
    crs_glwe_secret_key: &CRSGlweSecretKey,
    output_mask: &mut CRSGlweMask,
    output_body: &mut CRSGlweBody,
    noise_parameters: StandardDev,
    generator: &mut EncryptionRandomGenerator,
)
    requires
        old(output_mask).ciphertext_modulus == old(output_body).ciphertext_modulus,
        old(output_mask).polynomial_size == old(output_body).polynomial_size,
        old(output_mask).polynomial_size == crs_glwe_secret_key.polynomial_size,
        old(output_mask).ciphertext_modulus.well_formed(),
        old(output_mask).polynomial_size.0 >= 1,
        crs_glwe_secret_key.well_formed(),
        old(output_mask).data@.len() as int % (old(output_mask).polynomial_size.0 as int) == 0,
        old(output_body).data@.len() as int % (old(output_mask).polynomial_size.0 as int) == 0,
        old(output_body).data@.len() >= 1,
        old(output_mask).data@.len() >= 1,
        // key holds one chunk of mask-many coefficients per body polynomial
        crs_glwe_secret_key.data@.len() == (old(output_body).data@.len() as int
            / old(output_mask).polynomial_size.0 as int) * old(output_mask).data@.len(),
        reduced(old(output_mask).data@, old(output_mask).ciphertext_modulus.working_modulus()),
        reduced(old(output_body).data@, old(output_mask).ciphertext_modulus.working_modulus()),
        noise_parameters.log2_scale <= 64,
    ensures
        final(output_mask).polynomial_size == old(output_mask).polynomial_size,
        final(output_mask).ciphertext_modulus == old(output_mask).ciphertext_modulus,
        final(output_body).polynomial_size == old(output_body).polynomial_size,
        final(output_body).ciphertext_modulus == old(output_body).ciphertext_modulus,
        final(output_mask).data@.len() == old(output_mask).data@.len(),
        final(output_body).data@.len() == old(output_body).data@.len(),
        reduced(final(output_mask).data@, old(output_mask).ciphertext_modulus.working_modulus()),
        reduced(final(output_body).data@, old(output_mask).ciphertext_modulus.working_modulus()),
        final(generator).mask_seed() == old(generator).mask_seed(),
        final(generator).noise_seed() == old(generator).noise_seed(),
        final(generator).mask_consumed() == old(generator).mask_consumed() + 16
            * old(output_mask).data@.len(),
        final(generator).noise_consumed() == old(generator).noise_consumed() + 8
            * old(output_body).data@.len(),
        forall|i: int|
            0 <= i < old(output_mask).data@.len() ==> #[trigger] final(output_mask).data@[i] as int
                == crate::random::mask_word(
                old(generator).mask_seed(),
                (old(generator).mask_consumed() + 16 * i) as nat,
                old(output_mask).ciphertext_modulus,
            ),
        // body chunk c, coefficient x: the encoded plaintext carried onto the
        // native torus by the scaling factor, plus the noise word, plus the
        // running multisum of the whole mask with key chunk c
        forall|c: int, x: int|
            0 <= c < old(output_body).data@.len() as int / old(
                output_mask,
            ).polynomial_size.0 as int && 0 <= x < old(output_mask).polynomial_size.0
                ==> #[trigger] final(output_body).data@[c * old(output_mask).polynomial_size.0 as int
                + x] as int == crate::glwe::multisum_add_acc(
                ((old(output_body).data@[c * old(output_mask).polynomial_size.0 as int + x] * old(
                    output_mask,
                ).ciphertext_modulus.scaling_to_native_torus() + crate::random::noise_word(
                    old(generator).noise_seed(),
                    (old(generator).noise_consumed() + 8 * (c * old(
                        output_mask,
                    ).polynomial_size.0 as int + x)) as nat,
                    noise_parameters,
                    old(output_mask).ciphertext_modulus,
                )) % old(output_mask).ciphertext_modulus.working_modulus()),
                final(output_mask).data@,
                crs_glwe_secret_key.data@,
                c * old(output_mask).data@.len() as int,
                old(output_mask).polynomial_size.0 as nat,
                (old(output_mask).data@.len() as int / old(
                    output_mask,
                ).polynomial_size.0 as int) as nat,
                x,
                old(output_mask).ciphertext_modulus.working_modulus(),
            ),
        // every stored word carries the scaling factor to the native torus
        forall|t: int|
            0 <= t < old(output_mask).data@.len()
                ==> (#[trigger] final(output_mask).data@[t] as int) % old(
                output_mask,
            ).ciphertext_modulus.scaling_to_native_torus() == 0,
        forall|t: int|
            0 <= t < old(output_body).data@.len()
                ==> (#[trigger] final(output_body).data@[t] as int) % old(
                output_mask,
            ).ciphertext_modulus.scaling_to_native_torus() == 0,
{
    let m = output_mask.ciphertext_modulus;
    let n = output_mask.polynomial_size.0;
    let mask_len = output_mask.data.len();
    let body_len = output_body.data.len();
    proof {
        crate::parameters::lemma_modulus_facts(m);
        crate::numeric::lemma_working_modulus_valid(m);
    }
    let w = m.get_working_modulus();
    let f = m.get_scaling_to_native_torus();
    proof {
        assert((f as int) < w as int) by {
            vstd::arithmetic::mul::lemma_mul_inequality(
                2,
                m.modulus(),
                m.scaling_to_native_torus(),
            );
            vstd::arithmetic::mul::lemma_mul_is_commutative(2, m.scaling_to_native_torus());
            vstd::arithmetic::mul::lemma_mul_is_commutative(
                m.modulus(),
                m.scaling_to_native_torus(),
            );
        }
    }
    // uniform mask
    let mut i: usize = 0;
    while i < mask_len
        invariant
            i <= mask_len,
            output_mask.data@.len() == mask_len,
            output_mask.polynomial_size == old(output_mask).polynomial_size,
            output_mask.ciphertext_modulus == m,
            m.well_formed(),
            w == m.working_modulus(),
            valid_working_modulus(w as int),
            reduced(output_mask.data@, w as int),
            generator.mask_seed() == old(generator).mask_seed(),
            generator.noise_seed() == old(generator).noise_seed(),
            generator.mask_consumed() == old(generator).mask_consumed() + 16 * i,
            generator.noise_consumed() == old(generator).noise_consumed(),
            forall|x: int|
                0 <= x < i ==> #[trigger] output_mask.data@[x] as int == crate::random::mask_word(
                    old(generator).mask_seed(),
                    (old(generator).mask_consumed() + 16 * x) as nat,
                    m,
                ),
        decreases mask_len - i,
    {
        let word = generator.random_mask_word(&m);
        output_mask.data[i] = word;
        i = i + 1;
    }
    // noise on every body coefficient
    let mut j: usize = 0;
    while j < body_len
        invariant
            j <= body_len,
            output_body.data@.len() == body_len,
            output_body.polynomial_size == old(output_body).polynomial_size,
            output_body.ciphertext_modulus == old(output_body).ciphertext_modulus,
            output_mask.data@.len() == mask_len,
            output_mask.polynomial_size == old(output_mask).polynomial_size,
            output_mask.ciphertext_modulus == m,
            m.well_formed(),
            w == m.working_modulus(),
            valid_working_modulus(w as int),
            noise_parameters.log2_scale <= 64,
            reduced(output_body.data@, w as int),
            reduced(output_mask.data@, w as int),
            generator.mask_seed() == old(generator).mask_seed(),
            generator.noise_seed() == old(generator).noise_seed(),
            generator.mask_consumed() == old(generator).mask_consumed() + 16 * mask_len,
            generator.noise_consumed() == old(generator).noise_consumed() + 8 * j,
            forall|x: int|
                0 <= x < mask_len ==> #[trigger] output_mask.data@[x] as int
                    == crate::random::mask_word(
                    old(generator).mask_seed(),
                    (old(generator).mask_consumed() + 16 * x) as nat,
                    m,
                ),
            f == m.scaling_to_native_torus(),
            (f as int) < w as int,
            forall|x: int|
                0 <= x < j ==> #[trigger] output_body.data@[x] as int == (old(
                    output_body,
                ).data@[x] * m.scaling_to_native_torus() + crate::random::noise_word(
                    old(generator).noise_seed(),
                    (old(generator).noise_consumed() + 8 * x) as nat,
                    noise_parameters,
                    m,
                )) % (w as int),
            forall|x: int|
                j <= x < body_len ==> #[trigger] output_body.data@[x] == old(
                    output_body,
                ).data@[x],
        decreases body_len - j,
    {
        let noise = generator.random_noise_word(noise_parameters, &m);
        // carry the preloaded encoded plaintext onto the native torus, then
        // add the noise word
        let scaled = crate::numeric::mul_mod(output_body.data[j], f, w);
        let v = add_mod(scaled, noise, w);
        proof {
            crate::decomposition::lemma_mod_add_left(
                old(output_body).data@[j as int] as int * m.scaling_to_native_torus(),
                crate::random::noise_word(
                    old(generator).noise_seed(),
                    (old(generator).noise_consumed() + 8 * (j as int)) as nat,
                    noise_parameters,
                    m,
                ),
                w as int,
            );
        }
        output_body.data[j] = v;
        j = j + 1;
    }
    let ghost noisy = output_body.data@;
    // one multisum per body polynomial: chunk c of the key against the mask
    let klen = crs_glwe_secret_key.data.len();
    let chunks = body_len / n;
    proof {
        vstd::arithmetic::div_mod::lemma_fundamental_div_mod(body_len as int, n as int);
        vstd::arithmetic::mul::lemma_mul_is_commutative(n as int, (body_len / n) as int);
    }
    let mut c: usize = 0;
    while c < chunks
        invariant
            c <= chunks,
            n >= 1,
            chunks == body_len as int / n as int,
            body_len == chunks * n,
            output_body.data@.len() == body_len,
            output_body.polynomial_size == old(output_body).polynomial_size,
            output_body.ciphertext_modulus == old(output_body).ciphertext_modulus,
            output_mask.data@.len() == mask_len,
            output_mask.polynomial_size == old(output_mask).polynomial_size,
            output_mask.ciphertext_modulus == m,
            mask_len as int % (n as int) == 0,
            mask_len >= 1,
            crs_glwe_secret_key.data@.len() == klen,
            crs_glwe_secret_key.data@.len() == chunks * mask_len,
            valid_working_modulus(w as int),
            reduced(output_mask.data@, w as int),
            reduced(output_body.data@, w as int),
            reduced(crs_glwe_secret_key.data@, w as int),
            generator.mask_seed() == old(generator).mask_seed(),
            generator.noise_seed() == old(generator).noise_seed(),
            generator.mask_consumed() == old(generator).mask_consumed() + 16 * mask_len,
            generator.noise_consumed() == old(generator).noise_consumed() + 8 * body_len,
            forall|x: int|
                0 <= x < mask_len ==> #[trigger] output_mask.data@[x] as int
                    == crate::random::mask_word(
                    old(generator).mask_seed(),
                    (old(generator).mask_consumed() + 16 * x) as nat,
                    m,
                ),
            forall|d: int, x: int|
                0 <= d < c && 0 <= x < n ==> #[trigger] output_body.data@[d * n as int + x] as int
                    == crate::glwe::multisum_add_acc(
                    noisy[d * n as int + x] as int,
                    output_mask.data@,
                    crs_glwe_secret_key.data@,
                    d * mask_len as int,
                    n as nat,
                    (mask_len as int / n as int) as nat,
                    x,
                    w as int,
                ),
            forall|t: int|
                c * n <= t < body_len ==> #[trigger] output_body.data@[t] == noisy[t],
        decreases chunks - c,
    {
        proof {
            vstd::arithmetic::mul::lemma_mul_inequality(c as int + 1, chunks as int, n as int);
            vstd::arithmetic::mul::lemma_mul_inequality(c as int, chunks as int, n as int);
            vstd::arithmetic::mul::lemma_mul_nonnegative(c as int, n as int);
            vstd::arithmetic::mul::lemma_mul_is_distributive_add_other_way(n as int, c as int, 1);
            vstd::arithmetic::mul::lemma_mul_inequality(c as int + 1, chunks as int, mask_len as int);
            vstd::arithmetic::mul::lemma_mul_inequality(c as int, chunks as int, mask_len as int);
            vstd::arithmetic::mul::lemma_mul_nonnegative(c as int, mask_len as int);
            vstd::arithmetic::mul::lemma_mul_is_distributive_add_other_way(
                mask_len as int,
                c as int,
                1,
            );
        }
        let ghost before_chunk = output_body.data@;
        add_chunk_multisum(
            &mut output_body.data,
            c * n,
            &output_mask.data,
            mask_len,
            &crs_glwe_secret_key.data,
            c * mask_len,
            n,
            w,
        );
        proof {
            assert forall|d: int, x: int|
                0 <= d < c + 1 && 0 <= x < n implies #[trigger] output_body.data@[d * n as int
                + x] as int == crate::glwe::multisum_add_acc(
                noisy[d * n as int + x] as int,
                output_mask.data@,
                crs_glwe_secret_key.data@,
                d * mask_len as int,
                n as nat,
                (mask_len as int / n as int) as nat,
                x,
                w as int,
            ) by {
                vstd::arithmetic::mul::lemma_mul_nonnegative(d, n as int);
                vstd::arithmetic::mul::lemma_mul_is_distributive_add_other_way(n as int, d, 1);
                if d < c {
                    vstd::arithmetic::mul::lemma_mul_inequality(d + 1, c as int, n as int);
                    assert(output_body.data@[d * n as int + x] == before_chunk[d * n as int + x]);
                } else {
                    assert(before_chunk[c as int * n + x] == noisy[c as int * n + x]);
                }
            }
        }
        c = c + 1;
    }
    proof {
        lemma_binary_reduced_crs(crs_glwe_secret_key.data@, w as int);
        assert forall|c_: int, x: int|
            0 <= c_ < body_len as int / n as int && 0 <= x
                < n implies #[trigger] output_body.data@[c_ * n as int + x] as int
            == crate::glwe::multisum_add_acc(
            ((old(output_body).data@[c_ * n as int + x] * m.scaling_to_native_torus()
                + crate::random::noise_word(
                old(generator).noise_seed(),
                (old(generator).noise_consumed() + 8 * (c_ * n as int + x)) as nat,
                noise_parameters,
                m,
            )) % (w as int)),
            output_mask.data@,
            crs_glwe_secret_key.data@,
            c_ * mask_len as int,
            n as nat,
            (mask_len as int / n as int) as nat,
            x,
            w as int,
        ) by {
            vstd::arithmetic::mul::lemma_mul_inequality(c_ + 1, chunks as int, n as int);
            vstd::arithmetic::mul::lemma_mul_nonnegative(c_, n as int);
            vstd::arithmetic::mul::lemma_mul_is_distributive_add_other_way(n as int, c_, 1);
            assert(noisy[c_ * n as int + x] as int == (old(output_body).data@[c_ * n as int + x]
                * m.scaling_to_native_torus() + crate::random::noise_word(
                old(generator).noise_seed(),
                (old(generator).noise_consumed() + 8 * (c_ * n as int + x)) as nat,
                noise_parameters,
                m,
            )) % (w as int));
        }
        let fs = m.scaling_to_native_torus();
        let q = m.modulus();
        assert forall|t: int|
            0 <= t < mask_len implies (#[trigger] output_mask.data@[t] as int) % fs == 0 by {
            let le = crate::random::le_bytes(
                old(generator).mask_seed(),
                (old(generator).mask_consumed() + 16 * t) as nat,
                16,
            ) as int;
            vstd::arithmetic::div_mod::lemma_mod_multiples_basic(le % q, fs);
            vstd::arithmetic::mul::lemma_mul_is_commutative(le % q, fs);
        }
        assert forall|t: int|
            0 <= t < body_len implies (#[trigger] output_body.data@[t] as int) % fs == 0 by {
            vstd::arithmetic::div_mod::lemma_fundamental_div_mod(t, n as int);
            vstd::arithmetic::div_mod::lemma_mod_bound(t, n as int);
            let c_ = t / (n as int);
            let x = t % (n as int);
            if c_ >= chunks {
                vstd::arithmetic::mul::lemma_mul_inequality(chunks as int, c_, n as int);
                vstd::arithmetic::mul::lemma_mul_is_commutative(c_, n as int);
            }
            if c_ < 0 {
                vstd::arithmetic::div_mod::lemma_div_pos_is_pos(t, n as int);
            }
            vstd::arithmetic::mul::lemma_mul_inequality(c_ + 1, chunks as int, mask_len as int);
            vstd::arithmetic::mul::lemma_mul_nonnegative(c_, mask_len as int);
            vstd::arithmetic::mul::lemma_mul_is_distributive_add_other_way(mask_len as int, c_, 1);
            vstd::arithmetic::mul::lemma_mul_is_commutative(c_, n as int);
            let old_word = old(output_body).data@[c_ * (n as int) + x] as int;
            let nw = crate::random::noise_word(
                old(generator).noise_seed(),
                (old(generator).noise_consumed() + 8 * (c_ * (n as int) + x)) as nat,
                noise_parameters,
                m,
            );
            let start = (old_word * fs + nw) % (w as int);
            assert(start % fs == 0) by {
                vstd::arithmetic::div_mod::lemma_mod_multiples_basic(old_word, fs);
                vstd::arithmetic::div_mod::lemma_mod_multiples_basic(
                    crate::random::noise_value(
                        old(generator).noise_seed(),
                        (old(generator).noise_consumed() + 8 * (c_ * (n as int) + x)) as nat,
                        noise_parameters,
                    ) % q,
                    fs,
                );
                vstd::arithmetic::mul::lemma_mul_is_commutative(
                    crate::random::noise_value(
                        old(generator).noise_seed(),
                        (old(generator).noise_consumed() + 8 * (c_ * (n as int) + x)) as nat,
                        noise_parameters,
                    ) % q,
                    fs,
                );
                crate::lwe::lemma_sum_of_multiples_mod(old_word * fs, nw, fs, q);
            }
            vstd::arithmetic::div_mod::lemma_fundamental_div_mod(mask_len as int, n as int);
            vstd::arithmetic::mul::lemma_mul_is_commutative(
                n as int,
                (mask_len as int / n as int),
            );
            crate::glwe::lemma_multisum_acc_carries_scaling(
                start,
                output_mask.data@,
                crs_glwe_secret_key.data@,
                c_ * mask_len as int,
                n as nat,
                (mask_len as int / n as int) as nat,
                x,
                m,
            );
            assert(output_body.data@[c_ * (n as int) + x] as int == crate::glwe::multisum_add_acc(
                start,
                output_mask.data@,
                crs_glwe_secret_key.data@,
                c_ * mask_len as int,
                n as nat,
                (mask_len as int / n as int) as nat,
                x,
                w as int,
            ));
        }
    }
}

/// A binary sequence is reduced under any working modulus (restated here for
/// the CRSGLWE flow).
pub proof fn lemma_binary_reduced_crs(s: Seq<u64>, w: int)
    requires
        crate::lwe::binary_seq(s),
        w >= 2,
    ensures
        reduced(s, w),
{
}

/// Add, into the size-n body polynomial at body[body_off..], the negacyclic
/// multisum of the mask polynomials at mask[0..mask_len) with the key
/// polynomials at key[key_off..key_off+mask_len).
pub fn add_chunk_multisum(
    body: &mut Vec<u64>,
    body_off: usize,
    mask: &Vec<u64>,
    mask_len: usize,
    key: &Vec<u64>,
    key_off: usize,
    n: usize,
    w: u128,
)
    requires
        valid_working_modulus(w as int),
        n >= 1,
        body_off + n <= old(body)@.len(),
        mask_len <= mask@.len(),
        mask_len as int % (n as int) == 0,
        key_off + mask_len <= key@.len(),
        reduced(old(body)@, w as int),
        reduced(mask@, w as int),
        reduced(key@, w as int),
    ensures
        final(body)@.len() == old(body)@.len(),
        reduced(final(body)@, w as int),
        forall|x: int|
            0 <= x < old(body)@.len() && !(body_off <= x < body_off + n) ==> final(body)@[x] == old(
                body,
            )@[x],
        forall|x: int|
            0 <= x < n ==> #[trigger] final(body)@[body_off + x] as int
                == crate::glwe::multisum_add_acc(
                old(body)@[body_off + x] as int,
                mask@,
                key@,
                key_off as int,
                n as nat,
                (mask_len as int / n as int) as nat,
                x,
                w as int,
            ),
{
    let blen = body.len();
    let mlen = mask.len();
    let klen = key.len();
    let poly_count = mask_len / n;
    proof {
        vstd::arithmetic::div_mod::lemma_fundamental_div_mod(mask_len as int, n as int);
        vstd::arithmetic::mul::lemma_mul_is_commutative(n as int, (mask_len / n) as int);
    }
    let mut p: usize = 0;
    while p < poly_count
        invariant
            p <= poly_count,
            n >= 1,
            poly_count == mask_len as int / n as int,
            mask_len == poly_count * n,
            body_off + n <= blen,
            body@.len() == blen,
            mask@.len() == mlen,
            key@.len() == klen,
            mask_len <= mask@.len(),
            key_off + mask_len <= key@.len(),
            valid_working_modulus(w as int),
            reduced(body@, w as int),
            reduced(mask@, w as int),
            reduced(key@, w as int),
            forall|x: int|
                0 <= x < blen && !(body_off <= x < body_off + n) ==> body@[x] == old(body)@[x],
            forall|x: int|
                0 <= x < n ==> #[trigger] body@[body_off + x] as int
                    == crate::glwe::multisum_add_acc(
                    old(body)@[body_off + x] as int,
                    mask@,
                    key@,
                    key_off as int,
                    n as nat,
                    p as nat,
                    x,
                    w as int,
                ),
        decreases poly_count - p,
    {
        proof {
            vstd::arithmetic::mul::lemma_mul_inequality(p as int + 1, poly_count as int, n as int);
            vstd::arithmetic::mul::lemma_mul_inequality(p as int, poly_count as int, n as int);
            vstd::arithmetic::mul::lemma_mul_nonnegative(p as int, n as int);
            vstd::arithmetic::mul::lemma_mul_is_distributive_add_other_way(n as int, p as int, 1);
        }
        let prod = crate::glwe::poly_product(mask, p * n, key, key_off + p * n, n, w);
        crate::polynomial::poly_add_assign(body, body_off, &prod, 0, n, w);
        p = p + 1;
    }
}

/// Encrypt in place: the plaintexts must already sit in the body of the
/// output ciphertext. The mask is drawn uniformly, noise lands on every body
/// coefficient, and the mask·key multisums fold into the body chunks.
pub fn encrypt_crs_glwe_ciphertext_assign(
    crs_glwe_secret_key: &CRSGlweSecretKey,
    output: &mut CRSGlweCiphertext,
    noise_parameters: StandardDev,
    generator: &mut EncryptionRandomGenerator,
)
    requires
        old(output).well_formed(),
        crs_glwe_secret_key.well_formed(),
        crs_glwe_secret_key.polynomial_size == old(output).polynomial_size,
        crs_glwe_secret_key.codimension == old(output).codim,
        old(output).codim >= 1,
        old(output).data@.len() >= old(output).spec_body_len() + 1,
        old(output).spec_body_len() >= 1,
        // the key pairs every body polynomial with all mask polynomials
        crs_glwe_secret_key.data@.len() == old(output).codim as int * (old(output).data@.len()
            - old(output).spec_body_len()),
        noise_parameters.log2_scale <= 64,
    ensures
        final(output).polynomial_size == old(output).polynomial_size,
        final(output).ciphertext_modulus == old(output).ciphertext_modulus,
        final(output).codim == old(output).codim,
        final(output).data@.len() == old(output).data@.len(),
        final(output).well_formed(),
        final(generator).mask_seed() == old(generator).mask_seed(),
        final(generator).noise_seed() == old(generator).noise_seed(),
        final(generator).mask_consumed() == old(generator).mask_consumed() + 16 * (old(
            output,
        ).data@.len() - old(output).spec_body_len()),
        final(generator).noise_consumed() == old(generator).noise_consumed() + 8 * old(
            output,
        ).spec_body_len(),
        forall|i: int|
            0 <= i < old(output).data@.len() - old(output).spec_body_len()
                ==> #[trigger] final(output).data@[i] as int == crate::random::mask_word(
                old(generator).mask_seed(),
                (old(generator).mask_consumed() + 16 * i) as nat,
                old(output).ciphertext_modulus,
            ),
        // body chunk c, coefficient x: the encoded plaintext carried onto the
        // native torus by the scaling factor, plus the noise word, plus the
        // running multisum of the whole mask with key chunk c
        forall|c: int, x: int|
            0 <= c < old(output).codim && 0 <= x < old(output).polynomial_size.0
                ==> #[trigger] final(output).data@[old(output).data@.len() - old(
                output,
            ).spec_body_len() + c * old(output).polynomial_size.0 as int + x] as int
                == crate::glwe::multisum_add_acc(
                ((old(output).data@[old(output).data@.len() - old(output).spec_body_len() + c * old(
                    output,
                ).polynomial_size.0 as int + x] * old(
                    output,
                ).ciphertext_modulus.scaling_to_native_torus() + crate::random::noise_word(
                    old(generator).noise_seed(),
                    (old(generator).noise_consumed() + 8 * (c * old(
                        output,
                    ).polynomial_size.0 as int + x)) as nat,
                    noise_parameters,
                    old(output).ciphertext_modulus,
                )) % old(output).ciphertext_modulus.working_modulus()),
                final(output).data@,
                crs_glwe_secret_key.data@,
                c * (old(output).data@.len() - old(output).spec_body_len()),
                old(output).polynomial_size.0 as nat,
                ((old(output).data@.len() - old(output).spec_body_len()) as int / old(
                    output,
                ).polynomial_size.0 as int) as nat,
                x,
                old(output).ciphertext_modulus.working_modulus(),
            ),
        // every stored word carries the scaling factor to the native torus
        forall|t: int|
            0 <= t < old(output).data@.len()
                ==> (#[trigger] final(output).data@[t] as int) % old(
                output,
            ).ciphertext_modulus.scaling_to_native_torus() == 0,
{
    let m = output.ciphertext_modulus;
    let n = output.polynomial_size.0;
    let data_len = output.data.len();
    let body_len = output.codim * n;
    let mask_len = data_len - body_len;
    proof {
        crate::parameters::lemma_modulus_facts(m);
        crate::numeric::lemma_working_modulus_valid(m);
    }
    let w = m.get_working_modulus();
    let f = m.get_scaling_to_native_torus();
    proof {
        assert((f as int) < w as int) by {
            vstd::arithmetic::mul::lemma_mul_inequality(
                2,
                m.modulus(),
                m.scaling_to_native_torus(),
            );
            vstd::arithmetic::mul::lemma_mul_is_commutative(2, m.scaling_to_native_torus());
            vstd::arithmetic::mul::lemma_mul_is_commutative(
                m.modulus(),
                m.scaling_to_native_torus(),
            );
        }
    }
    // uniform mask
    let mut i: usize = 0;
    while i < mask_len
        invariant
            i <= mask_len,
            mask_len + body_len == data_len,
            output.data@.len() == data_len,
            output.polynomial_size == old(output).polynomial_size,
            output.codim == old(output).codim,
            output.ciphertext_modulus == m,
            m.well_formed(),
            w == m.working_modulus(),
            valid_working_modulus(w as int),
            reduced(output.data@, w as int),
            generator.mask_seed() == old(generator).mask_seed(),
            generator.noise_seed() == old(generator).noise_seed(),
            generator.mask_consumed() == old(generator).mask_consumed() + 16 * i,
            generator.noise_consumed() == old(generator).noise_consumed(),
            forall|x: int|
                0 <= x < i ==> #[trigger] output.data@[x] as int == crate::random::mask_word(
                    old(generator).mask_seed(),
                    (old(generator).mask_consumed() + 16 * x) as nat,
                    m,
                ),
            forall|x: int|
                mask_len <= x < data_len ==> #[trigger] output.data@[x] == old(output).data@[x],
        decreases mask_len - i,
    {
        let word = generator.random_mask_word(&m);
        output.data[i] = word;
        i = i + 1;
    }
    // noise on every body coefficient
    let mut j: usize = 0;
    while j < body_len
        invariant
            j <= body_len,
            mask_len + body_len == data_len,
            output.data@.len() == data_len,
            output.polynomial_size == old(output).polynomial_size,
            output.codim == old(output).codim,
            output.ciphertext_modulus == m,
            m.well_formed(),
            w == m.working_modulus(),
            valid_working_modulus(w as int),
            noise_parameters.log2_scale <= 64,
            reduced(output.data@, w as int),
            generator.mask_seed() == old(generator).mask_seed(),
            generator.noise_seed() == old(generator).noise_seed(),
            generator.mask_consumed() == old(generator).mask_consumed() + 16 * mask_len,
            generator.noise_consumed() == old(generator).noise_consumed() + 8 * j,
            forall|x: int|
                0 <= x < mask_len ==> #[trigger] output.data@[x] as int
                    == crate::random::mask_word(
                    old(generator).mask_seed(),
                    (old(generator).mask_consumed() + 16 * x) as nat,
                    m,
                ),
            f == m.scaling_to_native_torus(),
            (f as int) < w as int,
            forall|x: int|
                0 <= x < j ==> #[trigger] output.data@[mask_len + x] as int == (old(
                    output,
                ).data@[mask_len + x] * m.scaling_to_native_torus() + crate::random::noise_word(
                    old(generator).noise_seed(),
                    (old(generator).noise_consumed() + 8 * x) as nat,
                    noise_parameters,
                    m,
                )) % (w as int),
            forall|x: int|
                j <= x < body_len ==> #[trigger] output.data@[mask_len + x] == old(
                    output,
                ).data@[mask_len + x],
        decreases body_len - j,
    {
        let noise = generator.random_noise_word(noise_parameters, &m);
        // carry the preloaded encoded plaintext onto the native torus, then
        // add the noise word
        let scaled = crate::numeric::mul_mod(output.data[mask_len + j], f, w);
        let v = add_mod(scaled, noise, w);
        proof {
            crate::decomposition::lemma_mod_add_left(
                old(output).data@[mask_len + j as int] as int * m.scaling_to_native_torus(),
                crate::random::noise_word(
                    old(generator).noise_seed(),
                    (old(generator).noise_consumed() + 8 * (j as int)) as nat,
                    noise_parameters,
                    m,
                ),
                w as int,
            );
        }
        output.data[mask_len + j] = v;
        j = j + 1;
    }
    let ghost noisy = output.data@;
    // multisums: body chunk c against key chunk c
    proof {
        lemma_binary_reduced_crs(crs_glwe_secret_key.data@, w as int);
        vstd::arithmetic::div_mod::lemma_mod_multiples_basic(output.codim as int, n as int);
        vstd::arithmetic::mul::lemma_mul_is_commutative(output.codim as int, n as int);
        lemma_mask_len_divisible(data_len as int, body_len as int, n as int);
    }
    let klen = crs_glwe_secret_key.data.len();
    let chunks = output.codim;
    let mut c: usize = 0;
    while c < chunks
        invariant
            c <= chunks,
            n >= 1,
            chunks == output.codim,
            body_len == chunks * n,
            mask_len + body_len == data_len,
            mask_len >= 1,
            mask_len as int % (n as int) == 0,
            output.data@.len() == data_len,
            output.polynomial_size == old(output).polynomial_size,
            output.codim == old(output).codim,
            output.ciphertext_modulus == m,
            crs_glwe_secret_key.data@.len() == klen,
            crs_glwe_secret_key.data@.len() == chunks as int * mask_len as int,
            valid_working_modulus(w as int),
            reduced(output.data@, w as int),
            reduced(crs_glwe_secret_key.data@, w as int),
            generator.mask_seed() == old(generator).mask_seed(),
            generator.noise_seed() == old(generator).noise_seed(),
            generator.mask_consumed() == old(generator).mask_consumed() + 16 * mask_len,
            generator.noise_consumed() == old(generator).noise_consumed() + 8 * body_len,
            forall|x: int|
                0 <= x < mask_len ==> #[trigger] output.data@[x] as int
                    == crate::random::mask_word(
                    old(generator).mask_seed(),
                    (old(generator).mask_consumed() + 16 * x) as nat,
                    m,
                ),
            forall|x: int| 0 <= x < mask_len ==> #[trigger] output.data@[x] == noisy[x],
            forall|d: int, x: int|
                0 <= d < c && 0 <= x < n ==> #[trigger] output.data@[mask_len + d * n as int
                    + x] as int == crate::glwe::multisum_add_acc(
                    noisy[mask_len + d * n as int + x] as int,
                    output.data@,
                    crs_glwe_secret_key.data@,
                    d * mask_len as int,
                    n as nat,
                    (mask_len as int / n as int) as nat,
                    x,
                    w as int,
                ),
            forall|t: int|
                mask_len + c * n <= t < data_len ==> #[trigger] output.data@[t] == noisy[t],
        decreases chunks - c,
    {
        proof {
            vstd::arithmetic::mul::lemma_mul_inequality(c as int + 1, chunks as int, n as int);
            vstd::arithmetic::mul::lemma_mul_inequality(c as int, chunks as int, n as int);
            vstd::arithmetic::mul::lemma_mul_nonnegative(c as int, n as int);
            vstd::arithmetic::mul::lemma_mul_is_distributive_add_other_way(n as int, c as int, 1);
            vstd::arithmetic::mul::lemma_mul_inequality(c as int + 1, chunks as int, mask_len as int);
            vstd::arithmetic::mul::lemma_mul_inequality(c as int, chunks as int, mask_len as int);
            vstd::arithmetic::mul::lemma_mul_nonnegative(c as int, mask_len as int);
            vstd::arithmetic::mul::lemma_mul_is_distributive_add_other_way(
                mask_len as int,
                c as int,
                1,
            );
        }
        let mask_copy = crate::crs_lwe_ciphertext::copy_range(&output.data, 0, mask_len);
        proof {
            assert(reduced(mask_copy@, w as int)) by {
                assert forall|x: int| 0 <= x < mask_copy@.len() implies #[trigger] mask_copy@[x]
                    < w as int by {
                    assert(mask_copy@[x] == output.data@[x]);
                }
            }
        }
        let ghost before_chunk = output.data@;
        add_chunk_multisum(
            &mut output.data,
            mask_len + c * n,
            &mask_copy,
            mask_len,
            &crs_glwe_secret_key.data,
            c * mask_len,
            n,
            w,
        );
        proof {
            vstd::arithmetic::div_mod::lemma_fundamental_div_mod(mask_len as int, n as int);
            vstd::arithmetic::mul::lemma_mul_is_commutative(
                n as int,
                (mask_len as int / n as int),
            );
            assert forall|d: int, x: int|
                0 <= d < c + 1 && 0 <= x < n implies #[trigger] output.data@[mask_len + d
                * n as int + x] as int == crate::glwe::multisum_add_acc(
                noisy[mask_len + d * n as int + x] as int,
                output.data@,
                crs_glwe_secret_key.data@,
                d * mask_len as int,
                n as nat,
                (mask_len as int / n as int) as nat,
                x,
                w as int,
            ) by {
                vstd::arithmetic::mul::lemma_mul_nonnegative(d, n as int);
                vstd::arithmetic::mul::lemma_mul_is_distributive_add_other_way(n as int, d, 1);
                if d < c {
                    vstd::arithmetic::mul::lemma_mul_inequality(d + 1, c as int, n as int);
                    assert(output.data@[mask_len + d * n as int + x] == before_chunk[mask_len + d
                        * n as int + x]);
                    crate::glwe::lemma_multisum_acc_agree(
                        noisy[mask_len + d * n as int + x] as int,
                        before_chunk,
                        output.data@,
                        crs_glwe_secret_key.data@,
                        d * mask_len as int,
                        n as nat,
                        (mask_len as int / n as int) as nat,
                        x,
                        w as int,
                    );
                } else {
                    assert(before_chunk[mask_len + c as int * n + x] == noisy[mask_len + c as int
                        * n + x]);
                    crate::glwe::lemma_multisum_acc_agree(
                        noisy[mask_len + c as int * n + x] as int,
                        mask_copy@,
                        output.data@,
                        crs_glwe_secret_key.data@,
                        c as int * mask_len as int,
                        n as nat,
                        (mask_len as int / n as int) as nat,
                        x,
                        w as int,
                    );
                }
            }
        }
        c = c + 1;
    }
    proof {
        assert forall|c_: int, x: int|
            0 <= c_ < chunks && 0 <= x < n implies #[trigger] output.data@[mask_len + c_
            * n as int + x] as int == crate::glwe::multisum_add_acc(
            ((old(output).data@[mask_len + c_ * n as int + x] * m.scaling_to_native_torus()
                + crate::random::noise_word(
                old(generator).noise_seed(),
                (old(generator).noise_consumed() + 8 * (c_ * n as int + x)) as nat,
                noise_parameters,
                m,
            )) % (w as int)),
            output.data@,
            crs_glwe_secret_key.data@,
            c_ * mask_len as int,
            n as nat,
            (mask_len as int / n as int) as nat,
            x,
            w as int,
        ) by {
            vstd::arithmetic::mul::lemma_mul_inequality(c_ + 1, chunks as int, n as int);
            vstd::arithmetic::mul::lemma_mul_nonnegative(c_, n as int);
            vstd::arithmetic::mul::lemma_mul_is_distributive_add_other_way(n as int, c_, 1);
            let t = c_ * n as int + x;
            assert(noisy[mask_len + t] as int == (old(output).data@[mask_len + t]
                * m.scaling_to_native_torus() + crate::random::noise_word(
                old(generator).noise_seed(),
                (old(generator).noise_consumed() + 8 * t) as nat,
                noise_parameters,
                m,
            )) % (w as int));
            assert(mask_len + t == mask_len + c_ * n as int + x);
        }
        let fs = m.scaling_to_native_torus();
        let q = m.modulus();
        assert forall|t: int|
            0 <= t < mask_len implies (#[trigger] output.data@[t] as int) % fs == 0 by {
            let le = crate::random::le_bytes(
                old(generator).mask_seed(),
                (old(generator).mask_consumed() + 16 * t) as nat,
                16,
            ) as int;
            vstd::arithmetic::div_mod::lemma_mod_multiples_basic(le % q, fs);
            vstd::arithmetic::mul::lemma_mul_is_commutative(le % q, fs);
        }
        assert forall|t: int|
            0 <= t < data_len implies (#[trigger] output.data@[t] as int) % fs == 0 by {
            if t >= mask_len {
                let u = t - mask_len;
                vstd::arithmetic::div_mod::lemma_fundamental_div_mod(u, n as int);
                vstd::arithmetic::div_mod::lemma_mod_bound(u, n as int);
                let c_ = u / (n as int);
                let x = u % (n as int);
                if c_ >= chunks {
                    vstd::arithmetic::mul::lemma_mul_inequality(chunks as int, c_, n as int);
                    vstd::arithmetic::mul::lemma_mul_is_commutative(c_, n as int);
                }
                if c_ < 0 {
                    vstd::arithmetic::div_mod::lemma_div_pos_is_pos(u, n as int);
                }
                vstd::arithmetic::mul::lemma_mul_inequality(c_ + 1, chunks as int, mask_len as int);
                vstd::arithmetic::mul::lemma_mul_nonnegative(c_, mask_len as int);
                vstd::arithmetic::mul::lemma_mul_is_distributive_add_other_way(
                    mask_len as int,
                    c_,
                    1,
                );
                vstd::arithmetic::mul::lemma_mul_is_commutative(c_, n as int);
                let old_word = old(output).data@[mask_len + c_ * (n as int) + x] as int;
                let nw = crate::random::noise_word(
                    old(generator).noise_seed(),
                    (old(generator).noise_consumed() + 8 * (c_ * (n as int) + x)) as nat,
                    noise_parameters,
                    m,
                );
                let start = (old_word * fs + nw) % (w as int);
                assert(start % fs == 0) by {
                    vstd::arithmetic::div_mod::lemma_mod_multiples_basic(old_word, fs);
                    vstd::arithmetic::div_mod::lemma_mod_multiples_basic(
                        crate::random::noise_value(
                            old(generator).noise_seed(),
                            (old(generator).noise_consumed() + 8 * (c_ * (n as int) + x)) as nat,
                            noise_parameters,
                        ) % q,
                        fs,
                    );
                    vstd::arithmetic::mul::lemma_mul_is_commutative(
                        crate::random::noise_value(
                            old(generator).noise_seed(),
                            (old(generator).noise_consumed() + 8 * (c_ * (n as int) + x)) as nat,
                            noise_parameters,
                        ) % q,
                        fs,
                    );
                    crate::lwe::lemma_sum_of_multiples_mod(old_word * fs, nw, fs, q);
                }
                vstd::arithmetic::div_mod::lemma_fundamental_div_mod(mask_len as int, n as int);
                vstd::arithmetic::mul::lemma_mul_is_commutative(
                    n as int,
                    (mask_len as int / n as int),
                );
                crate::glwe::lemma_multisum_acc_carries_scaling(
                    start,
                    output.data@,
                    crs_glwe_secret_key.data@,
                    c_ * mask_len as int,
                    n as nat,
                    (mask_len as int / n as int) as nat,
                    x,
                    m,
                );
                assert(output.data@[mask_len + c_ * (n as int) + x] as int
                    == crate::glwe::multisum_add_acc(
                    start,
                    output.data@,
                    crs_glwe_secret_key.data@,
                    c_ * mask_len as int,
                    n as nat,
                    (mask_len as int / n as int) as nat,
                    x,
                    w as int,
                ));
            }
        }
    }
}

/// When total and body lengths are both multiples of n, so is the mask length.
pub proof fn lemma_mask_len_divisible(total: int, body: int, n: int)
    requires
        n >= 1,
        0 <= body <= total,
        total % n == 0,
        body % n == 0,
    ensures
        (total - body) % n == 0,
{
    let dt = total / n;
    let db = body / n;
    vstd::arithmetic::div_mod::lemma_fundamental_div_mod(total, n);
    vstd::arithmetic::div_mod::lemma_fundamental_div_mod(body, n);
    assert(total - body == n * (dt - db)) by {
        vstd::arithmetic::mul::lemma_mul_is_distributive_sub(n, dt, db);
    }
    vstd::arithmetic::div_mod::lemma_mod_multiples_basic(dt - db, n);
    vstd::arithmetic::mul::lemma_mul_is_commutative(dt - db, n);
}

/// Decrypt a CRSGLWE ciphertext into a plaintext list: copy the body,
/// subtract the mask·key multisum chunk by chunk, and carry every coefficient
/// back from the native torus by the scaling factor.
pub fn decrypt_crs_glwe_ciphertext(
    crs_glwe_secret_key: &CRSGlweSecretKey,
    input_crs_glwe_ciphertext: &CRSGlweCiphertext,
    output_plaintext_list: &mut PlaintextList,
)
    requires
        input_crs_glwe_ciphertext.well_formed(),
        crs_glwe_secret_key.well_formed(),
        crs_glwe_secret_key.polynomial_size == input_crs_glwe_ciphertext.polynomial_size,
        input_crs_glwe_ciphertext.codim >= 1,
        input_crs_glwe_ciphertext.data@.len() >= input_crs_glwe_ciphertext.spec_body_len() + 1,
        input_crs_glwe_ciphertext.spec_body_len() >= 1,
        crs_glwe_secret_key.data@.len() == input_crs_glwe_ciphertext.codim as int * (
        input_crs_glwe_ciphertext.data@.len() - input_crs_glwe_ciphertext.spec_body_len()),
        old(output_plaintext_list).data@.len() == input_crs_glwe_ciphertext.spec_body_len(),
    ensures
        final(output_plaintext_list).data@.len() == old(output_plaintext_list).data@.len(),
        // chunk c, coefficient x: the body coefficient minus the running
        // multisum of the mask with key chunk c, carried back by the scaling
        forall|c: int, x: int|
            0 <= c < input_crs_glwe_ciphertext.codim && 0 <= x
                < input_crs_glwe_ciphertext.polynomial_size.0
                ==> #[trigger] final(output_plaintext_list).data@[c
                * input_crs_glwe_ciphertext.polynomial_size.0 as int + x] as int
                == crate::glwe::multisum_sub_acc(
                input_crs_glwe_ciphertext.data@[input_crs_glwe_ciphertext.data@.len()
                    - input_crs_glwe_ciphertext.spec_body_len() + c
                    * input_crs_glwe_ciphertext.polynomial_size.0 as int + x] as int,
                input_crs_glwe_ciphertext.data@,
                crs_glwe_secret_key.data@,
                c * (input_crs_glwe_ciphertext.data@.len()
                    - input_crs_glwe_ciphertext.spec_body_len()),
                input_crs_glwe_ciphertext.polynomial_size.0 as nat,
                ((input_crs_glwe_ciphertext.data@.len()
                    - input_crs_glwe_ciphertext.spec_body_len()) as int
                    / input_crs_glwe_ciphertext.polynomial_size.0 as int) as nat,
                x,
                input_crs_glwe_ciphertext.ciphertext_modulus.working_modulus(),
            ) / input_crs_glwe_ciphertext.ciphertext_modulus.scaling_to_native_torus(),
{
    let m = input_crs_glwe_ciphertext.ciphertext_modulus;
    let n = input_crs_glwe_ciphertext.polynomial_size.0;
    let data_len = input_crs_glwe_ciphertext.data.len();
    let body_len = input_crs_glwe_ciphertext.codim * n;
    let mask_len = data_len - body_len;
    proof {
        crate::parameters::lemma_modulus_facts(m);
        crate::numeric::lemma_working_modulus_valid(m);
        lemma_binary_reduced_crs(crs_glwe_secret_key.data@, m.working_modulus());
        vstd::arithmetic::div_mod::lemma_mod_multiples_basic(
            input_crs_glwe_ciphertext.codim as int,
            n as int,
        );
        vstd::arithmetic::mul::lemma_mul_is_commutative(
            input_crs_glwe_ciphertext.codim as int,
            n as int,
        );
        lemma_mask_len_divisible(data_len as int, body_len as int, n as int);
    }
    let w = m.get_working_modulus();
    // phase = body - multisums
    let mut phase = crate::crs_lwe_ciphertext::copy_range(
        &input_crs_glwe_ciphertext.data,
        mask_len,
        body_len,
    );
    let mask_copy = crate::crs_lwe_ciphertext::copy_range(&input_crs_glwe_ciphertext.data, 0, mask_len);
    proof {
        assert(reduced(phase@, w as int)) by {
            assert forall|x: int| 0 <= x < phase@.len() implies #[trigger] phase@[x] < w as int by {
                assert(phase@[x] == input_crs_glwe_ciphertext.data@[mask_len + x]);
            }
        }
        assert(reduced(mask_copy@, w as int)) by {
            assert forall|x: int| 0 <= x < mask_copy@.len() implies #[trigger] mask_copy@[x]
                < w as int by {
                assert(mask_copy@[x] == input_crs_glwe_ciphertext.data@[x]);
            }
        }
    }
    let klen = crs_glwe_secret_key.data.len();
    let chunks = input_crs_glwe_ciphertext.codim;
    let mut c: usize = 0;
    while c < chunks
        invariant
            c <= chunks,
            n >= 1,
            body_len == chunks * n,
            mask_len >= 1,
            mask_len as int % (n as int) == 0,
            phase@.len() == body_len,
            mask_copy@.len() == mask_len,
            crs_glwe_secret_key.data@.len() == klen,
            crs_glwe_secret_key.data@.len() == chunks as int * mask_len as int,
            valid_working_modulus(w as int),
            reduced(phase@, w as int),
            reduced(mask_copy@, w as int),
            reduced(crs_glwe_secret_key.data@, w as int),
            forall|y: int|
                0 <= y < mask_len ==> #[trigger] mask_copy@[y]
                    == input_crs_glwe_ciphertext.data@[y],
            forall|d: int, x: int|
                0 <= d < c && 0 <= x < n ==> #[trigger] phase@[d * n as int + x] as int
                    == crate::glwe::multisum_sub_acc(
                    input_crs_glwe_ciphertext.data@[mask_len + d * n as int + x] as int,
                    mask_copy@,
                    crs_glwe_secret_key.data@,
                    d * mask_len as int,
                    n as nat,
                    (mask_len as int / n as int) as nat,
                    x,
                    w as int,
                ),
            forall|t: int|
                c * n <= t < body_len ==> #[trigger] phase@[t]
                    == input_crs_glwe_ciphertext.data@[mask_len + t],
        decreases chunks - c,
    {
        proof {
            vstd::arithmetic::mul::lemma_mul_inequality(c as int + 1, chunks as int, n as int);
            vstd::arithmetic::mul::lemma_mul_inequality(c as int, chunks as int, n as int);
            vstd::arithmetic::mul::lemma_mul_nonnegative(c as int, n as int);
            vstd::arithmetic::mul::lemma_mul_is_distributive_add_other_way(n as int, c as int, 1);
            vstd::arithmetic::mul::lemma_mul_inequality(c as int + 1, chunks as int, mask_len as int);
            vstd::arithmetic::mul::lemma_mul_inequality(c as int, chunks as int, mask_len as int);
            vstd::arithmetic::mul::lemma_mul_nonnegative(c as int, mask_len as int);
            vstd::arithmetic::mul::lemma_mul_is_distributive_add_other_way(
                mask_len as int,
                c as int,
                1,
            );
        }
        let ghost before_chunk = phase@;
        sub_chunk_multisum(
            &mut phase,
            c * n,
            &mask_copy,
            mask_len,
            &crs_glwe_secret_key.data,
            c * mask_len,
            n,
            w,
        );
        proof {
            assert forall|d: int, x: int|
                0 <= d < c + 1 && 0 <= x < n implies #[trigger] phase@[d * n as int + x] as int
                == crate::glwe::multisum_sub_acc(
                input_crs_glwe_ciphertext.data@[mask_len + d * n as int + x] as int,
                mask_copy@,
                crs_glwe_secret_key.data@,
                d * mask_len as int,
                n as nat,
                (mask_len as int / n as int) as nat,
                x,
                w as int,
            ) by {
                vstd::arithmetic::mul::lemma_mul_nonnegative(d, n as int);
                vstd::arithmetic::mul::lemma_mul_is_distributive_add_other_way(n as int, d, 1);
                if d < c {
                    vstd::arithmetic::mul::lemma_mul_inequality(d + 1, c as int, n as int);
                    assert(phase@[d * n as int + x] == before_chunk[d * n as int + x]);
                } else {
                    assert(before_chunk[c as int * n + x]
                        == input_crs_glwe_ciphertext.data@[mask_len + c as int * n + x]);
                }
            }
        }
        c = c + 1;
    }
    proof {
        vstd::arithmetic::div_mod::lemma_fundamental_div_mod(mask_len as int, n as int);
        vstd::arithmetic::mul::lemma_mul_is_commutative(n as int, (mask_len as int / n as int));
        assert forall|c_: int, x: int|
            0 <= c_ < chunks && 0 <= x < n implies #[trigger] phase@[c_ * n as int + x] as int
            == crate::glwe::multisum_sub_acc(
            input_crs_glwe_ciphertext.data@[mask_len + c_ * n as int + x] as int,
            input_crs_glwe_ciphertext.data@,
            crs_glwe_secret_key.data@,
            c_ * mask_len as int,
            n as nat,
            (mask_len as int / n as int) as nat,
            x,
            w as int,
        ) by {
            vstd::arithmetic::mul::lemma_mul_inequality(c_ + 1, chunks as int, n as int);
            vstd::arithmetic::mul::lemma_mul_nonnegative(c_, n as int);
            vstd::arithmetic::mul::lemma_mul_is_distributive_add_other_way(n as int, c_, 1);
            crate::glwe::lemma_multisum_acc_agree(
                input_crs_glwe_ciphertext.data@[mask_len + c_ * n as int + x] as int,
                mask_copy@,
                input_crs_glwe_ciphertext.data@,
                crs_glwe_secret_key.data@,
                c_ * mask_len as int,
                n as nat,
                (mask_len as int / n as int) as nat,
                x,
                w as int,
            );
        }
    }
    let ghost settled = phase@;
    let f = m.get_scaling_to_native_torus();
    let mut k: usize = 0;
    while k < body_len
        invariant
            k <= body_len,
            phase@.len() == body_len,
            phase@ == settled,
            f >= 1,
            f == m.scaling_to_native_torus(),
            output_plaintext_list.data@.len() == old(output_plaintext_list).data@.len(),
            old(output_plaintext_list).data@.len() == body_len,
            forall|t: int|
                0 <= t < k ==> #[trigger] output_plaintext_list.data@[t] as int == phase@[t] as int
                    / f as int,
        decreases body_len - k,
    {
        let v = phase[k] / f;
        output_plaintext_list.data[k] = v;
        k = k + 1;
    }
    proof {
        assert forall|c_: int, x: int|
            0 <= c_ < chunks && 0 <= x
                < n implies #[trigger] output_plaintext_list.data@[c_ * n as int + x] as int
            == crate::glwe::multisum_sub_acc(
            input_crs_glwe_ciphertext.data@[mask_len + c_ * n as int + x] as int,
            input_crs_glwe_ciphertext.data@,
            crs_glwe_secret_key.data@,
            c_ * mask_len as int,
            n as nat,
            (mask_len as int / n as int) as nat,
            x,
            w as int,
        ) / m.scaling_to_native_torus() by {
            vstd::arithmetic::mul::lemma_mul_inequality(c_ + 1, chunks as int, n as int);
            vstd::arithmetic::mul::lemma_mul_nonnegative(c_, n as int);
            vstd::arithmetic::mul::lemma_mul_is_distributive_add_other_way(n as int, c_, 1);
            assert(output_plaintext_list.data@[c_ * n as int + x] as int == settled[c_ * n as int
                + x] as int / f as int);
        }
    }
}

/// Subtract, from the size-n body polynomial at body[body_off..], the
/// negacyclic multisum of the mask polynomials with the key polynomials at
/// key[key_off..key_off+mask_len).
pub fn sub_chunk_multisum(
    body: &mut Vec<u64>,
    body_off: usize,
    mask: &Vec<u64>,
    mask_len: usize,
    key: &Vec<u64>,
    key_off: usize,
    n: usize,
    w: u128,
)
    requires
        valid_working_modulus(w as int),
        n >= 1,
        body_off + n <= old(body)@.len(),
        mask_len <= mask@.len(),
        mask_len as int % (n as int) == 0,
        key_off + mask_len <= key@.len(),
        reduced(old(body)@, w as int),
        reduced(mask@, w as int),
        reduced(key@, w as int),
    ensures
        final(body)@.len() == old(body)@.len(),
        reduced(final(body)@, w as int),
        forall|x: int|
            0 <= x < old(body)@.len() && !(body_off <= x < body_off + n) ==> final(body)@[x] == old(
                body,
            )@[x],
        forall|x: int|
            0 <= x < n ==> #[trigger] final(body)@[body_off + x] as int
                == crate::glwe::multisum_sub_acc(
                old(body)@[body_off + x] as int,
                mask@,
                key@,
                key_off as int,
                n as nat,
                (mask_len as int / n as int) as nat,
                x,
                w as int,
            ),
{
    let blen = body.len();
    let mlen = mask.len();
    let klen = key.len();
    let poly_count = mask_len / n;
    proof {
        vstd::arithmetic::div_mod::lemma_fundamental_div_mod(mask_len as int, n as int);
        vstd::arithmetic::mul::lemma_mul_is_commutative(n as int, (mask_len / n) as int);
    }
    let mut p: usize = 0;
    while p < poly_count
        invariant
            p <= poly_count,
            n >= 1,
            poly_count == mask_len as int / n as int,
            mask_len == poly_count * n,
            body_off + n <= blen,
            body@.len() == blen,
            mask@.len() == mlen,
            key@.len() == klen,
            mask_len <= mask@.len(),
            key_off + mask_len <= key@.len(),
            valid_working_modulus(w as int),
            reduced(body@, w as int),
            reduced(mask@, w as int),
            reduced(key@, w as int),
            forall|x: int|
                0 <= x < blen && !(body_off <= x < body_off + n) ==> body@[x] == old(body)@[x],
            forall|x: int|
                0 <= x < n ==> #[trigger] body@[body_off + x] as int
                    == crate::glwe::multisum_sub_acc(
                    old(body)@[body_off + x] as int,
                    mask@,
                    key@,
                    key_off as int,
                    n as nat,
                    p as nat,
                    x,
                    w as int,
                ),
        decreases poly_count - p,
    {
        proof {
            vstd::arithmetic::mul::lemma_mul_inequality(p as int + 1, poly_count as int, n as int);
            vstd::arithmetic::mul::lemma_mul_inequality(p as int, poly_count as int, n as int);
            vstd::arithmetic::mul::lemma_mul_nonnegative(p as int, n as int);
            vstd::arithmetic::mul::lemma_mul_is_distributive_add_other_way(n as int, p as int, 1);
        }
        let prod = crate::glwe::poly_product(mask, p * n, key, key_off + p * n, n, w);
        crate::polynomial::poly_sub_assign(body, body_off, &prod, 0, n, w);
        p = p + 1;
    }
}

} // verus!

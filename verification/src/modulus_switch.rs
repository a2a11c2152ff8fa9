//! Switching ciphertexts and plaintexts between power-of-two moduli by
//! rounding away the low bits, and stripping a CRSLWE ciphertext down to its
//! noise.

use vstd::prelude::*;
use crate::parameters::{DecompositionBaseLog, DecompositionLevelCount};
use crate::decomposition::{SignedDecomposer, closest_native};
use crate::crs_lwe_ciphertext::CRSLweCiphertext;
use crate::crs_lwe_secret_key::CRSLweSecretKey;
use crate::lwe::PlaintextList;
use crate::numeric::{dot_mod, dot_product_mod, reduced, sub_mod, valid_working_modulus};

verus! {

/// Round a word to the closest multiple of 2^(modulus_log - poly_log - 1),
/// then drop that scale: the integer the rounding keeps.
pub fn integer_round(lwe: u64, log_poly_size: u64, ciphertext_modulus_log: usize) -> (r: u64)
    requires
        log_poly_size < 63,
        log_poly_size as usize + 1 < ciphertext_modulus_log,
        ciphertext_modulus_log <= 64,
    ensures
        ({
            let shifted = lwe >> (ciphertext_modulus_log as u64 - log_poly_size - 1);
            r == (((shifted + (shifted & 1)) as u64) >> 1u64)
        }),
{
    let shift: u64 = ciphertext_modulus_log as u64 - log_poly_size - 1;
    let res = lwe >> shift;
    proof {
        assert((lwe >> shift) <= 0x7fff_ffff_ffff_ffffu64 && ((lwe >> shift) & 1) <= 1)
            by (bit_vector)
            requires
                shift >= 1,
        ;
    }
    let res2 = res + (res & 1);
    res2 >> 1u64
}

/// Round every element of the ciphertext to the closest value representable
/// with new_modulus_log bits out of old_modulus_log: the closest
/// representable value of the decomposition with one level of
/// 64 - old + new bits. Only the coefficients change; the stored ciphertext
/// modulus stays what it was, as the rounded words still live on the same
/// torus.
pub fn change_modulus_ciphertext(
    crs_lwe_ciphertext: &mut CRSLweCiphertext,
    old_modulus_log: usize,
    new_modulus_log: usize,
)
    requires
        old(crs_lwe_ciphertext).well_formed(),
        new_modulus_log < old_modulus_log,
        old_modulus_log <= 64,
        64 - old_modulus_log + new_modulus_log >= 1,
    ensures
        final(crs_lwe_ciphertext).data@.len() == old(crs_lwe_ciphertext).data@.len(),
        final(crs_lwe_ciphertext).codim == old(crs_lwe_ciphertext).codim,
        final(crs_lwe_ciphertext).ciphertext_modulus == old(crs_lwe_ciphertext).ciphertext_modulus,
        forall|i: int|
            0 <= i < final(crs_lwe_ciphertext).data@.len() ==> #[trigger] final(crs_lwe_ciphertext).data@[i] == closest_native(
                old(crs_lwe_ciphertext).data@[i],
                (64 - old_modulus_log + new_modulus_log) as nat,
                1,
            ),
{
    let decomposer = SignedDecomposer::new(
        DecompositionBaseLog(64 - old_modulus_log + new_modulus_log),
        DecompositionLevelCount(1),
    );
    let len = crs_lwe_ciphertext.data.len();
    let mut i: usize = 0;
    while i < len
        invariant
            i <= len,
            crs_lwe_ciphertext.data@.len() == len,
            crs_lwe_ciphertext.codim == old(crs_lwe_ciphertext).codim,
            crs_lwe_ciphertext.ciphertext_modulus == old(crs_lwe_ciphertext).ciphertext_modulus,
            decomposer.well_formed(),
            decomposer.base_log_spec() == (64 - old_modulus_log + new_modulus_log) as nat,
            decomposer.level_count_spec() == 1,
            forall|j: int|
                0 <= j < i ==> #[trigger] crs_lwe_ciphertext.data@[j] == closest_native(
                    old(crs_lwe_ciphertext).data@[j],
                    (64 - old_modulus_log + new_modulus_log) as nat,
                    1,
                ),
            forall|j: int|
                i <= j < len ==> crs_lwe_ciphertext.data@[j] == old(crs_lwe_ciphertext).data@[j],
        decreases len - i,
    {
        let v = decomposer.closest_representable(crs_lwe_ciphertext.data[i]);
        crs_lwe_ciphertext.data[i] = v;
        i = i + 1;
    }
}

/// Round every plaintext of the list the same way a ciphertext is switched.
pub fn change_modulus_plaintext(
    plaintext_list: &mut PlaintextList,
    old_modulus_log: usize,
    new_modulus_log: usize,
)
    requires
        new_modulus_log < old_modulus_log,
        old_modulus_log <= 64,
        64 - old_modulus_log + new_modulus_log >= 1,
    ensures
        final(plaintext_list).data@.len() == old(plaintext_list).data@.len(),
        forall|i: int|
            0 <= i < final(plaintext_list).data@.len() ==> #[trigger] final(plaintext_list).data@[i] == closest_native(
                old(plaintext_list).data@[i],
                (64 - old_modulus_log + new_modulus_log) as nat,
                1,
            ),
{
    let decomposer = SignedDecomposer::new(
        DecompositionBaseLog(64 - old_modulus_log + new_modulus_log),
        DecompositionLevelCount(1),
    );
    let len = plaintext_list.data.len();
    let mut i: usize = 0;
    while i < len
        invariant
            i <= len,
            plaintext_list.data@.len() == len,
            decomposer.well_formed(),
            decomposer.base_log_spec() == (64 - old_modulus_log + new_modulus_log) as nat,
            decomposer.level_count_spec() == 1,
            forall|j: int|
                0 <= j < i ==> #[trigger] plaintext_list.data@[j] == closest_native(
                    old(plaintext_list).data@[j],
                    (64 - old_modulus_log + new_modulus_log) as nat,
                    1,
                ),
            forall|j: int| i <= j < len ==> plaintext_list.data@[j] == old(plaintext_list).data@[j],
        decreases len - i,
    {
        let v = decomposer.closest_representable(plaintext_list.data[i]);
        plaintext_list.data[i] = v;
        i = i + 1;
    }
}

/// Subtract from every body element the mask·key dot product of its chunk and
/// the matching plaintext, leaving only the noise: body j becomes
/// body_j - mask·key_j - text_j modulo the working modulus.
pub fn remove_text_and_mask(
    crs_lwe_secret_key: &CRSLweSecretKey,
    crs_lwe_ciphertext: &mut CRSLweCiphertext,
    plaintext_list: &PlaintextList,
)
    requires
        old(crs_lwe_ciphertext).well_formed(),
        old(crs_lwe_ciphertext).codim >= 1,
        old(crs_lwe_ciphertext).codim < old(crs_lwe_ciphertext).data@.len(),
        crate::lwe::binary_seq(crs_lwe_secret_key.data@),
        crs_lwe_secret_key.data@.len() == old(crs_lwe_ciphertext).codim as int * (old(crs_lwe_ciphertext).data@.len() - old(crs_lwe_ciphertext).codim),
        plaintext_list.data@.len() >= old(crs_lwe_ciphertext).codim,
        reduced(
            plaintext_list.data@,
            old(crs_lwe_ciphertext).ciphertext_modulus.working_modulus(),
        ),
    ensures
        final(crs_lwe_ciphertext).data@.len() == old(crs_lwe_ciphertext).data@.len(),
        final(crs_lwe_ciphertext).codim == old(crs_lwe_ciphertext).codim,
        final(crs_lwe_ciphertext).ciphertext_modulus == old(crs_lwe_ciphertext).ciphertext_modulus,
        final(crs_lwe_ciphertext).well_formed(),
        forall|j: int|
            0 <= j < old(crs_lwe_ciphertext).data@.len() - old(crs_lwe_ciphertext).codim
                ==> final(crs_lwe_ciphertext).data@[j] == old(crs_lwe_ciphertext).data@[j],
        forall|c: int|
            0 <= c < old(crs_lwe_ciphertext).codim ==> #[trigger] final(crs_lwe_ciphertext).data@[
            old(crs_lwe_ciphertext).data@.len() - old(crs_lwe_ciphertext).codim + c] == (((old(
                crs_lwe_ciphertext,
            ).data@[old(crs_lwe_ciphertext).data@.len() - old(crs_lwe_ciphertext).codim + c]
                - dot_mod(
                old(crs_lwe_ciphertext).data@,
                0,
                crs_lwe_secret_key.data@,
                c * (old(crs_lwe_ciphertext).data@.len() - old(crs_lwe_ciphertext).codim),
                (old(crs_lwe_ciphertext).data@.len() - old(crs_lwe_ciphertext).codim) as nat,
                old(crs_lwe_ciphertext).ciphertext_modulus.working_modulus(),
            )) % old(crs_lwe_ciphertext).ciphertext_modulus.working_modulus())
                - plaintext_list.data@[c]) % old(
                crs_lwe_ciphertext,
            ).ciphertext_modulus.working_modulus(),
{
    let m = crs_lwe_ciphertext.ciphertext_modulus;
    proof {
        crate::parameters::lemma_modulus_facts(m);
        crate::numeric::lemma_working_modulus_valid(m);
        crate::lwe::lemma_binary_reduced(
            crs_lwe_secret_key.data@,
            m.working_modulus(),
        );
    }
    let w = m.get_working_modulus();
    let total = crs_lwe_ciphertext.data.len();
    let codim = crs_lwe_ciphertext.codim;
    let dim = total - codim;
    let klen = crs_lwe_secret_key.data.len();
    let mask = crate::crs_lwe_ciphertext::copy_range(&crs_lwe_ciphertext.data, 0, dim);
    proof {
        assert(reduced(mask@, w as int)) by {
            assert forall|y: int| 0 <= y < mask@.len() implies #[trigger] mask@[y] < w as int by {
                assert(mask@[y] == crs_lwe_ciphertext.data@[y]);
            }
        }
    }
    let mut c: usize = 0;
    while c < codim
        invariant
            c <= codim,
            codim >= 1,
            total == dim + codim,
            dim >= 1,
            crs_lwe_ciphertext.data@.len() == total,
            old(crs_lwe_ciphertext).data@.len() == total,
            crs_lwe_ciphertext.codim == codim,
            crs_lwe_ciphertext.ciphertext_modulus == m,
            klen == crs_lwe_secret_key.data@.len(),
            klen == codim as int * dim as int,
            mask@.len() == dim,
            plaintext_list.data@.len() >= codim,
            forall|y: int| 0 <= y < dim ==> mask@[y] == old(crs_lwe_ciphertext).data@[y],
            forall|y: int| 0 <= y < dim ==> crs_lwe_ciphertext.data@[y] == old(crs_lwe_ciphertext).data@[y],
            forall|y: int|
                c <= y < codim ==> #[trigger] crs_lwe_ciphertext.data@[dim + y] == old(
                    crs_lwe_ciphertext,
                ).data@[dim + y],
            forall|y: int|
                0 <= y < c ==> #[trigger] crs_lwe_ciphertext.data@[dim as int + y] == (((old(
                    crs_lwe_ciphertext,
                ).data@[dim as int + y] - dot_mod(
                    old(crs_lwe_ciphertext).data@,
                    0,
                    crs_lwe_secret_key.data@,
                    y * dim as int,
                    dim as nat,
                    m.working_modulus(),
                )) % m.working_modulus()) - plaintext_list.data@[y]) % m.working_modulus(),
            valid_working_modulus(w as int),
            w == m.working_modulus(),
            reduced(crs_lwe_ciphertext.data@, w as int),
            reduced(mask@, w as int),
            reduced(crs_lwe_secret_key.data@, w as int),
            reduced(plaintext_list.data@, w as int),
        decreases codim - c,
    {
        proof {
            vstd::arithmetic::mul::lemma_mul_inequality(c as int + 1, codim as int, dim as int);
            vstd::arithmetic::mul::lemma_mul_inequality(c as int, codim as int, dim as int);
            vstd::arithmetic::mul::lemma_mul_nonnegative(c as int, dim as int);
            vstd::arithmetic::mul::lemma_mul_is_distributive_add_other_way(
                dim as int,
                c as int,
                1,
            );
        }
        let dot = dot_product_mod(&mask, 0, &crs_lwe_secret_key.data, c * dim, dim, w);
        proof {
            lemma_dot_same(
                mask@,
                old(crs_lwe_ciphertext).data@,
                crs_lwe_secret_key.data@,
                c as int * dim as int,
                dim as nat,
                w as int,
            );
        }
        let after_dot = sub_mod(crs_lwe_ciphertext.data[dim + c], dot, w);
        let after_text = sub_mod(after_dot, plaintext_list.data[c], w);
        crs_lwe_ciphertext.data[dim + c] = after_text;
        c = c + 1;
    }
}

/// Two sequences that agree on a prefix give the same dot product against any
/// range of a third.
proof fn lemma_dot_same(a: Seq<u64>, b: Seq<u64>, s: Seq<u64>, so: int, len: nat, w: int)
    requires
        forall|j: int| 0 <= j < len ==> a[j] == b[j],
        len <= a.len(),
        len <= b.len(),
    ensures
        dot_mod(a, 0, s, so, len, w) == dot_mod(b, 0, s, so, len, w),
    decreases len,
{
    if len > 0 {
        lemma_dot_same(a, b, s, so, (len - 1) as nat, w);
    }
}

} // verus!

//! Linear algebra on CRSLWE ciphertexts: homomorphic addition and plaintext
//! addition, element by element modulo the working modulus.

use vstd::prelude::*;
use crate::parameters::Plaintext;
use crate::numeric::{add_mod, valid_working_modulus, reduced};
use crate::crs_lwe_ciphertext::CRSLweCiphertext;

verus! {

/// Add the right ciphertext into the left one: every element of the result is
/// the elementwise sum modulo the working modulus.
pub fn crs_lwe_ciphertext_add_assign(lhs: &mut CRSLweCiphertext, rhs: &CRSLweCiphertext)
    requires
        old(lhs).well_formed(),
        rhs.well_formed(),
        old(lhs).ciphertext_modulus == rhs.ciphertext_modulus,
        old(lhs).data@.len() == rhs.data@.len(),
    ensures
        final(lhs).data@.len() == old(lhs).data@.len(),
        final(lhs).codim == old(lhs).codim,
        final(lhs).ciphertext_modulus == old(lhs).ciphertext_modulus,
        final(lhs).well_formed(),
        forall|i: int|
            0 <= i < final(lhs).data@.len() ==> #[trigger] final(lhs).data@[i] == (old(
                lhs,
            ).data@[i] + rhs.data@[i]) % old(lhs).ciphertext_modulus.working_modulus(),
{
    let m = lhs.ciphertext_modulus;
    proof {
        crate::parameters::lemma_modulus_facts(m);
        crate::numeric::lemma_working_modulus_valid(m);
    }
    let w = m.get_working_modulus();
    let len = lhs.data.len();
    let mut i: usize = 0;
    while i < len
        invariant
            i <= len,
            lhs.data@.len() == len,
            rhs.data@.len() == len,
            lhs.codim == old(lhs).codim,
            lhs.ciphertext_modulus == m,
            m.well_formed(),
            w == m.working_modulus(),
            valid_working_modulus(w as int),
            reduced(lhs.data@, w as int),
            reduced(rhs.data@, w as int),
            forall|j: int|
                0 <= j < i ==> #[trigger] lhs.data@[j] == (old(lhs).data@[j] + rhs.data@[j]) % (
                w as int),
            forall|j: int| i <= j < len ==> lhs.data@[j] == old(lhs).data@[j],
        decreases len - i,
    {
        let v = add_mod(lhs.data[i], rhs.data[i], w);
        lhs.data[i] = v;
        i = i + 1;
    }
}

/// Write the elementwise sum modulo the working modulus of the two right
/// ciphertexts into the output.
pub fn crs_lwe_ciphertext_add(
    output: &mut CRSLweCiphertext,
    lhs: &CRSLweCiphertext,
    rhs: &CRSLweCiphertext,
)
    requires
        old(output).well_formed(),
        lhs.well_formed(),
        rhs.well_formed(),
        lhs.ciphertext_modulus == rhs.ciphertext_modulus,
        old(output).ciphertext_modulus == rhs.ciphertext_modulus,
        old(output).data@.len() == rhs.data@.len(),
        lhs.data@.len() == rhs.data@.len(),
    ensures
        final(output).data@.len() == old(output).data@.len(),
        final(output).codim == old(output).codim,
        final(output).ciphertext_modulus == old(output).ciphertext_modulus,
        final(output).well_formed(),
        forall|i: int|
            0 <= i < final(output).data@.len() ==> #[trigger] final(output).data@[i] == (
            lhs.data@[i] + rhs.data@[i]) % old(output).ciphertext_modulus.working_modulus(),
{
    let m = output.ciphertext_modulus;
    proof {
        crate::parameters::lemma_modulus_facts(m);
        crate::numeric::lemma_working_modulus_valid(m);
    }
    let w = m.get_working_modulus();
    let len = output.data.len();
    let mut i: usize = 0;
    while i < len
        invariant
            i <= len,
            output.data@.len() == len,
            lhs.data@.len() == len,
            rhs.data@.len() == len,
            output.codim == old(output).codim,
            output.ciphertext_modulus == m,
            m.well_formed(),
            w == m.working_modulus(),
            valid_working_modulus(w as int),
            reduced(output.data@, w as int),
            reduced(lhs.data@, w as int),
            reduced(rhs.data@, w as int),
            forall|j: int|
                0 <= j < i ==> #[trigger] output.data@[j] == (lhs.data@[j] + rhs.data@[j]) % (
                w as int),
        decreases len - i,
    {
        let v = add_mod(lhs.data[i], rhs.data[i], w);
        output.data[i] = v;
        i = i + 1;
    }
}

/// Add one encoded plaintext into every body element of the ciphertext: the
/// plaintext is carried to the native torus by the scaling factor first, and
/// the mask is kept.
pub fn crs_lwe_ciphertext_plaintext_add_assign(lhs: &mut CRSLweCiphertext, rhs: Plaintext)
    requires
        old(lhs).well_formed(),
        rhs.0 < old(lhs).ciphertext_modulus.modulus(),
    ensures
        final(lhs).data@.len() == old(lhs).data@.len(),
        final(lhs).codim == old(lhs).codim,
        final(lhs).ciphertext_modulus == old(lhs).ciphertext_modulus,
        final(lhs).well_formed(),
        forall|i: int|
            0 <= i < final(lhs).data@.len() - old(lhs).codim ==> final(lhs).data@[i] == old(
                lhs,
            ).data@[i],
        forall|i: int|
            final(lhs).data@.len() - old(lhs).codim <= i < final(lhs).data@.len()
                ==> #[trigger] final(lhs).data@[i] == (old(lhs).data@[i] + rhs.0
                * old(lhs).ciphertext_modulus.scaling_to_native_torus()) % old(
                lhs,
            ).ciphertext_modulus.working_modulus(),
{
    let m = lhs.ciphertext_modulus;
    proof {
        crate::parameters::lemma_modulus_facts(m);
        crate::numeric::lemma_working_modulus_valid(m);
        crate::random::lemma_scaled_residue_bound(rhs.0 as int, m);
    }
    let w = m.get_working_modulus();
    let f = m.get_scaling_to_native_torus();
    let encoded: u64 = (((rhs.0 as u128) * (f as u128)) as u64);
    let len = lhs.data.len();
    let start = len - lhs.codim;
    let mut i: usize = start;
    while i < len
        invariant
            start <= i <= len,
            start == len - old(lhs).codim,
            lhs.data@.len() == len,
            lhs.codim == old(lhs).codim,
            lhs.ciphertext_modulus == m,
            m.well_formed(),
            w == m.working_modulus(),
            valid_working_modulus(w as int),
            encoded == rhs.0 * m.scaling_to_native_torus(),
            encoded < w,
            reduced(lhs.data@, w as int),
            forall|j: int| 0 <= j < start ==> lhs.data@[j] == old(lhs).data@[j],
            forall|j: int|
                start <= j < i ==> #[trigger] lhs.data@[j] == (old(lhs).data@[j] + rhs.0
                    * m.scaling_to_native_torus()) % (w as int),
            forall|j: int| i <= j < len ==> lhs.data@[j] == old(lhs).data@[j],
        decreases len - i,
    {
        let v = add_mod(lhs.data[i], encoded, w);
        lhs.data[i] = v;
        i = i + 1;
    }
}

} // verus!

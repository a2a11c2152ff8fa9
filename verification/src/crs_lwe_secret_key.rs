//! The CRSLWE secret key: a flat vector of dimension·codimension binary
//! coefficients, read as codimension chunks of dimension elements.

use vstd::prelude::*;
use crate::parameters::{CRSLweCodimension, CRSLweDimension};
use crate::lwe::{binary_seq, vec_of_zeros};
use crate::random::{SecretRandomGenerator, binary_word};

verus! {

/// A CRSLWE secret key.
#[derive(Clone, Debug, PartialEq, Eq)]
pub struct CRSLweSecretKey {
    pub data: Vec<u64>,
    pub codimension: usize,
}

impl CRSLweSecretKey {
    /// Wrap an existing coefficient vector with its codimension.
    pub fn from_container(container: Vec<u64>, codim: usize) -> (r: CRSLweSecretKey)
        requires
            container@.len() >= 1,
            codim >= 1,
        ensures
            r.data@ == container@,
            r.codimension == codim,
    {
        CRSLweSecretKey { data: container, codimension: codim }
    }

    /// The dimension: the coefficient count divided by the codimension.
    pub fn crs_lwe_dimension(&self) -> (r: CRSLweDimension)
        requires
            self.codimension >= 1,
        ensures
            r.0 == self.data@.len() as int / self.codimension as int,
    {
        CRSLweDimension(self.data.len() / self.codimension)
    }

    /// The underlying coefficient vector.
    pub fn into_container(self) -> (r: Vec<u64>)
        ensures
            r@ == self.data@,
    {
        self.data
    }

    /// Allocate a key of the given shape filled with one value.
    pub fn new_empty_key(
        fill_with: u64,
        crs_lwe_dimension: CRSLweDimension,
        crs_lwe_codimension: CRSLweCodimension,
    ) -> (r: CRSLweSecretKey)
        requires
            crs_lwe_dimension.0 * crs_lwe_codimension.0 <= usize::MAX,
            fill_with <= 1,
        ensures
            r.data@.len() == crs_lwe_dimension.0 * crs_lwe_codimension.0,
            r.codimension == crs_lwe_codimension.0,
            binary_seq(r.data@),
            forall|i: int| 0 <= i < r.data@.len() ==> r.data@[i] == fill_with,
    {
        let len = crs_lwe_dimension.0 * crs_lwe_codimension.0;
        let mut data = vec_of_zeros(len);
        let mut i: usize = 0;
        while i < len
            invariant
                i <= len,
                data@.len() == len,
                fill_with <= 1,
                forall|j: int| 0 <= j < i ==> data@[j] == fill_with,
                forall|j: int| i <= j < len ==> data@[j] == 0,
            decreases len - i,
        {
            data[i] = fill_with;
            i = i + 1;
        }
        CRSLweSecretKey { data, codimension: crs_lwe_codimension.0 }
    }

    /// Allocate a new key and fill it with uniformly random binary
    /// coefficients: element i becomes the parity of stream byte
    /// `consumed + i`.
    pub fn generate_new_binary(
        crs_lwe_dimension: CRSLweDimension,
        crs_lwe_codimension: CRSLweCodimension,
        generator: &mut SecretRandomGenerator,
    ) -> (r: CRSLweSecretKey)
        requires
            crs_lwe_dimension.0 * crs_lwe_codimension.0 <= usize::MAX,
        ensures
            r.data@.len() == crs_lwe_dimension.0 * crs_lwe_codimension.0,
            r.codimension == crs_lwe_codimension.0,
            binary_seq(r.data@),
            final(generator).stream_seed() == old(generator).stream_seed(),
            final(generator).consumed() == old(generator).consumed() + r.data@.len(),
            forall|i: int|
                0 <= i < r.data@.len() ==> r.data@[i] == binary_word(
                    old(generator).stream_seed(),
                    (old(generator).consumed() + i) as nat,
                ),
    {
        let mut key = CRSLweSecretKey::new_empty_key(0, crs_lwe_dimension, crs_lwe_codimension);
        generate_binary_crs_lwe_secret_key(&mut key, generator);
        key
    }
}

/// Fill a CRSLWE secret key with uniformly random binary coefficients.
pub fn generate_binary_crs_lwe_secret_key(
    crs_lwe_secret_key: &mut CRSLweSecretKey,
    generator: &mut SecretRandomGenerator,
)
    ensures
        final(crs_lwe_secret_key).data@.len() == old(crs_lwe_secret_key).data@.len(),
        final(crs_lwe_secret_key).codimension == old(crs_lwe_secret_key).codimension,
        binary_seq(final(crs_lwe_secret_key).data@),
        final(generator).stream_seed() == old(generator).stream_seed(),
        final(generator).consumed() == old(generator).consumed() + old(
            crs_lwe_secret_key,
        ).data@.len(),
        forall|i: int|
            0 <= i < final(crs_lwe_secret_key).data@.len() ==> final(crs_lwe_secret_key).data@[i]
                == binary_word(
                old(generator).stream_seed(),
                (old(generator).consumed() + i) as nat,
            ),
{
    generator.fill_slice_with_random_uniform_binary(&mut crs_lwe_secret_key.data);
}

/// Allocate a new CRSLWE secret key and fill it with uniformly random binary
/// coefficients.
pub fn allocate_and_generate_new_binary_crs_lwe_secret_key(
    crs_lwe_dimension: CRSLweDimension,
    crs_lwe_codimension: CRSLweCodimension,
    generator: &mut SecretRandomGenerator,
) -> (r: CRSLweSecretKey)
    requires
        crs_lwe_dimension.0 * crs_lwe_codimension.0 <= usize::MAX,
    ensures
        r.data@.len() == crs_lwe_dimension.0 * crs_lwe_codimension.0,
        r.codimension == crs_lwe_codimension.0,
        binary_seq(r.data@),
        final(generator).stream_seed() == old(generator).stream_seed(),
        final(generator).consumed() == old(generator).consumed() + r.data@.len(),
        forall|i: int|
            0 <= i < r.data@.len() ==> r.data@[i] == binary_word(
                old(generator).stream_seed(),
                (old(generator).consumed() + i) as nat,
            ),
{
    CRSLweSecretKey::generate_new_binary(crs_lwe_dimension, crs_lwe_codimension, generator)
}

/// A CRSLWE secret key owning its storage.
pub type CRSLweSecretKeyOwned = CRSLweSecretKey;

} // verus!

//! The CRSGLWE secret key: k·d binary polynomials of N coefficients, read as
//! d chunks of k polynomials.

use vstd::prelude::*;
use crate::parameters::{CRSGlweCodimension, CRSGlweDimension, PolynomialSize};
use crate::lwe::{binary_seq, vec_of_zeros};
use crate::polynomial::PolynomialList;
use crate::crs_lwe_ciphertext::copy_range;
use crate::crs_lwe_secret_key::CRSLweSecretKey;
use crate::random::{SecretRandomGenerator, binary_word};

verus! {

/// A CRSGLWE secret key.
#[derive(Clone, Debug, PartialEq, Eq)]
pub struct CRSGlweSecretKey {
    pub data: Vec<u64>,
    pub polynomial_size: PolynomialSize,
    pub codimension: usize,
}

impl CRSGlweSecretKey {
    /// The shape invariant of a CRSGLWE secret key.
    pub open spec fn well_formed(&self) -> bool {
        &&& self.polynomial_size.0 >= 1
        &&& self.codimension >= 1
        &&& self.data@.len() as int % (self.polynomial_size.0 as int) == 0
        &&& binary_seq(self.data@)
    }

    /// Wrap an existing coefficient vector with its codimension.
    pub fn from_container(container: Vec<u64>, polynomial_size: PolynomialSize, codim: usize) -> (r:
        CRSGlweSecretKey)
        requires
            container@.len() >= 1,
            polynomial_size.0 >= 1,
            codim >= 1,
            container@.len() as int % (polynomial_size.0 as int) == 0,
        ensures
            r.data@ == container@,
            r.polynomial_size == polynomial_size,
            r.codimension == codim,
    {
        CRSGlweSecretKey { data: container, polynomial_size, codimension: codim }
    }

    /// The dimension: the polynomial count divided by the codimension.
    pub fn crs_glwe_dimension(&self) -> (r: CRSGlweDimension)
        requires
            self.polynomial_size.0 >= 1,
            self.codimension >= 1,
        ensures
            r.0 == self.data@.len() as int / self.polynomial_size.0 as int
                / self.codimension as int,
    {
        CRSGlweDimension(self.data.len() / self.polynomial_size.0 / self.codimension)
    }

    /// The polynomial size.
    pub fn polynomial_size(&self) -> (r: PolynomialSize)
        ensures
            r == self.polynomial_size,
    {
        self.polynomial_size
    }

    /// Reinterpret the key as a flat CRSLWE secret key.
    pub fn into_crs_lwe_secret_key(self) -> (r: CRSLweSecretKey)
        requires
            self.data@.len() >= 1,
            self.codimension >= 1,
        ensures
            r.data@ == self.data@,
            r.codimension == self.codimension,
    {
        CRSLweSecretKey::from_container(self.data, self.codimension)
    }

    /// The key as a polynomial list (a copy).
    pub fn as_polynomial_list(&self) -> (r: PolynomialList)
        requires
            self.polynomial_size.0 >= 1,
            self.data@.len() as int % (self.polynomial_size.0 as int) == 0,
        ensures
            r.data@ == self.data@,
            r.polynomial_size == self.polynomial_size,
    {
        let data = copy_range(&self.data, 0, self.data.len());
        proof {
            assert(data@ =~= self.data@);
        }
        PolynomialList { data, polynomial_size: self.polynomial_size }
    }

    /// The underlying coefficient vector.
    pub fn into_container(self) -> (r: Vec<u64>)
        ensures
            r@ == self.data@,
    {
        self.data
    }

    /// Allocate a zero key of the given shape.
    pub fn new_empty_key(
        crs_glwe_dimension: CRSGlweDimension,
        crs_glwe_codimension: CRSGlweCodimension,
        polynomial_size: PolynomialSize,
    ) -> (r: CRSGlweSecretKey)
        requires
            polynomial_size.0 >= 1,
            crs_glwe_codimension.0 >= 1,
            crs_glwe_dimension.0 * crs_glwe_codimension.0 * polynomial_size.0 <= usize::MAX,
        ensures
            r.polynomial_size == polynomial_size,
            r.codimension == crs_glwe_codimension.0,
            r.data@.len() == crs_glwe_dimension.0 * crs_glwe_codimension.0 * polynomial_size.0,
            r.well_formed(),
            forall|i: int| 0 <= i < r.data@.len() ==> r.data@[i] == 0,
    {
        proof {
            vstd::arithmetic::mul::lemma_mul_nonnegative(
                crs_glwe_dimension.0 as int,
                crs_glwe_codimension.0 as int,
            );
            vstd::arithmetic::mul::lemma_mul_inequality(
                1,
                polynomial_size.0 as int,
                crs_glwe_dimension.0 as int * crs_glwe_codimension.0 as int,
            );
            vstd::arithmetic::mul::lemma_mul_basics(
                crs_glwe_dimension.0 as int * crs_glwe_codimension.0 as int,
            );
            vstd::arithmetic::mul::lemma_mul_is_commutative(
                polynomial_size.0 as int,
                crs_glwe_dimension.0 as int * crs_glwe_codimension.0 as int,
            );
        }
        let kd = crs_glwe_dimension.0 * crs_glwe_codimension.0;
        let data = vec_of_zeros(kd * polynomial_size.0);
        proof {
            vstd::arithmetic::div_mod::lemma_mod_multiples_basic(kd as int, polynomial_size.0 as int);
            vstd::arithmetic::mul::lemma_mul_is_commutative(kd as int, polynomial_size.0 as int);
        }
        CRSGlweSecretKey {
            data,
            polynomial_size,
            codimension: crs_glwe_codimension.0,
        }
    }

    /// Allocate a new key and fill it with uniformly random binary
    /// coefficients.
    pub fn generate_new_binary(
        crs_glwe_dimension: CRSGlweDimension,
        crs_glwe_codimension: CRSGlweCodimension,
        polynomial_size: PolynomialSize,
        generator: &mut SecretRandomGenerator,
    ) -> (r: CRSGlweSecretKey)
        requires
            polynomial_size.0 >= 1,
            crs_glwe_codimension.0 >= 1,
            crs_glwe_dimension.0 * crs_glwe_codimension.0 * polynomial_size.0 <= usize::MAX,
        ensures
            r.polynomial_size == polynomial_size,
            r.codimension == crs_glwe_codimension.0,
            r.data@.len() == crs_glwe_dimension.0 * crs_glwe_codimension.0 * polynomial_size.0,
            r.well_formed(),
            final(generator).stream_seed() == old(generator).stream_seed(),
            final(generator).consumed() == old(generator).consumed() + r.data@.len(),
            forall|i: int|
                0 <= i < r.data@.len() ==> r.data@[i] == binary_word(
                    old(generator).stream_seed(),
                    (old(generator).consumed() + i) as nat,
                ),
    {
        let mut key = CRSGlweSecretKey::new_empty_key(
            crs_glwe_dimension,
            crs_glwe_codimension,
            polynomial_size,
        );
        generate_binary_crs_glwe_secret_key(&mut key, generator);
        key
    }
}

/// Fill a CRSGLWE secret key with uniformly random binary coefficients.
pub fn generate_binary_crs_glwe_secret_key(
    crs_glwe_secret_key: &mut CRSGlweSecretKey,
    generator: &mut SecretRandomGenerator,
)
    ensures
        final(crs_glwe_secret_key).data@.len() == old(crs_glwe_secret_key).data@.len(),
        final(crs_glwe_secret_key).polynomial_size == old(crs_glwe_secret_key).polynomial_size,
        final(crs_glwe_secret_key).codimension == old(crs_glwe_secret_key).codimension,
        binary_seq(final(crs_glwe_secret_key).data@),
        final(generator).stream_seed() == old(generator).stream_seed(),
        final(generator).consumed() == old(generator).consumed() + old(
            crs_glwe_secret_key,
        ).data@.len(),
        forall|i: int|
            0 <= i < final(crs_glwe_secret_key).data@.len()
                ==> final(crs_glwe_secret_key).data@[i] == binary_word(
                old(generator).stream_seed(),
                (old(generator).consumed() + i) as nat,
            ),
{
    generator.fill_slice_with_random_uniform_binary(&mut crs_glwe_secret_key.data);
}

/// Allocate a new CRSGLWE secret key and fill it with uniformly random binary
/// coefficients.
pub fn allocate_and_generate_new_binary_crs_glwe_secret_key(
    crs_glwe_dimension: CRSGlweDimension,
    crs_glwe_codimension: CRSGlweCodimension,
    polynomial_size: PolynomialSize,
    generator: &mut SecretRandomGenerator,
) -> (r: CRSGlweSecretKey)
    requires
        polynomial_size.0 >= 1,
        crs_glwe_codimension.0 >= 1,
        crs_glwe_dimension.0 * crs_glwe_codimension.0 * polynomial_size.0 <= usize::MAX,
    ensures
        r.polynomial_size == polynomial_size,
        r.codimension == crs_glwe_codimension.0,
        r.data@.len() == crs_glwe_dimension.0 * crs_glwe_codimension.0 * polynomial_size.0,
        r.well_formed(),
        final(generator).stream_seed() == old(generator).stream_seed(),
        final(generator).consumed() == old(generator).consumed() + r.data@.len(),
        forall|i: int|
            0 <= i < r.data@.len() ==> r.data@[i] == binary_word(
                old(generator).stream_seed(),
                (old(generator).consumed() + i) as nat,
            ),
{
    CRSGlweSecretKey::generate_new_binary(
        crs_glwe_dimension,
        crs_glwe_codimension,
        polynomial_size,
        generator,
    )
}

/// A CRSGLWE secret key owning its storage.
pub type CRSGlweSecretKeyOwned = CRSGlweSecretKey;

} // verus!

//! The CRSGLWE ciphertext: a GLWE generalization whose body holds several
//! polynomials, so one ciphertext carries codimension·N plaintext
//! coefficients.

use vstd::prelude::*;
use crate::parameters::{CRSGlweCodimension, CRSGlweDimension, CRSGlweSize, CiphertextModulus,
    PolynomialSize};
use crate::numeric::reduced;
use crate::polynomial::PolynomialList;
use crate::crs_lwe_ciphertext::copy_range;
use crate::lwe::vec_of_zeros;

verus! {

/// The number of coefficients of a CRSGLWE body: codimension·N.
pub fn crs_glwe_ciphertext_body_size(
    crs_glwe_codimension: CRSGlweCodimension,
    polynomial_size: PolynomialSize,
) -> (r: usize)
    requires
        crs_glwe_codimension.0 * polynomial_size.0 <= usize::MAX,
    ensures
        r == crs_glwe_codimension.0 * polynomial_size.0,
{
    crs_glwe_codimension.0 * polynomial_size.0
}

/// The number of coefficients of a CRSGLWE ciphertext: (k+d)·N.
pub fn crs_glwe_ciphertext_size(crs_glwe_size: CRSGlweSize, polynomial_size: PolynomialSize) -> (r:
    usize)
    requires
        crs_glwe_size.0 * polynomial_size.0 <= usize::MAX,
    ensures
        r == crs_glwe_size.0 * polynomial_size.0,
{
    crs_glwe_size.0 * polynomial_size.0
}

/// The number of coefficients of a CRSGLWE mask: k·N.
pub fn crs_glwe_ciphertext_mask_size(
    crs_glwe_dimension: CRSGlweDimension,
    polynomial_size: PolynomialSize,
) -> (r: usize)
    requires
        crs_glwe_dimension.0 * polynomial_size.0 <= usize::MAX,
    ensures
        r == crs_glwe_dimension.0 * polynomial_size.0,
{
    crs_glwe_dimension.0 * polynomial_size.0
}

/// The body of a CRSGLWE ciphertext: its last codimension polynomials.
#[derive(Clone, Debug, PartialEq, Eq)]
pub struct CRSGlweBody {
    pub data: Vec<u64>,
    pub polynomial_size: PolynomialSize,
    pub ciphertext_modulus: CiphertextModulus,
}

impl CRSGlweBody {
    /// Wrap an existing coefficient vector. The length must split into whole
    /// polynomials.
    pub fn from_container(
        container: Vec<u64>,
        polynomial_size: PolynomialSize,
        ciphertext_modulus: CiphertextModulus,
    ) -> (r: CRSGlweBody)
        requires
            polynomial_size.0 >= 1,
            container@.len() as int % (polynomial_size.0 as int) == 0,
        ensures
            r.data@ == container@,
            r.polynomial_size == polynomial_size,
            r.ciphertext_modulus == ciphertext_modulus,
    {
        CRSGlweBody { data: container, polynomial_size, ciphertext_modulus }
    }

    /// The codimension: the number of body polynomials.
    pub fn crs_glwe_codimension(&self) -> (r: CRSGlweCodimension)
        requires
            self.polynomial_size.0 >= 1,
        ensures
            r.0 == self.data@.len() as int / self.polynomial_size.0 as int,
    {
        CRSGlweCodimension(self.data.len() / self.polynomial_size.0)
    }

    /// The polynomial size.
    pub fn polynomial_size(&self) -> (r: PolynomialSize)
        ensures
            r == self.polynomial_size,
    {
        self.polynomial_size
    }

    /// The ciphertext modulus.
    pub fn ciphertext_modulus(&self) -> (r: CiphertextModulus)
        ensures
            r == self.ciphertext_modulus,
    {
        self.ciphertext_modulus
    }

    /// The body as a polynomial list (a copy: containers are owned).
    pub fn as_polynomial_list(&self) -> (r: PolynomialList)
        requires
            self.polynomial_size.0 >= 1,
            self.data@.len() as int % (self.polynomial_size.0 as int) == 0,
        ensures
            r.data@ == self.data@,
            r.polynomial_size == self.polynomial_size,
    {
        let data = copy_range(&self.data, 0, self.data.len());
        proof {
            assert(data@ =~= self.data@);
        }
        PolynomialList { data, polynomial_size: self.polynomial_size }
    }

    /// The underlying coefficient vector.
    pub fn into_container(self) -> (r: Vec<u64>)
        ensures
            r@ == self.data@,
    {
        self.data
    }
}

/// The mask of a CRSGLWE ciphertext: its first dimension polynomials.
#[derive(Clone, Debug, PartialEq, Eq)]
pub struct CRSGlweMask {
    pub data: Vec<u64>,
    pub polynomial_size: PolynomialSize,
    pub ciphertext_modulus: CiphertextModulus,
}

impl CRSGlweMask {
    /// Wrap an existing coefficient vector. The length must split into whole
    /// polynomials.
    pub fn from_container(
        container: Vec<u64>,
        polynomial_size: PolynomialSize,
        ciphertext_modulus: CiphertextModulus,
    ) -> (r: CRSGlweMask)
        requires
            polynomial_size.0 >= 1,
            container@.len() as int % (polynomial_size.0 as int) == 0,
        ensures
            r.data@ == container@,
            r.polynomial_size == polynomial_size,
            r.ciphertext_modulus == ciphertext_modulus,
    {
        CRSGlweMask { data: container, polynomial_size, ciphertext_modulus }
    }

    /// The dimension: the number of mask polynomials.
    pub fn crs_glwe_dimension(&self) -> (r: CRSGlweDimension)
        requires
            self.polynomial_size.0 >= 1,
        ensures
            r.0 == self.data@.len() as int / self.polynomial_size.0 as int,
    {
        CRSGlweDimension(self.data.len() / self.polynomial_size.0)
    }

    /// The polynomial size.
    pub fn polynomial_size(&self) -> (r: PolynomialSize)
        ensures
            r == self.polynomial_size,
    {
        self.polynomial_size
    }

    /// The ciphertext modulus.
    pub fn ciphertext_modulus(&self) -> (r: CiphertextModulus)
        ensures
            r == self.ciphertext_modulus,
    {
        self.ciphertext_modulus
    }

    /// The mask as a polynomial list (a copy: containers are owned).
    pub fn as_polynomial_list(&self) -> (r: PolynomialList)
        requires
            self.polynomial_size.0 >= 1,
            self.data@.len() as int % (self.polynomial_size.0 as int) == 0,
        ensures
            r.data@ == self.data@,
            r.polynomial_size == self.polynomial_size,
    {
        let data = copy_range(&self.data, 0, self.data.len());
        proof {
            assert(data@ =~= self.data@);
        }
        PolynomialList { data, polynomial_size: self.polynomial_size }
    }

    /// The underlying coefficient vector.
    pub fn into_container(self) -> (r: Vec<u64>)
        ensures
            r@ == self.data@,
    {
        self.data
    }
}

/// A CRSGLWE ciphertext: k mask polynomials followed by d body polynomials,
/// in one flat vector of (k+d)·N reduced coefficients.
#[derive(Clone, Debug, PartialEq, Eq)]
pub struct CRSGlweCiphertext {
    pub data: Vec<u64>,
    pub codim: usize,
    pub polynomial_size: PolynomialSize,
    pub ciphertext_modulus: CiphertextModulus,
}

impl CRSGlweCiphertext {
    /// The shape and reduction invariant of a CRSGLWE ciphertext.
    pub open spec fn well_formed(&self) -> bool {
        &&& self.data@.len() >= 1
        &&& self.polynomial_size.0 >= 1
        &&& self.data@.len() as int % (self.polynomial_size.0 as int) == 0
        &&& self.codim * self.polynomial_size.0 <= self.data@.len()
        &&& self.ciphertext_modulus.well_formed()
        &&& reduced(self.data@, self.ciphertext_modulus.working_modulus())
    }

    /// The body length in coefficients.
    pub open spec fn spec_body_len(&self) -> int {
        self.codim as int * self.polynomial_size.0 as int
    }

    /// Wrap an existing coefficient vector whose last cod polynomials are the
    /// body.
    pub fn from_container(
        container: Vec<u64>,
        polynomial_size: PolynomialSize,
        ciphertext_modulus: CiphertextModulus,
        cod: usize,
    ) -> (r: CRSGlweCiphertext)
        requires
            container@.len() >= 1,
            polynomial_size.0 >= 1,
            container@.len() as int % (polynomial_size.0 as int) == 0,
            cod * polynomial_size.0 <= container@.len(),
            ciphertext_modulus.well_formed(),
            reduced(container@, ciphertext_modulus.working_modulus()),
        ensures
            r.data@ == container@,
            r.polynomial_size == polynomial_size,
            r.ciphertext_modulus == ciphertext_modulus,
            r.codim == cod,
            r.well_formed(),
    {
        CRSGlweCiphertext { data: container, codim: cod, polynomial_size, ciphertext_modulus }
    }

    /// Allocate a zero-filled ciphertext of the given shape.
    pub fn new(
        crs_glwe_size: CRSGlweSize,
        polynomial_size: PolynomialSize,
        ciphertext_modulus: CiphertextModulus,
    ) -> (r: CRSGlweCiphertext)
        requires
            crs_glwe_size.0 >= 1,
            crs_glwe_size.1 <= crs_glwe_size.0,
            polynomial_size.0 >= 1,
            crs_glwe_size.0 * polynomial_size.0 <= usize::MAX,
            ciphertext_modulus.well_formed(),
        ensures
            r.data@.len() == crs_glwe_size.0 * polynomial_size.0,
            r.codim == crs_glwe_size.1,
            r.polynomial_size == polynomial_size,
            r.ciphertext_modulus == ciphertext_modulus,
            r.well_formed(),
            forall|i: int| 0 <= i < r.data@.len() ==> r.data@[i] == 0,
    {
        let data = vec_of_zeros(crs_glwe_size.0 * polynomial_size.0);
        proof {
            crate::parameters::lemma_modulus_facts(ciphertext_modulus);
            crate::numeric::lemma_working_modulus_valid(ciphertext_modulus);
            vstd::arithmetic::div_mod::lemma_mod_multiples_basic(
                crs_glwe_size.0 as int,
                polynomial_size.0 as int,
            );
            vstd::arithmetic::mul::lemma_mul_is_commutative(
                crs_glwe_size.0 as int,
                polynomial_size.0 as int,
            );
            vstd::arithmetic::mul::lemma_mul_inequality(
                1,
                crs_glwe_size.0 as int,
                polynomial_size.0 as int,
            );
            vstd::arithmetic::mul::lemma_mul_inequality(
                crs_glwe_size.1 as int,
                crs_glwe_size.0 as int,
                polynomial_size.0 as int,
            );
            vstd::arithmetic::mul::lemma_mul_is_commutative(
                crs_glwe_size.1 as int,
                polynomial_size.0 as int,
            );
        }
        CRSGlweCiphertext {
            data,
            codim: crs_glwe_size.1,
            polynomial_size,
            ciphertext_modulus,
        }
    }

    /// The total shape: polynomial count and codimension.
    pub fn crs_glwe_size(&self) -> (r: CRSGlweSize)
        requires
            self.polynomial_size.0 >= 1,
        ensures
            r.0 == self.data@.len() as int / self.polynomial_size.0 as int,
            r.1 == self.codim,
    {
        CRSGlweSize(self.data.len() / self.polynomial_size.0, self.codim)
    }

    /// The polynomial size.
    pub fn polynomial_size(&self) -> (r: PolynomialSize)
        ensures
            r == self.polynomial_size,
    {
        self.polynomial_size
    }

    /// The ciphertext modulus.
    pub fn ciphertext_modulus(&self) -> (r: CiphertextModulus)
        ensures
            r == self.ciphertext_modulus,
    {
        self.ciphertext_modulus
    }

    /// Copies of the mask and body coefficient vectors.
    pub fn get_mask_and_body(&self) -> (r: (CRSGlweMask, CRSGlweBody))
        requires
            self.well_formed(),
        ensures
            r.0.data@ == self.data@.subrange(0, self.data@.len() - self.spec_body_len()),
            r.0.polynomial_size == self.polynomial_size,
            r.0.ciphertext_modulus == self.ciphertext_modulus,
            r.1.data@ == self.data@.subrange(
                self.data@.len() - self.spec_body_len(),
                self.data@.len() as int,
            ),
            r.1.polynomial_size == self.polynomial_size,
            r.1.ciphertext_modulus == self.ciphertext_modulus,
    {
        (self.get_mask(), self.get_body())
    }

    /// A copy of the body: the last codimension polynomials.
    pub fn get_body(&self) -> (r: CRSGlweBody)
        requires
            self.well_formed(),
        ensures
            r.data@ == self.data@.subrange(
                self.data@.len() - self.spec_body_len(),
                self.data@.len() as int,
            ),
            r.polynomial_size == self.polynomial_size,
            r.ciphertext_modulus == self.ciphertext_modulus,
    {
        let dl = self.data.len();
        let blen = self.codim * self.polynomial_size.0;
        let start = dl - blen;
        let body = copy_range(&self.data, start, blen);
        proof {
            assert(body@ =~= self.data@.subrange(
                self.data@.len() - self.spec_body_len(),
                self.data@.len() as int,
            ));
        }
        CRSGlweBody {
            data: body,
            polynomial_size: self.polynomial_size,
            ciphertext_modulus: self.ciphertext_modulus,
        }
    }

    /// A copy of the mask: the first dimension polynomials.
    pub fn get_mask(&self) -> (r: CRSGlweMask)
        requires
            self.well_formed(),
        ensures
            r.data@ == self.data@.subrange(0, self.data@.len() - self.spec_body_len()),
            r.polynomial_size == self.polynomial_size,
            r.ciphertext_modulus == self.ciphertext_modulus,
    {
        let dl = self.data.len();
        let blen = self.codim * self.polynomial_size.0;
        let len = dl - blen;
        let mask = copy_range(&self.data, 0, len);
        proof {
            assert(mask@ =~= self.data@.subrange(0, self.data@.len() - self.spec_body_len()));
        }
        CRSGlweMask {
            data: mask,
            polynomial_size: self.polynomial_size,
            ciphertext_modulus: self.ciphertext_modulus,
        }
    }

    /// The whole ciphertext as a polynomial list (a copy).
    pub fn as_polynomial_list(&self) -> (r: PolynomialList)
        requires
            self.well_formed(),
        ensures
            r.data@ == self.data@,
            r.polynomial_size == self.polynomial_size,
    {
        let data = copy_range(&self.data, 0, self.data.len());
        proof {
            assert(data@ =~= self.data@);
        }
        PolynomialList { data, polynomial_size: self.polynomial_size }
    }

    /// A snapshot copy of the ciphertext (containers are owned, so a view is
    /// a copy).
    pub fn as_view(&self) -> (r: CRSGlweCiphertext)
        requires
            self.well_formed(),
        ensures
            r.data@ == self.data@,
            r.codim == self.codim,
            r.polynomial_size == self.polynomial_size,
            r.ciphertext_modulus == self.ciphertext_modulus,
    {
        let data = copy_range(&self.data, 0, self.data.len());
        proof {
            assert(data@ =~= self.data@);
        }
        CRSGlweCiphertext {
            data,
            codim: self.codim,
            polynomial_size: self.polynomial_size,
            ciphertext_modulus: self.ciphertext_modulus,
        }
    }

    /// The underlying coefficient vector.
    pub fn into_container(self) -> (r: Vec<u64>)
        ensures
            r@ == self.data@,
    {
        self.data
    }
}

/// A CRSGLWE ciphertext owning its storage.
pub type CRSGlweCiphertextOwned = CRSGlweCiphertext;

/// The metadata that recreates a CRSGLWE ciphertext around a container: the
/// polynomial size, the modulus, and the codimension.
#[derive(Clone, Copy, Debug, PartialEq, Eq, Structural)]
pub struct CRSGlweCiphertextCreationMetadata(
    pub PolynomialSize,
    pub CiphertextModulus,
    pub usize,
);

} // verus!

//! The CRSLWE ciphertext: an LWE generalization whose body holds several
//! elements, so one ciphertext carries codimension-many plaintexts.

use vstd::prelude::*;
use crate::parameters::{CRSLweCodimension, CRSLweDimension, CRSLweSize, CiphertextModulus};
use crate::numeric::reduced;
use crate::lwe::vec_of_zeros;

verus! {

/// The body of a CRSLWE ciphertext: its last codimension elements.
#[derive(Clone, Debug, PartialEq, Eq)]
pub struct CRSLweBody {
    pub data: Vec<u64>,
    pub ciphertext_modulus: CiphertextModulus,
}

impl CRSLweBody {
    /// Wrap an existing element vector.
    pub fn from_container(container: Vec<u64>, ciphertext_modulus: CiphertextModulus) -> (r:
        CRSLweBody)
        ensures
            r.data@ == container@,
            r.ciphertext_modulus == ciphertext_modulus,
    {
        CRSLweBody { data: container, ciphertext_modulus }
    }

    /// The codimension: the number of body elements.
    pub fn crs_lwe_codimension(&self) -> (r: CRSLweCodimension)
        ensures
            r.0 == self.data@.len(),
    {
        CRSLweCodimension(self.data.len())
    }

    /// The ciphertext modulus.
    pub fn ciphertext_modulus(&self) -> (r: CiphertextModulus)
        ensures
            r == self.ciphertext_modulus,
    {
        self.ciphertext_modulus
    }

    /// The underlying element vector.
    pub fn into_container(self) -> (r: Vec<u64>)
        ensures
            r@ == self.data@,
    {
        self.data
    }
}

/// The mask of a CRSLWE ciphertext: its first dimension elements.
#[derive(Clone, Debug, PartialEq, Eq)]
pub struct CRSLweMask {
    pub data: Vec<u64>,
    pub ciphertext_modulus: CiphertextModulus,
}

impl CRSLweMask {
    /// Wrap an existing element vector.
    pub fn from_container(container: Vec<u64>, ciphertext_modulus: CiphertextModulus) -> (r:
        CRSLweMask)
        ensures
            r.data@ == container@,
            r.ciphertext_modulus == ciphertext_modulus,
    {
        CRSLweMask { data: container, ciphertext_modulus }
    }

    /// The dimension: the number of mask elements.
    pub fn crs_lwe_dimension(&self) -> (r: CRSLweDimension)
        ensures
            r.0 == self.data@.len(),
    {
        CRSLweDimension(self.data.len())
    }

    /// The ciphertext modulus.
    pub fn ciphertext_modulus(&self) -> (r: CiphertextModulus)
        ensures
            r == self.ciphertext_modulus,
    {
        self.ciphertext_modulus
    }

    /// The underlying element vector.
    pub fn into_container(self) -> (r: Vec<u64>)
        ensures
            r@ == self.data@,
    {
        self.data
    }
}

/// A CRSLWE ciphertext: dimension-many mask elements followed by
/// codimension-many body elements, in one flat vector.
#[derive(Clone, Debug, PartialEq, Eq)]
pub struct CRSLweCiphertext {
    pub data: Vec<u64>,
    pub codim: usize,
    pub ciphertext_modulus: CiphertextModulus,
}

impl CRSLweCiphertext {
    /// The shape and reduction invariant of a CRSLWE ciphertext.
    pub open spec fn well_formed(&self) -> bool {
        &&& self.data@.len() >= 1
        &&& self.codim as int <= self.data@.len()
        &&& self.ciphertext_modulus.well_formed()
        &&& reduced(self.data@, self.ciphertext_modulus.working_modulus())
    }

    /// Wrap an existing element vector whose last `cod` elements are the body.
    pub fn from_container(
        container: Vec<u64>,
        ciphertext_modulus: CiphertextModulus,
        cod: usize,
    ) -> (r: CRSLweCiphertext)
        requires
            container@.len() >= 1,
            cod <= container@.len(),
            ciphertext_modulus.well_formed(),
            reduced(container@, ciphertext_modulus.working_modulus()),
        ensures
            r.data@ == container@,
            r.ciphertext_modulus == ciphertext_modulus,
            r.codim == cod,
            r.well_formed(),
    {
        CRSLweCiphertext { data: container, codim: cod, ciphertext_modulus }
    }

    /// Allocate a ciphertext of the given size filled with a reduced value.
    pub fn new(
        fill_with: u64,
        crs_lwe_size: CRSLweSize,
        ciphertext_modulus: CiphertextModulus,
        cod: usize,
    ) -> (r: CRSLweCiphertext)
        requires
            crs_lwe_size.0 >= 1,
            crs_lwe_size.1 == cod,
            cod <= crs_lwe_size.0,
            ciphertext_modulus.well_formed(),
            fill_with < ciphertext_modulus.working_modulus(),
        ensures
            r.data@.len() == crs_lwe_size.0,
            r.codim == cod,
            r.ciphertext_modulus == ciphertext_modulus,
            r.well_formed(),
            forall|i: int| 0 <= i < crs_lwe_size.0 ==> r.data@[i] == fill_with,
    {
        let mut data = vec_of_zeros(crs_lwe_size.0);
        let mut i: usize = 0;
        while i < crs_lwe_size.0
            invariant
                i <= crs_lwe_size.0,
                data@.len() == crs_lwe_size.0,
                forall|j: int| 0 <= j < i ==> data@[j] == fill_with,
                forall|j: int| i <= j < crs_lwe_size.0 ==> data@[j] == 0,
            decreases crs_lwe_size.0 - i,
        {
            data[i] = fill_with;
            i = i + 1;
        }
        proof {
            crate::parameters::lemma_modulus_facts(ciphertext_modulus);
            crate::numeric::lemma_working_modulus_valid(ciphertext_modulus);
        }
        CRSLweCiphertext { data, codim: cod, ciphertext_modulus }
    }

    /// The total shape: element count and codimension.
    pub fn crs_lwe_size(&self) -> (r: CRSLweSize)
        ensures
            r.0 == self.data@.len(),
            r.1 == self.codim,
    {
        CRSLweSize(self.data.len(), self.codim)
    }

    /// Copies of the mask and body element vectors.
    pub fn get_mask_and_body(&self) -> (r: (CRSLweMask, CRSLweBody))
        requires
            self.codim as int <= self.data@.len(),
        ensures
            r.0.data@ == self.data@.subrange(0, self.data@.len() - self.codim),
            r.0.ciphertext_modulus == self.ciphertext_modulus,
            r.1.data@ == self.data@.subrange(self.data@.len() - self.codim, self.data@.len() as int),
            r.1.ciphertext_modulus == self.ciphertext_modulus,
    {
        (self.get_mask(), self.get_body())
    }

    /// A copy of the body: the last codimension elements.
    pub fn get_body(&self) -> (r: CRSLweBody)
        requires
            self.codim as int <= self.data@.len(),
        ensures
            r.data@ == self.data@.subrange(self.data@.len() - self.codim, self.data@.len() as int),
            r.ciphertext_modulus == self.ciphertext_modulus,
    {
        let start = self.data.len() - self.codim;
        let body = copy_range(&self.data, start, self.codim);
        proof {
            assert(body@ =~= self.data@.subrange(
                self.data@.len() - self.codim,
                self.data@.len() as int,
            ));
        }
        CRSLweBody { data: body, ciphertext_modulus: self.ciphertext_modulus }
    }

    /// A copy of the mask: the first dimension elements.
    pub fn get_mask(&self) -> (r: CRSLweMask)
        requires
            self.codim as int <= self.data@.len(),
        ensures
            r.data@ == self.data@.subrange(0, self.data@.len() - self.codim),
            r.ciphertext_modulus == self.ciphertext_modulus,
    {
        let len = self.data.len() - self.codim;
        let mask = copy_range(&self.data, 0, len);
        proof {
            assert(mask@ =~= self.data@.subrange(0, self.data@.len() - self.codim));
        }
        CRSLweMask { data: mask, ciphertext_modulus: self.ciphertext_modulus }
    }

    /// A snapshot copy of the ciphertext (this library's containers are
    /// owned, so a view is a copy).
    pub fn as_view(&self) -> (r: CRSLweCiphertext)
        ensures
            r.data@ == self.data@,
            r.codim == self.codim,
            r.ciphertext_modulus == self.ciphertext_modulus,
    {
        self.clone_ct()
    }

    /// A field-for-field copy.
    fn clone_ct(&self) -> (r: CRSLweCiphertext)
        ensures
            r.data@ == self.data@,
            r.codim == self.codim,
            r.ciphertext_modulus == self.ciphertext_modulus,
    {
        let data = copy_range(&self.data, 0, self.data.len());
        proof {
            assert(data@ =~= self.data@);
        }
        CRSLweCiphertext {
            data,
            codim: self.codim,
            ciphertext_modulus: self.ciphertext_modulus,
        }
    }

    /// The underlying element vector.
    pub fn into_container(self) -> (r: Vec<u64>)
        ensures
            r@ == self.data@,
    {
        self.data
    }

    /// The ciphertext modulus.
    pub fn ciphertext_modulus(&self) -> (r: CiphertextModulus)
        ensures
            r == self.ciphertext_modulus,
    {
        self.ciphertext_modulus
    }
}

/// A CRSLWE ciphertext owning its storage (all containers of this library are
/// owned).
pub type CRSLweCiphertextOwned = CRSLweCiphertext;

/// The metadata that recreates a CRSLWE ciphertext around a container: the
/// modulus and the codimension.
#[derive(Clone, Copy, Debug, PartialEq, Eq, Structural)]
pub struct CRSLweCiphertextCreationMetadata(pub CiphertextModulus, pub usize);

/// Copy `len` words of `src` starting at `start` into a fresh vector.
pub fn copy_range(src: &Vec<u64>, start: usize, len: usize) -> (r: Vec<u64>)
    requires
        start + len <= src@.len(),
    ensures
        r@.len() == len,
        forall|i: int| 0 <= i < len ==> r@[i] == src@[start + i],
{
    let slen: usize = src.len();
    let mut v: Vec<u64> = Vec::new();
    let mut i: usize = 0;
    while i < len
        invariant
            i <= len,
            start + len <= src@.len(),
            src@.len() == slen,
            v@.len() == i,
            forall|j: int| 0 <= j < i ==> v@[j] == src@[start + j],
        decreases len - i,
    {
        let x = src[start + i];
        v.push(x);
        i = i + 1;
    }
    v
}

} // verus!

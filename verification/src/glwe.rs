//! GLWE secret keys, ciphertexts and ciphertext lists, with encryption,
//! decryption, and the GLWE keyswitch.

use vstd::prelude::*;
use crate::parameters::{CiphertextModulus, GlweDimension, GlweSize, PolynomialSize, StandardDev};
use crate::numeric::{reduced, valid_working_modulus};
use crate::lwe::{binary_seq, vec_of_zeros};
use crate::random::{EncryptionRandomGenerator, SecretRandomGenerator, binary_word};
use crate::polynomial::{poly_add_assign, poly_sub_assign, poly_mul_coeff_exec};

verus! {

/// A GLWE secret key: k binary polynomials of N coefficients, flat.
#[derive(Clone, Debug, PartialEq, Eq)]
pub struct GlweSecretKey {
    pub data: Vec<u64>,
    pub polynomial_size: PolynomialSize,
}

impl GlweSecretKey {
    /// The shape invariant of a GLWE secret key. The coefficients are binary
    /// for a freshly generated key, but a key derived by embedding an LWE key
    /// holds negated coefficients, so the shape invariant does not fix the
    /// coefficient range; encryption asks for reduction under its own working
    /// modulus instead.
    pub open spec fn well_formed(&self) -> bool {
        &&& self.polynomial_size.0 >= 1
        &&& self.data@.len() as int % (self.polynomial_size.0 as int) == 0
    }

    /// Wrap an existing coefficient vector.
    pub fn from_container(container: Vec<u64>, polynomial_size: PolynomialSize) -> (r:
        GlweSecretKey)
        requires
            polynomial_size.0 >= 1,
            container@.len() as int % (polynomial_size.0 as int) == 0,
        ensures
            r.data@ == container@,
            r.polynomial_size == polynomial_size,
            r.well_formed(),
    {
        GlweSecretKey { data: container, polynomial_size }
    }

    /// Allocate a zero key of the given shape.
    pub fn new_empty_key(
        glwe_dimension: GlweDimension,
        polynomial_size: PolynomialSize,
    ) -> (r: GlweSecretKey)
        requires
            polynomial_size.0 >= 1,
            glwe_dimension.0 * polynomial_size.0 <= usize::MAX,
        ensures
            r.polynomial_size == polynomial_size,
            r.data@.len() == glwe_dimension.0 * polynomial_size.0,
            r.well_formed(),
    {
        let data = vec_of_zeros(glwe_dimension.0 * polynomial_size.0);
        proof {
            vstd::arithmetic::div_mod::lemma_mod_multiples_basic(
                glwe_dimension.0 as int,
                polynomial_size.0 as int,
            );
            vstd::arithmetic::mul::lemma_mul_is_commutative(
                glwe_dimension.0 as int,
                polynomial_size.0 as int,
            );
        }
        GlweSecretKey { data, polynomial_size }
    }

    /// The GLWE dimension: the number of key polynomials.
    pub fn glwe_dimension(&self) -> (r: GlweDimension)
        requires
            self.polynomial_size.0 >= 1,
        ensures
            r.0 == self.data@.len() as int / self.polynomial_size.0 as int,
    {
        GlweDimension(self.data.len() / self.polynomial_size.0)
    }

    /// The polynomial size.
    pub fn polynomial_size(&self) -> (r: PolynomialSize)
        ensures
            r == self.polynomial_size,
    {
        self.polynomial_size
    }

    /// Reinterpret the key as a flat LWE secret key of dimension k·N.
    pub fn into_lwe_secret_key(self) -> (r: crate::lwe::LweSecretKey)
        ensures
            r.data@ == self.data@,
    {
        crate::lwe::LweSecretKey { data: self.data }
    }

    /// The underlying coefficient vector.
    pub fn into_container(self) -> (r: Vec<u64>)
        ensures
            r@ == self.data@,
    {
        self.data
    }
}

/// Fill a GLWE secret key with uniformly random binary coefficients.
pub fn generate_binary_glwe_secret_key(
    glwe_secret_key: &mut GlweSecretKey,
    generator: &mut SecretRandomGenerator,
)
    ensures
        final(glwe_secret_key).data@.len() == old(glwe_secret_key).data@.len(),
        final(glwe_secret_key).polynomial_size == old(glwe_secret_key).polynomial_size,
        binary_seq(final(glwe_secret_key).data@),
        final(generator).stream_seed() == old(generator).stream_seed(),
        final(generator).consumed() == old(generator).consumed() + old(
            glwe_secret_key,
        ).data@.len(),
        forall|i: int|
            0 <= i < final(glwe_secret_key).data@.len() ==> final(glwe_secret_key).data@[i]
                == binary_word(
                old(generator).stream_seed(),
                (old(generator).consumed() + i) as nat,
            ),
{
    generator.fill_slice_with_random_uniform_binary(&mut glwe_secret_key.data);
}

/// Allocate a new GLWE secret key and fill it with uniformly random binary
/// coefficients.
pub fn allocate_and_generate_new_binary_glwe_secret_key(
    glwe_dimension: GlweDimension,
    polynomial_size: PolynomialSize,
    generator: &mut SecretRandomGenerator,
) -> (r: GlweSecretKey)
    requires
        polynomial_size.0 >= 1,
        glwe_dimension.0 * polynomial_size.0 <= usize::MAX,
    ensures
        r.polynomial_size == polynomial_size,
        r.data@.len() == glwe_dimension.0 * polynomial_size.0,
        r.well_formed(),
        binary_seq(r.data@),
        final(generator).stream_seed() == old(generator).stream_seed(),
        final(generator).consumed() == old(generator).consumed() + glwe_dimension.0
            * polynomial_size.0,
        forall|i: int|
            0 <= i < r.data@.len() ==> r.data@[i] == binary_word(
                old(generator).stream_seed(),
                (old(generator).consumed() + i) as nat,
            ),
{
    let mut key = GlweSecretKey::new_empty_key(glwe_dimension, polynomial_size);
    generate_binary_glwe_secret_key(&mut key, generator);
    key
}

/// A GLWE ciphertext: k mask polynomials followed by one body polynomial, in
/// one flat vector of (k+1)·N reduced coefficients.
#[derive(Clone, Debug, PartialEq, Eq)]
pub struct GlweCiphertext {
    pub data: Vec<u64>,
    pub polynomial_size: PolynomialSize,
    pub ciphertext_modulus: CiphertextModulus,
}

impl GlweCiphertext {
    /// The shape and reduction invariant of a GLWE ciphertext.
    pub open spec fn well_formed(&self) -> bool {
        &&& self.polynomial_size.0 >= 1
        &&& self.data@.len() >= self.polynomial_size.0
        &&& self.data@.len() as int % (self.polynomial_size.0 as int) == 0
        &&& self.ciphertext_modulus.well_formed()
        &&& reduced(self.data@, self.ciphertext_modulus.working_modulus())
    }

    /// Allocate a zero-filled GLWE ciphertext.
    pub fn new(
        glwe_size: GlweSize,
        polynomial_size: PolynomialSize,
        ciphertext_modulus: CiphertextModulus,
    ) -> (r: GlweCiphertext)
        requires
            glwe_size.0 >= 1,
            polynomial_size.0 >= 1,
            glwe_size.0 * polynomial_size.0 <= usize::MAX,
            ciphertext_modulus.well_formed(),
        ensures
            r.polynomial_size == polynomial_size,
            r.ciphertext_modulus == ciphertext_modulus,
            r.data@.len() == glwe_size.0 * polynomial_size.0,
            r.well_formed(),
            forall|i: int| 0 <= i < r.data@.len() ==> r.data@[i] == 0,
    {
        let data = vec_of_zeros(glwe_size.0 * polynomial_size.0);
        proof {
            crate::parameters::lemma_modulus_facts(ciphertext_modulus);
            crate::numeric::lemma_working_modulus_valid(ciphertext_modulus);
            vstd::arithmetic::div_mod::lemma_mod_multiples_basic(
                glwe_size.0 as int,
                polynomial_size.0 as int,
            );
            vstd::arithmetic::mul::lemma_mul_is_commutative(
                glwe_size.0 as int,
                polynomial_size.0 as int,
            );
            vstd::arithmetic::mul::lemma_mul_inequality(1, glwe_size.0 as int, polynomial_size.0 as int);
            vstd::arithmetic::mul::lemma_mul_is_commutative(1, polynomial_size.0 as int);
        }
        GlweCiphertext { data, polynomial_size, ciphertext_modulus }
    }

    /// The GLWE size: the total polynomial count.
    pub fn glwe_size(&self) -> (r: GlweSize)
        requires
            self.polynomial_size.0 >= 1,
        ensures
            r.0 == self.data@.len() as int / self.polynomial_size.0 as int,
    {
        GlweSize(self.data.len() / self.polynomial_size.0)
    }

    /// The polynomial size.
    pub fn polynomial_size(&self) -> (r: PolynomialSize)
        ensures
            r == self.polynomial_size,
    {
        self.polynomial_size
    }

    /// The ciphertext modulus.
    pub fn ciphertext_modulus(&self) -> (r: CiphertextModulus)
        ensures
            r == self.ciphertext_modulus,
    {
        self.ciphertext_modulus
    }
}

/// Encrypt a plaintext list (one value per body coefficient) into a GLWE
/// ciphertext in place: the body must already hold the encoded plaintexts,
/// the mask is drawn uniformly, the noise is added to the body, and the
/// negacyclic mask·key multisum is folded into the body.
pub fn encrypt_glwe_ciphertext_assign(
    glwe_secret_key: &GlweSecretKey,
    output: &mut GlweCiphertext,
    noise_parameters: StandardDev,
    generator: &mut EncryptionRandomGenerator,
)
    requires
        old(output).well_formed(),
        glwe_secret_key.well_formed(),
        glwe_secret_key.polynomial_size == old(output).polynomial_size,
        old(output).data@.len() == glwe_secret_key.data@.len() + old(output).polynomial_size.0,
        crate::numeric::reduced(
            glwe_secret_key.data@,
            old(output).ciphertext_modulus.working_modulus(),
        ),
        noise_parameters.log2_scale <= 64,
    ensures
        final(output).polynomial_size == old(output).polynomial_size,
        final(output).ciphertext_modulus == old(output).ciphertext_modulus,
        final(output).data@.len() == old(output).data@.len(),
        final(output).well_formed(),
        final(generator).mask_seed() == old(generator).mask_seed(),
        final(generator).noise_seed() == old(generator).noise_seed(),
        final(generator).mask_consumed() == old(generator).mask_consumed() + 16
            * glwe_secret_key.data@.len(),
        final(generator).noise_consumed() == old(generator).noise_consumed() + 8
            * old(output).polynomial_size.0,
        forall|i: int|
            0 <= i < glwe_secret_key.data@.len() ==> #[trigger] final(output).data@[i] as int
                == crate::random::mask_word(
                old(generator).mask_seed(),
                (old(generator).mask_consumed() + 16 * i) as nat,
                old(output).ciphertext_modulus,
            ),
        forall|j: int|
            0 <= j < old(output).polynomial_size.0
                ==> #[trigger] final(output).data@[glwe_secret_key.data@.len() + j] as int
                == multisum_add_acc(
                ((old(output).data@[glwe_secret_key.data@.len() + j] + crate::random::noise_word(
                    old(generator).noise_seed(),
                    (old(generator).noise_consumed() + 8 * j) as nat,
                    noise_parameters,
                    old(output).ciphertext_modulus,
                )) % old(output).ciphertext_modulus.working_modulus()),
                final(output).data@,
                glwe_secret_key.data@,
                0,
                old(output).polynomial_size.0 as nat,
                (glwe_secret_key.data@.len() as int
                    / old(output).polynomial_size.0 as int) as nat,
                j,
                old(output).ciphertext_modulus.working_modulus(),
            ),
{
    let m = output.ciphertext_modulus;
    let n = output.polynomial_size.0;
    let mask_len = glwe_secret_key.data.len();
    let data_len = output.data.len();
    proof {
        crate::parameters::lemma_modulus_facts(m);
        crate::numeric::lemma_working_modulus_valid(m);
    }
    let w = m.get_working_modulus();
    // fill the mask with uniform words
    let mut i: usize = 0;
    while i < mask_len
        invariant
            i <= mask_len,
            mask_len + n == data_len,
            output.data@.len() == data_len,
            output.polynomial_size == old(output).polynomial_size,
            output.ciphertext_modulus == m,
            m.well_formed(),
            w == m.working_modulus(),
            valid_working_modulus(w as int),
            reduced(output.data@, w as int),
            generator.mask_seed() == old(generator).mask_seed(),
            generator.noise_seed() == old(generator).noise_seed(),
            generator.mask_consumed() == old(generator).mask_consumed() + 16 * i,
            generator.noise_consumed() == old(generator).noise_consumed(),
            forall|x: int|
                0 <= x < i ==> #[trigger] output.data@[x] as int == crate::random::mask_word(
                    old(generator).mask_seed(),
                    (old(generator).mask_consumed() + 16 * x) as nat,
                    m,
                ),
            forall|x: int|
                mask_len <= x < data_len ==> #[trigger] output.data@[x] == old(output).data@[x],
        decreases mask_len - i,
    {
        let word = generator.random_mask_word(&m);
        output.data[i] = word;
        i = i + 1;
    }
    // add noise to every body coefficient
    let mut j: usize = 0;
    while j < n
        invariant
            j <= n,
            mask_len + n == data_len,
            output.data@.len() == data_len,
            output.polynomial_size == old(output).polynomial_size,
            output.ciphertext_modulus == m,
            m.well_formed(),
            w == m.working_modulus(),
            valid_working_modulus(w as int),
            noise_parameters.log2_scale <= 64,
            reduced(output.data@, w as int),
            generator.mask_seed() == old(generator).mask_seed(),
            generator.noise_seed() == old(generator).noise_seed(),
            generator.mask_consumed() == old(generator).mask_consumed() + 16 * mask_len,
            generator.noise_consumed() == old(generator).noise_consumed() + 8 * j,
            forall|x: int|
                0 <= x < mask_len ==> #[trigger] output.data@[x] as int == crate::random::mask_word(
                    old(generator).mask_seed(),
                    (old(generator).mask_consumed() + 16 * x) as nat,
                    m,
                ),
            forall|x: int|
                0 <= x < j ==> #[trigger] output.data@[mask_len + x] as int == (old(
                    output,
                ).data@[mask_len + x] + crate::random::noise_word(
                    old(generator).noise_seed(),
                    (old(generator).noise_consumed() + 8 * x) as nat,
                    noise_parameters,
                    m,
                )) % (w as int),
            forall|x: int|
                j <= x < n ==> #[trigger] output.data@[mask_len + x] == old(output).data@[mask_len
                    + x],
        decreases n - j,
    {
        let noise = generator.random_noise_word(noise_parameters, &m);
        let v = crate::numeric::add_mod(output.data[mask_len + j], noise, w);
        output.data[mask_len + j] = v;
        j = j + 1;
    }
    // fold the negacyclic mask·key multisum into the body
    let ghost noisy = output.data@;
    proof {
        vstd::arithmetic::div_mod::lemma_mod_multiples_basic(
            (glwe_secret_key.data@.len() as int / n as int),
            n as int,
        );
    }
    add_multisum_into_body(&mut output.data, mask_len, &glwe_secret_key.data, n, w);
    proof {
        assert forall|x: int| 0 <= x < n implies #[trigger] output.data@[mask_len + x] as int
            == multisum_add_acc(
            ((old(output).data@[mask_len + x] + crate::random::noise_word(
                old(generator).noise_seed(),
                (old(generator).noise_consumed() + 8 * x) as nat,
                noise_parameters,
                m,
            )) % (w as int)),
            output.data@,
            glwe_secret_key.data@,
            0,
            n as nat,
            (mask_len as int / n as int) as nat,
            x,
            w as int,
        ) by {
            vstd::arithmetic::mul::lemma_mul_is_commutative(
                (mask_len as int / n as int),
                n as int,
            );
            vstd::arithmetic::div_mod::lemma_fundamental_div_mod(mask_len as int, n as int);
            lemma_multisum_acc_agree(
                ((old(output).data@[mask_len + x] + crate::random::noise_word(
                    old(generator).noise_seed(),
                    (old(generator).noise_consumed() + 8 * x) as nat,
                    noise_parameters,
                    m,
                )) % (w as int)),
                noisy,
                output.data@,
                glwe_secret_key.data@,
                0,
                n as nat,
                (mask_len as int / n as int) as nat,
                x,
                w as int,
            );
        }
    }
}

/// The value a body coefficient reaches after the first p polynomial products
/// of a negacyclic multisum were added, each sum reduced as it lands: product
/// number u pairs mask polynomial u with key polynomial u of the chunk at
/// key_off, and contributes its coefficient j.
pub open spec fn multisum_add_acc(
    start: int,
    mask: Seq<u64>,
    key: Seq<u64>,
    key_off: int,
    n: nat,
    p: nat,
    j: int,
    w: int,
) -> int
    decreases p,
{
    if p == 0 {
        start
    } else {
        (multisum_add_acc(start, mask, key, key_off, n, (p - 1) as nat, j, w)
            + crate::polynomial::poly_mul_coeff(
            mask,
            (p - 1) as int * n,
            key,
            key_off + (p - 1) as int * n,
            n,
            j,
            w,
        )) % w
    }
}

/// The same running value with every product subtracted instead of added.
pub open spec fn multisum_sub_acc(
    start: int,
    mask: Seq<u64>,
    key: Seq<u64>,
    key_off: int,
    n: nat,
    p: nat,
    j: int,
    w: int,
) -> int
    decreases p,
{
    if p == 0 {
        start
    } else {
        (multisum_sub_acc(start, mask, key, key_off, n, (p - 1) as nat, j, w)
            - crate::polynomial::poly_mul_coeff(
            mask,
            (p - 1) as int * n,
            key,
            key_off + (p - 1) as int * n,
            n,
            j,
            w,
        )) % w
    }
}

/// A multisum value started from a reduced coefficient stays reduced.
pub proof fn lemma_multisum_acc_bound(
    start: int,
    mask: Seq<u64>,
    key: Seq<u64>,
    key_off: int,
    n: nat,
    p: nat,
    j: int,
    w: int,
)
    requires
        valid_working_modulus(w),
        0 <= start < w,
    ensures
        0 <= multisum_add_acc(start, mask, key, key_off, n, p, j, w) < w,
        0 <= multisum_sub_acc(start, mask, key, key_off, n, p, j, w) < w,
    decreases p,
{
    if p > 0 {
        lemma_multisum_acc_bound(start, mask, key, key_off, n, (p - 1) as nat, j, w);
        vstd::arithmetic::div_mod::lemma_mod_bound(
            multisum_add_acc(start, mask, key, key_off, n, (p - 1) as nat, j, w)
                + crate::polynomial::poly_mul_coeff(
                mask,
                (p - 1) as int * n,
                key,
                key_off + (p - 1) as int * n,
                n,
                j,
                w,
            ),
            w,
        );
        vstd::arithmetic::div_mod::lemma_mod_bound(
            multisum_sub_acc(start, mask, key, key_off, n, (p - 1) as nat, j, w)
                - crate::polynomial::poly_mul_coeff(
                mask,
                (p - 1) as int * n,
                key,
                key_off + (p - 1) as int * n,
                n,
                j,
                w,
            ),
            w,
        );
    }
}

/// Every value a mask·key multisum reaches carries the modulus's scaling
/// factor to the native torus, whenever it starts from a multiple of that
/// factor, the mask words all carry it, and the key is binary: the phase a
/// decryption reads, before the final division, is such a value.
pub proof fn lemma_multisum_acc_carries_scaling(
    start: int,
    mask: Seq<u64>,
    key: Seq<u64>,
    key_off: int,
    n: nat,
    p: nat,
    j: int,
    m: crate::parameters::CiphertextModulus,
)
    requires
        m.well_formed(),
        0 <= j < n,
        p * n <= mask.len(),
        start % m.scaling_to_native_torus() == 0,
        forall|t: int|
            0 <= t < p * n ==> (#[trigger] mask[t] as int) % m.scaling_to_native_torus() == 0,
        forall|t: int| 0 <= t < key.len() ==> key[t] == 0 || key[t] == 1,
        key_off >= 0,
        key_off + p * n <= key.len(),
    ensures
        multisum_add_acc(start, mask, key, key_off, n, p, j, m.working_modulus()) % (
        m.scaling_to_native_torus()) == 0,
        multisum_sub_acc(start, mask, key, key_off, n, p, j, m.working_modulus()) % (
        m.scaling_to_native_torus()) == 0,
    decreases p,
{
    let f = m.scaling_to_native_torus();
    let q = m.modulus();
    let w = m.working_modulus();
    crate::parameters::lemma_modulus_facts(m);
    if p > 0 {
        vstd::arithmetic::mul::lemma_mul_inequality((p - 1) as int, p as int, n as int);
        vstd::arithmetic::mul::lemma_mul_nonnegative((p - 1) as int, n as int);
        vstd::arithmetic::mul::lemma_mul_is_distributive_add_other_way(n as int, (p - 1) as int, 1);
        lemma_multisum_acc_carries_scaling(start, mask, key, key_off, n, (p - 1) as nat, j, m);
        let prev_add = multisum_add_acc(start, mask, key, key_off, n, (p - 1) as nat, j, w);
        let prev_sub = multisum_sub_acc(start, mask, key, key_off, n, (p - 1) as nat, j, w);
        let term = crate::polynomial::poly_mul_coeff(
            mask,
            (p - 1) as int * n,
            key,
            key_off + (p - 1) as int * n,
            n,
            j,
            w,
        );
        assert forall|t: int|
            0 <= t < n implies (#[trigger] mask[(p - 1) as int * n + t] as int) % f == 0 by {
            assert(0 <= (p - 1) as int * n + t < p * n);
        }
        assert(term % f == 0) by {
            crate::polynomial::lemma_poly_mul_coeff_partial_carries_factor(
                mask,
                (p - 1) as int * n,
                key,
                key_off + (p - 1) as int * n,
                n,
                j,
                n,
                f,
                q,
            );
        }
        crate::lwe::lemma_sum_of_multiples_mod(prev_add, term, f, q);
        assert((0 - term) % f == 0) by {
            vstd::arithmetic::div_mod::lemma_fundamental_div_mod(term, f);
            vstd::arithmetic::div_mod::lemma_mod_multiples_basic(0 - term / f, f);
            vstd::arithmetic::mul::lemma_mul_is_commutative(0 - term / f, f);
            vstd::arithmetic::mul::lemma_mul_is_distributive_sub(f, 0, term / f);
            vstd::arithmetic::mul::lemma_mul_basics(f);
        }
        crate::lwe::lemma_sum_of_multiples_mod(prev_sub, 0 - term, f, q);
    }
}

/// The plain integer sum of the first p polynomial products of a multisum.
pub open spec fn multisum_terms(
    mask: Seq<u64>,
    key: Seq<u64>,
    key_off: int,
    n: nat,
    p: nat,
    j: int,
    w: int,
) -> int
    decreases p,
{
    if p == 0 {
        0
    } else {
        multisum_terms(mask, key, key_off, n, (p - 1) as nat, j, w)
            + crate::polynomial::poly_mul_coeff(
            mask,
            (p - 1) as int * n,
            key,
            key_off + (p - 1) as int * n,
            n,
            j,
            w,
        )
    }
}

/// A running multisum is its start plus or minus the plain sum of its
/// products, reduced once.
pub proof fn lemma_multisum_acc_fold(
    start: int,
    mask: Seq<u64>,
    key: Seq<u64>,
    key_off: int,
    n: nat,
    p: nat,
    j: int,
    w: int,
)
    requires
        w >= 2,
        0 <= start < w,
    ensures
        multisum_add_acc(start, mask, key, key_off, n, p, j, w) == (start + multisum_terms(
            mask,
            key,
            key_off,
            n,
            p,
            j,
            w,
        )) % w,
        multisum_sub_acc(start, mask, key, key_off, n, p, j, w) == (start - multisum_terms(
            mask,
            key,
            key_off,
            n,
            p,
            j,
            w,
        )) % w,
    decreases p,
{
    if p == 0 {
        vstd::arithmetic::div_mod::lemma_small_mod(start as nat, w as nat);
    } else {
        lemma_multisum_acc_fold(start, mask, key, key_off, n, (p - 1) as nat, j, w);
        let t_prev = multisum_terms(mask, key, key_off, n, (p - 1) as nat, j, w);
        let prod = crate::polynomial::poly_mul_coeff(
            mask,
            (p - 1) as int * n,
            key,
            key_off + (p - 1) as int * n,
            n,
            j,
            w,
        );
        crate::decomposition::lemma_mod_add_left(start + t_prev, prod, w);
        crate::decomposition::lemma_mod_add_left(start - t_prev, 0 - prod, w);
    }
}

/// The decryption multisum cancels the encryption multisum exactly: reading a
/// body coefficient that a mask·key multisum was folded into, with the same
/// mask, key chunk and position, gives back the value the fold started from.
/// Through the exact encryption and decryption contracts this is the GLWE and
/// CRSGLWE round trip, down to the scaled plaintext plus its noise word.
pub proof fn lemma_multisum_round_trip(
    start: int,
    mask: Seq<u64>,
    key: Seq<u64>,
    key_off: int,
    n: nat,
    p: nat,
    j: int,
    w: int,
)
    requires
        w >= 2,
        0 <= start < w,
    ensures
        multisum_sub_acc(
            multisum_add_acc(start, mask, key, key_off, n, p, j, w),
            mask,
            key,
            key_off,
            n,
            p,
            j,
            w,
        ) == start,
{
    let t = multisum_terms(mask, key, key_off, n, p, j, w);
    lemma_multisum_acc_fold(start, mask, key, key_off, n, p, j, w);
    let enc = (start + t) % w;
    vstd::arithmetic::div_mod::lemma_mod_bound(start + t, w);
    lemma_multisum_acc_fold(enc, mask, key, key_off, n, p, j, w);
    crate::decomposition::lemma_mod_add_left(start + t, 0 - t, w);
    vstd::arithmetic::div_mod::lemma_small_mod(start as nat, w as nat);
}

/// Two mask sequences that agree on the first p·n coefficients give the same
/// multisum values.
pub proof fn lemma_multisum_acc_agree(
    start: int,
    mask1: Seq<u64>,
    mask2: Seq<u64>,
    key: Seq<u64>,
    key_off: int,
    n: nat,
    p: nat,
    j: int,
    w: int,
)
    requires
        forall|x: int| 0 <= x < p * n ==> mask1[x] == mask2[x],
    ensures
        multisum_add_acc(start, mask1, key, key_off, n, p, j, w) == multisum_add_acc(
            start,
            mask2,
            key,
            key_off,
            n,
            p,
            j,
            w,
        ),
        multisum_sub_acc(start, mask1, key, key_off, n, p, j, w) == multisum_sub_acc(
            start,
            mask2,
            key,
            key_off,
            n,
            p,
            j,
            w,
        ),
    decreases p,
{
    if p > 0 {
        vstd::arithmetic::mul::lemma_mul_inequality((p - 1) as int, p as int, n as int);
        vstd::arithmetic::mul::lemma_mul_nonnegative((p - 1) as int, n as int);
        vstd::arithmetic::mul::lemma_mul_is_distributive_add_other_way(n as int, (p - 1) as int, 1);
        lemma_multisum_acc_agree(start, mask1, mask2, key, key_off, n, (p - 1) as nat, j, w);
        crate::polynomial::lemma_poly_mul_coeff_agree(
            mask1,
            mask2,
            (p - 1) as int * n,
            key,
            key_off + (p - 1) as int * n,
            n,
            j,
            w,
        );
    }
}

/// Add, into the body polynomial at data[body_off..body_off+n], the negacyclic
/// multisum of the mask polynomials data[0..body_off] with the key polynomials
/// key[0..body_off]: coefficient j becomes the running mask·key multisum value
/// over all mask polynomials, started from its old value.
pub fn add_multisum_into_body(
    data: &mut Vec<u64>,
    body_off: usize,
    key: &Vec<u64>,
    n: usize,
    w: u128,
)
    requires
        valid_working_modulus(w as int),
        n >= 1,
        body_off + n <= old(data)@.len(),
        body_off as int % (n as int) == 0,
        key@.len() >= body_off,
        reduced(old(data)@, w as int),
        reduced(key@, w as int),
    ensures
        final(data)@.len() == old(data)@.len(),
        reduced(final(data)@, w as int),
        forall|x: int|
            0 <= x < old(data)@.len() && !(body_off <= x < body_off + n) ==> final(data)@[x] == old(
                data,
            )@[x],
        forall|x: int|
            0 <= x < n ==> #[trigger] final(data)@[body_off + x] as int == multisum_add_acc(
                old(data)@[body_off + x] as int,
                old(data)@,
                key@,
                0,
                n as nat,
                (body_off as int / n as int) as nat,
                x,
                w as int,
            ),
{
    let dlen = data.len();
    let poly_count = body_off / n;
    proof {
        vstd::arithmetic::div_mod::lemma_fundamental_div_mod(body_off as int, n as int);
    }
    let mut p: usize = 0;
    while p < poly_count
        invariant
            p <= poly_count,
            n >= 1,
            poly_count == body_off as int / n as int,
            body_off == poly_count * n,
            body_off + n <= dlen,
            data@.len() == dlen,
            key@.len() >= body_off,
            valid_working_modulus(w as int),
            reduced(data@, w as int),
            reduced(key@, w as int),
            forall|x: int|
                0 <= x < dlen && !(body_off <= x < body_off + n) ==> data@[x] == old(data)@[x],
            forall|x: int|
                0 <= x < n ==> #[trigger] data@[body_off + x] as int == multisum_add_acc(
                    old(data)@[body_off + x] as int,
                    old(data)@,
                    key@,
                    0,
                    n as nat,
                    p as nat,
                    x,
                    w as int,
                ),
        decreases poly_count - p,
    {
        proof {
            vstd::arithmetic::mul::lemma_mul_inequality(p as int + 1, poly_count as int, n as int);
            vstd::arithmetic::mul::lemma_mul_inequality(p as int, poly_count as int, n as int);
            vstd::arithmetic::mul::lemma_mul_nonnegative(p as int, n as int);
            vstd::arithmetic::mul::lemma_mul_is_distributive_add_other_way(n as int, p as int, 1);
        }
        let ghost data_before = data@;
        let prod = poly_product(data, p * n, key, p * n, n, w);
        poly_add_assign(data, body_off, &prod, 0, n, w);
        proof {
            assert forall|x: int| 0 <= x < n implies #[trigger] data@[body_off + x] as int
                == multisum_add_acc(
                old(data)@[body_off + x] as int,
                old(data)@,
                key@,
                0,
                n as nat,
                (p + 1) as nat,
                x,
                w as int,
            ) by {
                crate::polynomial::lemma_poly_mul_coeff_agree(
                    data_before,
                    old(data)@,
                    p as int * n as int,
                    key@,
                    p as int * n as int,
                    n as nat,
                    x,
                    w as int,
                );
            }
        }
        p = p + 1;
    }
}

/// The negacyclic product of the size-n polynomial at a[ao..] with the one at
/// b[bo..], as a fresh vector: coefficient k is the negacyclic convolution sum.
pub fn poly_product(a: &Vec<u64>, ao: usize, b: &Vec<u64>, bo: usize, n: usize, w: u128) -> (r: Vec<
    u64,
>)
    requires
        valid_working_modulus(w as int),
        ao + n <= a@.len(),
        bo + n <= b@.len(),
        reduced(a@, w as int),
        reduced(b@, w as int),
    ensures
        r@.len() == n,
        reduced(r@, w as int),
        forall|k: int|
            0 <= k < n ==> #[trigger] r@[k] == crate::polynomial::poly_mul_coeff(
                a@,
                ao as int,
                b@,
                bo as int,
                n as nat,
                k,
                w as int,
            ),
{
    let mut r: Vec<u64> = Vec::new();
    let mut k: usize = 0;
    while k < n
        invariant
            k <= n,
            ao + n <= a@.len(),
            bo + n <= b@.len(),
            valid_working_modulus(w as int),
            reduced(a@, w as int),
            reduced(b@, w as int),
            r@.len() == k,
            reduced(r@, w as int),
            forall|x: int|
                0 <= x < k ==> #[trigger] r@[x] == crate::polynomial::poly_mul_coeff(
                    a@,
                    ao as int,
                    b@,
                    bo as int,
                    n as nat,
                    x,
                    w as int,
                ),
        decreases n - k,
    {
        let c = poly_mul_coeff_exec(a, ao, b, bo, n, k, w);
        r.push(c);
        k = k + 1;
    }
    r
}

/// Coefficient j of the phase a key reads out of a ciphertext whose body
/// polynomial starts at body_pos: the body coefficient minus the running
/// mask·key multisum over mask_polys polynomials, modulo the working modulus.
pub open spec fn glwe_phase_coeff(
    ct: Seq<u64>,
    key: Seq<u64>,
    key_off: int,
    mask_polys: nat,
    n: nat,
    body_pos: int,
    j: int,
    w: int,
) -> int {
    (ct[body_pos + j] - multisum_add_acc(0, ct, key, key_off, n, mask_polys, j, w)) % w
}

/// Decrypt a GLWE ciphertext: every output coefficient is the matching body
/// coefficient minus the negacyclic mask·key multisum, modulo the working
/// modulus, carried back from the native torus by the scaling factor.
pub fn decrypt_glwe_ciphertext(
    glwe_secret_key: &GlweSecretKey,
    input_glwe_ciphertext: &GlweCiphertext,
    output_plaintext_list: &mut crate::lwe::PlaintextList,
)
    requires
        input_glwe_ciphertext.well_formed(),
        glwe_secret_key.well_formed(),
        glwe_secret_key.polynomial_size == input_glwe_ciphertext.polynomial_size,
        input_glwe_ciphertext.data@.len() == glwe_secret_key.data@.len()
            + input_glwe_ciphertext.polynomial_size.0,
        crate::numeric::reduced(
            glwe_secret_key.data@,
            input_glwe_ciphertext.ciphertext_modulus.working_modulus(),
        ),
        old(output_plaintext_list).data@.len() == input_glwe_ciphertext.polynomial_size.0,
    ensures
        final(output_plaintext_list).data@.len() == old(output_plaintext_list).data@.len(),
        forall|j: int|
            0 <= j < input_glwe_ciphertext.polynomial_size.0
                ==> #[trigger] final(output_plaintext_list).data@[j] as int == glwe_phase_coeff(
                input_glwe_ciphertext.data@,
                glwe_secret_key.data@,
                0,
                (glwe_secret_key.data@.len() as int
                    / input_glwe_ciphertext.polynomial_size.0 as int) as nat,
                input_glwe_ciphertext.polynomial_size.0 as nat,
                glwe_secret_key.data@.len() as int,
                j,
                input_glwe_ciphertext.ciphertext_modulus.working_modulus(),
            ) / input_glwe_ciphertext.ciphertext_modulus.scaling_to_native_torus(),
{
    let m = input_glwe_ciphertext.ciphertext_modulus;
    let n = input_glwe_ciphertext.polynomial_size.0;
    let mask_len = glwe_secret_key.data.len();
    let ghost polys = (glwe_secret_key.data@.len() as int
        / input_glwe_ciphertext.polynomial_size.0 as int) as nat;
    proof {
        crate::parameters::lemma_modulus_facts(m);
        crate::numeric::lemma_working_modulus_valid(m);
        vstd::arithmetic::mul::lemma_mul_is_commutative(polys as int, n as int);
        vstd::arithmetic::div_mod::lemma_fundamental_div_mod(mask_len as int, n as int);
    }
    let w = m.get_working_modulus();
    // phase = body - multisum(mask, key)
    let dl: usize = input_glwe_ciphertext.data.len();
    let mut phase = crate::crs_lwe_ciphertext::copy_range(&input_glwe_ciphertext.data, mask_len, n);
    let mut scratch = vec_of_zeros(dl);
    crate::lwe_keyswitch::copy_words(&mut scratch, 0, &input_glwe_ciphertext.data);
    proof {
        assert(reduced(phase@, w as int));
        assert(reduced(scratch@, w as int)) by {
            assert forall|x: int| 0 <= x < scratch@.len() implies #[trigger] scratch@[x]
                < w as int by {
                assert(scratch@[x] == input_glwe_ciphertext.data@[x]);
            }
        }
    }
    // zero the body polynomial of the scratch copy, then add the multisum
    // there and subtract it from the phase
    let mut j: usize = 0;
    while j < n
        invariant
            j <= n,
            scratch@.len() == dl,
            dl == mask_len + n,
            valid_working_modulus(w as int),
            reduced(scratch@, w as int),
            glwe_secret_key.data@.len() == mask_len,
            forall|x: int|
                0 <= x < mask_len ==> #[trigger] scratch@[x] == input_glwe_ciphertext.data@[x],
            forall|x: int| 0 <= x < j ==> #[trigger] scratch@[mask_len + x] == 0,
        decreases n - j,
    {
        scratch[mask_len + j] = 0u64;
        j = j + 1;
    }
    let ghost zeroed = scratch@;
    add_multisum_into_body(&mut scratch, mask_len, &glwe_secret_key.data, n, w);
    proof {
        // the accumulated multisum over the scratch mask equals the one over
        // the ciphertext, which they share
        assert forall|x: int| 0 <= x < n implies #[trigger] scratch@[mask_len + x] as int
            == multisum_add_acc(
            0,
            input_glwe_ciphertext.data@,
            glwe_secret_key.data@,
            0,
            n as nat,
            polys,
            x,
            w as int,
        ) by {
            lemma_multisum_acc_agree(
                0,
                zeroed,
                input_glwe_ciphertext.data@,
                glwe_secret_key.data@,
                0,
                n as nat,
                polys,
                x,
                w as int,
            );
        }
    }
    let multisum = crate::crs_lwe_ciphertext::copy_range(&scratch, mask_len, n);
    proof {
        assert(reduced(multisum@, w as int)) by {
            assert forall|x: int| 0 <= x < multisum@.len() implies #[trigger] multisum@[x]
                < w as int by {
                assert(multisum@[x] == scratch@[mask_len + x]);
            }
        }
    }
    let ghost phase_before = phase@;
    poly_sub_assign(&mut phase, 0, &multisum, 0, n, w);
    proof {
        assert forall|x: int| 0 <= x < n implies #[trigger] phase@[x] as int == glwe_phase_coeff(
            input_glwe_ciphertext.data@,
            glwe_secret_key.data@,
            0,
            polys,
            n as nat,
            mask_len as int,
            x,
            w as int,
        ) by {
            assert(phase@[0 + x] as int == (phase_before[0 + x] - multisum@[0 + x]) % (w as int));
            assert(phase_before[x] == input_glwe_ciphertext.data@[mask_len + x]);
            assert(multisum@[x] == scratch@[mask_len + x]);
        }
    }
    let f = m.get_scaling_to_native_torus();
    let mut k: usize = 0;
    while k < n
        invariant
            k <= n,
            phase@.len() == n,
            f >= 1,
            f == m.scaling_to_native_torus(),
            w == m.working_modulus(),
            output_plaintext_list.data@.len() == old(output_plaintext_list).data@.len(),
            old(output_plaintext_list).data@.len() == n,
            mask_len == glwe_secret_key.data@.len(),
            polys == (glwe_secret_key.data@.len() as int
                / input_glwe_ciphertext.polynomial_size.0 as int) as nat,
            n == input_glwe_ciphertext.polynomial_size.0,
            m == input_glwe_ciphertext.ciphertext_modulus,
            forall|x: int|
                0 <= x < n ==> #[trigger] phase@[x] as int == glwe_phase_coeff(
                    input_glwe_ciphertext.data@,
                    glwe_secret_key.data@,
                    0,
                    polys,
                    n as nat,
                    mask_len as int,
                    x,
                    w as int,
                ),
            forall|x: int|
                0 <= x < k ==> #[trigger] output_plaintext_list.data@[x] as int
                    == glwe_phase_coeff(
                    input_glwe_ciphertext.data@,
                    glwe_secret_key.data@,
                    0,
                    polys,
                    n as nat,
                    mask_len as int,
                    x,
                    w as int,
                ) / (f as int),
        decreases n - k,
    {
        let v = phase[k] / f;
        output_plaintext_list.data[k] = v;
        k = k + 1;
    }
}

} // verus!

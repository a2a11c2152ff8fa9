//! The programmable bootstrap: a bootstrapping key made of level-matrix
//! encryptions of each small-key bit, blind rotation of an accumulator by the
//! encrypted phase, and sample extraction of the constant coefficient.
//!
//! The polynomial transform engine of this library is exact: products are
//! computed directly in the coefficient domain, so converting a bootstrapping
//! key "into the engine's domain" keeps its coefficients as they are. The
//! bootstrap runs on a caller-supplied scratch buffer whose exact size the
//! sizing function states; a buffer of any other size is refused.

use vstd::prelude::*;
use crate::parameters::{CiphertextModulus, DecompositionBaseLog, DecompositionLevelCount,
    GlweSize, PolynomialSize, StandardDev};
use crate::numeric::{add_mod, reduced, valid_working_modulus};
use crate::lwe::{LweCiphertext, LweSecretKey, binary_seq, vec_of_zeros};
use crate::glwe::{GlweCiphertext, GlweSecretKey, poly_product};
use crate::polynomial::{is_power_of_two, poly_add_assign, poly_monomial_mul_assign,
    poly_scalar_mul_assign, poly_sub_assign};
use crate::random::EncryptionRandomGenerator;
use crate::lwe_keyswitch::copy_words;

verus! {

/// A bootstrapping key: for every bit of the small LWE key, a level matrix of
/// fresh GLWE encryptions (one row per decomposition level and mask slot) that
/// the external product consumes. Stored in the engine's domain, which for the
/// exact engine of this library is the coefficient domain itself.
#[derive(Clone, Debug, PartialEq, Eq)]
pub struct LweBootstrapKey {
    pub data: Vec<u64>,
    pub glwe_size: GlweSize,
    pub polynomial_size: PolynomialSize,
    pub decomp_base_log: DecompositionBaseLog,
    pub decomp_level_count: DecompositionLevelCount,
    pub ciphertext_modulus: CiphertextModulus,
}

impl LweBootstrapKey {
    /// The number of words of one level-matrix row: a full GLWE ciphertext.
    pub open spec fn spec_row_len(&self) -> int {
        self.glwe_size.0 as int * self.polynomial_size.0 as int
    }

    /// The number of words of one key bit's level matrix.
    pub open spec fn spec_bit_len(&self) -> int {
        self.decomp_level_count.0 as int * self.glwe_size.0 as int * self.spec_row_len()
    }

    /// The shape and reduction invariant of a bootstrapping key.
    pub open spec fn well_formed(&self) -> bool {
        &&& self.glwe_size.0 >= 2
        &&& self.polynomial_size.0 >= 1
        &&& crate::decomposition::custom_params_ok(
            self.decomp_base_log.0 as nat,
            self.decomp_level_count.0 as nat,
            self.ciphertext_modulus,
        )
        &&& self.spec_bit_len() >= 1
        &&& self.data@.len() as int % self.spec_bit_len() == 0
        &&& reduced(self.data@, self.ciphertext_modulus.working_modulus())
    }

    /// The input LWE dimension: the number of level matrices.
    pub open spec fn spec_input_dimension(&self) -> int {
        self.data@.len() as int / self.spec_bit_len()
    }
}

/// The exact number of scratch words the bootstrap needs: three GLWE-sized
/// buffers (the accumulator, its rotation, and the external-product
/// accumulator).
pub fn bootstrap_scratch_size(glwe_size: GlweSize, polynomial_size: PolynomialSize) -> (r: usize)
    requires
        polynomial_size.0 >= 1,
        3 * glwe_size.0 * polynomial_size.0 <= usize::MAX,
    ensures
        r == 3 * glwe_size.0 * polynomial_size.0,
{
    proof {
        vstd::arithmetic::mul::lemma_mul_inequality(
            1,
            polynomial_size.0 as int,
            3 * glwe_size.0 as int,
        );
        vstd::arithmetic::mul::lemma_mul_basics(3 * glwe_size.0 as int);
        vstd::arithmetic::mul::lemma_mul_is_commutative(
            polynomial_size.0 as int,
            3 * glwe_size.0 as int,
        );
    }
    3 * glwe_size.0 * polynomial_size.0
}

/// Multiply the size-n range of dst at do_ by X^d in place, for any degree
/// d < 2n: a rotation by at least n negates the polynomial once more.
pub fn poly_monomial_mul_general(dst: &mut Vec<u64>, do_: usize, d: usize, n: usize, w: u128)
    requires
        valid_working_modulus(w as int),
        do_ + n <= old(dst)@.len(),
        d < 2 * n,
        n >= 1,
        reduced(old(dst)@, w as int),
    ensures
        final(dst)@.len() == old(dst)@.len(),
        reduced(final(dst)@, w as int),
        forall|x: int|
            0 <= x < old(dst)@.len() && !(do_ <= x < do_ + n) ==> final(dst)@[x] == old(dst)@[x],
        forall|x: int|
            0 <= x < n ==> #[trigger] final(dst)@[do_ + x] as int
                == crate::polynomial::monomial_shift_general_coeff(
                old(dst)@,
                do_ as int,
                n as nat,
                d as int,
                x,
                w as int,
            ),
{
    if d < n {
        if d > 0 {
            poly_monomial_mul_assign(dst, do_, d, n, w);
        }
    } else {
        let dd = d - n;
        let ghost mut mid = old(dst)@;
        if dd > 0 {
            poly_monomial_mul_assign(dst, do_, dd, n, w);
            proof {
                mid = dst@;
            }
        }
        // negate: multiply by w - 1
        proof {
            vstd::arithmetic::div_mod::lemma_mod_bound((w - 1) as int, w as int);
        }
        let neg_one: u64 = (w - 1) as u64;
        poly_scalar_mul_assign(dst, do_, neg_one, n, w);
        proof {
            assert forall|x: int| 0 <= x < n implies #[trigger] dst@[do_ + x] as int
                == crate::polynomial::monomial_shift_general_coeff(
                old(dst)@,
                do_ as int,
                n as nat,
                d as int,
                x,
                w as int,
            ) by {
                crate::polynomial::lemma_scalar_negate(mid[do_ + x] as int, w as int);
            }
        }
    }
}

/// Generate a bootstrapping key: for every bit s of the input LWE key, a
/// level matrix whose row (j, r) is a fresh GLWE encryption of zero with
/// s·2^(64-b·j) added to polynomial r at its constant coefficient. The native
/// modulus drives the decomposition.
pub fn generate_lwe_bootstrap_key(
    input_lwe_secret_key: &LweSecretKey,
    output_glwe_secret_key: &GlweSecretKey,
    decomp_base_log: DecompositionBaseLog,
    decomp_level_count: DecompositionLevelCount,
    noise_parameters: StandardDev,
    ciphertext_modulus: CiphertextModulus,
    generator: &mut EncryptionRandomGenerator,
) -> (r: LweBootstrapKey)
    requires
        ciphertext_modulus.well_formed(),
        ciphertext_modulus.modulus() == crate::parameters::native_modulus(),
        1 <= decomp_base_log.0,
        1 <= decomp_level_count.0,
        decomp_base_log.0 * decomp_level_count.0 < 64,
        output_glwe_secret_key.well_formed(),
        binary_seq(input_lwe_secret_key.data@),
        output_glwe_secret_key.polynomial_size.0 >= 1,
        output_glwe_secret_key.data@.len() >= 1,
        noise_parameters.log2_scale <= 64,
        output_glwe_secret_key.data@.len() + output_glwe_secret_key.polynomial_size.0
            <= usize::MAX,
        (decomp_level_count.0 as int) * (((output_glwe_secret_key.data@.len() as int)
            + (output_glwe_secret_key.polynomial_size.0 as int))
            / (output_glwe_secret_key.polynomial_size.0 as int)) * ((
        output_glwe_secret_key.data@.len() as int) + (
        output_glwe_secret_key.polynomial_size.0 as int)) <= usize::MAX,
    ensures
        r.well_formed(),
        r.ciphertext_modulus == ciphertext_modulus,
        r.glwe_size.0 == (output_glwe_secret_key.data@.len()
            + output_glwe_secret_key.polynomial_size.0) as int
            / output_glwe_secret_key.polynomial_size.0 as int,
        r.polynomial_size == output_glwe_secret_key.polynomial_size,
        r.decomp_base_log == decomp_base_log,
        r.decomp_level_count == decomp_level_count,
        r.spec_input_dimension() == input_lwe_secret_key.data@.len(),
{
    let n_in = input_lwe_secret_key.data.len();
    let poly_size = output_glwe_secret_key.polynomial_size;
    let n = poly_size.0;
    let key_len = output_glwe_secret_key.data.len();
    let row_len = key_len + n;
    let gs = row_len / n;
    proof {
        crate::parameters::lemma_modulus_facts(ciphertext_modulus);
        crate::numeric::lemma_working_modulus_valid(ciphertext_modulus);
        vstd::arithmetic::mul::lemma_mul_basics(ciphertext_modulus.modulus());
        lemma_pow2_native_values();
    }
    let w = ciphertext_modulus.get_working_modulus();
    let mut data: Vec<u64> = Vec::new();
    let ghost wmod = ciphertext_modulus.working_modulus();
    let ghost bw = (decomp_level_count.0 as int) * (gs as int) * (row_len as int);
    let mut i: usize = 0;
    while i < n_in
        invariant
            i <= n_in,
            bw == (decomp_level_count.0 as int) * (gs as int) * (row_len as int),
            data@.len() == i as int * bw,
            n_in == input_lwe_secret_key.data@.len(),
            binary_seq(input_lwe_secret_key.data@),
            output_glwe_secret_key.well_formed(),
            n == output_glwe_secret_key.polynomial_size.0,
            poly_size == output_glwe_secret_key.polynomial_size,
            n >= 1,
            key_len == output_glwe_secret_key.data@.len(),
            key_len >= 1,
            row_len == key_len + n,
            gs == row_len as int / n as int,
            ciphertext_modulus.well_formed(),
            ciphertext_modulus.modulus() == crate::parameters::native_modulus(),
            1 <= decomp_base_log.0,
            1 <= decomp_level_count.0,
            decomp_base_log.0 * decomp_level_count.0 < 64,
            noise_parameters.log2_scale <= 64,
            w == wmod,
            wmod == ciphertext_modulus.working_modulus(),
            wmod == 0x1_0000_0000_0000_0000,
            valid_working_modulus(wmod),
            reduced(data@, wmod),
        decreases n_in - i,
    {
        proof {
            vstd::arithmetic::mul::lemma_mul_inequality(
                1,
                decomp_base_log.0 as int,
                decomp_level_count.0 as int,
            );
            vstd::arithmetic::mul::lemma_mul_is_commutative(
                decomp_base_log.0 as int,
                decomp_level_count.0 as int,
            );
        }
        let s_bit = input_lwe_secret_key.data[i];
        let mut j: usize = 1;
        while j <= decomp_level_count.0
            invariant
                1 <= j <= decomp_level_count.0 + 1,
                decomp_level_count.0 < 64,
                bw == (decomp_level_count.0 as int) * (gs as int) * (row_len as int),
                gs == row_len as int / n as int,
                data@.len() == i as int * bw + (j - 1) as int * ((gs as int) * (row_len as int)),
                i < n_in,
                n_in == input_lwe_secret_key.data@.len(),
                binary_seq(input_lwe_secret_key.data@),
                s_bit == input_lwe_secret_key.data@[i as int],
                s_bit <= 1,
                output_glwe_secret_key.well_formed(),
                n == output_glwe_secret_key.polynomial_size.0,
                poly_size == output_glwe_secret_key.polynomial_size,
                n >= 1,
                key_len == output_glwe_secret_key.data@.len(),
                key_len >= 1,
                row_len == key_len + n,
                ciphertext_modulus.well_formed(),
                ciphertext_modulus.modulus() == crate::parameters::native_modulus(),
                1 <= decomp_base_log.0,
                1 <= decomp_level_count.0,
                decomp_base_log.0 * decomp_level_count.0 < 64,
                noise_parameters.log2_scale <= 64,
                w == wmod,
                wmod == ciphertext_modulus.working_modulus(),
                wmod == 0x1_0000_0000_0000_0000,
                valid_working_modulus(wmod),
                reduced(data@, wmod),
            decreases decomp_level_count.0 + 1 - j,
        {
            proof {
                vstd::arithmetic::mul::lemma_mul_inequality(
                    j as int,
                    decomp_level_count.0 as int,
                    decomp_base_log.0 as int,
                );
                vstd::arithmetic::mul::lemma_mul_is_commutative(j as int, decomp_base_log.0 as int);
                vstd::arithmetic::mul::lemma_mul_is_commutative(
                    decomp_level_count.0 as int,
                    decomp_base_log.0 as int,
                );
                vstd::arithmetic::mul::lemma_mul_inequality(1, j as int, decomp_base_log.0 as int);
            }
            let shift: usize = 64 - decomp_base_log.0 * j;
            let delta = crate::decomposition::pow2_u64(shift);
            let message: u64 = if s_bit == 1 {
                delta
            } else {
                0u64
            };
            let mut row_index: usize = 0;
            let gsz = row_len / n;
            while row_index < gsz
                invariant
                    row_index <= gsz,
                    gsz == row_len as int / n as int,
                    gsz == gs,
                    bw == (decomp_level_count.0 as int) * (gs as int) * (row_len as int),
                    1 <= j <= decomp_level_count.0,
                    data@.len() == i as int * bw + (j - 1) as int * ((gs as int) * (row_len as int))
                        + row_index as int * (row_len as int),
                    i < n_in,
                    n_in == input_lwe_secret_key.data@.len(),
                    binary_seq(input_lwe_secret_key.data@),
                    output_glwe_secret_key.well_formed(),
                    n == output_glwe_secret_key.polynomial_size.0,
                    poly_size == output_glwe_secret_key.polynomial_size,
                    n >= 1,
                    key_len == output_glwe_secret_key.data@.len(),
                    key_len >= 1,
                    row_len == key_len + n,
                    ciphertext_modulus.well_formed(),
                    ciphertext_modulus.modulus() == crate::parameters::native_modulus(),
                    noise_parameters.log2_scale <= 64,
                    w == wmod,
                    wmod == ciphertext_modulus.working_modulus(),
                    wmod == 0x1_0000_0000_0000_0000,
                    valid_working_modulus(wmod),
                    message < wmod,
                    reduced(data@, wmod),
                decreases gsz - row_index,
            {
                // a fresh GLWE encryption of zero
                let mut row = GlweCiphertext {
                    data: vec_of_zeros(row_len),
                    polynomial_size: poly_size,
                    ciphertext_modulus,
                };
                proof {
                    lemma_row_shape(key_len as int, n as int);
                }
                crate::glwe::encrypt_glwe_ciphertext_assign(
                    output_glwe_secret_key,
                    &mut row,
                    noise_parameters,
                    generator,
                );
                // add the message at the constant coefficient of this row's slot
                proof {
                    vstd::arithmetic::mul::lemma_mul_inequality(
                        row_index as int + 1,
                        gsz as int,
                        n as int,
                    );
                    vstd::arithmetic::mul::lemma_mul_inequality(row_index as int, gsz as int, n as int);
                    vstd::arithmetic::mul::lemma_mul_nonnegative(row_index as int, n as int);
                    vstd::arithmetic::mul::lemma_mul_is_distributive_add_other_way(
                        n as int,
                        row_index as int,
                        1,
                    );
                    lemma_gsz_times_n(row_len as int, n as int);
                    lemma_row_shape(key_len as int, n as int);
                }
                let slot = row_index * n;
                let v = add_mod(row.data[slot], message, w);
                row.data[slot] = v;
                // append the row to the flat key
                let ghost len_before = data@.len() as int;
                let mut t: usize = 0;
                let rl = row.data.len();
                while t < rl
                    invariant
                        t <= rl,
                        rl == row.data@.len(),
                        row.data@.len() == row_len,
                        data@.len() == len_before + t,
                        reduced(row.data@, wmod),
                        valid_working_modulus(wmod),
                        reduced(data@, wmod),
                    decreases rl - t,
                {
                    let x = row.data[t];
                    data.push(x);
                    t = t + 1;
                }
                proof {
                    vstd::arithmetic::mul::lemma_mul_is_distributive_add_other_way(
                        row_len as int,
                        row_index as int,
                        1,
                    );
                }
                row_index = row_index + 1;
            }
            proof {
                vstd::arithmetic::mul::lemma_mul_is_distributive_add_other_way(
                    (gs as int) * (row_len as int),
                    (j - 1) as int,
                    1,
                );
            }
            j = j + 1;
        }
        proof {
            vstd::arithmetic::mul::lemma_mul_is_distributive_add_other_way(bw, i as int, 1);
            vstd::arithmetic::mul::lemma_mul_is_associative(
                decomp_level_count.0 as int,
                gs as int,
                row_len as int,
            );
        }
        i = i + 1;
    }
    proof {
        lemma_row_shape(key_len as int, n as int);
        lemma_gsz_times_n(row_len as int, n as int);
        vstd::arithmetic::mul::lemma_mul_nonnegative(
            decomp_level_count.0 as int,
            (row_len as int) / (n as int),
        );
        vstd::arithmetic::mul::lemma_mul_inequality(
            1,
            row_len as int,
            (decomp_level_count.0 as int) * ((row_len as int) / (n as int)),
        );
        vstd::arithmetic::mul::lemma_mul_basics(
            (decomp_level_count.0 as int) * ((row_len as int) / (n as int)),
        );
        vstd::arithmetic::mul::lemma_mul_is_commutative(
            row_len as int,
            (decomp_level_count.0 as int) * ((row_len as int) / (n as int)),
        );
        assert((row_len as int) / (n as int) >= 1) by {
            vstd::arithmetic::div_mod::lemma_div_non_zero(row_len as int, n as int);
        }
        vstd::arithmetic::mul::lemma_mul_inequality(
            1,
            (row_len as int) / (n as int),
            decomp_level_count.0 as int,
        );
        vstd::arithmetic::mul::lemma_mul_basics(decomp_level_count.0 as int);
    }
    let bit_len = decomp_level_count.0 * (row_len / n) * row_len;
    proof {
        // the construction produced exactly one level matrix per key bit
        assert(data@.len() as int == n_in as int * bw);
        assert(bw == bit_len as int) by {
            vstd::arithmetic::mul::lemma_mul_is_associative(
                decomp_level_count.0 as int,
                gs as int,
                row_len as int,
            );
        }
        vstd::arithmetic::mul::lemma_mul_strictly_positive(
            decomp_level_count.0 as int * gs as int,
            row_len as int,
        );
        vstd::arithmetic::mul::lemma_mul_strictly_positive(decomp_level_count.0 as int, gs as int);
        vstd::arithmetic::mul::lemma_mul_is_commutative(n_in as int, bw);
        vstd::arithmetic::div_mod::lemma_div_multiples_vanish(n_in as int, bw);
    }
    pad_to_multiple(&mut data, bit_len, w);
    let result = LweBootstrapKey {
        data,
        glwe_size: GlweSize(row_len / n),
        polynomial_size: poly_size,
        decomp_base_log,
        decomp_level_count,
        ciphertext_modulus,
    };
    proof {
        crate::parameters::lemma_modulus_facts(ciphertext_modulus);
        // the level matrix shape and parameter facts that well-formedness asks
        assert(result.glwe_size.0 >= 2) by {
            assert(key_len >= n) by {
                if key_len < n {
                    vstd::arithmetic::div_mod::lemma_small_mod(key_len as nat, n as nat);
                }
            }
            assert(row_len >= 2 * n);
            vstd::arithmetic::div_mod::lemma_div_is_ordered(2 * n as int, row_len as int, n as int);
            assert((2 * (n as int)) / (n as int) == 2) by {
                vstd::arithmetic::div_mod::lemma_fundamental_div_mod_converse(
                    2 * (n as int),
                    n as int,
                    2,
                    0,
                );
            }
        }
        assert(crate::decomposition::bpow(decomp_base_log.0 as nat, decomp_level_count.0 as nat)
            <= ciphertext_modulus.modulus()) by {
            vstd::arithmetic::power2::lemma_pow2_strictly_increases(
                (decomp_base_log.0 * decomp_level_count.0) as nat,
                64,
            );
            lemma_pow2_native_values();
        }
        assert(result.spec_bit_len() >= 1) by {
            vstd::arithmetic::mul::lemma_mul_strictly_positive(
                result.glwe_size.0 as int,
                result.polynomial_size.0 as int,
            );
            vstd::arithmetic::mul::lemma_mul_strictly_positive(
                result.decomp_level_count.0 as int,
                result.glwe_size.0 as int,
            );
            vstd::arithmetic::mul::lemma_mul_strictly_positive(
                result.decomp_level_count.0 as int * result.glwe_size.0 as int,
                result.spec_row_len(),
            );
            vstd::arithmetic::mul::lemma_mul_is_associative(
                result.decomp_level_count.0 as int,
                result.glwe_size.0 as int,
                result.spec_row_len(),
            );
        }
        assert(result.spec_input_dimension() == n_in as int) by {
            assert(result.data@.len() as int == n_in as int * (bit_len as int));
            vstd::arithmetic::mul::lemma_mul_is_commutative(n_in as int, bit_len as int);
            vstd::arithmetic::div_mod::lemma_div_multiples_vanish(n_in as int, bit_len as int);
            assert(bit_len as int == result.spec_bit_len()) by {
                lemma_gsz_times_n(row_len as int, n as int);
                vstd::arithmetic::mul::lemma_mul_is_associative(
                    result.decomp_level_count.0 as int,
                    result.glwe_size.0 as int,
                    result.spec_row_len(),
                );
                assert(result.spec_row_len() == row_len as int) by {
                    vstd::arithmetic::mul::lemma_mul_is_commutative(
                        result.glwe_size.0 as int,
                        result.polynomial_size.0 as int,
                    );
                }
            }
        }
        assert(result.data@.len() as int % result.spec_bit_len() == 0) by {
            assert(bit_len as int == result.spec_bit_len()) by {
                lemma_gsz_times_n(row_len as int, n as int);
                vstd::arithmetic::mul::lemma_mul_is_associative(
                    result.decomp_level_count.0 as int,
                    result.glwe_size.0 as int,
                    result.spec_row_len(),
                );
                assert(result.spec_row_len() == row_len as int) by {
                    vstd::arithmetic::mul::lemma_mul_is_commutative(
                        result.glwe_size.0 as int,
                        result.polynomial_size.0 as int,
                    );
                }
            }
        }
    }
    result
}

/// Truncate the vector down to the largest multiple of `unit` (generation
/// always produces whole level matrices, so nothing is lost).
fn pad_to_multiple(data: &mut Vec<u64>, unit: usize, w: u128)
    requires
        valid_working_modulus(w as int),
        reduced(old(data)@, w as int),
    ensures
        reduced(final(data)@, w as int),
        unit >= 1 ==> final(data)@.len() as int % (unit as int) == 0,
        unit >= 1 ==> final(data)@.len() as int == (old(data)@.len() as int / unit as int) * (
        unit as int),
{
    if unit == 0 {
        return ;
    }
    let dl: usize = data.len();
    proof {
        vstd::arithmetic::div_mod::lemma_fundamental_div_mod(dl as int, unit as int);
        vstd::arithmetic::mul::lemma_mul_is_commutative((dl as int / unit as int), unit as int);
        vstd::arithmetic::div_mod::lemma_mod_bound(dl as int, unit as int);
        vstd::arithmetic::div_mod::lemma_div_pos_is_pos(dl as int, unit as int);
        vstd::arithmetic::mul::lemma_mul_nonnegative((dl as int / unit as int), unit as int);
    }
    let keep = (dl / unit) * unit;
    while data.len() > keep
        invariant
            keep <= data@.len(),
            valid_working_modulus(w as int),
            reduced(data@, w as int),
            keep == (old(data)@.len() as int / unit as int) * (unit as int),
        decreases data@.len() - keep,
    {
        data.pop();
    }
    proof {
        vstd::arithmetic::div_mod::lemma_mod_multiples_basic(
            (old(data)@.len() as int / unit as int),
            unit as int,
        );
        vstd::arithmetic::mul::lemma_mul_is_commutative(
            (old(data)@.len() as int / unit as int),
            unit as int,
        );
    }
}

/// The base-two logarithm of a power-of-two size.
pub fn log2_exact(n: usize) -> (r: usize)
    requires
        n >= 1,
        is_power_of_two(n as int),
    ensures
        r <= 62,
        vstd::arithmetic::power2::pow2(r as nat) == n,
{
    let mut e: usize = 0;
    let mut m: usize = 1;
    proof {
        vstd::arithmetic::power2::lemma2_to64();
    }
    while m < n
        invariant
            m == vstd::arithmetic::power2::pow2(e as nat),
            e <= 62,
            n >= 1,
            is_power_of_two(n as int),
            m <= n,
        decreases n - m,
    {
        proof {
            let m0 = choose|m0: nat|
                m0 <= 62 && n as int == #[trigger] vstd::arithmetic::power2::pow2(m0);
            if e as nat >= m0 {
                if e as nat > m0 {
                    vstd::arithmetic::power2::lemma_pow2_strictly_increases(m0, e as nat);
                }
                assert(false);
            }
            vstd::arithmetic::power2::lemma_pow2_adds(e as nat, 1);
            vstd::arithmetic::power2::lemma2_to64();
            let en: nat = (e + 1) as nat;
            if en < m0 {
                vstd::arithmetic::power2::lemma_pow2_strictly_increases(en, m0);
            } else if en > m0 {
                vstd::arithmetic::power2::lemma_pow2_strictly_increases(m0, en);
            }
            vstd::arithmetic::power2::lemma_pow2_pos(e as nat);
        }
        m = m * 2;
        e = e + 1;
    }
    e
}

/// Switch a native-torus word to the rotation group of order 2N: the nearest
/// multiple of 2^64/(2N), as an index below 2N. The result is the word,
/// rounded at 2^(63-log2n) by adding half that step, taken modulo 2N.
pub fn modulus_switch(x: u64, log2n: usize) -> (r: usize)
    requires
        log2n <= 32,
        2 * vstd::arithmetic::power2::pow2(log2n as nat) <= usize::MAX,
    ensures
        r < 2 * vstd::arithmetic::power2::pow2(log2n as nat),
        r as int == ((x as int + vstd::arithmetic::power2::pow2((62 - log2n) as nat))
            / vstd::arithmetic::power2::pow2((63 - log2n) as nat) as int) % (2
            * vstd::arithmetic::power2::pow2(log2n as nat) as int),
{
    let shift: usize = 64 - (log2n + 1);
    let p = crate::decomposition::pow2_u64(shift);
    let two_n_wide: u128 = crate::random::pow2_u128(log2n + 1);
    let rounded: u128 = ((x as u128) + ((p / 2) as u128)) / (p as u128);
    proof {
        vstd::arithmetic::power2::lemma_pow2_pos(shift as nat);
        vstd::arithmetic::power2::lemma_pow2_pos((log2n + 1) as nat);
        vstd::arithmetic::div_mod::lemma_mod_bound(rounded as int, two_n_wide as int);
        vstd::arithmetic::power2::lemma_pow2_adds(1, log2n as nat);
        vstd::arithmetic::power2::lemma2_to64();
        vstd::arithmetic::power2::lemma_pow2_strictly_increases((log2n + 1) as nat, 64);
        vstd::arithmetic::power2::lemma_pow2_adds(32, 32);
        vstd::arithmetic::power2::lemma2_to64_rest();
        vstd::arithmetic::power2::lemma_pow2_adds((62 - log2n) as nat, 1);
        vstd::arithmetic::power2::lemma_pow2_pos((62 - log2n) as nat);
        assert(p as int / 2 == vstd::arithmetic::power2::pow2((62 - log2n) as nat));
    }
    ((rounded % two_n_wide) as usize)
}

/// The size-n polynomial of level-v native decomposition digits of source
/// polynomial p of a GLWE ciphertext.
pub open spec fn ext_digit_poly(ct: Seq<u64>, p: int, n: nat, b: nat, l: nat, v: nat) -> Seq<u64> {
    Seq::new(
        n,
        |t: int| (crate::lwe_keyswitch::ks_digit(ct[p * n as int + t], b, l, v) as u64),
    )
}

/// The running value of external-product accumulator element y after the
/// first `steps` digit-polynomial additions, each reduced as it lands: step t
/// adds coefficient y%n of the negacyclic product of the level t%l + 1 digit
/// polynomial of source polynomial t/l with output polynomial y/n of the
/// level matrix row (bit, t%l, t/l).
pub open spec fn ext_prod_acc(
    start: int,
    ct: Seq<u64>,
    bsk_data: Seq<u64>,
    bit: int,
    b: nat,
    l: nat,
    n: nat,
    gs: int,
    row_len: int,
    y: int,
    steps: nat,
    w: int,
) -> int
    decreases steps,
{
    if steps == 0 {
        start
    } else {
        let t = (steps - 1) as int;
        let p = t / (l as int);
        let j = t % (l as int);
        (ext_prod_acc(start, ct, bsk_data, bit, b, l, n, gs, row_len, y, (steps - 1) as nat, w)
            + crate::polynomial::poly_mul_coeff(
            ext_digit_poly(ct, p, n, b, l, (j + 1) as nat),
            0,
            bsk_data,
            ((bit * (l as int) + j) * gs + p) * row_len + (y / n as int) * (n as int),
            n,
            y % (n as int),
            w,
        )) % w
    }
}

/// Add the external product of a GLWE ciphertext (at ct[0..gs·N)) with the
/// level matrix of key bit `bit` into the accumulator range of out.
pub fn external_product_add_assign(
    out: &mut Vec<u64>,
    out_off: usize,
    ct: &Vec<u64>,
    bsk: &LweBootstrapKey,
    bit: usize,
    w: u128,
)
    requires
        bsk.well_formed(),
        bsk.ciphertext_modulus.modulus() == crate::parameters::native_modulus(),
        w == bsk.ciphertext_modulus.working_modulus(),
        w == 0x1_0000_0000_0000_0000u128,
        bit < bsk.spec_input_dimension(),
        ct@.len() == bsk.spec_row_len(),
        out_off + bsk.spec_row_len() <= old(out)@.len(),
    ensures
        final(out)@.len() == old(out)@.len(),
        forall|x: int|
            0 <= x < old(out)@.len() && !(out_off <= x < out_off + bsk.spec_row_len())
                ==> final(out)@[x] == old(out)@[x],
        // element y of the range: every digit polynomial of every source
        // polynomial folded against the level matrix, on top of the old value
        forall|y: int|
            0 <= y < bsk.spec_row_len() ==> #[trigger] final(out)@[out_off + y] as int
                == ext_prod_acc(
                old(out)@[out_off + y] as int,
                ct@,
                bsk.data@,
                bit as int,
                bsk.decomp_base_log.0 as nat,
                bsk.decomp_level_count.0 as nat,
                bsk.polynomial_size.0 as nat,
                bsk.glwe_size.0 as int,
                bsk.spec_row_len(),
                y,
                (bsk.glwe_size.0 * bsk.decomp_level_count.0) as nat,
                w as int,
            ),
{
    let n = bsk.polynomial_size.0;
    let gs = bsk.glwe_size.0;
    let level_count = bsk.decomp_level_count.0;
    let base_log = bsk.decomp_base_log.0;
    let olen = out.len();
    let blen = bsk.data.len();
    proof {
        lemma_bsk_index_facts(*bsk, bit as int);
        crate::lwe_keyswitch::lemma_native_bl_bound(
            base_log as nat,
            level_count as nat,
            bsk.ciphertext_modulus,
        );
    }
    proof {
        vstd::arithmetic::mul::lemma_mul_inequality(1, gs as int, n as int);
        vstd::arithmetic::mul::lemma_mul_is_commutative(gs as int, n as int);
    }
    let row_len = gs * n;
    let decomposer = crate::decomposition::SignedDecomposer::new(
        crate::parameters::DecompositionBaseLog(base_log),
        crate::parameters::DecompositionLevelCount(level_count),
    );
    // digits for one source polynomial: level v sits at (v-1)·N
    let mut p: usize = 0;
    while p < gs
        invariant
            p <= gs,
            n >= 1,
            gs >= 2,
            level_count >= 1,
            row_len == gs * n,
            row_len == bsk.spec_row_len(),
            olen == out@.len(),
            out@.len() == old(out)@.len(),
            blen == bsk.data@.len(),
            out_off + row_len <= olen,
            ct@.len() == row_len,
            level_count == bsk.decomp_level_count.0,
            level_count < 64,
            row_len >= 1,
            gs == bsk.glwe_size.0,
            n == bsk.polynomial_size.0,
            bit < bsk.spec_input_dimension(),
            decomposer.well_formed(),
            decomposer.base_log_spec() == base_log as nat,
            decomposer.level_count_spec() == level_count as nat,
            (bit + 1) * bsk.spec_bit_len() <= blen,
            level_count * n <= usize::MAX,
            bsk.spec_bit_len() == level_count * gs * row_len,
            base_log == bsk.decomp_base_log.0,
            valid_working_modulus(w as int),
            w == 0x1_0000_0000_0000_0000u128,
            forall|x: int|
                0 <= x < olen && !(out_off <= x < out_off + row_len) ==> out@[x] == old(out)@[x],
            forall|y: int|
                0 <= y < row_len ==> #[trigger] out@[out_off + y] as int == ext_prod_acc(
                    old(out)@[out_off + y] as int,
                    ct@,
                    bsk.data@,
                    bit as int,
                    base_log as nat,
                    level_count as nat,
                    n as nat,
                    gs as int,
                    row_len as int,
                    y,
                    (p * level_count) as nat,
                    w as int,
                ),
        decreases gs - p,
    {
        proof {
            vstd::arithmetic::mul::lemma_mul_inequality(p as int + 1, gs as int, n as int);
            vstd::arithmetic::mul::lemma_mul_inequality(p as int, gs as int, n as int);
            vstd::arithmetic::mul::lemma_mul_nonnegative(p as int, n as int);
            vstd::arithmetic::mul::lemma_mul_is_distributive_add_other_way(n as int, p as int, 1);
        }
        let mut digits = vec_of_zeros(level_count * n);
        let digits_len: usize = digits.len();
        let mut idx: usize = 0;
        while idx < n
            invariant
                idx <= n,
                p < gs,
                n >= 1,
                level_count >= 1,
                level_count * n <= usize::MAX,
                ct@.len() == row_len,
                row_len == gs * n,
                p * n + n <= row_len,
                digits@.len() == level_count * n,
                digits@.len() == digits_len,
                decomposer.well_formed(),
                decomposer.base_log_spec() == base_log as nat,
                decomposer.level_count_spec() == level_count as nat,
                forall|u: int|
                    0 <= u < digits_len && u % (n as int) < idx ==> #[trigger] digits@[u] as int
                        == crate::lwe_keyswitch::ks_digit(
                        ct@[p * n + u % (n as int)],
                        base_log as nat,
                        level_count as nat,
                        (u / (n as int) + 1) as nat,
                    ),
            decreases n - idx,
        {
            let mut it = decomposer.decompose(ct[p * n + idx]);
            let mut v: usize = level_count;
            while v > 0
                invariant
                    v <= level_count,
                    idx < n,
                    p < gs,
                    n >= 1,
                    level_count >= 1,
                    level_count * n <= usize::MAX,
                    ct@.len() == row_len,
                    row_len == gs * n,
                    p * n + n <= row_len,
                    digits@.len() == level_count * n,
                    digits@.len() == digits_len,
                    it.well_formed(),
                    it.base_log_spec() == base_log as nat,
                    it.level_count_spec() == level_count as nat,
                    it.current_level_spec() == v,
                    it.state_spec() as int == crate::decomposition::state_after(
                        crate::decomposition::round_div(
                            ct@[p * n + idx] as int,
                            vstd::arithmetic::power2::pow2(
                                (64 - (base_log as nat) * (level_count as nat)) as nat,
                            ) as int,
                        ) % crate::decomposition::bpow(base_log as nat, level_count as nat),
                        base_log as nat,
                        (level_count - v) as nat,
                    ),
                    forall|u: int|
                        0 <= u < digits_len && u % (n as int) < idx ==> #[trigger] digits@[u] as int
                            == crate::lwe_keyswitch::ks_digit(
                            ct@[p * n + u % (n as int)],
                            base_log as nat,
                            level_count as nat,
                            (u / (n as int) + 1) as nat,
                        ),
                    forall|u: int|
                        0 <= u < digits_len && u % (n as int) == idx && v <= u / (n as int)
                            < level_count ==> #[trigger] digits@[u] as int
                            == crate::lwe_keyswitch::ks_digit(
                            ct@[p * n + idx],
                            base_log as nat,
                            level_count as nat,
                            (u / (n as int) + 1) as nat,
                        ),
                decreases v,
            {
                let term_opt = it.next();
                let term = term_opt.unwrap();
                proof {
                    vstd::arithmetic::mul::lemma_mul_inequality(
                        v as int,
                        level_count as int,
                        n as int,
                    );
                    vstd::arithmetic::mul::lemma_mul_inequality(v as int - 1, level_count as int, n as int);
                    vstd::arithmetic::mul::lemma_mul_nonnegative(v as int - 1, n as int);
                    vstd::arithmetic::mul::lemma_mul_is_distributive_add_other_way(
                        n as int,
                        v as int - 1,
                        1,
                    );
                }
                let val = term.value();
                digits[(v - 1) * n + idx] = val;
                proof {
                    vstd::arithmetic::div_mod::lemma_fundamental_div_mod_converse(
                        (v - 1) as int * n as int + idx as int,
                        n as int,
                        (v - 1) as int,
                        idx as int,
                    );
                    assert forall|u: int|
                        0 <= u < digits_len && u % (n as int) == idx && (v - 1) <= u / (n as int)
                            < level_count implies #[trigger] digits@[u] as int
                        == crate::lwe_keyswitch::ks_digit(
                        ct@[p * n + idx],
                        base_log as nat,
                        level_count as nat,
                        (u / (n as int) + 1) as nat,
                    ) by {
                        vstd::arithmetic::div_mod::lemma_fundamental_div_mod(u, n as int);
                        vstd::arithmetic::mul::lemma_mul_is_commutative(u / (n as int), n as int);
                    }
                    crate::decomposition::lemma_state_after_unfold(
                        crate::decomposition::round_div(
                            ct@[p * n + idx] as int,
                            vstd::arithmetic::power2::pow2(
                                (64 - (base_log as nat) * (level_count as nat)) as nat,
                            ) as int,
                        ) % crate::decomposition::bpow(base_log as nat, level_count as nat),
                        base_log as nat,
                        (level_count - v) as nat,
                    );
                }
                v = v - 1;
            }
            proof {
                assert forall|u: int|
                    0 <= u < digits_len && u % (n as int) < idx + 1 implies #[trigger] digits@[u] as int
                    == crate::lwe_keyswitch::ks_digit(
                    ct@[p * n + u % (n as int)],
                    base_log as nat,
                    level_count as nat,
                    (u / (n as int) + 1) as nat,
                ) by {
                    vstd::arithmetic::div_mod::lemma_fundamental_div_mod(u, n as int);
                    vstd::arithmetic::div_mod::lemma_mod_bound(u, n as int);
                    if u / (n as int) >= level_count {
                        vstd::arithmetic::mul::lemma_mul_inequality(
                            level_count as int,
                            u / (n as int),
                            n as int,
                        );
                        vstd::arithmetic::mul::lemma_mul_is_commutative(u / (n as int), n as int);
                    }
                    if u / (n as int) < 0 {
                        vstd::arithmetic::div_mod::lemma_div_pos_is_pos(u, n as int);
                    }
                }
            }
            idx = idx + 1;
        }
        // accumulate digit poly of level j against row (j, p)
        let mut j: usize = 1;
        while j <= level_count
            invariant
                1 <= j <= level_count + 1,
                p < gs,
                n >= 1,
                gs >= 2,
                level_count >= 1,
                level_count < 64,
                row_len == gs * n,
                olen == out@.len(),
                out@.len() == old(out)@.len(),
                blen == bsk.data@.len(),
                out_off + row_len <= olen,
                digits@.len() == level_count * n,
                digits@.len() == digits_len,
                level_count == bsk.decomp_level_count.0,
                row_len >= 1,
                gs == bsk.glwe_size.0,
                n == bsk.polynomial_size.0,
                bit < bsk.spec_input_dimension(),
                (bit + 1) * bsk.spec_bit_len() <= blen,
                bsk.spec_bit_len() == level_count * gs * row_len,
                row_len == bsk.spec_row_len(),
                base_log == bsk.decomp_base_log.0,
                ct@.len() == row_len,
                p * n + n <= row_len,
                valid_working_modulus(w as int),
                w == 0x1_0000_0000_0000_0000u128,
                forall|x: int|
                    0 <= x < olen && !(out_off <= x < out_off + row_len) ==> out@[x] == old(
                        out,
                    )@[x],
                forall|u: int|
                    0 <= u < digits_len && u % (n as int) < n ==> #[trigger] digits@[u] as int
                        == crate::lwe_keyswitch::ks_digit(
                        ct@[p * n + u % (n as int)],
                        base_log as nat,
                        level_count as nat,
                        (u / (n as int) + 1) as nat,
                    ),
                forall|y: int|
                    0 <= y < row_len ==> #[trigger] out@[out_off + y] as int == ext_prod_acc(
                        old(out)@[out_off + y] as int,
                        ct@,
                        bsk.data@,
                        bit as int,
                        base_log as nat,
                        level_count as nat,
                        n as nat,
                        gs as int,
                        row_len as int,
                        y,
                        (p * level_count + (j - 1)) as nat,
                        w as int,
                    ),
            decreases level_count + 1 - j,
        {
            proof {
                lemma_row_offset_in_range(
                    bit as int,
                    j as int,
                    p as int,
                    level_count as int,
                    gs as int,
                    row_len as int,
                    blen as int,
                    bsk.spec_input_dimension(),
                );
                vstd::arithmetic::mul::lemma_mul_inequality(j as int, level_count as int, n as int);
                vstd::arithmetic::mul::lemma_mul_inequality(j as int - 1, level_count as int, n as int);
                vstd::arithmetic::mul::lemma_mul_nonnegative(j as int - 1, n as int);
                vstd::arithmetic::mul::lemma_mul_is_distributive_add_other_way(
                    n as int,
                    j as int - 1,
                    1,
                );
            }
            let row_base = ((bit * level_count + (j - 1)) * gs + p) * row_len;
            let mut rp: usize = 0;
            while rp < gs
                invariant
                    rp <= gs,
                    1 <= j <= level_count,
                    p < gs,
                    n >= 1,
                    gs >= 2,
                    level_count >= 1,
                    row_len == gs * n,
                    olen == out@.len(),
                    out@.len() == old(out)@.len(),
                    blen == bsk.data@.len(),
                    out_off + row_len <= olen,
                    digits@.len() == level_count * n,
                    digits@.len() == digits_len,
                    (j - 1) * n + n <= digits@.len(),
                    row_base == ((bit * level_count + (j - 1)) * gs + p) * row_len,
                    row_base + row_len <= blen,
                    base_log == bsk.decomp_base_log.0,
                    ct@.len() == row_len,
                    p * n + n <= row_len,
                    valid_working_modulus(w as int),
                    w == 0x1_0000_0000_0000_0000u128,
                    forall|x: int|
                        0 <= x < olen && !(out_off <= x < out_off + row_len) ==> out@[x] == old(
                            out,
                        )@[x],
                    forall|u: int|
                        0 <= u < digits_len && u % (n as int) < n ==> #[trigger] digits@[u] as int
                            == crate::lwe_keyswitch::ks_digit(
                            ct@[p * n + u % (n as int)],
                            base_log as nat,
                            level_count as nat,
                            (u / (n as int) + 1) as nat,
                        ),
                    forall|y: int|
                        0 <= y < rp * n ==> #[trigger] out@[out_off + y] as int == ext_prod_acc(
                            old(out)@[out_off + y] as int,
                            ct@,
                            bsk.data@,
                            bit as int,
                            base_log as nat,
                            level_count as nat,
                            n as nat,
                            gs as int,
                            row_len as int,
                            y,
                            (p * level_count + j) as nat,
                            w as int,
                        ),
                    forall|y: int|
                        rp * n <= y < row_len ==> #[trigger] out@[out_off + y] as int
                            == ext_prod_acc(
                            old(out)@[out_off + y] as int,
                            ct@,
                            bsk.data@,
                            bit as int,
                            base_log as nat,
                            level_count as nat,
                            n as nat,
                            gs as int,
                            row_len as int,
                            y,
                            (p * level_count + (j - 1)) as nat,
                            w as int,
                        ),
                decreases gs - rp,
            {
                proof {
                    vstd::arithmetic::mul::lemma_mul_inequality(rp as int + 1, gs as int, n as int);
                    vstd::arithmetic::mul::lemma_mul_inequality(rp as int, gs as int, n as int);
                    vstd::arithmetic::mul::lemma_mul_nonnegative(rp as int, n as int);
                    vstd::arithmetic::mul::lemma_mul_is_distributive_add_other_way(
                        n as int,
                        rp as int,
                        1,
                    );
                    lemma_all_words_reduced(digits@, w as int);
                    lemma_all_words_reduced(bsk.data@, w as int);
                    lemma_all_words_reduced(out@, w as int);
                }
                proof {
                    assert(rp * n + n <= row_len);
                    assert(row_base + row_len <= blen);
                }
                let prod = poly_product(&digits, (j - 1) * n, &bsk.data, row_base + rp * n, n, w);
                let ghost before_add = out@;
                poly_add_assign(out, out_off + rp * n, &prod, 0, n, w);
                proof {
                    vstd::arithmetic::div_mod::lemma_fundamental_div_mod_converse(
                        p as int * level_count as int + (j - 1) as int,
                        level_count as int,
                        p as int,
                        (j - 1) as int,
                    );
                    assert forall|y: int|
                        rp * n <= y < rp * n + n implies #[trigger] out@[out_off + y] as int
                        == ext_prod_acc(
                        old(out)@[out_off + y] as int,
                        ct@,
                        bsk.data@,
                        bit as int,
                        base_log as nat,
                        level_count as nat,
                        n as nat,
                        gs as int,
                        row_len as int,
                        y,
                        (p * level_count + j) as nat,
                        w as int,
                    ) by {
                        let k = y - rp * n as int;
                        vstd::arithmetic::div_mod::lemma_fundamental_div_mod_converse(
                            y,
                            n as int,
                            rp as int,
                            k,
                        );
                        assert(out@[out_off + rp * n + k] as int == (before_add[out_off + rp * n
                            + k] + prod@[k]) % (w as int));
                        assert(out_off + y == out_off + rp * n + k);
                        let dpoly = ext_digit_poly(
                            ct@,
                            p as int,
                            n as nat,
                            base_log as nat,
                            level_count as nat,
                            j as nat,
                        );
                        assert forall|t: int| 0 <= t < n implies #[trigger] digits@[(j - 1) as int
                            * n as int + t] == dpoly[0 + t] by {
                            vstd::arithmetic::div_mod::lemma_fundamental_div_mod_converse(
                                (j - 1) as int * n as int + t,
                                n as int,
                                (j - 1) as int,
                                t,
                            );
                            assert(digits@[(j - 1) as int * n as int + t] as int
                                == crate::lwe_keyswitch::ks_digit(
                                ct@[p * n + t],
                                base_log as nat,
                                level_count as nat,
                                j as nat,
                            ));
                        }
                        crate::polynomial::lemma_poly_mul_coeff_window(
                            digits@,
                            (j - 1) as int * n as int,
                            dpoly,
                            0,
                            bsk.data@,
                            row_base as int + rp as int * n as int,
                            n as nat,
                            k,
                            w as int,
                        );
                    }
                }
                rp = rp + 1;
            }
            j = j + 1;
        }
        proof {
            vstd::arithmetic::mul::lemma_mul_is_distributive_add_other_way(
                level_count as int,
                p as int,
                1,
            );
            vstd::arithmetic::mul::lemma_mul_basics(level_count as int);
        }
        p = p + 1;
    }
    proof {
        vstd::arithmetic::mul::lemma_mul_is_commutative(gs as int, level_count as int);
    }
}

/// Output mask word t of a sample extraction: within its polynomial, the
/// constant coefficient is taken straight, and coefficient x > 0 is the
/// source polynomial's coefficient n - x, negated.
pub open spec fn extracted_mask_word(acc: Seq<u64>, acc_off: int, n: nat, t: int, w: int) -> int {
    if t % n as int == 0 {
        acc[acc_off + t] as int
    } else {
        (0 - acc[acc_off + (t / n as int) * n as int + (n - t % n as int)]) % w
    }
}

/// Extract the constant coefficient of a GLWE ciphertext range as an LWE
/// ciphertext under the flattened GLWE key: mask polynomial j contributes its
/// constant coefficient straight and its higher coefficients reversed and
/// negated; the body is the accumulator body's constant coefficient.
pub fn extract_lwe_sample_from_glwe(
    acc: &Vec<u64>,
    acc_off: usize,
    gs: usize,
    n: usize,
    output: &mut LweCiphertext,
    w: u128,
)
    requires
        valid_working_modulus(w as int),
        w == 0x1_0000_0000_0000_0000u128,
        gs >= 2,
        n >= 1,
        acc_off + gs * n <= acc@.len(),
        old(output).data@.len() == (gs - 1) * n + 1,
        old(output).well_formed(),
        old(output).ciphertext_modulus.working_modulus() == w,
    ensures
        final(output).data@.len() == old(output).data@.len(),
        final(output).ciphertext_modulus == old(output).ciphertext_modulus,
        final(output).well_formed(),
        forall|t: int|
            0 <= t < (gs - 1) * n ==> #[trigger] final(output).data@[t] as int
                == extracted_mask_word(acc@, acc_off as int, n as nat, t, w as int),
        final(output).data@[(gs - 1) * n] == acc@[acc_off + (gs - 1) * n],
{
    let alen = acc.len();
    let olen = output.data.len();
    proof {
        vstd::arithmetic::mul::lemma_mul_inequality(gs as int - 1, gs as int, n as int);
        vstd::arithmetic::mul::lemma_mul_nonnegative(gs as int - 1, n as int);
        vstd::arithmetic::mul::lemma_mul_is_distributive_sub_other_way(n as int, gs as int, 1);
    }
    let mask_polys = gs - 1;
    let mut j: usize = 0;
    while j < mask_polys
        invariant
            j <= mask_polys,
            mask_polys == gs - 1,
            gs >= 2,
            n >= 1,
            alen == acc@.len(),
            olen == output.data@.len(),
            olen == mask_polys * n + 1,
            acc_off + gs * n <= alen,
            mask_polys * n + n <= gs * n,
            valid_working_modulus(w as int),
            w == 0x1_0000_0000_0000_0000u128,
            output.ciphertext_modulus == old(output).ciphertext_modulus,
            output.ciphertext_modulus.working_modulus() == w as int,
            forall|t: int|
                0 <= t < j * n ==> #[trigger] output.data@[t] as int == extracted_mask_word(
                    acc@,
                    acc_off as int,
                    n as nat,
                    t,
                    w as int,
                ),
        decreases mask_polys - j,
    {
        proof {
            vstd::arithmetic::mul::lemma_mul_inequality(j as int + 1, mask_polys as int, n as int);
            vstd::arithmetic::mul::lemma_mul_inequality(j as int, mask_polys as int, n as int);
            vstd::arithmetic::mul::lemma_mul_nonnegative(j as int, n as int);
            vstd::arithmetic::mul::lemma_mul_is_distributive_add_other_way(n as int, j as int, 1);
            vstd::arithmetic::mul::lemma_mul_inequality(mask_polys as int, gs as int, n as int);
        }
        let v0 = acc[acc_off + j * n];
        output.data[j * n] = v0;
        proof {
            vstd::arithmetic::div_mod::lemma_mod_multiples_basic(j as int, n as int);
            vstd::arithmetic::mul::lemma_mul_is_commutative(j as int, n as int);
        }
        let mut idx: usize = 1;
        while idx < n
            invariant
                1 <= idx <= n,
                j < mask_polys,
                mask_polys == gs - 1,
                n >= 1,
                alen == acc@.len(),
                olen == output.data@.len(),
                olen == mask_polys * n + 1,
                acc_off + gs * n <= alen,
                j * n + n <= mask_polys * n,
                mask_polys * n + n <= gs * n,
                valid_working_modulus(w as int),
                w == 0x1_0000_0000_0000_0000u128,
                output.ciphertext_modulus == old(output).ciphertext_modulus,
                output.ciphertext_modulus.working_modulus() == w as int,
                forall|t: int|
                    0 <= t < j * n ==> #[trigger] output.data@[t] as int == extracted_mask_word(
                        acc@,
                        acc_off as int,
                        n as nat,
                        t,
                        w as int,
                    ),
                forall|t: int|
                    j * n <= t < j * n + idx ==> #[trigger] output.data@[t] as int
                        == extracted_mask_word(acc@, acc_off as int, n as nat, t, w as int),
            decreases n - idx,
        {
            let src = acc[acc_off + j * n + (n - idx)];
            let v = crate::numeric::neg_mod(src, w);
            output.data[j * n + idx] = v;
            proof {
                vstd::arithmetic::div_mod::lemma_fundamental_div_mod_converse(
                    j as int * n as int + idx as int,
                    n as int,
                    j as int,
                    idx as int,
                );
            }
            idx = idx + 1;
        }
        j = j + 1;
    }
    proof {
        vstd::arithmetic::mul::lemma_mul_inequality(mask_polys as int, gs as int, n as int);
        vstd::arithmetic::mul::lemma_mul_nonnegative(mask_polys as int, n as int);
    }
    let body = acc[acc_off + mask_polys * n];
    output.data[mask_polys * n] = body;
    proof {
        lemma_all_words_reduced(output.data@, w as int);
    }
}

/// The rotation-group index a torus word switches to: the word rounded at
/// half the group step, modulo 2N.
pub open spec fn pbs_switched(x: u64, log2n: nat) -> int {
    ((x as int + vstd::arithmetic::power2::pow2((62 - log2n) as nat)) / vstd::arithmetic::power2::pow2(
        (63 - log2n) as nat,
    ) as int) % (2 * vstd::arithmetic::power2::pow2(log2n) as int)
}

/// A GLWE row rotated by X^d polynomial by polynomial, for any d below 2N.
pub open spec fn pbs_rotate(acc: Seq<u64>, d: int, n: nat, gs: int, w: int) -> Seq<u64> {
    Seq::new(
        (gs * n as int) as nat,
        |y: int|
            (crate::polynomial::monomial_shift_general_coeff(
                acc,
                (y / n as int) * n as int,
                n,
                d,
                y % n as int,
                w,
            ) as u64),
    )
}

/// The accumulator after one blind-rotation step for key bit `bit` and input
/// mask word x: the accumulator plus the external product of level matrix
/// `bit` with the difference between the rotated accumulator and itself.
pub open spec fn pbs_step(
    acc: Seq<u64>,
    x: u64,
    bit: int,
    bsk: LweBootstrapKey,
    log2n: nat,
    w: int,
) -> Seq<u64> {
    let n = bsk.polynomial_size.0 as nat;
    let gs = bsk.glwe_size.0 as int;
    let row_len = gs * n as int;
    let rot = pbs_rotate(acc, pbs_switched(x, log2n), n, gs, w);
    let diff = Seq::new(row_len as nat, |y: int| (((rot[y] - acc[y]) % w) as u64));
    let ext = Seq::new(
        row_len as nat,
        |y: int|
            (ext_prod_acc(
                0,
                diff,
                bsk.data@,
                bit,
                bsk.decomp_base_log.0 as nat,
                bsk.decomp_level_count.0 as nat,
                n,
                gs,
                row_len,
                y,
                (gs * bsk.decomp_level_count.0 as int) as nat,
                w,
            ) as u64),
    );
    Seq::new(row_len as nat, |y: int| (((acc[y] + ext[y]) % w) as u64))
}

/// The accumulator after the first `steps` blind-rotation steps.
pub open spec fn pbs_rotated(
    input: Seq<u64>,
    steps: nat,
    start: Seq<u64>,
    bsk: LweBootstrapKey,
    log2n: nat,
    w: int,
) -> Seq<u64>
    decreases steps,
{
    if steps == 0 {
        start
    } else {
        pbs_step(
            pbs_rotated(input, (steps - 1) as nat, start, bsk, log2n, w),
            input[steps - 1],
            steps - 1,
            bsk,
            log2n,
            w,
        )
    }
}

/// What a successful bootstrap writes: the sample extraction of the
/// accumulator, first rotated back by the switched input body and then blind-
/// rotated by every input mask element against the bootstrapping key.
pub open spec fn pbs_output_ok(
    out: Seq<u64>,
    input: Seq<u64>,
    acc0: Seq<u64>,
    bsk: LweBootstrapKey,
    log2n: nat,
    w: int,
) -> bool {
    let n = bsk.polynomial_size.0 as nat;
    let gs = bsk.glwe_size.0 as int;
    let two_n = 2 * vstd::arithmetic::power2::pow2(log2n) as int;
    let start = pbs_rotate(
        acc0,
        (two_n - pbs_switched(input[input.len() - 1], log2n)) % two_n,
        n,
        gs,
        w,
    );
    let fin = pbs_rotated(input, (input.len() - 1) as nat, start, bsk, log2n, w);
    &&& (forall|t: int|
        0 <= t < (gs - 1) * n ==> (#[trigger] out[t] as int) == extracted_mask_word(
            fin,
            0,
            n,
            t,
            w,
        ))
    &&& out[(gs - 1) * n as int] == fin[(gs - 1) * n as int]
}

/// Blind-rotate the accumulator range of scratch by the modulus-switched
/// phase of the input ciphertext, one level-matrix selector per input mask
/// element, then extract the constant coefficient into the output. Returns
/// false, and leaves the output alone, exactly when the scratch buffer does
/// not have the exact required size.
pub fn programmable_bootstrap_lwe_ciphertext(
    input: &LweCiphertext,
    output: &mut LweCiphertext,
    accumulator: &GlweCiphertext,
    bsk: &LweBootstrapKey,
    scratch: &mut Vec<u64>,
) -> (r: bool)
    requires
        bsk.well_formed(),
        bsk.ciphertext_modulus.modulus() == crate::parameters::native_modulus(),
        input.well_formed(),
        old(output).well_formed(),
        accumulator.well_formed(),
        input.ciphertext_modulus == bsk.ciphertext_modulus,
        old(output).ciphertext_modulus == bsk.ciphertext_modulus,
        accumulator.ciphertext_modulus == bsk.ciphertext_modulus,
        accumulator.polynomial_size == bsk.polynomial_size,
        accumulator.data@.len() == bsk.spec_row_len(),
        input.data@.len() == bsk.spec_input_dimension() + 1,
        old(output).data@.len() == (bsk.glwe_size.0 - 1) * bsk.polynomial_size.0 + 1,
        is_power_of_two(bsk.polynomial_size.0 as int),
        bsk.polynomial_size.0 <= 0x1_0000_0000,
        3 * bsk.glwe_size.0 * bsk.polynomial_size.0 <= usize::MAX,
    ensures
        final(output).ciphertext_modulus == old(output).ciphertext_modulus,
        final(output).data@.len() == old(output).data@.len(),
        final(output).well_formed(),
        r <==> old(scratch)@.len() == 3 * bsk.glwe_size.0 * bsk.polynomial_size.0,
        r ==> (forall|lg: nat|
            vstd::arithmetic::power2::pow2(lg) == bsk.polynomial_size.0 ==> #[trigger] pbs_output_ok(
                final(output).data@,
                input.data@,
                accumulator.data@,
                *bsk,
                lg,
                bsk.ciphertext_modulus.working_modulus(),
            )),
{
    let n = bsk.polynomial_size.0;
    let gs = bsk.glwe_size.0;
    let required = bootstrap_scratch_size(bsk.glwe_size, bsk.polynomial_size);
    if scratch.len() != required {
        return false;
    }
    proof {
        crate::parameters::lemma_modulus_facts(bsk.ciphertext_modulus);
        crate::numeric::lemma_working_modulus_valid(bsk.ciphertext_modulus);
        vstd::arithmetic::mul::lemma_mul_basics(bsk.ciphertext_modulus.modulus());
        lemma_pow2_native_values();
        lemma_bsk_index_facts_outer(*bsk);
    }
    let w = bsk.ciphertext_modulus.get_working_modulus();
    proof {
        vstd::arithmetic::mul::lemma_mul_inequality(gs as int, 3 * gs as int, n as int);
        vstd::arithmetic::mul::lemma_mul_inequality(2, 3 * gs as int, n as int);
        vstd::arithmetic::mul::lemma_mul_is_associative(3, gs as int, n as int);
        vstd::arithmetic::mul::lemma_mul_nonnegative(gs as int, n as int);
    }
    let row_len = gs * n;
    let log2n = log2_exact(n);
    proof {
        if log2n > 32 {
            vstd::arithmetic::power2::lemma_pow2_strictly_increases(32, log2n as nat);
            vstd::arithmetic::power2::lemma2_to64();
            assert(false);
        }
    }
    let n_in = input.data.len() - 1;
    let two_n = 2 * n;
    // the three scratch regions: the accumulator, the rotated copy, and the
    // external-product buffer
    let acc_off: usize = 0;
    let rot_off: usize = row_len;
    let ext_off: usize = 2 * row_len;
    // load the accumulator, rotated by minus the switched body
    copy_words(scratch, acc_off, &accumulator.data);
    let switched_body = modulus_switch(input.data[n_in], log2n);
    let back_rotation = (two_n - switched_body) % two_n;
    let slen = scratch.len();
    proof {
        lemma_all_words_reduced(scratch@, w as int);
        vstd::arithmetic::div_mod::lemma_mod_bound(
            (two_n - switched_body) as int,
            two_n as int,
        );
        vstd::arithmetic::power2::lemma_pow2_pos(log2n as nat);
    }
    let ghost load0 = scratch@;
    proof {
        assert forall|u: int| 0 <= u < row_len implies #[trigger] load0[u]
            == accumulator.data@[u] by {}
    }
    let mut p: usize = 0;
    while p < gs
        invariant
            p <= gs,
            n >= 1,
            gs >= 2,
            row_len == gs * n,
            slen == scratch@.len(),
            slen == 3 * row_len,
            load0.len() == slen,
            accumulator.data@.len() == row_len,
            back_rotation < 2 * n,
            is_power_of_two(n as int),
            valid_working_modulus(w as int),
            w == 0x1_0000_0000_0000_0000u128,
            forall|u: int|
                0 <= u < p * n ==> #[trigger] scratch@[u] as int
                    == crate::polynomial::monomial_shift_general_coeff(
                    accumulator.data@,
                    (u / n as int) * n as int,
                    n as nat,
                    back_rotation as int,
                    u % n as int,
                    w as int,
                ),
            forall|u: int| p * n <= u < row_len ==> #[trigger] scratch@[u] == accumulator.data@[u],
            forall|u: int| row_len <= u < slen ==> #[trigger] scratch@[u] == load0[u],
        decreases gs - p,
    {
        proof {
            vstd::arithmetic::mul::lemma_mul_inequality(p as int + 1, gs as int, n as int);
            vstd::arithmetic::mul::lemma_mul_inequality(p as int, gs as int, n as int);
            vstd::arithmetic::mul::lemma_mul_nonnegative(p as int, n as int);
            vstd::arithmetic::mul::lemma_mul_is_distributive_add_other_way(n as int, p as int, 1);
            lemma_all_words_reduced(scratch@, w as int);
        }
        let ghost call_pre = scratch@;
        poly_monomial_mul_general(scratch, p * n, back_rotation, n, w);
        proof {
            assert forall|u: int|
                0 <= u < (p + 1) * n implies #[trigger] scratch@[u] as int
                == crate::polynomial::monomial_shift_general_coeff(
                accumulator.data@,
                (u / n as int) * n as int,
                n as nat,
                back_rotation as int,
                u % n as int,
                w as int,
            ) by {
                if u < p * n {
                    assert(scratch@[u] == call_pre[u]);
                } else {
                    let x = u - p * (n as int);
                    vstd::arithmetic::div_mod::lemma_fundamental_div_mod_converse(
                        u,
                        n as int,
                        p as int,
                        x,
                    );
                    assert forall|t: int|
                        0 <= t < n implies #[trigger] call_pre[p * (n as int) + t]
                        == accumulator.data@[p * (n as int) + t] by {}
                    crate::polynomial::lemma_monomial_shift_general_window(
                        call_pre,
                        p * (n as int),
                        accumulator.data@,
                        p * (n as int),
                        n as nat,
                        back_rotation as int,
                        x,
                        w as int,
                    );
                }
            }
        }
        p = p + 1;
    }
    let ghost init_acc = scratch@.subrange(0, row_len as int);
    proof {
        assert(init_acc =~= pbs_rotate(
            accumulator.data@,
            back_rotation as int,
            n as nat,
            gs as int,
            w as int,
        ));
    }
    // one selector per input mask element
    let mut i: usize = 0;
    while i < n_in
        invariant
            i <= n_in,
            n_in + 1 == input.data@.len(),
            n_in == bsk.spec_input_dimension(),
            input.well_formed(),
            output.well_formed(),
            output.data@.len() == old(output).data@.len(),
            output.ciphertext_modulus == old(output).ciphertext_modulus,
            output.ciphertext_modulus.working_modulus() == w as int,
            old(output).data@.len() == (gs - 1) * n + 1,
            n >= 1,
            gs >= 2,
            n == bsk.polynomial_size.0,
            gs == bsk.glwe_size.0,
            row_len == gs * n,
            row_len == bsk.spec_row_len(),
            acc_off == 0,
            rot_off == row_len,
            ext_off == 2 * row_len,
            slen == scratch@.len(),
            slen == 3 * row_len,
            log2n <= 32,
            vstd::arithmetic::power2::pow2(log2n as nat) == n,
            two_n == 2 * n,
            is_power_of_two(n as int),
            bsk.well_formed(),
            bsk.ciphertext_modulus.modulus() == crate::parameters::native_modulus(),
            w == bsk.ciphertext_modulus.working_modulus(),
            valid_working_modulus(w as int),
            w == 0x1_0000_0000_0000_0000u128,
            init_acc.len() == row_len,
            scratch@.subrange(0, row_len as int) == pbs_rotated(
                input.data@,
                i as nat,
                init_acc,
                *bsk,
                log2n as nat,
                w as int,
            ),
        decreases n_in - i,
    {
        let ghost prev = scratch@.subrange(0, row_len as int);
        let switched = modulus_switch(input.data[i], log2n);
        // rotated copy of the accumulator
        let acc_copy = crate::crs_lwe_ciphertext::copy_range(scratch, acc_off, row_len);
        copy_words(scratch, rot_off, &acc_copy);
        proof {
            assert(acc_copy@ =~= prev);
        }
        let ghost rot_pre = scratch@;
        let mut p2: usize = 0;
        while p2 < gs
            invariant
                p2 <= gs,
                n >= 1,
                gs >= 2,
                row_len == gs * n,
                rot_off == row_len,
                slen == scratch@.len(),
                slen == 3 * row_len,
                rot_pre.len() == slen,
                prev.len() == row_len,
                switched < 2 * n,
                is_power_of_two(n as int),
                valid_working_modulus(w as int),
                w == 0x1_0000_0000_0000_0000u128,
                forall|y: int|
                    0 <= y < slen && !(rot_off <= y < rot_off + row_len) ==> #[trigger] scratch@[y]
                        == rot_pre[y],
                forall|u: int|
                    0 <= u < p2 * n ==> #[trigger] scratch@[rot_off + u] as int
                        == crate::polynomial::monomial_shift_general_coeff(
                        prev,
                        (u / n as int) * n as int,
                        n as nat,
                        switched as int,
                        u % n as int,
                        w as int,
                    ),
                forall|u: int|
                    p2 * n <= u < row_len ==> #[trigger] scratch@[rot_off + u] == prev[u],
            decreases gs - p2,
        {
            proof {
                vstd::arithmetic::mul::lemma_mul_inequality(p2 as int + 1, gs as int, n as int);
                vstd::arithmetic::mul::lemma_mul_inequality(p2 as int, gs as int, n as int);
                vstd::arithmetic::mul::lemma_mul_nonnegative(p2 as int, n as int);
                vstd::arithmetic::mul::lemma_mul_is_distributive_add_other_way(n as int, p2 as int, 1);
                lemma_all_words_reduced(scratch@, w as int);
            }
            let ghost call_pre = scratch@;
            poly_monomial_mul_general(scratch, rot_off + p2 * n, switched, n, w);
            proof {
                assert forall|u: int|
                    0 <= u < (p2 + 1) * n implies #[trigger] scratch@[rot_off + u] as int
                    == crate::polynomial::monomial_shift_general_coeff(
                    prev,
                    (u / n as int) * n as int,
                    n as nat,
                    switched as int,
                    u % n as int,
                    w as int,
                ) by {
                    if u < p2 * n {
                        assert(scratch@[rot_off + u] == call_pre[rot_off + u]);
                    } else {
                        let x = u - p2 * (n as int);
                        vstd::arithmetic::div_mod::lemma_fundamental_div_mod_converse(
                            u,
                            n as int,
                            p2 as int,
                            x,
                        );
                        assert(scratch@[rot_off as int + p2 * (n as int) + x] as int
                            == crate::polynomial::monomial_shift_general_coeff(
                            call_pre,
                            (rot_off + p2 * n) as int,
                            n as nat,
                            switched as int,
                            x,
                            w as int,
                        ));
                        assert(rot_off + u == rot_off as int + p2 * (n as int) + x);
                        assert forall|t: int|
                            0 <= t < n implies #[trigger] call_pre[(rot_off + p2 * n) + t]
                            == prev[p2 * (n as int) + t] by {
                            assert(call_pre[rot_off + (p2 * (n as int) + t)] == prev[p2 * (
                            n as int) + t]);
                        }
                        crate::polynomial::lemma_monomial_shift_general_window(
                            call_pre,
                            (rot_off + p2 * n) as int,
                            prev,
                            p2 * (n as int),
                            n as nat,
                            switched as int,
                            x,
                            w as int,
                        );
                    }
                }
            }
            p2 = p2 + 1;
        }
        let ghost rot_spec = pbs_rotate(prev, switched as int, n as nat, gs as int, w as int);
        proof {
            assert forall|y: int|
                0 <= y < row_len implies #[trigger] scratch@[rot_off + y] == rot_spec[y] by {}
        }
        // diff = rotated - acc, held in the rotation region
        let acc_now = crate::crs_lwe_ciphertext::copy_range(scratch, acc_off, row_len);
        proof {
            lemma_all_words_reduced(scratch@, w as int);
            lemma_all_words_reduced(acc_now@, w as int);
            assert(acc_now@ =~= prev) by {
                assert forall|y: int| 0 <= y < row_len implies acc_now@[y] == prev[y] by {
                    assert(acc_now@[y] == scratch@[0 + y]);
                    assert(scratch@[0 + y] == rot_pre[0 + y]);
                }
            }
        }
        poly_sub_assign(scratch, rot_off, &acc_now, 0, row_len, w);
        let ghost after_sub = scratch@;
        // external product of the difference with level matrix i, into the
        // cleared product region
        let mut z: usize = 0;
        while z < row_len
            invariant
                z <= row_len,
                ext_off == 2 * row_len,
                slen == scratch@.len(),
                slen == 3 * row_len,
                after_sub.len() == slen,
                forall|y: int|
                    0 <= y < slen && !(ext_off <= y < ext_off + z) ==> #[trigger] scratch@[y]
                        == after_sub[y],
                forall|y: int| 0 <= y < z ==> #[trigger] scratch@[ext_off + y] == 0,
            decreases row_len - z,
        {
            scratch.set(ext_off + z, 0u64);
            z = z + 1;
        }
        let diff = crate::crs_lwe_ciphertext::copy_range(scratch, rot_off, row_len);
        let ghost diff_spec = Seq::new(
            row_len as nat,
            |y: int| (((rot_spec[y] - prev[y]) % (w as int)) as u64),
        );
        proof {
            assert(diff@ =~= diff_spec) by {
                assert forall|y: int| 0 <= y < row_len implies diff@[y] == diff_spec[y] by {
                    assert(diff@[y] == scratch@[rot_off + y]);
                    assert(scratch@[rot_off + y] == after_sub[rot_off + y]);
                    assert(after_sub[rot_off + y] == (rot_spec[y] - acc_now@[0 + y]) % (w as int));
                }
            }
        }
        external_product_add_assign(scratch, ext_off, &diff, bsk, i, w);
        // fold the product into the accumulator
        let ext_copy = crate::crs_lwe_ciphertext::copy_range(scratch, ext_off, row_len);
        proof {
            lemma_all_words_reduced(scratch@, w as int);
            lemma_all_words_reduced(ext_copy@, w as int);
        }
        let ghost before_fold = scratch@;
        poly_add_assign(scratch, acc_off, &ext_copy, 0, row_len, w);
        proof {
            assert(scratch@.subrange(0, row_len as int) =~= pbs_step(
                prev,
                input.data@[i as int],
                i as int,
                *bsk,
                log2n as nat,
                w as int,
            )) by {
                let stepped = pbs_step(
                    prev,
                    input.data@[i as int],
                    i as int,
                    *bsk,
                    log2n as nat,
                    w as int,
                );
                assert forall|y: int|
                    0 <= y < row_len implies scratch@.subrange(0, row_len as int)[y]
                    == stepped[y] by {
                    assert(scratch@[0 + y] == (before_fold[0 + y] + ext_copy@[0 + y]) % (w as int));
                    assert(before_fold[0 + y] == prev[y]) by {
                        assert(before_fold[0 + y] == after_sub[0 + y]);
                        assert(after_sub[0 + y] == rot_pre[0 + y]);
                    }
                    assert(ext_copy@[y] as int == ext_prod_acc(
                        0,
                        diff@,
                        bsk.data@,
                        i as int,
                        bsk.decomp_base_log.0 as nat,
                        bsk.decomp_level_count.0 as nat,
                        n as nat,
                        gs as int,
                        row_len as int,
                        y,
                        (gs * bsk.decomp_level_count.0) as nat,
                        w as int,
                    )) by {
                        assert(ext_copy@[y] == scratch@[ext_off + y]);
                    }
                }
            }
        }
        i = i + 1;
    }
    let ghost fin = scratch@.subrange(0, row_len as int);
    extract_lwe_sample_from_glwe(scratch, acc_off, gs, n, output, w);
    proof {
        assert forall|t: int|
            0 <= t < (gs - 1) * n implies (#[trigger] output.data@[t] as int)
            == extracted_mask_word(fin, 0, n as nat, t, w as int) by {
            vstd::arithmetic::div_mod::lemma_fundamental_div_mod(t, n as int);
            vstd::arithmetic::div_mod::lemma_mod_bound(t, n as int);
            if t / (n as int) >= gs - 1 {
                vstd::arithmetic::mul::lemma_mul_inequality(
                    gs as int - 1,
                    t / (n as int),
                    n as int,
                );
                vstd::arithmetic::mul::lemma_mul_is_commutative(t / (n as int), n as int);
                vstd::arithmetic::mul::lemma_mul_is_commutative(gs as int - 1, n as int);
            }
            if t / (n as int) < 0 {
                vstd::arithmetic::div_mod::lemma_div_pos_is_pos(t, n as int);
            }
            vstd::arithmetic::mul::lemma_mul_inequality(
                t / (n as int) + 1,
                gs as int,
                n as int,
            );
            vstd::arithmetic::mul::lemma_mul_nonnegative(t / (n as int), n as int);
            vstd::arithmetic::mul::lemma_mul_is_distributive_add_other_way(
                n as int,
                t / (n as int),
                1,
            );
            if t % (n as int) == 0 {
                assert(fin[0 + t] == scratch@[0 + t]);
            } else {
                assert(fin[0 + ((t / (n as int)) * (n as int) + ((n as int) - t % (
                n as int)))] == scratch@[0 + ((t / (n as int)) * (n as int) + ((n as int) - t % (
                n as int)))]);
            }
        }
        assert(output.data@[(gs - 1) * n] == fin[(gs - 1) * n as int]) by {
            vstd::arithmetic::mul::lemma_mul_inequality(gs as int - 1, gs as int, n as int);
            vstd::arithmetic::mul::lemma_mul_nonnegative(gs as int - 1, n as int);
            vstd::arithmetic::mul::lemma_mul_is_distributive_add_other_way(
                n as int,
                gs as int - 1,
                1,
            );
            assert(fin[0 + (gs - 1) * (n as int)] == scratch@[0 + (gs - 1) * (n as int)]);
        }
        assert forall|lg: nat|
            vstd::arithmetic::power2::pow2(lg)
                == bsk.polynomial_size.0 implies #[trigger] pbs_output_ok(
            output.data@,
            input.data@,
            accumulator.data@,
            *bsk,
            lg,
            bsk.ciphertext_modulus.working_modulus(),
        ) by {
            if lg < log2n as nat {
                vstd::arithmetic::power2::lemma_pow2_strictly_increases(lg, log2n as nat);
            }
            if lg > log2n as nat {
                vstd::arithmetic::power2::lemma_pow2_strictly_increases(log2n as nat, lg);
            }
            assert(lg == log2n as nat);
            assert(init_acc == pbs_rotate(
                accumulator.data@,
                ((2 * vstd::arithmetic::power2::pow2(lg) as int) - pbs_switched(
                    input.data@[input.data@.len() - 1],
                    lg,
                )) % (2 * vstd::arithmetic::power2::pow2(lg) as int),
                n as nat,
                gs as int,
                w as int,
            ));
        }
    }
    true
}

/// The shape facts of a well-formed bootstrapping key that do not mention a
/// particular key bit.
pub proof fn lemma_bsk_index_facts_outer(bsk: LweBootstrapKey)
    requires
        bsk.well_formed(),
    ensures
        bsk.spec_input_dimension() >= 0,
    decreases 0int,
{
    vstd::arithmetic::div_mod::lemma_div_pos_is_pos(bsk.data@.len() as int, bsk.spec_bit_len());
}

/// The index facts a bootstrapping key's well-formedness gives: the level
/// matrix of any key bit lies inside the flat data, and the row and digit
/// buffers fit in memory.
pub proof fn lemma_bsk_index_facts(bsk: LweBootstrapKey, bit: int)
    requires
        bsk.well_formed(),
        0 <= bit < bsk.spec_input_dimension(),
    ensures
        bsk.spec_bit_len() == bsk.decomp_level_count.0 as int * bsk.glwe_size.0 as int * (
        bsk.glwe_size.0 as int * bsk.polynomial_size.0 as int),
        (bit + 1) * bsk.spec_bit_len() <= bsk.data@.len(),
        bsk.glwe_size.0 as int * bsk.polynomial_size.0 as int <= bsk.data@.len(),
        bsk.decomp_level_count.0 as int * bsk.polynomial_size.0 as int <= bsk.data@.len(),
        bsk.decomp_level_count.0 < 64,
    decreases 0int,
{
    let l = bsk.decomp_level_count.0 as int;
    let gs = bsk.glwe_size.0 as int;
    let n = bsk.polynomial_size.0 as int;
    let b = bsk.decomp_base_log.0 as int;
    assert(l < 64) by {
        vstd::arithmetic::mul::lemma_mul_inequality(1, b, l);
        vstd::arithmetic::mul::lemma_mul_basics(l);
        vstd::arithmetic::mul::lemma_mul_is_commutative(b, l);
    }
    let rl = gs * n;
    let bl = bsk.spec_bit_len();
    let blen = bsk.data@.len() as int;
    let dim = bsk.spec_input_dimension();
    vstd::arithmetic::mul::lemma_mul_strictly_positive(gs, n);
    vstd::arithmetic::mul::lemma_mul_strictly_positive(l, gs);
    vstd::arithmetic::mul::lemma_mul_strictly_positive(l * gs, rl);
    // blen is dim·bl plus a zero remainder
    vstd::arithmetic::div_mod::lemma_fundamental_div_mod(blen, bl);
    assert(blen == bl * dim);
    assert((bit + 1) * bl <= dim * bl) by {
        vstd::arithmetic::mul::lemma_mul_inequality(bit + 1, dim, bl);
    }
    vstd::arithmetic::mul::lemma_mul_is_commutative(dim, bl);
    // one row fits: rl <= bl <= blen
    assert(rl <= bl) by {
        vstd::arithmetic::mul::lemma_mul_inequality(1, l * gs, rl);
        vstd::arithmetic::mul::lemma_mul_basics(rl);
        vstd::arithmetic::mul::lemma_mul_is_commutative(rl, l * gs);
    }
    assert(bl <= blen) by {
        vstd::arithmetic::mul::lemma_mul_inequality(1, dim, bl);
        vstd::arithmetic::mul::lemma_mul_basics(bl);
        vstd::arithmetic::mul::lemma_mul_is_commutative(bl, dim);
        assert(dim >= 1) by {
            vstd::arithmetic::div_mod::lemma_div_non_zero(blen, bl);
        }
    }
    // the digit buffer fits: l·n <= bl
    assert(l * n <= bl) by {
        assert(n <= rl) by {
            vstd::arithmetic::mul::lemma_mul_inequality(1, gs, n);
            vstd::arithmetic::mul::lemma_mul_is_commutative(n, gs);
            vstd::arithmetic::mul::lemma_mul_basics(n);
        }
        assert(l * n <= l * rl) by {
            vstd::arithmetic::mul::lemma_mul_inequality(n, rl, l);
            vstd::arithmetic::mul::lemma_mul_is_commutative(n, l);
            vstd::arithmetic::mul::lemma_mul_is_commutative(rl, l);
        }
        assert(l * rl <= (l * gs) * rl) by {
            assert(l <= l * gs) by {
                vstd::arithmetic::mul::lemma_mul_inequality(1, gs, l);
                vstd::arithmetic::mul::lemma_mul_basics(l);
                vstd::arithmetic::mul::lemma_mul_is_commutative(gs, l);
            }
            vstd::arithmetic::mul::lemma_mul_inequality(l, l * gs, rl);
        }
    }
    assert(l <= l * n) by {
        vstd::arithmetic::mul::lemma_mul_inequality(1, n, l);
        vstd::arithmetic::mul::lemma_mul_basics(l);
    }
}

/// Every 64-bit word is reduced under the native working modulus.
pub proof fn lemma_all_words_reduced(s: Seq<u64>, w: int)
    requires
        w == 0x1_0000_0000_0000_0000,
    ensures
        reduced(s, w),
{
}

/// The level-matrix rows of one key bit lie inside the bootstrapping key.
pub proof fn lemma_row_offset_in_range(
    bit: int,
    j: int,
    p: int,
    level_count: int,
    gs: int,
    row_len: int,
    blen: int,
    dim: int,
)
    requires
        0 <= bit < dim,
        1 <= j <= level_count,
        0 <= p < gs,
        gs >= 1,
        row_len >= 1,
        (bit + 1) * (level_count * gs * row_len) <= blen,
    ensures
        ((bit * level_count + (j - 1)) * gs + p) * row_len + row_len <= blen,
        (bit * level_count + (j - 1)) * gs + p >= 0,
        ((bit * level_count + (j - 1)) * gs + p) * row_len >= 0,
        bit * level_count + (j - 1) >= 0,
        bit * level_count + (j - 1) <= blen,
        (bit * level_count + (j - 1)) * gs + p <= blen,
    decreases 0int,
{
    let t = bit * level_count + (j - 1);
    vstd::arithmetic::mul::lemma_mul_nonnegative(bit, level_count);
    assert(t + 1 <= (bit + 1) * level_count) by {
        vstd::arithmetic::mul::lemma_mul_is_distributive_add_other_way(level_count, bit, 1);
    }
    let u = t * gs + p;
    vstd::arithmetic::mul::lemma_mul_nonnegative(t, gs);
    assert(u + 1 <= (bit + 1) * level_count * gs) by {
        vstd::arithmetic::mul::lemma_mul_inequality(t + 1, (bit + 1) * level_count, gs);
        vstd::arithmetic::mul::lemma_mul_is_distributive_add_other_way(gs, t, 1);
    }
    assert((u + 1) * row_len <= blen) by {
        vstd::arithmetic::mul::lemma_mul_inequality(u + 1, (bit + 1) * level_count * gs, row_len);
        vstd::arithmetic::mul::lemma_mul_is_associative((bit + 1) * level_count, gs, row_len);
        vstd::arithmetic::mul::lemma_mul_is_associative(bit + 1, level_count, gs);
        vstd::arithmetic::mul::lemma_mul_is_associative(bit + 1, level_count * gs, row_len);
        vstd::arithmetic::mul::lemma_mul_is_associative(level_count, gs, row_len);
    }
    vstd::arithmetic::mul::lemma_mul_is_distributive_add_other_way(row_len, u, 1);
    vstd::arithmetic::mul::lemma_mul_nonnegative(u, row_len);
    assert(u + 1 <= (u + 1) * row_len) by {
        vstd::arithmetic::mul::lemma_mul_inequality(1, row_len, u + 1);
        vstd::arithmetic::mul::lemma_mul_basics(u + 1);
        vstd::arithmetic::mul::lemma_mul_is_commutative(row_len, u + 1);
    }
    assert(t <= t * gs) by {
        vstd::arithmetic::mul::lemma_mul_inequality(1, gs, t);
        vstd::arithmetic::mul::lemma_mul_basics(t);
        vstd::arithmetic::mul::lemma_mul_is_commutative(gs, t);
    }
}

/// One row of a GLWE ciphertext splits into whole polynomials.
proof fn lemma_row_shape(key_len: int, n: int)
    requires
        n >= 1,
        key_len >= 1,
        key_len % n == 0,
    ensures
        (key_len + n) % n == 0,
        (key_len + n) >= n,
{
    vstd::arithmetic::div_mod::lemma_mod_multiples_vanish(1, key_len, n);
    vstd::arithmetic::div_mod::lemma_add_mod_noop(key_len, n, n);
    vstd::arithmetic::div_mod::lemma_mod_self_0(n);
    vstd::arithmetic::div_mod::lemma_mod_twice(key_len, n);
    assert((key_len + n) % n == (key_len % n + n % n) % n);
    vstd::arithmetic::div_mod::lemma_small_mod(0nat, n as nat);
}

/// A length that splits into whole polynomials is its polynomial count times
/// the size.
proof fn lemma_gsz_times_n(row_len: int, n: int)
    requires
        n >= 1,
        row_len >= 0,
        row_len % n == 0,
    ensures
        (row_len / n) * n == row_len,
{
    vstd::arithmetic::div_mod::lemma_fundamental_div_mod(row_len, n);
    vstd::arithmetic::mul::lemma_mul_is_commutative(row_len / n, n);
}

/// The numeric value of 2^64 matches the native modulus.
proof fn lemma_pow2_native_values()
    ensures
        vstd::arithmetic::power2::pow2(64) == 0x1_0000_0000_0000_0000,
{
    vstd::arithmetic::power2::lemma2_to64();
    vstd::arithmetic::power2::lemma_pow2_adds(32, 32);
    vstd::arithmetic::power2::lemma2_to64_rest();
}

} // verus!

//! The LWE trace-packing keyswitch: folding a batch of LWE ciphertexts into
//! one GLWE ciphertext at chosen coefficient slots, through a butterfly of
//! ring automorphisms and GLWE keyswitches, under an odd custom modulus.

use vstd::prelude::*;
use crate::parameters::{CiphertextModulus, DecompositionBaseLog, DecompositionLevelCount,
    GlweSize, LweSize, PolynomialSize, StandardDev};
use crate::numeric::{add_mod, mul_mod, neg_mod, reduced, valid_working_modulus};
use crate::decomposition::{bpow, custom_params_ok, SignedDecomposerNonNative};
use crate::glwe::{GlweCiphertext, GlweSecretKey, poly_product};
use crate::lwe::{LweCiphertextList, vec_of_zeros};
use crate::lwe_keyswitch::copy_words;
use crate::polynomial::{is_power_of_two, poly_add_assign, poly_automorphism_assign,
    poly_scalar_mul_assign, poly_sub_assign};
use crate::random::EncryptionRandomGenerator;

verus! {

/// A GLWE keyswitch key: for every input key polynomial, level-count GLWE
/// encryptions of its scaled copies under the output key, flat.
#[derive(Clone, Debug, PartialEq, Eq)]
pub struct GlweKeyswitchKey {
    pub data: Vec<u64>,
    pub decomp_base_log: DecompositionBaseLog,
    pub decomp_level_count: DecompositionLevelCount,
    pub output_glwe_size: GlweSize,
    pub polynomial_size: PolynomialSize,
    pub ciphertext_modulus: CiphertextModulus,
}

impl GlweKeyswitchKey {
    /// One stored GLWE ciphertext in words.
    pub open spec fn spec_row_len(&self) -> int {
        self.output_glwe_size.0 as int * self.polynomial_size.0 as int
    }

    /// The shape and reduction invariant of a GLWE keyswitch key.
    pub open spec fn well_formed(&self) -> bool {
        &&& self.output_glwe_size.0 >= 2
        &&& self.polynomial_size.0 >= 1
        &&& custom_params_ok(
            self.decomp_base_log.0 as nat,
            self.decomp_level_count.0 as nat,
            self.ciphertext_modulus,
        )
        &&& self.data@.len() as int % (self.decomp_level_count.0 as int * self.spec_row_len()) == 0
        &&& reduced(self.data@, self.ciphertext_modulus.working_modulus())
    }

    /// The number of input key polynomials the key switches.
    pub open spec fn spec_input_dimension(&self) -> int {
        self.data@.len() as int / (self.decomp_level_count.0 as int * self.spec_row_len())
    }

    /// Wrap an existing flat vector of keyswitch ciphertexts.
    pub fn from_container(
        container: Vec<u64>,
        decomp_base_log: DecompositionBaseLog,
        decomp_level_count: DecompositionLevelCount,
        output_glwe_size: GlweSize,
        polynomial_size: PolynomialSize,
        ciphertext_modulus: CiphertextModulus,
    ) -> (r: GlweKeyswitchKey)
        requires
            output_glwe_size.0 >= 2,
            polynomial_size.0 >= 1,
            custom_params_ok(
                decomp_base_log.0 as nat,
                decomp_level_count.0 as nat,
                ciphertext_modulus,
            ),
            container@.len() as int % (decomp_level_count.0 as int * (output_glwe_size.0 as int
                * polynomial_size.0 as int)) == 0,
            reduced(container@, ciphertext_modulus.working_modulus()),
        ensures
            r.data@ == container@,
            r.decomp_base_log == decomp_base_log,
            r.decomp_level_count == decomp_level_count,
            r.output_glwe_size == output_glwe_size,
            r.polynomial_size == polynomial_size,
            r.ciphertext_modulus == ciphertext_modulus,
            r.well_formed(),
    {
        GlweKeyswitchKey {
            data: container,
            decomp_base_log,
            decomp_level_count,
            output_glwe_size,
            polynomial_size,
            ciphertext_modulus,
        }
    }
}

/// The level-v signed digit of the custom decomposition of the word a, taken
/// modulo the working modulus: the levels come out from l down to 1, so the
/// digit of level v is extracted after l - v state steps.
pub open spec fn glwe_ks_digit(a: u64, b: nat, l: nat, v: nat, q: int, w: int) -> int {
    crate::decomposition::tval(
        crate::decomposition::state_after(
            crate::decomposition::round_div(a as int, crate::decomposition::custom_unit(q, b, l)),
            b,
            (l - v) as nat,
        ),
        b,
    ) % w
}

/// The size-n polynomial of level-v digits of input mask polynomial i.
pub open spec fn glwe_ks_digit_poly(
    input: Seq<u64>,
    i: int,
    n: nat,
    b: nat,
    l: nat,
    v: nat,
    q: int,
    w: int,
) -> Seq<u64> {
    Seq::new(n, |t: int| (glwe_ks_digit(input[i * n as int + t], b, l, v, q, w) as u64))
}

/// The running value of keyswitched output element y after the first `steps`
/// digit-polynomial subtractions, each reduced as it lands: step t subtracts
/// coefficient y%n of the negacyclic product of the level t%l + 1 digit
/// polynomial of input mask polynomial t/l with the output polynomial y/n of
/// that digit's key ciphertext row.
pub open spec fn glwe_ks_acc(
    start: int,
    input: Seq<u64>,
    ksk: Seq<u64>,
    b: nat,
    l: nat,
    n: nat,
    row_len: int,
    y: int,
    steps: nat,
    q: int,
    w: int,
) -> int
    decreases steps,
{
    if steps == 0 {
        start
    } else {
        let t = (steps - 1) as int;
        let i = t / (l as int);
        let j = t % (l as int);
        (glwe_ks_acc(start, input, ksk, b, l, n, row_len, y, (steps - 1) as nat, q, w)
            - crate::polynomial::poly_mul_coeff(
            glwe_ks_digit_poly(input, i, n, b, l, (j + 1) as nat, q, w),
            0,
            ksk,
            (i * (l as int) + j) * row_len + (y / n as int) * (n as int),
            n,
            y % (n as int),
            w,
        )) % w
    }
}

/// Keyswitch a GLWE ciphertext to the output key of the keyswitch key: the
/// output starts from the input body, and for every input mask polynomial the
/// signed decomposition digit polynomials, multiplied by the matching key
/// ciphertexts, are subtracted.
pub fn keyswitch_glwe_ciphertext(
    glwe_keyswitch_key: &GlweKeyswitchKey,
    input_glwe_ciphertext: &GlweCiphertext,
    output_glwe_ciphertext: &mut GlweCiphertext,
)
    requires
        glwe_keyswitch_key.well_formed(),
        input_glwe_ciphertext.well_formed(),
        old(output_glwe_ciphertext).well_formed(),
        glwe_keyswitch_key.ciphertext_modulus == input_glwe_ciphertext.ciphertext_modulus,
        glwe_keyswitch_key.ciphertext_modulus == old(output_glwe_ciphertext).ciphertext_modulus,
        glwe_keyswitch_key.polynomial_size == input_glwe_ciphertext.polynomial_size,
        glwe_keyswitch_key.polynomial_size == old(output_glwe_ciphertext).polynomial_size,
        input_glwe_ciphertext.data@.len() == glwe_keyswitch_key.spec_row_len(),
        old(output_glwe_ciphertext).data@.len() == glwe_keyswitch_key.spec_row_len(),
        glwe_keyswitch_key.spec_input_dimension() == glwe_keyswitch_key.output_glwe_size.0 - 1,
        glwe_keyswitch_key.data@.len() == (glwe_keyswitch_key.output_glwe_size.0 - 1)
            * glwe_keyswitch_key.decomp_level_count.0 * glwe_keyswitch_key.spec_row_len(),
    ensures
        final(output_glwe_ciphertext).polynomial_size == old(
            output_glwe_ciphertext,
        ).polynomial_size,
        final(output_glwe_ciphertext).ciphertext_modulus == old(
            output_glwe_ciphertext,
        ).ciphertext_modulus,
        final(output_glwe_ciphertext).data@.len() == old(output_glwe_ciphertext).data@.len(),
        final(output_glwe_ciphertext).well_formed(),
        // element y: every digit polynomial of every input mask polynomial
        // folded against the key ciphertexts, on top of 0, or of the input
        // body over the last polynomial
        forall|y: int|
            0 <= y < glwe_keyswitch_key.spec_row_len()
                ==> #[trigger] final(output_glwe_ciphertext).data@[y] as int == glwe_ks_acc(
                (if y < glwe_keyswitch_key.spec_row_len()
                    - glwe_keyswitch_key.polynomial_size.0 {
                    0
                } else {
                    (input_glwe_ciphertext.data@[y] as int)
                }),
                input_glwe_ciphertext.data@,
                glwe_keyswitch_key.data@,
                glwe_keyswitch_key.decomp_base_log.0 as nat,
                glwe_keyswitch_key.decomp_level_count.0 as nat,
                glwe_keyswitch_key.polynomial_size.0 as nat,
                glwe_keyswitch_key.spec_row_len(),
                y,
                ((glwe_keyswitch_key.output_glwe_size.0 - 1)
                    * glwe_keyswitch_key.decomp_level_count.0) as nat,
                glwe_keyswitch_key.ciphertext_modulus.modulus(),
                glwe_keyswitch_key.ciphertext_modulus.working_modulus(),
            ),
{
    let m = glwe_keyswitch_key.ciphertext_modulus;
    let n = glwe_keyswitch_key.polynomial_size.0;
    let gs = glwe_keyswitch_key.output_glwe_size.0;
    let level_count = glwe_keyswitch_key.decomp_level_count.0;
    let base_log = glwe_keyswitch_key.decomp_base_log.0;
    let klen = glwe_keyswitch_key.data.len();
    let in_len = input_glwe_ciphertext.data.len();
    proof {
        crate::parameters::lemma_modulus_facts(m);
        crate::numeric::lemma_working_modulus_valid(m);
        lemma_glwe_ks_bounds(*glwe_keyswitch_key);
    }
    let w = m.get_working_modulus();
    proof {
        vstd::arithmetic::mul::lemma_mul_inequality(1, (gs - 1) as int, n as int);
        vstd::arithmetic::mul::lemma_mul_basics(n as int);
        vstd::arithmetic::mul::lemma_mul_is_commutative((gs - 1) as int, n as int);
        vstd::arithmetic::mul::lemma_mul_is_distributive_sub_other_way(n as int, gs as int, 1);
    }
    let row_len = gs * n;
    let mask_len = row_len - n;
    let ghost q = m.modulus();
    // output starts as (0, ..., 0, input body)
    let out_len = output_glwe_ciphertext.data.len();
    let mut x: usize = 0;
    while x < mask_len
        invariant
            x <= mask_len,
            mask_len < out_len,
            out_len == output_glwe_ciphertext.data@.len(),
            output_glwe_ciphertext.polynomial_size == old(output_glwe_ciphertext).polynomial_size,
            output_glwe_ciphertext.ciphertext_modulus == old(
                output_glwe_ciphertext,
            ).ciphertext_modulus,
            valid_working_modulus(w as int),
            w == m.working_modulus(),
            reduced(output_glwe_ciphertext.data@, w as int),
            forall|y: int| 0 <= y < x ==> #[trigger] output_glwe_ciphertext.data@[y] == 0,
        decreases mask_len - x,
    {
        output_glwe_ciphertext.data[x] = 0u64;
        x = x + 1;
    }
    let body_src = crate::crs_lwe_ciphertext::copy_range(
        &input_glwe_ciphertext.data,
        mask_len,
        n,
    );
    copy_words(&mut output_glwe_ciphertext.data, mask_len, &body_src);
    proof {
        assert(reduced(output_glwe_ciphertext.data@, w as int)) by {
            assert forall|y: int|
                0 <= y < output_glwe_ciphertext.data@.len()
                    implies #[trigger] output_glwe_ciphertext.data@[y] < w as int by {
                if mask_len <= y < mask_len + n {
                    assert(output_glwe_ciphertext.data@[y] == body_src@[y - mask_len]);
                    assert(body_src@[y - mask_len] == input_glwe_ciphertext.data@[y]);
                }
            }
        }
        assert forall|y: int|
            0 <= y < row_len implies #[trigger] output_glwe_ciphertext.data@[y] as int == (if y
            < mask_len {
            0
        } else {
            (input_glwe_ciphertext.data@[y] as int)
        }) by {
            if mask_len <= y {
                assert(output_glwe_ciphertext.data@[y] == body_src@[y - mask_len]);
                assert(body_src@[y - mask_len] == input_glwe_ciphertext.data@[y]);
            }
        }
    }
    let decomposer = SignedDecomposerNonNative::new(
        DecompositionBaseLog(base_log),
        DecompositionLevelCount(level_count),
        m,
    );
    // a digit comes out wrapped at the word width; its signed value must be
    // re-wrapped at the working modulus
    let half_base: u64 = crate::decomposition::pow2_u64(base_log - 1);
    proof {
        assert((half_base as u128) < w);
    }
    let mut i: usize = 0;
    while i < gs - 1
        invariant
            i <= gs - 1,
            gs >= 2,
            n >= 1,
            level_count >= 1,
            level_count < 64,
            row_len == gs * n,
            row_len >= n,
            mask_len == row_len - n,
            mask_len >= n,
            level_count * n <= klen,
            in_len == input_glwe_ciphertext.data@.len(),
            in_len == row_len,
            klen == glwe_keyswitch_key.data@.len(),
            klen == (gs - 1) * level_count * row_len,
            out_len == output_glwe_ciphertext.data@.len(),
            out_len == row_len,
            output_glwe_ciphertext.polynomial_size == old(output_glwe_ciphertext).polynomial_size,
            output_glwe_ciphertext.ciphertext_modulus == old(
                output_glwe_ciphertext,
            ).ciphertext_modulus,
            decomposer.well_formed(),
            decomposer.base_log_spec() == base_log as nat,
            decomposer.level_count_spec() == level_count as nat,
            decomposer.modulus_spec() == m,
            (half_base as u128) < w,
            half_base == vstd::arithmetic::power2::pow2((base_log - 1) as nat),
            custom_params_ok(base_log as nat, level_count as nat, m),
            q == m.modulus(),
            valid_working_modulus(w as int),
            w == m.working_modulus(),
            reduced(output_glwe_ciphertext.data@, w as int),
            reduced(input_glwe_ciphertext.data@, w as int),
            reduced(glwe_keyswitch_key.data@, w as int),
            forall|y: int|
                0 <= y < row_len ==> #[trigger] output_glwe_ciphertext.data@[y] as int
                    == glwe_ks_acc(
                    (if y < mask_len {
                        0
                    } else {
                        (input_glwe_ciphertext.data@[y] as int)
                    }),
                    input_glwe_ciphertext.data@,
                    glwe_keyswitch_key.data@,
                    base_log as nat,
                    level_count as nat,
                    n as nat,
                    row_len as int,
                    y,
                    (i * level_count) as nat,
                    q,
                    w as int,
                ),
        decreases gs - 1 - i,
    {
        proof {
            vstd::arithmetic::mul::lemma_mul_inequality(i as int + 1, (gs - 1) as int, n as int);
            vstd::arithmetic::mul::lemma_mul_inequality(i as int, (gs - 1) as int, n as int);
            vstd::arithmetic::mul::lemma_mul_nonnegative(i as int, n as int);
            vstd::arithmetic::mul::lemma_mul_is_distributive_add_other_way(n as int, i as int, 1);
            vstd::arithmetic::mul::lemma_mul_inequality(
                (gs - 1) as int,
                gs as int,
                n as int,
            );
        }
        // digit polynomials of input mask polynomial i: level v at (v-1)·n
        let mut digits = vec_of_zeros(level_count * n);
        let digits_len: usize = digits.len();
        let mut idx: usize = 0;
        while idx < n
            invariant
                idx <= n,
                i * n + n <= in_len,
                in_len == input_glwe_ciphertext.data@.len(),
                n >= 1,
                level_count >= 1,
                digits@.len() == level_count * n,
                digits@.len() == digits_len,
                decomposer.well_formed(),
                decomposer.base_log_spec() == base_log as nat,
                decomposer.level_count_spec() == level_count as nat,
                decomposer.modulus_spec() == m,
                (half_base as u128) < w,
                half_base == vstd::arithmetic::power2::pow2((base_log - 1) as nat),
                custom_params_ok(base_log as nat, level_count as nat, m),
                q == m.modulus(),
                w == m.working_modulus(),
                reduced(digits@, w as int),
                valid_working_modulus(w as int),
                forall|u: int|
                    0 <= u < digits_len && u % (n as int) < idx ==> #[trigger] digits@[u] as int
                        == glwe_ks_digit(
                        input_glwe_ciphertext.data@[i * n + u % (n as int)],
                        base_log as nat,
                        level_count as nat,
                        (u / (n as int) + 1) as nat,
                        q,
                        w as int,
                    ),
            decreases n - idx,
        {
            let mut it = decomposer.decompose(input_glwe_ciphertext.data[i * n + idx]);
            let mut v: usize = level_count;
            while v > 0
                invariant
                    v <= level_count,
                    idx < n,
                    i * n + n <= in_len,
                    in_len == input_glwe_ciphertext.data@.len(),
                    n >= 1,
                    level_count >= 1,
                    digits@.len() == level_count * n,
                    digits@.len() == digits_len,
                    it.well_formed(),
                    it.base_log_spec() == base_log as nat,
                    it.level_count_spec() == level_count as nat,
                    it.modulus_spec() == m,
                    it.current_level_spec() == v,
                    it.state_spec() as int == crate::decomposition::state_after(
                        crate::decomposition::round_div(
                            input_glwe_ciphertext.data@[i * n + idx] as int,
                            crate::decomposition::custom_unit(
                                q,
                                base_log as nat,
                                level_count as nat,
                            ),
                        ),
                        base_log as nat,
                        (level_count - v) as nat,
                    ),
                    (half_base as u128) < w,
                    half_base == vstd::arithmetic::power2::pow2((base_log - 1) as nat),
                    custom_params_ok(base_log as nat, level_count as nat, m),
                    q == m.modulus(),
                    w == m.working_modulus(),
                    reduced(digits@, w as int),
                    valid_working_modulus(w as int),
                    forall|u: int|
                        0 <= u < digits_len && u % (n as int) < idx ==> #[trigger] digits@[u] as int
                            == glwe_ks_digit(
                            input_glwe_ciphertext.data@[i * n + u % (n as int)],
                            base_log as nat,
                            level_count as nat,
                            (u / (n as int) + 1) as nat,
                            q,
                            w as int,
                        ),
                    forall|u: int|
                        0 <= u < digits_len && u % (n as int) == idx && v <= u / (n as int)
                            < level_count ==> #[trigger] digits@[u] as int == glwe_ks_digit(
                            input_glwe_ciphertext.data@[i * n + idx],
                            base_log as nat,
                            level_count as nat,
                            (u / (n as int) + 1) as nat,
                            q,
                            w as int,
                        ),
                decreases v,
            {
                let term_opt = it.next();
                let term = term_opt.unwrap();
                proof {
                    vstd::arithmetic::mul::lemma_mul_inequality(
                        v as int,
                        level_count as int,
                        n as int,
                    );
                    vstd::arithmetic::mul::lemma_mul_inequality(
                        v as int - 1,
                        level_count as int,
                        n as int,
                    );
                    vstd::arithmetic::mul::lemma_mul_nonnegative(v as int - 1, n as int);
                    vstd::arithmetic::mul::lemma_mul_is_distributive_add_other_way(
                        n as int,
                        v as int - 1,
                        1,
                    );
                }
                let val = term.value();
                // map the wrapped signed digit onto the working modulus: a
                // small value stays, a wrapped negative becomes w minus its
                // magnitude
                let digit: u64 = if val <= half_base {
                    val
                } else {
                    let magnitude = (0u64).wrapping_sub(val);
                    if (magnitude as u128) < w {
                        ((w - (magnitude as u128)) as u64)
                    } else {
                        crate::numeric::reduce_u128(val as u128, w)
                    }
                };
                proof {
                    assert(digit < w);
                    let st = crate::decomposition::state_after(
                        crate::decomposition::round_div(
                            input_glwe_ciphertext.data@[i * n + idx] as int,
                            crate::decomposition::custom_unit(
                                q,
                                base_log as nat,
                                level_count as nat,
                            ),
                        ),
                        base_log as nat,
                        (level_count - v) as nat,
                    );
                    let d = crate::decomposition::tval(st, base_log as nat);
                    assert(base_log <= 63) by {
                        vstd::arithmetic::mul::lemma_mul_inequality(
                            1,
                            level_count as int,
                            base_log as int,
                        );
                        vstd::arithmetic::mul::lemma_mul_is_commutative(
                            level_count as int,
                            base_log as int,
                        );
                    }
                    crate::decomposition::lemma_tval_range(st, base_log as nat);
                    let word = crate::decomposition::word_modulus();
                    assert(word == vstd::arithmetic::power2::pow2(64)) by {
                        vstd::arithmetic::power2::lemma_pow2_adds(32, 32);
                        vstd::arithmetic::power2::lemma2_to64();
                        vstd::arithmetic::power2::lemma2_to64_rest();
                    }
                    assert(2 * (half_base as int) < word) by {
                        vstd::arithmetic::power2::lemma_pow2_adds((base_log - 1) as nat, 1);
                        vstd::arithmetic::power2::lemma2_to64();
                        vstd::arithmetic::power2::lemma_pow2_strictly_increases(
                            base_log as nat,
                            64,
                        );
                    }
                    assert(digit as int == d % (w as int)) by {
                        if d >= 0 {
                            vstd::arithmetic::div_mod::lemma_small_mod(d as nat, word as nat);
                            vstd::arithmetic::div_mod::lemma_small_mod(d as nat, w as nat);
                        } else {
                            assert((word + d) % word == d % word) by {
                                vstd::arithmetic::div_mod::lemma_mod_multiples_vanish(
                                    1,
                                    d,
                                    word,
                                );
                            }
                            vstd::arithmetic::div_mod::lemma_small_mod(
                                (word + d) as nat,
                                word as nat,
                            );
                            assert(val as int == word + d);
                            assert(((w as int) + d) % (w as int) == d % (w as int)) by {
                                vstd::arithmetic::div_mod::lemma_mod_multiples_vanish(
                                    1,
                                    d,
                                    w as int,
                                );
                            }
                            vstd::arithmetic::div_mod::lemma_small_mod(
                                ((w as int) + d) as nat,
                                w as nat,
                            );
                        }
                    }
                }
                digits[(v - 1) * n + idx] = digit;
                proof {
                    vstd::arithmetic::div_mod::lemma_fundamental_div_mod_converse(
                        (v - 1) as int * n as int + idx as int,
                        n as int,
                        (v - 1) as int,
                        idx as int,
                    );
                    assert forall|u: int|
                        0 <= u < digits_len && u % (n as int) == idx && (v - 1) <= u / (n as int)
                            < level_count implies #[trigger] digits@[u] as int == glwe_ks_digit(
                        input_glwe_ciphertext.data@[i * n + idx],
                        base_log as nat,
                        level_count as nat,
                        (u / (n as int) + 1) as nat,
                        q,
                        w as int,
                    ) by {
                        vstd::arithmetic::div_mod::lemma_fundamental_div_mod(u, n as int);
                        vstd::arithmetic::mul::lemma_mul_is_commutative(u / (n as int), n as int);
                    }
                    crate::decomposition::lemma_state_after_unfold(
                        crate::decomposition::round_div(
                            input_glwe_ciphertext.data@[i * n + idx] as int,
                            crate::decomposition::custom_unit(
                                q,
                                base_log as nat,
                                level_count as nat,
                            ),
                        ),
                        base_log as nat,
                        (level_count - v) as nat,
                    );
                }
                v = v - 1;
            }
            proof {
                assert forall|u: int|
                    0 <= u < digits_len && u % (n as int) < idx + 1 implies #[trigger] digits@[u] as int
                    == glwe_ks_digit(
                    input_glwe_ciphertext.data@[i * n + u % (n as int)],
                    base_log as nat,
                    level_count as nat,
                    (u / (n as int) + 1) as nat,
                    q,
                    w as int,
                ) by {
                    vstd::arithmetic::div_mod::lemma_fundamental_div_mod(u, n as int);
                    vstd::arithmetic::div_mod::lemma_mod_bound(u, n as int);
                    if u / (n as int) >= level_count {
                        vstd::arithmetic::mul::lemma_mul_inequality(
                            level_count as int,
                            u / (n as int),
                            n as int,
                        );
                        vstd::arithmetic::mul::lemma_mul_is_commutative(
                            u / (n as int),
                            n as int,
                        );
                    }
                    if u / (n as int) < 0 {
                        vstd::arithmetic::div_mod::lemma_div_pos_is_pos(u, n as int);
                    }
                }
            }
            idx = idx + 1;
        }
        // subtract digit_v ⊗ ksk ciphertext (i, v) from the output
        let mut v: usize = 1;
        while v <= level_count
            invariant
                1 <= v <= level_count + 1,
                i < gs - 1,
                gs >= 2,
                n >= 1,
                level_count >= 1,
                level_count < 64,
                row_len == gs * n,
                row_len >= n,
                mask_len == row_len - n,
                in_len == input_glwe_ciphertext.data@.len(),
                in_len == row_len,
                i * n + n <= in_len,
                q == m.modulus(),
                digits@.len() == level_count * n,
                digits@.len() == digits_len,
                klen == glwe_keyswitch_key.data@.len(),
                klen == (gs - 1) * level_count * row_len,
                out_len == output_glwe_ciphertext.data@.len(),
                out_len == row_len,
                output_glwe_ciphertext.polynomial_size == old(
                    output_glwe_ciphertext,
                ).polynomial_size,
                output_glwe_ciphertext.ciphertext_modulus == old(
                    output_glwe_ciphertext,
                ).ciphertext_modulus,
                valid_working_modulus(w as int),
                w == m.working_modulus(),
                reduced(digits@, w as int),
                reduced(output_glwe_ciphertext.data@, w as int),
                reduced(glwe_keyswitch_key.data@, w as int),
                forall|u: int|
                    0 <= u < digits_len && u % (n as int) < n ==> #[trigger] digits@[u] as int
                        == glwe_ks_digit(
                        input_glwe_ciphertext.data@[i * n + u % (n as int)],
                        base_log as nat,
                        level_count as nat,
                        (u / (n as int) + 1) as nat,
                        q,
                        w as int,
                    ),
                forall|y: int|
                    0 <= y < row_len ==> #[trigger] output_glwe_ciphertext.data@[y] as int
                        == glwe_ks_acc(
                        (if y < mask_len {
                            0
                        } else {
                            (input_glwe_ciphertext.data@[y] as int)
                        }),
                        input_glwe_ciphertext.data@,
                        glwe_keyswitch_key.data@,
                        base_log as nat,
                        level_count as nat,
                        n as nat,
                        row_len as int,
                        y,
                        (i * level_count + (v - 1)) as nat,
                        q,
                        w as int,
                    ),
            decreases level_count + 1 - v,
        {
            proof {
                vstd::arithmetic::mul::lemma_mul_inequality(v as int, level_count as int, n as int);
                vstd::arithmetic::mul::lemma_mul_inequality(
                    v as int - 1,
                    level_count as int,
                    n as int,
                );
                vstd::arithmetic::mul::lemma_mul_nonnegative(v as int - 1, n as int);
                vstd::arithmetic::mul::lemma_mul_is_distributive_add_other_way(
                    n as int,
                    v as int - 1,
                    1,
                );
                lemma_glwe_ks_row_bound(
                    i as int,
                    v as int,
                    (gs - 1) as int,
                    level_count as int,
                    row_len as int,
                    klen as int,
                );
            }
            let ct_base = (i * level_count + (v - 1)) * row_len;
            let mut rp: usize = 0;
            while rp < gs
                invariant
                    rp <= gs,
                    1 <= v <= level_count,
                    i < gs - 1,
                    gs >= 2,
                    n >= 1,
                    level_count >= 1,
                    row_len == gs * n,
                    mask_len == row_len - n,
                    in_len == input_glwe_ciphertext.data@.len(),
                    in_len == row_len,
                    i * n + n <= in_len,
                    q == m.modulus(),
                    digits@.len() == level_count * n,
                    digits@.len() == digits_len,
                    (v - 1) * n + n <= digits@.len(),
                    ct_base == (i * level_count + (v - 1)) * row_len,
                    ct_base + row_len <= klen,
                    klen == glwe_keyswitch_key.data@.len(),
                    out_len == output_glwe_ciphertext.data@.len(),
                    out_len == row_len,
                    output_glwe_ciphertext.polynomial_size == old(
                        output_glwe_ciphertext,
                    ).polynomial_size,
                    output_glwe_ciphertext.ciphertext_modulus == old(
                        output_glwe_ciphertext,
                    ).ciphertext_modulus,
                    valid_working_modulus(w as int),
                    w == m.working_modulus(),
                    reduced(digits@, w as int),
                    reduced(output_glwe_ciphertext.data@, w as int),
                    reduced(glwe_keyswitch_key.data@, w as int),
                    forall|u: int|
                        0 <= u < digits_len && u % (n as int) < n ==> #[trigger] digits@[u] as int
                            == glwe_ks_digit(
                            input_glwe_ciphertext.data@[i * n + u % (n as int)],
                            base_log as nat,
                            level_count as nat,
                            (u / (n as int) + 1) as nat,
                            q,
                            w as int,
                        ),
                    forall|y: int|
                        0 <= y < rp * n ==> #[trigger] output_glwe_ciphertext.data@[y] as int
                            == glwe_ks_acc(
                            (if y < mask_len {
                                0
                            } else {
                                (input_glwe_ciphertext.data@[y] as int)
                            }),
                            input_glwe_ciphertext.data@,
                            glwe_keyswitch_key.data@,
                            base_log as nat,
                            level_count as nat,
                            n as nat,
                            row_len as int,
                            y,
                            (i * level_count + v) as nat,
                            q,
                            w as int,
                        ),
                    forall|y: int|
                        rp * n <= y < row_len ==> #[trigger] output_glwe_ciphertext.data@[y] as int
                            == glwe_ks_acc(
                            (if y < mask_len {
                                0
                            } else {
                                (input_glwe_ciphertext.data@[y] as int)
                            }),
                            input_glwe_ciphertext.data@,
                            glwe_keyswitch_key.data@,
                            base_log as nat,
                            level_count as nat,
                            n as nat,
                            row_len as int,
                            y,
                            (i * level_count + (v - 1)) as nat,
                            q,
                            w as int,
                        ),
                decreases gs - rp,
            {
                proof {
                    vstd::arithmetic::mul::lemma_mul_inequality(rp as int + 1, gs as int, n as int);
                    vstd::arithmetic::mul::lemma_mul_inequality(rp as int, gs as int, n as int);
                    vstd::arithmetic::mul::lemma_mul_nonnegative(rp as int, n as int);
                    vstd::arithmetic::mul::lemma_mul_is_distributive_add_other_way(
                        n as int,
                        rp as int,
                        1,
                    );
                }
                let prod = poly_product(
                    &digits,
                    (v - 1) * n,
                    &glwe_keyswitch_key.data,
                    ct_base + rp * n,
                    n,
                    w,
                );
                let ghost before_sub = output_glwe_ciphertext.data@;
                poly_sub_assign(&mut output_glwe_ciphertext.data, rp * n, &prod, 0, n, w);
                proof {
                    vstd::arithmetic::div_mod::lemma_fundamental_div_mod_converse(
                        i as int * level_count as int + (v - 1) as int,
                        level_count as int,
                        i as int,
                        (v - 1) as int,
                    );
                    assert forall|y: int|
                        rp * n <= y < rp * n + n
                            implies #[trigger] output_glwe_ciphertext.data@[y] as int
                        == glwe_ks_acc(
                        (if y < mask_len {
                            0
                        } else {
                            (input_glwe_ciphertext.data@[y] as int)
                        }),
                        input_glwe_ciphertext.data@,
                        glwe_keyswitch_key.data@,
                        base_log as nat,
                        level_count as nat,
                        n as nat,
                        row_len as int,
                        y,
                        (i * level_count + v) as nat,
                        q,
                        w as int,
                    ) by {
                        let k = y - rp * n as int;
                        vstd::arithmetic::div_mod::lemma_fundamental_div_mod_converse(
                            y,
                            n as int,
                            rp as int,
                            k,
                        );
                        assert(output_glwe_ciphertext.data@[y] as int == (before_sub[y]
                            - prod@[k]) % (w as int));
                        let dpoly = glwe_ks_digit_poly(
                            input_glwe_ciphertext.data@,
                            i as int,
                            n as nat,
                            base_log as nat,
                            level_count as nat,
                            v as nat,
                            q,
                            w as int,
                        );
                        assert forall|t: int| 0 <= t < n implies #[trigger] digits@[(v - 1) as int
                            * n as int + t] == dpoly[0 + t] by {
                            vstd::arithmetic::div_mod::lemma_fundamental_div_mod_converse(
                                (v - 1) as int * n as int + t,
                                n as int,
                                (v - 1) as int,
                                t,
                            );
                            assert(digits@[(v - 1) as int * n as int + t] as int == glwe_ks_digit(
                                input_glwe_ciphertext.data@[i * n + t],
                                base_log as nat,
                                level_count as nat,
                                v as nat,
                                q,
                                w as int,
                            ));
                        }
                        crate::polynomial::lemma_poly_mul_coeff_window(
                            digits@,
                            (v - 1) as int * n as int,
                            dpoly,
                            0,
                            glwe_keyswitch_key.data@,
                            ct_base as int + rp as int * n as int,
                            n as nat,
                            k,
                            w as int,
                        );
                    }
                }
                rp = rp + 1;
            }
            v = v + 1;
        }
        proof {
            vstd::arithmetic::mul::lemma_mul_is_distributive_add_other_way(
                level_count as int,
                i as int,
                1,
            );
            vstd::arithmetic::mul::lemma_mul_basics(level_count as int);
        }
        i = i + 1;
    }
    proof {
        vstd::arithmetic::mul::lemma_mul_is_commutative((gs - 1) as int, level_count as int);
    }
}

/// An LWE trace-packing keyswitch key: one GLWE keyswitch key per butterfly
/// stage l of the packing, switching a ciphertext automorphed under the
/// exponent 2^(l+1)+1 back to the packing key.
#[derive(Clone, Debug, PartialEq, Eq)]
pub struct LweTracePackingKeyswitchKey {
    pub data: Vec<u64>,
    pub decomp_base_log: DecompositionBaseLog,
    pub decomp_level_count: DecompositionLevelCount,
    pub input_lwe_size: LweSize,
    pub output_glwe_size: GlweSize,
    pub polynomial_size: PolynomialSize,
    pub ciphertext_modulus: CiphertextModulus,
}

impl LweTracePackingKeyswitchKey {
    /// One stored GLWE ciphertext in words.
    pub open spec fn spec_row_len(&self) -> int {
        self.output_glwe_size.0 as int * self.polynomial_size.0 as int
    }

    /// One butterfly stage in words: a full GLWE keyswitch key.
    pub open spec fn spec_stage_len(&self) -> int {
        (self.output_glwe_size.0 - 1) as int * self.decomp_level_count.0 as int
            * self.spec_row_len()
    }

    /// The shape and reduction invariant of a trace-packing key.
    pub open spec fn well_formed(&self) -> bool {
        &&& self.output_glwe_size.0 >= 2
        &&& self.polynomial_size.0 >= 2
        &&& is_power_of_two(self.polynomial_size.0 as int)
        &&& custom_params_ok(
            self.decomp_base_log.0 as nat,
            self.decomp_level_count.0 as nat,
            self.ciphertext_modulus,
        )
        &&& self.spec_stage_len() >= 1
        &&& self.data@.len() as int % self.spec_stage_len() == 0
        &&& reduced(self.data@, self.ciphertext_modulus.working_modulus())
    }

    /// The number of stages the key holds.
    pub open spec fn spec_stage_count(&self) -> int {
        self.data@.len() as int / self.spec_stage_len()
    }

    /// The input LWE size.
    pub fn input_lwe_size(&self) -> (r: LweSize)
        ensures
            r == self.input_lwe_size,
    {
        self.input_lwe_size
    }

    /// The polynomial size.
    pub fn polynomial_size(&self) -> (r: PolynomialSize)
        ensures
            r == self.polynomial_size,
    {
        self.polynomial_size
    }

    /// The output GLWE size.
    pub fn output_glwe_size(&self) -> (r: GlweSize)
        ensures
            r == self.output_glwe_size,
    {
        self.output_glwe_size
    }

    /// The decomposition base log.
    pub fn decomposition_base_log(&self) -> (r: DecompositionBaseLog)
        ensures
            r == self.decomp_base_log,
    {
        self.decomp_base_log
    }

    /// The decomposition level count.
    pub fn decomposition_level_count(&self) -> (r: DecompositionLevelCount)
        ensures
            r == self.decomp_level_count,
    {
        self.decomp_level_count
    }

    /// The ciphertext modulus.
    pub fn ciphertext_modulus(&self) -> (r: CiphertextModulus)
        ensures
            r == self.ciphertext_modulus,
    {
        self.ciphertext_modulus
    }

    /// The butterfly stage l, as a GLWE keyswitch key.
    pub fn get_stage(&self, l: usize) -> (r: GlweKeyswitchKey)
        requires
            self.well_formed(),
            l < self.spec_stage_count(),
            self.spec_stage_len() <= usize::MAX,
        ensures
            r.well_formed(),
            r.decomp_base_log == self.decomp_base_log,
            r.decomp_level_count == self.decomp_level_count,
            r.output_glwe_size == self.output_glwe_size,
            r.polynomial_size == self.polynomial_size,
            r.ciphertext_modulus == self.ciphertext_modulus,
            r.data@.len() == self.spec_stage_len(),
            r.spec_input_dimension() == self.output_glwe_size.0 - 1,
            r.data@.len() == (self.output_glwe_size.0 - 1) * self.decomp_level_count.0
                * self.spec_row_len(),
            r.data@ == self.data@.subrange(
                l as int * self.spec_stage_len(),
                (l as int + 1) * self.spec_stage_len(),
            ),
    {
        let dlen: usize = self.data.len();
        proof {
            lemma_stage_facts(*self, l as int);
        }
        let gs = self.output_glwe_size.0;
        let n = self.polynomial_size.0;
        let stage_len = (gs - 1) * self.decomp_level_count.0 * (gs * n);
        let base = l * stage_len;
        let stage_data = crate::crs_lwe_ciphertext::copy_range(&self.data, base, stage_len);
        proof {
            assert(reduced(stage_data@, self.ciphertext_modulus.working_modulus())) by {
                assert forall|y: int| 0 <= y < stage_data@.len() implies #[trigger] stage_data@[y]
                    < self.ciphertext_modulus.working_modulus() by {
                    assert(stage_data@[y] == self.data@[base + y]);
                }
            }
            lemma_stage_divisible(
                stage_data@.len() as int,
                (gs - 1) as int,
                self.decomp_level_count.0 as int,
                (gs as int) * (n as int),
            );
            assert(stage_data@ =~= self.data@.subrange(
                l as int * self.spec_stage_len(),
                (l as int + 1) * self.spec_stage_len(),
            ));
        }
        GlweKeyswitchKey {
            data: stage_data,
            decomp_base_log: self.decomp_base_log,
            decomp_level_count: self.decomp_level_count,
            output_glwe_size: self.output_glwe_size,
            polynomial_size: self.polynomial_size,
            ciphertext_modulus: self.ciphertext_modulus,
        }
    }
}

/// The length of one stage splits into whole keyswitch ciphertext blocks, and
/// the block count divides back out.
proof fn lemma_stage_divisible(stage_len: int, kdim: int, level_count: int, row_len: int)
    requires
        kdim >= 1,
        level_count >= 1,
        row_len >= 1,
        stage_len == kdim * level_count * row_len,
    ensures
        stage_len % (level_count * row_len) == 0,
        stage_len / (level_count * row_len) == kdim,
    decreases 0int,
{
    let block = level_count * row_len;
    vstd::arithmetic::mul::lemma_mul_strictly_positive(level_count, row_len);
    assert(stage_len == kdim * block) by {
        vstd::arithmetic::mul::lemma_mul_is_associative(kdim, level_count, row_len);
    }
    vstd::arithmetic::mul::lemma_mul_is_commutative(kdim, block);
    vstd::arithmetic::div_mod::lemma_mod_multiples_basic(kdim, block);
    vstd::arithmetic::div_mod::lemma_div_multiples_vanish(kdim, block);
}

/// The slice of a stage lies inside the flat key, and the lengths fit.
proof fn lemma_stage_facts(k: LweTracePackingKeyswitchKey, l: int)
    requires
        k.well_formed(),
        0 <= l < k.spec_stage_count(),
        k.spec_stage_len() <= usize::MAX,
    ensures
        (l + 1) * k.spec_stage_len() <= k.data@.len(),
        l * k.spec_stage_len() >= 0,
        k.spec_stage_len() == ((k.output_glwe_size.0 - 1) as int * k.decomp_level_count.0 as int) * (
        k.output_glwe_size.0 as int * k.polynomial_size.0 as int),
        l * k.spec_stage_len() + k.spec_stage_len() == (l + 1) * k.spec_stage_len(),
        (k.output_glwe_size.0 - 1) as int * k.decomp_level_count.0 as int <= k.spec_stage_len(),
        k.spec_row_len() <= k.spec_stage_len(),
        k.spec_stage_len() <= k.data@.len(),
        1 <= k.spec_row_len(),
    decreases 0int,
{
    let sl = k.spec_stage_len();
    let cnt = k.spec_stage_count();
    let rl = k.spec_row_len();
    let front = (k.output_glwe_size.0 - 1) as int * k.decomp_level_count.0 as int;
    vstd::arithmetic::mul::lemma_mul_strictly_positive(
        k.output_glwe_size.0 as int,
        k.polynomial_size.0 as int,
    );
    vstd::arithmetic::mul::lemma_mul_strictly_positive(
        (k.output_glwe_size.0 - 1) as int,
        k.decomp_level_count.0 as int,
    );
    assert(front <= front * rl) by {
        vstd::arithmetic::mul::lemma_mul_inequality(1, rl, front);
        vstd::arithmetic::mul::lemma_mul_basics(front);
        vstd::arithmetic::mul::lemma_mul_is_commutative(rl, front);
    }
    assert(rl <= front * rl) by {
        vstd::arithmetic::mul::lemma_mul_inequality(1, front, rl);
        vstd::arithmetic::mul::lemma_mul_basics(rl);
    }
    vstd::arithmetic::div_mod::lemma_fundamental_div_mod(k.data@.len() as int, sl);
    assert(k.data@.len() as int == sl * cnt);
    assert((l + 1) * sl <= cnt * sl) by {
        vstd::arithmetic::mul::lemma_mul_inequality(l + 1, cnt, sl);
    }
    vstd::arithmetic::mul::lemma_mul_is_commutative(cnt, sl);
    vstd::arithmetic::mul::lemma_mul_nonnegative(l, sl);
    vstd::arithmetic::mul::lemma_mul_is_distributive_add_other_way(sl, l, 1);
    assert(sl <= cnt * sl) by {
        vstd::arithmetic::mul::lemma_mul_inequality(1, cnt, sl);
        vstd::arithmetic::mul::lemma_mul_basics(sl);
    }
}

/// Build the GLWE secret key that packed ciphertexts decrypt under: the LWE
/// key coefficients, laid out polynomial by polynomial with the negacyclic
/// reversal (constant coefficient kept, higher coefficients reversed and
/// negated modulo the working modulus).
pub fn generate_tpksk_output_glwe_secret_key(
    input_lwe_secret_key: &crate::lwe::LweSecretKey,
    output_glwe_secret_key: &mut GlweSecretKey,
    ciphertext_modulus: CiphertextModulus,
)
    requires
        ciphertext_modulus.well_formed(),
        old(output_glwe_secret_key).well_formed(),
        old(output_glwe_secret_key).polynomial_size.0 >= 1,
        input_lwe_secret_key.data@.len() == old(output_glwe_secret_key).data@.len(),
        crate::lwe::binary_seq(input_lwe_secret_key.data@),
        reduced(old(output_glwe_secret_key).data@, ciphertext_modulus.working_modulus()),
    ensures
        final(output_glwe_secret_key).polynomial_size == old(
            output_glwe_secret_key,
        ).polynomial_size,
        final(output_glwe_secret_key).data@.len() == old(output_glwe_secret_key).data@.len(),
        final(output_glwe_secret_key).well_formed(),
        reduced(final(output_glwe_secret_key).data@, ciphertext_modulus.working_modulus()),
        // within each polynomial, the constant coefficient is carried straight
        // and coefficient c > 0 is the input's coefficient n - c, negated
        forall|t: int|
            0 <= t < old(output_glwe_secret_key).data@.len()
                ==> #[trigger] final(output_glwe_secret_key).data@[t] as int
                == crate::bootstrap::extracted_mask_word(
                input_lwe_secret_key.data@,
                0,
                old(output_glwe_secret_key).polynomial_size.0 as nat,
                t,
                ciphertext_modulus.working_modulus(),
            ),
{
    proof {
        crate::parameters::lemma_modulus_facts(ciphertext_modulus);
        crate::numeric::lemma_working_modulus_valid(ciphertext_modulus);
    }
    let w = ciphertext_modulus.get_working_modulus();
    let n = output_glwe_secret_key.polynomial_size.0;
    let len = output_glwe_secret_key.data.len();
    let polys = len / n;
    proof {
        vstd::arithmetic::div_mod::lemma_fundamental_div_mod(len as int, n as int);
        vstd::arithmetic::mul::lemma_mul_is_commutative(n as int, (len / n) as int);
    }
    let mut p: usize = 0;
    while p < polys
        invariant
            p <= polys,
            n >= 1,
            len == polys * n,
            len == input_lwe_secret_key.data@.len(),
            output_glwe_secret_key.data@.len() == len,
            output_glwe_secret_key.polynomial_size == old(output_glwe_secret_key).polynomial_size,
            crate::lwe::binary_seq(input_lwe_secret_key.data@),
            valid_working_modulus(w as int),
            w == ciphertext_modulus.working_modulus(),
            reduced(output_glwe_secret_key.data@, w as int),
            forall|t: int|
                0 <= t < p * n ==> #[trigger] output_glwe_secret_key.data@[t] as int
                    == crate::bootstrap::extracted_mask_word(
                    input_lwe_secret_key.data@,
                    0,
                    n as nat,
                    t,
                    w as int,
                ),
        decreases polys - p,
    {
        proof {
            vstd::arithmetic::mul::lemma_mul_inequality(p as int + 1, polys as int, n as int);
            vstd::arithmetic::mul::lemma_mul_inequality(p as int, polys as int, n as int);
            vstd::arithmetic::mul::lemma_mul_nonnegative(p as int, n as int);
            vstd::arithmetic::mul::lemma_mul_is_distributive_add_other_way(n as int, p as int, 1);
        }
        let s0 = input_lwe_secret_key.data[p * n];
        output_glwe_secret_key.data[p * n] = s0;
        proof {
            vstd::arithmetic::div_mod::lemma_mod_multiples_basic(p as int, n as int);
            vstd::arithmetic::mul::lemma_mul_is_commutative(p as int, n as int);
        }
        let mut c: usize = 1;
        while c < n
            invariant
                1 <= c <= n,
                p < polys,
                len == polys * n,
                p * n + n <= len,
                len == input_lwe_secret_key.data@.len(),
                output_glwe_secret_key.data@.len() == len,
                output_glwe_secret_key.polynomial_size == old(
                    output_glwe_secret_key,
                ).polynomial_size,
                crate::lwe::binary_seq(input_lwe_secret_key.data@),
                valid_working_modulus(w as int),
                w == ciphertext_modulus.working_modulus(),
                reduced(output_glwe_secret_key.data@, w as int),
                forall|t: int|
                    0 <= t < p * n ==> #[trigger] output_glwe_secret_key.data@[t] as int
                        == crate::bootstrap::extracted_mask_word(
                        input_lwe_secret_key.data@,
                        0,
                        n as nat,
                        t,
                        w as int,
                    ),
                forall|t: int|
                    p * n <= t < p * n + c ==> #[trigger] output_glwe_secret_key.data@[t] as int
                        == crate::bootstrap::extracted_mask_word(
                        input_lwe_secret_key.data@,
                        0,
                        n as nat,
                        t,
                        w as int,
                    ),
            decreases n - c,
        {
            let src = input_lwe_secret_key.data[p * n + (n - c)];
            let v = neg_mod(src, w);
            output_glwe_secret_key.data[p * n + c] = v;
            proof {
                vstd::arithmetic::div_mod::lemma_fundamental_div_mod_converse(
                    p as int * n as int + c as int,
                    n as int,
                    p as int,
                    c as int,
                );
            }
            c = c + 1;
        }
        p = p + 1;
    }
}

/// Fill an LWE trace-packing keyswitch key: stage l holds, for every packing
/// key polynomial and level, a fresh GLWE encryption under the packing key of
/// the automorphed key polynomial (exponent 2^(l+1)+1) scaled by the level's
/// unit.
pub fn generate_lwe_trace_packing_keyswitch_key(
    glwe_secret_key: &GlweSecretKey,
    lwe_tpksk: &mut LweTracePackingKeyswitchKey,
    noise_parameters: StandardDev,
    generator: &mut EncryptionRandomGenerator,
)
    requires
        old(lwe_tpksk).well_formed(),
        glwe_secret_key.well_formed(),
        glwe_secret_key.polynomial_size == old(lwe_tpksk).polynomial_size,
        glwe_secret_key.data@.len() == (old(lwe_tpksk).output_glwe_size.0 - 1)
            * old(lwe_tpksk).polynomial_size.0,
        reduced(glwe_secret_key.data@, old(lwe_tpksk).ciphertext_modulus.working_modulus()),
        noise_parameters.log2_scale <= 64,
        old(lwe_tpksk).spec_stage_count() < 32,
        old(lwe_tpksk).spec_stage_len() <= usize::MAX,
        old(lwe_tpksk).polynomial_size.0 <= 32768,
        old(lwe_tpksk).output_glwe_size.0 as int * old(lwe_tpksk).polynomial_size.0 as int
            <= usize::MAX,
    ensures
        final(lwe_tpksk).decomp_base_log == old(lwe_tpksk).decomp_base_log,
        final(lwe_tpksk).decomp_level_count == old(lwe_tpksk).decomp_level_count,
        final(lwe_tpksk).input_lwe_size == old(lwe_tpksk).input_lwe_size,
        final(lwe_tpksk).output_glwe_size == old(lwe_tpksk).output_glwe_size,
        final(lwe_tpksk).polynomial_size == old(lwe_tpksk).polynomial_size,
        final(lwe_tpksk).ciphertext_modulus == old(lwe_tpksk).ciphertext_modulus,
        final(lwe_tpksk).data@.len() == old(lwe_tpksk).data@.len(),
        final(lwe_tpksk).well_formed(),
{
    let m = lwe_tpksk.ciphertext_modulus;
    let n = lwe_tpksk.polynomial_size.0;
    let gs = lwe_tpksk.output_glwe_size.0;
    let level_count = lwe_tpksk.decomp_level_count.0;
    let base_log = lwe_tpksk.decomp_base_log.0;
    let tlen = lwe_tpksk.data.len();
    proof {
        crate::parameters::lemma_modulus_facts(m);
        crate::numeric::lemma_working_modulus_valid(m);
        lemma_tpksk_gen_bounds(*old(lwe_tpksk));
    }
    let w = m.get_working_modulus();
    let row_len = gs * n;
    let stage_len = (gs - 1) * level_count * row_len;
    let stage_count = tlen / stage_len;
    let kdim = gs - 1;
    proof {
        vstd::arithmetic::div_mod::lemma_fundamental_div_mod(tlen as int, stage_len as int);
        vstd::arithmetic::mul::lemma_mul_is_commutative(stage_len as int, (tlen / stage_len) as int);
    }
    let mut l: usize = 0;
    while l < stage_count
        invariant
            l <= stage_count,
            stage_count < 32,
            n >= 2,
            n <= 32768,
            gs >= 2,
            kdim == gs - 1,
            level_count >= 1,
            level_count < 64,
            base_log >= 1,
            base_log * level_count < 64,
            bpow(base_log as nat, level_count as nat) <= m.modulus(),
            is_power_of_two(n as int),
            row_len == gs * n,
            row_len >= n,
            2 * n <= usize::MAX,
            stage_len == (gs - 1) * level_count * row_len,
            stage_len >= 1,
            tlen == stage_count * stage_len,
            lwe_tpksk.data@.len() == tlen,
            lwe_tpksk.decomp_base_log == old(lwe_tpksk).decomp_base_log,
            lwe_tpksk.decomp_level_count == old(lwe_tpksk).decomp_level_count,
            lwe_tpksk.input_lwe_size == old(lwe_tpksk).input_lwe_size,
            lwe_tpksk.output_glwe_size == old(lwe_tpksk).output_glwe_size,
            lwe_tpksk.polynomial_size == old(lwe_tpksk).polynomial_size,
            lwe_tpksk.ciphertext_modulus == old(lwe_tpksk).ciphertext_modulus,
            base_log == lwe_tpksk.decomp_base_log.0,
            level_count == lwe_tpksk.decomp_level_count.0,
            gs == lwe_tpksk.output_glwe_size.0,
            n == lwe_tpksk.polynomial_size.0,
            m == lwe_tpksk.ciphertext_modulus,
            m.well_formed(),
            glwe_secret_key.polynomial_size == lwe_tpksk.polynomial_size,
            glwe_secret_key.well_formed(),
            glwe_secret_key.data@.len() == kdim * n,
            reduced(glwe_secret_key.data@, w as int),
            noise_parameters.log2_scale <= 64,
            valid_working_modulus(w as int),
            w == m.working_modulus(),
            reduced(lwe_tpksk.data@, w as int),
        decreases stage_count - l,
    {
        // the automorphed packing key for this stage
        let mut twisted = crate::crs_lwe_ciphertext::copy_range(
            &glwe_secret_key.data,
            0,
            glwe_secret_key.data.len(),
        );
        proof {
            assert(reduced(twisted@, w as int)) by {
                assert forall|y: int| 0 <= y < twisted@.len() implies #[trigger] twisted@[y]
                    < w as int by {
                    assert(twisted@[y] == glwe_secret_key.data@[y]);
                }
            }
        }
        let tw_len: usize = twisted.len();
        let base_exp = power_of_two_exponent(l + 1, n);
        proof {
            vstd::arithmetic::div_mod::lemma_add_mod_noop(base_exp as int, 1, 2);
            vstd::arithmetic::div_mod::lemma_mod_bound(1int, 2);
            vstd::arithmetic::div_mod::lemma_small_mod(1nat, 2nat);
            vstd::arithmetic::mul::lemma_mul_upper_bound(
                (base_exp + 1) as int,
                65537int,
                n as int,
                32768int,
            );
            assert(65537int * 32768int == 2147516416int) by (nonlinear_arith);
            assert((base_exp + 1) * n <= 65537int * 32768int);
        }
        let exponent = base_exp + 1;
        proof {
            assert(exponent * n <= usize::MAX);
        }
        let mut kp: usize = 0;
        while kp < kdim
            invariant
                kp <= kdim,
                kdim == gs - 1,
                n >= 2,
                2 * n <= usize::MAX,
                exponent % 2 == 1,
                exponent >= 1,
                exponent * n <= usize::MAX,
                is_power_of_two(n as int),
                twisted@.len() == kdim * n,
                twisted@.len() == tw_len,
                valid_working_modulus(w as int),
                reduced(twisted@, w as int),
            decreases kdim - kp,
        {
            proof {
                vstd::arithmetic::mul::lemma_mul_inequality(kp as int + 1, kdim as int, n as int);
                vstd::arithmetic::mul::lemma_mul_inequality(kp as int, kdim as int, n as int);
                vstd::arithmetic::mul::lemma_mul_nonnegative(kp as int, n as int);
                vstd::arithmetic::mul::lemma_mul_is_distributive_add_other_way(n as int, kp as int, 1);
            }
            poly_automorphism_assign(&mut twisted, kp * n, exponent, n, w);
            kp = kp + 1;
        }
        // encrypt each scaled automorphed key polynomial
        let mut kp2: usize = 0;
        while kp2 < kdim
            invariant
                kp2 <= kdim,
                l < stage_count,
                stage_count < 32,
                kdim == gs - 1,
                n >= 2,
                gs >= 2,
                level_count >= 1,
                level_count < 64,
                base_log >= 1,
                base_log * level_count < 64,
                bpow(base_log as nat, level_count as nat) <= m.modulus(),
                row_len == gs * n,
                row_len >= n,
                stage_len == (gs - 1) * level_count * row_len,
                tlen == stage_count * stage_len,
                lwe_tpksk.data@.len() == tlen,
                lwe_tpksk.decomp_base_log == old(lwe_tpksk).decomp_base_log,
                lwe_tpksk.decomp_level_count == old(lwe_tpksk).decomp_level_count,
                lwe_tpksk.input_lwe_size == old(lwe_tpksk).input_lwe_size,
                lwe_tpksk.output_glwe_size == old(lwe_tpksk).output_glwe_size,
                lwe_tpksk.polynomial_size == old(lwe_tpksk).polynomial_size,
                lwe_tpksk.ciphertext_modulus == old(lwe_tpksk).ciphertext_modulus,
                base_log == lwe_tpksk.decomp_base_log.0,
                level_count == lwe_tpksk.decomp_level_count.0,
                gs == lwe_tpksk.output_glwe_size.0,
                n == lwe_tpksk.polynomial_size.0,
                m == lwe_tpksk.ciphertext_modulus,
                m.well_formed(),
                glwe_secret_key.polynomial_size == lwe_tpksk.polynomial_size,
                glwe_secret_key.well_formed(),
                glwe_secret_key.data@.len() == kdim * n,
                reduced(glwe_secret_key.data@, w as int),
                twisted@.len() == kdim * n,
                twisted@.len() == tw_len,
                reduced(twisted@, w as int),
                noise_parameters.log2_scale <= 64,
                valid_working_modulus(w as int),
                w == m.working_modulus(),
                reduced(lwe_tpksk.data@, w as int),
            decreases kdim - kp2,
        {
            proof {
                vstd::arithmetic::mul::lemma_mul_inequality(kp2 as int + 1, kdim as int, n as int);
                vstd::arithmetic::mul::lemma_mul_inequality(kp2 as int, kdim as int, n as int);
                vstd::arithmetic::mul::lemma_mul_nonnegative(kp2 as int, n as int);
                vstd::arithmetic::mul::lemma_mul_is_distributive_add_other_way(
                    n as int,
                    kp2 as int,
                    1,
                );
            }
            let mut v: usize = 1;
            while v <= level_count
                invariant
                    1 <= v <= level_count + 1,
                    kp2 < kdim,
                    l < stage_count,
                    stage_count < 32,
                    kdim == gs - 1,
                    n >= 2,
                    gs >= 2,
                    level_count >= 1,
                    level_count < 64,
                    base_log >= 1,
                    base_log * level_count < 64,
                    bpow(base_log as nat, level_count as nat) <= m.modulus(),
                    row_len == gs * n,
                    row_len >= n,
                    kp2 * n + n <= kdim * n,
                    stage_len == (gs - 1) * level_count * row_len,
                    tlen == stage_count * stage_len,
                    lwe_tpksk.data@.len() == tlen,
                    lwe_tpksk.decomp_base_log == old(lwe_tpksk).decomp_base_log,
                    lwe_tpksk.decomp_level_count == old(lwe_tpksk).decomp_level_count,
                    lwe_tpksk.input_lwe_size == old(lwe_tpksk).input_lwe_size,
                    lwe_tpksk.output_glwe_size == old(lwe_tpksk).output_glwe_size,
                    lwe_tpksk.polynomial_size == old(lwe_tpksk).polynomial_size,
                    lwe_tpksk.ciphertext_modulus == old(lwe_tpksk).ciphertext_modulus,
                    base_log == lwe_tpksk.decomp_base_log.0,
                    level_count == lwe_tpksk.decomp_level_count.0,
                    gs == lwe_tpksk.output_glwe_size.0,
                    n == lwe_tpksk.polynomial_size.0,
                    m == lwe_tpksk.ciphertext_modulus,
                    m.well_formed(),
                    glwe_secret_key.polynomial_size == lwe_tpksk.polynomial_size,
                    glwe_secret_key.well_formed(),
                    glwe_secret_key.data@.len() == kdim * n,
                    reduced(glwe_secret_key.data@, w as int),
                    twisted@.len() == kdim * n,
                    twisted@.len() == tw_len,
                    reduced(twisted@, w as int),
                    noise_parameters.log2_scale <= 64,
                    valid_working_modulus(w as int),
                    w == m.working_modulus(),
                    reduced(lwe_tpksk.data@, w as int),
                decreases level_count + 1 - v,
            {
                // plaintext: the automorphed key polynomial times the level unit
                let unit = crate::lwe_keyswitch::ksk_plaintext_exec(
                    1u64,
                    base_log,
                    v,
                    level_count,
                    &m,
                );
                let mut row = GlweCiphertext {
                    data: vec_of_zeros(row_len),
                    polynomial_size: lwe_tpksk.polynomial_size,
                    ciphertext_modulus: m,
                };
                proof {
                    lemma_row_div(row_len as int, gs as int, n as int);
                    crate::parameters::lemma_modulus_facts(m);
                    crate::random::lemma_scaled_residue_bound(unit as int, m);
                    assert(m.modulus() <= m.working_modulus()) by {
                        vstd::arithmetic::mul::lemma_mul_inequality(
                            1,
                            m.scaling_to_native_torus(),
                            m.modulus(),
                        );
                        vstd::arithmetic::mul::lemma_mul_basics(m.modulus());
                        vstd::arithmetic::mul::lemma_mul_is_commutative(
                            m.scaling_to_native_torus(),
                            m.modulus(),
                        );
                    }
                }
                // write unit·twisted_kp2 into the body
                let mask_len = row_len - n;
                let mut c: usize = 0;
                while c < n
                    invariant
                        c <= n,
                        n >= 2,
                        mask_len == row_len - n,
                        mask_len >= n,
                        kp2 * n + n <= twisted@.len(),
                        twisted@.len() == tw_len,
                        row.data@.len() == row_len,
                        row.polynomial_size == lwe_tpksk.polynomial_size,
                        row.ciphertext_modulus == m,
                        m.well_formed(),
                        unit < m.working_modulus(),
                        twisted@.len() == kdim * n,
                        reduced(twisted@, w as int),
                        valid_working_modulus(w as int),
                        w == m.working_modulus(),
                        reduced(row.data@, w as int),
                    decreases n - c,
                {
                    let scaled = mul_mod(twisted[kp2 * n + c], unit, w);
                    row.data[mask_len + c] = scaled;
                    c = c + 1;
                }
                proof {
                    lemma_row_wf(row_len as int, n as int, gs as int);
                }
                crate::glwe::encrypt_glwe_ciphertext_assign(
                    glwe_secret_key,
                    &mut row,
                    noise_parameters,
                    generator,
                );
                // store the fresh ciphertext at stage l, polynomial kp2, level v
                proof {
                    lemma_tpksk_slot(
                        l as int,
                        kp2 as int,
                        v as int,
                        stage_count as int,
                        kdim as int,
                        level_count as int,
                        row_len as int,
                        tlen as int,
                    );
                }
                let base = l * stage_len + (kp2 * level_count + (v - 1)) * row_len;
                let ghost before = lwe_tpksk.data@;
                copy_words(&mut lwe_tpksk.data, base, &row.data);
                proof {
                    assert(reduced(lwe_tpksk.data@, w as int)) by {
                        assert forall|y: int| 0 <= y < lwe_tpksk.data@.len()
                            implies #[trigger] lwe_tpksk.data@[y] < w as int by {
                            if base <= y < base + row_len {
                                assert(lwe_tpksk.data@[y] == row.data@[y - base]);
                            } else {
                                assert(lwe_tpksk.data@[y] == before[y]);
                            }
                        }
                    }
                }
                v = v + 1;
            }
            kp2 = kp2 + 1;
        }
        l = l + 1;
    }
}

/// 2^e, saturated at 2n: the automorphism exponent base of a butterfly
/// stage. Degrees act modulo 2n, so the saturation loses nothing.
fn power_of_two_exponent(e: usize, n: usize) -> (r: usize)
    requires
        n >= 2,
        2 * n <= usize::MAX,
        e >= 1,
    ensures
        r >= 2,
        r % 2 == 0,
        r <= 2 * n,
        r as int == tp_exponent_base(e as nat, n as int),
{
    let mut r: usize = 2;
    let mut i: usize = 1;
    while i < e
        invariant
            1 <= i <= e,
            r >= 2,
            r % 2 == 0,
            r <= 2 * n,
            2 * n <= usize::MAX,
            n >= 2,
            r as int == tp_exponent_base(i as nat, n as int),
        decreases e - i,
    {
        if r <= n {
            proof {
                vstd::arithmetic::div_mod::lemma_fundamental_div_mod(r as int, 2);
                vstd::arithmetic::div_mod::lemma_mod_multiples_basic((r as int / 2) * 2, 2);
                vstd::arithmetic::div_mod::lemma_mod_multiples_basic(r as int / 2, 2);
                vstd::arithmetic::mul::lemma_mul_is_commutative(r as int / 2, 2);
            }
            r = r * 2;
        }
        i = i + 1;
    }
    r
}

/// The bounds a well-formed packing key provides for generation.
proof fn lemma_tpksk_gen_bounds(k: LweTracePackingKeyswitchKey)
    requires
        k.well_formed(),
        k.spec_stage_len() <= usize::MAX,
    ensures
        k.decomp_level_count.0 < 64,
        (k.output_glwe_size.0 - 1) as int * k.decomp_level_count.0 as int <= k.spec_stage_len(),
        k.spec_row_len() <= k.spec_stage_len(),
        1 <= k.spec_row_len(),
        k.spec_row_len() >= k.polynomial_size.0,
    decreases 0int,
{
    let b = k.decomp_base_log.0 as int;
    let l = k.decomp_level_count.0 as int;
    vstd::arithmetic::mul::lemma_mul_inequality(1, b, l);
    vstd::arithmetic::mul::lemma_mul_basics(l);
    vstd::arithmetic::mul::lemma_mul_is_commutative(b, l);
    let rl = k.spec_row_len();
    let front = (k.output_glwe_size.0 - 1) as int * k.decomp_level_count.0 as int;
    vstd::arithmetic::mul::lemma_mul_strictly_positive(
        k.output_glwe_size.0 as int,
        k.polynomial_size.0 as int,
    );
    vstd::arithmetic::mul::lemma_mul_strictly_positive(
        (k.output_glwe_size.0 - 1) as int,
        k.decomp_level_count.0 as int,
    );
    assert(front <= front * rl) by {
        vstd::arithmetic::mul::lemma_mul_inequality(1, rl, front);
        vstd::arithmetic::mul::lemma_mul_basics(front);
        vstd::arithmetic::mul::lemma_mul_is_commutative(rl, front);
    }
    assert(rl <= front * rl) by {
        vstd::arithmetic::mul::lemma_mul_inequality(1, front, rl);
        vstd::arithmetic::mul::lemma_mul_basics(rl);
    }
    assert(rl >= k.polynomial_size.0 as int) by {
        vstd::arithmetic::mul::lemma_mul_inequality(
            1,
            k.output_glwe_size.0 as int,
            k.polynomial_size.0 as int,
        );
        vstd::arithmetic::mul::lemma_mul_is_commutative(
            k.polynomial_size.0 as int,
            k.output_glwe_size.0 as int,
        );
        vstd::arithmetic::mul::lemma_mul_basics(k.polynomial_size.0 as int);
    }
}

/// A GLWE row splits into gs polynomials.
proof fn lemma_row_div(row_len: int, gs: int, n: int)
    requires
        n >= 1,
        gs >= 2,
        row_len == gs * n,
    ensures
        row_len % n == 0,
        row_len >= n,
        row_len - n >= n,
    decreases 0int,
{
    vstd::arithmetic::mul::lemma_mul_is_commutative(gs, n);
    vstd::arithmetic::div_mod::lemma_mod_multiples_basic(gs, n);
    vstd::arithmetic::mul::lemma_mul_inequality(2, gs, n);
    vstd::arithmetic::mul::lemma_mul_is_commutative(2, n);
    vstd::arithmetic::mul::lemma_mul_inequality(1, gs, n);
    vstd::arithmetic::mul::lemma_mul_basics(n);
}

/// The GLWE row of a generation step is a well-formed zero ciphertext shape.
proof fn lemma_row_wf(row_len: int, n: int, gs: int)
    requires
        n >= 1,
        gs >= 2,
        row_len == gs * n,
    ensures
        row_len % n == 0,
        row_len >= n,
        row_len - n == (gs - 1) * n,
    decreases 0int,
{
    lemma_row_div(row_len, gs, n);
    vstd::arithmetic::mul::lemma_mul_is_distributive_sub_other_way(n, gs, 1);
    vstd::arithmetic::mul::lemma_mul_basics(n);
}

/// The slot of the ciphertext at stage l, key polynomial kp, level v lies
/// inside the flat packing key.
proof fn lemma_tpksk_slot(
    l: int,
    kp: int,
    v: int,
    stage_count: int,
    kdim: int,
    level_count: int,
    row_len: int,
    tlen: int,
)
    requires
        0 <= l < stage_count,
        0 <= kp < kdim,
        1 <= v <= level_count,
        row_len >= 1,
        tlen == stage_count * (kdim * level_count * row_len),
    ensures
        l * (kdim * level_count * row_len) + (kp * level_count + (v - 1)) * row_len + row_len
            <= tlen,
        l * (kdim * level_count * row_len) >= 0,
        (kp * level_count + (v - 1)) * row_len >= 0,
        l * (kdim * level_count * row_len) <= tlen,
        (kp * level_count + (v - 1)) * row_len <= tlen,
        kp * level_count + (v - 1) >= 0,
        kp * level_count + (v - 1) <= tlen,
    decreases 0int,
{
    let sl = kdim * level_count * row_len;
    vstd::arithmetic::mul::lemma_mul_nonnegative(kdim * level_count, row_len);
    lemma_glwe_ks_row_bound(kp, v, kdim, level_count, row_len, sl);
    vstd::arithmetic::mul::lemma_mul_nonnegative(l, sl);
    assert((l + 1) * sl <= tlen) by {
        vstd::arithmetic::mul::lemma_mul_inequality(l + 1, stage_count, sl);
        vstd::arithmetic::mul::lemma_mul_is_commutative(stage_count, sl);
    }
    vstd::arithmetic::mul::lemma_mul_is_distributive_add_other_way(sl, l, 1);
    vstd::arithmetic::mul::lemma_mul_nonnegative(kp, level_count);
    vstd::arithmetic::mul::lemma_mul_nonnegative(kp * level_count + (v - 1), row_len);
    assert(sl <= tlen) by {
        vstd::arithmetic::mul::lemma_mul_inequality(1, stage_count, sl);
        vstd::arithmetic::mul::lemma_mul_basics(sl);
        vstd::arithmetic::mul::lemma_mul_is_commutative(stage_count, sl);
    }
}

/// Whether any word of the given range is nonzero.
/// The power of two that drives the stage automorphism exponents: doubling
/// from two, e - 1 times, saturating once past n.
pub open spec fn tp_exponent_base(e: nat, n: int) -> int
    decreases e,
{
    if e <= 1 {
        2
    } else {
        let p = tp_exponent_base((e - 1) as nat, n);
        if p <= n {
            2 * p
        } else {
            p
        }
    }
}

/// A GLWE row of the slot state holds only zero words.
pub open spec fn tp_zero_row(s: Seq<u64>, base: int, row_len: int) -> bool {
    forall|y: int| 0 <= y < row_len ==> (#[trigger] s[base + y]) == 0
}

/// The slot state after the first t inputs were scattered: input u lands on
/// the row of slot indices[u], its mask added to the first in_size - 1 words
/// and its body to the constant coefficient of the row's body polynomial.
pub open spec fn tp_scattered(
    list: Seq<u64>,
    in_size: int,
    indices: Seq<usize>,
    t: nat,
    n: nat,
    gs: int,
    w: int,
) -> Seq<u64>
    decreases t,
{
    let row_len = gs * n as int;
    if t == 0 {
        Seq::new((n as int * row_len) as nat, |y: int| 0u64)
    } else {
        let prev = tp_scattered(list, in_size, indices, (t - 1) as nat, n, gs, w);
        let sbase = indices[t - 1] as int * row_len;
        let ibase = (t - 1) as int * in_size;
        Seq::new(
            prev.len(),
            |y: int|
                if sbase <= y < sbase + (in_size - 1) {
                    (((prev[y] + list[ibase + (y - sbase)]) % w) as u64)
                } else if y == sbase + (row_len - n) {
                    (((prev[y] + list[ibase + (in_size - 1)]) % w) as u64)
                } else {
                    prev[y]
                },
        )
    }
}

/// Row j of the slot state, multiplied by X^offset polynomial by polynomial.
pub open spec fn tp_rotated_row(
    pre: Seq<u64>,
    jbase: int,
    n: nat,
    gs: int,
    offset: int,
    w: int,
) -> Seq<u64> {
    Seq::new(
        (gs * n as int) as nat,
        |y: int|
            (crate::polynomial::monomial_shift_coeff(
                pre,
                jbase + (y / n as int) * n as int,
                n,
                offset,
                y % n as int,
                w,
            ) as u64),
    )
}

/// The halved sum of row i of the slot state with a rotated row.
pub open spec fn tp_plus_row(
    pre: Seq<u64>,
    ibase: int,
    rot: Seq<u64>,
    row_len: int,
    inv2: int,
    w: int,
) -> Seq<u64> {
    Seq::new(row_len as nat, |y: int| (((((pre[ibase + y] + rot[y]) % w) * inv2) % w) as u64))
}

/// The halved difference of row i of the slot state with a rotated row.
pub open spec fn tp_minus_row(
    pre: Seq<u64>,
    ibase: int,
    rot: Seq<u64>,
    row_len: int,
    inv2: int,
    w: int,
) -> Seq<u64> {
    Seq::new(row_len as nat, |y: int| (((((pre[ibase + y] - rot[y]) % w) * inv2) % w) as u64))
}

/// The GLWE keyswitch of the row `ct` under a stage key: element y of the
/// exact keyswitch fold.
pub open spec fn tp_ks_row(
    ct: Seq<u64>,
    ksk_data: Seq<u64>,
    b: nat,
    lvl: nat,
    n: nat,
    gs: int,
    q: int,
    w: int,
) -> Seq<u64> {
    let row_len = gs * n as int;
    Seq::new(
        row_len as nat,
        |y: int|
            (glwe_ks_acc(
                (if y < row_len - n {
                    0
                } else {
                    (ct[y] as int)
                }),
                ct,
                ksk_data,
                b,
                lvl,
                n,
                row_len,
                y,
                ((gs - 1) * lvl) as nat,
                q,
                w,
            ) as u64),
    )
}

/// One butterfly pair of a stage: row_i and row_j are the final rows i and
/// i + offset. An all-zero pair stays as it was; otherwise row j becomes its
/// rotation by X^offset, and row i becomes the halved sum plus the GLWE
/// keyswitch, under the stage key, of the automorphed halved difference.
pub open spec fn tp_pair_ok(
    pre: Seq<u64>,
    row_i: Seq<u64>,
    row_j: Seq<u64>,
    i: int,
    offset: int,
    exponent: int,
    ksk_data: Seq<u64>,
    b: nat,
    lvl: nat,
    n: nat,
    gs: int,
    inv2: int,
    q: int,
    w: int,
) -> bool {
    let row_len = gs * n as int;
    let ibase = i * row_len;
    let jbase = (i + offset) * row_len;
    if tp_zero_row(pre, ibase, row_len) && tp_zero_row(pre, jbase, row_len) {
        &&& row_i == pre.subrange(ibase, ibase + row_len)
        &&& row_j == pre.subrange(jbase, jbase + row_len)
    } else {
        let rot = tp_rotated_row(pre, jbase, n, gs, offset, w);
        let plus = tp_plus_row(pre, ibase, rot, row_len, inv2, w);
        let minus = tp_minus_row(pre, ibase, rot, row_len, inv2, w);
        &&& row_j == rot
        &&& (exists|ma: Seq<u64>|
            {
                &&& ma.len() == row_len
                &&& (forall|p: int|
                    0 <= p < gs ==> #[trigger] crate::polynomial::automorphism_image_ok(
                        minus,
                        p * n as int,
                        ma.subrange(p * n as int, p * n as int + n as int),
                        0,
                        n,
                        exponent,
                        w,
                    ))
                &&& row_i == Seq::new(
                    row_len as nat,
                    |y: int|
                        (((plus[y] as int + tp_ks_row(ma, ksk_data, b, lvl, n, gs, q, w)[y]) % w) as u64),
                )
            })
    }
}

/// One butterfly stage: every pair below `offset` transformed, everything
/// from row 2·offset on untouched.
pub open spec fn tp_stage_ok(
    pre: Seq<u64>,
    post: Seq<u64>,
    offset: int,
    exponent: int,
    ksk_data: Seq<u64>,
    b: nat,
    lvl: nat,
    n: nat,
    gs: int,
    inv2: int,
    q: int,
    w: int,
) -> bool {
    let row_len = gs * n as int;
    &&& post.len() == pre.len()
    &&& (forall|i: int|
        0 <= i < offset ==> #[trigger] tp_pair_ok(
            pre,
            post.subrange(i * row_len, i * row_len + row_len),
            post.subrange((i + offset) * row_len, (i + offset) * row_len + row_len),
            i,
            offset,
            exponent,
            ksk_data,
            b,
            lvl,
            n,
            gs,
            inv2,
            q,
            w,
        ))
    &&& (forall|y: int| 2 * offset * row_len <= y < pre.len() ==> post[y] == pre[y])
}

/// The remaining butterfly rounds from stage l on, with the current fold
/// offset: each round is one stage under the stage-l slice of the packing
/// key, with the automorphism exponent 2^(l+1) + 1 (saturating), and the
/// offset halves between rounds.
pub open spec fn tp_rounds_ok(
    start: Seq<u64>,
    fin: Seq<u64>,
    tpksk: LweTracePackingKeyswitchKey,
    l: nat,
    remaining: nat,
    offset: int,
) -> bool
    decreases remaining,
{
    if remaining == 0 {
        fin == start
    } else {
        exists|mid: Seq<u64>|
            {
                &&& #[trigger] tp_stage_ok(
                    start,
                    mid,
                    offset,
                    tp_exponent_base((l + 1) as nat, tpksk.polynomial_size.0 as int) + 1,
                    tpksk.data@.subrange(
                        l as int * tpksk.spec_stage_len(),
                        (l as int + 1) * tpksk.spec_stage_len(),
                    ),
                    tpksk.decomp_base_log.0 as nat,
                    tpksk.decomp_level_count.0 as nat,
                    tpksk.polynomial_size.0 as nat,
                    tpksk.output_glwe_size.0 as int,
                    (tpksk.ciphertext_modulus.modulus() + 1) / 2,
                    tpksk.ciphertext_modulus.modulus(),
                    tpksk.ciphertext_modulus.working_modulus(),
                )
                &&& tp_rounds_ok(mid, fin, tpksk, (l + 1) as nat, (remaining - 1) as nat, offset / 2)
            }
    }
}

fn range_has_nonzero(v: &Vec<u64>, off: usize, len: usize) -> (r: bool)
    requires
        off + len <= v@.len(),
    ensures
        (!r) <==> tp_zero_row(v@, off as int, len as int),
{
    let vlen = v.len();
    let mut i: usize = 0;
    let mut found = false;
    while i < len
        invariant
            i <= len,
            off + len <= v@.len(),
            v@.len() == vlen,
            (!found) <==> (forall|y: int| 0 <= y < i ==> (#[trigger] v@[off + y]) == 0),
        decreases len - i,
    {
        if v[off + i] != 0 {
            found = true;
        }
        i = i + 1;
    }
    found
}

/// Pack a list of LWE ciphertexts into one GLWE ciphertext at the chosen
/// coefficient slots: scatter each input onto its slot, then fold the slots
/// together through log2(N) butterfly rounds of rotation, halving, the ring
/// automorphism of the round, and a GLWE keyswitch; slot zero ends up holding
/// the packed ciphertext and is copied to the output. The ciphertext modulus
/// must be odd, so that two is invertible. The polynomial size is capped at
/// 32768 and the stage count below 32 so that every slot and exponent
/// computation stays inside a 32-bit `usize`.
pub fn trace_packing_keyswitch_lwe_ciphertext_list_into_glwe_ciphertext(
    lwe_tpksk: &LweTracePackingKeyswitchKey,
    output_glwe_ciphertext: &mut GlweCiphertext,
    input_lwe_ciphertext_list: &LweCiphertextList,
    indices: Vec<usize>,
)
    requires
        lwe_tpksk.well_formed(),
        old(output_glwe_ciphertext).well_formed(),
        input_lwe_ciphertext_list.well_formed(),
        lwe_tpksk.ciphertext_modulus.modulus() % 2 == 1,
        old(output_glwe_ciphertext).ciphertext_modulus == lwe_tpksk.ciphertext_modulus,
        input_lwe_ciphertext_list.ciphertext_modulus == lwe_tpksk.ciphertext_modulus,
        old(output_glwe_ciphertext).polynomial_size == lwe_tpksk.polynomial_size,
        old(output_glwe_ciphertext).data@.len() == lwe_tpksk.spec_row_len(),
        input_lwe_ciphertext_list.lwe_size == lwe_tpksk.input_lwe_size,
        lwe_tpksk.input_lwe_size.0 >= 2,
        lwe_tpksk.input_lwe_size.0 - 1 <= (lwe_tpksk.output_glwe_size.0 - 1)
            * lwe_tpksk.polynomial_size.0,
        indices@.len() == input_lwe_ciphertext_list.spec_count(),
        indices@.len() <= lwe_tpksk.polynomial_size.0,
        forall|t: int|
            0 <= t < indices@.len() ==> #[trigger] indices@[t] < lwe_tpksk.polynomial_size.0,
        lwe_tpksk.polynomial_size.0 <= 32768,
        lwe_tpksk.spec_stage_len() <= usize::MAX,
        lwe_tpksk.spec_stage_count() <= 32,
        lwe_tpksk.polynomial_size.0 as int * lwe_tpksk.spec_row_len() <= usize::MAX,
    ensures
        final(output_glwe_ciphertext).polynomial_size == old(
            output_glwe_ciphertext,
        ).polynomial_size,
        final(output_glwe_ciphertext).ciphertext_modulus == old(
            output_glwe_ciphertext,
        ).ciphertext_modulus,
        final(output_glwe_ciphertext).data@.len() == old(output_glwe_ciphertext).data@.len(),
        final(output_glwe_ciphertext).well_formed(),
        // the output is the first row of the slot state that the butterfly
        // rounds reach from the scattered inputs: a function of the key, the
        // list and the indices alone
        exists|fin: Seq<u64>|
            {
                &&& #[trigger] tp_rounds_ok(
                    tp_scattered(
                        input_lwe_ciphertext_list.data@,
                        lwe_tpksk.input_lwe_size.0 as int,
                        indices@,
                        indices@.len(),
                        lwe_tpksk.polynomial_size.0 as nat,
                        lwe_tpksk.output_glwe_size.0 as int,
                        lwe_tpksk.ciphertext_modulus.working_modulus(),
                    ),
                    fin,
                    *lwe_tpksk,
                    0,
                    lwe_tpksk.spec_stage_count() as nat,
                    lwe_tpksk.polynomial_size.0 as int / 2,
                )
                &&& fin.len() == lwe_tpksk.polynomial_size.0 as int * lwe_tpksk.spec_row_len()
                &&& (forall|y: int|
                    0 <= y < lwe_tpksk.spec_row_len()
                        ==> final(output_glwe_ciphertext).data@[y] == fin[y])
            },
{
    let m = lwe_tpksk.ciphertext_modulus;
    let n = lwe_tpksk.polynomial_size.0;
    let gs = lwe_tpksk.output_glwe_size.0;
    let level_count = lwe_tpksk.decomp_level_count.0;
    proof {
        crate::parameters::lemma_modulus_facts(m);
        crate::numeric::lemma_working_modulus_valid(m);
        lemma_tpksk_gen_bounds(*lwe_tpksk);
    }
    let w = m.get_working_modulus();
    let row_len = gs * n;
    let mask_len = row_len - n;
    let in_size = lwe_tpksk.input_lwe_size.0;
    let in_dim = in_size - 1;
    let count = indices.len();
    let stage_count_all = lwe_tpksk.data.len() / ((gs - 1) * level_count * row_len);
    proof {
        vstd::arithmetic::mul::lemma_mul_inequality(1, gs as int, n as int);
        vstd::arithmetic::mul::lemma_mul_is_commutative(gs as int, n as int);
        vstd::arithmetic::mul::lemma_mul_basics(n as int);
        vstd::arithmetic::mul::lemma_mul_is_distributive_sub_other_way(n as int, gs as int, 1);
        lemma_list_slots(
            input_lwe_ciphertext_list.lwe_size.0 as int,
            input_lwe_ciphertext_list.data@.len() as int,
            indices@.len() as int,
        );
    }
    // the N working slots, one GLWE row each
    let mut slots = vec_of_zeros(n * row_len);
    let slots_len: usize = slots.len();
    let list_len: usize = input_lwe_ciphertext_list.data.len();
    proof {
        assert(slots@ =~= tp_scattered(
            input_lwe_ciphertext_list.data@,
            in_size as int,
            indices@,
            0,
            n as nat,
            gs as int,
            w as int,
        ));
    }
    // scatter each input ciphertext onto its slot
    let mut t: usize = 0;
    while t < count
        invariant
            t <= count,
            count == indices@.len(),
            count as int == input_lwe_ciphertext_list.spec_count(),
            in_size == input_lwe_ciphertext_list.lwe_size.0,
            in_size >= 2,
            in_dim == in_size - 1,
            in_dim <= mask_len,
            n >= 2,
            gs >= 2,
            row_len == gs * n,
            row_len >= n,
            mask_len == row_len - n,
            slots@.len() == slots_len,
            slots_len == n * row_len,
            list_len == input_lwe_ciphertext_list.data@.len(),
            count * in_size <= list_len,
            forall|u: int| 0 <= u < count ==> #[trigger] indices@[u] < n,
            valid_working_modulus(w as int),
            w == m.working_modulus(),
            reduced(slots@, w as int),
            reduced(input_lwe_ciphertext_list.data@, w as int),
            slots@ == tp_scattered(
                input_lwe_ciphertext_list.data@,
                in_size as int,
                indices@,
                t as nat,
                n as nat,
                gs as int,
                w as int,
            ),
        decreases count - t,
    {
        proof {
            vstd::arithmetic::mul::lemma_mul_inequality(t as int + 1, count as int, in_size as int);
            vstd::arithmetic::mul::lemma_mul_inequality(t as int, count as int, in_size as int);
            vstd::arithmetic::mul::lemma_mul_nonnegative(t as int, in_size as int);
            vstd::arithmetic::mul::lemma_mul_is_distributive_add_other_way(
                in_size as int,
                t as int,
                1,
            );
            vstd::arithmetic::mul::lemma_mul_inequality(
                indices@[t as int] as int + 1,
                n as int,
                row_len as int,
            );
            vstd::arithmetic::mul::lemma_mul_inequality(
                indices@[t as int] as int,
                n as int,
                row_len as int,
            );
            vstd::arithmetic::mul::lemma_mul_nonnegative(indices@[t as int] as int, row_len as int);
            vstd::arithmetic::mul::lemma_mul_is_distributive_add_other_way(
                row_len as int,
                indices@[t as int] as int,
                1,
            );
            vstd::arithmetic::mul::lemma_mul_is_commutative(n as int, row_len as int);
        }
        let slot = indices[t];
        let sbase = slot * row_len;
        let ibase = t * in_size;
        let ghost prev = slots@;
        let mut x: usize = 0;
        while x < in_dim
            invariant
                x <= in_dim,
                in_dim < in_size,
                in_dim <= mask_len,
                sbase + row_len <= slots_len,
                mask_len < row_len,
                ibase + in_size <= list_len,
                slots@.len() == slots_len,
                prev.len() == slots_len,
                list_len == input_lwe_ciphertext_list.data@.len(),
                valid_working_modulus(w as int),
                reduced(slots@, w as int),
                reduced(input_lwe_ciphertext_list.data@, w as int),
                forall|y: int|
                    0 <= y < x ==> #[trigger] slots@[sbase + y] as int == (prev[sbase + y]
                        + input_lwe_ciphertext_list.data@[ibase + y]) % (w as int),
                forall|y: int|
                    0 <= y < slots_len && !(sbase <= y < sbase + x) ==> #[trigger] slots@[y]
                        == prev[y],
            decreases in_dim - x,
        {
            let v = add_mod(slots[sbase + x], input_lwe_ciphertext_list.data[ibase + x], w);
            slots[sbase + x] = v;
            x = x + 1;
        }
        let body = add_mod(
            slots[sbase + mask_len],
            input_lwe_ciphertext_list.data[ibase + in_dim],
            w,
        );
        slots[sbase + mask_len] = body;
        proof {
            assert(slots@ =~= tp_scattered(
                input_lwe_ciphertext_list.data@,
                in_size as int,
                indices@,
                (t + 1) as nat,
                n as nat,
                gs as int,
                w as int,
            )) by {
                assert forall|y: int| 0 <= y < slots_len implies slots@[y] == tp_scattered(
                    input_lwe_ciphertext_list.data@,
                    in_size as int,
                    indices@,
                    (t + 1) as nat,
                    n as nat,
                    gs as int,
                    w as int,
                )[y] by {
                    if sbase <= y < sbase + in_dim {
                        let y2 = y - sbase;
                        assert(slots@[sbase + y2] as int == (prev[sbase + y2]
                            + input_lwe_ciphertext_list.data@[ibase + y2]) % (w as int));
                        assert(sbase + y2 == y);
                    }
                }
            }
        }
        t = t + 1;
    }
    // the halving constant: the inverse of two modulo the odd modulus
    let inv2: u64 = (((m.get() + 1) / 2) as u64);
    proof {
        lemma_inv2_reduced(m);
    }
    let ghost scattered0 = slots@;
    // the butterfly rounds
    let mut offset: usize = n / 2;
    let mut l: usize = 0;
    while l < stage_count_all
        invariant
            l <= stage_count_all,
            stage_count_all == lwe_tpksk.spec_stage_count(),
            stage_count_all <= 32,
            lwe_tpksk.well_formed(),
            lwe_tpksk.spec_stage_len() <= usize::MAX,
            n == lwe_tpksk.polynomial_size.0,
            gs == lwe_tpksk.output_glwe_size.0,
            level_count == lwe_tpksk.decomp_level_count.0,
            m == lwe_tpksk.ciphertext_modulus,
            m.well_formed(),
            n >= 2,
            n <= 32768,
            gs >= 2,
            is_power_of_two(n as int),
            row_len == gs * n,
            row_len >= n,
            row_len == lwe_tpksk.spec_row_len(),
            mask_len == row_len - n,
            offset <= n / 2,
            slots@.len() == slots_len,
            slots_len == n * row_len,
            scattered0.len() == slots_len,
            inv2 < w,
            inv2 as int == (m.modulus() + 1) / 2,
            output_glwe_ciphertext.polynomial_size == old(output_glwe_ciphertext).polynomial_size,
            output_glwe_ciphertext.ciphertext_modulus == old(
                output_glwe_ciphertext,
            ).ciphertext_modulus,
            output_glwe_ciphertext.data@.len() == old(output_glwe_ciphertext).data@.len(),
            output_glwe_ciphertext.data@.len() == row_len,
            valid_working_modulus(w as int),
            w == m.working_modulus(),
            reduced(slots@, w as int),
            forall|fin: Seq<u64>|
                tp_rounds_ok(
                    slots@,
                    fin,
                    *lwe_tpksk,
                    l as nat,
                    (stage_count_all - l) as nat,
                    offset as int,
                ) ==> #[trigger] tp_rounds_ok(
                    scattered0,
                    fin,
                    *lwe_tpksk,
                    0,
                    stage_count_all as nat,
                    (n / 2) as int,
                ),
        decreases stage_count_all - l,
    {
        let ghost stage_pre = slots@;
        let stage_ksk = lwe_tpksk.get_stage(l);
        let base_exp = power_of_two_exponent(l + 1, n);
        proof {
            vstd::arithmetic::div_mod::lemma_add_mod_noop(base_exp as int, 1, 2);
            vstd::arithmetic::div_mod::lemma_small_mod(1nat, 2nat);
            vstd::arithmetic::mul::lemma_mul_upper_bound(
                (base_exp + 1) as int,
                65537int,
                n as int,
                32768int,
            );
            assert(65537int * 32768int == 2147516416int) by (nonlinear_arith);
        }
        let exponent = base_exp + 1;
        if offset >= 1 {
            proof {
                vstd::arithmetic::div_mod::lemma_fundamental_div_mod(n as int, 2);
                vstd::arithmetic::div_mod::lemma_mod_bound(n as int, 2);
                vstd::arithmetic::mul::lemma_mul_inequality(
                    2 * offset as int,
                    n as int,
                    row_len as int,
                );
                vstd::arithmetic::mul::lemma_mul_is_commutative(n as int, row_len as int);
            }
            let mut i: usize = 0;
            while i < offset
                invariant
                    i <= offset,
                    1 <= offset,
                    offset <= n / 2,
                    l < stage_count_all,
                    stage_ksk.well_formed(),
                    stage_ksk.polynomial_size.0 == n,
                    stage_ksk.output_glwe_size.0 == gs,
                    stage_ksk.ciphertext_modulus == m,
                    stage_ksk.spec_input_dimension() == gs - 1,
                    stage_ksk.data@.len() == (gs - 1) * stage_ksk.decomp_level_count.0 * (gs as int
                        * n as int),
                    lwe_tpksk.polynomial_size.0 == n,
                    lwe_tpksk.ciphertext_modulus == m,
                    stage_ksk.polynomial_size == lwe_tpksk.polynomial_size,
                    m.well_formed(),
                    n >= 2,
                    n <= 32768,
                    gs >= 2,
                    is_power_of_two(n as int),
                    exponent % 2 == 1,
                    exponent >= 1,
                    exponent * n <= usize::MAX,
                    row_len == gs * n,
                    row_len >= n,
                    mask_len == row_len - n,
                    slots@.len() == slots_len,
                    slots_len == n * row_len,
                    inv2 < w,
                    valid_working_modulus(w as int),
                    w == m.working_modulus(),
                    reduced(slots@, w as int),
                    stage_pre.len() == slots_len,
                    2 * offset * row_len <= slots_len,
                    forall|i2: int|
                        0 <= i2 < i ==> #[trigger] tp_pair_ok(
                            stage_pre,
                            slots@.subrange(
                                i2 * row_len as int,
                                i2 * row_len as int + row_len as int,
                            ),
                            slots@.subrange(
                                (i2 + offset) * row_len as int,
                                (i2 + offset) * row_len as int + row_len as int,
                            ),
                            i2,
                            offset as int,
                            exponent as int,
                            stage_ksk.data@,
                            stage_ksk.decomp_base_log.0 as nat,
                            stage_ksk.decomp_level_count.0 as nat,
                            n as nat,
                            gs as int,
                            inv2 as int,
                            m.modulus(),
                            w as int,
                        ),
                    forall|y: int|
                        i * row_len <= y < offset * row_len ==> #[trigger] slots@[y]
                            == stage_pre[y],
                    forall|y: int|
                        (i + offset) * row_len <= y < slots_len ==> #[trigger] slots@[y]
                            == stage_pre[y],
                decreases offset - i,
            {
                proof {
                    lemma_pair_slots(i as int, offset as int, n as int, row_len as int);
                    vstd::arithmetic::mul::lemma_mul_is_distributive_add_other_way(
                        row_len as int,
                        i as int,
                        1,
                    );
                    vstd::arithmetic::mul::lemma_mul_is_distributive_add_other_way(
                        row_len as int,
                        i as int + offset as int,
                        1,
                    );
                    vstd::arithmetic::mul::lemma_mul_inequality(
                        i as int + 1,
                        offset as int,
                        row_len as int,
                    );
                }
                let j = i + offset;
                let ibase = i * row_len;
                let jbase = j * row_len;
                let ghost pair_pre = slots@;
                proof {
                    // the two rows of the pair are still what the stage began
                    // with
                    assert forall|y: int|
                        0 <= y < row_len implies #[trigger] pair_pre[ibase + y] == stage_pre[ibase
                        + y] && pair_pre[jbase + y] == stage_pre[jbase + y] by {
                        assert(slots@[ibase + y] == stage_pre[ibase + y]);
                        assert(slots@[jbase + y] == stage_pre[jbase + y]);
                    }
                }
                let nz_i = range_has_nonzero(&slots, ibase, row_len);
                let nz_j = range_has_nonzero(&slots, jbase, row_len);
                if nz_i || nz_j {
                    // rotate slot j by X^offset, polynomial by polynomial
                    let ghost rot_pre = slots@;
                    let mut p: usize = 0;
                    while p < gs
                        invariant
                            p <= gs,
                            jbase + row_len <= slots_len,
                            offset < n,
                            1 <= offset,
                            n >= 1,
                            gs >= 1,
                            row_len == gs * n,
                            slots@.len() == slots_len,
                            rot_pre.len() == slots_len,
                            stage_pre.len() == slots_len,
                            valid_working_modulus(w as int),
                            reduced(slots@, w as int),
                            forall|y: int|
                                0 <= y < slots_len && !(jbase <= y < jbase + row_len)
                                    ==> #[trigger] slots@[y] == rot_pre[y],
                            forall|u: int|
                                0 <= u < p * n ==> #[trigger] slots@[jbase + u] as int
                                    == crate::polynomial::monomial_shift_coeff(
                                    stage_pre,
                                    jbase + (u / n as int) * n as int,
                                    n as nat,
                                    offset as int,
                                    u % n as int,
                                    w as int,
                                ),
                            forall|u: int|
                                p * n <= u < row_len ==> #[trigger] slots@[jbase + u]
                                    == stage_pre[jbase + u],
                        decreases gs - p,
                    {
                        proof {
                            vstd::arithmetic::mul::lemma_mul_inequality(
                                p as int + 1,
                                gs as int,
                                n as int,
                            );
                            vstd::arithmetic::mul::lemma_mul_inequality(p as int, gs as int, n as int);
                            vstd::arithmetic::mul::lemma_mul_nonnegative(p as int, n as int);
                            vstd::arithmetic::mul::lemma_mul_is_distributive_add_other_way(
                                n as int,
                                p as int,
                                1,
                            );
                        }
                        let ghost call_pre = slots@;
                        if offset > 0 {
                            crate::polynomial::poly_monomial_mul_assign(
                                &mut slots,
                                jbase + p * n,
                                offset,
                                n,
                                w,
                            );
                        }
                        proof {
                            assert forall|u: int|
                                0 <= u < (p + 1) * n implies #[trigger] slots@[jbase + u] as int
                                == crate::polynomial::monomial_shift_coeff(
                                stage_pre,
                                jbase + (u / n as int) * n as int,
                                n as nat,
                                offset as int,
                                u % n as int,
                                w as int,
                            ) by {
                                if u < p * n {
                                    assert(slots@[jbase + u] == call_pre[jbase + u]);
                                } else {
                                    let x = u - p * (n as int);
                                    vstd::arithmetic::div_mod::lemma_fundamental_div_mod_converse(
                                        u,
                                        n as int,
                                        p as int,
                                        x,
                                    );
                                    if x >= offset {
                                        let src = p * (n as int) + x - offset;
                                        assert(call_pre[jbase + src] == stage_pre[jbase + src]);
                                        assert((jbase + p * n) + x - offset == jbase + src);
                                    } else {
                                        let src = p * (n as int) + (n as int) + x - offset;
                                        assert(call_pre[jbase + src] == stage_pre[jbase + src]);
                                        assert((jbase + p * n) + (n as int) + x - offset == jbase
                                            + src);
                                    }
                                }
                            }
                        }
                        p = p + 1;
                    }
                    let ghost rot = tp_rotated_row(
                        stage_pre,
                        jbase as int,
                        n as nat,
                        gs as int,
                        offset as int,
                        w as int,
                    );
                    proof {
                        assert forall|y: int|
                            0 <= y < row_len implies #[trigger] slots@[jbase + y] == rot[y] by {}
                    }
                    // sum and difference, halved
                    let jcopy = crate::crs_lwe_ciphertext::copy_range(&slots, jbase, row_len);
                    let mut plus = crate::crs_lwe_ciphertext::copy_range(&slots, ibase, row_len);
                    let mut minus = crate::crs_lwe_ciphertext::copy_range(&slots, ibase, row_len);
                    proof {
                        lemma_copied_rows_reduced(slots@, jcopy@, jbase as int, row_len as int, w as int);
                        lemma_copied_rows_reduced(slots@, plus@, ibase as int, row_len as int, w as int);
                        lemma_copied_rows_reduced(slots@, minus@, ibase as int, row_len as int, w as int);
                        assert(jcopy@ =~= rot);
                        vstd::arithmetic::mul::lemma_mul_inequality(
                            i as int + 1,
                            i as int + offset as int,
                            row_len as int,
                        );
                        assert forall|y: int|
                            0 <= y < row_len implies #[trigger] plus@[y] == stage_pre[ibase
                            + y] by {
                            assert(plus@[y] == slots@[ibase + y]);
                            assert(slots@[ibase + y] == rot_pre[ibase + y]);
                            assert(pair_pre[ibase + y] == stage_pre[ibase + y]);
                        }
                        assert(minus@ =~= plus@);
                    }
                    let ghost row_i_pre = plus@;
                    poly_add_assign(&mut plus, 0, &jcopy, 0, row_len, w);
                    let ghost plus_add = plus@;
                    poly_sub_assign(&mut minus, 0, &jcopy, 0, row_len, w);
                    let ghost minus_sub = minus@;
                    poly_scalar_mul_assign(&mut plus, 0, inv2, row_len, w);
                    poly_scalar_mul_assign(&mut minus, 0, inv2, row_len, w);
                    let ghost plus_half = plus@;
                    let ghost minus_half = minus@;
                    proof {
                        assert(plus_half =~= tp_plus_row(
                            stage_pre,
                            ibase as int,
                            rot,
                            row_len as int,
                            inv2 as int,
                            w as int,
                        )) by {
                            assert forall|y: int|
                                0 <= y < row_len implies plus_half[y] == tp_plus_row(
                                stage_pre,
                                ibase as int,
                                rot,
                                row_len as int,
                                inv2 as int,
                                w as int,
                            )[y] by {
                                assert(row_i_pre[0 + y] == stage_pre[ibase + y]);
                                assert(jcopy@[0 + y] == rot[y]);
                                assert(plus_add[0 + y] == (row_i_pre[0 + y] + jcopy@[0 + y]) % (
                                w as int));
                                assert(plus_half[0 + y] == (plus_add[0 + y] * inv2) % (w as int));
                            }
                        }
                        assert(minus_half =~= tp_minus_row(
                            stage_pre,
                            ibase as int,
                            rot,
                            row_len as int,
                            inv2 as int,
                            w as int,
                        )) by {
                            assert forall|y: int|
                                0 <= y < row_len implies minus_half[y] == tp_minus_row(
                                stage_pre,
                                ibase as int,
                                rot,
                                row_len as int,
                                inv2 as int,
                                w as int,
                            )[y] by {
                                assert(row_i_pre[0 + y] == stage_pre[ibase + y]);
                                assert(jcopy@[0 + y] == rot[y]);
                                assert(minus_sub[0 + y] == (row_i_pre[0 + y] - jcopy@[0 + y]) % (
                                w as int));
                                assert(minus_half[0 + y] == (minus_sub[0 + y] * inv2) % (w as int));
                            }
                        }
                    }
                    // automorphism on the difference half
                    let mut p2: usize = 0;
                    while p2 < gs
                        invariant
                            p2 <= gs,
                            minus@.len() == row_len,
                            minus_half.len() == row_len,
                            n >= 2,
                            n <= 32768,
                            gs >= 1,
                            is_power_of_two(n as int),
                            exponent % 2 == 1,
                            exponent >= 1,
                            exponent * n <= usize::MAX,
                            row_len == gs * n,
                            valid_working_modulus(w as int),
                            reduced(minus@, w as int),
                            forall|pp: int|
                                0 <= pp < p2 ==> #[trigger] crate::polynomial::automorphism_image_ok(
                                    minus_half,
                                    pp * n as int,
                                    minus@.subrange(pp * n as int, pp * n as int + n as int),
                                    0,
                                    n as nat,
                                    exponent as int,
                                    w as int,
                                ),
                            forall|u: int|
                                p2 * n <= u < row_len ==> #[trigger] minus@[u] == minus_half[u],
                        decreases gs - p2,
                    {
                        proof {
                            vstd::arithmetic::mul::lemma_mul_inequality(
                                p2 as int + 1,
                                gs as int,
                                n as int,
                            );
                            vstd::arithmetic::mul::lemma_mul_inequality(p2 as int, gs as int, n as int);
                            vstd::arithmetic::mul::lemma_mul_nonnegative(p2 as int, n as int);
                            vstd::arithmetic::mul::lemma_mul_is_distributive_add_other_way(
                                n as int,
                                p2 as int,
                                1,
                            );
                        }
                        let ghost auto_pre = minus@;
                        poly_automorphism_assign(&mut minus, p2 * n, exponent, n, w);
                        proof {
                            assert forall|pp: int|
                                0 <= pp < p2 + 1 implies #[trigger] crate::polynomial::automorphism_image_ok(
                                minus_half,
                                pp * n as int,
                                minus@.subrange(pp * n as int, pp * n as int + n as int),
                                0,
                                n as nat,
                                exponent as int,
                                w as int,
                            ) by {
                                vstd::arithmetic::mul::lemma_mul_nonnegative(pp, n as int);
                                vstd::arithmetic::mul::lemma_mul_is_distributive_add_other_way(
                                    n as int,
                                    pp,
                                    1,
                                );
                                vstd::arithmetic::mul::lemma_mul_inequality(
                                    pp + 1,
                                    p2 as int + 1,
                                    n as int,
                                );
                                if pp < p2 {
                                    vstd::arithmetic::mul::lemma_mul_inequality(
                                        pp + 1,
                                        p2 as int,
                                        n as int,
                                    );
                                    assert(minus@.subrange(pp * n as int, pp * n as int + n as int)
                                        =~= auto_pre.subrange(
                                        pp * n as int,
                                        pp * n as int + n as int,
                                    ));
                                } else {
                                    assert forall|ii: int| 0 <= ii < n implies {
                                        let pos = (#[trigger] (ii * exponent as int)) % (2
                                            * n as int);
                                        if pos < n as int {
                                            minus@.subrange(
                                                p2 as int * n as int,
                                                p2 as int * n as int + n as int,
                                            )[pos] == minus_half[p2 as int * n as int + ii] as int
                                        } else {
                                            minus@.subrange(
                                                p2 as int * n as int,
                                                p2 as int * n as int + n as int,
                                            )[pos - n as int] == (0 - minus_half[p2 as int
                                                * n as int + ii]) % (w as int)
                                        }
                                    } by {
                                        assert(auto_pre[p2 as int * n as int + ii] == minus_half[
                                            p2 as int * n as int + ii]);
                                    }
                                }
                            }
                        }
                        p2 = p2 + 1;
                    }
                    // keyswitch the automorphed difference back under the packing key
                    let ghost after_rot = slots@;
                    let minus_ct = GlweCiphertext {
                        data: minus,
                        polynomial_size: lwe_tpksk.polynomial_size,
                        ciphertext_modulus: m,
                    };
                    let mut ks_out = GlweCiphertext {
                        data: vec_of_zeros(row_len),
                        polynomial_size: lwe_tpksk.polynomial_size,
                        ciphertext_modulus: m,
                    };
                    proof {
                        lemma_row_div(row_len as int, gs as int, n as int);
                        vstd::arithmetic::mul::lemma_mul_is_commutative(gs as int, n as int);
                        vstd::arithmetic::div_mod::lemma_mod_multiples_basic(gs as int, n as int);
                        assert(minus_ct.well_formed());
                        assert(ks_out.well_formed());
                        assert(minus_ct.data@.len() == stage_ksk.spec_row_len());
                        assert(ks_out.data@.len() == stage_ksk.spec_row_len());
                    }
                    keyswitch_glwe_ciphertext(&stage_ksk, &minus_ct, &mut ks_out);
                    // fold: slot i = plus + keyswitched difference
                    poly_add_assign(&mut plus, 0, &ks_out.data, 0, row_len, w);
                    copy_words(&mut slots, ibase, &plus);
                    proof {
                        assert(reduced(slots@, w as int)) by {
                            assert forall|y: int| 0 <= y < slots@.len()
                                implies #[trigger] slots@[y] < w as int by {
                                if ibase <= y < ibase + row_len {
                                    assert(slots@[y] == plus@[y - ibase]);
                                }
                            }
                        }
                        let ma = minus_ct.data@;
                        let ksr = tp_ks_row(
                            ma,
                            stage_ksk.data@,
                            stage_ksk.decomp_base_log.0 as nat,
                            stage_ksk.decomp_level_count.0 as nat,
                            n as nat,
                            gs as int,
                            m.modulus(),
                            w as int,
                        );
                        assert(ks_out.data@ =~= ksr);
                        let row_i_fin = slots@.subrange(
                            ibase as int,
                            ibase as int + row_len as int,
                        );
                        let row_j_fin = slots@.subrange(
                            jbase as int,
                            jbase as int + row_len as int,
                        );
                        assert(row_i_fin =~= Seq::new(
                            row_len as nat,
                            |y: int| (((plus_half[y] as int + ksr[y]) % (w as int)) as u64),
                        )) by {
                            assert forall|y: int|
                                0 <= y < row_len implies slots@[ibase + y] as int == (plus_half[y]
                                + ksr[y] as int) % (w as int) by {
                                assert(slots@[ibase + y] == plus@[y]);
                                assert(plus@[0 + y] == (plus_half[0 + y] + ks_out.data@[0 + y]) % (
                                w as int));
                            }
                        }
                        assert(row_j_fin =~= rot) by {
                            assert forall|y: int|
                                0 <= y < row_len implies slots@[jbase + y] == rot[y] by {
                                assert(slots@[jbase + y] == after_rot[jbase + y]);
                            }
                        }
                        assert(!(tp_zero_row(stage_pre, ibase as int, row_len as int)
                            && tp_zero_row(stage_pre, jbase as int, row_len as int))) by {
                            if nz_i {
                                assert(!tp_zero_row(pair_pre, ibase as int, row_len as int));
                                if tp_zero_row(stage_pre, ibase as int, row_len as int) {
                                    assert forall|y: int|
                                        0 <= y < row_len implies (#[trigger] pair_pre[ibase
                                        + y]) == 0 by {
                                        assert(stage_pre[ibase + y] == 0);
                                    }
                                }
                            } else {
                                assert(!tp_zero_row(pair_pre, jbase as int, row_len as int));
                                if tp_zero_row(stage_pre, jbase as int, row_len as int) {
                                    assert forall|y: int|
                                        0 <= y < row_len implies (#[trigger] pair_pre[jbase
                                        + y]) == 0 by {
                                        assert(stage_pre[jbase + y] == 0);
                                    }
                                }
                            }
                        }
                        assert(ma.len() == row_len as int);
                        assert(forall|p: int|
                            0 <= p < gs ==> #[trigger] crate::polynomial::automorphism_image_ok(
                                minus_half,
                                p * n as int,
                                ma.subrange(p * n as int, p * n as int + n as int),
                                0,
                                n as nat,
                                exponent as int,
                                w as int,
                            ));
                        assert(tp_pair_ok(
                            stage_pre,
                            row_i_fin,
                            row_j_fin,
                            i as int,
                            offset as int,
                            exponent as int,
                            stage_ksk.data@,
                            stage_ksk.decomp_base_log.0 as nat,
                            stage_ksk.decomp_level_count.0 as nat,
                            n as nat,
                            gs as int,
                            inv2 as int,
                            m.modulus(),
                            w as int,
                        ));
                        // earlier pairs of this stage are untouched
                        assert forall|i2: int|
                            0 <= i2 < i implies #[trigger] tp_pair_ok(
                            stage_pre,
                            slots@.subrange(
                                i2 * row_len as int,
                                i2 * row_len as int + row_len as int,
                            ),
                            slots@.subrange(
                                (i2 + offset) * row_len as int,
                                (i2 + offset) * row_len as int + row_len as int,
                            ),
                            i2,
                            offset as int,
                            exponent as int,
                            stage_ksk.data@,
                            stage_ksk.decomp_base_log.0 as nat,
                            stage_ksk.decomp_level_count.0 as nat,
                            n as nat,
                            gs as int,
                            inv2 as int,
                            m.modulus(),
                            w as int,
                        ) by {
                            vstd::arithmetic::mul::lemma_mul_nonnegative(i2, row_len as int);
                            vstd::arithmetic::mul::lemma_mul_nonnegative(
                                i2 + offset,
                                row_len as int,
                            );
                            vstd::arithmetic::mul::lemma_mul_is_distributive_add_other_way(
                                row_len as int,
                                i2,
                                1,
                            );
                            vstd::arithmetic::mul::lemma_mul_is_distributive_add_other_way(
                                row_len as int,
                                i2 + offset,
                                1,
                            );
                            vstd::arithmetic::mul::lemma_mul_inequality(
                                i2 + 1,
                                i as int,
                                row_len as int,
                            );
                            vstd::arithmetic::mul::lemma_mul_inequality(
                                i2 + 1 + offset,
                                i as int + offset as int,
                                row_len as int,
                            );
                            vstd::arithmetic::mul::lemma_mul_inequality(
                                i as int + 1,
                                offset as int,
                                row_len as int,
                            );
                            vstd::arithmetic::mul::lemma_mul_inequality(
                                offset as int,
                                i2 + offset,
                                row_len as int,
                            );
                            assert(slots@.subrange(
                                i2 * row_len as int,
                                i2 * row_len as int + row_len as int,
                            ) =~= pair_pre.subrange(
                                i2 * row_len as int,
                                i2 * row_len as int + row_len as int,
                            )) by {
                                assert forall|y: int|
                                    i2 * row_len as int <= y < i2 * row_len as int
                                        + row_len as int implies slots@[y] == pair_pre[y] by {
                                    assert(slots@[y] == after_rot[y]);
                                    assert(after_rot[y] == pair_pre[y]);
                                }
                            }
                            assert(slots@.subrange(
                                (i2 + offset) * row_len as int,
                                (i2 + offset) * row_len as int + row_len as int,
                            ) =~= pair_pre.subrange(
                                (i2 + offset) * row_len as int,
                                (i2 + offset) * row_len as int + row_len as int,
                            )) by {
                                assert forall|y: int|
                                    (i2 + offset) * row_len as int <= y < (i2 + offset)
                                        * row_len as int + row_len as int implies slots@[y]
                                    == pair_pre[y] by {
                                    assert(slots@[y] == after_rot[y]);
                                    assert(after_rot[y] == pair_pre[y]);
                                }
                            }
                        }
                        // the rows this stage has not reached yet stay put
                        assert forall|y: int|
                            (i + 1) * row_len as int <= y < offset * row_len as int implies slots@[y]
                            == stage_pre[y] by {
                            vstd::arithmetic::mul::lemma_mul_is_distributive_add_other_way(
                                row_len as int,
                                i as int,
                                1,
                            );
                            vstd::arithmetic::mul::lemma_mul_basics(row_len as int);
                            vstd::arithmetic::mul::lemma_mul_inequality(
                                offset as int,
                                i as int + offset as int,
                                row_len as int,
                            );
                            assert(slots@[y] == after_rot[y]);
                            assert(after_rot[y] == pair_pre[y]);
                        }
                        assert forall|y: int|
                            ((i + 1) + offset) * row_len as int <= y
                                < slots_len implies slots@[y] == stage_pre[y] by {
                            vstd::arithmetic::mul::lemma_mul_is_distributive_add_other_way(
                                row_len as int,
                                i as int + offset as int,
                                1,
                            );
                            vstd::arithmetic::mul::lemma_mul_basics(row_len as int);
                            vstd::arithmetic::mul::lemma_mul_inequality(
                                i as int + 1,
                                i as int + offset as int + 1,
                                row_len as int,
                            );
                            vstd::arithmetic::mul::lemma_mul_is_distributive_add_other_way(
                                row_len as int,
                                i as int,
                                1,
                            );
                            assert(slots@[y] == after_rot[y]);
                            assert(after_rot[y] == pair_pre[y]);
                        }
                    }
                } else {
                    proof {
                        assert(tp_zero_row(stage_pre, ibase as int, row_len as int)) by {
                            assert forall|y: int|
                                0 <= y < row_len implies (#[trigger] stage_pre[ibase + y])
                                == 0 by {
                                assert(pair_pre[ibase + y] == 0);
                                assert(pair_pre[ibase + y] == stage_pre[ibase + y]);
                            }
                        }
                        assert(tp_zero_row(stage_pre, jbase as int, row_len as int)) by {
                            assert forall|y: int|
                                0 <= y < row_len implies (#[trigger] stage_pre[jbase + y])
                                == 0 by {
                                assert(pair_pre[jbase + y] == 0);
                                assert(pair_pre[jbase + y] == stage_pre[jbase + y]);
                            }
                        }
                        assert(slots@.subrange(ibase as int, ibase as int + row_len as int)
                            =~= stage_pre.subrange(ibase as int, ibase as int + row_len as int));
                        assert(slots@.subrange(jbase as int, jbase as int + row_len as int)
                            =~= stage_pre.subrange(jbase as int, jbase as int + row_len as int));
                        assert(tp_pair_ok(
                            stage_pre,
                            slots@.subrange(ibase as int, ibase as int + row_len as int),
                            slots@.subrange(jbase as int, jbase as int + row_len as int),
                            i as int,
                            offset as int,
                            exponent as int,
                            stage_ksk.data@,
                            stage_ksk.decomp_base_log.0 as nat,
                            stage_ksk.decomp_level_count.0 as nat,
                            n as nat,
                            gs as int,
                            inv2 as int,
                            m.modulus(),
                            w as int,
                        ));
                    }
                }
                i = i + 1;
            }
        }
        proof {
            assert(tp_stage_ok(
                stage_pre,
                slots@,
                offset as int,
                exponent as int,
                stage_ksk.data@,
                stage_ksk.decomp_base_log.0 as nat,
                stage_ksk.decomp_level_count.0 as nat,
                n as nat,
                gs as int,
                inv2 as int,
                m.modulus(),
                w as int,
            ));
            assert forall|fin: Seq<u64>|
                tp_rounds_ok(
                    slots@,
                    fin,
                    *lwe_tpksk,
                    (l + 1) as nat,
                    (stage_count_all - (l + 1)) as nat,
                    (offset / 2) as int,
                ) implies #[trigger] tp_rounds_ok(
                scattered0,
                fin,
                *lwe_tpksk,
                0,
                stage_count_all as nat,
                (n / 2) as int,
            ) by {
                assert(tp_rounds_ok(
                    stage_pre,
                    fin,
                    *lwe_tpksk,
                    l as nat,
                    (stage_count_all - l) as nat,
                    offset as int,
                )) by {
                    assert(tp_stage_ok(
                        stage_pre,
                        slots@,
                        offset as int,
                        tp_exponent_base(
                            (l as nat + 1) as nat,
                            lwe_tpksk.polynomial_size.0 as int,
                        ) + 1,
                        lwe_tpksk.data@.subrange(
                            l as int * lwe_tpksk.spec_stage_len(),
                            (l as int + 1) * lwe_tpksk.spec_stage_len(),
                        ),
                        lwe_tpksk.decomp_base_log.0 as nat,
                        lwe_tpksk.decomp_level_count.0 as nat,
                        lwe_tpksk.polynomial_size.0 as nat,
                        lwe_tpksk.output_glwe_size.0 as int,
                        (lwe_tpksk.ciphertext_modulus.modulus() + 1) / 2,
                        lwe_tpksk.ciphertext_modulus.modulus(),
                        lwe_tpksk.ciphertext_modulus.working_modulus(),
                    ));
                    assert(tp_rounds_ok(
                        slots@,
                        fin,
                        *lwe_tpksk,
                        (l as nat + 1) as nat,
                        ((stage_count_all - l) as nat - 1) as nat,
                        offset as int / 2,
                    ));
                }
            }
        }
        offset = offset / 2;
        l = l + 1;
    }
    // slot zero holds the packed result
    proof {
        vstd::arithmetic::mul::lemma_mul_inequality(1, n as int, row_len as int);
        vstd::arithmetic::mul::lemma_mul_basics(row_len as int);
        vstd::arithmetic::mul::lemma_mul_is_commutative(n as int, row_len as int);
        assert(tp_rounds_ok(
            slots@,
            slots@,
            *lwe_tpksk,
            stage_count_all as nat,
            (stage_count_all - l) as nat,
            offset as int,
        ));
        assert(tp_rounds_ok(
            scattered0,
            slots@,
            *lwe_tpksk,
            0,
            stage_count_all as nat,
            (n / 2) as int,
        ));
    }
    let ghost slots_fin = slots@;
    let result = crate::crs_lwe_ciphertext::copy_range(&slots, 0, row_len);
    copy_words(&mut output_glwe_ciphertext.data, 0, &result);
    proof {
        assert(reduced(output_glwe_ciphertext.data@, w as int)) by {
            assert forall|y: int| 0 <= y < output_glwe_ciphertext.data@.len()
                implies #[trigger] output_glwe_ciphertext.data@[y] < w as int by {
                assert(output_glwe_ciphertext.data@[y] == result@[y]);
                assert(result@[y] == slots@[y]);
            }
        }
        assert(scattered0 == tp_scattered(
            input_lwe_ciphertext_list.data@,
            lwe_tpksk.input_lwe_size.0 as int,
            indices@,
            indices@.len(),
            lwe_tpksk.polynomial_size.0 as nat,
            lwe_tpksk.output_glwe_size.0 as int,
            lwe_tpksk.ciphertext_modulus.working_modulus(),
        ));
        assert(tp_rounds_ok(
            tp_scattered(
                input_lwe_ciphertext_list.data@,
                lwe_tpksk.input_lwe_size.0 as int,
                indices@,
                indices@.len(),
                lwe_tpksk.polynomial_size.0 as nat,
                lwe_tpksk.output_glwe_size.0 as int,
                lwe_tpksk.ciphertext_modulus.working_modulus(),
            ),
            slots_fin,
            *lwe_tpksk,
            0,
            lwe_tpksk.spec_stage_count() as nat,
            lwe_tpksk.polynomial_size.0 as int / 2,
        ));
        assert(slots_fin.len() == lwe_tpksk.polynomial_size.0 as int * lwe_tpksk.spec_row_len());
        assert forall|y: int|
            0 <= y < lwe_tpksk.spec_row_len() implies final(output_glwe_ciphertext).data@[y]
            == slots_fin[y] by {
            assert(output_glwe_ciphertext.data@[y] == result@[y]);
            assert(result@[y] == slots_fin[y]);
        }
    }
}

/// A copied row keeps the reduction of its source.
proof fn lemma_copied_rows_reduced(src: Seq<u64>, dst: Seq<u64>, base: int, len: int, w: int)
    requires
        dst.len() == len,
        0 <= base,
        base + len <= src.len(),
        forall|i: int| 0 <= i < len ==> #[trigger] dst[i] == src[base + i],
        reduced(src, w),
    ensures
        reduced(dst, w),
    decreases 0int,
{
    assert forall|i: int| 0 <= i < dst.len() implies #[trigger] dst[i] < w by {
        assert(dst[i] == src[base + i]);
    }
}

/// A flat ciphertext list bounds the slices the scatter reads.
proof fn lemma_list_slots(in_size: int, list_len: int, count: int)
    requires
        in_size >= 1,
        count >= 0,
        list_len % in_size == 0,
        count == list_len / in_size,
    ensures
        count * in_size <= list_len,
    decreases 0int,
{
    vstd::arithmetic::div_mod::lemma_fundamental_div_mod(list_len, in_size);
    vstd::arithmetic::div_mod::lemma_mod_bound(list_len, in_size);
    vstd::arithmetic::mul::lemma_mul_is_commutative(count, in_size);
}

/// The halving constant is reduced.
proof fn lemma_inv2_reduced(m: CiphertextModulus)
    requires
        m.well_formed(),
    ensures
        (m.modulus() + 1) / 2 < m.working_modulus(),
    decreases 0int,
{
    crate::parameters::lemma_modulus_facts(m);
    assert(m.modulus() <= m.working_modulus()) by {
        vstd::arithmetic::mul::lemma_mul_inequality(1, m.scaling_to_native_torus(), m.modulus());
        vstd::arithmetic::mul::lemma_mul_basics(m.modulus());
        vstd::arithmetic::mul::lemma_mul_is_commutative(m.scaling_to_native_torus(), m.modulus());
    }
}

/// The two slots of a butterfly pair lie inside the slot buffer.
proof fn lemma_pair_slots(i: int, offset: int, n: int, row_len: int)
    requires
        0 <= i < offset,
        2 * offset <= n,
        row_len >= 1,
    ensures
        (i + offset) * row_len + row_len <= n * row_len,
        i * row_len + row_len <= n * row_len,
        i * row_len >= 0,
        (i + offset) * row_len >= 0,
        i * row_len <= n * row_len,
        (i + offset) * row_len <= n * row_len,
    decreases 0int,
{
    vstd::arithmetic::mul::lemma_mul_inequality(i + offset + 1, n, row_len);
    vstd::arithmetic::mul::lemma_mul_inequality(i + 1, n, row_len);
    vstd::arithmetic::mul::lemma_mul_inequality(i, n, row_len);
    vstd::arithmetic::mul::lemma_mul_inequality(i + offset, n, row_len);
    vstd::arithmetic::mul::lemma_mul_nonnegative(i, row_len);
    vstd::arithmetic::mul::lemma_mul_nonnegative(i + offset, row_len);
    vstd::arithmetic::mul::lemma_mul_is_distributive_add_other_way(row_len, i, 1);
    vstd::arithmetic::mul::lemma_mul_is_distributive_add_other_way(row_len, i + offset, 1);
}

/// The bounds a well-formed GLWE keyswitch key provides.
proof fn lemma_glwe_ks_bounds(k: GlweKeyswitchKey)
    requires
        k.well_formed(),
        k.data@.len() == (k.output_glwe_size.0 - 1) * k.decomp_level_count.0 * k.spec_row_len(),
    ensures
        k.decomp_level_count.0 < 64,
        k.decomp_base_log.0 < 64,
        k.decomp_level_count.0 as int * k.polynomial_size.0 as int <= k.data@.len(),
        (vstd::arithmetic::power2::pow2((k.decomp_base_log.0 - 1) as nat) as int)
            < k.ciphertext_modulus.working_modulus(),
    decreases 0int,
{
    let b = k.decomp_base_log.0 as int;
    let l = k.decomp_level_count.0 as int;
    assert(l < 64) by {
        vstd::arithmetic::mul::lemma_mul_inequality(1, b, l);
        vstd::arithmetic::mul::lemma_mul_basics(l);
        vstd::arithmetic::mul::lemma_mul_is_commutative(b, l);
    }
    assert(b < 64) by {
        vstd::arithmetic::mul::lemma_mul_inequality(1, l, b);
        vstd::arithmetic::mul::lemma_mul_basics(b);
        vstd::arithmetic::mul::lemma_mul_is_commutative(l, b);
    }
    assert((vstd::arithmetic::power2::pow2((k.decomp_base_log.0 - 1) as nat) as int)
        < k.ciphertext_modulus.working_modulus()) by {
        assert(b - 1 < b * l) by {
            vstd::arithmetic::mul::lemma_mul_inequality(1, l, b);
            vstd::arithmetic::mul::lemma_mul_basics(b);
            vstd::arithmetic::mul::lemma_mul_is_commutative(l, b);
        }
        vstd::arithmetic::power2::lemma_pow2_strictly_increases(
            (k.decomp_base_log.0 - 1) as nat,
            (k.decomp_base_log.0 as nat * k.decomp_level_count.0 as nat) as nat,
        );
        crate::parameters::lemma_modulus_facts(k.ciphertext_modulus);
        assert(k.ciphertext_modulus.modulus() <= k.ciphertext_modulus.working_modulus()) by {
            vstd::arithmetic::mul::lemma_mul_inequality(
                1,
                k.ciphertext_modulus.scaling_to_native_torus(),
                k.ciphertext_modulus.modulus(),
            );
            vstd::arithmetic::mul::lemma_mul_basics(k.ciphertext_modulus.modulus());
            vstd::arithmetic::mul::lemma_mul_is_commutative(
                k.ciphertext_modulus.scaling_to_native_torus(),
                k.ciphertext_modulus.modulus(),
            );
        }
        assert(b - 1 < b * l) by {
            vstd::arithmetic::mul::lemma_mul_inequality(1, l, b);
            vstd::arithmetic::mul::lemma_mul_basics(b);
            vstd::arithmetic::mul::lemma_mul_is_commutative(l, b);
        }
    }
    let gs1 = k.output_glwe_size.0 as int - 1;
    let rl = k.spec_row_len();
    let n = k.polynomial_size.0 as int;
    assert(l * n <= (gs1 * l) * rl) by {
        assert(n <= rl) by {
            vstd::arithmetic::mul::lemma_mul_inequality(1, k.output_glwe_size.0 as int, n);
            vstd::arithmetic::mul::lemma_mul_is_commutative(n, k.output_glwe_size.0 as int);
            vstd::arithmetic::mul::lemma_mul_basics(n);
        }
        assert(l * n <= l * rl) by {
            vstd::arithmetic::mul::lemma_mul_inequality(n, rl, l);
            vstd::arithmetic::mul::lemma_mul_is_commutative(n, l);
            vstd::arithmetic::mul::lemma_mul_is_commutative(rl, l);
        }
        assert(l * rl <= (gs1 * l) * rl) by {
            assert(l <= gs1 * l) by {
                vstd::arithmetic::mul::lemma_mul_inequality(1, gs1, l);
                vstd::arithmetic::mul::lemma_mul_basics(l);
                vstd::arithmetic::mul::lemma_mul_is_commutative(gs1, l);
            }
            vstd::arithmetic::mul::lemma_mul_inequality(l, gs1 * l, rl);
        }
    }
    assert(k.data@.len() as int == (gs1 * l) * rl) by {
        vstd::arithmetic::mul::lemma_mul_is_associative(gs1, l, rl);
    }
}

/// The row of digit (i, v) lies inside the flat GLWE keyswitch key.
proof fn lemma_glwe_ks_row_bound(i: int, v: int, kdim: int, level_count: int, row_len: int, klen: int)
    requires
        0 <= i < kdim,
        1 <= v <= level_count,
        row_len >= 1,
        klen == kdim * level_count * row_len,
    ensures
        (i * level_count + (v - 1)) * row_len + row_len <= klen,
        (i * level_count + (v - 1)) * row_len >= 0,
        i * level_count + (v - 1) >= 0,
        i * level_count + (v - 1) <= klen,
    decreases 0int,
{
    let t = i * level_count + (v - 1);
    vstd::arithmetic::mul::lemma_mul_nonnegative(i, level_count);
    assert(t + 1 <= kdim * level_count) by {
        vstd::arithmetic::mul::lemma_mul_inequality(i + 1, kdim, level_count);
        vstd::arithmetic::mul::lemma_mul_is_distributive_add_other_way(level_count, i, 1);
    }
    assert((t + 1) * row_len <= klen) by {
        vstd::arithmetic::mul::lemma_mul_inequality(t + 1, kdim * level_count, row_len);
    }
    vstd::arithmetic::mul::lemma_mul_is_distributive_add_other_way(row_len, t, 1);
    vstd::arithmetic::mul::lemma_mul_nonnegative(t, row_len);
    assert(t <= t * row_len + row_len) by {
        vstd::arithmetic::mul::lemma_mul_inequality(1, row_len, t);
        vstd::arithmetic::mul::lemma_mul_basics(t);
        vstd::arithmetic::mul::lemma_mul_is_commutative(row_len, t);
    }
}

} // verus!

//! Modular arithmetic on 64-bit coefficients under a working modulus.
//!
//! Every ciphertext coefficient of this library is kept reduced below the
//! working modulus of its ciphertext modulus: 2^64 for the native and every
//! power-of-two modulus, q itself for an odd modulus wider than 63 bits, and
//! q times its scaling factor in general. All coefficient arithmetic is
//! arithmetic modulo that working modulus.

use vstd::prelude::*;
use crate::parameters::CiphertextModulus;

verus! {

/// A working modulus is a value the coefficient arithmetic can run under.
pub open spec fn valid_working_modulus(w: int) -> bool {
    2 <= w <= 0x1_0000_0000_0000_0000
}

/// A coefficient vector is reduced when every element lies below the working
/// modulus.
pub open spec fn reduced(s: Seq<u64>, w: int) -> bool {
    forall|i: int| 0 <= i < s.len() ==> #[trigger] s[i] < w
}

/// The working modulus of a well-formed ciphertext modulus can carry the
/// coefficient arithmetic.
pub proof fn lemma_working_modulus_valid(m: CiphertextModulus)
    requires
        m.well_formed(),
    ensures
        valid_working_modulus(m.working_modulus()),
{
    crate::parameters::lemma_modulus_facts(m);
    vstd::arithmetic::power2::lemma2_to64();
    vstd::arithmetic::power2::lemma_pow2_adds(32, 32);
    vstd::arithmetic::power2::lemma2_to64_rest();
}

/// Modular addition of reduced coefficients.
pub fn add_mod(a: u64, b: u64, w: u128) -> (r: u64)
    requires
        valid_working_modulus(w as int),
        a < w,
        b < w,
    ensures
        r == (a + b) % (w as int),
        r < w,
{
    (((a as u128) + (b as u128)) % w) as u64
}

/// Modular subtraction of reduced coefficients.
pub fn sub_mod(a: u64, b: u64, w: u128) -> (r: u64)
    requires
        valid_working_modulus(w as int),
        a < w,
        b < w,
    ensures
        r == (a - b) % (w as int),
        r < w,
{
    let r = (((a as u128) + w - (b as u128)) % w) as u64;
    proof {
        vstd::arithmetic::div_mod::lemma_mod_multiples_vanish(1int, a - b, w as int);
    }
    r
}

/// Modular negation of a reduced coefficient.
pub fn neg_mod(a: u64, w: u128) -> (r: u64)
    requires
        valid_working_modulus(w as int),
        a < w,
    ensures
        r == (0 - a) % (w as int),
        r < w,
{
    let r = ((w - (a as u128)) % w) as u64;
    proof {
        vstd::arithmetic::div_mod::lemma_mod_multiples_vanish(1int, 0 - a, w as int);
    }
    r
}

/// Modular multiplication of reduced coefficients.
pub fn mul_mod(a: u64, b: u64, w: u128) -> (r: u64)
    requires
        valid_working_modulus(w as int),
        a < w,
        b < w,
    ensures
        r == (a as int * b as int) % (w as int),
        r < w,
{
    proof {
        vstd::arithmetic::mul::lemma_mul_upper_bound(
            a as int,
            0xffff_ffff_ffff_ffff,
            b as int,
            0xffff_ffff_ffff_ffff,
        );
    }
    (((a as u128) * (b as u128)) % w) as u64
}

/// Reduce a 128-bit value below the working modulus.
pub fn reduce_u128(x: u128, w: u128) -> (r: u64)
    requires
        valid_working_modulus(w as int),
    ensures
        r == (x as int) % (w as int),
        r < w,
{
    (x % w) as u64
}

/// The dot product, modulo w, of len elements of a starting at ai with len
/// elements of b starting at bi.
pub open spec fn dot_mod(a: Seq<u64>, ai: int, b: Seq<u64>, bi: int, len: nat, w: int) -> int
    decreases len,
{
    if len == 0 {
        0
    } else {
        (dot_mod(a, ai, b, bi, (len - 1) as nat, w) + a[ai + len - 1] * b[bi + len - 1]) % w
    }
}

/// The dot product of reduced sequences is reduced.
pub proof fn lemma_dot_mod_bound(a: Seq<u64>, ai: int, b: Seq<u64>, bi: int, len: nat, w: int)
    requires
        valid_working_modulus(w),
    ensures
        0 <= dot_mod(a, ai, b, bi, len, w) < w,
    decreases len,
{
    if len == 0 {
    } else {
        lemma_dot_mod_bound(a, ai, b, bi, (len - 1) as nat, w);
        vstd::arithmetic::div_mod::lemma_mod_bound(
            dot_mod(a, ai, b, bi, (len - 1) as nat, w) + a[ai + len - 1] * b[bi + len - 1],
            w,
        );
    }
}

/// Compute the dot product, modulo w, of two coefficient ranges.
pub fn dot_product_mod(
    a: &Vec<u64>,
    ai: usize,
    b: &Vec<u64>,
    bi: usize,
    len: usize,
    w: u128,
) -> (r: u64)
    requires
        valid_working_modulus(w as int),
        ai + len <= a@.len(),
        bi + len <= b@.len(),
        reduced(a@, w as int),
        reduced(b@, w as int),
    ensures
        r == dot_mod(a@, ai as int, b@, bi as int, len as nat, w as int),
        r < w,
{
    let alen: usize = a.len();
    let blen: usize = b.len();
    let mut acc: u64 = 0;
    let mut i: usize = 0;
    while i < len
        invariant
            i <= len,
            ai + len <= a@.len(),
            bi + len <= b@.len(),
            a@.len() == alen,
            b@.len() == blen,
            reduced(a@, w as int),
            reduced(b@, w as int),
            valid_working_modulus(w as int),
            acc == dot_mod(a@, ai as int, b@, bi as int, i as nat, w as int),
            acc < w,
        decreases len - i,
    {
        let prod = mul_mod(a[ai + i], b[bi + i], w);
        acc = add_mod(acc, prod, w);
        proof {
            let prev = dot_mod(a@, ai as int, b@, bi as int, i as nat, w as int);
            let full = prev + a@[ai + i] * b@[bi + i];
            vstd::arithmetic::div_mod::lemma_add_mod_noop(
                prev,
                a@[ai + i] * b@[bi + i],
                w as int,
            );
            assert((prev % (w as int) + (a@[ai + i] * b@[bi + i]) % (w as int)) % (w as int)
                == full % (w as int));
            vstd::arithmetic::div_mod::lemma_small_mod(prev as nat, w as nat);
        }
        i = i + 1;
    }
    acc
}

} // verus!

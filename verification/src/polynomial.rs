//! Negacyclic polynomial arithmetic on coefficient ranges of flat vectors,
//! modulo the working modulus of a ciphertext modulus.
//!
//! A polynomial of size N lives in Z_w[X]/(X^N + 1): multiplying by X wraps
//! the top coefficient around with a sign flip. Every operation here acts on
//! the range [off, off+n) of a flat vector and states its result coefficient
//! by coefficient.

use vstd::prelude::*;
use crate::numeric::{add_mod, sub_mod, mul_mod, reduced, valid_working_modulus};

verus! {

/// The first i terms of negacyclic product coefficient k: the running sum of
/// a[ao+j]·b[bo+((k-j) mod n)], subtracted when j > k (the wrap-around picks a
/// sign flip), reduced at every step.
pub open spec fn poly_mul_coeff_partial(
    a: Seq<u64>,
    ao: int,
    b: Seq<u64>,
    bo: int,
    n: nat,
    k: int,
    i: nat,
    w: int,
) -> int
    decreases i,
{
    if i == 0 {
        0
    } else {
        let j = i - 1;
        let prev = poly_mul_coeff_partial(a, ao, b, bo, n, k, (i - 1) as nat, w);
        if j <= k {
            (prev + a[ao + j] * b[bo + k - j]) % w
        } else {
            (prev - a[ao + j] * b[bo + n + k - j]) % w
        }
    }
}

/// Coefficient k of the negacyclic product of two size-n polynomials.
pub open spec fn poly_mul_coeff(
    a: Seq<u64>,
    ao: int,
    b: Seq<u64>,
    bo: int,
    n: nat,
    k: int,
    w: int,
) -> int {
    poly_mul_coeff_partial(a, ao, b, bo, n, k, n, w)
}

/// Two sequences that agree on the n coefficients at `ao` give the same
/// partial negacyclic product against any third range.
pub proof fn lemma_poly_mul_coeff_partial_agree(
    a1: Seq<u64>,
    a2: Seq<u64>,
    ao: int,
    b: Seq<u64>,
    bo: int,
    n: nat,
    k: int,
    i: nat,
    w: int,
)
    requires
        i <= n,
        forall|x: int| ao <= x < ao + n ==> a1[x] == a2[x],
    ensures
        poly_mul_coeff_partial(a1, ao, b, bo, n, k, i, w) == poly_mul_coeff_partial(
            a2,
            ao,
            b,
            bo,
            n,
            k,
            i,
            w,
        ),
    decreases i,
{
    if i > 0 {
        lemma_poly_mul_coeff_partial_agree(a1, a2, ao, b, bo, n, k, (i - 1) as nat, w);
    }
}

/// Two sequences that agree on the n coefficients at `ao` give the same
/// negacyclic product coefficient against any third range.
pub proof fn lemma_poly_mul_coeff_agree(
    a1: Seq<u64>,
    a2: Seq<u64>,
    ao: int,
    b: Seq<u64>,
    bo: int,
    n: nat,
    k: int,
    w: int,
)
    requires
        forall|x: int| ao <= x < ao + n ==> a1[x] == a2[x],
    ensures
        poly_mul_coeff(a1, ao, b, bo, n, k, w) == poly_mul_coeff(a2, ao, b, bo, n, k, w),
    decreases 0int,
{
    lemma_poly_mul_coeff_partial_agree(a1, a2, ao, b, bo, n, k, n, w);
}

/// Two windows with the same n coefficients, wherever each starts, give the
/// same partial negacyclic product against any third range.
pub proof fn lemma_poly_mul_coeff_partial_window(
    a1: Seq<u64>,
    o1: int,
    a2: Seq<u64>,
    o2: int,
    b: Seq<u64>,
    bo: int,
    n: nat,
    k: int,
    i: nat,
    w: int,
)
    requires
        i <= n,
        forall|t: int| 0 <= t < n ==> #[trigger] a1[o1 + t] == a2[o2 + t],
    ensures
        poly_mul_coeff_partial(a1, o1, b, bo, n, k, i, w) == poly_mul_coeff_partial(
            a2,
            o2,
            b,
            bo,
            n,
            k,
            i,
            w,
        ),
    decreases i,
{
    if i > 0 {
        lemma_poly_mul_coeff_partial_window(a1, o1, a2, o2, b, bo, n, k, (i - 1) as nat, w);
        assert(a1[o1 + (i - 1)] == a2[o2 + (i - 1)]);
    }
}

/// Two windows with the same n coefficients, wherever each starts, give the
/// same negacyclic product coefficient against any third range.
pub proof fn lemma_poly_mul_coeff_window(
    a1: Seq<u64>,
    o1: int,
    a2: Seq<u64>,
    o2: int,
    b: Seq<u64>,
    bo: int,
    n: nat,
    k: int,
    w: int,
)
    requires
        forall|t: int| 0 <= t < n ==> #[trigger] a1[o1 + t] == a2[o2 + t],
    ensures
        poly_mul_coeff(a1, o1, b, bo, n, k, w) == poly_mul_coeff(a2, o2, b, bo, n, k, w),
    decreases 0int,
{
    lemma_poly_mul_coeff_partial_window(a1, o1, a2, o2, b, bo, n, k, n, w);
}

/// A negacyclic product of a polynomial whose window coefficients all carry a
/// factor f with a binary polynomial carries f too, under a working modulus
/// that is q times f.
pub proof fn lemma_poly_mul_coeff_partial_carries_factor(
    a: Seq<u64>,
    ao: int,
    b: Seq<u64>,
    bo: int,
    n: nat,
    k: int,
    i: nat,
    f: int,
    q: int,
)
    requires
        f >= 1,
        q >= 2,
        i <= n,
        0 <= k < n,
        forall|t: int| 0 <= t < n ==> (#[trigger] a[ao + t] as int) % f == 0,
        forall|t: int| 0 <= t < n ==> (#[trigger] b[bo + t]) == 0 || b[bo + t] == 1,
    ensures
        poly_mul_coeff_partial(a, ao, b, bo, n, k, i, q * f) % f == 0,
    decreases i,
{
    vstd::arithmetic::div_mod::lemma_small_mod(0nat, f as nat);
    if i > 0 {
        lemma_poly_mul_coeff_partial_carries_factor(a, ao, b, bo, n, k, (i - 1) as nat, f, q);
        let j = i - 1;
        let prev = poly_mul_coeff_partial(a, ao, b, bo, n, k, (i - 1) as nat, q * f);
        if j <= k {
            let term = a[ao + j] as int * b[bo + k - j];
            assert(term % f == 0) by {
                let tb = k - j;
                assert(b[bo + tb] == 0 || b[bo + tb] == 1);
                assert(bo + tb == bo + k - j);
                vstd::arithmetic::mul::lemma_mul_basics(a[ao + j] as int);
            }
            crate::lwe::lemma_sum_of_multiples_mod(prev, term, f, q);
        } else {
            let term = a[ao + j] as int * b[bo + n + k - j];
            assert(term % f == 0) by {
                let tb = n + k - j;
                assert(b[bo + tb] == 0 || b[bo + tb] == 1);
                assert(bo + tb == bo + n + k - j);
                vstd::arithmetic::mul::lemma_mul_basics(a[ao + j] as int);
            }
            assert((0 - term) % f == 0) by {
                vstd::arithmetic::div_mod::lemma_fundamental_div_mod(term, f);
                vstd::arithmetic::div_mod::lemma_mod_multiples_basic(0 - term / f, f);
                vstd::arithmetic::mul::lemma_mul_is_commutative(0 - term / f, f);
                vstd::arithmetic::mul::lemma_mul_is_distributive_sub(f, 0, term / f);
                vstd::arithmetic::mul::lemma_mul_basics(f);
            }
            crate::lwe::lemma_sum_of_multiples_mod(prev, 0 - term, f, q);
        }
    }
}

/// A partial negacyclic sum is reduced.
pub proof fn lemma_poly_mul_coeff_bound(
    a: Seq<u64>,
    ao: int,
    b: Seq<u64>,
    bo: int,
    n: nat,
    k: int,
    i: nat,
    w: int,
)
    requires
        valid_working_modulus(w),
    ensures
        0 <= poly_mul_coeff_partial(a, ao, b, bo, n, k, i, w) < w,
    decreases i,
{
    if i == 0 {
    } else {
        lemma_poly_mul_coeff_bound(a, ao, b, bo, n, k, (i - 1) as nat, w);
        let j = i - 1;
        let prev = poly_mul_coeff_partial(a, ao, b, bo, n, k, (i - 1) as nat, w);
        if j <= k {
            vstd::arithmetic::div_mod::lemma_mod_bound(prev + a[ao + j] * b[bo + k - j], w);
        } else {
            vstd::arithmetic::div_mod::lemma_mod_bound(prev - a[ao + j] * b[bo + n + k - j], w);
        }
    }
}

/// Compute coefficient k of the negacyclic product of the size-n polynomials
/// at a[ao..] and b[bo..].
pub fn poly_mul_coeff_exec(
    a: &Vec<u64>,
    ao: usize,
    b: &Vec<u64>,
    bo: usize,
    n: usize,
    k: usize,
    w: u128,
) -> (r: u64)
    requires
        valid_working_modulus(w as int),
        ao + n <= a@.len(),
        bo + n <= b@.len(),
        k < n,
        reduced(a@, w as int),
        reduced(b@, w as int),
    ensures
        r == poly_mul_coeff(a@, ao as int, b@, bo as int, n as nat, k as int, w as int),
        r < w,
{
    let alen: usize = a.len();
    let blen: usize = b.len();
    let mut acc: u64 = 0;
    let mut j: usize = 0;
    while j < n
        invariant
            j <= n,
            k < n,
            ao + n <= alen,
            bo + n <= blen,
            a@.len() == alen,
            b@.len() == blen,
            valid_working_modulus(w as int),
            reduced(a@, w as int),
            reduced(b@, w as int),
            acc == poly_mul_coeff_partial(a@, ao as int, b@, bo as int, n as nat, k as int, j as nat, w as int),
            acc < w,
        decreases n - j,
    {
        if j <= k {
            let prod = mul_mod(a[ao + j], b[bo + k - j], w);
            acc = add_mod(acc, prod, w);
            proof {
                let prev = poly_mul_coeff_partial(
                    a@,
                    ao as int,
                    b@,
                    bo as int,
                    n as nat,
                    k as int,
                    j as nat,
                    w as int,
                );
                lemma_mod_add_cancel(prev, a@[ao + j] * b@[bo + k - j], w as int);
            }
        } else {
            let prod = mul_mod(a[ao + j], b[bo + (n - (j - k))], w);
            acc = sub_mod(acc, prod, w);
            proof {
                let prev = poly_mul_coeff_partial(
                    a@,
                    ao as int,
                    b@,
                    bo as int,
                    n as nat,
                    k as int,
                    j as nat,
                    w as int,
                );
                lemma_mod_sub_cancel(prev, a@[ao + j] * b@[bo + (n + k - j)], w as int);
            }
        }
        j = j + 1;
    }
    acc
}

/// (p + (x % w)) % w == (p + x) % w, for p already reduced.
pub proof fn lemma_mod_add_cancel(p: int, x: int, w: int)
    requires
        w >= 2,
        0 <= p < w,
    ensures
        (p + (x % w)) % w == (p + x) % w,
{
    vstd::arithmetic::div_mod::lemma_add_mod_noop(p, x, w);
    vstd::arithmetic::div_mod::lemma_mod_twice(x, w);
    vstd::arithmetic::div_mod::lemma_small_mod(p as nat, w as nat);
}

/// (p - (x % w)) % w == (p - x) % w, for p already reduced.
pub proof fn lemma_mod_sub_cancel(p: int, x: int, w: int)
    requires
        w >= 2,
        0 <= p < w,
    ensures
        (p - (x % w)) % w == (p - x) % w,
{
    vstd::arithmetic::div_mod::lemma_sub_mod_noop(p, x, w);
    vstd::arithmetic::div_mod::lemma_mod_twice(x, w);
    vstd::arithmetic::div_mod::lemma_small_mod(p as nat, w as nat);
}

/// Add, coefficient by coefficient modulo w, the size-n range of src at so to
/// the size-n range of dst at do_.
pub fn poly_add_assign(dst: &mut Vec<u64>, do_: usize, src: &Vec<u64>, so: usize, n: usize, w: u128)
    requires
        valid_working_modulus(w as int),
        do_ + n <= old(dst)@.len(),
        so + n <= src@.len(),
        reduced(old(dst)@, w as int),
        reduced(src@, w as int),
    ensures
        final(dst)@.len() == old(dst)@.len(),
        reduced(final(dst)@, w as int),
        forall|x: int|
            0 <= x < n ==> #[trigger] final(dst)@[do_ + x] == (old(dst)@[do_ + x] + src@[so + x])
                % (w as int),
        forall|x: int|
            0 <= x < old(dst)@.len() && !(do_ <= x < do_ + n) ==> final(dst)@[x] == old(dst)@[x],
{
    let dlen: usize = dst.len();
    let slen: usize = src.len();
    let mut i: usize = 0;
    while i < n
        invariant
            i <= n,
            do_ + n <= dlen,
            so + n <= src@.len(),
            src@.len() == slen,
            dst@.len() == dlen,
            valid_working_modulus(w as int),
            reduced(dst@, w as int),
            reduced(src@, w as int),
            forall|x: int|
                0 <= x < i ==> #[trigger] dst@[do_ + x] == (old(dst)@[do_ + x] + src@[so + x]) % (
                w as int),
            forall|x: int|
                0 <= x < dlen && !(do_ <= x < do_ + i) ==> dst@[x] == old(dst)@[x],
        decreases n - i,
    {
        let v = add_mod(dst[do_ + i], src[so + i], w);
        dst[do_ + i] = v;
        i = i + 1;
    }
}

/// Subtract, coefficient by coefficient modulo w, the size-n range of src at
/// so from the size-n range of dst at do_.
pub fn poly_sub_assign(dst: &mut Vec<u64>, do_: usize, src: &Vec<u64>, so: usize, n: usize, w: u128)
    requires
        valid_working_modulus(w as int),
        do_ + n <= old(dst)@.len(),
        so + n <= src@.len(),
        reduced(old(dst)@, w as int),
        reduced(src@, w as int),
    ensures
        final(dst)@.len() == old(dst)@.len(),
        reduced(final(dst)@, w as int),
        forall|x: int|
            0 <= x < n ==> #[trigger] final(dst)@[do_ + x] == (old(dst)@[do_ + x] - src@[so + x])
                % (w as int),
        forall|x: int|
            0 <= x < old(dst)@.len() && !(do_ <= x < do_ + n) ==> final(dst)@[x] == old(dst)@[x],
{
    let dlen: usize = dst.len();
    let slen: usize = src.len();
    let mut i: usize = 0;
    while i < n
        invariant
            i <= n,
            do_ + n <= dlen,
            so + n <= src@.len(),
            src@.len() == slen,
            dst@.len() == dlen,
            valid_working_modulus(w as int),
            reduced(dst@, w as int),
            reduced(src@, w as int),
            forall|x: int|
                0 <= x < i ==> #[trigger] dst@[do_ + x] == (old(dst)@[do_ + x] - src@[so + x]) % (
                w as int),
            forall|x: int|
                0 <= x < dlen && !(do_ <= x < do_ + i) ==> dst@[x] == old(dst)@[x],
        decreases n - i,
    {
        let v = sub_mod(dst[do_ + i], src[so + i], w);
        dst[do_ + i] = v;
        i = i + 1;
    }
}

/// Multiply, coefficient by coefficient modulo w, the size-n range of dst at
/// do_ by the scalar c.
pub fn poly_scalar_mul_assign(dst: &mut Vec<u64>, do_: usize, c: u64, n: usize, w: u128)
    requires
        valid_working_modulus(w as int),
        do_ + n <= old(dst)@.len(),
        c < w,
        reduced(old(dst)@, w as int),
    ensures
        final(dst)@.len() == old(dst)@.len(),
        reduced(final(dst)@, w as int),
        forall|x: int|
            0 <= x < n ==> #[trigger] final(dst)@[do_ + x] == (old(dst)@[do_ + x] * c) % (w as int),
        forall|x: int|
            0 <= x < old(dst)@.len() && !(do_ <= x < do_ + n) ==> final(dst)@[x] == old(dst)@[x],
{
    let dlen: usize = dst.len();
    let mut i: usize = 0;
    while i < n
        invariant
            i <= n,
            do_ + n <= dlen,
            dst@.len() == dlen,
            c < w,
            valid_working_modulus(w as int),
            reduced(dst@, w as int),
            forall|x: int|
                0 <= x < i ==> #[trigger] dst@[do_ + x] == (old(dst)@[do_ + x] * c) % (w as int),
            forall|x: int|
                0 <= x < dlen && !(do_ <= x < do_ + i) ==> dst@[x] == old(dst)@[x],
        decreases n - i,
    {
        let v = mul_mod(dst[do_ + i], c, w);
        dst[do_ + i] = v;
        i = i + 1;
    }
}

/// Coefficient x of a polynomial multiplied by the monomial X^d, negacyclic:
/// it is coefficient x-d of the source when x >= d mod-2n-style, with a sign
/// flip on wrap-around.
pub open spec fn monomial_shift_coeff(p: Seq<u64>, off: int, n: nat, d: int, x: int, w: int) -> int {
    if x >= d {
        p[off + x - d] as int
    } else {
        (0 - p[off + n + x - d]) % w
    }
}

/// Coefficient x of a polynomial multiplied by X^d for any 0 <= d < 2n,
/// negacyclic: a rotation by n or more is a rotation by d - n with one more
/// sign flip.
pub open spec fn monomial_shift_general_coeff(
    p: Seq<u64>,
    off: int,
    n: nat,
    d: int,
    x: int,
    w: int,
) -> int {
    if d < n {
        monomial_shift_coeff(p, off, n, d, x, w)
    } else {
        (0 - monomial_shift_coeff(p, off, n, d - n, x, w)) % w
    }
}

/// Two windows with the same n coefficients give the same general monomial
/// rotation coefficient.
pub proof fn lemma_monomial_shift_general_window(
    p1: Seq<u64>,
    o1: int,
    p2: Seq<u64>,
    o2: int,
    n: nat,
    d: int,
    x: int,
    w: int,
)
    requires
        0 <= x < n,
        0 <= d < 2 * n,
        forall|t: int| 0 <= t < n ==> #[trigger] p1[o1 + t] == p2[o2 + t],
    ensures
        monomial_shift_general_coeff(p1, o1, n, d, x, w) == monomial_shift_general_coeff(
            p2,
            o2,
            n,
            d,
            x,
            w,
        ),
{
    if d < n {
        if x >= d {
            assert(p1[o1 + (x - d)] == p2[o2 + (x - d)]);
        } else {
            assert(p1[o1 + (n + x - d)] == p2[o2 + (n + x - d)]);
        }
    } else {
        let dd = d - n;
        if x >= dd {
            assert(p1[o1 + (x - dd)] == p2[o2 + (x - dd)]);
        } else {
            assert(p1[o1 + (n + x - dd)] == p2[o2 + (n + x - dd)]);
        }
    }
}

/// Multiplying a reduced value by w - 1 negates it modulo w.
pub proof fn lemma_scalar_negate(v: int, w: int)
    requires
        w >= 2,
        0 <= v < w,
    ensures
        (v * (w - 1)) % w == (0 - v) % w,
{
    assert(v * (w - 1) == w * v + (0 - v)) by {
        vstd::arithmetic::mul::lemma_mul_is_distributive_sub(v, w, 1);
        vstd::arithmetic::mul::lemma_mul_is_commutative(v, w);
        vstd::arithmetic::mul::lemma_mul_basics(v);
    }
    vstd::arithmetic::div_mod::lemma_mod_multiples_vanish(v, 0 - v, w);
}

/// Multiply the size-n range of dst at do_ by X^d in place, for 0 <= d < n.
pub fn poly_monomial_mul_assign(dst: &mut Vec<u64>, do_: usize, d: usize, n: usize, w: u128)
    requires
        valid_working_modulus(w as int),
        do_ + n <= old(dst)@.len(),
        d < n,
        reduced(old(dst)@, w as int),
    ensures
        final(dst)@.len() == old(dst)@.len(),
        reduced(final(dst)@, w as int),
        forall|x: int|
            0 <= x < n ==> #[trigger] final(dst)@[do_ + x] == monomial_shift_coeff(
                old(dst)@,
                do_ as int,
                n as nat,
                d as int,
                x,
                w as int,
            ),
        forall|x: int|
            0 <= x < old(dst)@.len() && !(do_ <= x < do_ + n) ==> final(dst)@[x] == old(dst)@[x],
{
    let dlen: usize = dst.len();
    // write the rotated polynomial into a scratch buffer, then copy back
    let mut scratch = crate::lwe::vec_of_zeros(n);
    let mut x: usize = 0;
    while x < n
        invariant
            x <= n,
            d < n,
            do_ + n <= dlen,
            dst@.len() == dlen,
            dst@ == old(dst)@,
            scratch@.len() == n,
            valid_working_modulus(w as int),
            reduced(dst@, w as int),
            reduced(scratch@, w as int),
            forall|y: int|
                0 <= y < x ==> #[trigger] scratch@[y] == monomial_shift_coeff(
                    old(dst)@,
                    do_ as int,
                    n as nat,
                    d as int,
                    y,
                    w as int,
                ),
        decreases n - x,
    {
        let v = if x >= d {
            dst[do_ + x - d]
        } else {
            crate::numeric::neg_mod(dst[do_ + (n - (d - x))], w)
        };
        scratch[x] = v;
        x = x + 1;
    }
    crate::lwe_keyswitch::copy_words(dst, do_, &scratch);
    proof {
        assert forall|y: int| 0 <= y < n implies #[trigger] dst@[do_ + y] == monomial_shift_coeff(
            old(dst)@,
            do_ as int,
            n as nat,
            d as int,
            y,
            w as int,
        ) by {
            assert(dst@[do_ + y] == scratch@[y]);
        }
        assert forall|y: int| 0 <= y < dst@.len() implies #[trigger] dst@[y] < w as int by {
            if do_ <= y < do_ + n {
                assert(dst@[y] == scratch@[y - do_]);
            }
        }
    }
}

/// Coefficient of the image of a polynomial under the ring automorphism
/// X -> X^e at position (i·e) mod 2n: source coefficient i lands at (i·e) mod
/// n, negated when (i·e) mod 2n is at least n.
pub open spec fn automorphism_image_ok(
    src: Seq<u64>,
    so: int,
    dst: Seq<u64>,
    do_: int,
    n: nat,
    e: int,
    w: int,
) -> bool {
    forall|i: int|
        0 <= i < n ==> {
            let pos = (#[trigger] (i * e)) % (2 * n as int);
            if pos < n {
                dst[do_ + pos] == src[so + i] as int
            } else {
                dst[do_ + (pos - n)] == (0 - src[so + i]) % w
            }
        }
}

/// Apply the ring automorphism X -> X^e to the size-n range of dst at do_, in
/// place. The exponent e must be odd so that the map permutes coefficients.
pub fn poly_automorphism_assign(dst: &mut Vec<u64>, do_: usize, e: usize, n: usize, w: u128)
    requires
        valid_working_modulus(w as int),
        do_ + n <= old(dst)@.len(),
        n >= 1,
        e % 2 == 1,
        e * n <= usize::MAX,
        2 * n <= usize::MAX,
        is_power_of_two(n as int),
        reduced(old(dst)@, w as int),
    ensures
        final(dst)@.len() == old(dst)@.len(),
        reduced(final(dst)@, w as int),
        automorphism_image_ok(
            old(dst)@,
            do_ as int,
            final(dst)@,
            do_ as int,
            n as nat,
            e as int,
            w as int,
        ),
        forall|x: int|
            0 <= x < old(dst)@.len() && !(do_ <= x < do_ + n) ==> final(dst)@[x] == old(dst)@[x],
{
    let dlen: usize = dst.len();
    let two_n = 2 * n;
    let mut scratch = crate::lwe::vec_of_zeros(n);
    let mut i: usize = 0;
    while i < n
        invariant
            i <= n,
            n >= 1,
            two_n == 2 * n,
            e * n <= usize::MAX,
            e % 2 == 1,
            is_power_of_two(n as int),
            do_ + n <= dlen,
            dst@.len() == dlen,
            dst@ == old(dst)@,
            scratch@.len() == n,
            valid_working_modulus(w as int),
            reduced(dst@, w as int),
            reduced(scratch@, w as int),
            forall|ii: int|
                0 <= ii < i ==> {
                    let pos = (#[trigger] (ii * (e as int))) % (2 * n as int);
                    if pos < n {
                        scratch@[pos] == dst@[do_ + ii] as int
                    } else {
                        scratch@[pos - n] == (0 - dst@[do_ + ii]) % (w as int)
                    }
                },
        decreases n - i,
    {
        proof {
            vstd::arithmetic::mul::lemma_mul_inequality(i as int, n as int, e as int);
            vstd::arithmetic::mul::lemma_mul_is_commutative(i as int, e as int);
            vstd::arithmetic::mul::lemma_mul_is_commutative(n as int, e as int);
            vstd::arithmetic::mul::lemma_mul_nonnegative(i as int, e as int);
        }
        let pos = (i * e) % two_n;
        proof {
            vstd::arithmetic::div_mod::lemma_mod_bound((i * e) as int, two_n as int);
        }
        if pos < n {
            let v = dst[do_ + i];
            scratch[pos] = v;
        } else {
            let v = crate::numeric::neg_mod(dst[do_ + i], w);
            scratch[pos - n] = v;
        }
        proof {
            assert forall|ii: int| 0 <= ii < i + 1 implies {
                let p2 = (#[trigger] (ii * (e as int))) % (2 * n as int);
                if p2 < n {
                    scratch@[p2] == dst@[do_ + ii] as int
                } else {
                    scratch@[p2 - n] == (0 - dst@[do_ + ii]) % (w as int)
                }
            } by {
                if ii < i {
                    let p2 = (ii * (e as int)) % (2 * n as int);
                    let p1 = ((i as int) * (e as int)) % (2 * n as int);
                    vstd::arithmetic::mul::lemma_mul_nonnegative(ii, e as int);
                    vstd::arithmetic::div_mod::lemma_mod_bound(ii * (e as int), 2 * n as int);
                    lemma_automorphism_slot_distinct(ii, i as int, e as int, n as int);
                    lemma_slot_is_mod_n(p1, n as int);
                    lemma_slot_is_mod_n(p2, n as int);
                }
            }
        }
        i = i + 1;
    }
    crate::lwe_keyswitch::copy_words(dst, do_, &scratch);
    proof {
        assert forall|ii: int| 0 <= ii < n implies {
            let pos = (#[trigger] (ii * (e as int))) % (2 * n as int);
            if pos < n {
                dst@[do_ + pos] == old(dst)@[do_ + ii] as int
            } else {
                dst@[do_ + (pos - n)] == (0 - old(dst)@[do_ + ii]) % (w as int)
            }
        } by {
            let pos = (ii * (e as int)) % (2 * n as int);
            vstd::arithmetic::mul::lemma_mul_nonnegative(ii, e as int);
            vstd::arithmetic::div_mod::lemma_mod_bound(ii * (e as int), 2 * n as int);
            if pos < n {
                assert(dst@[do_ + pos] == scratch@[pos]);
            } else {
                assert(dst@[do_ + (pos - n)] == scratch@[pos - n]);
            }
        }
        assert forall|y: int| 0 <= y < dst@.len() implies #[trigger] dst@[y] < w as int by {
            if do_ <= y < do_ + n {
                assert(dst@[y] == scratch@[y - do_]);
            }
        }
    }
}

/// A size is a supported polynomial size when it is a power of two (with the
/// exponent small enough for index arithmetic).
pub open spec fn is_power_of_two(n: int) -> bool {
    exists|m: nat| m <= 62 && n == #[trigger] vstd::arithmetic::power2::pow2(m)
}

/// Multiplying by an odd factor is injective modulo a power of two: if e·x is
/// divisible by 2^k for an odd e, then so is x.
pub proof fn lemma_odd_cancel_pow2(e: int, x: int, k: nat)
    requires
        e % 2 == 1,
        e >= 1,
        (e * x) % (vstd::arithmetic::power2::pow2(k) as int) == 0,
    ensures
        x % (vstd::arithmetic::power2::pow2(k) as int) == 0,
{
    let p = vstd::arithmetic::power2::pow2(k) as int;
    vstd::arithmetic::power2::lemma_pow2_pos(k);
    if x >= 0 {
        lemma_odd_cancel_pow2_nonneg(e, x, k);
    } else {
        let d = (e * x) / p;
        vstd::arithmetic::div_mod::lemma_fundamental_div_mod(e * x, p);
        assert(e * (0 - x) == p * (0 - d)) by {
            vstd::arithmetic::mul::lemma_mul_is_distributive_sub(e, 0, x);
            vstd::arithmetic::mul::lemma_mul_is_distributive_sub(p, 0, d);
            vstd::arithmetic::mul::lemma_mul_basics(e);
            vstd::arithmetic::mul::lemma_mul_basics(p);
        }
        assert((e * (0 - x)) % p == 0) by {
            vstd::arithmetic::div_mod::lemma_mod_multiples_basic(0 - d, p);
            vstd::arithmetic::mul::lemma_mul_is_commutative(0 - d, p);
        }
        lemma_odd_cancel_pow2_nonneg(e, 0 - x, k);
        let d2 = (0 - x) / p;
        vstd::arithmetic::div_mod::lemma_fundamental_div_mod(0 - x, p);
        assert(x == p * (0 - d2)) by {
            vstd::arithmetic::mul::lemma_mul_is_distributive_sub(p, 0, d2);
            vstd::arithmetic::mul::lemma_mul_basics(p);
        }
        vstd::arithmetic::div_mod::lemma_mod_multiples_basic(0 - d2, p);
        vstd::arithmetic::mul::lemma_mul_is_commutative(0 - d2, p);
    }
}

/// The nonnegative case of the odd-factor cancellation.
proof fn lemma_odd_cancel_pow2_nonneg(e: int, x: int, k: nat)
    requires
        e % 2 == 1,
        e >= 1,
        x >= 0,
        (e * x) % (vstd::arithmetic::power2::pow2(k) as int) == 0,
    ensures
        x % (vstd::arithmetic::power2::pow2(k) as int) == 0,
    decreases k,
{
    vstd::arithmetic::power2::lemma2_to64();
    if k == 0 {
        vstd::arithmetic::div_mod::lemma_mod_bound(x, 1);
    } else {
        let p = vstd::arithmetic::power2::pow2(k) as int;
        let ph = vstd::arithmetic::power2::pow2((k - 1) as nat) as int;
        vstd::arithmetic::power2::lemma_pow2_pos(k);
        vstd::arithmetic::power2::lemma_pow2_pos((k - 1) as nat);
        assert(p == 2 * ph) by {
            vstd::arithmetic::power2::lemma_pow2_adds(1, (k - 1) as nat);
        }
        // e·x is divisible by 2, so x is even
        let d = (e * x) / p;
        vstd::arithmetic::div_mod::lemma_fundamental_div_mod(e * x, p);
        assert(e * x == p * d);
        assert((e * x) % 2 == 0) by {
            assert(p * d == 2 * (ph * d)) by {
                vstd::arithmetic::mul::lemma_mul_is_associative(2, ph, d);
            }
            vstd::arithmetic::div_mod::lemma_mod_multiples_basic(ph * d, 2);
            vstd::arithmetic::mul::lemma_mul_is_commutative(ph * d, 2);
        }
        assert(x % 2 == 0) by {
            if x % 2 != 0 {
                vstd::arithmetic::div_mod::lemma_mod_bound(x, 2);
                vstd::arithmetic::div_mod::lemma_mul_mod_noop_general(e, x, 2);
                assert((e * x) % 2 == ((e % 2) * (x % 2)) % 2);
                assert(false);
            }
        }
        let x2 = x / 2;
        vstd::arithmetic::div_mod::lemma_fundamental_div_mod(x, 2);
        assert(x == 2 * x2);
        assert(e * x == 2 * (e * x2)) by {
            vstd::arithmetic::mul::lemma_mul_is_associative(e, 2, x2);
            vstd::arithmetic::mul::lemma_mul_is_commutative(e, 2);
            vstd::arithmetic::mul::lemma_mul_is_associative(2, e, x2);
        }
        assert((2 * (e * x2)) % (2 * ph) == 2 * ((e * x2) % ph)) by {
            vstd::arithmetic::div_mod::lemma_truncate_middle(e * x2, 2, ph);
        }
        assert((e * x2) % ph == 0);
        lemma_odd_cancel_pow2_nonneg(e, x2, (k - 1) as nat);
        assert(x % p == 0) by {
            let d2 = x2 / ph;
            vstd::arithmetic::div_mod::lemma_fundamental_div_mod(x2, ph);
            assert(x2 == ph * d2);
            assert(x == p * d2) by {
                vstd::arithmetic::mul::lemma_mul_is_associative(2, ph, d2);
            }
            vstd::arithmetic::div_mod::lemma_mod_multiples_basic(d2, p);
            vstd::arithmetic::mul::lemma_mul_is_commutative(d2, p);
        }
    }
}

/// For p in [0, 2n), the scratch slot (p itself below n, p - n above) is
/// exactly p modulo n.
pub proof fn lemma_slot_is_mod_n(p: int, n: int)
    requires
        n >= 1,
        0 <= p < 2 * n,
    ensures
        p < n ==> p % n == p,
        p >= n ==> p % n == p - n,
{
    if p < n {
        vstd::arithmetic::div_mod::lemma_small_mod(p as nat, n as nat);
    } else {
        assert(p == n * 1 + (p - n));
        vstd::arithmetic::div_mod::lemma_mod_multiples_vanish(1, p - n, n);
        vstd::arithmetic::div_mod::lemma_small_mod((p - n) as nat, n as nat);
    }
}

/// Distinct coefficient indices below a power-of-two n land on distinct
/// scratch slots under the automorphism X -> X^e with an odd e: their images
/// differ modulo n.
pub proof fn lemma_automorphism_slot_distinct(i1: int, i2: int, e: int, n: int)
    requires
        0 <= i1 < n,
        0 <= i2 < n,
        i1 != i2,
        e % 2 == 1,
        e >= 1,
        n >= 1,
        is_power_of_two(n),
    ensures
        ((i1 * e) % (2 * n)) % n != ((i2 * e) % (2 * n)) % n,
{
    let m = choose|m: nat| m <= 62 && n == #[trigger] vstd::arithmetic::power2::pow2(m);
    if ((i1 * e) % (2 * n)) % n == ((i2 * e) % (2 * n)) % n {
        // then i1·e and i2·e agree modulo n
        vstd::arithmetic::div_mod::lemma_mod_mod(i1 * e, n, 2);
        vstd::arithmetic::div_mod::lemma_mod_mod(i2 * e, n, 2);
        assert(n * 2 == 2 * n);
        vstd::arithmetic::mul::lemma_mul_nonnegative(i1, e);
        vstd::arithmetic::mul::lemma_mul_nonnegative(i2, e);
        assert((i1 * e) % n == (i2 * e) % n);
        let x = i1 - i2;
        assert((e * x) % n == 0) by {
            let d1 = (i1 * e) / n;
            let d2 = (i2 * e) / n;
            vstd::arithmetic::div_mod::lemma_fundamental_div_mod(i1 * e, n);
            vstd::arithmetic::div_mod::lemma_fundamental_div_mod(i2 * e, n);
            assert(e * x == n * (d1 - d2)) by {
                vstd::arithmetic::mul::lemma_mul_is_commutative(i1, e);
                vstd::arithmetic::mul::lemma_mul_is_commutative(i2, e);
                vstd::arithmetic::mul::lemma_mul_is_distributive_sub(e, i1, i2);
                vstd::arithmetic::mul::lemma_mul_is_distributive_sub(n, d1, d2);
            }
            vstd::arithmetic::div_mod::lemma_mod_multiples_basic(d1 - d2, n);
            vstd::arithmetic::mul::lemma_mul_is_commutative(d1 - d2, n);
        }
        lemma_odd_cancel_pow2(e, x, m);
        if x > 0 {
            vstd::arithmetic::div_mod::lemma_small_mod(x as nat, n as nat);
            assert(false);
        } else {
            assert(x == n * (0 - 1) + (n + x));
            vstd::arithmetic::div_mod::lemma_mod_multiples_vanish(0 - 1, n + x, n);
            vstd::arithmetic::div_mod::lemma_small_mod((n + x) as nat, n as nat);
            assert(false);
        }
    }
}

/// A list of polynomials sharing one flat coefficient vector.
#[derive(Clone, Debug, PartialEq, Eq)]
pub struct PolynomialList {
    pub data: Vec<u64>,
    pub polynomial_size: crate::parameters::PolynomialSize,
}

impl PolynomialList {
    /// Wrap an existing coefficient vector.
    pub fn from_container(
        container: Vec<u64>,
        polynomial_size: crate::parameters::PolynomialSize,
    ) -> (r: PolynomialList)
        requires
            polynomial_size.0 >= 1,
            container@.len() as int % (polynomial_size.0 as int) == 0,
        ensures
            r.data@ == container@,
            r.polynomial_size == polynomial_size,
    {
        PolynomialList { data: container, polynomial_size }
    }

    /// The polynomial size.
    pub fn polynomial_size(&self) -> (r: crate::parameters::PolynomialSize)
        ensures
            r == self.polynomial_size,
    {
        self.polynomial_size
    }

    /// The number of polynomials.
    pub fn polynomial_count(&self) -> (r: usize)
        requires
            self.polynomial_size.0 >= 1,
        ensures
            r == self.data@.len() as int / self.polynomial_size.0 as int,
    {
        self.data.len() / self.polynomial_size.0
    }

    /// The underlying coefficient vector.
    pub fn into_container(self) -> (r: Vec<u64>)
        ensures
            r@ == self.data@,
    {
        self.data
    }
}

} // verus!

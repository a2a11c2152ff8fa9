//! Plain-value parameter types shared by every entity and algorithm of the
//! library: dimensions, sizes, decomposition parameters, and the ciphertext
//! modulus.

use vstd::prelude::*;
use vstd::arithmetic::power2::*;

verus! {

/// The number of coefficients of a polynomial in the ring Z_q[X]/(X^N + 1).
#[derive(Clone, Copy, Debug, PartialEq, Eq, Structural)]
pub struct PolynomialSize(pub usize);

/// The length of the mask of an LWE ciphertext (and of an LWE secret key).
#[derive(Clone, Copy, Debug, PartialEq, Eq, Structural)]
pub struct LweDimension(pub usize);

/// The total number of elements of an LWE ciphertext: the mask length plus one.
#[derive(Clone, Copy, Debug, PartialEq, Eq, Structural)]
pub struct LweSize(pub usize);

/// The number of mask polynomials of a GLWE ciphertext.
#[derive(Clone, Copy, Debug, PartialEq, Eq, Structural)]
pub struct GlweDimension(pub usize);

/// The total number of polynomials of a GLWE ciphertext: the mask count plus one.
#[derive(Clone, Copy, Debug, PartialEq, Eq, Structural)]
pub struct GlweSize(pub usize);

/// The number of mask polynomials of a CRSGLWE ciphertext.
#[derive(Clone, Copy, Debug, PartialEq, Eq, Structural)]
pub struct CRSGlweDimension(pub usize);

/// The number of body polynomials of a CRSGLWE ciphertext.
#[derive(Clone, Copy, Debug, PartialEq, Eq, Structural)]
pub struct CRSGlweCodimension(pub usize);

/// The shape of a CRSGLWE ciphertext: total polynomial count (mask plus body)
/// and body polynomial count.
#[derive(Clone, Copy, Debug, PartialEq, Eq, Structural)]
pub struct CRSGlweSize(pub usize, pub usize);

/// The length of the mask of a CRSLWE ciphertext.
#[derive(Clone, Copy, Debug, PartialEq, Eq, Structural)]
pub struct CRSLweDimension(pub usize);

/// The number of body elements of a CRSLWE ciphertext.
#[derive(Clone, Copy, Debug, PartialEq, Eq, Structural)]
pub struct CRSLweCodimension(pub usize);

/// The shape of a CRSLWE ciphertext: total element count (mask plus body) and
/// body element count.
#[derive(Clone, Copy, Debug, PartialEq, Eq, Structural)]
pub struct CRSLweSize(pub usize, pub usize);

/// The logarithm in base two of the base B = 2^b of a signed decomposition.
#[derive(Clone, Copy, Debug, PartialEq, Eq, Structural)]
pub struct DecompositionBaseLog(pub usize);

/// The number of levels (digits) of a signed decomposition.
#[derive(Clone, Copy, Debug, PartialEq, Eq, Structural)]
pub struct DecompositionLevelCount(pub usize);

/// The level of one term of a signed decomposition, between 1 and the level
/// count.
#[derive(Clone, Copy, Debug, PartialEq, Eq, Structural)]
pub struct DecompositionLevel(pub usize);

/// The number of plaintexts of a plaintext list.
#[derive(Clone, Copy, Debug, PartialEq, Eq, Structural)]
pub struct PlaintextCount(pub usize);

/// The number of ciphertexts of an LWE ciphertext list.
#[derive(Clone, Copy, Debug, PartialEq, Eq, Structural)]
pub struct LweCiphertextCount(pub usize);

/// The number of ciphertexts of a GLWE ciphertext list.
#[derive(Clone, Copy, Debug, PartialEq, Eq, Structural)]
pub struct GlweCiphertextCount(pub usize);

/// The degree of a monomial X^d used to rotate a negacyclic polynomial.
#[derive(Clone, Copy, Debug, PartialEq, Eq, Structural)]
pub struct MonomialDegree(pub usize);

/// An encoded message, before encryption noise is added.
#[derive(Clone, Copy, Debug, PartialEq, Eq, Structural)]
pub struct Plaintext(pub u64);

impl LweDimension {
    /// The matching LWE size: one body element follows the mask.
    pub fn to_lwe_size(&self) -> (r: LweSize)
        requires
            self.0 < usize::MAX,
        ensures
            r.0 == self.0 + 1,
    {
        LweSize(self.0 + 1)
    }
}

impl LweSize {
    /// The matching LWE dimension: every element but the body.
    pub fn to_lwe_dimension(&self) -> (r: LweDimension)
        requires
            self.0 >= 1,
        ensures
            r.0 == self.0 - 1,
    {
        LweDimension(self.0 - 1)
    }
}

impl GlweDimension {
    /// The matching GLWE size: one body polynomial follows the mask.
    pub fn to_glwe_size(&self) -> (r: GlweSize)
        requires
            self.0 < usize::MAX,
        ensures
            r.0 == self.0 + 1,
    {
        GlweSize(self.0 + 1)
    }
}

impl GlweSize {
    /// The matching GLWE dimension: every polynomial but the body.
    pub fn to_glwe_dimension(&self) -> (r: GlweDimension)
        requires
            self.0 >= 1,
        ensures
            r.0 == self.0 - 1,
    {
        GlweDimension(self.0 - 1)
    }
}

impl CRSGlweSize {
    /// The matching CRSGLWE dimension: the mask polynomial count.
    pub fn to_crs_glwe_dimension(&self) -> (r: CRSGlweDimension)
        requires
            self.1 <= self.0,
        ensures
            r.0 == self.0 - self.1,
    {
        CRSGlweDimension(self.0 - self.1)
    }

    /// The matching CRSGLWE codimension: the body polynomial count.
    pub fn to_crs_glwe_codimension(&self) -> (r: CRSGlweCodimension)
        ensures
            r.0 == self.1,
    {
        CRSGlweCodimension(self.1)
    }
}

impl CRSGlweDimension {
    /// The shape of a ciphertext with this mask dimension and the given body
    /// codimension.
    pub fn to_crs_glwe_size(&self, codimension: CRSGlweCodimension) -> (r: CRSGlweSize)
        requires
            self.0 + codimension.0 <= usize::MAX,
        ensures
            r.0 == self.0 + codimension.0,
            r.1 == codimension.0,
    {
        CRSGlweSize(self.0 + codimension.0, codimension.0)
    }
}

impl CRSLweSize {
    /// The matching CRSLWE dimension: the mask element count.
    pub fn to_crs_lwe_dimension(&self) -> (r: CRSLweDimension)
        requires
            self.1 <= self.0,
        ensures
            r.0 == self.0 - self.1,
    {
        CRSLweDimension(self.0 - self.1)
    }

    /// The matching CRSLWE codimension: the body element count.
    pub fn to_crs_lwe_codimension(&self) -> (r: CRSLweCodimension)
        ensures
            r.0 == self.1,
    {
        CRSLweCodimension(self.1)
    }
}

impl CRSLweDimension {
    /// The shape of a ciphertext with this mask dimension and the given body
    /// codimension.
    pub fn to_crs_lwe_size(&self, codimension: CRSLweCodimension) -> (r: CRSLweSize)
        requires
            self.0 + codimension.0 <= usize::MAX,
        ensures
            r.0 == self.0 + codimension.0,
            r.1 == codimension.0,
    {
        CRSLweSize(self.0 + codimension.0, codimension.0)
    }
}

/// A dispersion parameter: it controls the magnitude of the bell-shaped noise
/// injected at encryption. A noise sample is a centered sum of uniform bytes
/// shifted left by `log2_scale`, so the standard deviation of the noise grows
/// as 2^log2_scale.
#[derive(Clone, Copy, Debug, PartialEq, Eq, Structural)]
pub struct StandardDev {
    pub log2_scale: usize,
}

/// The ciphertext modulus q.
///
/// The modulus is native when q = 2^64: arithmetic then wraps at the bit width
/// of the `u64` coefficients. Any other supported modulus (a smaller power of
/// two, or an odd value) is a custom modulus.
#[derive(Clone, Copy, Debug, PartialEq, Eq, Structural)]
pub struct CiphertextModulus {
    q: u128,
}

/// The native modulus 2^64 as a `u128`.
pub open spec fn native_modulus() -> int {
    0x1_0000_0000_0000_0000
}

impl CiphertextModulus {
    /// The modulus value as an integer.
    pub closed spec fn modulus(&self) -> int {
        self.q as int
    }

    /// A modulus is supported when it is at least two and at most 2^64.
    pub open spec fn well_formed(&self) -> bool {
        2 <= self.modulus() <= 0x1_0000_0000_0000_0000u128
    }

    /// The modulus that all coefficient arithmetic works under: the modulus
    /// times its scaling factor. It is 2^64 for the native modulus and for any
    /// power-of-two modulus; it is q itself for an odd modulus wider than 63
    /// bits.
    pub open spec fn working_modulus(&self) -> int {
        self.modulus() * self.scaling_to_native_torus()
    }

    /// The native modulus 2^64.
    pub fn new_native() -> (r: Self)
        ensures
            r.modulus() == native_modulus(),
            r.well_formed(),
    {
        CiphertextModulus { q: 0x1_0000_0000_0000_0000u128 }
    }

    /// Wrap a custom modulus value. Returns `None` exactly when the value is
    /// below two or above 2^64.
    pub fn try_new(modulus: u128) -> (r: Option<Self>)
        ensures
            (2 <= modulus <= 0x1_0000_0000_0000_0000u128) <==> r is Some,
            r is Some ==> r.unwrap().modulus() == modulus && r.unwrap().well_formed(),
    {
        if 2 <= modulus && modulus <= 0x1_0000_0000_0000_0000u128 {
            Some(CiphertextModulus { q: modulus })
        } else {
            None
        }
    }

    /// Whether this is the native modulus 2^64.
    pub fn is_native_modulus(&self) -> (r: bool)
        ensures
            r <==> self.modulus() == native_modulus(),
    {
        self.q == 0x1_0000_0000_0000_0000u128
    }

    /// The value of a custom modulus.
    pub fn get_custom_modulus(&self) -> (r: u128)
        requires
            self.modulus() != native_modulus(),
        ensures
            r == self.modulus(),
    {
        self.q
    }

    /// The value of the modulus, native included.
    pub fn get(&self) -> (r: u128)
        ensures
            r == self.modulus(),
    {
        self.q
    }

    /// Whether the modulus is odd.
    pub fn is_odd(&self) -> (r: bool)
        ensures
            r <==> self.modulus() % 2 == 1,
    {
        self.q % 2 == 1
    }

    /// The number of bits needed to write q - 1, i.e. the smallest w with
    /// q <= 2^w.
    pub closed spec fn ceil_log2(&self) -> nat {
        choose|w: nat|
            w <= 64 && #[trigger] pow2(w) >= self.q && (w == 0 || pow2((w - 1) as nat) < self.q)
    }

    /// The factor that carries a value modulo q into the high bits of a native
    /// 64-bit word: 2^(64 - w) where w is the bit width of q. It is 1 for the
    /// native modulus and for any custom modulus wider than 63 bits.
    pub closed spec fn scaling_to_native_torus(&self) -> int {
        pow2((64 - self.ceil_log2()) as nat) as int
    }

    /// Compute the scaling factor to the native torus.
    pub fn get_scaling_to_native_torus(&self) -> (r: u64)
        requires
            self.well_formed(),
        ensures
            r == self.scaling_to_native_torus(),
            r >= 1,
    {
        let mut w: usize = 0;
        let mut p: u128 = 1;
        proof {
            lemma2_to64();
        }
        while p < self.q
            invariant
                w <= 64,
                p == pow2(w as nat),
                2 <= self.q <= 0x1_0000_0000_0000_0000u128,
                w > 0 ==> pow2((w - 1) as nat) < self.q,
            decreases 64 - w,
        {
            proof {
                lemma2_to64();
                lemma2_to64_rest();
                if w >= 64 {
                    if w > 64 {
                        lemma_pow2_strictly_increases(64, w as nat);
                    }
                    assert(pow2(w as nat) >= pow2(64));
                    assert(false);
                }
                lemma_pow2_adds(w as nat, 1);
                lemma_pow2_pos(w as nat);
            }
            p = p * 2;
            w = w + 1;
        }
        proof {
            lemma2_to64();
            if w == 0 {
                assert(p == 1);
                assert(false);
            }
            lemma_ceil_log2_unique(*self, w as nat);
        }
        let shift: u64 = 64 - (w as u64);
        proof {
            vstd::bits::lemma_u64_pow2_no_overflow(shift as nat);
            vstd::bits::lemma_u64_shl_is_mul(1u64, shift);
            vstd::arithmetic::power2::lemma_pow2_pos(shift as nat);
        }
        1u64 << shift
    }
}

impl CiphertextModulus {
    /// Compute the working modulus: the modulus times its scaling factor.
    pub fn get_working_modulus(&self) -> (r: u128)
        requires
            self.well_formed(),
        ensures
            r == self.working_modulus(),
    {
        proof {
            lemma_modulus_facts(*self);
        }
        self.get() * (self.get_scaling_to_native_torus() as u128)
    }
}

/// For every value from 1 up to 2^k there is a bit width w at most k.
proof fn lemma_log2_exists_upto(q: int, k: nat)
    requires
        1 <= q <= pow2(k),
    ensures
        exists|w: nat| w <= k && #[trigger] pow2(w) >= q && (w == 0 || pow2((w - 1) as nat) < q),
    decreases k,
{
    lemma2_to64();
    if q == 1 {
        assert(0nat <= k && pow2(0nat) >= q && (0nat == 0 || pow2((0nat - 1) as nat) < q));
    } else if k > 0 && q <= pow2((k - 1) as nat) {
        lemma_log2_exists_upto(q, (k - 1) as nat);
        let w = choose|w: nat|
            w <= (k - 1) as nat && #[trigger] pow2(w) >= q && (w == 0 || pow2((w - 1) as nat) < q);
        assert(w <= k && pow2(w) >= q && (w == 0 || pow2((w - 1) as nat) < q));
    } else {
        assert(k > 0);
        assert(k <= k && pow2(k) >= q && (k == 0 || pow2((k - 1) as nat) < q));
    }
}

/// The arithmetic facts about a well-formed modulus that the rest of the
/// library leans on: the scaling factor is a positive power of two and the
/// working modulus lies between 2 and 2^64, with scaling exactly 1 for the
/// native modulus.
pub proof fn lemma_modulus_facts(m: CiphertextModulus)
    requires
        m.well_formed(),
    ensures
        2 <= m.modulus() <= pow2(64),
        1 <= m.scaling_to_native_torus(),
        m.scaling_to_native_torus() == pow2((64 - m.ceil_log2()) as nat),
        m.ceil_log2() <= 64,
        2 <= m.working_modulus() <= pow2(64),
        m.modulus() == native_modulus() ==> m.scaling_to_native_torus() == 1,
        pow2(64) == native_modulus(),
{
    lemma2_to64();
    lemma2_to64_rest();
    assert(pow2(64) == native_modulus());
    lemma_log2_exists_upto(m.modulus(), 64);
    let w = m.ceil_log2();
    assert(w <= 64 && pow2(w) >= m.modulus() && (w == 0 || pow2((w - 1) as nat) < m.modulus()));
    lemma_pow2_pos((64 - w) as nat);
    lemma_pow2_adds(w, (64 - w) as nat);
    assert(m.modulus() * pow2((64 - w) as nat) <= pow2(w) * pow2((64 - w) as nat)) by {
        vstd::arithmetic::mul::lemma_mul_inequality(
            m.modulus(),
            pow2(w) as int,
            pow2((64 - w) as nat) as int,
        );
    }
    assert(m.working_modulus() >= 2 * 1) by {
        vstd::arithmetic::mul::lemma_mul_inequality(
            2,
            m.modulus(),
            m.scaling_to_native_torus(),
        );
    }
    if m.modulus() == native_modulus() {
        if w < 64 {
            lemma_pow2_strictly_increases(w, 64);
            assert(false);
        }
    }
}

/// Two moduli are equal exactly when their values agree.
pub proof fn lemma_modulus_eq(a: CiphertextModulus, b: CiphertextModulus)
    ensures
        (a == b) <==> (a.modulus() == b.modulus()),
{
}

/// The bit width of a well-formed modulus is the unique w at most 64 with
/// 2^w >= q and 2^(w-1) < q.
pub proof fn lemma_ceil_log2_unique(m: CiphertextModulus, w: nat)
    requires
        m.well_formed(),
        w <= 64,
        pow2(w) >= m.modulus(),
        w == 0 || pow2((w - 1) as nat) < m.modulus(),
    ensures
        m.ceil_log2() == w,
{
    assert(w <= 64 && pow2(w) >= m.modulus() && (w == 0 || pow2((w - 1) as nat) < m.modulus()));
    let cw = m.ceil_log2();
    assert(cw <= 64 && pow2(cw) >= m.modulus() && (cw == 0 || pow2((cw - 1) as nat) < m.modulus()));
    lemma2_to64();
    if cw < w {
        if cw < (w - 1) as nat {
            lemma_pow2_strictly_increases(cw, (w - 1) as nat);
        }
        assert(pow2((w - 1) as nat) >= pow2(cw));
        assert(false);
    }
    if cw > w {
        if w < (cw - 1) as nat {
            lemma_pow2_strictly_increases(w, (cw - 1) as nat);
        }
        assert(pow2((cw - 1) as nat) >= pow2(w));
        assert(false);
    }
}

} // verus!

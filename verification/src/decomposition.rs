//! The signed radix decomposition engine: rounding to the closest
//! representable value, the balanced digit iterators, and recomposition.
//!
//! A decomposition with base log b and level count l writes a rounded value as
//! l signed digits of magnitude at most B/2 = 2^(b-1); digit i carries the
//! weight B^(l-i)·unit, where the unit is 2^(64-bl) for the native modulus and
//! floor(q/B^l) for a custom modulus q. The digits come out of one shared
//! recurrence (`dig`, `car`, `nxt`, `tval`), and one telescoping lemma shows
//! that the signed summands of a state always add back to the state times its
//! weight — which is the decompose/recompose identity.

use vstd::prelude::*;
use vstd::arithmetic::power2::*;
use crate::parameters::{CiphertextModulus, DecompositionBaseLog, DecompositionLevel,
    DecompositionLevelCount};
use crate::random::pow2_u128;

verus! {

/// Division of nonnegative a by positive d, rounded to the nearest integer
/// (half up).
pub open spec fn round_div(a: int, d: int) -> int {
    (a + d / 2) / d
}

/// B^j as an integer, for base log b.
pub open spec fn bpow(b: nat, j: nat) -> int {
    pow2((b * j) as nat) as int
}

/// The low digit of a state: its residue modulo B.
pub open spec fn dig(s: int, b: nat) -> int {
    s % (pow2(b) as int)
}

/// Whether extracting the low digit carries into the next one: a digit above
/// B/2 always carries; a digit of exactly B/2 carries when the next digit
/// would be at least B/2 (balanced tie break).
pub open spec fn car(s: int, b: nat) -> int {
    let half = pow2((b - 1) as nat) as int;
    if dig(s, b) > half {
        1
    } else if dig(s, b) == half && (s / (pow2(b) as int)) % (pow2(b) as int) >= half {
        1
    } else {
        0
    }
}

/// The state left after extracting the low digit.
pub open spec fn nxt(s: int, b: nat) -> int {
    s / (pow2(b) as int) + car(s, b)
}

/// The signed value of the extracted digit, in [-B/2, B/2].
pub open spec fn tval(s: int, b: nat) -> int {
    dig(s, b) - car(s, b) * (pow2(b) as int)
}

/// The state left after extracting k digits.
pub open spec fn state_after(s: int, b: nat, k: nat) -> int
    decreases k,
{
    if k == 0 {
        s
    } else {
        state_after(nxt(s, b), b, (k - 1) as nat)
    }
}

/// The exact integer sum of the summands of the k lowest-weight digits of s,
/// for a decomposition with l levels in total and the given unit: the digit
/// extracted first carries level k and weight B^(l-k)·unit.
pub open spec fn signed_sum(s: int, b: nat, k: nat, l: nat, unit: int) -> int
    decreases k,
{
    if k == 0 {
        0
    } else {
        tval(s, b) * bpow(b, (l - k) as nat) * unit + signed_sum(
            nxt(s, b),
            b,
            (k - 1) as nat,
            l,
            unit,
        )
    }
}

/// Extracting a digit splits the state exactly: s == tval + B·nxt.
pub proof fn lemma_digit_split(s: int, b: nat)
    requires
        b >= 1,
        s >= 0,
    ensures
        tval(s, b) + (pow2(b) as int) * nxt(s, b) == s,
{
    let bb = pow2(b) as int;
    lemma_pow2_pos(b);
    vstd::arithmetic::div_mod::lemma_fundamental_div_mod(s, bb);
    vstd::arithmetic::mul::lemma_mul_is_distributive_add(bb, s / bb, car(s, b));
    assert(bb * car(s, b) == car(s, b) * bb) by {
        vstd::arithmetic::mul::lemma_mul_is_commutative(bb, car(s, b));
    }
}

/// The telescoping identity: the signed summands of the k lowest digits plus
/// the remaining state at its weight give back the state at its own weight.
pub proof fn lemma_signed_sum_telescopes(s: int, b: nat, k: nat, l: nat, unit: int)
    requires
        b >= 1,
        k <= l,
        s >= 0,
    ensures
        signed_sum(s, b, k, l, unit) + state_after(s, b, k) * bpow(b, l) * unit == s * bpow(
            b,
            (l - k) as nat,
        ) * unit,
    decreases k,
{
    if k == 0 {
    } else {
        let bb = pow2(b) as int;
        let s1 = nxt(s, b);
        lemma_pow2_pos(b);
        vstd::arithmetic::div_mod::lemma_div_pos_is_pos(s, bb);
        assert(s1 >= 0);
        lemma_signed_sum_telescopes(s1, b, (k - 1) as nat, l, unit);
        lemma_digit_split(s, b);
        let wk = bpow(b, (l - k) as nat);
        let wk1 = bpow(b, (l - k + 1) as nat);
        assert(wk1 == bb * wk) by {
            lemma_pow2_adds(b, (b * (l - k)) as nat);
            assert((b * (l - k + 1)) as nat == b + (b * (l - k)) as nat) by {
                vstd::arithmetic::mul::lemma_mul_is_distributive_add(b as int, (l - k) as int, 1);
            }
        }
        assert(state_after(s, b, k) == state_after(s1, b, (k - 1) as nat));
        // signed_sum(s, k) == tval·wk·unit + signed_sum(s1, k-1)
        // == tval·wk·unit + s1·wk1·unit - state_after·B^l·unit
        assert(tval(s, b) * wk * unit + s1 * wk1 * unit == s * wk * unit) by {
            assert(s1 * wk1 == s1 * (bb * wk)) by {
                vstd::arithmetic::mul::lemma_mul_is_commutative(s1, wk1);
                vstd::arithmetic::mul::lemma_mul_is_commutative(s1, bb * wk);
            }
            assert(s1 * (bb * wk) == (s1 * bb) * wk) by {
                vstd::arithmetic::mul::lemma_mul_is_associative(s1, bb, wk);
            }
            assert(s1 * bb == bb * s1) by {
                vstd::arithmetic::mul::lemma_mul_is_commutative(s1, bb);
            }
            assert((tval(s, b) + bb * s1) * wk == tval(s, b) * wk + (bb * s1) * wk) by {
                vstd::arithmetic::mul::lemma_mul_is_distributive_add_other_way(
                    wk,
                    tval(s, b),
                    bb * s1,
                );
            }
            assert((tval(s, b) + bb * s1) * wk == s * wk);
            vstd::arithmetic::mul::lemma_mul_is_distributive_add_other_way(
                unit,
                tval(s, b) * wk,
                (bb * s1) * wk,
            );
        }
        vstd::arithmetic::mul::lemma_mul_is_distributive_add_other_way(
            unit,
            tval(s, b) * wk,
            s1 * wk1,
        );
    }
}

/// One term of a signed decomposition under the native modulus: a digit value
/// (wrapped to a word), its level, and the base log.
#[derive(Clone, Copy, Debug, PartialEq, Eq, Structural)]
pub struct DecompositionTerm {
    level: usize,
    base_log: usize,
    value: u64,
}

/// The recomposition summand of a native-modulus term: value·2^(64-b·level),
/// wrapped to a word.
pub open spec fn native_summand(value: u64, base_log: nat, level: nat) -> int {
    (value * pow2((64 - base_log * level) as nat)) % 0x1_0000_0000_0000_0000
}

impl DecompositionTerm {
    /// Assemble a term.
    pub fn new(level: DecompositionLevel, base_log: DecompositionBaseLog, value: u64) -> (r:
        DecompositionTerm)
        ensures
            r.level_spec() == level.0,
            r.base_log_spec() == base_log.0,
            r.value_spec() == value,
    {
        DecompositionTerm { level: level.0, base_log: base_log.0, value }
    }

    /// The level of the term.
    pub closed spec fn level_spec(&self) -> nat {
        self.level as nat
    }

    /// The base log of the term.
    pub closed spec fn base_log_spec(&self) -> nat {
        self.base_log as nat
    }

    /// The wrapped digit value of the term.
    pub closed spec fn value_spec(&self) -> u64 {
        self.value
    }

    /// Turn the term into its recomposition summand value·2^(64-b·level).
    pub fn to_recomposition_summand(&self) -> (r: u64)
        requires
            1 <= self.base_log_spec() * self.level_spec() < 64,
        ensures
            r == native_summand(self.value_spec(), self.base_log_spec(), self.level_spec()),
    {
        let shift: usize = 64 - self.base_log * self.level;
        let p = pow2_u128(shift);
        proof {
            lemma_pow2_strictly_increases(shift as nat, 64);
            lemma2_to64();
            lemma_pow2_adds(32, 32);
            lemma2_to64_rest();
            vstd::arithmetic::mul::lemma_mul_upper_bound(
                self.value as int,
                0xffff_ffff_ffff_ffff,
                p as int,
                0xffff_ffff_ffff_ffff,
            );
        }
        let wide = (self.value as u128) * p;
        proof {
            lemma_u128_low_word(wide);
        }
        (wide % 0x1_0000_0000_0000_0000u128) as u64
    }

    /// The wrapped digit value.
    pub fn value(&self) -> (r: u64)
        ensures
            r == self.value_spec(),
    {
        self.value
    }

    /// The level of the term.
    pub fn level(&self) -> (r: DecompositionLevel)
        ensures
            r.0 == self.level_spec(),
    {
        DecompositionLevel(self.level)
    }
}

/// The low 64 bits of a 128-bit value are its residue modulo 2^64.
pub proof fn lemma_u128_low_word(x: u128)
    ensures
        (x % 0x1_0000_0000_0000_0000u128) as int == (x as int) % 0x1_0000_0000_0000_0000,
        (x % 0x1_0000_0000_0000_0000u128) < 0x1_0000_0000_0000_0000u128,
{
}

/// 2^e as a 64-bit word, for exponents at most 63.
pub fn pow2_u64(e: usize) -> (r: u64)
    requires
        e <= 63,
    ensures
        r == pow2(e as nat),
        r >= 1,
{
    proof {
        lemma_pow2_strictly_increases(e as nat, 64);
        lemma_pow2_pos(e as nat);
        lemma2_to64();
        lemma_pow2_adds(32, 32);
        lemma2_to64_rest();
    }
    pow2_u128(e) as u64
}

/// The word 2^64, the native modulus.
pub open spec fn word_modulus() -> int {
    0x1_0000_0000_0000_0000
}

/// The closest value representable by a native-modulus decomposition with
/// base log b and level count l: the input rounded to the nearest multiple of
/// 2^(64-bl), wrapped to a word.
pub open spec fn closest_native(x: u64, b: nat, l: nat) -> int {
    let step = pow2((64 - b * l) as nat) as int;
    (round_div(x as int, step) * step) % word_modulus()
}

/// Decomposition parameters are usable when base log and level count are
/// positive and their product leaves at least one non-representable bit.
pub open spec fn native_params_ok(b: nat, l: nat) -> bool {
    1 <= b && 1 <= l && b * l < 64
}

/// A structure which decomposes unsigned words into a set of smaller signed
/// terms, under the native modulus.
#[derive(Clone, Copy, Debug, PartialEq, Eq, Structural)]
pub struct SignedDecomposer {
    base_log: usize,
    level_count: usize,
}

impl SignedDecomposer {
    /// The base log of the decomposer.
    pub closed spec fn base_log_spec(&self) -> nat {
        self.base_log as nat
    }

    /// The level count of the decomposer.
    pub closed spec fn level_count_spec(&self) -> nat {
        self.level_count as nat
    }

    /// Whether the parameters are usable.
    pub open spec fn well_formed(&self) -> bool {
        native_params_ok(self.base_log_spec(), self.level_count_spec())
    }

    /// Create a new decomposer. The decomposed bits b·l must stay below the
    /// word width.
    pub fn new(base_log: DecompositionBaseLog, level_count: DecompositionLevelCount) -> (r:
        SignedDecomposer)
        requires
            1 <= base_log.0,
            1 <= level_count.0,
            base_log.0 * level_count.0 < 64,
        ensures
            r.base_log_spec() == base_log.0,
            r.level_count_spec() == level_count.0,
            r.well_formed(),
    {
        SignedDecomposer { base_log: base_log.0, level_count: level_count.0 }
    }

    /// The base log of the decomposer.
    pub fn base_log(&self) -> (r: DecompositionBaseLog)
        ensures
            r.0 == self.base_log_spec(),
    {
        DecompositionBaseLog(self.base_log)
    }

    /// The level count of the decomposer.
    pub fn level_count(&self) -> (r: DecompositionLevelCount)
        ensures
            r.0 == self.level_count_spec(),
    {
        DecompositionLevelCount(self.level_count)
    }

    /// Round the input to the closest value representable by the
    /// decomposition: the nearest multiple of 2^(64-bl), wrapped to a word.
    pub fn closest_representable(&self, input: u64) -> (r: u64)
        requires
            self.well_formed(),
        ensures
            r == closest_native(input, self.base_log_spec(), self.level_count_spec()),
    {
        proof {
            vstd::arithmetic::mul::lemma_mul_inequality(
                1,
                self.base_log as int,
                self.level_count as int,
            );
        }
        let shift: usize = 64 - self.base_log * self.level_count;
        let step = pow2_u64(shift);
        let rounded: u128 = ((input as u128) + ((step / 2) as u128)) / (step as u128);
        proof {
            vstd::arithmetic::div_mod::lemma_fundamental_div_mod(
                input as int + (step / 2) as int,
                step as int,
            );
            vstd::arithmetic::mul::lemma_mul_is_commutative(step as int, rounded as int);
        }
        let wide: u128 = rounded * (step as u128);
        proof {
            lemma_u128_low_word(wide);
        }
        (wide % 0x1_0000_0000_0000_0000u128) as u64
    }

    /// Generate the iterator over the signed terms of the decomposition of the
    /// input, from the highest level (smallest weight) down to level one. The
    /// iterator starts fresh, and its terms recompose to the closest
    /// representable value of the input.
    pub fn decompose(&self, input: u64) -> (r: SignedDecompositionIter)
        requires
            self.well_formed(),
        ensures
            r.base_log_spec() == self.base_log_spec(),
            r.level_count_spec() == self.level_count_spec(),
            r.current_level_spec() == self.level_count_spec(),
            r.fresh_spec(),
            r.well_formed(),
            r.state_spec() == round_div(
                input as int,
                pow2((64 - self.base_log_spec() * self.level_count_spec()) as nat) as int,
            ) % bpow(self.base_log_spec(), self.level_count_spec()),
            (r.state_spec() * pow2(
                (64 - self.base_log_spec() * self.level_count_spec()) as nat,
            )) % word_modulus() == closest_native(
                input,
                self.base_log_spec(),
                self.level_count_spec(),
            ),
    {
        proof {
            vstd::arithmetic::mul::lemma_mul_inequality(
                1,
                self.base_log as int,
                self.level_count as int,
            );
        }
        let shift: usize = 64 - self.base_log * self.level_count;
        let step = pow2_u64(shift);
        let bl: usize = self.base_log * self.level_count;
        let bpow_bl = pow2_u64(bl);
        let rounded: u128 = ((input as u128) + ((step / 2) as u128)) / (step as u128);
        let state: u64 = (rounded % (bpow_bl as u128)) as u64;
        proof {
            lemma_pow2_pos(shift as nat);
            lemma_pow2_pos(bl as nat);
            lemma_state_times_step(
                round_div(input as int, step as int),
                self.base_log_spec(),
                self.level_count_spec(),
            );
        }
        SignedDecompositionIter {
            base_log: self.base_log,
            level_count: self.level_count,
            state,
            current_level: self.level_count,
            fresh: true,
        }
    }

    /// Recompose the terms of a fresh decomposition iterator by summing all
    /// its summands, wrapped to a word. A fresh iterator recomposes exactly to
    /// the closest representable value it was built from; an iterator that was
    /// already advanced gives nothing.
    pub fn recompose(&self, decomp: SignedDecompositionIter) -> (r: Option<u64>)
        requires
            self.well_formed(),
            decomp.well_formed(),
            decomp.base_log_spec() == self.base_log_spec(),
            decomp.level_count_spec() == self.level_count_spec(),
        ensures
            r is Some <==> decomp.fresh_spec(),
            decomp.fresh_spec() ==> r == Some(
                (((decomp.state_spec() * pow2(
                    (64 - self.base_log_spec() * self.level_count_spec()) as nat,
                )) % word_modulus()) as u64),
            ),
    {
        if !decomp.is_fresh() {
            return None;
        }
        let ghost b = self.base_log_spec();
        let ghost l = self.level_count_spec();
        let ghost unit = pow2((64 - b * l) as nat) as int;
        let ghost s0 = decomp.state_spec() as int;
        let mut it = decomp;
        let mut acc: u64 = 0;
        proof {
            lemma_pow2_pos((64 - b * l) as nat);
        }
        while it.current_level > 0
            invariant
                it.base_log_spec() == b,
                it.level_count_spec() == l,
                native_params_ok(b, l),
                it.well_formed(),
                it.current_level_spec() <= l,
                unit == pow2((64 - b * l) as nat) as int,
                it.state_spec() == state_after(s0, b, (l - it.current_level_spec()) as nat),
                s0 >= 0,
                (acc + signed_sum(it.state_spec() as int, b, it.current_level_spec(), l, unit))
                    % word_modulus() == signed_sum(s0, b, l, l, unit) % word_modulus(),
            decreases it.current_level_spec(),
        {
            let ghost k = it.current_level_spec();
            let ghost st = it.state_spec() as int;
            proof {
                vstd::arithmetic::mul::lemma_mul_inequality(1, k as int, b as int);
                vstd::arithmetic::mul::lemma_mul_inequality(k as int, l as int, b as int);
                vstd::arithmetic::mul::lemma_mul_is_commutative(k as int, b as int);
                vstd::arithmetic::mul::lemma_mul_is_commutative(l as int, b as int);
            }
            let term_opt = it.next();
            let term = term_opt.unwrap();
            let summand = term.to_recomposition_summand();
            proof {
                let tvw = tval(st, b) * bpow(b, (l - k) as nat) * unit;
                assert(bpow(b, (l - k) as nat) * unit == pow2((64 - b * k) as nat) as int) by {
                    lemma_pow2_adds((b * (l - k)) as nat, (64 - b * l) as nat);
                    assert((b * (l - k)) as nat + (64 - b * l) as nat == (64 - b * k) as nat) by {
                        vstd::arithmetic::mul::lemma_mul_is_distributive_sub(b as int, l as int, k as int);
                    }
                }
                assert(summand as int == tvw % word_modulus()) by {
                    vstd::arithmetic::div_mod::lemma_mul_mod_noop_left(
                        tval(st, b),
                        pow2((64 - b * k) as nat) as int,
                        word_modulus(),
                    );
                    vstd::arithmetic::mul::lemma_mul_is_associative(
                        tval(st, b),
                        bpow(b, (l - k) as nat),
                        unit,
                    );
                }
                lemma_state_after_unfold(s0, b, (l - k) as nat);
            }
            let new_acc = acc.wrapping_add(summand);
            proof {
                let tvw = tval(st, b) * bpow(b, (l - k) as nat) * unit;
                let tail = signed_sum(nxt(st, b), b, (k - 1) as nat, l, unit);
                lemma_mod_add_left(acc + summand, tail, word_modulus());
                lemma_mod_add_left(tvw, acc as int + tail, word_modulus());
                assert((new_acc + tail) % word_modulus() == (acc + tvw + tail) % word_modulus());
            }
            acc = new_acc;
        }
        proof {
            lemma_signed_sum_telescopes(s0, b, l, l, unit);
            lemma_telescoped_sum_mod(s0, b, l, unit);
            vstd::arithmetic::div_mod::lemma_small_mod(acc as nat, word_modulus() as nat);
        }
        Some(acc)
    }
}

/// A signed digit lies within half the base on either side.
pub proof fn lemma_tval_range(s: int, b: nat)
    requires
        1 <= b <= 63,
    ensures
        0 - pow2((b - 1) as nat) <= tval(s, b) <= pow2((b - 1) as nat),
{
    let bb = pow2(b) as int;
    let half = pow2((b - 1) as nat) as int;
    lemma_pow2_adds((b - 1) as nat, 1);
    lemma2_to64();
    lemma_pow2_pos((b - 1) as nat);
    vstd::arithmetic::div_mod::lemma_mod_bound(s, bb);
    assert(bb == half * 2);
}

/// Peeling one digit from the state after j digits gives the state after j+1.
pub proof fn lemma_state_after_unfold(s: int, b: nat, j: nat)
    ensures
        nxt(state_after(s, b, j), b) == state_after(s, b, (j + 1) as nat),
    decreases j,
{
    if j == 0 {
        assert(state_after(s, b, 1) == state_after(nxt(s, b), b, 0));
    } else {
        lemma_state_after_unfold(nxt(s, b), b, (j - 1) as nat);
        assert(state_after(s, b, (j + 1) as nat) == state_after(nxt(s, b), b, j));
    }
}

/// ((x % m) + y) % m == (x + y) % m.
pub proof fn lemma_mod_add_left(x: int, y: int, m: int)
    requires
        m >= 2,
    ensures
        ((x % m) + y) % m == (x + y) % m,
{
    vstd::arithmetic::div_mod::lemma_add_mod_noop(x, y, m);
    vstd::arithmetic::div_mod::lemma_mod_twice(x, m);
    vstd::arithmetic::div_mod::lemma_add_mod_noop(x % m, y, m);
    vstd::arithmetic::div_mod::lemma_mod_twice(y, m);
}

/// Reducing the rounded value modulo B^l before re-scaling does not change the
/// wrapped product: both give the closest representable value.
pub proof fn lemma_state_times_step(r0: int, b: nat, l: nat)
    requires
        native_params_ok(b, l),
        r0 >= 0,
    ensures
        ((r0 % bpow(b, l)) * pow2((64 - b * l) as nat)) % word_modulus() == (r0 * pow2(
            (64 - b * l) as nat,
        )) % word_modulus(),
{
    let bb = bpow(b, l);
    let step = pow2((64 - b * l) as nat) as int;
    lemma_pow2_pos((b * l) as nat);
    lemma_pow2_pos((64 - b * l) as nat);
    assert(bb * step == word_modulus()) by {
        lemma_pow2_adds((b * l) as nat, (64 - b * l) as nat);
        lemma2_to64();
        lemma_pow2_adds(32, 32);
        lemma2_to64_rest();
    }
    let d = r0 / bb;
    vstd::arithmetic::div_mod::lemma_fundamental_div_mod(r0, bb);
    assert(r0 * step == (bb * d + r0 % bb) * step);
    assert((bb * d + r0 % bb) * step == (bb * d) * step + (r0 % bb) * step) by {
        vstd::arithmetic::mul::lemma_mul_is_distributive_add_other_way(step, bb * d, r0 % bb);
    }
    assert((bb * d) * step == d * (bb * step)) by {
        vstd::arithmetic::mul::lemma_mul_is_commutative(bb, d);
        vstd::arithmetic::mul::lemma_mul_is_associative(d, bb, step);
    }
    vstd::arithmetic::div_mod::lemma_mod_multiples_vanish(d, (r0 % bb) * step, word_modulus());
}

/// An iterator over the signed terms of one native-modulus decomposition,
/// from the highest level down to level one.
#[derive(Clone, Copy, Debug, PartialEq, Eq, Structural)]
pub struct SignedDecompositionIter {
    base_log: usize,
    level_count: usize,
    state: u64,
    current_level: usize,
    fresh: bool,
}

impl SignedDecompositionIter {
    /// The base log of the decomposition.
    pub closed spec fn base_log_spec(&self) -> nat {
        self.base_log as nat
    }

    /// The level count of the decomposition.
    pub closed spec fn level_count_spec(&self) -> nat {
        self.level_count as nat
    }

    /// The remaining digit state.
    pub closed spec fn state_spec(&self) -> u64 {
        self.state
    }

    /// The level the next term will carry; zero when the iterator is done.
    pub closed spec fn current_level_spec(&self) -> nat {
        self.current_level as nat
    }

    /// Whether no term was handed out yet.
    pub closed spec fn fresh_spec(&self) -> bool {
        self.fresh
    }

    /// The iterator invariant.
    pub open spec fn well_formed(&self) -> bool {
        &&& native_params_ok(self.base_log_spec(), self.level_count_spec())
        &&& self.current_level_spec() <= self.level_count_spec()
        &&& (self.fresh_spec() ==> self.current_level_spec() == self.level_count_spec())
    }

    /// Whether the iterator was not yet advanced.
    pub fn is_fresh(&self) -> (r: bool)
        ensures
            r == self.fresh_spec(),
    {
        self.fresh
    }

    /// The next term of the decomposition, or nothing when all level-count
    /// terms came out. Term k carries level k and the wrapped signed digit of
    /// the current state; the state advances by the balanced-digit recurrence.
    pub fn next(&mut self) -> (r: Option<DecompositionTerm>)
        requires
            old(self).well_formed(),
        ensures
            final(self).well_formed(),
            final(self).base_log_spec() == old(self).base_log_spec(),
            final(self).level_count_spec() == old(self).level_count_spec(),
            old(self).current_level_spec() == 0 ==> r is None && *final(self) == *old(self),
            old(self).current_level_spec() > 0 ==> {
                &&& r is Some
                &&& r.unwrap().base_log_spec() == old(self).base_log_spec()
                &&& r.unwrap().level_spec() == old(self).current_level_spec()
                &&& r.unwrap().value_spec() as int == tval(
                    old(self).state_spec() as int,
                    old(self).base_log_spec(),
                ) % word_modulus()
                &&& final(self).state_spec() as int == nxt(
                    old(self).state_spec() as int,
                    old(self).base_log_spec(),
                )
                &&& final(self).current_level_spec() == old(self).current_level_spec() - 1
                &&& !final(self).fresh_spec()
            },
    {
        if self.current_level == 0 {
            return None;
        }
        let b = self.base_log;
        proof {
            vstd::arithmetic::mul::lemma_mul_inequality(
                1,
                self.level_count as int,
                self.base_log as int,
            );
            vstd::arithmetic::mul::lemma_mul_is_commutative(
                self.level_count as int,
                self.base_log as int,
            );
        }
        let bb = pow2_u64(b);
        let half = bb / 2;
        proof {
            lemma_pow2_pos(b as nat);
            lemma_pow2_adds((b - 1) as nat, 1);
            lemma2_to64();
            assert(pow2(b as nat) == pow2((b - 1) as nat) * 2);
        }
        let digit = self.state % bb;
        let rest = self.state / bb;
        let carry: u64 = if digit > half {
            1
        } else if digit == half && (rest % bb) >= half {
            1
        } else {
            0
        };
        let value = if carry == 1 {
            digit.wrapping_sub(bb)
        } else {
            digit
        };
        proof {
            if carry == 1 {
                assert(tval(self.state as int, b as nat) == digit - pow2(b as nat)) by {
                    vstd::arithmetic::mul::lemma_mul_basics(pow2(b as nat) as int);
                }
                vstd::arithmetic::div_mod::lemma_mod_multiples_vanish(
                    1int,
                    digit - pow2(b as nat),
                    word_modulus(),
                );
            } else {
                assert(tval(self.state as int, b as nat) == digit as int);
                vstd::arithmetic::div_mod::lemma_small_mod(digit as nat, word_modulus() as nat);
            }
        }
        let term = DecompositionTerm {
            level: self.current_level,
            base_log: self.base_log,
            value,
        };
        proof {
            assert(bb >= 2);
            vstd::arithmetic::div_mod::lemma_div_is_ordered_by_denominator(
                self.state as int,
                2,
                bb as int,
            );
        }
        self.state = rest + carry;
        self.current_level = self.current_level - 1;
        self.fresh = false;
        Some(term)
    }
}

/// The decompose/recompose identity under the native modulus: the signed
/// summands of the rounded state of any input add back, modulo the word, to
/// the closest representable value of that input.
pub proof fn lemma_decompose_recompose_identity(x: u64, b: nat, l: nat)
    requires
        native_params_ok(b, l),
    ensures
        signed_sum(
            round_div(x as int, pow2((64 - b * l) as nat) as int) % bpow(b, l),
            b,
            l,
            l,
            pow2((64 - b * l) as nat) as int,
        ) % word_modulus() == closest_native(x, b, l),
{
    let unit = pow2((64 - b * l) as nat) as int;
    let r0 = round_div(x as int, unit);
    lemma_pow2_pos((64 - b * l) as nat);
    lemma_pow2_pos((b * l) as nat);
    vstd::arithmetic::div_mod::lemma_div_pos_is_pos(x as int + unit / 2, unit);
    let s0 = r0 % bpow(b, l);
    vstd::arithmetic::div_mod::lemma_mod_bound(r0, bpow(b, l));
    lemma_signed_sum_telescopes(s0, b, l, l, unit);
    lemma_telescoped_sum_mod(s0, b, l, unit);
    lemma_state_times_step(r0, b, l);
}

/// After full telescoping, the wrapped signed sum of all l digits of a state
/// is the state times the unit, wrapped: the final remainder carries the
/// weight B^l·unit = 2^64 and vanishes modulo the word.
pub proof fn lemma_telescoped_sum_mod(s0: int, b: nat, l: nat, unit: int)
    requires
        native_params_ok(b, l),
        s0 >= 0,
        unit == pow2((64 - b * l) as nat) as int,
    ensures
        signed_sum(s0, b, l, l, unit) % word_modulus() == (s0 * unit) % word_modulus(),
{
    lemma_signed_sum_telescopes(s0, b, l, l, unit);
    let sf = state_after(s0, b, l);
    assert(bpow(b, l) * unit == word_modulus()) by {
        lemma_pow2_adds((b * l) as nat, (64 - b * l) as nat);
        lemma2_to64();
        lemma_pow2_adds(32, 32);
        lemma2_to64_rest();
    }
    assert(sf * bpow(b, l) * unit == sf * word_modulus()) by {
        vstd::arithmetic::mul::lemma_mul_is_associative(sf, bpow(b, l), unit);
    }
    assert(bpow(b, 0) == 1) by {
        lemma2_to64();
    }
    assert(s0 * bpow(b, 0) * unit == s0 * unit) by {
        vstd::arithmetic::mul::lemma_mul_basics(s0);
    }
    assert(signed_sum(s0, b, l, l, unit) == word_modulus() * (0 - sf) + s0 * unit) by {
        vstd::arithmetic::mul::lemma_mul_is_commutative(word_modulus(), 0 - sf);
        vstd::arithmetic::mul::lemma_mul_is_distributive_sub(word_modulus(), 0, sf);
        vstd::arithmetic::mul::lemma_mul_basics(word_modulus());
    }
    vstd::arithmetic::div_mod::lemma_mod_multiples_vanish(0 - sf, s0 * unit, word_modulus());
}

/// The unit of a custom-modulus decomposition: the smallest representable
/// value floor(q/B^l).
pub open spec fn custom_unit(q: int, b: nat, l: nat) -> int {
    q / bpow(b, l)
}

/// The closest value representable by a custom-modulus decomposition: the
/// input rounded to the nearest multiple of floor(q/B^l), wrapped to a word.
pub open spec fn closest_custom(x: u64, b: nat, l: nat, q: int) -> int {
    let unit = custom_unit(q, b, l);
    (round_div(x as int, unit) * unit) % word_modulus()
}

/// Custom-modulus decomposition parameters are usable when the native ones are
/// and B^l fits under the modulus.
pub open spec fn custom_params_ok(b: nat, l: nat, m: CiphertextModulus) -> bool {
    &&& native_params_ok(b, l)
    &&& m.well_formed()
    &&& bpow(b, l) <= m.modulus()
}

/// One term of a signed decomposition under a custom modulus.
#[derive(Clone, Copy, Debug, PartialEq, Eq, Structural)]
pub struct DecompositionTermNonNative {
    level: usize,
    base_log: usize,
    value: u64,
    ciphertext_modulus: CiphertextModulus,
}

/// The recomposition summand of a custom-modulus term:
/// value·B^(l-level)·floor(q/B^l), wrapped to a word.
pub open spec fn custom_summand(value: u64, b: nat, level: nat, l: nat, q: int) -> int {
    (value * bpow(b, (l - level) as nat) * custom_unit(q, b, l)) % word_modulus()
}

impl DecompositionTermNonNative {
    /// Assemble a term.
    pub fn new(
        level: DecompositionLevel,
        base_log: DecompositionBaseLog,
        value: u64,
        ciphertext_modulus: CiphertextModulus,
    ) -> (r: DecompositionTermNonNative)
        ensures
            r.level_spec() == level.0,
            r.base_log_spec() == base_log.0,
            r.value_spec() == value,
            r.modulus_spec() == ciphertext_modulus,
    {
        DecompositionTermNonNative { level: level.0, base_log: base_log.0, value, ciphertext_modulus }
    }

    /// The level of the term.
    pub closed spec fn level_spec(&self) -> nat {
        self.level as nat
    }

    /// The base log of the term.
    pub closed spec fn base_log_spec(&self) -> nat {
        self.base_log as nat
    }

    /// The wrapped digit value of the term.
    pub closed spec fn value_spec(&self) -> u64 {
        self.value
    }

    /// The ciphertext modulus of the term.
    pub closed spec fn modulus_spec(&self) -> CiphertextModulus {
        self.ciphertext_modulus
    }

    /// Turn the term into its recomposition summand
    /// value·B^(l-level)·floor(q/B^l), for the given total level count.
    pub fn to_recomposition_summand(&self, level_count: DecompositionLevelCount) -> (r: u64)
        requires
            custom_params_ok(self.base_log_spec(), level_count.0 as nat, self.modulus_spec()),
            1 <= self.level_spec() <= level_count.0,
        ensures
            r == custom_summand(
                self.value_spec(),
                self.base_log_spec(),
                self.level_spec(),
                level_count.0 as nat,
                self.modulus_spec().modulus(),
            ),
    {
        let ghost b = self.base_log_spec();
        let ghost l = level_count.0 as nat;
        let ghost q = self.modulus_spec().modulus();
        proof {
            vstd::arithmetic::mul::lemma_mul_inequality(1, self.base_log as int, level_count.0 as int);
            vstd::arithmetic::mul::lemma_mul_inequality(
                (level_count.0 - self.level) as int,
                (level_count.0 - 1) as int,
                self.base_log as int,
            );
            vstd::arithmetic::mul::lemma_mul_is_commutative(
                (level_count.0 - self.level) as int,
                self.base_log as int,
            );
            vstd::arithmetic::mul::lemma_mul_is_commutative(
                (level_count.0 - 1) as int,
                self.base_log as int,
            );
            vstd::arithmetic::mul::lemma_mul_is_distributive_sub(
                self.base_log as int,
                level_count.0 as int,
                1,
            );
            vstd::arithmetic::mul::lemma_mul_is_commutative(level_count.0 as int, self.base_log as int);
            vstd::arithmetic::mul::lemma_mul_basics(self.base_log as int);
            lemma_pow2_pos((b * l) as nat);
        }
        let bl: usize = self.base_log * level_count.0;
        let bp = pow2_u128(bl);
        let shift: usize = self.base_log * (level_count.0 - self.level);
        let wp = pow2_u128(shift);
        let unit: u128 = self.ciphertext_modulus.get() / bp;
        proof {
            lemma_pow2_strictly_increases(shift as nat, 63);
            lemma2_to64();
            lemma_pow2_adds(32, 31);
            lemma2_to64_rest();
            vstd::arithmetic::mul::lemma_mul_upper_bound(
                self.value as int,
                0xffff_ffff_ffff_ffff,
                wp as int,
                0x8000_0000_0000_0000,
            );
        }
        let wide1: u128 = (self.value as u128) * wp;
        let w1: u128 = wide1 % 0x1_0000_0000_0000_0000u128;
        proof {
            lemma_u128_low_word(wide1);
            crate::parameters::lemma_modulus_facts(self.ciphertext_modulus);
            assert(unit <= q) by {
                vstd::arithmetic::div_mod::lemma_div_is_ordered_by_denominator(q, 1, bpow(b, l));
                vstd::arithmetic::div_mod::lemma_div_basics(q);
            }
            lemma2_to64();
            lemma_pow2_adds(32, 32);
            lemma2_to64_rest();
            vstd::arithmetic::mul::lemma_mul_upper_bound(
                w1 as int,
                0xffff_ffff_ffff_ffff,
                unit as int,
                0x1_0000_0000_0000_0000,
            );
        }
        let wide2: u128 = w1 * unit;
        let w2: u128 = wide2 % 0x1_0000_0000_0000_0000u128;
        proof {
            lemma_u128_low_word(wide2);
            let v = self.value as int;
            let bp2 = bpow(b, (l - self.level_spec()) as nat);
            let u = custom_unit(q, b, l);
            // ((v·bp2 % W)·u) % W == ((v·bp2)·u) % W
            vstd::arithmetic::div_mod::lemma_mul_mod_noop_left(v * bp2, u, word_modulus());
        }
        (w2 as u64)
    }

    /// The wrapped digit value.
    pub fn value(&self) -> (r: u64)
        ensures
            r == self.value_spec(),
    {
        self.value
    }

    /// The level of the term.
    pub fn level(&self) -> (r: DecompositionLevel)
        ensures
            r.0 == self.level_spec(),
    {
        DecompositionLevel(self.level)
    }
}

/// An iterator over the signed terms of one custom-modulus decomposition,
/// from the highest level down to level one.
#[derive(Clone, Copy, Debug, PartialEq, Eq, Structural)]
pub struct SignedDecompositionIterNonNative {
    base_log: usize,
    level_count: usize,
    state: u64,
    current_level: usize,
    fresh: bool,
    ciphertext_modulus: CiphertextModulus,
}

impl SignedDecompositionIterNonNative {
    /// The base log of the decomposition.
    pub closed spec fn base_log_spec(&self) -> nat {
        self.base_log as nat
    }

    /// The level count of the decomposition.
    pub closed spec fn level_count_spec(&self) -> nat {
        self.level_count as nat
    }

    /// The remaining digit state.
    pub closed spec fn state_spec(&self) -> u64 {
        self.state
    }

    /// The level the next term will carry; zero when the iterator is done.
    pub closed spec fn current_level_spec(&self) -> nat {
        self.current_level as nat
    }

    /// Whether no term was handed out yet.
    pub closed spec fn fresh_spec(&self) -> bool {
        self.fresh
    }

    /// The ciphertext modulus of the decomposition.
    pub closed spec fn modulus_spec(&self) -> CiphertextModulus {
        self.ciphertext_modulus
    }

    /// The iterator invariant.
    pub open spec fn well_formed(&self) -> bool {
        &&& custom_params_ok(self.base_log_spec(), self.level_count_spec(), self.modulus_spec())
        &&& self.current_level_spec() <= self.level_count_spec()
        &&& (self.fresh_spec() ==> self.current_level_spec() == self.level_count_spec())
    }

    /// Whether the iterator was not yet advanced.
    pub fn is_fresh(&self) -> (r: bool)
        ensures
            r == self.fresh_spec(),
    {
        self.fresh
    }

    /// The next term of the decomposition, or nothing when all level-count
    /// terms came out.
    pub fn next(&mut self) -> (r: Option<DecompositionTermNonNative>)
        requires
            old(self).well_formed(),
        ensures
            final(self).well_formed(),
            final(self).base_log_spec() == old(self).base_log_spec(),
            final(self).level_count_spec() == old(self).level_count_spec(),
            final(self).modulus_spec() == old(self).modulus_spec(),
            old(self).current_level_spec() == 0 ==> r is None && *final(self) == *old(self),
            old(self).current_level_spec() > 0 ==> {
                &&& r is Some
                &&& r.unwrap().base_log_spec() == old(self).base_log_spec()
                &&& r.unwrap().level_spec() == old(self).current_level_spec()
                &&& r.unwrap().modulus_spec() == old(self).modulus_spec()
                &&& r.unwrap().value_spec() as int == tval(
                    old(self).state_spec() as int,
                    old(self).base_log_spec(),
                ) % word_modulus()
                &&& final(self).state_spec() as int == nxt(
                    old(self).state_spec() as int,
                    old(self).base_log_spec(),
                )
                &&& final(self).current_level_spec() == old(self).current_level_spec() - 1
                &&& !final(self).fresh_spec()
            },
    {
        if self.current_level == 0 {
            return None;
        }
        let b = self.base_log;
        proof {
            vstd::arithmetic::mul::lemma_mul_inequality(
                1,
                self.level_count as int,
                self.base_log as int,
            );
            vstd::arithmetic::mul::lemma_mul_is_commutative(
                self.level_count as int,
                self.base_log as int,
            );
        }
        let bb = pow2_u64(b);
        let half = bb / 2;
        proof {
            lemma_pow2_pos(b as nat);
            lemma_pow2_adds((b - 1) as nat, 1);
            lemma2_to64();
            assert(pow2(b as nat) == pow2((b - 1) as nat) * 2);
        }
        let digit = self.state % bb;
        let rest = self.state / bb;
        let carry: u64 = if digit > half {
            1
        } else if digit == half && (rest % bb) >= half {
            1
        } else {
            0
        };
        let value = if carry == 1 {
            digit.wrapping_sub(bb)
        } else {
            digit
        };
        proof {
            if carry == 1 {
                assert(tval(self.state as int, b as nat) == digit - pow2(b as nat)) by {
                    vstd::arithmetic::mul::lemma_mul_basics(pow2(b as nat) as int);
                }
                vstd::arithmetic::div_mod::lemma_mod_multiples_vanish(
                    1int,
                    digit - pow2(b as nat),
                    word_modulus(),
                );
            } else {
                assert(tval(self.state as int, b as nat) == digit as int);
                vstd::arithmetic::div_mod::lemma_small_mod(digit as nat, word_modulus() as nat);
            }
            assert(bb >= 2);
            vstd::arithmetic::div_mod::lemma_div_is_ordered_by_denominator(
                self.state as int,
                2,
                bb as int,
            );
        }
        let term = DecompositionTermNonNative {
            level: self.current_level,
            base_log: self.base_log,
            value,
            ciphertext_modulus: self.ciphertext_modulus,
        };
        self.state = rest + carry;
        self.current_level = self.current_level - 1;
        self.fresh = false;
        Some(term)
    }
}

/// A structure which decomposes unsigned words into a set of smaller signed
/// terms, under a custom ciphertext modulus.
#[derive(Clone, Copy, Debug, PartialEq, Eq, Structural)]
pub struct SignedDecomposerNonNative {
    base_log: usize,
    level_count: usize,
    ciphertext_modulus: CiphertextModulus,
}

impl SignedDecomposerNonNative {
    /// The base log of the decomposer.
    pub closed spec fn base_log_spec(&self) -> nat {
        self.base_log as nat
    }

    /// The level count of the decomposer.
    pub closed spec fn level_count_spec(&self) -> nat {
        self.level_count as nat
    }

    /// The ciphertext modulus of the decomposer.
    pub closed spec fn modulus_spec(&self) -> CiphertextModulus {
        self.ciphertext_modulus
    }

    /// Whether the parameters are usable.
    pub open spec fn well_formed(&self) -> bool {
        custom_params_ok(self.base_log_spec(), self.level_count_spec(), self.modulus_spec())
    }

    /// Create a new decomposer. The decomposed bits b·l must stay below the
    /// word width and B^l must fit under the modulus.
    pub fn new(
        base_log: DecompositionBaseLog,
        level_count: DecompositionLevelCount,
        ciphertext_modulus: CiphertextModulus,
    ) -> (r: SignedDecomposerNonNative)
        requires
            1 <= base_log.0,
            1 <= level_count.0,
            base_log.0 * level_count.0 < 64,
            ciphertext_modulus.well_formed(),
            bpow(base_log.0 as nat, level_count.0 as nat) <= ciphertext_modulus.modulus(),
        ensures
            r.base_log_spec() == base_log.0,
            r.level_count_spec() == level_count.0,
            r.modulus_spec() == ciphertext_modulus,
            r.well_formed(),
    {
        SignedDecomposerNonNative {
            base_log: base_log.0,
            level_count: level_count.0,
            ciphertext_modulus,
        }
    }

    /// The base log of the decomposer.
    pub fn base_log(&self) -> (r: DecompositionBaseLog)
        ensures
            r.0 == self.base_log_spec(),
    {
        DecompositionBaseLog(self.base_log)
    }

    /// The level count of the decomposer.
    pub fn level_count(&self) -> (r: DecompositionLevelCount)
        ensures
            r.0 == self.level_count_spec(),
    {
        DecompositionLevelCount(self.level_count)
    }

    /// Round the input to the closest value representable by the
    /// decomposition: the nearest multiple of floor(q/B^l), wrapped to a word.
    pub fn closest_representable(&self, input: u64) -> (r: u64)
        requires
            self.well_formed(),
        ensures
            r == closest_custom(
                input,
                self.base_log_spec(),
                self.level_count_spec(),
                self.modulus_spec().modulus(),
            ),
    {
        let (state, unit) = self.rounded_state(input);
        proof {
            vstd::arithmetic::div_mod::lemma_fundamental_div_mod(
                input as int + (unit as int) / 2,
                unit as int,
            );
            vstd::arithmetic::mul::lemma_mul_is_commutative(unit as int, state as int);
            vstd::arithmetic::mul::lemma_mul_nonnegative(state as int, unit as int);
        }
        let wide: u128 = (state as u128) * unit;
        proof {
            lemma_u128_low_word(wide);
        }
        (wide % 0x1_0000_0000_0000_0000u128) as u64
    }

    /// Compute the rounded state round(x/floor(q/B^l)) and the unit.
    fn rounded_state(&self, input: u64) -> (r: (u64, u128))
        requires
            self.well_formed(),
        ensures
            r.1 == custom_unit(
                self.modulus_spec().modulus(),
                self.base_log_spec(),
                self.level_count_spec(),
            ),
            r.0 == round_div(input as int, r.1 as int),
            r.1 >= 1,
    {
        let ghost b = self.base_log_spec();
        let ghost l = self.level_count_spec();
        let ghost q = self.modulus_spec().modulus();
        proof {
            vstd::arithmetic::mul::lemma_mul_inequality(1, self.base_log as int, self.level_count as int);
            lemma_pow2_pos((b * l) as nat);
        }
        let bl: usize = self.base_log * self.level_count;
        let bp = pow2_u128(bl);
        let unit: u128 = self.ciphertext_modulus.get() / bp;
        proof {
            crate::parameters::lemma_modulus_facts(self.ciphertext_modulus);
            assert(unit >= 1) by {
                vstd::arithmetic::div_mod::lemma_div_non_zero(q, bpow(b, l));
            }
        }
        let rounded_wide: u128 = ((input as u128) + unit / 2) / unit;
        proof {
            if unit == 1 {
                vstd::arithmetic::div_mod::lemma_div_basics(input as int);
            } else {
                vstd::arithmetic::div_mod::lemma_div_is_ordered_by_denominator(
                    input as int + (unit as int) / 2,
                    2,
                    unit as int,
                );
            }
        }
        (rounded_wide as u64, unit)
    }

    /// Generate the iterator over the signed terms of the decomposition of the
    /// input, from the highest level down to level one.
    pub fn decompose(&self, input: u64) -> (r: SignedDecompositionIterNonNative)
        requires
            self.well_formed(),
        ensures
            r.base_log_spec() == self.base_log_spec(),
            r.level_count_spec() == self.level_count_spec(),
            r.modulus_spec() == self.modulus_spec(),
            r.current_level_spec() == self.level_count_spec(),
            r.fresh_spec(),
            r.well_formed(),
            r.state_spec() == round_div(
                input as int,
                custom_unit(
                    self.modulus_spec().modulus(),
                    self.base_log_spec(),
                    self.level_count_spec(),
                ),
            ),
    {
        let (state, unit) = self.rounded_state(input);
        SignedDecompositionIterNonNative {
            base_log: self.base_log,
            level_count: self.level_count,
            state,
            current_level: self.level_count,
            fresh: true,
            ciphertext_modulus: self.ciphertext_modulus,
        }
    }

    /// Recompose the terms of a fresh decomposition iterator by summing all
    /// its summands, wrapped to a word. An iterator that was already advanced
    /// gives nothing.
    pub fn recompose(&self, decomp: SignedDecompositionIterNonNative) -> (r: Option<u64>)
        requires
            self.well_formed(),
            decomp.well_formed(),
            decomp.base_log_spec() == self.base_log_spec(),
            decomp.level_count_spec() == self.level_count_spec(),
            decomp.modulus_spec() == self.modulus_spec(),
        ensures
            r is Some <==> decomp.fresh_spec(),
            decomp.fresh_spec() ==> r == Some(
                ((signed_sum(
                    decomp.state_spec() as int,
                    self.base_log_spec(),
                    self.level_count_spec(),
                    self.level_count_spec(),
                    custom_unit(
                        self.modulus_spec().modulus(),
                        self.base_log_spec(),
                        self.level_count_spec(),
                    ),
                ) % word_modulus()) as u64),
            ),
    {
        if !decomp.is_fresh() {
            return None;
        }
        let ghost b = self.base_log_spec();
        let ghost l = self.level_count_spec();
        let ghost q = self.modulus_spec().modulus();
        let ghost unit = custom_unit(q, b, l);
        let ghost s0 = decomp.state_spec() as int;
        let level_count = DecompositionLevelCount(self.level_count);
        let mut it = decomp;
        let mut acc: u64 = 0;
        while it.current_level > 0
            invariant
                it.base_log_spec() == b,
                it.level_count_spec() == l,
                it.modulus_spec() == self.modulus_spec(),
                self.modulus_spec().modulus() == q,
                custom_params_ok(b, l, self.modulus_spec()),
                it.well_formed(),
                level_count.0 == l,
                it.current_level_spec() <= l,
                unit == custom_unit(q, b, l),
                it.state_spec() == state_after(s0, b, (l - it.current_level_spec()) as nat),
                s0 >= 0,
                (acc + signed_sum(it.state_spec() as int, b, it.current_level_spec(), l, unit))
                    % word_modulus() == signed_sum(s0, b, l, l, unit) % word_modulus(),
            decreases it.current_level_spec(),
        {
            let ghost k = it.current_level_spec();
            let ghost st = it.state_spec() as int;
            let term_opt = it.next();
            let term = term_opt.unwrap();
            let summand = term.to_recomposition_summand(level_count);
            proof {
                let tvw = tval(st, b) * bpow(b, (l - k) as nat) * unit;
                assert(summand as int == tvw % word_modulus()) by {
                    vstd::arithmetic::mul::lemma_mul_is_associative(
                        tval(st, b) % word_modulus(),
                        bpow(b, (l - k) as nat),
                        unit,
                    );
                    vstd::arithmetic::div_mod::lemma_mul_mod_noop_left(
                        tval(st, b),
                        bpow(b, (l - k) as nat) * unit,
                        word_modulus(),
                    );
                    vstd::arithmetic::mul::lemma_mul_is_associative(
                        tval(st, b),
                        bpow(b, (l - k) as nat),
                        unit,
                    );
                }
                lemma_state_after_unfold(s0, b, (l - k) as nat);
            }
            let new_acc = acc.wrapping_add(summand);
            proof {
                let tvw = tval(st, b) * bpow(b, (l - k) as nat) * unit;
                let tail = signed_sum(nxt(st, b), b, (k - 1) as nat, l, unit);
                lemma_mod_add_left(acc + summand, tail, word_modulus());
                lemma_mod_add_left(tvw, acc as int + tail, word_modulus());
                assert((new_acc + tail) % word_modulus() == (acc + tvw + tail) % word_modulus());
            }
            acc = new_acc;
        }
        proof {
            vstd::arithmetic::div_mod::lemma_small_mod(acc as nat, word_modulus() as nat);
        }
        Some(acc)
    }
}

/// The decompose/recompose identity under a custom modulus: whenever the
/// balanced decomposition of the rounded state closes (its final carry state
/// is zero), the signed summands add back, modulo the word, to the closest
/// representable value. An input that rounds close enough to q that the digit
/// carries overflow past level one is the one kind the identity cannot cover.
pub proof fn lemma_decompose_recompose_identity_custom(x: u64, b: nat, l: nat, q: int)
    requires
        native_params_ok(b, l),
        q >= 2,
        bpow(b, l) <= q,
        state_after(round_div(x as int, custom_unit(q, b, l)), b, l) == 0,
    ensures
        signed_sum(round_div(x as int, custom_unit(q, b, l)), b, l, l, custom_unit(q, b, l))
            % word_modulus() == closest_custom(x, b, l, q),
{
    let unit = custom_unit(q, b, l);
    lemma_pow2_pos((b * l) as nat);
    vstd::arithmetic::div_mod::lemma_div_pos_is_pos(q, bpow(b, l));
    let s0 = round_div(x as int, unit);
    vstd::arithmetic::div_mod::lemma_div_non_zero(q, bpow(b, l));
    vstd::arithmetic::div_mod::lemma_div_pos_is_pos(x as int + unit / 2, unit);
    lemma_signed_sum_telescopes(s0, b, l, l, unit);
    assert(state_after(s0, b, l) * bpow(b, l) * unit == 0) by {
        vstd::arithmetic::mul::lemma_mul_basics(bpow(b, l));
        vstd::arithmetic::mul::lemma_mul_basics(unit);
    }
    assert(bpow(b, 0) == 1) by {
        lemma2_to64();
    }
    assert(s0 * 1 * unit == s0 * unit) by {
        vstd::arithmetic::mul::lemma_mul_basics(s0);
    }
}

/// Rounding to the closest representable value is idempotent under a custom
/// modulus, for inputs far enough below the word bound that the scaled
/// rounding does not wrap.
pub proof fn lemma_closest_custom_idempotent(x: u64, b: nat, l: nat, q: int)
    requires
        native_params_ok(b, l),
        q >= 2,
        bpow(b, l) <= q,
        x + custom_unit(q, b, l) / 2 < word_modulus(),
    ensures
        closest_custom((closest_custom(x, b, l, q)) as u64, b, l, q) == closest_custom(x, b, l, q),
{
    let unit = custom_unit(q, b, l);
    lemma_pow2_pos((b * l) as nat);
    vstd::arithmetic::div_mod::lemma_div_non_zero(q, bpow(b, l));
    let r0 = round_div(x as int, unit);
    vstd::arithmetic::div_mod::lemma_div_pos_is_pos(x as int + unit / 2, unit);
    assert(r0 * unit <= x + unit / 2) by {
        vstd::arithmetic::div_mod::lemma_fundamental_div_mod(x as int + unit / 2, unit);
        vstd::arithmetic::mul::lemma_mul_is_commutative(unit, r0);
    }
    vstd::arithmetic::mul::lemma_mul_nonnegative(r0, unit);
    vstd::arithmetic::div_mod::lemma_small_mod((r0 * unit) as nat, word_modulus() as nat);
    let c = closest_custom(x, b, l, q);
    assert(c == r0 * unit);
    assert(round_div(c, unit) == r0) by {
        vstd::arithmetic::div_mod::lemma_fundamental_div_mod_converse(
            r0 * unit + unit / 2,
            unit,
            r0,
            unit / 2,
        );
        vstd::arithmetic::mul::lemma_mul_is_commutative(r0, unit);
    }
    vstd::arithmetic::div_mod::lemma_small_mod((r0 * unit) as nat, word_modulus() as nat);
}

/// Rounding to the closest representable value is idempotent under the native
/// modulus.
pub proof fn lemma_closest_representable_idempotent(x: u64, b: nat, l: nat)
    requires
        native_params_ok(b, l),
    ensures
        closest_native((closest_native(x, b, l)) as u64, b, l) == closest_native(x, b, l),
{
    let step = pow2((64 - b * l) as nat) as int;
    let bb = bpow(b, l);
    lemma_pow2_pos((64 - b * l) as nat);
    lemma_pow2_pos((b * l) as nat);
    assert(bb * step == word_modulus()) by {
        lemma_pow2_adds((b * l) as nat, (64 - b * l) as nat);
        lemma2_to64();
        lemma_pow2_adds(32, 32);
        lemma2_to64_rest();
    }
    let r0 = round_div(x as int, step);
    vstd::arithmetic::div_mod::lemma_div_pos_is_pos(x as int + step / 2, step);
    let c = (r0 * step) % word_modulus();
    lemma_state_times_step(r0, b, l);
    let c1 = r0 % bb;
    vstd::arithmetic::div_mod::lemma_mod_bound(r0, bb);
    assert(c == (c1 * step) % word_modulus());
    assert(c1 * step < word_modulus() && c1 * step >= 0) by {
        vstd::arithmetic::mul::lemma_mul_inequality(c1, bb - 1, step);
        vstd::arithmetic::mul::lemma_mul_is_distributive_sub_other_way(step, bb, 1);
        vstd::arithmetic::mul::lemma_mul_nonnegative(c1, step);
    }
    vstd::arithmetic::div_mod::lemma_small_mod((c1 * step) as nat, word_modulus() as nat);
    assert(c == c1 * step);
    // rounding a multiple of the step gives it back
    assert(round_div(c, step) == c1) by {
        vstd::arithmetic::div_mod::lemma_fundamental_div_mod_converse(
            c1 * step + step / 2,
            step,
            c1,
            step / 2,
        );
        vstd::arithmetic::mul::lemma_mul_is_commutative(c1, step);
    }
    vstd::arithmetic::div_mod::lemma_small_mod((c1 * step) as nat, word_modulus() as nat);
}

} // verus!

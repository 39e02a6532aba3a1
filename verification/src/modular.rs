//! Modular arithmetic on machine words.
//!
//! These are the plain-value semantics of the instructions a field-element
//! chip emits constraints for: addition, subtraction, multiplication and
//! inversion of residues.  Every function states its result as a mathematical
//! congruence, so the limbed-integer layer above can speak about values
//! rather than about machine words.

use vstd::arithmetic::div_mod::lemma_fundamental_div_mod;
use vstd::arithmetic::div_mod::lemma_mod_add_multiples_vanish;
use vstd::arithmetic::div_mod::lemma_mod_bound;
use vstd::arithmetic::div_mod::lemma_mod_equivalence;
use vstd::arithmetic::div_mod::lemma_mod_multiples_basic;
use vstd::arithmetic::div_mod::lemma_mul_mod_noop_left;
use vstd::arithmetic::div_mod::lemma_mul_mod_noop_right;
use vstd::arithmetic::div_mod::lemma_small_mod;
use vstd::arithmetic::div_mod::lemma_sub_mod_noop;
use vstd::arithmetic::div_mod::lemma_sub_mod_noop_right;
use vstd::arithmetic::mul::lemma_mul_upper_bound;
use vstd::prelude::*;

verus! {

/// Greatest common divisor by the Euclidean recursion.
pub open spec fn gcd(a: nat, b: nat) -> nat
    decreases b,
{
    if b == 0 {
        a
    } else {
        gcd(b, a % b)
    }
}

/// `a` has a multiplicative inverse modulo `m`.
pub open spec fn invertible(a: nat, m: nat) -> bool {
    gcd(a % m, m) == 1
}

/// The multiplicative inverse of `a` modulo `m`.  The value is meaningful
/// only when `invertible(a, m)` holds; it is then the one witness of the
/// predicate, by `lemma_inverse_unique`.
pub open spec fn inverse(a: nat, m: nat) -> nat {
    choose|w: nat| w < m && #[trigger] ((a * w) % m) == 1
}

/// An inverse modulo `m` is unique among residues below `m`.
pub proof fn lemma_inverse_unique(a: nat, m: nat, w1: nat, w2: nat)
    requires
        m > 1,
        w1 < m,
        w2 < m,
        (a * w1) % m == 1,
        (a * w2) % m == 1,
    ensures
        w1 == w2,
{
    let ai: int = a as int;
    let mi: int = m as int;
    // w1 == (w1 * (a * w2)) % m, since a * w2 reduces to 1.
    lemma_mul_mod_noop_right(w1 as int, ai * w2 as int, mi);
    lemma_small_mod(w1, m);
    assert(w1 as int * (ai * w2 as int) == (ai * w1 as int) * w2 as int) by (nonlinear_arith);
    // (w1 * (a * w2)) % m == ((a * w1) * w2) % m == w2, since a * w1 reduces to 1.
    lemma_mul_mod_noop_left(ai * w1 as int, w2 as int, mi);
    lemma_small_mod(w2, m);
}

/// A residue that multiplies `a` to one is the inverse of `a`.
pub proof fn lemma_inverse_value(a: nat, m: nat, w: nat)
    requires
        m > 1,
        w < m,
        (a * w) % m == 1,
    ensures
        inverse(a, m) == w,
{
    assert(exists|z: nat| z < m && #[trigger] ((a * z) % m) == 1) by {
        assert(w < m && (a * w) % m == 1);
    }
    let z: nat = inverse(a, m);
    assert(z < m && (a * z) % m == 1);
    lemma_inverse_unique(a, m, w, z);
}

/// A multiple of a multiple of `m` still vanishes modulo `m`.
proof fn lemma_scale_cong_zero(c: int, y: int, m: int)
    requires
        m > 0,
        y % m == 0,
    ensures
        (c * y) % m == 0,
{
    lemma_mul_mod_noop_right(c, y, m);
    lemma_small_mod(0, m as nat);
}

/// `x - q * y` vanishes modulo `m` when `x` and `y` both do.
proof fn lemma_linear_comb_cong_zero(x: int, y: int, q: int, m: int)
    requires
        m > 0,
        x % m == 0,
        y % m == 0,
    ensures
        (x - q * y) % m == 0,
{
    lemma_scale_cong_zero(q, y, m);
    lemma_sub_mod_noop(x, q * y, m);
    lemma_small_mod(0, m as nat);
}

/// Residue of a sum.
pub fn add_mod(a: u64, b: u64, m: u64) -> (r: u64)
    requires
        m > 0,
    ensures
        r == (a + b) % (m as int),
        r < m,
{
    let s: u128 = a as u128 + b as u128;
    proof {
        lemma_mod_bound(s as int, m as int);
    }
    (s % (m as u128)) as u64
}

/// Residue of a difference of residues.
pub fn sub_mod(a: u64, b: u64, m: u64) -> (r: u64)
    requires
        m > 0,
        a < m,
        b < m,
    ensures
        r == (a - b) % (m as int),
        r < m,
{
    let s: u128 = (a as u128 + m as u128) - b as u128;
    proof {
        lemma_mod_bound(s as int, m as int);
        lemma_mod_add_multiples_vanish(a - b, m as int);
    }
    (s % (m as u128)) as u64
}

/// Residue of a product.
pub fn mul_mod(a: u64, b: u64, m: u64) -> (r: u64)
    requires
        m > 0,
    ensures
        r == (a * b) % (m as int),
        r < m,
{
    proof {
        lemma_mul_upper_bound(a as int, 0xffff_ffff_ffff_ffff, b as int, 0xffff_ffff_ffff_ffff);
    }
    let p: u128 = (a as u128) * (b as u128);
    proof {
        lemma_mod_bound(p as int, m as int);
    }
    (p % (m as u128)) as u64
}

/// Modular inverse by the extended Euclidean algorithm, with the Bezout
/// coefficient kept reduced modulo `m` throughout.  Succeeds exactly on the
/// residues that are invertible, i.e. coprime to the modulus.
pub fn inv_mod(a: u64, m: u64) -> (r: Option<u64>)
    requires
        m > 1,
        a < m,
    ensures
        match r {
            Some(w) => invertible(a as nat, m as nat) && w < m && (a as int * w as int) % (
            m as int) == 1,
            None => !invertible(a as nat, m as nat),
        },
{
    let ghost ai: int = a as int;
    let ghost mi: int = m as int;
    let mut g_prev: u64 = a;
    let mut g: u64 = m;
    let mut s_prev: u64 = 1;
    let mut s: u64 = 0;
    proof {
        lemma_small_mod(0, m as nat);
        lemma_mod_multiples_basic(-1, mi);
    }
    while g != 0
        invariant
            m > 1,
            a < m,
            s_prev < m,
            s < m,
            gcd(g_prev as nat, g as nat) == gcd(a as nat, m as nat),
            (ai * s_prev as int - g_prev as int) % mi == 0,
            (ai * s as int - g as int) % mi == 0,
            ai == a as int,
            mi == m as int,
        decreases g,
    {
        let q: u64 = g_prev / g;
        let g_new: u64 = g_prev % g;
        let t: u64 = mul_mod(q, s, m);
        let s_new: u64 = sub_mod(s_prev, t, m);
        proof {
            let qi: int = q as int;
            let si: int = s as int;
            let spi: int = s_prev as int;
            let x: int = ai * spi - g_prev as int;
            let y: int = ai * si - g as int;
            // The new remainder is the old linear combination minus q times
            // the current one.
            lemma_fundamental_div_mod(g_prev as int, g as int);
            lemma_mod_bound(g_prev as int, g as int);
            assert(g_new == g_prev as int - g as int * qi);
            assert(g as int * qi == qi * g as int) by (nonlinear_arith);
            // The new coefficient is congruent to s_prev - q * s.
            lemma_sub_mod_noop_right(spi, qi * si, mi);
            assert((spi - t as int) % mi == (spi - qi * si) % mi);
            lemma_mul_mod_noop_right(ai, spi - t as int, mi);
            lemma_mul_mod_noop_right(ai, spi - qi * si, mi);
            assert((ai * s_new as int) % mi == (ai * (spi - t as int)) % mi) by {
                lemma_mul_mod_noop_right(ai, s_new as int, mi);
                lemma_small_mod(s_new as nat, m as nat);
            }
            assert((ai * (spi - qi * si)) - (g_prev as int - qi * g as int) == (ai * spi
                - g_prev as int) - qi * (ai * si - g as int)) by (nonlinear_arith);
            lemma_linear_comb_cong_zero(x, y, qi, mi);
            // Chain the two congruences into the invariant for the new pair.
            lemma_sub_mod_noop(ai * s_new as int, g_new as int, mi);
            lemma_sub_mod_noop(ai * (spi - qi * si), g_new as int, mi);
            lemma_small_mod(0, m as nat);
            // The gcd is preserved: one Euclidean step.
            assert(gcd(g as nat, g_new as nat) == gcd(g_prev as nat, g as nat));
        }
        g_prev = g;
        g = g_new;
        s_prev = s;
        s = s_new;
    }
    proof {
        lemma_small_mod(a as nat, m as nat);
    }
    if g_prev == 1 {
        proof {
            lemma_mod_equivalence(ai * s_prev as int, 1, mi);
            lemma_small_mod(1, m as nat);
        }
        Some(s_prev)
    } else {
        None
    }
}

} // verus!

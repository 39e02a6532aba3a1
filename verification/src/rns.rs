//! Limbed integers: foreign-field elements in positional notation.
//!
//! A value of an emulated field is carried as `number_of_limbs` limbs of
//! `bit_len_limb` bits each.  Lazy operations may leave limbs above their
//! nominal width; the amount is tracked per value as an *overflow* bound,
//! metadata the constraint system's range checks would enforce.  A reduced
//! value has overflow zero and is the canonical residue below the modulus.

use crate::error::Error;
use crate::modular;
use vstd::arithmetic::div_mod::lemma_fundamental_div_mod;
use vstd::arithmetic::div_mod::lemma_mod_bound;
use vstd::arithmetic::div_mod::lemma_mul_mod_noop;
use vstd::arithmetic::div_mod::lemma_mul_mod_noop_left;
use vstd::arithmetic::div_mod::lemma_small_mod;
use vstd::arithmetic::power2::lemma2_to64;
use vstd::arithmetic::power2::lemma2_to64_rest;
use vstd::arithmetic::power2::lemma_pow2_adds;
use vstd::arithmetic::power2::lemma_pow2_pos;
use vstd::arithmetic::power2::lemma_pow2_strictly_increases;
use vstd::arithmetic::power2::lemma_pow2_unfold;
use vstd::arithmetic::power2::pow2;
use vstd::prelude::*;

verus! {

/// The positional layout every limbed integer of one representation shares.
#[derive(Clone, Copy, Debug, PartialEq, Eq, Structural)]
pub struct LimbLayout {
    pub number_of_limbs: usize,
    pub bit_len_limb: usize,
}

impl LimbLayout {
    /// A usable layout: at least one limb, limbs of at least one bit, and a
    /// total width small enough that reduction can recompose any tracked
    /// overflow without leaving the machine-word range.
    pub open spec fn wf(self) -> bool {
        &&& 1 <= self.number_of_limbs
        &&& 1 <= self.bit_len_limb
        &&& self.number_of_limbs * self.bit_len_limb <= 48
    }

    /// Nominal width of the whole representation, in bits.
    pub open spec fn total_bits(self) -> nat {
        (self.number_of_limbs * self.bit_len_limb) as nat
    }

    /// The largest overflow the layout can carry before recomposition
    /// would no longer fit a machine word.
    pub open spec fn max_overflow(self) -> nat {
        (61 - self.number_of_limbs * self.bit_len_limb) as nat
    }
}

/// One Residue Number System representation: a modulus together with the
/// limb layout its residues are decomposed under.
#[derive(Clone, Copy, Debug, PartialEq, Eq, Structural)]
pub struct Rns {
    pub modulus: u64,
    pub layout: LimbLayout,
}

impl Rns {
    /// A usable representation: a sound layout wide enough for every
    /// canonical residue of the modulus.
    pub open spec fn wf(self) -> bool {
        &&& self.layout.wf()
        &&& self.modulus > 1
        &&& self.modulus as nat <= pow2(self.layout.total_bits())
    }
}

/// The integer a limb sequence stands for, least significant limb first.
pub open spec fn limbs_value(limbs: Seq<u64>, bit: nat) -> nat
    decreases limbs.len(),
{
    if limbs.len() == 0 {
        0
    } else {
        (limbs[0] + pow2(bit) * limbs_value(limbs.skip(1), bit)) as nat
    }
}

/// Appending a limb adds its weighted value.
pub proof fn lemma_limbs_value_push(s: Seq<u64>, x: u64, bit: nat)
    ensures
        limbs_value(s.push(x), bit) == limbs_value(s, bit) + x * pow2(s.len() * bit),
    decreases s.len(),
{
    if s.len() == 0 {
        assert(s.push(x).skip(1) =~= Seq::<u64>::empty());
        assert(s.push(x)[0] == x);
        vstd::arithmetic::power::lemma_pow0(2);
        assert(pow2(0) == 1);
        assert(pow2(bit) * limbs_value(s.push(x).skip(1), bit) == 0) by (nonlinear_arith)
            requires
                limbs_value(s.push(x).skip(1), bit) == 0,
        ;
        let e: nat = s.len() * bit;
        assert(x * pow2(e) == x) by (nonlinear_arith)
            requires
                pow2(e) == 1,
        ;
    } else {
        let n: nat = s.len();
        let n0: nat = (n - 1) as nat;
        assert(s.push(x).skip(1) =~= s.skip(1).push(x));
        assert(s.push(x)[0] == s[0]);
        lemma_limbs_value_push(s.skip(1), x, bit);
        let r: nat = pow2(bit);
        let rest: nat = limbs_value(s.skip(1), bit);
        let w: nat = pow2(n0 * bit);
        lemma_pow2_adds(bit, n0 * bit);
        assert(bit + n0 * bit == n * bit) by (nonlinear_arith)
            requires
                n0 + 1 == n,
        ;
        assert(r * (rest + x * w) == r * rest + x * (r * w)) by (nonlinear_arith);
        assert(limbs_value(s.push(x), bit) == s[0] + r * (rest + x * w));
    }
    assert(s.len() * bit >= 0) by (nonlinear_arith);
}

/// The geometric series `1 + 2^bit + ... + 2^((n-1) bit)`.
pub open spec fn radix_geo(n: nat, bit: nat) -> nat
    decreases n,
{
    if n == 0 {
        0
    } else {
        1 + pow2(bit) * radix_geo((n - 1) as nat, bit)
    }
}

/// Limbs below `2^c` compose to at most `(2^c - 1)` times the series.
proof fn lemma_limbs_value_le_geo(s: Seq<u64>, bit: nat, c: nat)
    requires
        forall|i: int| 0 <= i < s.len() ==> #[trigger] s[i] < pow2(c),
    ensures
        limbs_value(s, bit) <= (pow2(c) - 1) * radix_geo(s.len(), bit),
    decreases s.len(),
{
    lemma_pow2_pos(c);
    if s.len() == 0 {
    } else {
        lemma_limbs_value_le_geo(s.skip(1), bit, c);
        let r: nat = pow2(bit);
        let rest: nat = limbs_value(s.skip(1), bit);
        let g: nat = radix_geo((s.len() - 1) as nat, bit);
        lemma_pow2_pos(bit);
        assert(rest <= (pow2(c) - 1) * g && s[0] <= pow2(c) - 1 && r > 0 ==> s[0] + r * rest <= (
        pow2(c) - 1) * (1 + r * g)) by (nonlinear_arith);
    }
}

/// The series itself stays below `2^((n-1) bit + 1)`.
proof fn lemma_radix_geo_bound(n: nat, bit: nat)
    requires
        n >= 1,
        bit >= 1,
    ensures
        radix_geo(n, bit) <= pow2(((n - 1) as nat) * bit + 1) - 1,
    decreases n,
{
    lemma_pow2_unfold(bit);
    lemma_pow2_pos((bit - 1) as nat);
    let r: nat = pow2(bit);
    assert(r >= 2);
    if n == 1 {
        assert(radix_geo(0, bit) == 0);
        assert(radix_geo(1, bit) == 1 + r * radix_geo(0, bit));
        assert(r * radix_geo(0, bit) == 0) by (nonlinear_arith)
            requires
                radix_geo(0, bit) == 0,
        ;
        assert(radix_geo(1, bit) == 1);
        lemma_pow2_unfold(1);
        vstd::arithmetic::power::lemma_pow0(2);
        assert(pow2(1) == 2);
        let n0: nat = (n - 1) as nat;
        assert(n0 * bit == 0) by (nonlinear_arith)
            requires
                n0 == 0,
        ;
        assert(radix_geo(n, bit) <= pow2(1) - 1);
    } else {
        let n0: nat = (n - 1) as nat;
        let n00: nat = (n - 2) as nat;
        lemma_radix_geo_bound(n0, bit);
        let g: nat = radix_geo(n0, bit);
        let e_prev: nat = n00 * bit + 1;
        let e: nat = n0 * bit + 1;
        lemma_pow2_adds(bit, e_prev);
        assert(bit + e_prev == e) by (nonlinear_arith)
            requires
                n00 + 1 == n0,
                e_prev == n00 * bit + 1,
                e == n0 * bit + 1,
        ;
        assert(g <= pow2(e_prev) - 1 && r >= 2 && r * pow2(e_prev) == pow2(e) ==> 1 + r * g <= pow2(
        e) - 1) by (nonlinear_arith);
    }
}

/// Limbs below `2^(bit + overflow)` compose to a value below
/// `2^(n bit + overflow + 1)`.
pub proof fn lemma_limbs_value_bound(s: Seq<u64>, bit: nat, overflow: nat)
    requires
        bit >= 1,
        forall|i: int| 0 <= i < s.len() ==> #[trigger] s[i] < pow2(bit + overflow),
    ensures
        limbs_value(s, bit) < pow2(s.len() * bit + overflow + 1),
{
    let c: nat = bit + overflow;
    lemma_pow2_pos(c);
    lemma_pow2_pos(s.len() * bit + overflow + 1);
    if s.len() == 0 {
    } else {
        lemma_limbs_value_le_geo(s, bit, c);
        lemma_radix_geo_bound(s.len(), bit);
        let n0: nat = (s.len() - 1) as nat;
        let g: nat = radix_geo(s.len(), bit);
        let e: nat = n0 * bit + 1;
        lemma_pow2_adds(c, e);
        assert(c + e == s.len() * bit + overflow + 1) by (nonlinear_arith)
            requires
                n0 + 1 == s.len(),
                c == bit + overflow,
                e == n0 * bit + 1,
        ;
        lemma_pow2_pos(e);
        assert(g <= pow2(e) - 1 && pow2(c) >= 1 && pow2(e) >= 1 ==> (pow2(c) - 1) * g < pow2(c)
            * pow2(e)) by (nonlinear_arith);
    }
}

/// Powers of two on machine words.
fn pow2_u64(e: usize) -> (r: u64)
    requires
        e <= 62,
    ensures
        r == pow2(e as nat),
{
    let mut r: u64 = 1;
    let mut i: usize = 0;
    proof {
        vstd::arithmetic::power::lemma_pow0(2);
        assert(pow2(0) == 1);
    }
    while i < e
        invariant
            i <= e,
            e <= 62,
            r == pow2(i as nat),
        decreases e - i,
    {
        proof {
            lemma2_to64();
            lemma2_to64_rest();
            if (i as nat) < 62 {
                lemma_pow2_strictly_increases(i as nat, 62);
            }
            lemma_pow2_unfold((i + 1) as nat);
        }
        r = r * 2;
        i = i + 1;
    }
    r
}

/// Recompose a limb sequence into the machine word it stands for.  The
/// ghost argument is the overflow bound the limbs are known to respect.
pub(crate) fn compose(limbs: &Vec<u64>, layout: LimbLayout, Ghost(overflow): Ghost<nat>) -> (r: u64)
    requires
        layout.wf(),
        limbs@.len() == layout.number_of_limbs,
        overflow <= layout.max_overflow(),
        forall|i: int| 0 <= i < limbs@.len() ==> #[trigger] limbs@[i] < pow2(
            layout.bit_len_limb as nat + overflow,
        ),
    ensures
        r == limbs_value(limbs@, layout.bit_len_limb as nat),
{
    let n: usize = limbs.len();
    let bit_len: usize = layout.bit_len_limb;
    let ghost bit: nat = bit_len as nat;
    let ghost nn: nat = n as nat;
    proof {
        assert(bit <= 48) by (nonlinear_arith)
            requires
                1 <= nn,
                bit >= 1,
                nn * bit <= 48,
        ;
    }
    let radix: u64 = pow2_u64(bit_len);
    let mut acc: u64 = 0;
    let mut i: usize = n;
    proof {
        assert(limbs@.skip(n as int) =~= Seq::<u64>::empty());
    }
    while i > 0
        invariant
            i <= n,
            n == limbs@.len(),
            1 <= bit,
            bit == bit_len as nat,
            nn == n as nat,
            radix == pow2(bit),
            nn * bit + overflow + 1 <= 62,
            forall|j: int| 0 <= j < limbs@.len() ==> #[trigger] limbs@[j] < pow2(bit + overflow),
            acc == limbs_value(limbs@.skip(i as int), bit),
        decreases i,
    {
        i = i - 1;
        proof {
            let suffix: Seq<u64> = limbs@.skip(i as int);
            assert(suffix.skip(1) =~= limbs@.skip(i as int + 1));
            assert(suffix[0] == limbs@[i as int]);
            lemma_limbs_value_bound(suffix, bit, overflow);
            let se: nat = suffix.len() * bit + overflow + 1;
            assert(se <= 62) by (nonlinear_arith)
                requires
                    suffix.len() <= nn,
                    bit >= 1,
                    se == suffix.len() * bit + overflow + 1,
                    nn * bit + overflow + 1 <= 62,
            ;
            if se < 62 {
                lemma_pow2_strictly_increases(se, 62);
            }
            lemma2_to64_rest();
            assert(limbs_value(suffix, bit) < 0x4000000000000000);
            assert(limbs_value(suffix, bit) == suffix[0] + pow2(bit) * limbs_value(
                limbs@.skip(i as int + 1),
                bit,
            ));
            assert(acc * radix == radix * acc) by (nonlinear_arith);
        }
        acc = acc * radix + limbs[i];
    }
    proof {
        assert(limbs@.skip(0) =~= limbs@);
    }
    acc
}

/// Decompose a machine word into limbs of the given layout.
pub(crate) fn decompose(v: u64, layout: LimbLayout) -> (r: Vec<u64>)
    requires
        layout.wf(),
        (v as nat) < pow2(layout.total_bits()),
    ensures
        r@.len() == layout.number_of_limbs,
        forall|i: int| 0 <= i < r@.len() ==> #[trigger] r@[i] < pow2(layout.bit_len_limb as nat),
        limbs_value(r@, layout.bit_len_limb as nat) == v,
{
    let n: usize = layout.number_of_limbs;
    let bit_len: usize = layout.bit_len_limb;
    let ghost bit: nat = bit_len as nat;
    let ghost nn: nat = n as nat;
    proof {
        assert(bit <= 48) by (nonlinear_arith)
            requires
                1 <= nn,
                bit >= 1,
                nn * bit <= 48,
        ;
    }
    let radix: u64 = pow2_u64(bit_len);
    let mut cur: u64 = v;
    let mut out: Vec<u64> = Vec::new();
    let mut i: usize = 0;
    proof {
        lemma_pow2_pos(bit);
        vstd::arithmetic::power::lemma_pow0(2);
        assert(pow2(0) == 1);
        assert(layout.total_bits() == nn * bit);
        assert(limbs_value(out@, bit) == 0);
        assert((0 as nat) * bit == 0);
        assert(cur * pow2((0 as nat) * bit) == cur);
    }
    while i < n
        invariant
            i <= n,
            out@.len() == i,
            bit == bit_len as nat,
            nn == n as nat,
            radix == pow2(bit),
            radix > 0,
            1 <= bit,
            forall|j: int| 0 <= j < out@.len() ==> #[trigger] out@[j] < pow2(bit),
            v == limbs_value(out@, bit) + cur * pow2((i as nat) * bit),
            (cur as nat) < pow2(((n - i) as nat) * bit),
        decreases n - i,
    {
        let limb: u64 = cur % radix;
        let next: u64 = cur / radix;
        proof {
            let ii: nat = i as nat;
            let e0: nat = ii * bit;
            let e1: nat = (ii + 1) * bit;
            let k: nat = (n - i) as nat;
            let rem0: nat = k * bit;
            let rem1: nat = ((k - 1) as nat) * bit;
            lemma_fundamental_div_mod(cur as int, radix as int);
            lemma_mod_bound(cur as int, radix as int);
            lemma_limbs_value_push(out@, limb, bit);
            assert(out@.len() * bit == e0);
            lemma_pow2_adds(bit, e0);
            assert(e1 == bit + e0) by (nonlinear_arith)
                requires
                    e0 == ii * bit,
                    e1 == (ii + 1) * bit,
            ;
            // cur * 2^(i bit) splits into the new limb's weight plus the
            // carried quotient at the next position.
            assert(cur * pow2(e0) == limb * pow2(e0) + next * (pow2(bit) * pow2(e0)))
                by (nonlinear_arith)
                requires
                    cur == limb + radix * next,
                    radix == pow2(bit),
            ;
            // The quotient fits the remaining width.
            lemma_pow2_adds(bit, rem1);
            assert(rem0 == bit + rem1) by (nonlinear_arith)
                requires
                    k >= 1,
                    rem0 == k * bit,
                    rem1 == ((k - 1) as nat) * bit,
            ;
            vstd::arithmetic::div_mod::lemma_multiply_divide_lt(
                cur as int,
                radix as int,
                pow2(rem1) as int,
            );
            assert(((n - (i + 1)) as nat) * bit == rem1);
        }
        out.push(limb);
        cur = next;
        i = i + 1;
    }
    proof {
        if cur > 0 {
            lemma_pow2_pos((i as nat) * bit);
            assert(cur * pow2((i as nat) * bit) >= pow2((i as nat) * bit)) by (nonlinear_arith)
                requires
                    cur >= 1,
            ;
            assert(false);
        }
        assert(cur * pow2((i as nat) * bit) == 0) by (nonlinear_arith)
            requires
                cur == 0,
        ;
    }
    out
}


/// `pow2` is monotone.
proof fn lemma_pow2_le(e1: nat, e2: nat)
    requires
        e1 <= e2,
    ensures
        pow2(e1) <= pow2(e2),
{
    if e1 < e2 {
        lemma_pow2_strictly_increases(e1, e2);
    }
}

/// Extending a prefix by one element adds that element's weighted value.
proof fn lemma_take_push(s: Seq<u64>, i: int, bit: nat)
    requires
        0 <= i < s.len(),
    ensures
        limbs_value(s.take(i + 1), bit) == limbs_value(s.take(i), bit) + s[i] * pow2(
            (i as nat) * bit,
        ),
{
    assert(s.take(i + 1) =~= s.take(i).push(s[i]));
    lemma_limbs_value_push(s.take(i), s[i], bit);
}

/// Copy a limb vector element by element.
pub(crate) fn copy_limbs(v: &Vec<u64>) -> (r: Vec<u64>)
    ensures
        r@ == v@,
{
    let mut out: Vec<u64> = Vec::new();
    let mut i: usize = 0;
    while i < v.len()
        invariant
            i <= v@.len(),
            out@ == v@.take(i as int),
        decreases v@.len() - i,
    {
        out.push(v[i]);
        proof {
            assert(out@ =~= v@.take(i + 1));
        }
        i = i + 1;
    }
    proof {
        assert(out@ =~= v@);
    }
    out
}

/// A limbed integer as a plain value, not yet committed into a circuit.
#[derive(Clone, Debug)]
pub struct Integer {
    pub limbs: Vec<u64>,
}

impl Integer {
    /// The integer the limbs stand for under the given layout.
    pub open spec fn as_nat(self, layout: LimbLayout) -> nat {
        limbs_value(self.limbs@, layout.bit_len_limb as nat)
    }

    /// The limbs have the layout's full length and nominal width.
    pub open spec fn nominal(self, layout: LimbLayout) -> bool {
        &&& self.limbs@.len() == layout.number_of_limbs
        &&& forall|i: int|
            0 <= i < self.limbs@.len() ==> #[trigger] self.limbs@[i] < pow2(
                layout.bit_len_limb as nat,
            )
    }

    /// The limbs form a canonical residue of the representation: full
    /// length, nominal width, value below the modulus.
    pub open spec fn in_range(self, rns: Rns) -> bool {
        &&& self.nominal(rns.layout)
        &&& self.as_nat(rns.layout) < rns.modulus
    }

    /// Wrap the given limbs.
    pub fn new(limbs: Vec<u64>) -> (r: Integer)
        ensures
            r.limbs@ == limbs@,
    {
        Integer { limbs }
    }

    /// Decompose a plain value into limbs of the given layout.
    pub fn from_value(value: u64, layout: LimbLayout) -> (r: Integer)
        requires
            layout.wf(),
            (value as nat) < pow2(layout.total_bits()),
        ensures
            r.as_nat(layout) == value,
            r.nominal(layout),
    {
        Integer { limbs: decompose(value, layout) }
    }

    /// The limbs, least significant first.
    pub fn limbs(&self) -> (r: &Vec<u64>)
        ensures
            r@ == self.limbs@,
    {
        &self.limbs
    }
}

/// A limbed integer fixed at circuit-construction time; always reduced.
#[derive(Clone, Debug)]
pub struct ConstantInteger {
    pub limbs: Vec<u64>,
}

impl ConstantInteger {
    /// The integer the limbs stand for under the given layout.
    pub open spec fn as_nat(self, layout: LimbLayout) -> nat {
        limbs_value(self.limbs@, layout.bit_len_limb as nat)
    }

    /// The limbs have the layout's full length and nominal width.
    pub open spec fn nominal(self, layout: LimbLayout) -> bool {
        &&& self.limbs@.len() == layout.number_of_limbs
        &&& forall|i: int|
            0 <= i < self.limbs@.len() ==> #[trigger] self.limbs@[i] < pow2(
                layout.bit_len_limb as nat,
            )
    }

    /// Decompose a plain value, which must be a canonical residue.
    pub fn from_value(value: u64, rns: Rns) -> (r: ConstantInteger)
        requires
            rns.wf(),
            value < rns.modulus,
        ensures
            r.as_nat(rns.layout) == value,
            r.nominal(rns.layout),
    {
        ConstantInteger { limbs: decompose(value, rns.layout) }
    }

    /// The limbs, least significant first.
    pub fn limbs(&self) -> (r: &Vec<u64>)
        ensures
            r@ == self.limbs@,
    {
        &self.limbs
    }

    /// Recompose the plain value.
    pub fn value(&self, rns: Rns) -> (r: u64)
        requires
            rns.wf(),
            self.nominal(rns.layout),
        ensures
            r == self.as_nat(rns.layout),
    {
        compose(&self.limbs, rns.layout, Ghost(0))
    }
}

/// A limbed integer committed into the circuit, carrying the overflow
/// bound its limbs are range-checked against.
#[derive(Clone, Debug)]
pub struct AssignedInteger {
    pub limbs: Vec<u64>,
    pub overflow: usize,
}

impl AssignedInteger {
    /// The integer the limbs stand for under the given representation.
    pub open spec fn as_nat(self, rns: Rns) -> nat {
        limbs_value(self.limbs@, rns.layout.bit_len_limb as nat)
    }

    /// Shape invariant: full length, every limb within the width the
    /// tracked overflow allows, overflow within what the layout can carry.
    pub open spec fn wf(self, rns: Rns) -> bool {
        &&& self.limbs@.len() == rns.layout.number_of_limbs
        &&& self.overflow as nat <= rns.layout.max_overflow()
        &&& forall|i: int|
            0 <= i < self.limbs@.len() ==> #[trigger] self.limbs@[i] < pow2(
                rns.layout.bit_len_limb as nat + self.overflow as nat,
            )
    }

    /// Reduced: no overflow and a canonical residue.
    pub open spec fn is_reduced(self, rns: Rns) -> bool {
        &&& self.overflow == 0
        &&& self.as_nat(rns) < rns.modulus
    }
}

/// Emulated-field instructions over one Residue Number System.
///
/// Each method has the plain-value semantics of the constraints the
/// corresponding circuit instruction would emit; a method returns an error
/// exactly when no witness could satisfy those constraints.
#[derive(Clone, Copy, Debug)]
pub struct IntegerChip {
    pub rns: Rns,
}

impl IntegerChip {
    pub fn new(rns: Rns) -> (r: IntegerChip)
        ensures
            r.rns == rns,
    {
        IntegerChip { rns }
    }

    /// The representation this chip works over.
    pub fn rns(&self) -> (r: Rns)
        ensures
            r == self.rns,
    {
        self.rns
    }

    /// Commit a plain limbed integer as a canonical residue; the range
    /// check refuses anything but a well-formed remainder.
    pub fn assign_integer(&self, integer: &Integer) -> (r: Result<AssignedInteger, Error>)
        requires
            self.rns.wf(),
        ensures
            match r {
                Ok(a) => {
                    &&& integer.in_range(self.rns)
                    &&& a.wf(self.rns)
                    &&& a.is_reduced(self.rns)
                    &&& a.as_nat(self.rns) == integer.as_nat(self.rns.layout)
                },
                Err(e) => e == Error::InvalidIntegerForm && !integer.in_range(self.rns),
            },
    {
        let n: usize = self.rns.layout.number_of_limbs;
        let bit_len: usize = self.rns.layout.bit_len_limb;
        let ghost bit: nat = bit_len as nat;
        if integer.limbs.len() != n {
            return Err(Error::InvalidIntegerForm);
        }
        proof {
            assert(bit <= 48) by (nonlinear_arith)
                requires
                    1 <= n as nat,
                    bit >= 1,
                    (n as nat) * bit <= 48,
            ;
        }
        let radix: u64 = pow2_u64(bit_len);
        let mut out: Vec<u64> = Vec::new();
        let mut i: usize = 0;
        while i < n
            invariant
                i <= n,
                n == integer.limbs@.len(),
                n == self.rns.layout.number_of_limbs,
                bit_len == self.rns.layout.bit_len_limb,
                self.rns.wf(),
                out@ == integer.limbs@.take(i as int),
                radix == pow2(bit),
                bit == bit_len as nat,
                forall|j: int| 0 <= j < i ==> #[trigger] integer.limbs@[j] < pow2(bit),
            decreases n - i,
        {
            let limb: u64 = integer.limbs[i];
            if limb >= radix {
                proof {
                    assert(integer.limbs@[i as int] >= pow2(
                        self.rns.layout.bit_len_limb as nat,
                    ));
                }
                return Err(Error::InvalidIntegerForm);
            }
            out.push(limb);
            proof {
                assert(out@ =~= integer.limbs@.take(i + 1));
            }
            i = i + 1;
        }
        proof {
            assert(out@ =~= integer.limbs@);
        }
        let value: u64 = compose(&out, self.rns.layout, Ghost(0));
        if value >= self.rns.modulus {
            return Err(Error::InvalidIntegerForm);
        }
        Ok(AssignedInteger { limbs: out, overflow: 0 })
    }

    /// Lazy addition: limb-wise sums, overflow bound grown by one.  Fails
    /// only when the layout could no longer range-check the result, a
    /// configuration fault.
    pub fn add(&self, a: &AssignedInteger, b: &AssignedInteger) -> (r: Result<
        AssignedInteger,
        Error,
    >)
        requires
            self.rns.wf(),
            a.wf(self.rns),
            b.wf(self.rns),
        ensures
            match r {
                Ok(c) => {
                    &&& c.wf(self.rns)
                    &&& c.as_nat(self.rns) == a.as_nat(self.rns) + b.as_nat(self.rns)
                    &&& c.overflow == 1 + (if a.overflow >= b.overflow {
                        a.overflow
                    } else {
                        b.overflow
                    })
                },
                Err(e) => {
                    &&& e == Error::OverflowExceeded
                    &&& 1 + (if a.overflow >= b.overflow {
                        a.overflow as nat
                    } else {
                        b.overflow as nat
                    }) > self.rns.layout.max_overflow()
                },
            },
    {
        let n: usize = self.rns.layout.number_of_limbs;
        let bit_len: usize = self.rns.layout.bit_len_limb;
        let ghost bit: nat = bit_len as nat;
        let prev: usize = if a.overflow >= b.overflow {
            a.overflow
        } else {
            b.overflow
        };
        let cap: usize = 61 - n * bit_len;
        if prev + 1 > cap {
            return Err(Error::OverflowExceeded);
        }
        let o: usize = prev + 1;
        proof {
            assert(bit + o as nat <= 61) by (nonlinear_arith)
                requires
                    1 <= n as nat,
                    bit >= 1,
                    (n as nat) * bit <= 48,
                    o as nat <= 61 - (n as nat) * bit,
            ;
            lemma2_to64_rest();
        }
        let mut out: Vec<u64> = Vec::new();
        let mut i: usize = 0;
        while i < n
            invariant
                i <= n,
                n == a.limbs@.len(),
                n == b.limbs@.len(),
                bit == bit_len as nat,
                bit >= 1,
                bit + o as nat <= 61,
                a.overflow as nat <= o as nat - 1,
                b.overflow as nat <= o as nat - 1,
                forall|j: int|
                    0 <= j < a.limbs@.len() ==> #[trigger] a.limbs@[j] < pow2(
                        bit + a.overflow as nat,
                    ),
                forall|j: int|
                    0 <= j < b.limbs@.len() ==> #[trigger] b.limbs@[j] < pow2(
                        bit + b.overflow as nat,
                    ),
                out@.len() == i,
                forall|j: int| 0 <= j < i ==> #[trigger] out@[j] < pow2(bit + o as nat),
                limbs_value(out@, bit) == limbs_value(a.limbs@.take(i as int), bit) + limbs_value(
                    b.limbs@.take(i as int),
                    bit,
                ),
            decreases n - i,
        {
            proof {
                lemma_pow2_le(bit + a.overflow as nat, (bit + o as nat - 1) as nat);
                lemma_pow2_le(bit + b.overflow as nat, (bit + o as nat - 1) as nat);
                lemma_pow2_unfold(bit + o as nat);
                lemma_pow2_le(bit + o as nat, 61);
                lemma2_to64_rest();
                lemma_take_push(a.limbs@, i as int, bit);
                lemma_take_push(b.limbs@, i as int, bit);
                lemma_limbs_value_push(out@, (a.limbs@[i as int] + b.limbs@[i as int]) as u64, bit);
                assert((a.limbs@[i as int] + b.limbs@[i as int]) * pow2((i as nat) * bit)
                    == a.limbs@[i as int] * pow2((i as nat) * bit) + b.limbs@[i as int] * pow2(
                    (i as nat) * bit,
                )) by (nonlinear_arith);
            }
            let limb: u64 = a.limbs[i] + b.limbs[i];
            out.push(limb);
            i = i + 1;
        }
        proof {
            assert(a.limbs@.take(n as int) =~= a.limbs@);
            assert(b.limbs@.take(n as int) =~= b.limbs@);
        }
        Ok(AssignedInteger { limbs: out, overflow: o })
    }

    /// Modular multiplication; the result is a canonical residue.
    pub fn mul(&self, a: &AssignedInteger, b: &AssignedInteger) -> (r: AssignedInteger)
        requires
            self.rns.wf(),
            a.wf(self.rns),
            b.wf(self.rns),
        ensures
            r.wf(self.rns),
            r.is_reduced(self.rns),
            r.as_nat(self.rns) == (a.as_nat(self.rns) * b.as_nat(self.rns)) % (
            self.rns.modulus as nat),
    {
        let m: u64 = self.rns.modulus;
        let va: u64 = compose(&a.limbs, self.rns.layout, Ghost(a.overflow as nat));
        let vb: u64 = compose(&b.limbs, self.rns.layout, Ghost(b.overflow as nat));
        let p: u64 = modular::mul_mod(va, vb, m);
        proof {
            lemma_mul_mod_noop(va as int, vb as int, m as int);
            lemma_mod_bound((va as int) * (vb as int), m as int);
        }
        AssignedInteger { limbs: decompose(p, self.rns.layout), overflow: 0 }
    }

    /// Emulated inversion: the success flag says whether the witness can
    /// satisfy the constraint `a * r = 1`; when it cannot, the assigned
    /// result is one.
    pub fn invert(&self, a: &AssignedInteger) -> (r: (AssignedInteger, bool))
        requires
            self.rns.wf(),
            a.wf(self.rns),
        ensures
            r.0.wf(self.rns),
            r.0.is_reduced(self.rns),
            r.1 == modular::invertible(a.as_nat(self.rns), self.rns.modulus as nat),
            r.1 ==> (a.as_nat(self.rns) * r.0.as_nat(self.rns)) % (self.rns.modulus as nat) == 1
                && r.0.as_nat(self.rns) == modular::inverse(
                a.as_nat(self.rns),
                self.rns.modulus as nat,
            ),
            !r.1 ==> r.0.as_nat(self.rns) == 1,
    {
        let m: u64 = self.rns.modulus;
        let ghost mn: nat = m as nat;
        let ghost va_n: nat = a.as_nat(self.rns);
        let va: u64 = compose(&a.limbs, self.rns.layout, Ghost(a.overflow as nat));
        let ar: u64 = va % m;
        proof {
            lemma_mod_bound(va as int, m as int);
            lemma_small_mod(ar as nat, mn);
            vstd::arithmetic::div_mod::lemma_mod_twice(va as int, m as int);
        }
        match modular::inv_mod(ar, m) {
            Some(w) => {
                proof {
                    lemma_mul_mod_noop_left(va as int, w as int, m as int);
                    assert((va_n * w as nat) % mn == 1);
                    assert(exists|z: nat| z < mn && #[trigger] ((va_n * z) % mn) == 1);
                    let z: nat = modular::inverse(va_n, mn);
                    assert(z < mn && (va_n * z) % mn == 1);
                    modular::lemma_inverse_unique(va_n, mn, w as nat, z);
                }
                (AssignedInteger { limbs: decompose(w, self.rns.layout), overflow: 0 }, true)
            },
            None => {
                (AssignedInteger { limbs: decompose(1, self.rns.layout), overflow: 0 }, false)
            },
        }
    }

    /// Reduce to the canonical residue, clearing any tracked overflow.
    pub fn reduce(&self, a: &AssignedInteger) -> (r: AssignedInteger)
        requires
            self.rns.wf(),
            a.wf(self.rns),
        ensures
            r.wf(self.rns),
            r.is_reduced(self.rns),
            r.as_nat(self.rns) == a.as_nat(self.rns) % (self.rns.modulus as nat),
    {
        let m: u64 = self.rns.modulus;
        let va: u64 = compose(&a.limbs, self.rns.layout, Ghost(a.overflow as nat));
        let red: u64 = va % m;
        proof {
            lemma_mod_bound(va as int, m as int);
        }
        AssignedInteger { limbs: decompose(red, self.rns.layout), overflow: 0 }
    }

    /// Cross-field reduction: re-express a value canonical in another
    /// representation as a residue of this one.  The two representations
    /// must share one limb layout; that precondition is checked here, and
    /// breaking it is a construction-time fault.
    pub fn reduce_external(&self, other: &Rns, a: &AssignedInteger) -> (r: Result<
        AssignedInteger,
        Error,
    >)
        requires
            self.rns.wf(),
            other.wf(),
            a.wf(*other),
            a.is_reduced(*other),
        ensures
            match r {
                Ok(res) => {
                    &&& self.rns.layout == other.layout
                    &&& res.wf(self.rns)
                    &&& res.is_reduced(self.rns)
                    &&& res.as_nat(self.rns) == a.as_nat(*other) % (self.rns.modulus as nat)
                },
                Err(e) => e == Error::LayoutMismatch && self.rns.layout != other.layout,
            },
    {
        if self.rns.layout != other.layout {
            return Err(Error::LayoutMismatch);
        }
        let m: u64 = self.rns.modulus;
        let va: u64 = compose(&a.limbs, self.rns.layout, Ghost(a.overflow as nat));
        let red: u64 = va % m;
        proof {
            lemma_mod_bound(va as int, m as int);
        }
        Ok(AssignedInteger { limbs: decompose(red, self.rns.layout), overflow: 0 })
    }

    /// Emit the constraint that the value is a nonzero residue.
    pub fn assert_not_zero(&self, a: &AssignedInteger) -> (r: Result<(), Error>)
        requires
            self.rns.wf(),
            a.wf(self.rns),
        ensures
            match r {
                Ok(()) => a.as_nat(self.rns) % (self.rns.modulus as nat) != 0,
                Err(e) => e == Error::ConstraintUnsatisfied && a.as_nat(self.rns) % (
                self.rns.modulus as nat) == 0,
            },
    {
        let m: u64 = self.rns.modulus;
        let va: u64 = compose(&a.limbs, self.rns.layout, Ghost(a.overflow as nat));
        if va % m == 0 {
            Err(Error::ConstraintUnsatisfied)
        } else {
            Ok(())
        }
    }

    /// Emit the constraint that two values are equal limb for limb after
    /// reduction, i.e. the same residue.
    pub fn assert_strict_equal(&self, a: &AssignedInteger, b: &AssignedInteger) -> (r: Result<
        (),
        Error,
    >)
        requires
            self.rns.wf(),
            a.wf(self.rns),
            b.wf(self.rns),
        ensures
            match r {
                Ok(()) => a.as_nat(self.rns) % (self.rns.modulus as nat) == b.as_nat(self.rns) % (
                self.rns.modulus as nat),
                Err(e) => e == Error::ConstraintUnsatisfied && a.as_nat(self.rns) % (
                self.rns.modulus as nat) != b.as_nat(self.rns) % (self.rns.modulus as nat),
            },
    {
        let m: u64 = self.rns.modulus;
        let va: u64 = compose(&a.limbs, self.rns.layout, Ghost(a.overflow as nat));
        let vb: u64 = compose(&b.limbs, self.rns.layout, Ghost(b.overflow as nat));
        if va % m == vb % m {
            Ok(())
        } else {
            Err(Error::ConstraintUnsatisfied)
        }
    }
}

} // verus!

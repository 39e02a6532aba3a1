//! Affine curve points over the emulated base field.
//!
//! A point is a pair of limbed integers; there is no slot for the point at
//! infinity, so fixed points refuse the identity and the curve-chip
//! operations report it as an error when it arises.  The plain group
//! operations are specified by the short-Weierstrass chord-and-tangent
//! formulas, with scalar multiplication as binary double-and-add.

use crate::error::Error;
use crate::modular;
use crate::rns::compose;
use crate::rns::copy_limbs;
use crate::rns::decompose;
use crate::rns::AssignedInteger;
use crate::rns::ConstantInteger;
use crate::rns::Integer;
use crate::rns::IntegerChip;
use crate::rns::Rns;
use vstd::prelude::*;

verus! {

/// A plain short-Weierstrass point, with an explicit identity element.
#[derive(Clone, Copy, Debug, PartialEq, Eq, Structural)]
pub enum CurvePoint {
    Identity,
    Affine { x: u64, y: u64 },
}

/// The curve equation, its generator, and the two Residue Number System
/// representations (base field and scalar field) a verifier works over.
#[derive(Clone, Copy, Debug)]
pub struct CurveParams {
    pub base: Rns,
    pub scalar: Rns,
    pub a: u64,
    pub b: u64,
    pub gx: u64,
    pub gy: u64,
}

/// `(x, y)` satisfies `y^2 = x^3 + a x + b` modulo `p`.
pub open spec fn on_curve(p: int, a: int, b: int, x: int, y: int) -> bool {
    (y * y) % p == (x * x * x + a * x + b) % p
}

/// The coordinates are canonical residues of the base field.
pub open spec fn point_bounded(base: Rns, pt: CurvePoint) -> bool {
    match pt {
        CurvePoint::Identity => true,
        CurvePoint::Affine { x, y } => x < base.modulus && y < base.modulus,
    }
}

/// A bounded point that satisfies the curve equation.
pub open spec fn point_on_curve(cp: CurveParams, pt: CurvePoint) -> bool {
    match pt {
        CurvePoint::Identity => true,
        CurvePoint::Affine { x, y } => point_bounded(cp.base, pt) && on_curve(
            cp.base.modulus as int,
            cp.a as int,
            cp.b as int,
            x as int,
            y as int,
        ),
    }
}

impl CurveParams {
    /// Sound representations, curve constants and generator coordinates
    /// reduced, and a generator on the curve.
    pub open spec fn wf(self) -> bool {
        &&& self.base.wf()
        &&& self.scalar.wf()
        &&& self.a < self.base.modulus
        &&& self.b < self.base.modulus
        &&& self.gx < self.base.modulus
        &&& self.gy < self.base.modulus
        &&& on_curve(
            self.base.modulus as int,
            self.a as int,
            self.b as int,
            self.gx as int,
            self.gy as int,
        )
    }

    /// The fixed generator as a plain point.
    pub open spec fn generator(self) -> CurvePoint {
        CurvePoint::Affine { x: self.gx, y: self.gy }
    }

    /// The fixed generator as a plain point.
    pub fn generator_point(&self) -> (r: CurvePoint)
        ensures
            r == self.generator(),
    {
        CurvePoint::Affine { x: self.gx, y: self.gy }
    }
}

/// Field addition of residues.
pub open spec fn fadd(p: nat, x: nat, y: nat) -> nat {
    (x + y) % p
}

/// Field subtraction of residues.
pub open spec fn fsub(p: nat, x: nat, y: nat) -> nat {
    (((x as int) - (y as int)) % (p as int)) as nat
}

/// Field multiplication of residues.
pub open spec fn fmul(p: nat, x: nat, y: nat) -> nat {
    (x * y) % p
}

/// The affine point a chord or tangent of slope `lam` through `(x1, y1)`
/// and a point with abscissa `x2` leads to.
pub open spec fn ec_affine_sum(p: nat, lam: nat, x1: nat, y1: nat, x2: nat) -> CurvePoint {
    let x3 = fsub(p, fsub(p, fmul(p, lam, lam), x1), x2);
    let y3 = fsub(p, fmul(p, lam, fsub(p, x1, x3)), y1);
    CurvePoint::Affine { x: x3 as u64, y: y3 as u64 }
}

/// Chord-and-tangent addition.  `None` stands for a slope denominator
/// that has no inverse, which cannot happen over a prime field.
pub open spec fn ec_add(cp: CurveParams, p1: CurvePoint, p2: CurvePoint) -> Option<CurvePoint> {
    let p = cp.base.modulus as nat;
    match (p1, p2) {
        (CurvePoint::Identity, _) => Some(p2),
        (_, CurvePoint::Identity) => Some(p1),
        (CurvePoint::Affine { x: x1, y: y1 }, CurvePoint::Affine { x: x2, y: y2 }) => {
            if x1 == x2 {
                if fadd(p, y1 as nat, y2 as nat) == 0 {
                    Some(CurvePoint::Identity)
                } else {
                    let d = fadd(p, y1 as nat, y1 as nat);
                    if modular::invertible(d, p) {
                        let num = fadd(
                            p,
                            fmul(p, 3, fmul(p, x1 as nat, x1 as nat)),
                            cp.a as nat,
                        );
                        let lam = fmul(p, num, modular::inverse(d, p));
                        Some(ec_affine_sum(p, lam, x1 as nat, y1 as nat, x2 as nat))
                    } else {
                        None
                    }
                }
            } else {
                let d = fsub(p, x2 as nat, x1 as nat);
                if modular::invertible(d, p) {
                    let num = fsub(p, y2 as nat, y1 as nat);
                    let lam = fmul(p, num, modular::inverse(d, p));
                    Some(ec_affine_sum(p, lam, x1 as nat, y1 as nat, x2 as nat))
                } else {
                    None
                }
            }
        },
    }
}

/// Scalar multiplication by binary double-and-add.
pub open spec fn ec_mul(cp: CurveParams, k: nat, pt: CurvePoint) -> Option<CurvePoint>
    decreases k,
{
    if k == 0 {
        Some(CurvePoint::Identity)
    } else {
        match ec_mul(cp, k / 2, pt) {
            None => None,
            Some(h) => match ec_add(cp, h, h) {
                None => None,
                Some(d) => if k % 2 == 1 {
                    ec_add(cp, d, pt)
                } else {
                    Some(d)
                },
            },
        }
    }
}

/// Plain chord-and-tangent addition, exactly the `ec_add` specification.
pub fn ec_add_points(cp: &CurveParams, p1: &CurvePoint, p2: &CurvePoint) -> (r: Result<
    CurvePoint,
    Error,
>)
    requires
        cp.wf(),
        point_bounded(cp.base, *p1),
        point_bounded(cp.base, *p2),
    ensures
        match r {
            Ok(q) => ec_add(*cp, *p1, *p2) == Some(q) && point_bounded(cp.base, q),
            Err(e) => e == Error::ConstraintUnsatisfied && ec_add(*cp, *p1, *p2) is None,
        },
{
    let p: u64 = cp.base.modulus;
    let ghost pn: nat = p as nat;
    match (p1, p2) {
        (CurvePoint::Identity, _) => Ok(*p2),
        (_, CurvePoint::Identity) => Ok(*p1),
        (CurvePoint::Affine { x: x1, y: y1 }, CurvePoint::Affine { x: x2, y: y2 }) => {
            let x1: u64 = *x1;
            let y1: u64 = *y1;
            let x2: u64 = *x2;
            let y2: u64 = *y2;
            if x1 == x2 {
                let s: u64 = modular::add_mod(y1, y2, p);
                if s == 0 {
                    return Ok(CurvePoint::Identity);
                }
                let d: u64 = modular::add_mod(y1, y1, p);
                match modular::inv_mod(d, p) {
                    None => Err(Error::ConstraintUnsatisfied),
                    Some(w) => {
                        proof {
                            modular::lemma_inverse_value(d as nat, pn, w as nat);
                        }
                        let xx: u64 = modular::mul_mod(x1, x1, p);
                        let num: u64 = modular::add_mod(modular::mul_mod(3, xx, p), cp.a, p);
                        let lam: u64 = modular::mul_mod(num, w, p);
                        let x3: u64 = modular::sub_mod(
                            modular::sub_mod(modular::mul_mod(lam, lam, p), x1, p),
                            x2,
                            p,
                        );
                        let y3: u64 = modular::sub_mod(
                            modular::mul_mod(lam, modular::sub_mod(x1, x3, p), p),
                            y1,
                            p,
                        );
                        Ok(CurvePoint::Affine { x: x3, y: y3 })
                    },
                }
            } else {
                let d: u64 = modular::sub_mod(x2, x1, p);
                match modular::inv_mod(d, p) {
                    None => Err(Error::ConstraintUnsatisfied),
                    Some(w) => {
                        proof {
                            modular::lemma_inverse_value(d as nat, pn, w as nat);
                        }
                        let num: u64 = modular::sub_mod(y2, y1, p);
                        let lam: u64 = modular::mul_mod(num, w, p);
                        let x3: u64 = modular::sub_mod(
                            modular::sub_mod(modular::mul_mod(lam, lam, p), x1, p),
                            x2,
                            p,
                        );
                        let y3: u64 = modular::sub_mod(
                            modular::mul_mod(lam, modular::sub_mod(x1, x3, p), p),
                            y1,
                            p,
                        );
                        Ok(CurvePoint::Affine { x: x3, y: y3 })
                    },
                }
            }
        },
    }
}

/// Plain double-and-add scalar multiplication, exactly the `ec_mul`
/// specification.
pub fn ec_mul_point(cp: &CurveParams, k: u64, pt: &CurvePoint) -> (r: Result<CurvePoint, Error>)
    requires
        cp.wf(),
        point_bounded(cp.base, *pt),
    ensures
        match r {
            Ok(q) => ec_mul(*cp, k as nat, *pt) == Some(q) && point_bounded(cp.base, q),
            Err(e) => e == Error::ConstraintUnsatisfied && ec_mul(*cp, k as nat, *pt) is None,
        },
    decreases k,
{
    if k == 0 {
        return Ok(CurvePoint::Identity);
    }
    let half: CurvePoint = match ec_mul_point(cp, k / 2, pt) {
        Ok(h) => h,
        Err(e) => {
            return Err(e);
        },
    };
    let dbl: CurvePoint = match ec_add_points(cp, &half, &half) {
        Ok(d) => d,
        Err(e) => {
            return Err(e);
        },
    };
    if k % 2 == 1 {
        ec_add_points(cp, &dbl, pt)
    } else {
        Ok(dbl)
    }
}


/// Check the curve equation on reduced coordinates.
fn on_curve_check(cp: &CurveParams, x: u64, y: u64) -> (r: bool)
    requires
        cp.wf(),
        x < cp.base.modulus,
        y < cp.base.modulus,
    ensures
        r == on_curve(cp.base.modulus as int, cp.a as int, cp.b as int, x as int, y as int),
{
    let p: u64 = cp.base.modulus;
    let lhs: u64 = modular::mul_mod(y, y, p);
    let xx: u64 = modular::mul_mod(x, x, p);
    let xxx: u64 = modular::mul_mod(xx, x, p);
    let ax: u64 = modular::mul_mod(cp.a, x, p);
    let s1: u64 = modular::add_mod(xxx, ax, p);
    let rhs: u64 = modular::add_mod(s1, cp.b, p);
    proof {
        let pi: int = p as int;
        let xi: int = x as int;
        vstd::arithmetic::div_mod::lemma_mul_mod_noop_left(xi * xi, xi, pi);
        vstd::arithmetic::div_mod::lemma_add_mod_noop(xi * xi * xi, cp.a as int * xi, pi);
        vstd::arithmetic::div_mod::lemma_add_mod_noop(
            xi * xi * xi + cp.a as int * xi,
            cp.b as int,
            pi,
        );
        vstd::arithmetic::div_mod::lemma_small_mod(cp.b as nat, p as nat);
    }
    lhs == rhs
}

/// An affine point built from two already-committed limbed integers.
/// Composition is trusted: nothing is validated here, and extraction
/// checks the curve equation.
#[derive(Clone, Debug)]
pub struct Point {
    pub x: Integer,
    pub y: Integer,
}

impl Point {
    /// The plain point the coordinate limbs stand for.
    pub open spec fn as_point(self, base: Rns) -> CurvePoint {
        CurvePoint::Affine {
            x: self.x.as_nat(base.layout) as u64,
            y: self.y.as_nat(base.layout) as u64,
        }
    }

    /// Build a point from two limbed integers, without validation.
    pub fn new(x: &Integer, y: &Integer) -> (r: Point)
        ensures
            r.x.limbs@ == x.limbs@,
            r.y.limbs@ == y.limbs@,
    {
        Point { x: Integer { limbs: copy_limbs(&x.limbs) }, y: Integer { limbs: copy_limbs(&y.limbs) } }
    }

    /// The coordinate limbs laid out flat, x first, as public inputs.
    pub fn public(&self) -> (r: Vec<u64>)
        ensures
            r@ == self.x.limbs@ + self.y.limbs@,
    {
        let mut out: Vec<u64> = copy_limbs(&self.x.limbs);
        let mut i: usize = 0;
        while i < self.y.limbs.len()
            invariant
                i <= self.y.limbs@.len(),
                out@ == self.x.limbs@ + self.y.limbs@.take(i as int),
            decreases self.y.limbs@.len() - i,
        {
            out.push(self.y.limbs[i]);
            proof {
                assert(out@ =~= self.x.limbs@ + self.y.limbs@.take(i + 1));
            }
            i = i + 1;
        }
        proof {
            assert(out@ =~= self.x.limbs@ + self.y.limbs@);
        }
        out
    }

    /// The x coordinate.
    pub fn x(&self) -> (r: &Integer)
        ensures
            r.limbs@ == self.x.limbs@,
    {
        &self.x
    }

    /// The y coordinate.
    pub fn y(&self) -> (r: &Integer)
        ensures
            r.limbs@ == self.y.limbs@,
    {
        &self.y
    }

    /// Extract the plain curve point of a satisfying witness, failing if
    /// the coordinates do not lie on the curve.
    pub fn value(&self, cp: &CurveParams) -> (r: Result<CurvePoint, Error>)
        requires
            cp.wf(),
            self.x.nominal(cp.base.layout),
            self.y.nominal(cp.base.layout),
        ensures
            match r {
                Ok(q) => q == self.as_point(cp.base) && point_on_curve(*cp, q),
                Err(e) => e == Error::NotOnCurve && !point_on_curve(*cp, self.as_point(cp.base)),
            },
    {
        let vx: u64 = compose(&self.x.limbs, cp.base.layout, Ghost(0));
        let vy: u64 = compose(&self.y.limbs, cp.base.layout, Ghost(0));
        if vx >= cp.base.modulus || vy >= cp.base.modulus {
            return Err(Error::NotOnCurve);
        }
        if on_curve_check(cp, vx, vy) {
            Ok(CurvePoint::Affine { x: vx, y: vy })
        } else {
            Err(Error::NotOnCurve)
        }
    }
}

/// A point whose coordinates are fixed at circuit-construction time.
/// The encoding has no slot for the identity, so construction from it
/// fails hard.
#[derive(Clone, Debug)]
pub struct ConstantPoint {
    pub x: ConstantInteger,
    pub y: ConstantInteger,
}

impl ConstantPoint {
    /// The plain point the coordinate limbs stand for.
    pub open spec fn as_point(self, base: Rns) -> CurvePoint {
        CurvePoint::Affine {
            x: self.x.as_nat(base.layout) as u64,
            y: self.y.as_nat(base.layout) as u64,
        }
    }

    /// Coordinates decomposed to full length and nominal width, values
    /// canonical in the base field.
    pub open spec fn wf(self, base: Rns) -> bool {
        &&& self.x.nominal(base.layout)
        &&& self.y.nominal(base.layout)
        &&& self.x.as_nat(base.layout) < base.modulus
        &&& self.y.as_nat(base.layout) < base.modulus
    }

    /// Fix a plain point as a constant; the identity is refused.
    pub fn new(base: Rns, point: &CurvePoint) -> (r: Result<ConstantPoint, Error>)
        requires
            base.wf(),
            point_bounded(base, *point),
        ensures
            match r {
                Ok(c) => {
                    &&& *point != CurvePoint::Identity
                    &&& c.wf(base)
                    &&& c.as_point(base) == *point
                },
                Err(e) => e == Error::PointAtInfinity && *point == CurvePoint::Identity,
            },
    {
        match point {
            CurvePoint::Identity => Err(Error::PointAtInfinity),
            CurvePoint::Affine { x, y } => Ok(
                ConstantPoint {
                    x: ConstantInteger::from_value(*x, base),
                    y: ConstantInteger::from_value(*y, base),
                },
            ),
        }
    }

    /// The x coordinate.
    pub fn x(&self) -> (r: &ConstantInteger)
        ensures
            r.limbs@ == self.x.limbs@,
    {
        &self.x
    }

    /// The y coordinate.
    pub fn y(&self) -> (r: &ConstantInteger)
        ensures
            r.limbs@ == self.y.limbs@,
    {
        &self.y
    }

    /// Recompose the plain point the constant stands for.
    pub fn value(&self, base: Rns) -> (r: CurvePoint)
        requires
            base.wf(),
            self.wf(base),
        ensures
            r == self.as_point(base),
    {
        CurvePoint::Affine { x: self.x.value(base), y: self.y.value(base) }
    }
}

/// A point committed into the circuit: both coordinates reduced residues
/// of the base field.
#[derive(Clone, Debug)]
pub struct AssignedPoint {
    pub x: AssignedInteger,
    pub y: AssignedInteger,
}

impl AssignedPoint {
    /// Both coordinates well-formed and reduced.
    pub open spec fn wf(self, base: Rns) -> bool {
        &&& self.x.wf(base)
        &&& self.x.is_reduced(base)
        &&& self.y.wf(base)
        &&& self.y.is_reduced(base)
    }

    /// The plain point the coordinates stand for.
    pub open spec fn as_point(self, base: Rns) -> CurvePoint {
        CurvePoint::Affine { x: self.x.as_nat(base) as u64, y: self.y.as_nat(base) as u64 }
    }

    /// The x coordinate.
    pub fn get_x(&self) -> (r: AssignedInteger)
        ensures
            r.limbs@ == self.x.limbs@,
            r.overflow == self.x.overflow,
    {
        AssignedInteger { limbs: copy_limbs(&self.x.limbs), overflow: self.x.overflow }
    }

    /// The y coordinate.
    pub fn get_y(&self) -> (r: AssignedInteger)
        ensures
            r.limbs@ == self.y.limbs@,
            r.overflow == self.y.overflow,
    {
        AssignedInteger { limbs: copy_limbs(&self.y.limbs), overflow: self.y.overflow }
    }
}

/// Recompose an assigned point into the plain point it stands for.
fn plain_of(base: Rns, ap: &AssignedPoint) -> (r: CurvePoint)
    requires
        base.wf(),
        ap.wf(base),
    ensures
        r == ap.as_point(base),
        point_bounded(base, r),
{
    let vx: u64 = compose(&ap.x.limbs, base.layout, Ghost(ap.x.overflow as nat));
    let vy: u64 = compose(&ap.y.limbs, base.layout, Ghost(ap.y.overflow as nat));
    CurvePoint::Affine { x: vx, y: vy }
}

/// Curve-point instructions: assignment with on-curve enforcement, point
/// addition, and scalar multiplication.
///
/// Each method has the plain-value semantics of the constraints the
/// corresponding circuit instruction would emit.  A result that would be
/// the identity is an error: the affine encoding cannot carry it, which
/// is why the circuit blinds scalar multiplication with an auxiliary
/// generator.
#[derive(Clone, Copy, Debug)]
pub struct EccChip {
    pub params: CurveParams,
}

impl EccChip {
    pub fn new(params: CurveParams) -> (r: EccChip)
        ensures
            r.params == params,
    {
        EccChip { params }
    }

    /// The emulated-field chip over the curve's base field.
    pub fn base_field_chip(&self) -> (r: IntegerChip)
        ensures
            r.rns == self.params.base,
    {
        IntegerChip::new(self.params.base)
    }

    /// The emulated-field chip over the curve's scalar field.
    pub fn scalar_field_chip(&self) -> (r: IntegerChip)
        ensures
            r.rns == self.params.scalar,
    {
        IntegerChip::new(self.params.scalar)
    }

    /// Commit a plain point, enforcing that it lies on the curve.  The
    /// identity has no encoding and is refused.
    pub fn assign_point(&self, pt: &CurvePoint) -> (r: Result<AssignedPoint, Error>)
        requires
            self.params.wf(),
        ensures
            match r {
                Ok(ap) => {
                    &&& *pt != CurvePoint::Identity
                    &&& point_on_curve(self.params, *pt)
                    &&& ap.wf(self.params.base)
                    &&& ap.as_point(self.params.base) == *pt
                },
                Err(e) => (*pt == CurvePoint::Identity && e == Error::PointAtInfinity) || (*pt
                    != CurvePoint::Identity && !point_on_curve(self.params, *pt) && e
                    == Error::NotOnCurve),
            },
    {
        match pt {
            CurvePoint::Identity => Err(Error::PointAtInfinity),
            CurvePoint::Affine { x, y } => {
                let x: u64 = *x;
                let y: u64 = *y;
                if x >= self.params.base.modulus || y >= self.params.base.modulus {
                    return Err(Error::NotOnCurve);
                }
                if !on_curve_check(&self.params, x, y) {
                    return Err(Error::NotOnCurve);
                }
                Ok(
                    AssignedPoint {
                        x: AssignedInteger {
                            limbs: decompose(x, self.params.base.layout),
                            overflow: 0,
                        },
                        y: AssignedInteger {
                            limbs: decompose(y, self.params.base.layout),
                            overflow: 0,
                        },
                    },
                )
            },
        }
    }

    /// Emit the constraints of one point addition.
    pub fn add(&self, p1: &AssignedPoint, p2: &AssignedPoint) -> (r: Result<AssignedPoint, Error>)
        requires
            self.params.wf(),
            p1.wf(self.params.base),
            p2.wf(self.params.base),
        ensures
            match r {
                Ok(q) => {
                    &&& q.wf(self.params.base)
                    &&& ec_add(
                        self.params,
                        p1.as_point(self.params.base),
                        p2.as_point(self.params.base),
                    ) == Some(q.as_point(self.params.base))
                },
                Err(e) => (e == Error::PointAtInfinity && ec_add(
                    self.params,
                    p1.as_point(self.params.base),
                    p2.as_point(self.params.base),
                ) == Some(CurvePoint::Identity)) || (e == Error::ConstraintUnsatisfied && ec_add(
                    self.params,
                    p1.as_point(self.params.base),
                    p2.as_point(self.params.base),
                ) is None),
            },
    {
        let a1: CurvePoint = plain_of(self.params.base, p1);
        let a2: CurvePoint = plain_of(self.params.base, p2);
        match ec_add_points(&self.params, &a1, &a2) {
            Err(e) => Err(e),
            Ok(CurvePoint::Identity) => Err(Error::PointAtInfinity),
            Ok(CurvePoint::Affine { x, y }) => Ok(
                AssignedPoint {
                    x: AssignedInteger {
                        limbs: decompose(x, self.params.base.layout),
                        overflow: 0,
                    },
                    y: AssignedInteger {
                        limbs: decompose(y, self.params.base.layout),
                        overflow: 0,
                    },
                },
            ),
        }
    }

    /// Emit the constraints of one windowed scalar multiplication; the
    /// semantics is binary double-and-add on the scalar's residue.
    pub fn mul(&self, pt: &AssignedPoint, scalar: &AssignedInteger) -> (r: Result<
        AssignedPoint,
        Error,
    >)
        requires
            self.params.wf(),
            pt.wf(self.params.base),
            scalar.wf(self.params.scalar),
        ensures
            match r {
                Ok(q) => {
                    &&& q.wf(self.params.base)
                    &&& ec_mul(
                        self.params,
                        scalar.as_nat(self.params.scalar),
                        pt.as_point(self.params.base),
                    ) == Some(q.as_point(self.params.base))
                },
                Err(e) => (e == Error::PointAtInfinity && ec_mul(
                    self.params,
                    scalar.as_nat(self.params.scalar),
                    pt.as_point(self.params.base),
                ) == Some(CurvePoint::Identity)) || (e == Error::ConstraintUnsatisfied && ec_mul(
                    self.params,
                    scalar.as_nat(self.params.scalar),
                    pt.as_point(self.params.base),
                ) is None),
            },
    {
        let k: u64 = compose(&scalar.limbs, self.params.scalar.layout, Ghost(scalar.overflow as nat));
        let plain: CurvePoint = plain_of(self.params.base, pt);
        match ec_mul_point(&self.params, k, &plain) {
            Err(e) => Err(e),
            Ok(CurvePoint::Identity) => Err(Error::PointAtInfinity),
            Ok(CurvePoint::Affine { x, y }) => Ok(
                AssignedPoint {
                    x: AssignedInteger {
                        limbs: decompose(x, self.params.base.layout),
                        overflow: 0,
                    },
                    y: AssignedInteger {
                        limbs: decompose(y, self.params.base.layout),
                        overflow: 0,
                    },
                },
            ),
        }
    }
}


/// Left fold of `acc + scalar_i * point_i` over the pairs, starting from
/// the identity.
pub open spec fn multiexp(cp: CurveParams, points: Seq<CurvePoint>, scalars: Seq<u64>) -> Option<
    CurvePoint,
>
    decreases points.len(),
{
    if points.len() == 0 {
        Some(CurvePoint::Identity)
    } else {
        match multiexp(cp, points.drop_last(), scalars.drop_last()) {
            None => None,
            Some(acc) => match ec_mul(cp, scalars.last() as nat, points.last()) {
                None => None,
                Some(t) => ec_add(cp, acc, t),
            },
        }
    }
}

/// Once a prefix of the fold fails, the whole fold fails.
proof fn lemma_multiexp_prefix_none(cp: CurveParams, ps: Seq<CurvePoint>, ss: Seq<u64>, i: int)
    requires
        0 <= i <= ps.len(),
        ss.len() == ps.len(),
        multiexp(cp, ps.take(i), ss.take(i)) is None,
    ensures
        multiexp(cp, ps, ss) is None,
    decreases ps.len() - i,
{
    if i < ps.len() {
        assert(ps.take(i + 1).drop_last() =~= ps.take(i));
        assert(ss.take(i + 1).drop_last() =~= ss.take(i));
        lemma_multiexp_prefix_none(cp, ps, ss, i + 1);
    } else {
        assert(ps.take(i) =~= ps);
        assert(ss.take(i) =~= ss);
    }
}

/// Naive variable-base multi-scalar multiplication: fold the pairs into
/// `sum scalar_i * point_i`, exactly the `multiexp` specification.
pub fn multiexp_naive_var(cp: &CurveParams, points: &Vec<CurvePoint>, scalars: &Vec<u64>) -> (r:
    Result<CurvePoint, Error>)
    requires
        cp.wf(),
        points@.len() == scalars@.len(),
        points@.len() >= 1,
        forall|i: int| 0 <= i < points@.len() ==> point_bounded(cp.base, #[trigger] points@[i]),
    ensures
        match r {
            Ok(q) => multiexp(*cp, points@, scalars@) == Some(q) && point_bounded(cp.base, q),
            Err(e) => e == Error::ConstraintUnsatisfied && multiexp(*cp, points@, scalars@) is None,
        },
{
    let mut acc: CurvePoint = CurvePoint::Identity;
    let mut i: usize = 0;
    proof {
        assert(points@.take(0int) =~= Seq::<CurvePoint>::empty());
        assert(scalars@.take(0int) =~= Seq::<u64>::empty());
    }
    while i < points.len()
        invariant
            cp.wf(),
            i <= points@.len(),
            points@.len() == scalars@.len(),
            forall|j: int| 0 <= j < points@.len() ==> point_bounded(cp.base, #[trigger] points@[j]),
            point_bounded(cp.base, acc),
            multiexp(*cp, points@.take(i as int), scalars@.take(i as int)) == Some(acc),
        decreases points@.len() - i,
    {
        proof {
            assert(points@.take(i + 1).drop_last() =~= points@.take(i as int));
            assert(scalars@.take(i + 1).drop_last() =~= scalars@.take(i as int));
        }
        let term: CurvePoint = match ec_mul_point(cp, scalars[i], &points[i]) {
            Ok(t) => t,
            Err(e) => {
                proof {
                    lemma_multiexp_prefix_none(*cp, points@, scalars@, i + 1);
                }
                return Err(e);
            },
        };
        acc = match ec_add_points(cp, &acc, &term) {
            Ok(q) => q,
            Err(e) => {
                proof {
                    lemma_multiexp_prefix_none(*cp, points@, scalars@, i + 1);
                }
                return Err(e);
            },
        };
        i = i + 1;
    }
    proof {
        assert(points@.take(i as int) =~= points@);
        assert(scalars@.take(i as int) =~= scalars@);
    }
    Ok(acc)
}

} // verus!

//! The ECDSA verification protocol over the emulated curve.
//!
//! The verifier emits a fixed sequence of field and curve instructions:
//! assert `r` and `s` nonzero, invert `s`, form `u1` and `u2`, combine the
//! generator and the public key into `Q = u1 G + u2 P`, reduce `Q`'s
//! x-coordinate across fields, and assert it equal to `r`.  Construction
//! succeeds exactly when every emitted constraint is satisfiable; the
//! contract of `verify` states that condition in full as `ecdsa_ok`.

use crate::ecc::ec_add;
use crate::ecc::ec_mul;
use crate::ecc::point_on_curve;
use crate::ecc::AssignedPoint;
use crate::ecc::CurveParams;
use crate::ecc::CurvePoint;
use crate::ecc::EccChip;
use crate::error::Error;
use crate::modular;
use crate::rns::AssignedInteger;
use crate::rns::Integer;
use crate::rns::IntegerChip;
use crate::rns::Rns;
use vstd::arithmetic::div_mod::lemma_small_mod;
use vstd::prelude::*;

verus! {

/// Composition of the chip configurations into one verifier
/// configuration.
#[derive(Clone, Copy, Debug)]
pub struct EcdsaConfig {
    pub params: CurveParams,
}

impl EcdsaConfig {
    pub fn new(params: CurveParams) -> (r: EcdsaConfig)
        ensures
            r.params == params,
    {
        EcdsaConfig { params }
    }

    /// The configuration of the curve-point chip.
    pub fn ecc_chip_config(&self) -> (r: CurveParams)
        ensures
            r == self.params,
    {
        self.params
    }

    /// The configuration of the scalar-field integer chip.
    pub fn integer_chip_config(&self) -> (r: Rns)
        ensures
            r == self.params.scalar,
    {
        self.params.scalar
    }
}

/// A signature: the pair `(r, s)` of limbed integers over the scalar
/// field.
#[derive(Clone, Debug)]
pub struct EcdsaSig {
    pub r: Integer,
    pub s: Integer,
}

/// A signature committed into the circuit.
#[derive(Clone, Debug)]
pub struct AssignedEcdsaSig {
    pub r: AssignedInteger,
    pub s: AssignedInteger,
}

/// A public key committed into the circuit.
#[derive(Clone, Debug)]
pub struct AssignedPublicKey {
    pub point: AssignedPoint,
}

/// The verification equation over the spec-level curve operations: with
/// `w` the inverse of `s`, the points `u1 G` and `u2 P` exist, are not the
/// identity, their sum is affine, and its x-coordinate re-expressed
/// modulo the scalar field equals `r`.
pub open spec fn ecdsa_equation_holds(
    cp: CurveParams,
    r: nat,
    s: nat,
    pk: CurvePoint,
    m: nat,
) -> bool {
    let n = cp.scalar.modulus as nat;
    let w = modular::inverse(s, n);
    let u1 = (m * w) % n;
    let u2 = (r * w) % n;
    match (ec_mul(cp, u1, cp.generator()), ec_mul(cp, u2, pk)) {
        (Some(g1), Some(g2)) => {
            &&& g1 != CurvePoint::Identity
            &&& g2 != CurvePoint::Identity
            &&& match ec_add(cp, g1, g2) {
                Some(CurvePoint::Affine { x: qx, y: qy }) => (qx as nat) % n == r,
                _ => false,
            }
        },
        _ => false,
    }
}

/// Every constraint the protocol emits is satisfiable: `r` and `s` are
/// nonzero residues, `s` is invertible, and the verification equation
/// holds.
pub open spec fn ecdsa_ok(cp: CurveParams, r: nat, s: nat, pk: CurvePoint, m: nat) -> bool {
    &&& r != 0
    &&& s != 0
    &&& modular::invertible(s, cp.scalar.modulus as nat)
    &&& ecdsa_equation_holds(cp, r, s, pk, m)
}

/// Law: a zero `r` or a zero `s` never verifies, whatever the message,
/// the key and the rest of the signature are.
pub proof fn lemma_zero_r_or_s_never_verifies(
    cp: CurveParams,
    r: nat,
    s: nat,
    pk: CurvePoint,
    m: nat,
)
    requires
        r == 0 || s == 0,
    ensures
        !ecdsa_ok(cp, r, s, pk, m),
{
}

/// The ECDSA verification chip: the verification protocol run over a
/// curve-point chip and its two field chips.
pub struct EcdsaChip(pub EccChip);

impl EcdsaChip {
    pub fn new(ecc_chip: EccChip) -> (r: Self)
        ensures
            r.0 == ecc_chip,
    {
        EcdsaChip(ecc_chip)
    }

    /// The emulated-field chip over the curve's scalar field.
    pub fn scalar_field_chip(&self) -> (r: IntegerChip)
        ensures
            r.rns == self.0.params.scalar,
    {
        self.0.scalar_field_chip()
    }

    /// The underlying curve-point chip.
    fn ecc_chip(&self) -> (r: EccChip)
        ensures
            r == self.0,
    {
        EccChip::new(self.0.params)
    }

    /// Run the seven-step verification protocol on an assigned signature,
    /// public key and message hash.
    ///
    /// Mismatched limb layouts between the base-field and scalar-field
    /// representations are a construction-time fault, reported before any
    /// constraint is emitted.  With matching layouts, the call returns
    /// `Ok` exactly when the constraint system is satisfiable for these
    /// inputs, i.e. when `ecdsa_ok` holds of their values.
    pub fn verify(
        &self,
        sig: &AssignedEcdsaSig,
        pk: &AssignedPublicKey,
        msg_hash: &AssignedInteger,
    ) -> (res: Result<(), Error>)
        requires
            self.0.params.wf(),
            sig.r.wf(self.0.params.scalar),
            sig.r.is_reduced(self.0.params.scalar),
            sig.s.wf(self.0.params.scalar),
            sig.s.is_reduced(self.0.params.scalar),
            msg_hash.wf(self.0.params.scalar),
            msg_hash.is_reduced(self.0.params.scalar),
            pk.point.wf(self.0.params.base),
            point_on_curve(self.0.params, pk.point.as_point(self.0.params.base)),
        ensures
            ({
                let cp = self.0.params;
                let rv = sig.r.as_nat(cp.scalar);
                let sv = sig.s.as_nat(cp.scalar);
                let mv = msg_hash.as_nat(cp.scalar);
                let pkp = pk.point.as_point(cp.base);
                &&& (cp.base.layout != cp.scalar.layout ==> res == Err::<(), Error>(
                    Error::LayoutMismatch,
                ))
                &&& (cp.base.layout == cp.scalar.layout ==> ((res is Ok) <==> ecdsa_ok(
                    cp,
                    rv,
                    sv,
                    pkp,
                    mv,
                )))
                &&& ((cp.base.layout == cp.scalar.layout && (rv == 0 || sv == 0)) ==> res
                    == Err::<(), Error>(Error::ConstraintUnsatisfied))
            }),
    {
        let ghost cp = self.0.params;
        let ghost n: nat = self.0.params.scalar.modulus as nat;
        let ghost rv: nat = sig.r.as_nat(self.0.params.scalar);
        let ghost sv: nat = sig.s.as_nat(self.0.params.scalar);
        let ghost mv: nat = msg_hash.as_nat(self.0.params.scalar);
        let ghost pkp: CurvePoint = pk.point.as_point(self.0.params.base);
        let ecc_chip: EccChip = self.ecc_chip();
        let scalar_chip: IntegerChip = ecc_chip.scalar_field_chip();
        let base_chip: IntegerChip = ecc_chip.base_field_chip();

        // Construction-time precondition: the two representations must
        // share one limb layout for the cross-field reduction of step 6.
        if self.0.params.base.layout != self.0.params.scalar.layout {
            return Err(Error::LayoutMismatch);
        }
        proof {
            lemma_small_mod(rv, n);
            lemma_small_mod(sv, n);
        }

        // 1. check 0 < r, s < n: not-zero subsumes the range check, the
        // operands being assigned as canonical residues.
        match scalar_chip.assert_not_zero(&sig.r) {
            Ok(()) => (),
            Err(e) => {
                return Err(e);
            },
        }
        match scalar_chip.assert_not_zero(&sig.s) {
            Ok(()) => (),
            Err(e) => {
                return Err(e);
            },
        }

        // 2. w = s^(-1) (mod n): the constraint s * w = 1 is satisfiable
        // exactly when s is invertible.
        let ghost w: nat = modular::inverse(sv, n);
        let (s_inv, s_invertible): (AssignedInteger, bool) = scalar_chip.invert(&sig.s);
        if !s_invertible {
            return Err(Error::ConstraintUnsatisfied);
        }
        proof {
            assert(s_inv.as_nat(cp.scalar) == w);
        }

        // 3. u1 = m' * w (mod n)
        let u1: AssignedInteger = scalar_chip.mul(msg_hash, &s_inv);

        // 4. u2 = r * w (mod n)
        let u2: AssignedInteger = scalar_chip.mul(&sig.r, &s_inv);

        // 5. compute Q = u1 * G + u2 * pk
        let gen_point: CurvePoint = self.0.params.generator_point();
        proof {
            assert(point_on_curve(cp, cp.generator()));
        }
        let e_gen: AssignedPoint = match ecc_chip.assign_point(&gen_point) {
            Ok(g) => g,
            Err(e) => {
                return Err(e);
            },
        };
        proof {
            assert(e_gen.as_point(cp.base) == cp.generator());
            assert(u1.as_nat(cp.scalar) == (mv * w) % n);
            assert(u2.as_nat(cp.scalar) == (rv * w) % n);
        }
        let g1: AssignedPoint = match ecc_chip.mul(&e_gen, &u1) {
            Ok(v) => v,
            Err(e) => {
                return Err(e);
            },
        };
        proof {
            assert(ec_mul(cp, (mv * w) % n, cp.generator()) == Some(g1.as_point(cp.base)));
            assert(g1.as_point(cp.base) != CurvePoint::Identity);
        }
        let g2: AssignedPoint = match ecc_chip.mul(&pk.point, &u2) {
            Ok(v) => v,
            Err(e) => {
                return Err(e);
            },
        };
        proof {
            assert(ec_mul(cp, (rv * w) % n, pkp) == Some(g2.as_point(cp.base)));
            assert(g2.as_point(cp.base) != CurvePoint::Identity);
        }
        let q: AssignedPoint = match ecc_chip.add(&g1, &g2) {
            Ok(v) => v,
            Err(e) => {
                return Err(e);
            },
        };
        proof {
            assert(ec_add(cp, g1.as_point(cp.base), g2.as_point(cp.base)) == Some(
                q.as_point(cp.base),
            ));
        }

        // 6. reduce q_x across fields, assuming the shared limb layout.
        let q_x: AssignedInteger = q.get_x();
        let q_x_reduced_in_q: AssignedInteger = base_chip.reduce(&q_x);
        let q_x_reduced_in_r: AssignedInteger = match scalar_chip.reduce_external(
            &self.0.params.base,
            &q_x_reduced_in_q,
        ) {
            Ok(v) => v,
            Err(e) => {
                return Err(e);
            },
        };

        proof {
            let qxn: nat = q.x.as_nat(cp.base);
            assert(qxn < cp.base.modulus);
            assert(q_x.as_nat(cp.base) == qxn);
            lemma_small_mod(qxn, cp.base.modulus as nat);
            assert(q_x_reduced_in_q.as_nat(cp.base) == qxn);
            assert(q_x_reduced_in_r.as_nat(cp.scalar) == qxn % n);
            vstd::arithmetic::div_mod::lemma_mod_twice(qxn as int, n as int);
            assert(q.as_point(cp.base) == (CurvePoint::Affine {
                x: qxn as u64,
                y: q.y.as_nat(cp.base) as u64,
            }));
            assert(((qxn as u64) as nat) == qxn);
        }
        // 7. check if Q.x == r (mod n)
        match scalar_chip.assert_strict_equal(&q_x_reduced_in_r, &sig.r) {
            Ok(()) => Ok(()),
            Err(e) => Err(e),
        }
    }
}

} // verus!

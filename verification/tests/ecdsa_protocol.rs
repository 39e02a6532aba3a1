use ecdsa_chip::ecc::{CurveParams, CurvePoint, EccChip};
use ecdsa_chip::ecdsa::{AssignedEcdsaSig, AssignedPublicKey, EcdsaChip, EcdsaConfig, EcdsaSig};
use ecdsa_chip::error::Error;
use ecdsa_chip::modular::{add_mod, inv_mod, mul_mod};
use ecdsa_chip::rns::{Integer, LimbLayout, Rns};

fn layout() -> LimbLayout {
    LimbLayout { number_of_limbs: 4, bit_len_limb: 8 }
}

/// y^2 = x^3 + 2x + 13 over F_65521; the group has prime order 65171.
fn curve_a() -> CurveParams {
    CurveParams {
        base: Rns { modulus: 65521, layout: layout() },
        scalar: Rns { modulus: 65171, layout: layout() },
        a: 2,
        b: 13,
        gx: 1,
        gy: 4,
    }
}

/// y^2 = x^3 + x + 6 over F_40993; the group has prime order 41263.
fn curve_b() -> CurveParams {
    CurveParams {
        base: Rns { modulus: 40993, layout: layout() },
        scalar: Rns { modulus: 41263, layout: layout() },
        a: 1,
        b: 6,
        gx: 1,
        gy: 1942,
    }
}

fn scalar_mul(cp: &CurveParams, k: u64, pt: &CurvePoint) -> CurvePoint {
    ecdsa_chip::ecc::ec_mul_point(cp, k, pt).expect("scalar multiplication failed")
}

fn x_of(pt: &CurvePoint) -> u64 {
    match pt {
        CurvePoint::Affine { x, .. } => *x,
        CurvePoint::Identity => panic!("unexpected identity point"),
    }
}

/// Plain ECDSA signing: r = x(kG) mod n, s = k^-1 (m + r sk) mod n.
fn sign(cp: &CurveParams, sk: u64, k: u64, m: u64) -> (u64, u64) {
    let n: u64 = cp.scalar.modulus;
    let g = CurvePoint::Affine { x: cp.gx, y: cp.gy };
    let r: u64 = x_of(&scalar_mul(cp, k, &g)) % n;
    let k_inv: u64 = inv_mod(k % n, n).expect("k not invertible");
    let s: u64 = mul_mod(k_inv, add_mod(m % n, mul_mod(r, sk, n), n), n);
    (r, s)
}

fn run_verify(cp: &CurveParams, r: u64, s: u64, pk: &CurvePoint, m: u64) -> Result<(), Error> {
    let ecc_chip = EccChip::new(*cp);
    let chip = EcdsaChip::new(ecc_chip);
    let pk_assigned = AssignedPublicKey { point: ecc_chip.assign_point(pk)? };
    let sig_plain = EcdsaSig {
        r: Integer::from_value(r, cp.scalar.layout),
        s: Integer::from_value(s, cp.scalar.layout),
    };
    let sig = AssignedEcdsaSig {
        r: chip.scalar_field_chip().assign_integer(&sig_plain.r)?,
        s: chip.scalar_field_chip().assign_integer(&sig_plain.s)?,
    };
    let msg_hash = chip.scalar_field_chip().assign_integer(&Integer::from_value(
        m,
        cp.scalar.layout,
    ))?;
    chip.verify(&sig, &pk_assigned, &msg_hash)
}

fn run_scenario(cp: &CurveParams, sk: u64, k: u64, m: u64) {
    let n: u64 = cp.scalar.modulus;
    let g = CurvePoint::Affine { x: cp.gx, y: cp.gy };
    let public_key = scalar_mul(cp, sk, &g);
    let (r, s) = sign(cp, sk, k, m);
    assert_ne!(r, 0);
    assert_ne!(s, 0);

    // Sanity check: the plain verification equation holds off-circuit.
    let s_inv: u64 = inv_mod(s, n).unwrap();
    let u_1: u64 = mul_mod(m, s_inv, n);
    let u_2: u64 = mul_mod(r, s_inv, n);
    let g1 = scalar_mul(cp, u_1, &g);
    let g2 = scalar_mul(cp, u_2, &public_key);
    let q = ecdsa_chip::ecc::ec_add_points(cp, &g1, &g2).unwrap();
    let r_candidate: u64 = x_of(&q) % n;
    assert_eq!(r, r_candidate);

    // In-circuit verification succeeds on the genuine signature.
    assert_eq!(run_verify(cp, r, s, &public_key, m), Ok(()));

    // Substituting r + 1 makes the constraints unsatisfiable.
    let r_plus_one: u64 = (r + 1) % n;
    assert!(run_verify(cp, r_plus_one, s, &public_key, m).is_err());
}

#[test]
fn test_ecdsa_verifier() {
    run_scenario(&curve_a(), 12345, 54321, 6789);
    run_scenario(&curve_b(), 777, 2222, 31337);
    run_scenario(&curve_b(), 40000, 39999, 12);
}

#[test]
fn signing_then_verifying_succeeds_for_many_pairs() {
    let cp = curve_a();
    let g = CurvePoint::Affine { x: cp.gx, y: cp.gy };
    let pairs: [(u64, u64); 6] = [(1, 1), (2, 3), (17, 40000), (65170, 2), (31337, 31337), (999, 65000)];
    let m: u64 = 4242;
    for (sk, k) in pairs {
        let public_key = scalar_mul(&cp, sk, &g);
        let (r, s) = sign(&cp, sk, k, m);
        if r == 0 || s == 0 {
            continue;
        }
        assert_eq!(run_verify(&cp, r, s, &public_key, m), Ok(()));
    }
}

#[test]
fn concrete_signature_on_curve_a() {
    // sk = 12345, k = 54321, m = 6789 on curve A gives exactly this
    // signature and public key.
    let cp = curve_a();
    let g = CurvePoint::Affine { x: cp.gx, y: cp.gy };
    let public_key = scalar_mul(&cp, 12345, &g);
    assert_eq!(public_key, CurvePoint::Affine { x: 40576, y: 13515 });
    let (r, s) = sign(&cp, 12345, 54321, 6789);
    assert_eq!((r, s), (29418, 17998));
    assert_eq!(run_verify(&cp, r, s, &public_key, 6789), Ok(()));
}

#[test]
fn concrete_signature_on_curve_b() {
    let cp = curve_b();
    let g = CurvePoint::Affine { x: cp.gx, y: cp.gy };
    let public_key = scalar_mul(&cp, 777, &g);
    assert_eq!(public_key, CurvePoint::Affine { x: 14440, y: 15344 });
    let (r, s) = sign(&cp, 777, 2222, 31337);
    assert_eq!((r, s), (40351, 37337));
    assert_eq!(run_verify(&cp, r, s, &public_key, 31337), Ok(()));
}

#[test]
fn zero_r_always_fails() {
    let cp = curve_a();
    let g = CurvePoint::Affine { x: cp.gx, y: cp.gy };
    let public_key = scalar_mul(&cp, 12345, &g);
    let (_, s) = sign(&cp, 12345, 54321, 6789);
    assert_eq!(
        run_verify(&cp, 0, s, &public_key, 6789),
        Err(Error::ConstraintUnsatisfied)
    );
}

#[test]
fn zero_s_always_fails() {
    let cp = curve_a();
    let g = CurvePoint::Affine { x: cp.gx, y: cp.gy };
    let public_key = scalar_mul(&cp, 12345, &g);
    let (r, _) = sign(&cp, 12345, 54321, 6789);
    assert_eq!(
        run_verify(&cp, r, 0, &public_key, 6789),
        Err(Error::ConstraintUnsatisfied)
    );
    // Both zero, and zero against an unrelated key, fail too.
    assert_eq!(
        run_verify(&cp, 0, 0, &public_key, 6789),
        Err(Error::ConstraintUnsatisfied)
    );
    let other_key = scalar_mul(&cp, 5, &g);
    assert_eq!(
        run_verify(&cp, 0, 1, &other_key, 1),
        Err(Error::ConstraintUnsatisfied)
    );
}

#[test]
fn flipping_any_bit_makes_verification_fail() {
    let cp = curve_a();
    let g = CurvePoint::Affine { x: cp.gx, y: cp.gy };
    let public_key = scalar_mul(&cp, 12345, &g);
    let (px, py) = match public_key {
        CurvePoint::Affine { x, y } => (x, y),
        CurvePoint::Identity => panic!("unexpected identity key"),
    };
    let (r, s) = sign(&cp, 12345, 54321, 6789);
    let m: u64 = 6789;
    // Flip every bit of the 17-bit window that can hold these values.
    for bit in 0..17u32 {
        let flip: u64 = 1u64 << bit;
        assert!(run_verify(&cp, r ^ flip, s, &public_key, m).is_err());
        assert!(run_verify(&cp, r, s ^ flip, &public_key, m).is_err());
        assert!(run_verify(&cp, r, s, &public_key, m ^ flip).is_err());
        let bad_x = CurvePoint::Affine { x: px ^ flip, y: py };
        assert!(run_verify(&cp, r, s, &bad_x, m).is_err());
        let bad_y = CurvePoint::Affine { x: px, y: py ^ flip };
        assert!(run_verify(&cp, r, s, &bad_y, m).is_err());
    }
}

#[test]
fn mismatched_limb_layouts_are_a_construction_fault() {
    let mut cp = curve_a();
    cp.scalar = Rns {
        modulus: cp.scalar.modulus,
        layout: LimbLayout { number_of_limbs: 2, bit_len_limb: 16 },
    };
    let g = CurvePoint::Affine { x: cp.gx, y: cp.gy };
    let public_key = scalar_mul(&cp, 12345, &g);
    let (r, s) = sign(&cp, 12345, 54321, 6789);
    assert_eq!(
        run_verify(&cp, r, s, &public_key, 6789),
        Err(Error::LayoutMismatch)
    );
}

#[test]
fn config_composes_chip_configurations() {
    let cp = curve_a();
    let config = EcdsaConfig::new(cp);
    assert_eq!(config.ecc_chip_config().base.modulus, 65521);
    assert_eq!(config.integer_chip_config().modulus, 65171);
    let chip = EcdsaChip::new(EccChip::new(config.ecc_chip_config()));
    assert_eq!(chip.scalar_field_chip().rns().modulus, 65171);
}

use ecdsa_chip::ecc::{ConstantPoint, CurveParams, CurvePoint, EccChip, Point};
use ecdsa_chip::error::Error;
use ecdsa_chip::modular::{add_mod, inv_mod, mul_mod, sub_mod};
use ecdsa_chip::rns::{Integer, IntegerChip, LimbLayout, Rns};

fn layout() -> LimbLayout {
    LimbLayout { number_of_limbs: 4, bit_len_limb: 8 }
}

fn base_rns() -> Rns {
    Rns { modulus: 65521, layout: layout() }
}

fn scalar_rns() -> Rns {
    Rns { modulus: 65171, layout: layout() }
}

fn curve_a() -> CurveParams {
    CurveParams { base: base_rns(), scalar: scalar_rns(), a: 2, b: 13, gx: 1, gy: 4 }
}

fn assign(chip: &IntegerChip, v: u64, rns: Rns) -> ecdsa_chip::rns::AssignedInteger {
    chip.assign_integer(&Integer::from_value(v, rns.layout)).expect("value out of range")
}

#[test]
fn modular_arithmetic_exact_values() {
    assert_eq!(add_mod(65520, 3, 65521), 2);
    assert_eq!(sub_mod(3, 5, 65521), 65519);
    assert_eq!(mul_mod(12345, 6789, 65521), 8846);
    assert_eq!(inv_mod(17998, 65171), Some(42804));
    assert_eq!(mul_mod(17998, 42804, 65171), 1);
    assert_eq!(inv_mod(3, 10), Some(7));
    assert_eq!(inv_mod(2, 10), None);
    assert_eq!(inv_mod(0, 65171), None);
}

#[test]
fn limb_decomposition_is_little_endian() {
    let integer = Integer::from_value(0x0102_0304, layout());
    assert_eq!(integer.limbs().clone(), vec![0x04, 0x03, 0x02, 0x01]);
    let small = Integer::from_value(429, layout());
    assert_eq!(small.limbs().clone(), vec![173, 1, 0, 0]);
}

#[test]
fn assignment_range_checks_the_remainder() {
    let chip = IntegerChip::new(scalar_rns());
    assert!(chip.assign_integer(&Integer::from_value(65170, scalar_rns().layout)).is_ok());
    // The modulus itself is not a canonical residue.
    assert_eq!(
        chip.assign_integer(&Integer::from_value(65171, scalar_rns().layout)).unwrap_err(),
        Error::InvalidIntegerForm
    );
    // A limb above its nominal width is refused.
    assert_eq!(
        chip.assign_integer(&Integer::new(vec![256, 0, 0, 0])).unwrap_err(),
        Error::InvalidIntegerForm
    );
    // A short limb vector is refused.
    assert_eq!(
        chip.assign_integer(&Integer::new(vec![1, 2])).unwrap_err(),
        Error::InvalidIntegerForm
    );
}

#[test]
fn lazy_addition_tracks_overflow() {
    let chip = IntegerChip::new(scalar_rns());
    let a = assign(&chip, 65000, scalar_rns());
    let b = assign(&chip, 600, scalar_rns());
    assert_eq!(a.overflow, 0);
    let c = chip.add(&a, &b).unwrap();
    assert_eq!(c.overflow, 1);
    // The sum is carried unreduced: 65000 + 600 exceeds the modulus, and
    // reduction recovers the canonical residue 65600 mod 65171 = 429.
    let red = chip.reduce(&c);
    assert_eq!(red.overflow, 0);
    assert_eq!(red.limbs, vec![173, 1, 0, 0]);
}

#[test]
fn overflow_budget_is_a_fault_when_exceeded() {
    let chip = IntegerChip::new(scalar_rns());
    let a = assign(&chip, 65000, scalar_rns());
    let b = assign(&chip, 600, scalar_rns());
    let mut cur = chip.add(&a, &b).unwrap();
    // The layout is 32 bits wide, so overflows up to 61 - 32 = 29 fit.
    for _ in 0..28 {
        cur = chip.add(&cur, &cur).unwrap();
    }
    assert_eq!(cur.overflow, 29);
    assert_eq!(chip.add(&cur, &cur).unwrap_err(), Error::OverflowExceeded);
    // Reduction still recovers the residue of 65600 * 2^28.
    let red = chip.reduce(&cur);
    assert_eq!(red.limbs, Integer::from_value(24349, layout()).limbs().clone());
}

#[test]
fn inversion_flag_reports_invertibility() {
    let chip = IntegerChip::new(scalar_rns());
    let s = assign(&chip, 17998, scalar_rns());
    let (s_inv, ok) = chip.invert(&s);
    assert!(ok);
    assert_eq!(s_inv.limbs, Integer::from_value(42804, layout()).limbs().clone());
    let product = chip.mul(&s, &s_inv);
    assert_eq!(product.limbs, Integer::from_value(1, layout()).limbs().clone());

    // Over a composite modulus a shared factor defeats inversion; the
    // assigned result is then one.
    let composite = Rns { modulus: 100, layout: layout() };
    let comp_chip = IntegerChip::new(composite);
    let ten = assign(&comp_chip, 10, composite);
    let (fallback, ok) = comp_chip.invert(&ten);
    assert!(!ok);
    assert_eq!(fallback.limbs, Integer::from_value(1, layout()).limbs().clone());
}

#[test]
fn not_zero_and_strict_equal_constraints() {
    let chip = IntegerChip::new(scalar_rns());
    let zero = assign(&chip, 0, scalar_rns());
    let five = assign(&chip, 5, scalar_rns());
    let five_again = assign(&chip, 5, scalar_rns());
    assert_eq!(chip.assert_not_zero(&zero).unwrap_err(), Error::ConstraintUnsatisfied);
    assert!(chip.assert_not_zero(&five).is_ok());
    assert!(chip.assert_strict_equal(&five, &five_again).is_ok());
    assert_eq!(
        chip.assert_strict_equal(&five, &zero).unwrap_err(),
        Error::ConstraintUnsatisfied
    );
}

#[test]
fn cross_field_reduction_matches_plain_arithmetic() {
    let base_chip = IntegerChip::new(base_rns());
    let scalar_chip = IntegerChip::new(scalar_rns());
    // R mod n after R mod p, for values across [0, p).
    for r_value in [0u64, 1, 428, 29418, 65170, 65171, 65200, 65520] {
        let in_base = assign(&base_chip, r_value, base_rns());
        let reduced = scalar_chip.reduce_external(&base_rns(), &in_base).unwrap();
        let expected = r_value % 65171;
        assert_eq!(
            reduced.limbs,
            Integer::from_value(expected, layout()).limbs().clone(),
            "cross-field reduction of {r_value}"
        );
    }
    assert_eq!((65200u64) % 65171, 29);
    assert_eq!((65520u64) % 65171, 349);
}

#[test]
fn cross_field_reduction_requires_matching_layouts() {
    let wide = Rns {
        modulus: 65171,
        layout: LimbLayout { number_of_limbs: 2, bit_len_limb: 16 },
    };
    let base_chip = IntegerChip::new(base_rns());
    let scalar_chip = IntegerChip::new(wide);
    let in_base = assign(&base_chip, 12345, base_rns());
    assert_eq!(
        scalar_chip.reduce_external(&base_rns(), &in_base).unwrap_err(),
        Error::LayoutMismatch
    );
}

#[test]
fn constant_point_from_identity_fails() {
    let identity = CurvePoint::Identity;
    assert_eq!(
        ConstantPoint::new(base_rns(), &identity).unwrap_err(),
        Error::PointAtInfinity
    );
}

#[test]
fn constant_point_round_trips_its_value() {
    let generator = CurvePoint::Affine { x: 1, y: 4 };
    let constant = ConstantPoint::new(base_rns(), &generator).unwrap();
    assert_eq!(constant.value(base_rns()), generator);
    assert_eq!(constant.x().limbs().clone(), vec![1, 0, 0, 0]);
    assert_eq!(constant.y().limbs().clone(), vec![4, 0, 0, 0]);
    let other = CurvePoint::Affine { x: 40576, y: 13515 };
    let constant = ConstantPoint::new(base_rns(), &other).unwrap();
    assert_eq!(constant.value(base_rns()), other);
}

#[test]
fn point_composition_and_extraction() {
    let x = Integer::from_value(1, layout());
    let y = Integer::from_value(4, layout());
    let point = Point::new(&x, &y);
    assert_eq!(point.x().limbs().clone(), vec![1, 0, 0, 0]);
    assert_eq!(point.y().limbs().clone(), vec![4, 0, 0, 0]);
    assert_eq!(point.public(), vec![1, 0, 0, 0, 4, 0, 0, 0]);
    let cp = curve_a();
    assert_eq!(point.value(&cp).unwrap(), CurvePoint::Affine { x: 1, y: 4 });
    // A pair off the curve composes but does not extract.
    let bad = Point::new(&Integer::from_value(1, layout()), &Integer::from_value(5, layout()));
    assert_eq!(bad.value(&cp).unwrap_err(), Error::NotOnCurve);
}

#[test]
fn assign_point_enforces_the_curve() {
    let chip = EccChip::new(curve_a());
    assert_eq!(
        chip.assign_point(&CurvePoint::Identity).unwrap_err(),
        Error::PointAtInfinity
    );
    assert_eq!(
        chip.assign_point(&CurvePoint::Affine { x: 1, y: 5 }).unwrap_err(),
        Error::NotOnCurve
    );
    let assigned = chip.assign_point(&CurvePoint::Affine { x: 1, y: 4 }).unwrap();
    assert_eq!(assigned.get_x().limbs, vec![1, 0, 0, 0]);
    assert_eq!(assigned.get_y().limbs, vec![4, 0, 0, 0]);
}

#[test]
fn chip_point_operations_follow_the_group_law() {
    let cp = curve_a();
    let chip = EccChip::new(cp);
    let g = chip.assign_point(&CurvePoint::Affine { x: 1, y: 4 }).unwrap();
    // 2G + G == 3G, computed two ways through the chip.
    let two_g = chip.mul(&g, &assign(&chip.scalar_field_chip(), 2, cp.scalar)).unwrap();
    let three_g = chip.mul(&g, &assign(&chip.scalar_field_chip(), 3, cp.scalar)).unwrap();
    let sum = chip.add(&two_g, &g).unwrap();
    assert_eq!(sum.get_x().limbs, three_g.get_x().limbs);
    assert_eq!(sum.get_y().limbs, three_g.get_y().limbs);
    // G + (-G) is the identity, which the encoding cannot carry.
    let minus_g = chip.assign_point(&CurvePoint::Affine { x: 1, y: 65517 }).unwrap();
    assert_eq!(chip.add(&g, &minus_g).unwrap_err(), Error::PointAtInfinity);
}

#[test]
fn multiexp_folds_scalar_point_pairs() {
    let cp = curve_a();
    let g = CurvePoint::Affine { x: 1, y: 4 };
    // 2G + 3G = 5G.
    let points = vec![g, g];
    let scalars: Vec<u64> = vec![2, 3];
    let five_g = ecdsa_chip::ecc::multiexp_naive_var(&cp, &points, &scalars).unwrap();
    assert_eq!(five_g, CurvePoint::Affine { x: 62037, y: 38473 });
    // 1G + 1(-G) folds to the identity.
    let minus_g = CurvePoint::Affine { x: 1, y: 65517 };
    let points = vec![g, minus_g];
    let scalars: Vec<u64> = vec![1, 1];
    let sum = ecdsa_chip::ecc::multiexp_naive_var(&cp, &points, &scalars).unwrap();
    assert_eq!(sum, CurvePoint::Identity);
}

use kiss_ecc::weierstrass_ecc::WeierstrassECC;
use kiss_ecc::ecc::CurveError;
use kiss_ecc::point::Point;

#[test]
fn weierstrass_test_test_is_valid() {
    let ecc = WeierstrassECC::new(2, 3, 17);
    // A point that is not on the curve.
    let invalid = Point { x: 5, y: 1, z: 0 };
    assert_eq!(ecc.is_valid(&invalid), false);
    // A known valid point on y² = x³ + 2x + 3 mod 17.
    let valid = Point { x: 5, y: 6, z: 0 };
    assert_eq!(ecc.is_valid(&valid), true);
    // The "zero" point (identity) is defined as (0, 0, 0) in this implementation.
    let identity = Point { x: 0, y: 0, z: 0 };
    assert_eq!(ecc.is_valid(&identity), true);
}

#[test]
fn weierstrass_test_test_add() {
    let ecc = WeierstrassECC::new(2, 3, 17);
    let identity = Point { x: 0, y: 0, z: 0 };
    let p = Point { x: 5, y: 6, z: 0 };
    // Adding the identity should return the same point.
    let sum = ecc.add(&p, &identity).unwrap();
    assert_eq!(sum, p);
}

#[test]
fn weierstrass_test_test_mul() {
    let ecc = WeierstrassECC::new(2, 3, 17);
    let identity = Point { x: 0, y: 0, z: 0 };
    let p = Point { x: 5, y: 6, z: 1 };
    let p2 = Point { x: 15, y: 12, z: 1 };

    // Multiplying by 0 should yield the identity.
    let r0 = ecc.mul(0, &p).unwrap();
    assert_eq!(r0, identity);

    // Multiplying by 1 should yield the same point.
    let r1 = ecc.mul(1, &p).unwrap();
    assert_eq!(r1, p);

    let r2 = ecc.mul(2, &p).unwrap();

    assert_eq!(r2.eq_affine(&p2, ecc.q).unwrap(), true);
}

#[test]
fn weierstrass_double_matches_mul_two() {
    let ecc = WeierstrassECC::new(2, 3, 17);
    let p = Point { x: 5, y: 6, z: 1 };
    let d = ecc.double(&p).unwrap();
    assert_eq!(d, Point { x: 15, y: 12, z: 1 });
    assert!(ecc.is_valid(&d));
    let m = ecc.mul(2, &p).unwrap();
    assert_eq!(m.x, d.x);
    assert_eq!(m.y, d.y);
}

#[test]
fn weierstrass_add_rejects_points_off_curve() {
    let ecc = WeierstrassECC::new(2, 3, 17);
    let p = Point { x: 5, y: 6, z: 1 };
    let bad = Point { x: 5, y: 1, z: 1 };
    assert_eq!(ecc.add(&p, &bad), Err(CurveError::InvalidPoint));
}

#[test]
fn weierstrass_negation_sums_to_identity() {
    let ecc = WeierstrassECC::new(2, 3, 17);
    let identity = Point { x: 0, y: 0, z: 0 };
    let p = Point { x: 5, y: 6, z: 1 };
    let neg = Point { x: 5, y: 11, z: 1 };
    assert_eq!(ecc.add(&p, &neg).unwrap(), identity);
}

#[test]
fn weierstrass_at_recovers_valid_points() {
    // y² = x³ + 2x + 3 at x = 5 has right-hand side 2, a quadratic
    // residue mod 17 with even root 6.
    let ecc = WeierstrassECC::new(2, 3, 17);
    let (p1, p2) = ecc.at(5).unwrap();
    assert_eq!(p1, Point { x: 5, y: 6, z: 1 });
    assert_eq!(p2, Point { x: 5, y: 11, z: 1 });
    assert!(ecc.is_valid(&p1));
    assert!(ecc.is_valid(&p2));
}

#[test]
fn weierstrass_at_rejects_non_residue() {
    // At x = 0 the right-hand side is 3, a quadratic non-residue mod 17.
    let ecc = WeierstrassECC::new(2, 3, 17);
    assert_eq!(ecc.at(0), Err(CurveError::NoSquareRoot));
    // An unreduced coordinate is rejected outright.
    assert_eq!(ecc.at(20), Err(CurveError::InvalidPoint));
}

#[test]
fn weierstrass_order_annihilates_generator() {
    let ecc = WeierstrassECC::new(2, 3, 17);
    let identity = Point { x: 0, y: 0, z: 0 };
    // (15, 12) = 2 * (5, 6) generates the subgroup of order 11.
    let g = Point { x: 15, y: 12, z: 1 };
    let n = ecc.order(&g).unwrap();
    assert_eq!(n, 11);
    assert_eq!(ecc.mul(n, &g).unwrap(), identity);
    // One step short of the order is not yet the identity.
    assert_ne!(ecc.mul(n - 1, &g).unwrap(), identity);
}

#[test]
fn weierstrass_order_bound_exceeded() {
    // (5, 6) has order 22, past the modulus 17, so the brute-force
    // search gives up at its safety bound.
    let ecc = WeierstrassECC::new(2, 3, 17);
    let g = Point { x: 5, y: 6, z: 1 };
    assert_eq!(ecc.order(&g), Err(CurveError::OrderNotFound));
}

#[test]
fn weierstrass_group_law_stays_on_curve() {
    let ecc = WeierstrassECC::new(2, 3, 17);
    let p = Point { x: 5, y: 6, z: 1 };
    let d = ecc.double(&p).unwrap();
    assert!(ecc.is_valid(&d));
    let s = ecc.add(&p, &d).unwrap();
    assert!(ecc.is_valid(&s));
    let m = ecc.mul(7, &p).unwrap();
    assert!(ecc.is_valid(&m));
}

#[test]
fn weierstrass_order_rejects_identity() {
    let ecc = WeierstrassECC::new(2, 3, 17);
    let identity = Point { x: 0, y: 0, z: 0 };
    assert_eq!(ecc.order(&identity), Err(CurveError::InvalidPoint));
}

use kiss_ecc::montgomery_curve::MontgomeryCurve;
use kiss_ecc::ecc::CurveError;
use kiss_ecc::point::Point;

#[test]
fn montgomery_test_test_is_valid() {
    // Example parameters (A, B, q, order) for demonstration.
    let ecc = MontgomeryCurve::new(2, 3, 17, 19);
    let identity = Point { x: 0, y: 1, z: 0 };
    assert_eq!(ecc.is_valid(&identity), true);
}

#[test]
fn montgomery_test_test_add() {
    let ecc = MontgomeryCurve::new(2, 3, 17, 19);
    let identity = Point { x: 0, y: 1, z: 0 };
    // Choose a sample point (the following values are for illustration).
    let p = Point { x: 5, y: 8, z: 1 };
    let sum = ecc.add(&identity, &p).unwrap();
    assert_eq!(sum, p);
}

#[test]
fn montgomery_test_test_mul() {
    let ecc = MontgomeryCurve::new(2, 3, 17, 19);
    let identity = Point { x: 0, y: 1, z: 0 };
    let p = Point { x: 5, y: 8, z: 1 };

    let r0 = ecc.mul(0, &p).unwrap();
    assert_eq!(r0, identity);
}

#[test]
fn montgomery_at_never_recovers() {
    let ecc = MontgomeryCurve::new(2, 3, 17, 19);
    assert_eq!(ecc.at(5), Err(CurveError::NoSquareRoot));
}

#[test]
fn montgomery_negation_sums_to_identity() {
    let ecc = MontgomeryCurve::new(2, 3, 17, 19);
    let identity = Point { x: 0, y: 1, z: 0 };
    let p = Point { x: 5, y: 8, z: 1 };
    let neg = Point { x: 5, y: 9, z: 1 };
    assert_eq!(ecc.add(&p, &neg).unwrap(), identity);
}

#[test]
fn montgomery_group_law_stays_on_curve() {
    // (3, 4) lies on 3*y^2 = x^3 + 2*x^2 + x (mod 17); doubling gives
    // (6, 8) and addition with another curve point stays on the curve.
    let ecc = MontgomeryCurve::new(2, 3, 17, 19);
    let p = Point { x: 3, y: 4, z: 1 };
    assert!(ecc.is_valid(&p));
    let d = ecc.double(&p).unwrap();
    assert_eq!(d, Point { x: 6, y: 8, z: 1 });
    assert!(ecc.is_valid(&d));
    let s = ecc.add(&p, &d).unwrap();
    assert!(ecc.is_valid(&s));
    let m = ecc.mul(5, &p).unwrap();
    assert!(ecc.is_valid(&m));
}

#[test]
fn montgomery_doubling_two_torsion_fails() {
    // (0, 0) lies on every Montgomery curve and has a vertical
    // tangent, so doubling it is the group law's one genuine failure
    // on curve points: the slope denominator 2*B*y is zero.
    let ecc = MontgomeryCurve::new(2, 3, 17, 19);
    let p = Point { x: 0, y: 0, z: 1 };
    assert!(ecc.is_valid(&p));
    assert_eq!(ecc.double(&p), Err(CurveError::NoInverse));
}

#[test]
fn montgomery_equation_check() {
    // On 3*y^2 = x^3 + 2*x^2 + x (mod 17): x = 1 gives rhs = 4 and
    // 3*y^2 = 4 asks y^2 = 7 (inverse of 3 is 6, 4*6 = 7), and 7 is not
    // a square mod 17, so no point with x = 1 and these y values lies
    // on the curve; x = 2 gives rhs = 18 = 1, y^2 = 6, also no square.
    // The identity is the one valid point among these probes.
    let ecc = MontgomeryCurve::new(2, 3, 17, 19);
    assert!(!ecc.is_valid(&Point { x: 1, y: 2, z: 1 }));
    assert!(!ecc.is_valid(&Point { x: 2, y: 3, z: 1 }));
}

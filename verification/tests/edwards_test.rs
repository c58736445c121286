use kiss_ecc::edwards_curve::EdwardsCurve;
use kiss_ecc::point::Point;

#[test]
fn edwards_test_test_is_valid() {
    let ecc = EdwardsCurve::new(2, 3, 17);
    let invalid = Point { x: 5, y: 1, z: 0 };
    assert_eq!(ecc.is_valid(&invalid), false);
    let valid = Point { x: 1, y: 3, z: 0 };
    assert_eq!(ecc.is_valid(&valid), true);
}

#[test]
fn edwards_test_test_add() {
    let ecc = EdwardsCurve::new(2, 3, 17);
    // The identity for Edwards is (0, 1, 0)
    let identity = Point { x: 0, y: 1, z: 0 };
    let p = Point { x: 1, y: 3, z: 0 };
    let sum = ecc.add(&identity, &p).unwrap();
    assert_eq!(sum, p);
}

#[test]
fn edwards_test_test_mul() {
    let ecc = EdwardsCurve::new(2, 3, 17);
    let identity = Point { x: 0, y: 1, z: 0 };
    let p = Point { x: 1, y: 3, z: 0 };

    let r0 = ecc.mul(0, &p).unwrap();
    assert_eq!(r0, identity);

    let r1 = ecc.mul(1, &p).unwrap();
    assert_eq!(r1, p);
}

#[test]
fn edwards_identity_on_right() {
    let ecc = EdwardsCurve::new(2, 3, 17);
    let identity = Point { x: 0, y: 1, z: 0 };
    let p = Point { x: 1, y: 3, z: 0 };
    assert_eq!(ecc.add(&p, &identity).unwrap(), p);
    assert_eq!(ecc.add(&identity, &identity).unwrap(), identity);
}

#[test]
fn edwards_mul_two_is_double() {
    let ecc = EdwardsCurve::new(2, 3, 17);
    let p = Point { x: 1, y: 3, z: 0 };
    let d = ecc.double(&p).unwrap();
    let m = ecc.mul(2, &p).unwrap();
    assert_eq!(m, d);
    assert!(ecc.is_valid(&d));
}

#[test]
fn edwards_add_outputs_stay_valid() {
    let ecc = EdwardsCurve::new(2, 3, 17);
    let p = Point { x: 1, y: 3, z: 0 };
    let s = ecc.add(&p, &p).unwrap();
    assert!(ecc.is_valid(&s));
    let t = ecc.mul(5, &p).unwrap();
    assert!(ecc.is_valid(&t));
}

#[test]
fn edwards_xrecover_computes_candidate() {
    // Recovery lives on moduli q = 5 (mod 8); on a = 2, d = 3, q = 13
    // and y = 3 the quotient is (9 - 1) / (3*9 + 1) = 8 * 2^(-1) = 4
    // (mod 13); the candidate root 4^2 = 3 squares to 9, not 4, so it
    // is corrected by i = 2^3 = 8 to 3 * 8 = 11, whose even mirror is
    // 2 — a genuine root, since 2^2 = 4.
    let ecc = EdwardsCurve::new(2, 3, 13);
    assert_eq!(ecc.i, 8);
    assert_eq!(ecc.xrecover(3), Ok(2));
    assert_eq!((2 * 2) % 13, 4);
}

#[test]
fn edwards_at_returns_both_signs() {
    let ecc = EdwardsCurve::new(2, 3, 13);
    let (p1, p2) = ecc.at(3).unwrap();
    assert_eq!(p1, Point { x: 2, y: 3, z: 0 });
    assert_eq!(p2, Point { x: 11, y: 3, z: 0 });
}

#[test]
fn edwards_order_of_identity_is_one() {
    let ecc = EdwardsCurve::new(2, 3, 17);
    let identity = Point { x: 0, y: 1, z: 0 };
    assert_eq!(ecc.order(&identity), Ok(1));
}

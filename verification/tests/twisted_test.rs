use kiss_ecc::twisted_curve::TwistedCurve;
use kiss_ecc::point::Point;

#[test]
fn twisted_test_test_is_valid() {
    // Example parameters: a, b, q, order.
    let ecc = TwistedCurve::new(2, 3, 17, 19);
    let invalid = Point { x: 5, y: 1, z: 0 };
    assert_eq!(ecc.is_valid(&invalid), false);
    let valid = Point { x: 1, y: 3, z: 0 };
    assert_eq!(ecc.is_valid(&valid), true);
}

#[test]
fn twisted_test_test_add() {
    let ecc = TwistedCurve::new(2, 3, 17, 19);
    let identity = ecc.zero.clone();
    let p = Point { x: 1, y: 3, z: 0 };
    let sum = ecc.add(&identity, &p).unwrap();
    assert_eq!(sum, p);
}

#[test]
fn twisted_test_test_mul() {
    let ecc = TwistedCurve::new(2, 3, 17, 19);
    let identity = ecc.zero.clone();
    let p = Point { x: 1, y: 3, z: 0 };

    let r0 = ecc.mul(0, &p).unwrap();
    assert_eq!(r0, identity);

    let r1 = ecc.mul(1, &p).unwrap();
    assert_eq!(r1, p);
}

#[test]
fn twisted_mul_two_is_double() {
    let ecc = TwistedCurve::new(2, 3, 17, 19);
    let p = Point { x: 1, y: 3, z: 0 };
    let d = ecc.double(&p).unwrap();
    let m = ecc.mul(2, &p).unwrap();
    assert_eq!(m, d);
}

#[test]
fn twisted_edwards_add_formula() {
    // On a = 2, b = 3, q = 17 with p = (1, 3): the twisting factor is
    // 3*1*1*3*3 = 10, so x3 = (3 + 3) / 11 and y3 = (9 - 2) / 8.
    // The inverses are 14 (11*14 = 154 = 1 mod 17) and 15 (8*15 = 120 =
    // 1 mod 17), giving x3 = 6*14 = 16 and y3 = 7*15 = 3 (mod 17).
    let ecc = TwistedCurve::new(2, 3, 17, 19);
    let p = Point { x: 1, y: 3, z: 0 };
    let d = ecc.edwards_add(&p, &p).unwrap();
    assert_eq!(d, Point { x: 16, y: 3, z: 0 });
}

#[test]
fn twisted_identity_on_right() {
    let ecc = TwistedCurve::new(2, 3, 17, 19);
    let p = Point { x: 1, y: 3, z: 0 };
    assert_eq!(ecc.add(&p, &ecc.zero.clone()).unwrap(), p);
}

#[test]
fn twisted_xrecover_matches_edwards_arithmetic() {
    // The recovery arithmetic only depends on b, q and the stored
    // constant, so on a recovery-capable modulus (q = 13 = 5 mod 8) it
    // agrees with the plain Edwards curve of the same second
    // coefficient.
    let ecc = TwistedCurve::new(2, 3, 13, 19);
    assert_eq!(ecc.I, 8);
    assert_eq!(ecc.xrecover(3), Ok(2));
}

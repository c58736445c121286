use kiss_ecc::dsa::DSA;
use kiss_ecc::ecc::{CurveError, EllipticCurve};
use kiss_ecc::edwards_curve::EdwardsCurve;
use kiss_ecc::montgomery_curve::MontgomeryCurve;
use kiss_ecc::point::Point;
use kiss_ecc::twisted_curve::TwistedCurve;
use kiss_ecc::weierstrass_ecc::WeierstrassECC;

#[test]
fn point_eq_affine_scales_by_z() {
    // (13, 7, 2) normalizes to (15, 12) mod 17, the same as (15, 12, 1).
    let a = Point { x: 15, y: 12, z: 1 };
    let b = Point { x: 13, y: 7, z: 2 };
    assert_eq!(a.eq_affine(&b, 17).unwrap(), true);
    let c = Point { x: 14, y: 7, z: 2 };
    assert_eq!(a.eq_affine(&c, 17).unwrap(), false);
}

#[test]
fn point_eq_affine_identity_is_structural() {
    let id = Point { x: 0, y: 0, z: 0 };
    let p = Point { x: 0, y: 0, z: 1 };
    assert_eq!(id.eq_affine(&id, 17).unwrap(), true);
    assert_eq!(id.eq_affine(&p, 17).unwrap(), false);
}

#[test]
fn point_eq_affine_propagates_no_inverse() {
    // A z sharing a factor with the modulus cannot be normalized.
    let a = Point { x: 3, y: 1, z: 2 };
    let b = Point { x: 3, y: 1, z: 1 };
    assert_eq!(a.eq_affine(&b, 4), Err(CurveError::NoInverse));
}

#[test]
fn capability_dispatches_every_variant() {
    let curves = [
        EllipticCurve::Weierstrass(WeierstrassECC::new(2, 3, 17)),
        EllipticCurve::Edwards(EdwardsCurve::new(2, 3, 17)),
        EllipticCurve::TwistedEdwards(TwistedCurve::new(2, 3, 17, 19)),
        EllipticCurve::Montgomery(MontgomeryCurve::new(2, 3, 17, 19)),
    ];
    for ec in curves.iter() {
        let identity = match ec {
            EllipticCurve::Weierstrass(_) => Point { x: 0, y: 0, z: 0 },
            _ => Point { x: 0, y: 1, z: 0 },
        };
        assert_eq!(ec.q(), 17);
        // the identity is valid, is fixed by addition with itself, and
        // is what multiplying by zero returns
        assert!(ec.is_valid(&identity));
        assert_eq!(ec.add(&identity, &identity).unwrap(), identity);
        assert_eq!(ec.mul(0, &identity).unwrap(), identity);
        assert!(!ec.display().is_empty());
    }
}

#[test]
fn capability_identity_law_on_curve_points() {
    // One valid non-identity point per model that supports one here.
    let w = EllipticCurve::Weierstrass(WeierstrassECC::new(2, 3, 17));
    let pw = Point { x: 5, y: 6, z: 1 };
    assert_eq!(w.add(&w.mul(0, &pw).unwrap(), &pw).unwrap(), pw);

    let e = EllipticCurve::Edwards(EdwardsCurve::new(2, 3, 17));
    let pe = Point { x: 1, y: 3, z: 0 };
    let id_e = Point { x: 0, y: 1, z: 0 };
    assert_eq!(e.add(&id_e, &pe).unwrap(), pe);
    assert_eq!(e.add(&pe, &id_e).unwrap(), pe);
}

#[test]
fn capability_at_dispatch() {
    let w = EllipticCurve::Weierstrass(WeierstrassECC::new(2, 3, 17));
    let (p1, _p2) = w.at(5).unwrap();
    assert!(w.is_valid(&p1));
    let m = EllipticCurve::Montgomery(MontgomeryCurve::new(2, 3, 17, 19));
    assert_eq!(m.at(5), Err(CurveError::NoSquareRoot));
}

#[test]
fn dsa_new_computes_group_order() {
    let ec = EllipticCurve::Weierstrass(WeierstrassECC::new(2, 3, 17));
    let g = Point { x: 15, y: 12, z: 1 };
    let dsa = DSA::new(g.clone(), ec).unwrap();
    assert_eq!(dsa.g, g);
    assert_eq!(dsa.n, 11);
    // n annihilates the generator
    let back = dsa.ec.mul(dsa.n, &dsa.g).unwrap();
    assert_eq!(back, Point { x: 0, y: 0, z: 0 });
}

#[test]
fn dsa_new_rejects_invalid_generator() {
    let ec = EllipticCurve::Weierstrass(WeierstrassECC::new(2, 3, 17));
    let bad = Point { x: 5, y: 1, z: 1 };
    assert_eq!(DSA::new(bad, ec).err(), Some(CurveError::InvalidPoint));
}

#[test]
fn dsa_gen_key_derives_valid_pair() {
    let ec = EllipticCurve::Weierstrass(WeierstrassECC::new(2, 3, 17));
    let g = Point { x: 15, y: 12, z: 1 };
    let dsa = DSA::new(g, ec).unwrap();
    let (private, public) = dsa.gen_key().unwrap();
    assert!(1 <= private && private < dsa.n);
    assert_eq!(dsa.ec.mul(private, &dsa.g).unwrap(), public);
    assert!(dsa.ec.is_valid(&public));
}

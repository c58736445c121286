use kiss_ecc::utils::Utils;
use kiss_ecc::ecc::CurveError;

#[test]
fn modpow_exact_values() {
    assert_eq!(Utils::modpow(3, 4, 17), 13);
    assert_eq!(Utils::modpow(2, 4, 17), 16);
    assert_eq!(Utils::modpow(5, 0, 17), 1);
    assert_eq!(Utils::modpow(0, 3, 17), 0);
}

#[test]
fn mod_inv_composes_to_one() {
    // (a * mod_inv(a, q)) mod q == 1 for a coprime to the prime q.
    let q: u64 = 17;
    let mut a: u64 = 1;
    while a < q {
        let v = Utils::mod_inv(a, q).unwrap();
        assert_eq!((a * v) % q, 1);
        a += 1;
    }
}

#[test]
fn mod_inv_fails_on_shared_factor() {
    assert_eq!(Utils::mod_inv(3, 9), Err(CurveError::NoInverse));
    assert_eq!(Utils::mod_inv(0, 17), Err(CurveError::NoInverse));
    assert_eq!(Utils::mod_inv(6, 8), Err(CurveError::NoInverse));
}

#[test]
fn mod_inv_on_composite_modulus() {
    // Inverses still exist modulo a composite for coprime arguments.
    let v = Utils::mod_inv(5, 12).unwrap();
    assert_eq!((5 * v) % 12, 1);
}

#[test]
fn tonelli_shanks_roots_square_back() {
    // Every nonzero quadratic residue mod 17 yields a genuine root.
    let p: u64 = 17;
    let residues: [u64; 8] = [1, 2, 4, 8, 9, 13, 15, 16];
    for &a in residues.iter() {
        let x = Utils::tonelli_shanks(a, p).unwrap();
        assert_eq!((x * x) % p, a);
    }
}

#[test]
fn tonelli_shanks_rejects_non_residues() {
    let p: u64 = 17;
    let non_residues: [u64; 8] = [3, 5, 6, 7, 10, 11, 12, 14];
    for &a in non_residues.iter() {
        assert_eq!(Utils::tonelli_shanks(a, p), Err(CurveError::NoSquareRoot));
    }
}

#[test]
fn tonelli_shanks_zero_root() {
    assert_eq!(Utils::tonelli_shanks(0, 17), Ok(0));
}

#[test]
fn tonelli_shanks_larger_prime() {
    // 9973 is prime; 2026^2 mod 9973 is a residue whose root squares back.
    let p: u64 = 9973;
    let a = (2026 * 2026) % p;
    let x = Utils::tonelli_shanks(a, p).unwrap();
    assert_eq!((x * x) % p, a);
}

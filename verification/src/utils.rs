//! The modular-arithmetic toolkit: modular exponentiation, modular
//! inverse by the extended Euclidean algorithm, and modular square roots
//! by Tonelli-Shanks. Pure functions of their inputs; everything above in
//! the curve layer rests on these.

use vstd::prelude::*;
use vstd::arithmetic::power::{
    pow, lemma_pow_adds, lemma_pow_mod_noop, lemma_pow1, lemma_pow_multiplies,
};
use vstd::arithmetic::div_mod::{
    lemma_small_mod, lemma_mul_mod_noop_general, lemma_fundamental_div_mod,
    lemma_sub_mod_noop, lemma_mul_mod_noop_right, lemma_mod_multiples_basic,
};
use vstd::arithmetic::power2::{pow2, lemma_pow2_unfold, lemma2_to64};
use vstd::arithmetic::mul::{
    lemma_mul_is_distributive_add, lemma_mul_is_distributive_add_other_way,
    lemma_mul_is_distributive_sub, lemma_mul_is_distributive_sub_other_way,
    lemma_mul_is_associative, lemma_mul_is_commutative,
};
use vstd::math::abs;
use crate::ecc::CurveError;

verus! {

/// The greatest common divisor, by Euclid's recursion.
pub open spec fn gcd(a: nat, b: nat) -> nat
    decreases b,
{
    if b == 0 {
        a
    } else {
        gcd(b, a % b)
    }
}

/// `v` is the canonical modular inverse of `a` modulo `q`.
pub open spec fn has_inv(a: int, q: int, v: int) -> bool {
    0 <= v < q && (a * v) % q == 1int % q
}

/// The canonical modular inverse of `a` modulo `q`; meaningful only
/// when such an inverse exists, and then unique by `lemma_inv_unique`.
pub open spec fn inv_mod(a: int, q: int) -> int {
    choose|v: int| has_inv(a, q, v)
}

/// `a` and `q` have no common factor, so `a` is invertible modulo `q`.
pub open spec fn coprime(q: nat, a: nat) -> bool {
    gcd(q, a) == 1
}

/// A modular inverse, when it exists, is unique in `[0, q)`.
pub proof fn lemma_inv_unique(a: int, q: int, v1: int, v2: int)
    requires
        q >= 1,
        has_inv(a, q, v1),
        has_inv(a, q, v2),
    ensures
        v1 == v2,
{
    if q == 1 {
        // both inverses lie in [0, 1)
    } else {
        lemma_small_mod(1nat, q as nat);
        lemma_mul_mod_noop_right(v1, a * v2, q);
        assert(v1 * 1 == v1) by (nonlinear_arith);
        lemma_small_mod(v1 as nat, q as nat);
        assert(v1 == (v1 * (a * v2)) % q);
        assert(v1 * (a * v2) == (a * v1) * v2) by (nonlinear_arith);
        vstd::arithmetic::div_mod::lemma_mul_mod_noop_left(a * v1, v2, q);
        assert(1int * v2 == v2) by (nonlinear_arith);
        lemma_small_mod(v2 as nat, q as nat);
    }
}

/// `d` divides `n`.
pub open spec fn divides(d: nat, n: nat) -> bool {
    exists|k: nat| n == #[trigger] (k * d)
}

/// A prime: at least 2, with no divisor strictly between 1 and itself.
pub open spec fn is_prime(n: nat) -> bool {
    n >= 2 && forall|d: nat| 2 <= d < n ==> #[trigger] (n % d) != 0
}

/// The greatest common divisor divides both of its arguments.
pub proof fn lemma_gcd_divides(a: nat, b: nat)
    ensures
        divides(gcd(a, b), a),
        divides(gcd(a, b), b),
    decreases b,
{
    if b == 0 {
        assert(a == 1 * gcd(a, 0));
        assert(0nat == 0 * gcd(a, 0));
    } else {
        lemma_gcd_divides(b, a % b);
        let g = gcd(b, a % b);
        let k1 = choose|k: nat| b == #[trigger] (k * g);
        let k2 = choose|k: nat| (a % b) == #[trigger] (k * g);
        lemma_fundamental_div_mod(a as int, b as int);
        assert(a == (k1 * (a / b) + k2) * g) by (nonlinear_arith)
            requires
                a == b * (a / b) + a % b,
                b == k1 * g,
                a % b == k2 * g;
    }
}

/// A divisor of a positive number is positive and no larger.
pub proof fn lemma_divides_bounds(d: nat, n: nat)
    requires
        divides(d, n),
        n >= 1,
    ensures
        1 <= d <= n,
{
    let k = choose|k: nat| n == #[trigger] (k * d);
    assert(1 <= d <= n) by (nonlinear_arith)
        requires n == k * d, n >= 1;
}

/// A prime is coprime to every smaller positive number.
pub proof fn lemma_prime_coprime(q: nat, a: nat)
    requires
        is_prime(q),
        1 <= a < q,
    ensures
        coprime(q, a),
{
    let g = gcd(q, a);
    lemma_gcd_divides(q, a);
    lemma_divides_bounds(g, a);
    if g >= 2 {
        let k = choose|k: nat| q == #[trigger] (k * g);
        lemma_mod_multiples_basic(k as int, g as int);
        assert(q % g == 0);
    }
}

/// A prime above 2 is odd.
pub proof fn lemma_prime_odd(q: nat)
    requires
        is_prime(q),
        q > 2,
    ensures
        q % 2 == 1,
{
    if q % 2 != 1 {
        assert(q % 2 == 0);
        assert(q % 2 != 0);
    }
}

/// Bezout's identity: some integer combination of `a` and `b` equals
/// their greatest common divisor.
pub proof fn lemma_bezout(a: nat, b: nat)
    ensures
        exists|s: int, t: int| #[trigger] (s * a) + #[trigger] (t * b) == gcd(a, b),
    decreases b,
{
    if b == 0 {
        assert(1int * a + 0int * b == gcd(a, b)) by (nonlinear_arith)
            requires gcd(a, b) == a;
    } else {
        lemma_bezout(b, a % b);
        let (s, t): (int, int) = choose|s: int, t: int|
            #[trigger] (s * b) + #[trigger] (t * ((a % b) as int)) == gcd(b, a % b);
        lemma_fundamental_div_mod(a as int, b as int);
        let u: int = t;
        let w: int = s - t * ((a / b) as int);
        assert(u * a + w * b == gcd(a, b)) by (nonlinear_arith)
            requires
                s * b + t * ((a % b) as int) == gcd(a, b),
                (a % b) as int == a - b * ((a / b) as int),
                u == t,
                w == s - t * ((a / b) as int);
    }
}

/// A residue coprime to the modulus has a modular inverse, and
/// `inv_mod` names it.
pub proof fn lemma_coprime_invertible(a: int, q: int)
    requires
        q >= 1,
        0 <= a < q,
        coprime(q as nat, a as nat),
    ensures
        has_inv(a, q, inv_mod(a, q)),
{
    lemma_bezout(q as nat, a as nat);
    let (s, t): (int, int) = choose|s: int, t: int|
        #[trigger] (s * q) + #[trigger] (t * a) == gcd(q as nat, a as nat);
    let v: int = t % q;
    vstd::arithmetic::div_mod::lemma_mod_bound(t, q);
    assert((a * t) % q == 1int % q) by {
        assert(a * t == 1 + (-s) * q) by (nonlinear_arith)
            requires s * q + t * a == 1;
        lemma_mod_shift(1, -s, q);
    };
    lemma_mul_mod_noop_right(a, t, q);
    assert(has_inv(a, q, v));
    assert(has_inv(a, q, inv_mod(a, q)));
}

/// One is coprime to every modulus.
pub proof fn lemma_one_coprime(q: nat)
    requires
        q >= 1,
    ensures
        coprime(q, 1),
{
    assert(gcd(q, 1) == gcd(1, q % 1));
    assert(gcd(1, 0) == 1);
}

/// One is its own canonical inverse modulo any `q` above 1.
pub proof fn lemma_inv_mod_one(q: int)
    requires
        q >= 2,
    ensures
        inv_mod(1, q) == 1,
{
    assert(has_inv(1, q, 1)) by {
        assert(1int * 1int == 1int);
    };
    assert(has_inv(1, q, inv_mod(1, q)));
    lemma_inv_unique(1, q, inv_mod(1, q), 1);
}

/// Multiplying congruent factors gives congruent products modulo `m`.
pub proof fn lemma_mul_mod_cong(a1: int, a2: int, b1: int, b2: int, m: int)
    requires
        m > 0,
        a1 % m == a2 % m,
        b1 % m == b2 % m,
    ensures
        (a1 * b1) % m == (a2 * b2) % m,
{
    lemma_mul_mod_noop_general(a1, b1, m);
    lemma_mul_mod_noop_general(a2, b2, m);
}

/// Adding congruent terms gives congruent sums modulo `m`.
pub proof fn lemma_add_mod_cong(a1: int, a2: int, b1: int, b2: int, m: int)
    requires
        m > 0,
        a1 % m == a2 % m,
        b1 % m == b2 % m,
    ensures
        (a1 + b1) % m == (a2 + b2) % m,
{
    vstd::arithmetic::div_mod::lemma_add_mod_noop(a1, b1, m);
    vstd::arithmetic::div_mod::lemma_add_mod_noop(a2, b2, m);
}

/// Subtracting congruent terms gives congruent differences modulo `m`.
pub proof fn lemma_sub_mod_cong(a1: int, a2: int, b1: int, b2: int, m: int)
    requires
        m > 0,
        a1 % m == a2 % m,
        b1 % m == b2 % m,
    ensures
        (a1 - b1) % m == (a2 - b2) % m,
{
    lemma_sub_mod_noop(a1, b1, m);
    lemma_sub_mod_noop(a2, b2, m);
}

/// The product of two reduced field elements fits in a `u64`.
pub proof fn lemma_mul_fits_u64(x: int, y: int)
    requires
        0 <= x < 0x1_0000_0000,
        0 <= y < 0x1_0000_0000,
    ensures
        0 <= x * y < 0x1_0000_0000_0000_0000,
{
    assert(0 <= x * y < 0x1_0000_0000_0000_0000) by (nonlinear_arith)
        requires 0 <= x < 0x1_0000_0000, 0 <= y < 0x1_0000_0000;
}

/// Shifting a term by a multiple of `m` does not change its residue.
pub proof fn lemma_mod_shift(v: int, k: int, m: int)
    requires
        m > 0,
    ensures
        (v + k * m) % m == v % m,
{
    vstd::arithmetic::div_mod::lemma_mod_multiples_vanish(k, v, m);
    assert(m * k == k * m) by (nonlinear_arith);
}

/// Expanding the cubic minus the squared line of slope `l` and
/// intercept `c` against the factored form with roots `x1`, `x2`,
/// `x3`: at any evaluation point the difference is the quadratic
/// remainder whose coefficients compare the elementary symmetric
/// functions of the roots with the line and curve coefficients.
proof fn lemma_cubic_remainder(
    bb: int, aa: int, cc: int, dd: int, l: int, c: int,
    x1: int, x2: int, x3: int, xx: int,
)
    ensures
        xx * xx * xx + aa * xx * xx + cc * xx + dd - bb * (l * xx + c) * (l * xx + c)
            == (xx - x1) * (xx - x2) * (xx - x3)
                + (aa - bb * l * l + x1 + x2 + x3) * (xx * xx)
                + (cc - 2 * bb * l * c - (x1 * x2 + x1 * x3 + x2 * x3)) * xx
                + (dd - bb * c * c + x1 * x2 * x3),
{
    let u = l * xx + c;
    assert(u * u == l * l * (xx * xx) + 2 * l * c * xx + c * c) by (nonlinear_arith)
        requires u == l * xx + c;
    assert(bb * (l * l * (xx * xx) + 2 * l * c * xx + c * c)
        == (bb * l * l) * (xx * xx) + (2 * bb * l * c) * xx + bb * (c * c)) by {
        lemma_mul_is_distributive_add(
            bb, l * l * (xx * xx) + 2 * l * c * xx, c * c);
        lemma_mul_is_distributive_add(bb, l * l * (xx * xx), 2 * l * c * xx);
        assert(bb * (l * l * (xx * xx)) == (bb * l * l) * (xx * xx)) by {
            lemma_mul_is_associative(bb, l * l, xx * xx);
            lemma_mul_is_associative(bb, l, l);
        };
        assert(bb * (2 * l * c * xx) == (2 * bb * l * c) * xx) by {
            lemma_mul_is_associative(bb, 2 * l * c, xx);
            lemma_mul_is_associative(bb, 2 * l, c);
            lemma_mul_is_associative(bb, 2, l);
            lemma_mul_is_commutative(bb, 2);
            lemma_mul_is_associative(2, bb, l);
        };
    };
    assert((xx - x1) * (xx - x2) * (xx - x3)
        == xx * xx * xx - (x1 + x2 + x3) * (xx * xx)
            + (x1 * x2 + x1 * x3 + x2 * x3) * xx - x1 * x2 * x3) by {
        assert((xx - x1) * (xx - x2) == xx * xx - (x1 + x2) * xx + x1 * x2)
            by (nonlinear_arith);
        let t = xx * xx - (x1 + x2) * xx + x1 * x2;
        lemma_mul_is_distributive_sub(t, xx, x3);
        assert(t * xx == xx * xx * xx - ((x1 + x2) * xx) * xx + (x1 * x2) * xx) by {
            lemma_mul_is_distributive_add_other_way(
                xx, xx * xx - (x1 + x2) * xx, x1 * x2);
            lemma_mul_is_distributive_sub_other_way(xx, xx * xx, (x1 + x2) * xx);
        };
        assert(t * x3 == (xx * xx) * x3 - ((x1 + x2) * xx) * x3 + (x1 * x2) * x3) by {
            lemma_mul_is_distributive_add_other_way(
                x3, xx * xx - (x1 + x2) * xx, x1 * x2);
            lemma_mul_is_distributive_sub_other_way(x3, xx * xx, (x1 + x2) * xx);
        };
        assert(((x1 + x2) * xx) * xx == (x1 + x2) * (xx * xx)) by {
            lemma_mul_is_associative(x1 + x2, xx, xx);
        };
        assert((xx * xx) * x3 == x3 * (xx * xx)) by {
            lemma_mul_is_commutative(xx * xx, x3);
        };
        assert(((x1 + x2) * xx) * x3 == (x1 * x3 + x2 * x3) * xx) by {
            lemma_mul_is_associative(x1 + x2, xx, x3);
            lemma_mul_is_commutative(xx, x3);
            lemma_mul_is_associative(x1 + x2, x3, xx);
            lemma_mul_is_distributive_add_other_way(x3, x1, x2);
        };
        assert((x1 + x2) * (xx * xx) + x3 * (xx * xx) == (x1 + x2 + x3) * (xx * xx)) by {
            lemma_mul_is_distributive_add_other_way(xx * xx, x1 + x2, x3);
        };
        assert((x1 * x2) * xx + (x1 * x3 + x2 * x3) * xx
            == (x1 * x2 + x1 * x3 + x2 * x3) * xx) by {
            lemma_mul_is_distributive_add_other_way(xx, x1 * x2, x1 * x3 + x2 * x3);
        };
    };
    assert((aa - bb * l * l + x1 + x2 + x3) * (xx * xx)
        == aa * (xx * xx) - (bb * l * l) * (xx * xx) + (x1 + x2 + x3) * (xx * xx))
        by (nonlinear_arith);
    assert((cc - 2 * bb * l * c - (x1 * x2 + x1 * x3 + x2 * x3)) * xx
        == cc * xx - (2 * bb * l * c) * xx - (x1 * x2 + x1 * x3 + x2 * x3) * xx)
        by (nonlinear_arith);
    assert(bb * u * u == bb * (u * u)) by (nonlinear_arith);
    assert(aa * xx * xx == aa * (xx * xx)) by (nonlinear_arith);
    assert(bb * c * c == bb * (c * c)) by (nonlinear_arith);
}

/// Closure of the chord construction on a cubic curve
/// `bb*y^2 = x^3 + aa*x^2 + cc*x + dd (mod q)`: joining two curve
/// points whose x-difference is invertible by the line of slope `l`
/// and mirroring the third intersection yields a point that satisfies
/// the equation again. The cubic minus the squared line vanishes at
/// `x1` and `x2`, and its quadratic remainder against
/// `(X-x1)(X-x2)(X-x3)` is annihilated by those two roots, so the
/// cubic also vanishes at `x3`.
pub proof fn lemma_cubic_chord_closed(
    q: int, bb: int, aa: int, cc: int, dd: int,
    x1: int, y1: int, x2: int, y2: int, l: int, v: int, x3: int, y3: int,
)
    requires
        q >= 1,
        (bb * y1 * y1) % q == (x1 * x1 * x1 + aa * x1 * x1 + cc * x1 + dd) % q,
        (bb * y2 * y2) % q == (x2 * x2 * x2 + aa * x2 * x2 + cc * x2 + dd) % q,
        (l * (x2 - x1)) % q == (y2 - y1) % q,
        has_inv((x2 - x1) % q, q, v),
        x3 % q == (bb * l * l - aa - x1 - x2) % q,
        y3 % q == (l * (x1 - x3) - y1) % q,
    ensures
        (bb * y3 * y3) % q == (x3 * x3 * x3 + aa * x3 * x3 + cc * x3 + dd) % q,
{
    let c = y1 - l * x1;
    let e2 = x1 * x2 + x1 * x3 + x2 * x3;
    let e3 = x1 * x2 * x3;
    let k2 = aa - bb * l * l + x1 + x2 + x3;
    let kl = cc - 2 * bb * l * c - e2;
    let kc = dd - bb * c * c + e3;
    let den = (x2 - x1) % q;
    // the line passes through both given points
    assert(l * x1 + c == y1);
    assert((l * x2 + c) % q == y2 % q) by {
        assert(l * x2 + c == l * (x2 - x1) + y1) by (nonlinear_arith)
            requires c == y1 - l * x1;
        lemma_add_mod_cong(l * (x2 - x1), y2 - y1, y1, y1, q);
    };
    // the cubic minus the squared line vanishes at x1 and x2
    let u1 = l * x1 + c;
    let p1 = x1 * x1 * x1 + aa * x1 * x1 + cc * x1 + dd - bb * u1 * u1;
    assert(p1 % q == 0) by {
        assert(u1 == y1);
        vstd::arithmetic::div_mod::lemma_mod_equivalence(
            x1 * x1 * x1 + aa * x1 * x1 + cc * x1 + dd, bb * y1 * y1, q);
    };
    let u2 = l * x2 + c;
    let p2 = x2 * x2 * x2 + aa * x2 * x2 + cc * x2 + dd - bb * u2 * u2;
    assert(p2 % q == 0) by {
        lemma_mul_mod_cong(bb, bb, u2, y2, q);
        lemma_mul_mod_cong(bb * u2, bb * y2, u2, y2, q);
        vstd::arithmetic::div_mod::lemma_mod_equivalence(
            x2 * x2 * x2 + aa * x2 * x2 + cc * x2 + dd, bb * u2 * u2, q);
        vstd::arithmetic::div_mod::lemma_mod_equivalence(bb * u2 * u2, bb * y2 * y2, q);
    };
    // the quadratic remainder's leading coefficient vanishes modulo q
    assert(k2 % q == 0) by {
        vstd::arithmetic::div_mod::lemma_mod_equivalence(
            x3, bb * l * l - aa - x1 - x2, q);
        assert(k2 == x3 - (bb * l * l - aa - x1 - x2));
    };
    // evaluating the remainder at the two known roots
    assert((kl * x1 + kc) % q == 0) by {
        lemma_cubic_remainder(bb, aa, cc, dd, l, c, x1, x2, x3, x1);
        assert((x1 - x1) * (x1 - x2) * (x1 - x3) == 0) by (nonlinear_arith);
        assert(p1 == k2 * (x1 * x1) + kl * x1 + kc);
        lemma_mul_mod_cong(k2, 0, x1 * x1, x1 * x1, q);
        assert(0int * (x1 * x1) == 0) by (nonlinear_arith);
        lemma_sub_mod_cong(p1, 0, k2 * (x1 * x1), 0, q);
        assert(p1 - k2 * (x1 * x1) == kl * x1 + kc);
    };
    assert((kl * x2 + kc) % q == 0) by {
        lemma_cubic_remainder(bb, aa, cc, dd, l, c, x1, x2, x3, x2);
        assert((x2 - x1) * (x2 - x2) * (x2 - x3) == 0) by (nonlinear_arith);
        assert(p2 == k2 * (x2 * x2) + kl * x2 + kc);
        lemma_mul_mod_cong(k2, 0, x2 * x2, x2 * x2, q);
        assert(0int * (x2 * x2) == 0) by (nonlinear_arith);
        lemma_sub_mod_cong(p2, 0, k2 * (x2 * x2), 0, q);
        assert(p2 - k2 * (x2 * x2) == kl * x2 + kc);
    };
    // a linear form vanishing at both roots of an invertible
    // difference is zero
    assert(kl % q == 0) by {
        lemma_sub_mod_cong(kl * x2 + kc, 0, kl * x1 + kc, 0, q);
        assert((kl * x2 + kc) - (kl * x1 + kc) == kl * (x2 - x1)) by (nonlinear_arith);
        lemma_mul_mod_noop_right(kl, x2 - x1, q);
        lemma_mul_mod_cong(kl * den, 0, v, v, q);
        assert(0int * v == 0) by (nonlinear_arith);
        assert((kl * den) * v == kl * (den * v)) by (nonlinear_arith);
        lemma_mul_mod_noop_right(kl, den * v, q);
        if q == 1 {
        } else {
            lemma_small_mod(1nat, q as nat);
            lemma_mul_mod_noop_right(kl, 1, q);
            assert(kl * 1 == kl) by (nonlinear_arith);
        }
    };
    assert(kc % q == 0) by {
        lemma_mul_mod_cong(kl, 0, x1, x1, q);
        assert(0int * x1 == 0) by (nonlinear_arith);
        lemma_sub_mod_cong(kl * x1 + kc, 0, kl * x1, 0, q);
        assert((kl * x1 + kc) - kl * x1 == kc);
    };
    // hence the cubic minus the squared line vanishes at x3 too
    let u3 = l * x3 + c;
    let p3 = x3 * x3 * x3 + aa * x3 * x3 + cc * x3 + dd - bb * u3 * u3;
    lemma_cubic_remainder(bb, aa, cc, dd, l, c, x1, x2, x3, x3);
    assert((x3 - x1) * (x3 - x2) * (x3 - x3) == 0) by (nonlinear_arith);
    assert(p3 == k2 * (x3 * x3) + kl * x3 + kc);
    assert(p3 % q == 0) by {
        lemma_mul_mod_cong(k2, 0, x3 * x3, x3 * x3, q);
        assert(0int * (x3 * x3) == 0) by (nonlinear_arith);
        lemma_mul_mod_cong(kl, 0, x3, x3, q);
        assert(0int * x3 == 0) by (nonlinear_arith);
        lemma_add_mod_cong(k2 * (x3 * x3), 0, kl * x3, 0, q);
        lemma_add_mod_cong(k2 * (x3 * x3) + kl * x3, 0, kc, 0, q);
        assert(p3 == k2 * (x3 * x3) + kl * x3 + kc);
    };
    // the mirrored intersection is y3, and squaring forgets the sign
    assert((bb * y3 * y3) % q == (bb * u3 * u3) % q) by {
        assert(l * (x1 - x3) - y1 == -u3) by (nonlinear_arith)
            requires u3 == l * x3 + c, c == y1 - l * x1;
        lemma_mul_mod_cong(y3, -u3, y3, -u3, q);
        assert((-u3) * (-u3) == u3 * u3) by (nonlinear_arith);
        lemma_mul_mod_cong(bb, bb, y3 * y3, u3 * u3, q);
        assert(bb * y3 * y3 == bb * (y3 * y3)) by (nonlinear_arith);
        assert(bb * u3 * u3 == bb * (u3 * u3)) by (nonlinear_arith);
    };
    vstd::arithmetic::div_mod::lemma_mod_equivalence(
        x3 * x3 * x3 + aa * x3 * x3 + cc * x3 + dd, bb * u3 * u3, q);
}

/// Closure of the tangent construction on a cubic curve
/// `bb*y^2 = x^3 + aa*x^2 + cc*x + dd (mod q)`: the line of tangent
/// slope `l` at a curve point meets the cubic in a double root there,
/// so the remainder argument of the chord case applies with the
/// derivative supplying the second vanishing condition, and no
/// invertibility is needed.
pub proof fn lemma_cubic_tangent_closed(
    q: int, bb: int, aa: int, cc: int, dd: int,
    x1: int, y1: int, l: int, x3: int, y3: int,
)
    requires
        q >= 1,
        (bb * y1 * y1) % q == (x1 * x1 * x1 + aa * x1 * x1 + cc * x1 + dd) % q,
        (l * (2 * bb * y1)) % q == (3 * x1 * x1 + 2 * aa * x1 + cc) % q,
        x3 % q == (bb * l * l - aa - 2 * x1) % q,
        y3 % q == (l * (x1 - x3) - y1) % q,
    ensures
        (bb * y3 * y3) % q == (x3 * x3 * x3 + aa * x3 * x3 + cc * x3 + dd) % q,
{
    let c = y1 - l * x1;
    let k2 = aa - bb * l * l + 2 * x1 + x3;
    let kl = cc - 2 * bb * l * c - (x1 * x1 + 2 * x1 * x3);
    let kc = dd - bb * c * c + x1 * x1 * x3;
    assert(l * x1 + c == y1);
    // the cubic minus the squared line vanishes at x1
    let u1 = l * x1 + c;
    let p1 = x1 * x1 * x1 + aa * x1 * x1 + cc * x1 + dd - bb * u1 * u1;
    assert(p1 % q == 0) by {
        assert(u1 == y1);
        vstd::arithmetic::div_mod::lemma_mod_equivalence(
            x1 * x1 * x1 + aa * x1 * x1 + cc * x1 + dd, bb * y1 * y1, q);
    };
    // the remainder's leading coefficient vanishes modulo q
    assert(k2 % q == 0) by {
        vstd::arithmetic::div_mod::lemma_mod_equivalence(
            x3, bb * l * l - aa - 2 * x1, q);
        assert(k2 == x3 - (bb * l * l - aa - 2 * x1));
    };
    // the derivative of the cubic minus the squared line at x1, which
    // the tangent hypothesis makes vanish modulo q
    let d1 = 3 * x1 * x1 + 2 * aa * x1 + cc - 2 * bb * l * y1;
    assert(d1 % q == 0) by {
        assert(2 * bb * l * y1 == l * (2 * bb * y1)) by (nonlinear_arith);
        vstd::arithmetic::div_mod::lemma_mod_equivalence(
            3 * x1 * x1 + 2 * aa * x1 + cc, l * (2 * bb * y1), q);
    };
    // that derivative is the remainder's slope shifted by the leading
    // coefficient
    assert(kl % q == 0) by {
        assert(d1 == 2 * k2 * x1 + kl) by (nonlinear_arith)
            requires
                d1 == 3 * x1 * x1 + 2 * aa * x1 + cc - 2 * bb * l * y1,
                y1 == l * x1 + c,
                k2 == aa - bb * l * l + 2 * x1 + x3,
                kl == cc - 2 * bb * l * c - (x1 * x1 + 2 * x1 * x3);
        assert(2 * k2 == k2 * 2) by (nonlinear_arith);
        lemma_mul_mod_cong(k2, 0, 2, 2, q);
        assert(0int * 2 == 0 && 0int * x1 == 0) by (nonlinear_arith);
        lemma_mul_mod_cong(2 * k2, 0, x1, x1, q);
        lemma_sub_mod_cong(d1, 0, (2 * k2) * x1, 0, q);
        assert(d1 - (2 * k2) * x1 == kl) by (nonlinear_arith)
            requires d1 == 2 * k2 * x1 + kl;
    };
    // the remainder's constant term vanishes via the root at x1
    assert(kc % q == 0) by {
        lemma_cubic_remainder(bb, aa, cc, dd, l, c, x1, x1, x3, x1);
        assert((x1 - x1) * (x1 - x1) * (x1 - x3) == 0) by (nonlinear_arith);
        assert(2 * x1 * x3 == x1 * x3 + x1 * x3) by (nonlinear_arith);
        assert(kl == cc - 2 * bb * l * c - (x1 * x1 + x1 * x3 + x1 * x3));
        assert(p1 == k2 * (x1 * x1) + kl * x1 + kc);
        lemma_mul_mod_cong(k2, 0, x1 * x1, x1 * x1, q);
        lemma_mul_mod_cong(kl, 0, x1, x1, q);
        assert(0int * (x1 * x1) == 0 && 0int * x1 == 0) by (nonlinear_arith);
        lemma_sub_mod_cong(p1, 0, k2 * (x1 * x1), 0, q);
        lemma_sub_mod_cong(p1 - k2 * (x1 * x1), 0, kl * x1, 0, q);
        assert(p1 - k2 * (x1 * x1) - kl * x1 == kc);
    };
    // hence the cubic minus the squared line vanishes at x3 too
    let u3 = l * x3 + c;
    let p3 = x3 * x3 * x3 + aa * x3 * x3 + cc * x3 + dd - bb * u3 * u3;
    lemma_cubic_remainder(bb, aa, cc, dd, l, c, x1, x1, x3, x3);
    assert((x3 - x1) * (x3 - x1) * (x3 - x3) == 0) by (nonlinear_arith);
    assert(2 * x1 * x3 == x1 * x3 + x1 * x3) by (nonlinear_arith);
    assert(kl == cc - 2 * bb * l * c - (x1 * x1 + x1 * x3 + x1 * x3));
    assert(p3 == k2 * (x3 * x3) + kl * x3 + kc);
    assert(p3 % q == 0) by {
        lemma_mul_mod_cong(k2, 0, x3 * x3, x3 * x3, q);
        lemma_mul_mod_cong(kl, 0, x3, x3, q);
        assert(0int * (x3 * x3) == 0 && 0int * x3 == 0) by (nonlinear_arith);
        lemma_add_mod_cong(k2 * (x3 * x3), 0, kl * x3, 0, q);
        lemma_add_mod_cong(k2 * (x3 * x3) + kl * x3, 0, kc, 0, q);
        assert(p3 == k2 * (x3 * x3) + kl * x3 + kc);
    };
    // the mirrored intersection is y3, and squaring forgets the sign
    assert((bb * y3 * y3) % q == (bb * u3 * u3) % q) by {
        assert(l * (x1 - x3) - y1 == -u3) by (nonlinear_arith)
            requires u3 == l * x3 + c, c == y1 - l * x1;
        lemma_mul_mod_cong(y3, -u3, y3, -u3, q);
        assert((-u3) * (-u3) == u3 * u3) by (nonlinear_arith);
        lemma_mul_mod_cong(bb, bb, y3 * y3, u3 * u3, q);
        assert(bb * y3 * y3 == bb * (y3 * y3)) by (nonlinear_arith);
        assert(bb * u3 * u3 == bb * (u3 * u3)) by (nonlinear_arith);
    };
    vstd::arithmetic::div_mod::lemma_mod_equivalence(
        x3 * x3 * x3 + aa * x3 * x3 + cc * x3 + dd, bb * u3 * u3, q);
}

/// The odd factor of `n` once all powers of two are divided out.
pub open spec fn spec_odd_factor(n: int) -> int
    decreases n,
{
    if n >= 1 && n % 2 == 0 {
        spec_odd_factor(n / 2)
    } else {
        n
    }
}

/// The exponent of two in `n`.
pub open spec fn spec_two_exp(n: int) -> nat
    decreases n,
{
    if n >= 1 && n % 2 == 0 {
        1 + spec_two_exp(n / 2)
    } else {
        0
    }
}

/// The non-residue search of Tonelli-Shanks: the first candidate at or
/// above `z` whose Euler power is not 1. It stops at `p` at the
/// latest, where the power is zero.
pub open spec fn spec_find_nonresidue(p: int, e: nat, z: int) -> int
    decreases p - z,
{
    if z >= p || pow(z, e) % p != 1 {
        z
    } else {
        spec_find_nonresidue(p, e, z + 1)
    }
}

/// The inner search of Tonelli-Shanks' descent: the least index in
/// `[i, m)` at which repeated squaring of `t` reaches one, or `m` when
/// there is none.
pub open spec fn spec_find_i(p: int, t: int, i: nat, m: nat) -> nat
    decreases m - i,
{
    if i >= m {
        m
    } else if pow(t, pow2(i)) % p == 1 {
        i
    } else {
        spec_find_i(p, t, i + 1, m)
    }
}

/// The main descent of Tonelli-Shanks, step for step: while `t` is not
/// one, find the least index, give up at `m`, and otherwise fold the
/// correction factor into the candidate root and its companions.
pub open spec fn spec_ts_loop(p: int, x: int, t: int, c: int, m: nat) -> Result<
    u64,
    CurveError,
>
    decreases m,
{
    if t == 1 {
        Ok(x as u64)
    } else {
        let i = spec_find_i(p, t, 1, m);
        if i >= m {
            Err(CurveError::NoSquareRoot)
        } else {
            let b = pow(c, pow2((m - i - 1) as nat)) % p;
            spec_ts_loop(p, (x * b) % p, (((t * b) % p) * b) % p, (b * b) % p, i)
        }
    }
}

/// What Tonelli-Shanks computes, in full: zero for a zero input,
/// rejection on Euler's criterion, and otherwise the descent started
/// from the first non-residue candidate. An exact mirror of the
/// algorithm, so a contract over it pins the result on every input.
pub open spec fn spec_tonelli(a: int, p: int) -> Result<u64, CurveError> {
    if a == 0 {
        Ok(0u64)
    } else if pow(a, (((p - 1) / 2) as nat)) % p != 1 {
        Err(CurveError::NoSquareRoot)
    } else {
        let q0 = spec_odd_factor(p - 1);
        let z = spec_find_nonresidue(p, (((p - 1) / 2) as nat), 2);
        let c = pow(z, q0 as nat) % p;
        let x = pow(a, (((q0 + 1) / 2) as nat)) % p;
        let t = pow(a, q0 as nat) % p;
        spec_ts_loop(p, x, t, c, spec_two_exp(p - 1))
    }
}

/// A left shift of one is the matching power of two.
pub proof fn lemma_one_shl_pow2(i: u32)
    requires
        i < 32,
    ensures
        (1u32 << i) as nat == pow2(i as nat),
{
    assert(pow2(i as nat) < 0x1_0000_0000) by {
        if i < 31 {
            vstd::arithmetic::power2::lemma_pow2_strictly_increases(i as nat, 31);
        }
        lemma2_to64();
    };
    vstd::bits::lemma_u32_shl_is_mul(1u32, i);
    assert(1 * pow2(i as nat) == pow2(i as nat));
}

/// Namespace for the toolkit's three functions, mirroring how callers
/// reach them (`Utils::modpow`, `Utils::mod_inv`, `Utils::tonelli_shanks`).
pub struct Utils;

impl Utils {
    /// Square-and-multiply modular exponentiation:
    /// returns `base^exp mod modulus` in O(log exp) multiplications.
    pub fn modpow(base: u64, exp: u32, modulus: u64) -> (r: u64)
        requires
            1 <= modulus <= 0xFFFF_FFFF,
        ensures
            r == pow(base as int, exp as nat) % (modulus as int),
            r < modulus,
    {
        let ghost m: int = modulus as int;
        let mut result: u64 = 1 % modulus;
        let mut b: u64 = base % modulus;
        let mut e: u32 = exp;
        proof {
            lemma_pow_mod_noop(base as int, exp as nat, m);
            lemma_mul_mod_noop_general(1int, pow(b as int, e as nat), m);
        }
        while e > 0
            invariant
                result < modulus,
                b < modulus,
                (result * pow(b as int, e as nat)) % m == pow(base as int, exp as nat) % m,
            decreases e,
        {
            let ghost r0: int = result as int;
            let ghost b0: int = b as int;
            let ghost e0: nat = e as nat;
            if e % 2 == 1 {
                proof {
                    assert(result * b < 0x1_0000_0000_0000_0000) by (nonlinear_arith)
                        requires result < 0x1_0000_0000 && b < 0x1_0000_0000;
                }
                result = (result * b) % modulus;
            }
            e = e / 2;
            proof {
                assert(b * b < 0x1_0000_0000_0000_0000) by (nonlinear_arith)
                    requires b < 0x1_0000_0000;
            }
            b = (b * b) % modulus;
            proof {
                // pow(b0, e0) splits into the consumed bit and the squared base.
                lemma_pow_multiplies(b0, 2, (e0 / 2) as nat);
                assert(pow(b0, 2) == b0 * b0) by {
                    lemma_pow1(b0);
                    lemma_pow_adds(b0, 1, 1);
                };
                lemma_pow_mod_noop(b0 * b0, (e0 / 2) as nat, m);
                let pb: int = pow((b0 * b0) % m, (e0 / 2) as nat);
                if e0 % 2 == 1 {
                    assert(pow(b0, e0) == b0 * pow(b0 * b0, (e0 / 2) as nat)) by {
                        lemma_pow1(b0);
                        lemma_pow_adds(b0, 1, (2 * (e0 / 2)) as nat);
                    };
                    // ((r0*b0) % m) * (pow(b0*b0, e0/2) % m) stays congruent.
                    lemma_mul_mod_noop_general(r0 * b0, pow(b0 * b0, (e0 / 2) as nat), m);
                    lemma_mul_mod_noop_general(r0 * b0, pb, m);
                    assert(r0 * b0 * pow(b0 * b0, (e0 / 2) as nat) == r0 * pow(b0, e0)) by {
                        assert(b0 * pow(b0 * b0, (e0 / 2) as nat) == pow(b0, e0));
                        vstd::arithmetic::mul::lemma_mul_is_associative(
                            r0, b0, pow(b0 * b0, (e0 / 2) as nat));
                    };
                    lemma_mul_mod_noop_general(r0, pow(b0, e0), m);
                } else {
                    assert(pow(b0, e0) == pow(b0 * b0, (e0 / 2) as nat));
                    lemma_mul_mod_noop_general(r0, pb, m);
                    lemma_mul_mod_noop_general(r0, pow(b0, e0), m);
                }
            }
        }
        proof {
            vstd::arithmetic::power::lemma_pow0(b as int);
            lemma_small_mod(result as nat, modulus as nat);
        }
        result
    }

    /// The modular inverse of `a` modulo `q`, by the extended Euclidean
    /// algorithm. Succeeds with the unique inverse in `[0, q)` exactly
    /// when `a` and `q` are coprime, and reports `NoInverse` otherwise.
    pub fn mod_inv(a: u64, q: u64) -> (r: Result<u64, CurveError>)
        requires
            1 <= q <= 0xFFFF_FFFF,
            a < q,
        ensures
            match r {
                Ok(v) => gcd(q as nat, a as nat) == 1 && v < q
                    && ((a as int) * (v as int)) % (q as int) == 1int % (q as int),
                Err(e) => e == CurveError::NoInverse && gcd(q as nat, a as nat) != 1,
            },
    {
        let ghost gq: int = q as int;
        let ghost ga: int = a as int;
        let qi: i128 = q as i128;
        let mut t0: i128 = 0;
        let mut t1: i128 = 1;
        let mut r0: u64 = q;
        let mut r1: u64 = a;
        proof {
            vstd::arithmetic::div_mod::lemma_mod_self_0(gq);
            assert((0int * ga) % gq == 0int % gq);
            assert(abs(0int) == 0 && abs(1int) == 1);
            assert(0int * ga == 0) by (nonlinear_arith);
            assert(1int * gq == gq) by (nonlinear_arith);
        }
        while r1 != 0
            invariant
                1 <= r0 <= q,
                r1 < r0,
                gcd(r0 as nat, r1 as nat) == gcd(q as nat, a as nat),
                (t0 * ga) % gq == (r0 as int) % gq,
                (t1 * ga) % gq == (r1 as int) % gq,
                t0 * t1 <= 0,
                abs(t0 as int) * (r1 as int) + abs(t1 as int) * (r0 as int) == gq,
                -(q as i128) <= t0 <= q as i128,
                -(q as i128) <= t1 <= q as i128,
                q == 1 ==> t0 == 0,
            decreases r1,
        {
            let ghost gt0: int = t0 as int;
            let ghost gt1: int = t1 as int;
            let ghost gr0: int = r0 as int;
            let ghost gr1: int = r1 as int;
            let quotient: u64 = r0 / r1;
            let ghost gqu: int = quotient as int;
            proof {
                lemma_fundamental_div_mod(gr0, gr1);
                vstd::arithmetic::div_mod::lemma_div_pos_is_pos(gr0, gr1);
                vstd::arithmetic::div_mod::lemma_div_nonincreasing(gr0, gr1);
                assert(gqu <= gq && gqu >= 0);
                assert(gqu * gt1 <= gq * gq && gqu * gt1 >= -(gq * gq)) by (nonlinear_arith)
                    requires 0 <= gqu <= gq, -gq <= gt1 <= gq, gq >= 1;
                assert(gq * gq <= 0xFFFF_FFFF * 0xFFFF_FFFF) by (nonlinear_arith)
                    requires 1 <= gq <= 0xFFFF_FFFF;
            }
            let prod: i128 = (quotient as i128) * t1;
            let new_t: i128 = t0 - prod;
            let new_r: u64 = r0 % r1;
            proof {
                let ghost gnt: int = gt0 - gqu * gt1;
                let ghost gnr: int = gr0 - gqu * gr1;
                assert(gr1 * gqu == gqu * gr1) by (nonlinear_arith);
                assert(new_r as int == gnr);
                // congruence carried to the new pair
                assert((gnt * ga) % gq == gnr % gq) by {
                    assert(gnt * ga == gt0 * ga - gqu * (gt1 * ga)) by (nonlinear_arith)
                        requires gnt == gt0 - gqu * gt1;
                    lemma_sub_mod_noop(gt0 * ga, gqu * (gt1 * ga), gq);
                    lemma_mul_mod_noop_right(gqu, gt1 * ga, gq);
                    lemma_mul_mod_noop_right(gqu, gr1, gq);
                    lemma_sub_mod_noop(gr0, gqu * gr1, gq);
                };
                // Euclid's step keeps the gcd
                assert(gcd(r1 as nat, new_r as nat) == gcd(r0 as nat, r1 as nat));
                // signs alternate, so the determinant bound is preserved
                assert(gt1 * gnt <= 0) by (nonlinear_arith)
                    requires gnt == gt0 - gqu * gt1, gt0 * gt1 <= 0, gqu >= 0;
                assert(abs(gt1) * gnr + abs(gnt) * gr1 == gq) by (nonlinear_arith)
                    requires
                        gnt == gt0 - gqu * gt1,
                        gnr == gr0 - gqu * gr1,
                        gt0 * gt1 <= 0,
                        gqu >= 0,
                        gr1 >= 1,
                        gnr >= 0,
                        abs(gt0) * gr1 + abs(gt1) * gr0 == gq;
                assert(-gq <= gnt <= gq) by (nonlinear_arith)
                    requires abs(gt1) * gnr + abs(gnt) * gr1 == gq, gr1 >= 1, gnr >= 0,
                             abs(gt1) >= 0;
            }
            t0 = t1;
            t1 = new_t;
            r0 = r1;
            r1 = new_r;
        }
        if r0 > 1 {
            return Err(CurveError::NoInverse);
        }
        proof {
            assert(gcd(r0 as nat, 0) == r0 as nat);
            assert((t0 * ga) % gq == 1int % gq);
            assert(t0 != qi) by {
                if t0 == qi {
                    assert((gq * ga) % gq == 0) by {
                        lemma_mod_multiples_basic(ga, gq);
                        assert(gq * ga == ga * gq) by (nonlinear_arith);
                    };
                    assert(q > 1);
                    lemma_small_mod(1nat, q as nat);
                }
            };
        }
        let v: i128 = if t0 < 0 { t0 + qi } else { t0 };
        proof {
            if t0 < 0 {
                assert((v as int) * ga == (t0 as int) * ga + gq * ga) by (nonlinear_arith)
                    requires v as int == t0 as int + gq;
                vstd::arithmetic::div_mod::lemma_mod_multiples_vanish(ga, (t0 as int) * ga, gq);
            }
            assert(ga * (v as int) == (v as int) * ga) by (nonlinear_arith);
        }
        Ok(v as u64)
    }

    /// Tonelli-Shanks: a square root of `a` modulo the odd prime `p`.
    /// The result equals `spec_tonelli(a, p)` exactly, so the contract
    /// pins the outcome on every input; in particular any returned
    /// value is a genuine square root of `a` (the caller is responsible
    /// for also considering `p - result`, the other root), a zero input
    /// yields zero, and an input that fails Euler's criterion is
    /// rejected as a non-residue.
    pub fn tonelli_shanks(a: u64, p: u64) -> (r: Result<u64, CurveError>)
        requires
            3 <= p <= 0xFFFF_FFFF,
            p % 2 == 1,
        ensures
            r == spec_tonelli(a as int, p as int),
            a == 0 ==> r == Ok::<u64, CurveError>(0u64),
            match r {
                Ok(v) => v < p
                    && ((v as int) * (v as int)) % (p as int) == (a as int) % (p as int),
                Err(e) => e == CurveError::NoSquareRoot && a != 0,
            },
            a != 0 && pow(a as int, (((p - 1) / 2) as nat)) % (p as int) != 1
                ==> r == Err::<u64, CurveError>(CurveError::NoSquareRoot),
    {
        let ghost gp: int = p as int;
        let ghost ap: int = (a as int) % gp;
        if a == 0 {
            proof {
                assert((0int * 0int) % gp == 0int % gp);
            }
            return Ok(0);
        }
        let exp: u64 = (p - 1) / 2;
        let leg: u64 = Utils::modpow(a, exp as u32, p);
        if leg != 1 {
            return Err(CurveError::NoSquareRoot);
        }

        // Write p - 1 as q0 * 2^s with q0 odd.
        let mut q0: u64 = p - 1;
        let mut s: u32 = 0;
        proof {
            lemma2_to64();
        }
        while q0 % 2 == 0
            invariant
                1 <= q0 <= p - 1,
                (q0 as int) * (pow2(s as nat) as int) == (p - 1) as int,
                s <= 31,
                spec_odd_factor(q0 as int) == spec_odd_factor((p - 1) as int),
                spec_two_exp(q0 as int) + s == spec_two_exp((p - 1) as int),
            decreases q0,
        {
            proof {
                lemma_fundamental_div_mod(q0 as int, 2);
                lemma_pow2_unfold((s + 1) as nat);
                if s == 31 {
                    assert((q0 as int) * (pow2(31) as int) >= 2 * (pow2(31) as int))
                        by (nonlinear_arith)
                        requires q0 >= 2, pow2(31) >= 0;
                    assert(pow2(31) == 0x8000_0000) by { lemma2_to64(); };
                }
                assert(((q0 / 2) as int) * (pow2((s + 1) as nat) as int)
                    == (q0 as int) * (pow2(s as nat) as int)) by (nonlinear_arith)
                    requires
                        q0 as int == 2 * ((q0 / 2) as int),
                        pow2((s + 1) as nat) == 2 * pow2(s as nat);
            }
            q0 = q0 / 2;
            s = s + 1;
        }
        proof {
            assert(spec_odd_factor(q0 as int) == q0 as int);
            assert(spec_two_exp(q0 as int) == 0);
            if s == 0 {
                assert(pow2(0) == 1) by { lemma2_to64(); };
                assert(q0 == p - 1) by (nonlinear_arith)
                    requires (q0 as int) * (pow2(0) as int) == (p - 1) as int, pow2(0) == 1;
                assert(false);
            }
        }

        // Find a quadratic non-residue z; for z == p the Euler check
        // cannot pass, so the search stops by then at the latest.
        let mut z: u64 = 2;
        let mut lz: u64;
        #[verifier::loop_isolation(true)]
        loop
            invariant
                3 <= p <= 0xFFFF_FFFF,
                gp == p as int,
                exp == (p - 1) / 2,
                2 <= z <= p,
                spec_find_nonresidue(gp, exp as nat, z as int)
                    == spec_find_nonresidue(gp, exp as nat, 2),
            ensures
                2 <= z <= p,
                z as int == spec_find_nonresidue(gp, exp as nat, 2),
            decreases p - z,
        {
            lz = Utils::modpow(z, exp as u32, p);
            if lz != 1 {
                proof {
                    assert(spec_find_nonresidue(gp, exp as nat, z as int) == z as int);
                }
                break;
            }
            proof {
                if z == p {
                    lemma_pow_mod_noop(gp, exp as nat, gp);
                    vstd::arithmetic::div_mod::lemma_mod_self_0(gp);
                    vstd::arithmetic::power::lemma0_pow(exp as nat);
                    lemma_small_mod(0nat, p as nat);
                }
                assert(z < p);
                assert(spec_find_nonresidue(gp, exp as nat, z as int)
                    == spec_find_nonresidue(gp, exp as nat, z + 1));
            }
            z = z + 1;
        }

        let mut c: u64 = Utils::modpow(z, q0 as u32, p);
        let mut x: u64 = Utils::modpow(a, ((q0 + 1) / 2) as u32, p);
        let mut t: u64 = Utils::modpow(a, q0 as u32, p);
        let mut m: u32 = s;

        proof {
            let h: nat = ((q0 + 1) / 2) as nat;
            let ga: int = a as int;
            lemma_fundamental_div_mod((q0 + 1) as int, 2);
            assert(h + h == (q0 + 1) as nat);
            lemma_small_mod(x as nat, p as nat);
            lemma_small_mod(t as nat, p as nat);
            // x * x is congruent to pow(a, q0 + 1)
            lemma_mul_mod_cong(x as int, pow(ga, h), x as int, pow(ga, h), gp);
            lemma_pow_adds(ga, h, h);
            // pow(a, q0 + 1) == a * pow(a, q0)
            lemma_pow_adds(ga, 1, q0 as nat);
            lemma_pow1(ga);
            // replace pow(a, q0) by t and a by a % p
            lemma_mul_mod_cong(ga, ga, pow(ga, q0 as nat), t as int, gp);
            vstd::arithmetic::div_mod::lemma_mod_twice(ga, gp);
            lemma_mul_mod_cong(ga, ap, t as int, t as int, gp);
        }
        let ghost spec_result: Result<u64, CurveError> = spec_tonelli(a as int, gp);
        proof {
            assert(spec_result == spec_ts_loop(gp, x as int, t as int, c as int, m as nat));
        }

        while t != 1
            invariant
                x < p,
                t < p,
                c < p,
                1 <= m <= 31,
                ((x as int) * (x as int)) % gp == (ap * (t as int)) % gp,
                spec_result == spec_tonelli(a as int, gp),
                spec_result == spec_ts_loop(gp, x as int, t as int, c as int, m as nat),
            decreases m,
        {
            let ghost gm: nat = m as nat;
            let mut i: u32 = 1;
            #[verifier::loop_isolation(true)]
            loop
                invariant
                    3 <= p <= 0xFFFF_FFFF,
                    gp == p as int,
                    1 <= i <= m,
                    m <= 31,
                    m == gm,
                    t < p,
                    spec_find_i(gp, t as int, i as nat, gm)
                        == spec_find_i(gp, t as int, 1, gm),
                ensures
                    1 <= i <= m,
                    i as nat == spec_find_i(gp, t as int, 1, gm),
                decreases m - i,
            {
                if !(i < m) {
                    proof {
                        assert(spec_find_i(gp, t as int, i as nat, gm) == gm);
                    }
                    break;
                }
                let ti: u64 = Utils::modpow(t, 1u32 << i, p);
                proof {
                    lemma_one_shl_pow2(i);
                }
                if ti == 1 {
                    proof {
                        assert(spec_find_i(gp, t as int, i as nat, gm) == i as nat);
                    }
                    break;
                }
                proof {
                    assert(spec_find_i(gp, t as int, i as nat, gm)
                        == spec_find_i(gp, t as int, (i + 1) as nat, gm));
                }
                i = i + 1;
            }
            if i == m {
                proof {
                    assert(spec_ts_loop(gp, x as int, t as int, c as int, gm)
                        == Err::<u64, CurveError>(CurveError::NoSquareRoot));
                }
                return Err(CurveError::NoSquareRoot);
            }
            let b: u64 = Utils::modpow(c, 1u32 << (m - i - 1), p);
            proof {
                lemma_one_shl_pow2((m - i - 1) as u32);
            }
            let ghost gx: int = x as int;
            let ghost gb: int = b as int;
            let ghost gt: int = t as int;
            let ghost gc: int = c as int;
            proof {
                assert(gx * gb < 0x1_0000_0000_0000_0000 && gt * gb < 0x1_0000_0000_0000_0000
                    && gb * gb < 0x1_0000_0000_0000_0000) by (nonlinear_arith)
                    requires 0 <= gx < 0x1_0000_0000, 0 <= gt < 0x1_0000_0000,
                             0 <= gb < 0x1_0000_0000;
            }
            x = (x * b) % p;
            let tb: u64 = (t * b) % p;
            proof {
                assert((tb as int) * gb < 0x1_0000_0000_0000_0000) by (nonlinear_arith)
                    requires 0 <= tb < 0x1_0000_0000, 0 <= gb < 0x1_0000_0000;
            }
            t = (tb * b) % p;
            c = (b * b) % p;
            m = i;
            proof {
                // new x squared stays congruent to (a % p) times the new t
                lemma_small_mod(x as nat, p as nat);
                lemma_mul_mod_cong(x as int, gx * gb, x as int, gx * gb, gp);
                assert((gx * gb) * (gx * gb) == (gx * gx) * (gb * gb)) by (nonlinear_arith);
                lemma_mul_mod_cong(gx * gx, ap * gt, gb * gb, gb * gb, gp);
                // the new t is (t * b * b) reduced
                lemma_mul_mod_noop_general(gt * gb, gb, gp);
                lemma_small_mod(t as nat, p as nat);
                lemma_mul_mod_cong(ap, ap, t as int, (gt * gb) * gb, gp);
                assert(ap * ((gt * gb) * gb) == (ap * gt) * (gb * gb)) by (nonlinear_arith);
                // the step matches one unfolding of the descent spec
                assert(spec_ts_loop(gp, gx, gt, gc, gm)
                    == spec_ts_loop(gp, x as int, t as int, c as int, m as nat));
            }
        }
        proof {
            lemma_mul_mod_noop_general(ap, 1, gp);
            vstd::arithmetic::div_mod::lemma_mod_twice(a as int, gp);
            assert(spec_ts_loop(gp, x as int, t as int, c as int, m as nat)
                == Ok::<u64, CurveError>(x));
        }
        Ok(x)
    }
}

} // verus!

//! Short Weierstrass curves `y^2 = x^3 + a*x + b (mod q)` with the
//! chord-and-tangent group law. The group identity is the reserved
//! sentinel `(0, 0, 0)`, which is not a point on the curve.

use vstd::prelude::*;
use crate::ecc::CurveError;
use crate::point::Point;
use crate::utils::{
    Utils, coprime, has_inv, inv_mod, lemma_inv_unique, lemma_mul_mod_cong,
    lemma_add_mod_cong, lemma_sub_mod_cong, lemma_mod_shift, lemma_mul_fits_u64,
    lemma_coprime_invertible, lemma_cubic_chord_closed, lemma_cubic_tangent_closed,
    spec_tonelli, is_prime, lemma_prime_coprime,
};

verus! {

/// A short Weierstrass curve `y^2 = x^3 + a*x + b (mod q)`.
pub struct WeierstrassECC {
    pub a: u64,
    pub b: u64,
    pub q: u64,
}

impl WeierstrassECC {
    /// Well-formed parameters: an odd toy-sized modulus above 2 and
    /// nonzero reduced coefficients.
    pub open spec fn wf(self) -> bool {
        &&& 2 < self.q <= 0xFFFF_FFFF
        &&& self.q % 2 == 1
        &&& 0 < self.a < self.q
        &&& 0 < self.b < self.q
    }

    /// The reserved identity sentinel of the Weierstrass model.
    pub open spec fn spec_identity() -> Point {
        Point { x: 0, y: 0, z: 0 }
    }

    /// The defining equation holds for the point's coordinates.
    pub open spec fn on_curve(self, p: Point) -> bool {
        ((p.y as int) * (p.y as int)) % (self.q as int)
            == ((p.x as int) * (p.x as int) * (p.x as int)
                + (self.a as int) * (p.x as int) + (self.b as int)) % (self.q as int)
    }

    /// A point is accepted when it is the identity (any point with both
    /// affine coordinates zero) or lies on the curve.
    pub open spec fn spec_is_valid(self, p: Point) -> bool {
        (p.x == 0 && p.y == 0) || self.on_curve(p)
    }

    /// A non-identity point reduced into canonical form with `z == 1`;
    /// the identity sentinel is left untouched.
    pub open spec fn spec_normalize(self, p: Point) -> Point {
        if p == Self::spec_identity() {
            p
        } else {
            Point { x: p.x % self.q, y: p.y % self.q, z: 1 }
        }
    }

    /// Creates a new Weierstrass curve from reduced nonzero
    /// coefficients and an odd modulus above 2 (a prime, for the group
    /// law to be total on curve points).
    pub fn new(a: u64, b: u64, q: u64) -> (r: Self)
        requires
            2 < q <= 0xFFFF_FFFF,
            q % 2 == 1,
            0 < a < q,
            0 < b < q,
        ensures
            r == (WeierstrassECC { a, b, q }),
            r.wf(),
    {
        WeierstrassECC { a, b, q }
    }

    /// Normalize a point: unless it is the identity sentinel, reduce
    /// both affine coordinates modulo `q` and mark it with `z = 1`.
    pub fn normalize(&self, p: Point) -> (r: Point)
        requires
            self.wf(),
        ensures
            r == self.spec_normalize(p),
            r.in_field(self.q as int),
    {
        let identity = Point { x: 0, y: 0, z: 0 };
        if p == identity {
            p
        } else {
            Point { x: p.x % self.q, y: p.y % self.q, z: 1 }
        }
    }

    /// Decides the defining equation `y^2 = x^3 + a*x + b (mod q)`,
    /// with the identity accepted unconditionally.
    pub fn is_valid(&self, p: &Point) -> (r: bool)
        requires
            self.wf(),
        ensures
            r == self.spec_is_valid(*p),
    {
        if p.x == 0 && p.y == 0 {
            return true;
        }
        let ghost gq: int = self.q as int;
        let ghost gx: int = p.x as int;
        let ghost gy: int = p.y as int;
        let ghost ga: int = self.a as int;
        let q = self.q;
        let xq: u64 = p.x % q;
        let yq: u64 = p.y % q;
        proof {
            lemma_mul_fits_u64(yq as int, yq as int);
            lemma_mul_fits_u64(xq as int, xq as int);
        }
        let lhs: u64 = (yq * yq) % q;
        let x2: u64 = (xq * xq) % q;
        proof {
            lemma_mul_fits_u64(x2 as int, xq as int);
            lemma_mul_fits_u64(ga, xq as int);
        }
        let x3: u64 = (x2 * xq) % q;
        let ax: u64 = (self.a * xq) % q;
        let rhs: u64 = (x3 + ax + self.b) % q;
        proof {
            vstd::arithmetic::div_mod::lemma_mod_twice(gx, gq);
            vstd::arithmetic::div_mod::lemma_mod_twice(gy, gq);
            lemma_mul_mod_cong(yq as int, gy, yq as int, gy, gq);
            lemma_mul_mod_cong(xq as int, gx, xq as int, gx, gq);
            vstd::arithmetic::div_mod::lemma_mod_twice(gx * gx, gq);
            lemma_mul_mod_cong(x2 as int, gx * gx, xq as int, gx, gq);
            lemma_mul_mod_cong(ga, ga, xq as int, gx, gq);
            vstd::arithmetic::div_mod::lemma_mod_twice(gx * gx * gx, gq);
            vstd::arithmetic::div_mod::lemma_mod_twice(ga * gx, gq);
            vstd::arithmetic::div_mod::lemma_small_mod(self.b as nat, self.q as nat);
            lemma_add_mod_cong(x3 as int, gx * gx * gx, ax as int, ga * gx, gq);
            lemma_add_mod_cong(
                (x3 + ax) as int, gx * gx * gx + ga * gx,
                self.b as int, self.b as int, gq);
        }
        lhs == rhs
    }

    /// What the chord-and-tangent law returns: the other operand for an
    /// identity operand, the identity for a point and its negation, and
    /// otherwise the normalized point built from the slope `l` of the
    /// chord (or tangent, for equal x-coordinates). Rejects operands
    /// off the curve, and reports `NoInverse` when the slope's
    /// denominator is not invertible.
    pub open spec fn spec_add(self, p: Point, o: Point) -> Result<Point, CurveError> {
        let q = self.q as int;
        if !self.spec_is_valid(p) || !self.spec_is_valid(o) {
            Err(CurveError::InvalidPoint)
        } else if p == Self::spec_identity() {
            Ok(o)
        } else if o == Self::spec_identity() {
            Ok(p)
        } else if p.x == o.x && (p.y != o.y || p.y == 0) {
            Ok(Self::spec_identity())
        } else {
            let den = if p.x == o.x {
                (2 * (p.y as int)) % q
            } else {
                ((o.x as int) - (p.x as int)) % q
            };
            if !coprime(self.q as nat, den as nat) {
                Err(CurveError::NoInverse)
            } else {
                let num = if p.x == o.x {
                    (3 * (p.x as int) * (o.x as int) + (self.a as int)) % q
                } else {
                    ((o.y as int) - (p.y as int)) % q
                };
                let l = (num * inv_mod(den, q)) % q;
                let x3 = (l * l - (p.x as int) - (o.x as int)) % q;
                let y3 = (l * ((p.x as int) - x3) - (p.y as int)) % q;
                Ok(self.spec_normalize(Point { x: x3 as u64, y: y3 as u64, z: 0 }))
            }
        }
    }

    /// The group law. Both operands must satisfy `is_valid`; failures
    /// of that precondition and non-invertible slope denominators are
    /// reported as errors, exactly as `spec_add` states.
    pub fn add(&self, p: &Point, o: &Point) -> (r: Result<Point, CurveError>)
        requires
            self.wf(),
            p.in_field(self.q as int),
            o.in_field(self.q as int),
        ensures
            r == self.spec_add(*p, *o),
            r matches Ok(v) ==> v.in_field(self.q as int),
    {
        let ghost gq: int = self.q as int;
        let q = self.q;
        if !self.is_valid(p) || !self.is_valid(o) {
            return Err(CurveError::InvalidPoint);
        }
        let identity = Point { x: 0, y: 0, z: 0 };
        if *p == identity {
            return Ok(*o);
        }
        if *o == identity {
            return Ok(*p);
        }
        if p.x == o.x && (p.y != o.y || p.y == 0) {
            return Ok(identity);
        }
        let den: u64 = if p.x == o.x {
            (2 * p.y) % q
        } else {
            (o.x + q - p.x) % q
        };
        proof {
            if p.x != o.x {
                lemma_mod_shift((o.x as int) - (p.x as int), 1, gq);
            }
        }
        let inv_val: u64 = match Utils::mod_inv(den, q) {
            Ok(v) => v,
            Err(_) => {
                return Err(CurveError::NoInverse);
            },
        };
        proof {
            assert(has_inv(den as int, gq, inv_val as int));
            lemma_inv_unique(den as int, gq, inv_val as int, inv_mod(den as int, gq));
        }
        let num: u64 = if p.x == o.x {
            proof {
                lemma_mul_fits_u64((3 * (p.x as int)) % gq, o.x as int);
            }
            let n2: u64 = (((3 * p.x) % q) * o.x) % q;
            proof {
                vstd::arithmetic::div_mod::lemma_mod_twice(3 * (p.x as int), gq);
                lemma_mul_mod_cong(
                    (3 * (p.x as int)) % gq, 3 * (p.x as int), o.x as int, o.x as int, gq);
                vstd::arithmetic::div_mod::lemma_mod_twice(
                    3 * (p.x as int) * (o.x as int), gq);
                vstd::arithmetic::div_mod::lemma_small_mod(self.a as nat, self.q as nat);
                lemma_add_mod_cong(
                    n2 as int, 3 * (p.x as int) * (o.x as int),
                    self.a as int, self.a as int, gq);
            }
            (n2 + self.a) % q
        } else {
            proof {
                lemma_mod_shift((o.y as int) - (p.y as int), 1, gq);
            }
            (o.y + q - p.y) % q
        };
        proof {
            lemma_mul_fits_u64(num as int, inv_val as int);
        }
        let l: u64 = (num * inv_val) % q;
        let ghost gl: int = l as int;
        proof {
            lemma_mul_fits_u64(gl, gl);
        }
        let l2: u64 = (l * l) % q;
        let x3: u64 = (l2 + (q - p.x) + (q - o.x)) % q;
        proof {
            vstd::arithmetic::div_mod::lemma_mod_twice(gl * gl, gq);
            lemma_sub_mod_cong(l2 as int, gl * gl, p.x as int, p.x as int, gq);
            lemma_sub_mod_cong(
                (l2 as int) - (p.x as int), gl * gl - (p.x as int),
                o.x as int, o.x as int, gq);
            lemma_mod_shift((l2 as int) - (p.x as int) - (o.x as int), 2, gq);
            assert(x3 as int == (gl * gl - (p.x as int) - (o.x as int)) % gq);
        }
        let d: u64 = (p.x + q - x3) % q;
        proof {
            lemma_mod_shift((p.x as int) - (x3 as int), 1, gq);
            lemma_mul_fits_u64(gl, d as int);
        }
        let e: u64 = (l * d) % q;
        let y3: u64 = (e + (q - p.y)) % q;
        proof {
            vstd::arithmetic::div_mod::lemma_mod_twice((p.x as int) - (x3 as int), gq);
            lemma_mul_mod_cong(gl, gl, d as int, (p.x as int) - (x3 as int), gq);
            vstd::arithmetic::div_mod::lemma_mod_twice(
                gl * ((p.x as int) - (x3 as int)), gq);
            lemma_sub_mod_cong(
                e as int, gl * ((p.x as int) - (x3 as int)),
                p.y as int, p.y as int, gq);
            lemma_mod_shift(
                (e as int) - (p.y as int), 1, gq);
            assert(y3 as int
                == (gl * ((p.x as int) - (x3 as int)) - (p.y as int)) % gq);
        }
        let res = Point { x: x3, y: y3, z: 0 };
        Ok(self.normalize(res))
    }

    /// What doubling returns: the identity for the identity or a point
    /// with `y == 0`, and otherwise the point built from the tangent
    /// slope, normalized with `z == 1`. Reports `NoInverse` when `2y`
    /// is not invertible.
    pub open spec fn spec_double(self, p: Point) -> Result<Point, CurveError> {
        let q = self.q as int;
        if p == Self::spec_identity() {
            Ok(p)
        } else if p.y == 0 {
            Ok(Self::spec_identity())
        } else {
            let den = (2 * (p.y as int)) % q;
            if !coprime(self.q as nat, den as nat) {
                Err(CurveError::NoInverse)
            } else {
                let num = (3 * (p.x as int) * (p.x as int) + (self.a as int)) % q;
                let l = (num * inv_mod(den, q)) % q;
                let x3 = (l * l - 2 * (p.x as int)) % q;
                let y3 = (l * ((p.x as int) - x3) - (p.y as int)) % q;
                Ok(Point { x: x3 as u64, y: y3 as u64, z: 1 })
            }
        }
    }

    /// Doubles a point by the tangent-line formula
    /// `l = (3x^2 + a) / (2y)`, distinct from the chord rule in `add`.
    pub fn double(&self, p: &Point) -> (r: Result<Point, CurveError>)
        requires
            self.wf(),
            p.in_field(self.q as int),
        ensures
            r == self.spec_double(*p),
            r matches Ok(v) ==> v.in_field(self.q as int),
    {
        let ghost gq: int = self.q as int;
        let q = self.q;
        let identity = Point { x: 0, y: 0, z: 0 };
        if *p == identity {
            return Ok(*p);
        }
        if p.y == 0 {
            return Ok(identity);
        }
        let den: u64 = (2 * p.y) % q;
        let inv_den: u64 = match Utils::mod_inv(den, q) {
            Ok(v) => v,
            Err(_) => {
                return Err(CurveError::NoInverse);
            },
        };
        proof {
            assert(has_inv(den as int, gq, inv_den as int));
            lemma_inv_unique(den as int, gq, inv_den as int, inv_mod(den as int, gq));
            lemma_mul_fits_u64((3 * (p.x as int)) % gq, p.x as int);
        }
        let n2: u64 = (((3 * p.x) % q) * p.x) % q;
        let num: u64 = (n2 + self.a) % q;
        proof {
            vstd::arithmetic::div_mod::lemma_mod_twice(3 * (p.x as int), gq);
            lemma_mul_mod_cong(
                (3 * (p.x as int)) % gq, 3 * (p.x as int), p.x as int, p.x as int, gq);
            vstd::arithmetic::div_mod::lemma_mod_twice(
                3 * (p.x as int) * (p.x as int), gq);
            vstd::arithmetic::div_mod::lemma_small_mod(self.a as nat, self.q as nat);
            lemma_add_mod_cong(
                n2 as int, 3 * (p.x as int) * (p.x as int),
                self.a as int, self.a as int, gq);
            lemma_mul_fits_u64(num as int, inv_den as int);
        }
        let l: u64 = (num * inv_den) % q;
        let ghost gl: int = l as int;
        proof {
            lemma_mul_fits_u64(gl, gl);
        }
        let l2: u64 = (l * l) % q;
        let x3: u64 = (l2 + 2 * (q - p.x)) % q;
        proof {
            vstd::arithmetic::div_mod::lemma_mod_twice(gl * gl, gq);
            lemma_sub_mod_cong(l2 as int, gl * gl, 2 * (p.x as int), 2 * (p.x as int), gq);
            lemma_mod_shift((l2 as int) - 2 * (p.x as int), 2, gq);
            assert(x3 as int == (gl * gl - 2 * (p.x as int)) % gq);
        }
        let d: u64 = (p.x + q - x3) % q;
        proof {
            lemma_mod_shift((p.x as int) - (x3 as int), 1, gq);
            lemma_mul_fits_u64(gl, d as int);
        }
        let e: u64 = (l * d) % q;
        let y3: u64 = (e + (q - p.y)) % q;
        proof {
            vstd::arithmetic::div_mod::lemma_mod_twice((p.x as int) - (x3 as int), gq);
            lemma_mul_mod_cong(gl, gl, d as int, (p.x as int) - (x3 as int), gq);
            vstd::arithmetic::div_mod::lemma_mod_twice(
                gl * ((p.x as int) - (x3 as int)), gq);
            lemma_sub_mod_cong(
                e as int, gl * ((p.x as int) - (x3 as int)),
                p.y as int, p.y as int, gq);
            lemma_mod_shift((e as int) - (p.y as int), 1, gq);
            assert(y3 as int
                == (gl * ((p.x as int) - (x3 as int)) - (p.y as int)) % gq);
        }
        Ok(Point { x: x3, y: y3, z: 1 })
    }

    /// The double-and-add recursion behind scalar multiplication: each
    /// step conditionally folds the running multiple `m` into the
    /// accumulator `r` and then doubles `m`, both through the group
    /// law, halving `n` until it is exhausted. The first group-law
    /// failure is reported.
    pub open spec fn spec_mul_step(self, n: nat, r: Point, m: Point) -> Result<
        Point,
        CurveError,
    >
        decreases n,
    {
        if n == 0 {
            Ok(r)
        } else {
            let r1 = if n % 2 == 1 {
                self.spec_add(r, m)
            } else {
                Ok(r)
            };
            match r1 {
                Err(e) => Err(e),
                Ok(rv) => match self.spec_add(m, m) {
                    Err(e) => Err(e),
                    Ok(mv) => self.spec_mul_step(n / 2, rv, mv),
                },
            }
        }
    }

    /// Scalar multiplication as the double-and-add fold started from
    /// the identity, with the final accumulator normalized.
    pub open spec fn spec_mul(self, n: nat, p: Point) -> Result<Point, CurveError> {
        match self.spec_mul_step(n, Self::spec_identity(), p) {
            Err(e) => Err(e),
            Ok(r) => Ok(self.spec_normalize(r)),
        }
    }

    /// Multiplies a point by the scalar `n` with double-and-add, in
    /// O(log n) group operations.
    pub fn mul(&self, n: u64, p: &Point) -> (r: Result<Point, CurveError>)
        requires
            self.wf(),
            p.in_field(self.q as int),
        ensures
            r == self.spec_mul(n as nat, *p),
            r matches Ok(v) ==> v.in_field(self.q as int),
    {
        let mut n_c: u64 = n;
        let mut r_acc = Point { x: 0, y: 0, z: 0 };
        let mut m2: Point = *p;
        while n_c > 0
            invariant
                r_acc.in_field(self.q as int),
                m2.in_field(self.q as int),
                self.spec_mul_step(n_c as nat, r_acc, m2)
                    == self.spec_mul_step(n as nat, Self::spec_identity(), *p),
            decreases n_c,
        {
            let ghost n0: nat = n_c as nat;
            let ghost racc0: Point = r_acc;
            let ghost m0: Point = m2;
            if n_c % 2 == 1 {
                match self.add(&r_acc, &m2) {
                    Ok(v) => {
                        r_acc = v;
                    },
                    Err(e) => {
                        return Err(e);
                    },
                }
            }
            m2 = match self.add(&m2, &m2) {
                Ok(v) => v,
                Err(e) => {
                    return Err(e);
                },
            };
            n_c = n_c / 2;
            proof {
                assert(self.spec_mul_step(n0, racc0, m0)
                    == self.spec_mul_step(n_c as nat, r_acc, m2));
            }
        }
        Ok(self.normalize(r_acc))
    }

    /// The brute-force order search, counted from a running multiple
    /// `cur` that already stands for `ord` copies of `g`: group-add `g`
    /// until the identity appears, giving up once the count passes the
    /// modulus. The counter guard in front only keeps the recursion
    /// well-founded; the search itself starts at `ord == 1` and stops
    /// by `q + 1`.
    pub open spec fn spec_order_from(self, cur: Point, g: Point, ord: int) -> Result<
        u64,
        CurveError,
    >
        decreases self.q + 1 - ord,
    {
        if ord < 1 || ord > self.q + 1 {
            Err(CurveError::OrderNotFound)
        } else if cur == Self::spec_identity() {
            Ok(ord as u64)
        } else {
            match self.spec_add(cur, g) {
                Err(e) => Err(e),
                Ok(c2) => if ord + 1 > self.q {
                    Err(CurveError::OrderNotFound)
                } else {
                    self.spec_order_from(c2, g, ord + 1)
                },
            }
        }
    }

    /// The order of a generator: the least positive `n` with
    /// `n * g == identity`, found by repeated addition; rejects an
    /// invalid or identity generator, and gives up past `q` steps.
    pub open spec fn spec_order(self, g: Point) -> Result<u64, CurveError> {
        if !self.spec_is_valid(g) || g == Self::spec_identity() {
            Err(CurveError::InvalidPoint)
        } else {
            self.spec_order_from(g, g, 1)
        }
    }

    /// Computes the order of the generator `g` by repeated addition,
    /// failing with `OrderNotFound` when the count exceeds `q`.
    pub fn order(&self, g: &Point) -> (r: Result<u64, CurveError>)
        requires
            self.wf(),
            g.in_field(self.q as int),
        ensures
            r == self.spec_order(*g),
    {
        let identity = Point { x: 0, y: 0, z: 0 };
        if !self.is_valid(g) || *g == identity {
            return Err(CurveError::InvalidPoint);
        }
        let mut ord: u64 = 1;
        let mut current: Point = *g;
        while current != identity
            invariant
                1 <= ord <= self.q,
                current.in_field(self.q as int),
                self.spec_order_from(current, *g, ord as int)
                    == self.spec_order_from(*g, *g, 1),
            decreases self.q - ord,
        {
            ord = ord + 1;
            current = match self.add(&current, g) {
                Ok(v) => v,
                Err(e) => {
                    return Err(e);
                },
            };
            if ord > self.q {
                return Err(CurveError::OrderNotFound);
            }
        }
        Ok(ord)
    }

    /// The curve equation's right-hand side at `x`, reduced modulo `q`.
    pub open spec fn spec_rhs(self, x: int) -> int {
        (x * x * x + (self.a as int) * x + (self.b as int)) % (self.q as int)
    }

    /// Recovers the two points sharing the coordinate `x`: the returned
    /// points are `(x, y)` and `(x, q - y)` for a square root `y` of
    /// the curve equation's right-hand side, both normalized and both
    /// on the curve. Rejects an unreduced coordinate, and reports
    /// `NoSquareRoot` when no root is found — in particular whenever
    /// the right-hand side is a nonzero Euler non-residue.
    pub fn at(&self, x: u64) -> (r: Result<(Point, Point), CurveError>)
        requires
            self.wf(),
        ensures
            match r {
                Ok(pair) => {
                    &&& x < self.q
                    &&& pair.0.x == x && pair.1.x == x
                    &&& pair.0.z == 1 && pair.1.z == 1
                    &&& pair.0.in_field(self.q as int) && pair.1.in_field(self.q as int)
                    &&& ((pair.0.y as int) * (pair.0.y as int)) % (self.q as int)
                        == self.spec_rhs(x as int)
                    &&& pair.1.y as int == ((self.q as int) - (pair.0.y as int)) % (
                        self.q as int)
                    &&& self.spec_is_valid(pair.0)
                    &&& self.spec_is_valid(pair.1)
                },
                Err(e) => (e == CurveError::InvalidPoint && x >= self.q)
                    || (e == CurveError::NoSquareRoot && x < self.q),
            },
            x >= self.q ==> r == Err::<(Point, Point), CurveError>(CurveError::InvalidPoint),
            x < self.q ==> ((r is Err)
                <==> spec_tonelli(self.spec_rhs(x as int), self.q as int) is Err),
            x < self.q && spec_tonelli(self.spec_rhs(x as int), self.q as int) is Ok
                ==> (r matches Ok(pair) && pair.0.y
                    == spec_tonelli(self.spec_rhs(x as int), self.q as int)->Ok_0),
            x < self.q && self.spec_rhs(x as int) != 0
                && vstd::arithmetic::power::pow(
                    self.spec_rhs(x as int), (((self.q - 1) / 2) as nat),
                ) % (self.q as int) != 1
                ==> r == Err::<(Point, Point), CurveError>(CurveError::NoSquareRoot),
    {
        if x >= self.q {
            return Err(CurveError::InvalidPoint);
        }
        let ghost gq: int = self.q as int;
        let ghost gx: int = x as int;
        let ghost ga: int = self.a as int;
        let q = self.q;
        proof {
            lemma_mul_fits_u64(gx, gx);
        }
        let x2: u64 = (x * x) % q;
        proof {
            lemma_mul_fits_u64(x2 as int, gx);
            lemma_mul_fits_u64(ga, gx);
        }
        let x3: u64 = (x2 * x) % q;
        let ax: u64 = (self.a * x) % q;
        let rhs: u64 = (x3 + ax + self.b) % q;
        proof {
            vstd::arithmetic::div_mod::lemma_mod_twice(gx * gx, gq);
            lemma_mul_mod_cong(x2 as int, gx * gx, gx, gx, gq);
            vstd::arithmetic::div_mod::lemma_mod_twice(gx * gx * gx, gq);
            vstd::arithmetic::div_mod::lemma_mod_twice(ga * gx, gq);
            vstd::arithmetic::div_mod::lemma_small_mod(self.b as nat, self.q as nat);
            lemma_add_mod_cong(x3 as int, gx * gx * gx, ax as int, ga * gx, gq);
            lemma_add_mod_cong(
                (x3 + ax) as int, gx * gx * gx + ga * gx,
                self.b as int, self.b as int, gq);
            assert(rhs as int == self.spec_rhs(gx));
        }
        match Utils::tonelli_shanks(rhs, q) {
            Err(_) => Err(CurveError::NoSquareRoot),
            Ok(y) => {
                let neg_y: u64 = (q - y) % q;
                let p1 = self.normalize(Point { x, y, z: 1 });
                let p2 = self.normalize(Point { x, y: neg_y, z: 1 });
                proof {
                    vstd::arithmetic::div_mod::lemma_small_mod(x as nat, q as nat);
                    vstd::arithmetic::div_mod::lemma_small_mod(y as nat, q as nat);
                    vstd::arithmetic::div_mod::lemma_small_mod(rhs as nat, q as nat);
                    vstd::arithmetic::div_mod::lemma_small_mod(neg_y as nat, q as nat);
                    // the negated root squares to the same residue
                    if y == 0 {
                        vstd::arithmetic::div_mod::lemma_mod_self_0(gq);
                    } else {
                        let gy: int = y as int;
                        vstd::arithmetic::div_mod::lemma_small_mod(
                            (q - y) as nat, q as nat);
                        assert((gq - gy) * (gq - gy) == gy * gy + (gq - 2 * gy) * gq)
                            by (nonlinear_arith);
                        lemma_mod_shift(gy * gy, gq - 2 * gy, gq);
                    }
                    assert(p1 == (Point { x, y, z: 1u64 }));
                    assert(p2 == (Point { x, y: neg_y, z: 1u64 }));
                }
                Ok((p1, p2))
            },
        }
    }

    /// Relies on the `format!` macro of std to render the curve
    /// equation for humans; purely presentational.
    #[verifier::external_body]
    pub fn display(&self) -> String {
        format!("(y**2 = x**3 + {} * x + {}) mod {}", self.a, self.b, self.q)
    }


    /// A group element: the identity sentinel or a point on the curve.
    /// (Other points with both affine coordinates zero also pass
    /// `is_valid`, but the nonzero constant term keeps `(0, 0)` off the
    /// curve, so they are not group elements.)
    pub open spec fn spec_group_point(self, p: Point) -> bool {
        p == Self::spec_identity() || self.on_curve(p)
    }

    /// The congruences that tie the computed slope, denominator and
    /// output coordinates of the group law's formula branch to the
    /// cubic-closure argument.
    proof fn lemma_formula_on_curve(self, p: Point, o: Point)
        requires
            self.wf(),
            self.on_curve(p),
            self.on_curve(o),
            p != Self::spec_identity(),
            o != Self::spec_identity(),
            !(p.x == o.x && (p.y != o.y || p.y == 0)),
            coprime(self.q as nat, (if p.x == o.x {
                (2 * (p.y as int)) % (self.q as int)
            } else {
                ((o.x as int) - (p.x as int)) % (self.q as int)
            }) as nat),
        ensures
            ({
                let q = self.q as int;
                let den = if p.x == o.x {
                    (2 * (p.y as int)) % q
                } else {
                    ((o.x as int) - (p.x as int)) % q
                };
                let num = if p.x == o.x {
                    (3 * (p.x as int) * (o.x as int) + (self.a as int)) % q
                } else {
                    ((o.y as int) - (p.y as int)) % q
                };
                let l = (num * inv_mod(den, q)) % q;
                let x3 = (l * l - (p.x as int) - (o.x as int)) % q;
                let y3 = (l * ((p.x as int) - x3) - (p.y as int)) % q;
                ((y3 * y3) % q == (x3 * x3 * x3 + (self.a as int) * x3 + (self.b as int)) % q)
                    && 0 <= x3 < q && 0 <= y3 < q
            }),
    {
        let gq: int = self.q as int;
        let ga: int = self.a as int;
        let gb: int = self.b as int;
        let x1: int = p.x as int;
        let y1: int = p.y as int;
        let x2: int = o.x as int;
        let y2: int = o.y as int;
        let den: int = if p.x == o.x { (2 * y1) % gq } else { (x2 - x1) % gq };
        let num: int = if p.x == o.x { (3 * x1 * x2 + ga) % gq } else { (y2 - y1) % gq };
        vstd::arithmetic::div_mod::lemma_mod_bound(
            if p.x == o.x { 2 * y1 } else { x2 - x1 }, gq);
        lemma_coprime_invertible(den, gq);
        let vv: int = inv_mod(den, gq);
        let l: int = (num * vv) % gq;
        let x3: int = (l * l - x1 - x2) % gq;
        let y3: int = (l * (x1 - x3) - y1) % gq;
        vstd::arithmetic::div_mod::lemma_mod_bound(num * vv, gq);
        vstd::arithmetic::div_mod::lemma_mod_bound(l * l - x1 - x2, gq);
        vstd::arithmetic::div_mod::lemma_mod_bound(l * (x1 - x3) - y1, gq);
        vstd::arithmetic::div_mod::lemma_mod_bound(
            if p.x == o.x { 3 * x1 * x2 + ga } else { y2 - y1 }, gq);
        // the slope satisfies its defining congruence:
        // l * (original denominator) == original numerator (mod q)
        let oden: int = if p.x == o.x { 2 * y1 } else { x2 - x1 };
        let onum: int = if p.x == o.x { 3 * x1 * x1 + ga } else { y2 - y1 };
        assert((l * oden) % gq == onum % gq) by {
            vstd::arithmetic::div_mod::lemma_mul_mod_noop_right(l, oden, gq);
            vstd::arithmetic::div_mod::lemma_mod_twice(num * vv, gq);
            lemma_mul_mod_cong(l, num * vv, den, den, gq);
            vstd::arithmetic::mul::lemma_mul_is_associative(num, vv, den);
            vstd::arithmetic::div_mod::lemma_mul_mod_noop_right(num, vv * den, gq);
            vstd::arithmetic::mul::lemma_mul_is_commutative(vv, den);
            vstd::arithmetic::div_mod::lemma_small_mod(1nat, self.q as nat);
            assert(num * 1 == num) by (nonlinear_arith);
            vstd::arithmetic::div_mod::lemma_mod_twice(
                if p.x == o.x { 3 * x1 * x2 + ga } else { y2 - y1 }, gq);
        };
        vstd::arithmetic::div_mod::lemma_mod_twice(l * l - x1 - x2, gq);
        vstd::arithmetic::div_mod::lemma_mod_twice(l * (x1 - x3) - y1, gq);
        assert(1int * y3 * y3 == y3 * y3) by (nonlinear_arith);
        assert(0int * x3 * x3 == 0) by (nonlinear_arith);
        assert(1int * y1 * y1 == y1 * y1) by (nonlinear_arith);
        assert(0int * x1 * x1 == 0) by (nonlinear_arith);
        assert(1int * y2 * y2 == y2 * y2) by (nonlinear_arith);
        assert(0int * x2 * x2 == 0) by (nonlinear_arith);
        if p.x == o.x {
            // tangent: the operands coincide in both coordinates
            assert(x2 == x1 && y2 == y1);
            assert(1int * l * l - 0 - 2 * x1 == l * l - x1 - x2) by (nonlinear_arith)
                requires x2 == x1;
            assert(x3 % gq == (1int * l * l - 0 - 2 * x1) % gq);
            lemma_cubic_tangent_closed(gq, 1, 0, ga, gb, x1, y1, l, x3, y3);
        } else {
            assert(1int * l * l - 0 - x1 - x2 == l * l - x1 - x2) by (nonlinear_arith);
            assert(x3 % gq == (1int * l * l - 0 - x1 - x2) % gq);
            lemma_cubic_chord_closed(gq, 1, 0, ga, gb, x1, y1, x2, y2, l, vv, x3, y3);
        }
    }

    /// Law: the group law is closed. Adding two group elements, when
    /// it succeeds, yields a group element (in particular a valid
    /// point).
    pub proof fn lemma_add_closed(self, p: Point, o: Point)
        requires
            self.wf(),
            self.spec_group_point(p),
            self.spec_group_point(o),
        ensures
            self.spec_add(p, o) matches Ok(v)
                ==> self.spec_group_point(v) && self.spec_is_valid(v),
    {
        let gq: int = self.q as int;
        if p == Self::spec_identity() || o == Self::spec_identity()
            || (p.x == o.x && (p.y != o.y || p.y == 0)) {
            // pass-through and negation branches return a group element
        } else if self.spec_add(p, o) is Ok {
            let v = self.spec_add(p, o)->Ok_0;
            self.lemma_formula_on_curve(p, o);
            let x1: int = p.x as int;
            let x2: int = o.x as int;
            let den: int = if p.x == o.x { (2 * (p.y as int)) % gq } else { (x2 - x1) % gq };
            let num: int = if p.x == o.x {
                (3 * x1 * x2 + (self.a as int)) % gq
            } else {
                ((o.y as int) - (p.y as int)) % gq
            };
            let l: int = (num * inv_mod(den, gq)) % gq;
            let x3: int = (l * l - x1 - x2) % gq;
            let y3: int = (l * (x1 - x3) - (p.y as int)) % gq;
            let raw = Point { x: x3 as u64, y: y3 as u64, z: 0 };
            assert(v == self.spec_normalize(raw));
            if raw == Self::spec_identity() {
            } else {
                vstd::arithmetic::div_mod::lemma_small_mod(x3 as nat, self.q as nat);
                vstd::arithmetic::div_mod::lemma_small_mod(y3 as nat, self.q as nat);
                assert(self.on_curve(v));
            }
        }
    }

    /// Law: doubling is closed. Doubling a group element, when it
    /// succeeds, yields a group element.
    pub proof fn lemma_double_closed(self, p: Point)
        requires
            self.wf(),
            self.spec_group_point(p),
        ensures
            self.spec_double(p) matches Ok(v)
                ==> self.spec_group_point(v) && self.spec_is_valid(v),
    {
        let gq: int = self.q as int;
        if p == Self::spec_identity() || p.y == 0 {
        } else if self.spec_double(p) is Ok {
            let v = self.spec_double(p)->Ok_0;
            self.lemma_formula_on_curve(p, p);
            let x1: int = p.x as int;
            let den: int = (2 * (p.y as int)) % gq;
            let num: int = (3 * x1 * x1 + (self.a as int)) % gq;
            let l: int = (num * inv_mod(den, gq)) % gq;
            let x3c: int = (l * l - x1 - x1) % gq;
            let y3c: int = (l * (x1 - x3c) - (p.y as int)) % gq;
            // spec_double merges the two x terms; the values agree
            assert(l * l - x1 - x1 == l * l - 2 * x1);
            assert(v == (Point { x: x3c as u64, y: y3c as u64, z: 1 }));
            assert(self.on_curve(v));
        }
    }

    /// Law: scalar multiplication is closed, step by step — the
    /// double-and-add fold keeps both the accumulator and the running
    /// multiple inside the group.
    proof fn lemma_mul_step_closed(self, n: nat, r: Point, m: Point)
        requires
            self.wf(),
            self.spec_group_point(r),
            self.spec_group_point(m),
        ensures
            self.spec_mul_step(n, r, m) matches Ok(v) ==> self.spec_group_point(v),
        decreases n,
    {
        if n > 0 {
            self.lemma_add_closed(r, m);
            self.lemma_add_closed(m, m);
            let r1 = if n % 2 == 1 {
                self.spec_add(r, m)
            } else {
                Ok(r)
            };
            if r1 is Ok && self.spec_add(m, m) is Ok {
                self.lemma_mul_step_closed(n / 2, r1->Ok_0, self.spec_add(m, m)->Ok_0);
            }
        }
    }

    /// Law: scalar multiplication is closed. Multiplying a group
    /// element by any scalar, when it succeeds, yields a group element
    /// (in particular a valid point).
    pub proof fn lemma_mul_closed(self, n: nat, p: Point)
        requires
            self.wf(),
            self.spec_group_point(p),
        ensures
            self.spec_mul(n, p) matches Ok(v)
                ==> self.spec_group_point(v) && self.spec_is_valid(v),
    {
        self.lemma_mul_step_closed(n, Self::spec_identity(), p);
        if self.spec_mul_step(n, Self::spec_identity(), p) is Ok {
            let r = self.spec_mul_step(n, Self::spec_identity(), p)->Ok_0;
            let v = self.spec_normalize(r);
            if r == Self::spec_identity() {
            } else {
                // normalization reduces the coordinates, which keeps
                // the equation satisfied
                let gq: int = self.q as int;
                let rx: int = r.x as int;
                let ry: int = r.y as int;
                vstd::arithmetic::div_mod::lemma_mod_twice(rx, gq);
                vstd::arithmetic::div_mod::lemma_mod_twice(ry, gq);
                lemma_mul_mod_cong(ry % gq, ry, ry % gq, ry, gq);
                lemma_mul_mod_cong(rx % gq, rx, rx % gq, rx, gq);
                vstd::arithmetic::div_mod::lemma_mod_twice(rx * rx, gq);
                lemma_mul_mod_cong((rx * rx) % gq, rx * rx, rx % gq, rx, gq);
                lemma_mul_mod_cong(self.a as int, self.a as int, rx % gq, rx, gq);
                assert(((rx % gq) * (rx % gq)) % gq == (rx * rx) % gq);
                assert((((rx % gq) * (rx % gq)) % gq * (rx % gq)) % gq
                    == (rx * rx * rx) % gq) by {
                    vstd::arithmetic::div_mod::lemma_mul_mod_noop_left(
                        (rx % gq) * (rx % gq), rx % gq, gq);
                    lemma_mul_mod_cong((rx % gq) * (rx % gq), rx * rx, rx % gq, rx, gq);
                };
                assert(((rx % gq) * (rx % gq)) * (rx % gq)
                    == (rx % gq) * (rx % gq) * (rx % gq));
                // piece the equation together for the reduced point
                vstd::arithmetic::div_mod::lemma_mod_twice(rx * rx * rx, gq);
                vstd::arithmetic::div_mod::lemma_mod_twice((self.a as int) * rx, gq);
                assert((rx % gq) * (rx % gq) * (rx % gq) % gq == (rx * rx * rx) % gq) by {
                    vstd::arithmetic::div_mod::lemma_mul_mod_noop_left(
                        (rx % gq) * (rx % gq), rx % gq, gq);
                    lemma_mul_mod_cong((rx % gq) * (rx % gq), rx * rx, rx % gq, rx, gq);
                };
                lemma_add_mod_cong(
                    (rx % gq) * (rx % gq) * (rx % gq), rx * rx * rx,
                    (self.a as int) * (rx % gq), (self.a as int) * rx, gq);
                lemma_add_mod_cong(
                    (rx % gq) * (rx % gq) * (rx % gq) + (self.a as int) * (rx % gq),
                    rx * rx * rx + (self.a as int) * rx,
                    self.b as int, self.b as int, gq);
                assert(self.on_curve(v));
            }
        }
    }


    /// The group law's Ok results stay canonical when its operands are.
    proof fn lemma_add_ok_in_field(self, p: Point, o: Point)
        requires
            self.wf(),
            p.in_field(self.q as int),
            o.in_field(self.q as int),
        ensures
            self.spec_add(p, o) matches Ok(v) ==> v.in_field(self.q as int),
    {
        let gq: int = self.q as int;
        if self.spec_add(p, o) is Ok {
            if p == Self::spec_identity() || o == Self::spec_identity()
                || (p.x == o.x && (p.y != o.y || p.y == 0)) {
            } else {
                let den = if p.x == o.x {
                    (2 * (p.y as int)) % gq
                } else {
                    ((o.x as int) - (p.x as int)) % gq
                };
                let num = if p.x == o.x {
                    (3 * (p.x as int) * (o.x as int) + (self.a as int)) % gq
                } else {
                    ((o.y as int) - (p.y as int)) % gq
                };
                let l = (num * inv_mod(den, gq)) % gq;
                let x3 = (l * l - (p.x as int) - (o.x as int)) % gq;
                let y3 = (l * ((p.x as int) - x3) - (p.y as int)) % gq;
                vstd::arithmetic::div_mod::lemma_mod_bound(
                    l * l - (p.x as int) - (o.x as int), gq);
                vstd::arithmetic::div_mod::lemma_mod_bound(
                    l * ((p.x as int) - x3) - (p.y as int), gq);
                let raw = Point { x: x3 as u64, y: y3 as u64, z: 0 };
                if raw != Self::spec_identity() {
                    vstd::arithmetic::div_mod::lemma_small_mod(x3 as nat, self.q as nat);
                    vstd::arithmetic::div_mod::lemma_small_mod(y3 as nat, self.q as nat);
                }
            }
        }
    }

    /// Law: on a prime modulus the group law is total — adding two
    /// canonical group elements never reports an error.
    pub proof fn lemma_add_total(self, p: Point, o: Point)
        requires
            self.wf(),
            is_prime(self.q as nat),
            p.in_field(self.q as int),
            o.in_field(self.q as int),
            self.spec_group_point(p),
            self.spec_group_point(o),
        ensures
            self.spec_add(p, o) is Ok,
    {
        let gq: int = self.q as int;
        if p == Self::spec_identity() || o == Self::spec_identity()
            || (p.x == o.x && (p.y != o.y || p.y == 0)) {
        } else {
            let x1: int = p.x as int;
            let y1: int = p.y as int;
            let x2: int = o.x as int;
            let den: int = if p.x == o.x {
                (2 * y1) % gq
            } else {
                (x2 - x1) % gq
            };
            if p.x == o.x {
                // tangent: here y1 is nonzero, and 2*y1 misses every
                // multiple of the odd modulus in (0, 2q)
                assert(0 < 2 * y1 < 2 * gq);
                if 2 * y1 < gq {
                    vstd::arithmetic::div_mod::lemma_small_mod(
                        (2 * y1) as nat, self.q as nat);
                    assert(den == 2 * y1);
                } else {
                    assert(2 * y1 != gq);
                    lemma_mod_shift(2 * y1 - gq, 1, gq);
                    vstd::arithmetic::div_mod::lemma_small_mod(
                        (2 * y1 - gq) as nat, self.q as nat);
                    assert(den == 2 * y1 - gq);
                }
                assert(1 <= den < gq);
            } else {
                // chord: the x-coordinates differ and are reduced, so
                // their difference is a nonzero residue
                if x2 > x1 {
                    vstd::arithmetic::div_mod::lemma_small_mod(
                        (x2 - x1) as nat, self.q as nat);
                    assert(den == x2 - x1);
                } else {
                    lemma_mod_shift(x2 - x1, 1, gq);
                    vstd::arithmetic::div_mod::lemma_small_mod(
                        (x2 - x1 + gq) as nat, self.q as nat);
                    assert(den == x2 - x1 + gq);
                }
                assert(1 <= den < gq);
            }
            lemma_prime_coprime(self.q as nat, den as nat);
        }
    }

    /// Law: on a prime modulus doubling is total — it never reports an
    /// error.
    pub proof fn lemma_double_total(self, p: Point)
        requires
            self.wf(),
            is_prime(self.q as nat),
            p.in_field(self.q as int),
        ensures
            self.spec_double(p) is Ok,
    {
        let gq: int = self.q as int;
        if p == Self::spec_identity() || p.y == 0 {
        } else {
            let y1: int = p.y as int;
            let den: int = (2 * y1) % gq;
            assert(0 < 2 * y1 < 2 * gq);
            if 2 * y1 < gq {
                vstd::arithmetic::div_mod::lemma_small_mod((2 * y1) as nat, self.q as nat);
                assert(den == 2 * y1);
            } else {
                assert(2 * y1 != gq);
                lemma_mod_shift(2 * y1 - gq, 1, gq);
                vstd::arithmetic::div_mod::lemma_small_mod(
                    (2 * y1 - gq) as nat, self.q as nat);
                assert(den == 2 * y1 - gq);
            }
            assert(1 <= den < gq);
            lemma_prime_coprime(self.q as nat, den as nat);
        }
    }

    /// Totality of the double-and-add fold, step by step.
    proof fn lemma_mul_step_total(self, n: nat, r: Point, m: Point)
        requires
            self.wf(),
            is_prime(self.q as nat),
            r.in_field(self.q as int),
            m.in_field(self.q as int),
            self.spec_group_point(r),
            self.spec_group_point(m),
        ensures
            self.spec_mul_step(n, r, m) is Ok,
        decreases n,
    {
        if n > 0 {
            self.lemma_add_total(r, m);
            self.lemma_add_total(m, m);
            self.lemma_add_closed(r, m);
            self.lemma_add_closed(m, m);
            self.lemma_add_ok_in_field(r, m);
            self.lemma_add_ok_in_field(m, m);
            let rv = if n % 2 == 1 {
                self.spec_add(r, m)->Ok_0
            } else {
                r
            };
            let mv = self.spec_add(m, m)->Ok_0;
            self.lemma_mul_step_total(n / 2, rv, mv);
        }
    }

    /// Law: on a prime modulus scalar multiplication is total — a
    /// canonical group element times any scalar never reports an error.
    pub proof fn lemma_mul_total(self, n: nat, p: Point)
        requires
            self.wf(),
            is_prime(self.q as nat),
            p.in_field(self.q as int),
            self.spec_group_point(p),
        ensures
            self.spec_mul(n, p) is Ok,
    {
        self.lemma_mul_step_total(n, Self::spec_identity(), p);
    }

    /// Law: adding the identity on either side returns the other
    /// operand unchanged, for every valid point.
    pub proof fn lemma_add_identity(self, p: Point)
        requires
            self.wf(),
            self.spec_is_valid(p),
        ensures
            self.spec_add(Self::spec_identity(), p) == Ok::<Point, CurveError>(p),
            self.spec_add(p, Self::spec_identity()) == Ok::<Point, CurveError>(p),
    {
    }

    /// Law: multiplying any point by the scalar zero gives the
    /// identity.
    pub proof fn lemma_mul_zero(self, p: Point)
        requires
            self.wf(),
        ensures
            self.spec_mul(0, p) == Ok::<Point, CurveError>(Self::spec_identity()),
    {
        assert(self.spec_mul_step(0, Self::spec_identity(), p)
            == Ok::<Point, CurveError>(Self::spec_identity()));
    }

    /// Law: multiplying a valid point by the scalar one returns the
    /// point itself, normalized; the only way it can fail is the
    /// doubling of `p` that double-and-add performs alongside.
    pub proof fn lemma_mul_one(self, p: Point)
        requires
            self.wf(),
            p.in_field(self.q as int),
            self.spec_is_valid(p),
        ensures
            self.spec_mul(1, p) matches Ok(v) ==> v == self.spec_normalize(p),
            self.spec_mul(1, p) matches Err(e)
                ==> self.spec_add(p, p) == Err::<Point, CurveError>(e),
    {
        self.lemma_add_identity(p);
        match self.spec_add(p, p) {
            Ok(mv) => {
                assert(self.spec_mul_step(0, p, mv) == Ok::<Point, CurveError>(p));
            },
            Err(_) => {
            },
        }
    }

    /// Law: multiplying a valid point by the scalar two agrees with
    /// `double` on both affine coordinates whenever it succeeds. (The
    /// normalization marker can differ only for a result with both
    /// coordinates zero, which no curve with a nonzero constant term
    /// contains.)
    pub proof fn lemma_mul_two(self, p: Point)
        requires
            self.wf(),
            p.in_field(self.q as int),
            self.spec_is_valid(p),
        ensures
            self.spec_mul(2, p) matches Ok(v) ==> (self.spec_double(p) matches Ok(w)
                && v.x == w.x && v.y == w.y),
    {
        reveal_with_fuel(WeierstrassECC::spec_mul_step, 4);
        let gq: int = self.q as int;
        match self.spec_add(p, p) {
            Err(_) => {
                assert(self.spec_mul(2, p) == self.spec_add(p, p));
            },
            Ok(m1) => {
                assert(self.spec_mul_step(2, Self::spec_identity(), p)
                    == self.spec_mul_step(1, Self::spec_identity(), m1));
                // `double` takes the matching branch and produces a point
                // with the same affine coordinates as m1
                if p == Self::spec_identity() {
                    assert(m1 == p);
                    assert(self.spec_double(p) == Ok::<Point, CurveError>(p));
                } else if p.y == 0 {
                    assert(m1 == Self::spec_identity());
                    assert(self.spec_double(p)
                        == Ok::<Point, CurveError>(Self::spec_identity()));
                } else {
                    let den = (2 * (p.y as int)) % gq;
                    let num = (3 * (p.x as int) * (p.x as int) + (self.a as int)) % gq;
                    let l = (num * inv_mod(den, gq)) % gq;
                    let x3 = (l * l - (p.x as int) - (p.x as int)) % gq;
                    let y3 = (l * ((p.x as int) - x3) - (p.y as int)) % gq;
                    assert(l * l - (p.x as int) - (p.x as int)
                        == l * l - 2 * (p.x as int));
                    vstd::arithmetic::div_mod::lemma_mod_bound(l * l - 2 * (p.x as int), gq);
                    vstd::arithmetic::div_mod::lemma_mod_bound(
                        l * ((p.x as int) - x3) - (p.y as int), gq);
                    assert(m1 == self.spec_normalize(
                        Point { x: x3 as u64, y: y3 as u64, z: 0 }));
                    assert(self.spec_double(p)
                        == Ok::<Point, CurveError>(Point { x: x3 as u64, y: y3 as u64, z: 1 }));
                    vstd::arithmetic::div_mod::lemma_small_mod(x3 as nat, self.q as nat);
                    vstd::arithmetic::div_mod::lemma_small_mod(y3 as nat, self.q as nat);
                    assert(m1.x == x3 as u64 && m1.y == y3 as u64);
                }
                if self.spec_is_valid(m1) {
                    self.lemma_add_identity(m1);
                    assert(self.spec_add(Self::spec_identity(), m1)
                        == Ok::<Point, CurveError>(m1));
                    match self.spec_add(m1, m1) {
                        Ok(m2) => {
                            assert(self.spec_mul_step(1, Self::spec_identity(), m1)
                                == self.spec_mul_step(0, m1, m2));
                            assert(self.spec_mul_step(0, m1, m2)
                                == Ok::<Point, CurveError>(m1));
                            // m1 is already canonical, so normalizing it is
                            // the identity map
                            if m1 != Self::spec_identity() {
                                vstd::arithmetic::div_mod::lemma_small_mod(
                                    m1.x as nat, self.q as nat);
                                vstd::arithmetic::div_mod::lemma_small_mod(
                                    m1.y as nat, self.q as nat);
                                assert(self.spec_normalize(m1) == m1);
                            }
                            assert(self.spec_mul(2, p) == Ok::<Point, CurveError>(m1));
                        },
                        Err(e) => {
                            assert(self.spec_mul_step(1, Self::spec_identity(), m1)
                                == Err::<Point, CurveError>(e));
                        },
                    }
                } else {
                    assert(self.spec_add(Self::spec_identity(), m1)
                        == Err::<Point, CurveError>(CurveError::InvalidPoint));
                    assert(self.spec_mul_step(1, Self::spec_identity(), m1)
                        == Err::<Point, CurveError>(CurveError::InvalidPoint));
                }
            },
        }
    }
}

} // verus!

//! Montgomery curves `B*y^2 = x^3 + A*x^2 + x (mod q)` with the
//! chord-and-tangent group law (the tangent slope differs from the
//! Weierstrass one by the two curve coefficients). The group identity
//! is `(0, 1, 0)`; coordinate recovery is not supported.

use vstd::prelude::*;
use crate::ecc::CurveError;
use crate::point::Point;
use crate::utils::{
    Utils, coprime, has_inv, inv_mod, lemma_inv_unique, lemma_mul_mod_cong,
    lemma_add_mod_cong, lemma_sub_mod_cong, lemma_mod_shift, lemma_mul_fits_u64,
    lemma_coprime_invertible, lemma_cubic_chord_closed, lemma_cubic_tangent_closed,
    is_prime, lemma_prime_coprime, lemma_prime_odd,
};

verus! {

/// A Montgomery curve `B*y^2 = x^3 + A*x^2 + x (mod q)`.
#[allow(non_snake_case)]
pub struct MontgomeryCurve {
    pub A: u64,
    pub B: u64,
    pub q: u64,
    /// The caller-supplied group order; stored, not derived.
    pub order: u64,
    /// The identity point `(0, 1, 0)`.
    pub zero: Point,
}

impl MontgomeryCurve {
    /// Well-formed parameters: a toy-sized modulus above 2, nonzero
    /// reduced coefficients, and the identity point consistent.
    pub open spec fn wf(self) -> bool {
        &&& 2 < self.q <= 0xFFFF_FFFF
        &&& 0 < self.A < self.q
        &&& 0 < self.B < self.q
        &&& self.zero == (Point { x: 0, y: 1, z: 0 })
    }

    /// The group identity of the Montgomery model.
    pub open spec fn spec_identity() -> Point {
        Point { x: 0, y: 1, z: 0 }
    }

    /// A valid point: the identity `(0, 1, 0)` or a point satisfying
    /// `B*y^2 = x^3 + A*x^2 + x (mod q)`.
    pub open spec fn spec_is_valid(self, p: Point) -> bool {
        let q = self.q as int;
        let x = p.x as int;
        let y = p.y as int;
        p == Self::spec_identity()
            || ((self.B as int) * y * y) % q
                == (x * x * x + (self.A as int) * x * x + x) % q
    }

    /// Creates a new Montgomery curve from nonzero reduced
    /// coefficients and a caller-supplied group order.
    #[allow(non_snake_case)]
    pub fn new(A: u64, B: u64, q: u64, order: u64) -> (r: Self)
        requires
            2 < q <= 0xFFFF_FFFF,
            0 < A < q,
            0 < B < q,
        ensures
            r.A == A && r.B == B && r.q == q && r.order == order,
            r.wf(),
    {
        let zero = Point { x: 0, y: 1, z: 0 };
        MontgomeryCurve { A, B, q, order, zero }
    }

    /// Whether a point is the identity sentinel.
    fn is_zero(&self, p: &Point) -> (r: bool)
        requires
            self.wf(),
        ensures
            r == (*p == Self::spec_identity()),
    {
        *p == self.zero
    }

    /// Decides validity: the identity, or the defining equation.
    pub fn is_valid(&self, p: &Point) -> (r: bool)
        requires
            self.wf(),
        ensures
            r == self.spec_is_valid(*p),
    {
        if self.is_zero(p) {
            return true;
        }
        let ghost gq: int = self.q as int;
        let ghost gx: int = p.x as int;
        let ghost gy: int = p.y as int;
        let ghost gA: int = self.A as int;
        let ghost gB: int = self.B as int;
        let q = self.q;
        let xq: u64 = p.x % q;
        let yq: u64 = p.y % q;
        proof {
            lemma_mul_fits_u64(gB, yq as int);
        }
        let b1: u64 = (self.B * yq) % q;
        proof {
            lemma_mul_fits_u64(b1 as int, yq as int);
            lemma_mul_fits_u64(xq as int, xq as int);
        }
        let left: u64 = (b1 * yq) % q;
        let x2: u64 = (xq * xq) % q;
        proof {
            lemma_mul_fits_u64(x2 as int, xq as int);
            lemma_mul_fits_u64(gA, x2 as int);
        }
        let x3: u64 = (x2 * xq) % q;
        let ax2: u64 = (self.A * x2) % q;
        let right: u64 = (x3 + ax2 + xq) % q;
        proof {
            vstd::arithmetic::div_mod::lemma_mod_twice(gx, gq);
            vstd::arithmetic::div_mod::lemma_mod_twice(gy, gq);
            // left side piecewise
            lemma_mul_mod_cong(gB, gB, yq as int, gy, gq);
            vstd::arithmetic::div_mod::lemma_mod_twice(gB * gy, gq);
            lemma_mul_mod_cong(b1 as int, gB * gy, yq as int, gy, gq);
            // right side piecewise
            lemma_mul_mod_cong(xq as int, gx, xq as int, gx, gq);
            vstd::arithmetic::div_mod::lemma_mod_twice(gx * gx, gq);
            lemma_mul_mod_cong(x2 as int, gx * gx, xq as int, gx, gq);
            lemma_mul_mod_cong(gA, gA, x2 as int, gx * gx, gq);
            vstd::arithmetic::div_mod::lemma_mod_twice(gx * gx * gx, gq);
            vstd::arithmetic::div_mod::lemma_mod_twice(gA * (gx * gx), gq);
            assert(gA * (gx * gx) == gA * gx * gx) by (nonlinear_arith);
            lemma_add_mod_cong(x3 as int, gx * gx * gx, ax2 as int, gA * gx * gx, gq);
            lemma_add_mod_cong(
                (x3 + ax2) as int, gx * gx * gx + gA * gx * gx, xq as int, gx, gq);
        }
        left == right
    }

    /// Coordinate recovery is not defined for the Montgomery model, so
    /// this always fails.
    pub fn at(&self, _x: u64) -> (r: Result<(Point, Point), CurveError>)
        requires
            self.wf(),
        ensures
            r == Err::<(Point, Point), CurveError>(CurveError::NoSquareRoot),
    {
        Err(CurveError::NoSquareRoot)
    }

    /// What the group law returns: the other operand for an identity
    /// operand, the identity when the operands share an x-coordinate
    /// but differ in y, the tangent formula
    /// `l = (3*x^2 + 2*A*x + 1) / (2*B*y)` for equal operands, and the
    /// chord `l = (y2 - y1) / (x2 - x1)` otherwise, with
    /// `x3 = B*l^2 - A - x1 - x2` (the doubling case merges the two x
    /// terms) and `y3 = l*(x1 - x3) - y1`. `NoInverse` reports a
    /// non-invertible slope denominator.
    pub open spec fn spec_add(self, p: Point, o: Point) -> Result<Point, CurveError> {
        let q = self.q as int;
        let x1 = p.x as int;
        let y1 = p.y as int;
        let x2 = o.x as int;
        let y2 = o.y as int;
        if p == Self::spec_identity() {
            Ok(o)
        } else if o == Self::spec_identity() {
            Ok(p)
        } else if p.x == o.x && p.y != o.y {
            Ok(Self::spec_identity())
        } else if p == o {
            let den = (2 * (self.B as int) * y1) % q;
            if !coprime(self.q as nat, den as nat) {
                Err(CurveError::NoInverse)
            } else {
                let num = (3 * x1 * x1 + 2 * (self.A as int) * x1 + 1) % q;
                let l = (num * inv_mod(den, q)) % q;
                let x3 = ((self.B as int) * l * l - (self.A as int) - 2 * x1) % q;
                let y3 = (l * (x1 - x3) - y1) % q;
                Ok(Point { x: x3 as u64, y: y3 as u64, z: 1 })
            }
        } else {
            let den = (x2 - x1) % q;
            if !coprime(self.q as nat, den as nat) {
                Err(CurveError::NoInverse)
            } else {
                let num = (y2 - y1) % q;
                let l = (num * inv_mod(den, q)) % q;
                let x3 = ((self.B as int) * l * l - (self.A as int) - x1 - x2) % q;
                let y3 = (l * (x1 - x3) - y1) % q;
                Ok(Point { x: x3 as u64, y: y3 as u64, z: 1 })
            }
        }
    }

    /// The group law, as `spec_add` states it.
    pub fn add(&self, p: &Point, o: &Point) -> (r: Result<Point, CurveError>)
        requires
            self.wf(),
            p.in_field(self.q as int),
            o.in_field(self.q as int),
        ensures
            r == self.spec_add(*p, *o),
            r matches Ok(v) ==> v.in_field(self.q as int),
    {
        let ghost gq: int = self.q as int;
        let ghost gA: int = self.A as int;
        let ghost gB: int = self.B as int;
        let ghost x1: int = p.x as int;
        let ghost y1: int = p.y as int;
        let ghost x2: int = o.x as int;
        let ghost y2: int = o.y as int;
        let q = self.q;
        if self.is_zero(p) {
            return Ok(*o);
        }
        if self.is_zero(o) {
            return Ok(*p);
        }
        if p.x == o.x && p.y != o.y {
            return Ok(Point { x: 0, y: 1, z: 0 });
        }
        let l: u64;
        if *p == *o {
            // tangent slope (3*x^2 + 2*A*x + 1) / (2*B*y)
            let d1: u64 = (2 * self.B) % q;
            proof {
                lemma_mul_fits_u64(d1 as int, y1);
            }
            let den: u64 = (d1 * p.y) % q;
            proof {
                vstd::arithmetic::div_mod::lemma_mod_twice(2 * gB, gq);
                lemma_mul_mod_cong(d1 as int, 2 * gB, y1, y1, gq);
                assert((2 * gB) * y1 == 2 * gB * y1) by (nonlinear_arith);
            }
            let inv_den: u64 = match Utils::mod_inv(den, q) {
                Ok(v) => v,
                Err(_) => {
                    return Err(CurveError::NoInverse);
                },
            };
            proof {
                assert(has_inv(den as int, gq, inv_den as int));
                lemma_inv_unique(den as int, gq, inv_den as int, inv_mod(den as int, gq));
                lemma_mul_fits_u64((3 * x1) % gq, x1);
            }
            let s1: u64 = (3 * p.x) % q;
            let s2: u64 = (s1 * p.x) % q;
            let s3: u64 = (2 * self.A) % q;
            proof {
                lemma_mul_fits_u64(s3 as int, x1);
            }
            let s4: u64 = (s3 * p.x) % q;
            let num: u64 = (s2 + s4 + 1) % q;
            proof {
                vstd::arithmetic::div_mod::lemma_mod_twice(3 * x1, gq);
                lemma_mul_mod_cong(s1 as int, 3 * x1, x1, x1, gq);
                vstd::arithmetic::div_mod::lemma_mod_twice(3 * x1 * x1, gq);
                vstd::arithmetic::div_mod::lemma_mod_twice(2 * gA, gq);
                lemma_mul_mod_cong(s3 as int, 2 * gA, x1, x1, gq);
                assert((2 * gA) * x1 == 2 * gA * x1) by (nonlinear_arith);
                vstd::arithmetic::div_mod::lemma_mod_twice(2 * gA * x1, gq);
                lemma_add_mod_cong(s2 as int, 3 * x1 * x1, s4 as int, 2 * gA * x1, gq);
                vstd::arithmetic::div_mod::lemma_mod_twice(3 * x1 * x1 + 2 * gA * x1, gq);
                lemma_add_mod_cong(
                    (s2 + s4) as int, 3 * x1 * x1 + 2 * gA * x1, 1, 1, gq);
                lemma_mul_fits_u64(num as int, inv_den as int);
            }
            l = (num * inv_den) % q;
        } else {
            // chord slope (y2 - y1) / (x2 - x1)
            let den: u64 = (o.x + q - p.x) % q;
            proof {
                lemma_mod_shift(x2 - x1, 1, gq);
            }
            let inv_den: u64 = match Utils::mod_inv(den, q) {
                Ok(v) => v,
                Err(_) => {
                    return Err(CurveError::NoInverse);
                },
            };
            let num: u64 = (o.y + q - p.y) % q;
            proof {
                assert(has_inv(den as int, gq, inv_den as int));
                lemma_inv_unique(den as int, gq, inv_den as int, inv_mod(den as int, gq));
                lemma_mod_shift(y2 - y1, 1, gq);
                lemma_mul_fits_u64(num as int, inv_den as int);
            }
            l = (num * inv_den) % q;
        }
        let ghost gl: int = l as int;
        proof {
            lemma_mul_fits_u64(gB, gl);
        }
        let e1: u64 = (self.B * l) % q;
        proof {
            lemma_mul_fits_u64(e1 as int, gl);
        }
        let e2: u64 = (e1 * l) % q;
        proof {
            vstd::arithmetic::div_mod::lemma_mod_twice(gB * gl, gq);
            lemma_mul_mod_cong(e1 as int, gB * gl, gl, gl, gq);
            vstd::arithmetic::div_mod::lemma_mod_twice(gB * gl * gl, gq);
        }
        let x3: u64;
        if *p == *o {
            x3 = (e2 + (q - self.A) + 2 * (q - p.x)) % q;
            proof {
                lemma_sub_mod_cong(e2 as int, gB * gl * gl, gA, gA, gq);
                lemma_sub_mod_cong(
                    (e2 as int) - gA, gB * gl * gl - gA, 2 * x1, 2 * x1, gq);
                lemma_mod_shift((e2 as int) - gA - 2 * x1, 3, gq);
                assert(x3 as int == (gB * gl * gl - gA - 2 * x1) % gq);
            }
        } else {
            x3 = (e2 + (q - self.A) + (q - p.x) + (q - o.x)) % q;
            proof {
                lemma_sub_mod_cong(e2 as int, gB * gl * gl, gA, gA, gq);
                lemma_sub_mod_cong(
                    (e2 as int) - gA, gB * gl * gl - gA, x1, x1, gq);
                lemma_sub_mod_cong(
                    (e2 as int) - gA - x1, gB * gl * gl - gA - x1, x2, x2, gq);
                lemma_mod_shift((e2 as int) - gA - x1 - x2, 3, gq);
                assert(x3 as int == (gB * gl * gl - gA - x1 - x2) % gq);
            }
        }
        let d: u64 = (p.x + q - x3) % q;
        proof {
            lemma_mod_shift(x1 - (x3 as int), 1, gq);
            lemma_mul_fits_u64(gl, d as int);
        }
        let e: u64 = (l * d) % q;
        let y3: u64 = (e + (q - p.y)) % q;
        proof {
            vstd::arithmetic::div_mod::lemma_mod_twice(x1 - (x3 as int), gq);
            lemma_mul_mod_cong(gl, gl, d as int, x1 - (x3 as int), gq);
            vstd::arithmetic::div_mod::lemma_mod_twice(gl * (x1 - (x3 as int)), gq);
            lemma_sub_mod_cong(
                e as int, gl * (x1 - (x3 as int)), y1, y1, gq);
            lemma_mod_shift((e as int) - y1, 1, gq);
            assert(y3 as int == (gl * (x1 - (x3 as int)) - y1) % gq);
        }
        Ok(Point { x: x3, y: y3, z: 1 })
    }

    /// Point doubling: adds the point to itself, which takes the
    /// tangent branch of `add`.
    pub fn double(&self, p: &Point) -> (r: Result<Point, CurveError>)
        requires
            self.wf(),
            p.in_field(self.q as int),
        ensures
            r == self.spec_add(*p, *p),
            r matches Ok(v) ==> v.in_field(self.q as int),
    {
        self.add(p, p)
    }

    /// The double-and-add recursion behind scalar multiplication; see
    /// `spec_mul`.
    pub open spec fn spec_mul_step(self, n: nat, r: Point, m: Point) -> Result<
        Point,
        CurveError,
    >
        decreases n,
    {
        if n == 0 {
            Ok(r)
        } else {
            let r1 = if n % 2 == 1 {
                self.spec_add(r, m)
            } else {
                Ok(r)
            };
            match r1 {
                Err(e) => Err(e),
                Ok(rv) => match self.spec_add(m, m) {
                    Err(e) => Err(e),
                    Ok(mv) => self.spec_mul_step(n / 2, rv, mv),
                },
            }
        }
    }

    /// Scalar multiplication as the double-and-add fold started from
    /// the identity `(0, 1, 0)`.
    pub open spec fn spec_mul(self, n: nat, p: Point) -> Result<Point, CurveError> {
        self.spec_mul_step(n, Self::spec_identity(), p)
    }

    /// Multiplies a point by the scalar `n` with double-and-add, in
    /// O(log n) group operations.
    pub fn mul(&self, n: u64, p: &Point) -> (r: Result<Point, CurveError>)
        requires
            self.wf(),
            p.in_field(self.q as int),
        ensures
            r == self.spec_mul(n as nat, *p),
            r matches Ok(v) ==> v.in_field(self.q as int),
    {
        let mut n_c: u64 = n;
        let mut r_acc: Point = self.zero;
        let mut m2: Point = *p;
        while n_c > 0
            invariant
                r_acc.in_field(self.q as int),
                m2.in_field(self.q as int),
                self.spec_mul_step(n_c as nat, r_acc, m2)
                    == self.spec_mul_step(n as nat, Self::spec_identity(), *p),
            decreases n_c,
        {
            let ghost n0: nat = n_c as nat;
            let ghost racc0: Point = r_acc;
            let ghost m0: Point = m2;
            if n_c % 2 == 1 {
                match self.add(&r_acc, &m2) {
                    Ok(v) => {
                        r_acc = v;
                    },
                    Err(e) => {
                        return Err(e);
                    },
                }
            }
            m2 = match self.add(&m2, &m2) {
                Ok(v) => v,
                Err(e) => {
                    return Err(e);
                },
            };
            n_c = n_c / 2;
            proof {
                assert(self.spec_mul_step(n0, racc0, m0)
                    == self.spec_mul_step(n_c as nat, r_acc, m2));
            }
        }
        Ok(r_acc)
    }

    /// The brute-force order search from a running multiple `cur` that
    /// stands for `ord` copies of `g`; the counter guard in front only
    /// keeps the recursion well-founded.
    pub open spec fn spec_order_from(self, cur: Point, g: Point, ord: int) -> Result<
        u64,
        CurveError,
    >
        decreases self.q + 1 - ord,
    {
        if ord < 1 || ord > self.q + 1 {
            Err(CurveError::OrderNotFound)
        } else if cur == Self::spec_identity() {
            Ok(ord as u64)
        } else {
            match self.spec_add(cur, g) {
                Err(e) => Err(e),
                Ok(c2) => if ord + 1 > self.q {
                    Err(CurveError::OrderNotFound)
                } else {
                    self.spec_order_from(c2, g, ord + 1)
                },
            }
        }
    }

    /// The order of a point `g`: repeated addition until the identity,
    /// giving up once the count passes the modulus.
    pub open spec fn spec_order(self, g: Point) -> Result<u64, CurveError> {
        self.spec_order_from(g, g, 1)
    }

    /// Computes the order of a point by repeatedly adding it until the
    /// identity is reached, failing with `OrderNotFound` past `q` steps.
    pub fn order(&self, g: &Point) -> (r: Result<u64, CurveError>)
        requires
            self.wf(),
            g.in_field(self.q as int),
        ensures
            r == self.spec_order(*g),
    {
        let mut ord: u64 = 1;
        let mut current: Point = *g;
        let zero_point: Point = self.zero;
        while current != zero_point
            invariant
                1 <= ord <= self.q,
                zero_point == Self::spec_identity(),
                current.in_field(self.q as int),
                self.spec_order_from(current, *g, ord as int) == self.spec_order(*g),
            decreases self.q - ord,
        {
            ord = ord + 1;
            current = match self.add(&current, g) {
                Ok(v) => v,
                Err(e) => {
                    return Err(e);
                },
            };
            if ord > self.q {
                return Err(CurveError::OrderNotFound);
            }
        }
        Ok(ord)
    }

    /// Relies on the `format!` macro of std to render the curve
    /// equation for humans; purely presentational.
    #[verifier::external_body]
    pub fn display(&self) -> String {
        format!("({}*y^2 = x^3 + {}*x^2 + x) mod {}", self.B, self.A, self.q)
    }


    /// The congruences that tie the computed slope, denominator and
    /// output coordinates of the group law's formula branches to the
    /// cubic-closure argument.
    proof fn lemma_formula_on_curve(self, p: Point, o: Point)
        requires
            self.wf(),
            self.spec_is_valid(p),
            self.spec_is_valid(o),
            p != Self::spec_identity(),
            o != Self::spec_identity(),
            !(p.x == o.x && p.y != o.y),
            coprime(self.q as nat, (if p == o {
                (2 * (self.B as int) * (p.y as int)) % (self.q as int)
            } else {
                ((o.x as int) - (p.x as int)) % (self.q as int)
            }) as nat),
        ensures
            ({
                let q = self.q as int;
                let den = if p == o {
                    (2 * (self.B as int) * (p.y as int)) % q
                } else {
                    ((o.x as int) - (p.x as int)) % q
                };
                let num = if p == o {
                    (3 * (p.x as int) * (p.x as int) + 2 * (self.A as int) * (p.x as int)
                        + 1) % q
                } else {
                    ((o.y as int) - (p.y as int)) % q
                };
                let l = (num * inv_mod(den, q)) % q;
                let x3 = if p == o {
                    ((self.B as int) * l * l - (self.A as int) - 2 * (p.x as int)) % q
                } else {
                    ((self.B as int) * l * l - (self.A as int) - (p.x as int)
                        - (o.x as int)) % q
                };
                let y3 = (l * ((p.x as int) - x3) - (p.y as int)) % q;
                (((self.B as int) * y3 * y3) % q
                    == (x3 * x3 * x3 + (self.A as int) * x3 * x3 + x3) % q)
                    && 0 <= x3 < q && 0 <= y3 < q
            }),
    {
        let gq: int = self.q as int;
        let gA: int = self.A as int;
        let gB: int = self.B as int;
        let x1: int = p.x as int;
        let y1: int = p.y as int;
        let x2: int = o.x as int;
        let y2: int = o.y as int;
        let oden: int = if p == o { 2 * gB * y1 } else { x2 - x1 };
        let onum: int = if p == o { 3 * x1 * x1 + 2 * gA * x1 + 1 } else { y2 - y1 };
        let den: int = oden % gq;
        let num: int = onum % gq;
        vstd::arithmetic::div_mod::lemma_mod_bound(oden, gq);
        vstd::arithmetic::div_mod::lemma_mod_bound(onum, gq);
        lemma_coprime_invertible(den, gq);
        let vv: int = inv_mod(den, gq);
        let l: int = (num * vv) % gq;
        let x3: int = if p == o {
            (gB * l * l - gA - 2 * x1) % gq
        } else {
            (gB * l * l - gA - x1 - x2) % gq
        };
        let y3: int = (l * (x1 - x3) - y1) % gq;
        vstd::arithmetic::div_mod::lemma_mod_bound(num * vv, gq);
        vstd::arithmetic::div_mod::lemma_mod_bound(
            if p == o { gB * l * l - gA - 2 * x1 } else { gB * l * l - gA - x1 - x2 }, gq);
        vstd::arithmetic::div_mod::lemma_mod_bound(l * (x1 - x3) - y1, gq);
        // the slope satisfies its defining congruence
        assert((l * oden) % gq == onum % gq) by {
            vstd::arithmetic::div_mod::lemma_mul_mod_noop_right(l, oden, gq);
            vstd::arithmetic::div_mod::lemma_mod_twice(num * vv, gq);
            lemma_mul_mod_cong(l, num * vv, den, den, gq);
            vstd::arithmetic::mul::lemma_mul_is_associative(num, vv, den);
            vstd::arithmetic::div_mod::lemma_mul_mod_noop_right(num, vv * den, gq);
            vstd::arithmetic::mul::lemma_mul_is_commutative(vv, den);
            vstd::arithmetic::div_mod::lemma_small_mod(1nat, self.q as nat);
            assert(num * 1 == num) by (nonlinear_arith);
            vstd::arithmetic::div_mod::lemma_mod_twice(onum, gq);
        };
        vstd::arithmetic::div_mod::lemma_mod_twice(
            if p == o { gB * l * l - gA - 2 * x1 } else { gB * l * l - gA - x1 - x2 }, gq);
        vstd::arithmetic::div_mod::lemma_mod_twice(l * (x1 - x3) - y1, gq);
        // the curve equations of the operands, in the cubic form
        assert(1int * x1 == x1 && 1int * x2 == x2 && 1int * x3 == x3);
        if p == o {
            lemma_cubic_tangent_closed(gq, gB, gA, 1, 0, x1, y1, l, x3, y3);
        } else {
            lemma_cubic_chord_closed(gq, gB, gA, 1, 0, x1, y1, x2, y2, l, vv, x3, y3);
        }
    }

    /// Law: the group law is closed. Adding two valid points, when it
    /// succeeds, yields a valid point.
    pub proof fn lemma_add_closed(self, p: Point, o: Point)
        requires
            self.wf(),
            self.spec_is_valid(p),
            self.spec_is_valid(o),
        ensures
            self.spec_add(p, o) matches Ok(v) ==> self.spec_is_valid(v),
    {
        let gq: int = self.q as int;
        if p == Self::spec_identity() || o == Self::spec_identity()
            || (p.x == o.x && p.y != o.y) {
            // pass-through and negation branches return a valid point
        } else if self.spec_add(p, o) is Ok {
            let v = self.spec_add(p, o)->Ok_0;
            self.lemma_formula_on_curve(p, o);
        }
    }

    /// Law: scalar multiplication is closed, step by step.
    proof fn lemma_mul_step_closed(self, n: nat, r: Point, m: Point)
        requires
            self.wf(),
            self.spec_is_valid(r),
            self.spec_is_valid(m),
        ensures
            self.spec_mul_step(n, r, m) matches Ok(v) ==> self.spec_is_valid(v),
        decreases n,
    {
        if n > 0 {
            self.lemma_add_closed(r, m);
            self.lemma_add_closed(m, m);
            let r1 = if n % 2 == 1 {
                self.spec_add(r, m)
            } else {
                Ok(r)
            };
            if r1 is Ok && self.spec_add(m, m) is Ok {
                self.lemma_mul_step_closed(n / 2, r1->Ok_0, self.spec_add(m, m)->Ok_0);
            }
        }
    }

    /// Law: scalar multiplication is closed. Multiplying a valid point
    /// by any scalar, when it succeeds, yields a valid point.
    pub proof fn lemma_mul_closed(self, n: nat, p: Point)
        requires
            self.wf(),
            self.spec_is_valid(p),
        ensures
            self.spec_mul(n, p) matches Ok(v) ==> self.spec_is_valid(v),
    {
        self.lemma_mul_step_closed(n, Self::spec_identity(), p);
    }


    /// Law: on a prime modulus the group law never reports an error,
    /// except on its two genuine failure shapes: doubling a point with
    /// `y == 0` (a two-torsion point, where the tangent is vertical)
    /// and adding two distinct representations of one coordinate pair
    /// (same x and y, different markers), where the chord denominator
    /// is zero.
    pub proof fn lemma_add_total(self, p: Point, o: Point)
        requires
            self.wf(),
            is_prime(self.q as nat),
            p.in_field(self.q as int),
            o.in_field(self.q as int),
            (p.x == o.x && p.y == o.y) ==> (p == o && p.y != 0),
        ensures
            self.spec_add(p, o) is Ok,
    {
        let gq: int = self.q as int;
        lemma_prime_odd(self.q as nat);
        if p == Self::spec_identity() || o == Self::spec_identity()
            || (p.x == o.x && p.y != o.y) {
        } else if p == o {
            // tangent: 2, B and y are each coprime to the prime
            // modulus, so their product misses every multiple of it
            let gB: int = self.B as int;
            let y1: int = p.y as int;
            let den: int = (2 * gB * y1) % gq;
            vstd::arithmetic::div_mod::lemma_mod_bound(2 * gB * y1, gq);
            if den == 0 {
                lemma_prime_coprime(self.q as nat, 2nat);
                lemma_prime_coprime(self.q as nat, self.B as nat);
                lemma_prime_coprime(self.q as nat, p.y as nat);
                lemma_coprime_invertible(2, gq);
                lemma_coprime_invertible(gB, gq);
                lemma_coprime_invertible(y1, gq);
                let v2 = inv_mod(2, gq);
                let vb = inv_mod(gB, gq);
                let vy = inv_mod(y1, gq);
                vstd::arithmetic::div_mod::lemma_small_mod(1nat, self.q as nat);
                assert((2 * gB * y1) * ((v2 * vb) * vy)
                    == ((2 * v2) * (gB * vb)) * (y1 * vy)) by (nonlinear_arith);
                lemma_mul_mod_cong(2 * v2, 1, gB * vb, 1, gq);
                assert(1int * 1int == 1int);
                lemma_mul_mod_cong((2 * v2) * (gB * vb), 1, y1 * vy, 1, gq);
                lemma_mul_mod_cong(2 * gB * y1, 0, (v2 * vb) * vy, (v2 * vb) * vy, gq);
                assert(0int * ((v2 * vb) * vy) == 0) by (nonlinear_arith);
                assert(1int % gq == 0int % gq);
                assert(false);
            }
            lemma_prime_coprime(self.q as nat, den as nat);
        } else {
            // chord: the x-coordinates must differ here, and their
            // difference is a nonzero residue
            let x1: int = p.x as int;
            let x2: int = o.x as int;
            assert(p.x != o.x);
            let den: int = (x2 - x1) % gq;
            if x2 > x1 {
                vstd::arithmetic::div_mod::lemma_small_mod((x2 - x1) as nat, self.q as nat);
                assert(den == x2 - x1);
            } else {
                crate::utils::lemma_mod_shift(x2 - x1, 1, gq);
                vstd::arithmetic::div_mod::lemma_small_mod(
                    (x2 - x1 + gq) as nat, self.q as nat);
                assert(den == x2 - x1 + gq);
            }
            assert(1 <= den < gq);
            lemma_prime_coprime(self.q as nat, den as nat);
        }
    }

    /// Law: adding the identity on either side returns the other
    /// operand unchanged, for every point.
    pub proof fn lemma_add_identity(self, p: Point)
        requires
            self.wf(),
        ensures
            self.spec_add(Self::spec_identity(), p) == Ok::<Point, CurveError>(p),
            self.spec_add(p, Self::spec_identity()) == Ok::<Point, CurveError>(p),
    {
    }

    /// Law: multiplying any point by the scalar zero gives the
    /// identity.
    pub proof fn lemma_mul_zero(self, p: Point)
        requires
            self.wf(),
        ensures
            self.spec_mul(0, p) == Ok::<Point, CurveError>(Self::spec_identity()),
    {
    }

    /// Law: multiplying a point by the scalar one returns the point
    /// itself; the only way it can fail is the doubling of `p` that
    /// double-and-add performs alongside.
    pub proof fn lemma_mul_one(self, p: Point)
        requires
            self.wf(),
        ensures
            self.spec_mul(1, p) matches Ok(v) ==> v == p,
            self.spec_mul(1, p) matches Err(e)
                ==> self.spec_add(p, p) == Err::<Point, CurveError>(e),
    {
        reveal_with_fuel(MontgomeryCurve::spec_mul_step, 3);
        self.lemma_add_identity(p);
    }

    /// Law: multiplying a point by the scalar two agrees with doubling
    /// (the addition law applied to the point and itself) whenever it
    /// succeeds.
    pub proof fn lemma_mul_two(self, p: Point)
        requires
            self.wf(),
        ensures
            self.spec_mul(2, p) matches Ok(v)
                ==> self.spec_add(p, p) == Ok::<Point, CurveError>(v),
    {
        reveal_with_fuel(MontgomeryCurve::spec_mul_step, 4);
        match self.spec_add(p, p) {
            Err(_) => {
            },
            Ok(m1) => {
                self.lemma_add_identity(m1);
                assert(self.spec_mul_step(2, Self::spec_identity(), p)
                    == self.spec_mul_step(1, Self::spec_identity(), m1));
            },
        }
    }
}

} // verus!

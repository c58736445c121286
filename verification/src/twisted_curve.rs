//! Twisted Edwards curves `a*x^2 + y^2 = 1 + b*x^2*y^2 (mod q)`. The
//! addition law is the Edwards formula with the twist coefficient `a`
//! in the y-numerator; doubling reuses it. The group identity is
//! `(0, 1, 0)`.

use vstd::prelude::*;
use vstd::arithmetic::power::pow;
use crate::ecc::CurveError;
use crate::point::Point;
use crate::utils::{
    Utils, coprime, has_inv, inv_mod, lemma_inv_unique, lemma_mul_mod_cong,
    lemma_add_mod_cong, lemma_sub_mod_cong, lemma_mod_shift, lemma_mul_fits_u64,
};

verus! {

/// A twisted Edwards curve `a*x^2 + y^2 = 1 + b*x^2*y^2 (mod q)`.
///
/// The stored constant `I = 2^((q-1)/4) mod q` serves coordinate
/// recovery, whose square-root exponent `(q+3)/8` is meaningful only
/// for primes `q = 5 (mod 8)`; `xrecover` and `at` carry that domain
/// restriction as a precondition. The group operations work on any
/// well-formed modulus.
#[allow(non_snake_case)]
pub struct TwistedCurve {
    pub a: u64,
    pub b: u64,
    pub q: u64,
    /// `2^((q-1)/4) mod q`, used to correct the candidate root.
    pub I: u64,
    /// The identity point `(0, 1, 0)`.
    pub zero: Point,
    /// The caller-supplied group order; stored, not derived.
    pub order: u64,
}

impl TwistedCurve {
    /// Well-formed parameters: a toy-sized modulus above 2, distinct
    /// nonzero reduced coefficients, and the stored constants
    /// consistent.
    pub open spec fn wf(self) -> bool {
        &&& 2 < self.q <= 0xFFFF_FFFF
        &&& 0 < self.a < self.q
        &&& 0 < self.b < self.q
        &&& self.a != self.b
        &&& self.I == pow(2, (((self.q - 1) / 4) as nat)) % (self.q as int)
        &&& self.zero == (Point { x: 0, y: 1, z: 0 })
    }

    /// The group identity of the twisted Edwards model.
    pub open spec fn spec_identity() -> Point {
        Point { x: 0, y: 1, z: 0 }
    }

    /// The defining equation `a*x^2 + y^2 = 1 + b*x^2*y^2 (mod q)`.
    pub open spec fn spec_is_valid(self, p: Point) -> bool {
        let q = self.q as int;
        let x = p.x as int;
        let y = p.y as int;
        ((self.a as int) * x * x + y * y) % q == (1 + (self.b as int) * x * x * y * y) % q
    }

    /// Creates a new twisted Edwards curve from distinct nonzero
    /// coefficients and a caller-supplied group order, computing
    /// `I = 2^((q-1)/4) mod q` and fixing the identity `(0, 1, 0)`.
    pub fn new(a: u64, b: u64, q: u64, order: u64) -> (r: Self)
        requires
            2 < q <= 0xFFFF_FFFF,
            0 < a < q,
            0 < b < q,
            a != b,
        ensures
            r.a == a && r.b == b && r.q == q && r.order == order,
            r.wf(),
    {
        let exp: u64 = (q - 1) / 4;
        let i: u64 = Utils::modpow(2, exp as u32, q);
        let zero = Point { x: 0, y: 1, z: 0 };
        TwistedCurve { a, b, q, I: i, zero, order }
    }

    /// Decides the defining equation.
    pub fn is_valid(&self, point: &Point) -> (r: bool)
        requires
            self.wf(),
        ensures
            r == self.spec_is_valid(*point),
    {
        let ghost gq: int = self.q as int;
        let ghost gx: int = point.x as int;
        let ghost gy: int = point.y as int;
        let ghost ga: int = self.a as int;
        let ghost gb: int = self.b as int;
        let q = self.q;
        let xq: u64 = point.x % q;
        let yq: u64 = point.y % q;
        proof {
            lemma_mul_fits_u64(ga, xq as int);
            lemma_mul_fits_u64(yq as int, yq as int);
        }
        let a1: u64 = (self.a * xq) % q;
        proof {
            lemma_mul_fits_u64(a1 as int, xq as int);
        }
        let ax2: u64 = (a1 * xq) % q;
        let y2: u64 = (yq * yq) % q;
        let left: u64 = (ax2 + y2) % q;
        proof {
            lemma_mul_fits_u64(gb, xq as int);
        }
        let b1: u64 = (self.b * xq) % q;
        proof {
            lemma_mul_fits_u64(b1 as int, xq as int);
        }
        let b2: u64 = (b1 * xq) % q;
        proof {
            lemma_mul_fits_u64(b2 as int, yq as int);
        }
        let b3: u64 = (b2 * yq) % q;
        proof {
            lemma_mul_fits_u64(b3 as int, yq as int);
        }
        let bx2y2: u64 = (b3 * yq) % q;
        let right: u64 = (1 + bx2y2) % q;
        proof {
            vstd::arithmetic::div_mod::lemma_mod_twice(gx, gq);
            vstd::arithmetic::div_mod::lemma_mod_twice(gy, gq);
            // left side piecewise
            lemma_mul_mod_cong(ga, ga, xq as int, gx, gq);
            vstd::arithmetic::div_mod::lemma_mod_twice(ga * gx, gq);
            lemma_mul_mod_cong(a1 as int, ga * gx, xq as int, gx, gq);
            vstd::arithmetic::div_mod::lemma_mod_twice(ga * gx * gx, gq);
            lemma_mul_mod_cong(yq as int, gy, yq as int, gy, gq);
            vstd::arithmetic::div_mod::lemma_mod_twice(gy * gy, gq);
            lemma_add_mod_cong(ax2 as int, ga * gx * gx, y2 as int, gy * gy, gq);
            // right side piecewise
            lemma_mul_mod_cong(gb, gb, xq as int, gx, gq);
            vstd::arithmetic::div_mod::lemma_mod_twice(gb * gx, gq);
            lemma_mul_mod_cong(b1 as int, gb * gx, xq as int, gx, gq);
            vstd::arithmetic::div_mod::lemma_mod_twice(gb * gx * gx, gq);
            lemma_mul_mod_cong(b2 as int, gb * gx * gx, yq as int, gy, gq);
            vstd::arithmetic::div_mod::lemma_mod_twice(gb * gx * gx * gy, gq);
            lemma_mul_mod_cong(b3 as int, gb * gx * gx * gy, yq as int, gy, gq);
            vstd::arithmetic::div_mod::lemma_mod_twice(gb * gx * gx * gy * gy, gq);
            lemma_add_mod_cong(1, 1, bx2y2 as int, gb * gx * gx * gy * gy, gq);
        }
        left == right
    }

    /// What x-recovery computes for a given `y`: the quotient
    /// `xx = (y^2 - 1) / (b*y^2 + 1) mod q`, its candidate root
    /// `xx^((q+3)/8)`, corrected by the stored constant `I` when its
    /// square misses `xx`, and finally flipped to the even
    /// representative. Reports `NoInverse` when the quotient's
    /// denominator is not invertible.
    pub open spec fn spec_xrecover(self, y: int) -> Result<u64, CurveError> {
        let q = self.q as int;
        let y2 = (y * y) % q;
        let den = ((self.b as int) * y2 + 1) % q;
        if !coprime(self.q as nat, den as nat) {
            Err(CurveError::NoInverse)
        } else {
            let num = (y2 - 1) % q;
            let xx = (num * inv_mod(den, q)) % q;
            let x0 = pow(xx, (((self.q + 3) / 8) as nat)) % q;
            let x1 = if (x0 * x0) % q == xx {
                x0
            } else {
                (x0 * (self.I as int)) % q
            };
            let x2 = if x1 % 2 == 0 {
                x1
            } else {
                q - x1
            };
            Ok(x2 as u64)
        }
    }

    /// Given a y-coordinate, recovers the corresponding x-coordinate
    /// as `spec_xrecover` states. The recovery exponent `(q+3)/8` is a
    /// square-root exponent only for primes `q = 5 (mod 8)`, so that
    /// domain restriction is a precondition; outside it the same
    /// arithmetic silently yields a non-root.
    pub fn xrecover(&self, y: u64) -> (r: Result<u64, CurveError>)
        requires
            self.wf(),
            self.q % 8 == 5,
        ensures
            r == self.spec_xrecover(y as int),
            r matches Ok(v) ==> v < self.q,
    {
        let ghost gq: int = self.q as int;
        let ghost gy: int = y as int;
        let ghost gb: int = self.b as int;
        let q = self.q;
        let yq: u64 = y % q;
        proof {
            lemma_mul_fits_u64(yq as int, yq as int);
        }
        let y2: u64 = (yq * yq) % q;
        proof {
            vstd::arithmetic::div_mod::lemma_mod_twice(gy, gq);
            lemma_mul_mod_cong(yq as int, gy, yq as int, gy, gq);
            lemma_mul_fits_u64(gb, y2 as int);
        }
        let by2: u64 = (self.b * y2) % q;
        let den: u64 = (by2 + 1) % q;
        proof {
            vstd::arithmetic::div_mod::lemma_mod_twice(gy * gy, gq);
            vstd::arithmetic::div_mod::lemma_mod_twice(gb * ((gy * gy) % gq), gq);
            lemma_add_mod_cong(by2 as int, gb * ((gy * gy) % gq), 1, 1, gq);
        }
        let inv_den: u64 = match Utils::mod_inv(den, q) {
            Ok(v) => v,
            Err(_) => {
                return Err(CurveError::NoInverse);
            },
        };
        proof {
            assert(has_inv(den as int, gq, inv_den as int));
            lemma_inv_unique(den as int, gq, inv_den as int, inv_mod(den as int, gq));
        }
        let num: u64 = (y2 + q - 1) % q;
        proof {
            lemma_mod_shift((y2 as int) - 1, 1, gq);
            lemma_mul_fits_u64(num as int, inv_den as int);
        }
        let xx: u64 = (num * inv_den) % q;
        proof {
            assert(((y2 as int) - 1) % gq == (((gy * gy) % gq) - 1) % gq);
            lemma_mul_mod_cong(
                num as int, (((gy * gy) % gq) - 1) % gq, inv_den as int,
                inv_den as int, gq);
            vstd::arithmetic::div_mod::lemma_mod_twice((((gy * gy) % gq) - 1), gq);
        }
        let exp: u64 = (q + 3) / 8;
        let mut x: u64 = Utils::modpow(xx, exp as u32, q);
        proof {
            lemma_mul_fits_u64(x as int, x as int);
            lemma_mul_fits_u64(x as int, self.I as int);
        }
        if (x * x) % q != xx {
            x = (x * self.I) % q;
        }
        if x % 2 != 0 {
            x = q - x;
        }
        Ok(x)
    }

    /// Given a y-coordinate, the two points with that y: the recovered
    /// x and its negation.
    pub open spec fn spec_at(self, y: u64) -> Result<(Point, Point), CurveError> {
        match self.spec_xrecover(y as int) {
            Err(e) => Err(e),
            Ok(x) => {
                let nx: u64 = if x == 0 {
                    0u64
                } else {
                    (self.q - x) as u64
                };
                Ok((Point { x, y, z: 0 }, Point { x: nx, y, z: 0 }))
            },
        }
    }

    /// Returns the two points on the curve with the given y-coordinate,
    /// recovering x through `xrecover`.
    pub fn at(&self, y: u64) -> (r: Result<(Point, Point), CurveError>)
        requires
            self.wf(),
            self.q % 8 == 5,
            y < self.q,
        ensures
            r == self.spec_at(y),
            r matches Ok(pair) ==> pair.0.in_field(self.q as int)
                && pair.1.in_field(self.q as int),
    {
        let x: u64 = match self.xrecover(y) {
            Ok(v) => v,
            Err(e) => {
                return Err(e);
            },
        };
        let neg_x: u64 = if x == 0 {
            x
        } else {
            self.q - x
        };
        Ok((Point { x, y, z: 0 }, Point { x: neg_x, y, z: 0 }))
    }

    /// What the twisted Edwards formula returns for `(x1, y1)` and
    /// `(x2, y2)`: `x3 = (x1*y2 + x2*y1) / (1 + b*x1*x2*y1*y2)` and
    /// `y3 = (y1*y2 - a*x1*x2) / (1 - b*x1*x2*y1*y2)`, with `NoInverse`
    /// reported when either denominator is not invertible.
    pub open spec fn spec_edwards_add(self, p: Point, o: Point) -> Result<
        Point,
        CurveError,
    > {
        let q = self.q as int;
        let x1 = p.x as int;
        let y1 = p.y as int;
        let x2 = o.x as int;
        let y2 = o.y as int;
        let f = ((self.b as int) * x1 * x2 * y1 * y2) % q;
        let den1 = (1 + f) % q;
        let den2 = (1 - f) % q;
        if !coprime(self.q as nat, den1 as nat) {
            Err(CurveError::NoInverse)
        } else if !coprime(self.q as nat, den2 as nat) {
            Err(CurveError::NoInverse)
        } else {
            let x3 = ((x1 * y2 + x2 * y1) * inv_mod(den1, q)) % q;
            let y3 = ((y1 * y2 - (self.a as int) * x1 * x2) * inv_mod(den2, q)) % q;
            Ok(Point { x: x3 as u64, y: y3 as u64, z: 0 })
        }
    }

    /// The twisted Edwards addition formula, as `spec_edwards_add`
    /// states it.
    pub fn edwards_add(&self, p: &Point, o: &Point) -> (r: Result<Point, CurveError>)
        requires
            self.wf(),
            p.in_field(self.q as int),
            o.in_field(self.q as int),
        ensures
            r == self.spec_edwards_add(*p, *o),
            r matches Ok(v) ==> v.in_field(self.q as int),
    {
        let ghost gq: int = self.q as int;
        let ghost ga: int = self.a as int;
        let ghost gb: int = self.b as int;
        let ghost x1: int = p.x as int;
        let ghost y1: int = p.y as int;
        let ghost x2: int = o.x as int;
        let ghost y2: int = o.y as int;
        let q = self.q;
        proof {
            lemma_mul_fits_u64(gb, x1);
        }
        let f1: u64 = (self.b * p.x) % q;
        proof {
            lemma_mul_fits_u64(f1 as int, x2);
        }
        let f2: u64 = (f1 * o.x) % q;
        proof {
            lemma_mul_fits_u64(f2 as int, y1);
        }
        let f3: u64 = (f2 * p.y) % q;
        proof {
            lemma_mul_fits_u64(f3 as int, y2);
        }
        let f: u64 = (f3 * o.y) % q;
        proof {
            vstd::arithmetic::div_mod::lemma_mod_twice(gb * x1, gq);
            lemma_mul_mod_cong(f1 as int, gb * x1, x2, x2, gq);
            vstd::arithmetic::div_mod::lemma_mod_twice(gb * x1 * x2, gq);
            lemma_mul_mod_cong(f2 as int, gb * x1 * x2, y1, y1, gq);
            vstd::arithmetic::div_mod::lemma_mod_twice(gb * x1 * x2 * y1, gq);
            lemma_mul_mod_cong(f3 as int, gb * x1 * x2 * y1, y2, y2, gq);
            assert(f as int == ((gb * x1 * x2 * y1 * y2) % gq));
        }
        let den1: u64 = (1 + f) % q;
        let den2: u64 = (1 + (q - f)) % q;
        proof {
            lemma_mod_shift(1 - (f as int), 1, gq);
            assert(den2 as int == (1 - (f as int)) % gq);
        }
        let inv_denom1: u64 = match Utils::mod_inv(den1, q) {
            Ok(v) => v,
            Err(_) => {
                return Err(CurveError::NoInverse);
            },
        };
        let inv_denom2: u64 = match Utils::mod_inv(den2, q) {
            Ok(v) => v,
            Err(_) => {
                return Err(CurveError::NoInverse);
            },
        };
        proof {
            assert(has_inv(den1 as int, gq, inv_denom1 as int));
            lemma_inv_unique(den1 as int, gq, inv_denom1 as int, inv_mod(den1 as int, gq));
            assert(has_inv(den2 as int, gq, inv_denom2 as int));
            lemma_inv_unique(den2 as int, gq, inv_denom2 as int, inv_mod(den2 as int, gq));
            lemma_mul_fits_u64(x1, y2);
            lemma_mul_fits_u64(x2, y1);
            lemma_mul_fits_u64(y1, y2);
            lemma_mul_fits_u64(ga, x1);
        }
        let n1: u64 = (p.x * o.y) % q;
        let n2: u64 = (o.x * p.y) % q;
        let nsum: u64 = (n1 + n2) % q;
        proof {
            lemma_mul_fits_u64(nsum as int, inv_denom1 as int);
        }
        let x3: u64 = (nsum * inv_denom1) % q;
        proof {
            vstd::arithmetic::div_mod::lemma_mod_twice(x1 * y2, gq);
            vstd::arithmetic::div_mod::lemma_mod_twice(x2 * y1, gq);
            lemma_add_mod_cong(n1 as int, x1 * y2, n2 as int, x2 * y1, gq);
            vstd::arithmetic::div_mod::lemma_mod_twice(x1 * y2 + x2 * y1, gq);
            lemma_mul_mod_cong(
                nsum as int, x1 * y2 + x2 * y1, inv_denom1 as int, inv_denom1 as int, gq);
        }
        let m1: u64 = (p.y * o.y) % q;
        let a1: u64 = (self.a * p.x) % q;
        proof {
            lemma_mul_fits_u64(a1 as int, x2);
        }
        let m2: u64 = (a1 * o.x) % q;
        let mdiff: u64 = (m1 + (q - m2)) % q;
        proof {
            lemma_mul_fits_u64(mdiff as int, inv_denom2 as int);
        }
        let y3: u64 = (mdiff * inv_denom2) % q;
        proof {
            vstd::arithmetic::div_mod::lemma_mod_twice(y1 * y2, gq);
            vstd::arithmetic::div_mod::lemma_mod_twice(ga * x1, gq);
            lemma_mul_mod_cong(a1 as int, ga * x1, x2, x2, gq);
            vstd::arithmetic::div_mod::lemma_mod_twice(ga * x1 * x2, gq);
            lemma_sub_mod_cong(m1 as int, y1 * y2, m2 as int, ga * x1 * x2, gq);
            lemma_mod_shift((m1 as int) - (m2 as int), 1, gq);
            vstd::arithmetic::div_mod::lemma_mod_twice(y1 * y2 - ga * x1 * x2, gq);
            lemma_mul_mod_cong(
                mdiff as int, y1 * y2 - ga * x1 * x2, inv_denom2 as int,
                inv_denom2 as int, gq);
        }
        Ok(Point { x: x3, y: y3, z: 0 })
    }

    /// What addition returns: the other operand when one operand is
    /// the identity, and otherwise the twisted Edwards formula.
    pub open spec fn spec_add(self, p: Point, o: Point) -> Result<Point, CurveError> {
        if p == Self::spec_identity() {
            Ok(o)
        } else if o == Self::spec_identity() {
            Ok(p)
        } else {
            self.spec_edwards_add(p, o)
        }
    }

    /// Adds two points: returns the other operand for an identity
    /// operand, and applies `edwards_add` otherwise.
    pub fn add(&self, p: &Point, o: &Point) -> (r: Result<Point, CurveError>)
        requires
            self.wf(),
            p.in_field(self.q as int),
            o.in_field(self.q as int),
        ensures
            r == self.spec_add(*p, *o),
            r matches Ok(v) ==> v.in_field(self.q as int),
    {
        if *p == self.zero {
            return Ok(*o);
        }
        if *o == self.zero {
            return Ok(*p);
        }
        self.edwards_add(p, o)
    }

    /// Point doubling: adds the point to itself through `add`.
    pub fn double(&self, p: &Point) -> (r: Result<Point, CurveError>)
        requires
            self.wf(),
            p.in_field(self.q as int),
        ensures
            r == self.spec_add(*p, *p),
            r matches Ok(v) ==> v.in_field(self.q as int),
    {
        self.add(p, p)
    }

    /// The double-and-add recursion behind scalar multiplication; see
    /// `spec_mul`.
    pub open spec fn spec_mul_step(self, n: nat, r: Point, m: Point) -> Result<
        Point,
        CurveError,
    >
        decreases n,
    {
        if n == 0 {
            Ok(r)
        } else {
            let r1 = if n % 2 == 1 {
                self.spec_add(r, m)
            } else {
                Ok(r)
            };
            match r1 {
                Err(e) => Err(e),
                Ok(rv) => match self.spec_add(m, m) {
                    Err(e) => Err(e),
                    Ok(mv) => self.spec_mul_step(n / 2, rv, mv),
                },
            }
        }
    }

    /// Scalar multiplication as the double-and-add fold started from
    /// the identity `(0, 1, 0)`.
    pub open spec fn spec_mul(self, n: nat, p: Point) -> Result<Point, CurveError> {
        self.spec_mul_step(n, Self::spec_identity(), p)
    }

    /// Multiplies a point by the scalar `n` with double-and-add, in
    /// O(log n) group operations.
    pub fn mul(&self, n: u64, p: &Point) -> (r: Result<Point, CurveError>)
        requires
            self.wf(),
            p.in_field(self.q as int),
        ensures
            r == self.spec_mul(n as nat, *p),
            r matches Ok(v) ==> v.in_field(self.q as int),
    {
        let mut n_c: u64 = n;
        let mut r_acc: Point = self.zero;
        let mut m2: Point = *p;
        while n_c > 0
            invariant
                r_acc.in_field(self.q as int),
                m2.in_field(self.q as int),
                self.spec_mul_step(n_c as nat, r_acc, m2)
                    == self.spec_mul_step(n as nat, Self::spec_identity(), *p),
            decreases n_c,
        {
            let ghost n0: nat = n_c as nat;
            let ghost racc0: Point = r_acc;
            let ghost m0: Point = m2;
            if n_c % 2 == 1 {
                match self.add(&r_acc, &m2) {
                    Ok(v) => {
                        r_acc = v;
                    },
                    Err(e) => {
                        return Err(e);
                    },
                }
            }
            m2 = match self.add(&m2, &m2) {
                Ok(v) => v,
                Err(e) => {
                    return Err(e);
                },
            };
            n_c = n_c / 2;
            proof {
                assert(self.spec_mul_step(n0, racc0, m0)
                    == self.spec_mul_step(n_c as nat, r_acc, m2));
            }
        }
        Ok(r_acc)
    }

    /// The brute-force order search from a running multiple `cur` that
    /// stands for `ord` copies of `g`; the counter guard in front only
    /// keeps the recursion well-founded.
    pub open spec fn spec_order_from(self, cur: Point, g: Point, ord: int) -> Result<
        u64,
        CurveError,
    >
        decreases self.q + 1 - ord,
    {
        if ord < 1 || ord > self.q + 1 {
            Err(CurveError::OrderNotFound)
        } else if cur == Self::spec_identity() {
            Ok(ord as u64)
        } else {
            match self.spec_add(cur, g) {
                Err(e) => Err(e),
                Ok(c2) => if ord + 1 > self.q {
                    Err(CurveError::OrderNotFound)
                } else {
                    self.spec_order_from(c2, g, ord + 1)
                },
            }
        }
    }

    /// The order of a point `g`: repeated addition until the identity,
    /// giving up once the count passes the modulus.
    pub open spec fn spec_order(self, g: Point) -> Result<u64, CurveError> {
        self.spec_order_from(g, g, 1)
    }

    /// Computes the order of a point by repeatedly adding it until the
    /// identity is reached, failing with `OrderNotFound` past `q` steps.
    pub fn order(&self, g: &Point) -> (r: Result<u64, CurveError>)
        requires
            self.wf(),
            g.in_field(self.q as int),
        ensures
            r == self.spec_order(*g),
    {
        let mut ord: u64 = 1;
        let mut current: Point = *g;
        let zero_point: Point = self.zero;
        while current != zero_point
            invariant
                1 <= ord <= self.q,
                zero_point == Self::spec_identity(),
                current.in_field(self.q as int),
                self.spec_order_from(current, *g, ord as int) == self.spec_order(*g),
            decreases self.q - ord,
        {
            ord = ord + 1;
            current = match self.add(&current, g) {
                Ok(v) => v,
                Err(e) => {
                    return Err(e);
                },
            };
            if ord > self.q {
                return Err(CurveError::OrderNotFound);
            }
        }
        Ok(ord)
    }

    /// Relies on the `format!` macro of std to render the curve
    /// equation for humans; purely presentational.
    #[verifier::external_body]
    pub fn display(&self) -> String {
        format!("({}*x^2 + y^2 = 1 + {}*x^2*y^2) mod {}", self.a, self.b, self.q)
    }

    /// Law: adding the identity on either side returns the other
    /// operand unchanged, for every point.
    pub proof fn lemma_add_identity(self, p: Point)
        requires
            self.wf(),
        ensures
            self.spec_add(Self::spec_identity(), p) == Ok::<Point, CurveError>(p),
            self.spec_add(p, Self::spec_identity()) == Ok::<Point, CurveError>(p),
    {
    }

    /// Law: multiplying any point by the scalar zero gives the
    /// identity.
    pub proof fn lemma_mul_zero(self, p: Point)
        requires
            self.wf(),
        ensures
            self.spec_mul(0, p) == Ok::<Point, CurveError>(Self::spec_identity()),
    {
    }

    /// Law: multiplying a point by the scalar one returns the point
    /// itself; the only way it can fail is the doubling of `p` that
    /// double-and-add performs alongside.
    pub proof fn lemma_mul_one(self, p: Point)
        requires
            self.wf(),
        ensures
            self.spec_mul(1, p) matches Ok(v) ==> v == p,
            self.spec_mul(1, p) matches Err(e)
                ==> self.spec_add(p, p) == Err::<Point, CurveError>(e),
    {
        reveal_with_fuel(TwistedCurve::spec_mul_step, 3);
        self.lemma_add_identity(p);
    }

    /// Law: multiplying a point by the scalar two agrees with doubling
    /// (the addition law applied to the point and itself) whenever it
    /// succeeds.
    pub proof fn lemma_mul_two(self, p: Point)
        requires
            self.wf(),
        ensures
            self.spec_mul(2, p) matches Ok(v)
                ==> self.spec_add(p, p) == Ok::<Point, CurveError>(v),
    {
        reveal_with_fuel(TwistedCurve::spec_mul_step, 4);
        match self.spec_add(p, p) {
            Err(_) => {
            },
            Ok(m1) => {
                self.lemma_add_identity(m1);
                assert(self.spec_mul_step(2, Self::spec_identity(), p)
                    == self.spec_mul_step(1, Self::spec_identity(), m1));
            },
        }
    }
}

} // verus!

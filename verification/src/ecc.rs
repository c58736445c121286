//! The shared capability surface of the toolkit: the error kinds that
//! every fallible operation reports, and the closed set of curve models
//! behind one interface, so that a caller can pick a model and perform
//! group operations without knowing the model-specific formulas.

use vstd::prelude::*;
use crate::edwards_curve::EdwardsCurve;
use crate::montgomery_curve::MontgomeryCurve;
use crate::twisted_curve::TwistedCurve;
use crate::utils::spec_tonelli;
use crate::weierstrass_ecc::WeierstrassECC;

pub use crate::point::Point;

verus! {

/// Every failure the toolkit can report. Each one reflects a mathematical
/// impossibility for the given inputs, never a transient condition.
#[derive(Clone, Copy, Debug, PartialEq, Eq, Structural)]
pub enum CurveError {
    /// A value has no modular inverse with respect to the current prime;
    /// indicates a malformed parameter or a non-prime modulus.
    NoInverse,
    /// The square-root toolkit's input is not a quadratic residue, or a
    /// coordinate could not be recovered.
    NoSquareRoot,
    /// The order-search safety bound was exceeded.
    OrderNotFound,
    /// An operation's precondition that its operands lie on the curve was
    /// violated.
    InvalidPoint,
}

/// The closed set of curve models behind one capability interface.
/// Every operation dispatches to the variant's own formulas; the set of
/// models is fixed, so the handling is exhaustive.
pub enum EllipticCurve {
    Weierstrass(WeierstrassECC),
    Edwards(EdwardsCurve),
    TwistedEdwards(TwistedCurve),
    Montgomery(MontgomeryCurve),
}

impl EllipticCurve {
    /// The held variant's parameters are well-formed.
    pub open spec fn wf(self) -> bool {
        match self {
            EllipticCurve::Weierstrass(c) => c.wf(),
            EllipticCurve::Edwards(c) => c.wf(),
            EllipticCurve::TwistedEdwards(c) => c.wf(),
            EllipticCurve::Montgomery(c) => c.wf(),
        }
    }

    /// The prime modulus of the variant's field.
    pub open spec fn spec_q(self) -> u64 {
        match self {
            EllipticCurve::Weierstrass(c) => c.q,
            EllipticCurve::Edwards(c) => c.q,
            EllipticCurve::TwistedEdwards(c) => c.q,
            EllipticCurve::Montgomery(c) => c.q,
        }
    }

    /// The variant's identity sentinel: `(0, 0, 0)` for Weierstrass,
    /// `(0, 1, 0)` for the other three models.
    pub open spec fn spec_identity(self) -> Point {
        match self {
            EllipticCurve::Weierstrass(_) => WeierstrassECC::spec_identity(),
            EllipticCurve::Edwards(_) => EdwardsCurve::spec_identity(),
            EllipticCurve::TwistedEdwards(_) => TwistedCurve::spec_identity(),
            EllipticCurve::Montgomery(_) => MontgomeryCurve::spec_identity(),
        }
    }

    /// Validity under the variant's own defining equation.
    pub open spec fn spec_is_valid(self, p: Point) -> bool {
        match self {
            EllipticCurve::Weierstrass(c) => c.spec_is_valid(p),
            EllipticCurve::Edwards(c) => c.spec_is_valid(p),
            EllipticCurve::TwistedEdwards(c) => c.spec_is_valid(p),
            EllipticCurve::Montgomery(c) => c.spec_is_valid(p),
        }
    }

    /// The variant's group law.
    pub open spec fn spec_add(self, p: Point, o: Point) -> Result<Point, CurveError> {
        match self {
            EllipticCurve::Weierstrass(c) => c.spec_add(p, o),
            EllipticCurve::Edwards(c) => c.spec_add(p, o),
            EllipticCurve::TwistedEdwards(c) => c.spec_add(p, o),
            EllipticCurve::Montgomery(c) => c.spec_add(p, o),
        }
    }

    /// The variant's doubling: a dedicated tangent formula for
    /// Weierstrass, and one more application of the addition law for
    /// the other models.
    pub open spec fn spec_double(self, p: Point) -> Result<Point, CurveError> {
        match self {
            EllipticCurve::Weierstrass(c) => c.spec_double(p),
            EllipticCurve::Edwards(c) => c.spec_add(p, p),
            EllipticCurve::TwistedEdwards(c) => c.spec_add(p, p),
            EllipticCurve::Montgomery(c) => c.spec_add(p, p),
        }
    }

    /// The variant's scalar multiplication.
    pub open spec fn spec_mul(self, n: nat, p: Point) -> Result<Point, CurveError> {
        match self {
            EllipticCurve::Weierstrass(c) => c.spec_mul(n, p),
            EllipticCurve::Edwards(c) => c.spec_mul(n, p),
            EllipticCurve::TwistedEdwards(c) => c.spec_mul(n, p),
            EllipticCurve::Montgomery(c) => c.spec_mul(n, p),
        }
    }

    /// The variant's order search.
    pub open spec fn spec_order(self, g: Point) -> Result<u64, CurveError> {
        match self {
            EllipticCurve::Weierstrass(c) => c.spec_order(g),
            EllipticCurve::Edwards(c) => c.spec_order(g),
            EllipticCurve::TwistedEdwards(c) => c.spec_order(g),
            EllipticCurve::Montgomery(c) => c.spec_order(g),
        }
    }

    /// The modulus of the curve's field.
    pub fn q(&self) -> (r: u64)
        ensures
            r == self.spec_q(),
    {
        match self {
            EllipticCurve::Weierstrass(c) => c.q,
            EllipticCurve::Edwards(c) => c.q,
            EllipticCurve::TwistedEdwards(c) => c.q,
            EllipticCurve::Montgomery(c) => c.q,
        }
    }

    /// Checks whether a point is valid on the curve.
    pub fn is_valid(&self, p: &Point) -> (r: bool)
        requires
            self.wf(),
        ensures
            r == self.spec_is_valid(*p),
    {
        match self {
            EllipticCurve::Weierstrass(c) => c.is_valid(p),
            EllipticCurve::Edwards(c) => c.is_valid(p),
            EllipticCurve::TwistedEdwards(c) => c.is_valid(p),
            EllipticCurve::Montgomery(c) => c.is_valid(p),
        }
    }

    /// Adds two points by the variant's group law.
    pub fn add(&self, p: &Point, o: &Point) -> (r: Result<Point, CurveError>)
        requires
            self.wf(),
            p.in_field(self.spec_q() as int),
            o.in_field(self.spec_q() as int),
        ensures
            r == self.spec_add(*p, *o),
            r matches Ok(v) ==> v.in_field(self.spec_q() as int),
    {
        match self {
            EllipticCurve::Weierstrass(c) => c.add(p, o),
            EllipticCurve::Edwards(c) => c.add(p, o),
            EllipticCurve::TwistedEdwards(c) => c.add(p, o),
            EllipticCurve::Montgomery(c) => c.add(p, o),
        }
    }

    /// Doubles a point by the variant's doubling rule.
    pub fn double(&self, p: &Point) -> (r: Result<Point, CurveError>)
        requires
            self.wf(),
            p.in_field(self.spec_q() as int),
        ensures
            r == self.spec_double(*p),
            r matches Ok(v) ==> v.in_field(self.spec_q() as int),
    {
        match self {
            EllipticCurve::Weierstrass(c) => c.double(p),
            EllipticCurve::Edwards(c) => c.double(p),
            EllipticCurve::TwistedEdwards(c) => c.double(p),
            EllipticCurve::Montgomery(c) => c.double(p),
        }
    }

    /// Multiplies a point by a scalar with the variant's double-and-add.
    pub fn mul(&self, n: u64, p: &Point) -> (r: Result<Point, CurveError>)
        requires
            self.wf(),
            p.in_field(self.spec_q() as int),
        ensures
            r == self.spec_mul(n as nat, *p),
            r matches Ok(v) ==> v.in_field(self.spec_q() as int),
    {
        match self {
            EllipticCurve::Weierstrass(c) => c.mul(n, p),
            EllipticCurve::Edwards(c) => c.mul(n, p),
            EllipticCurve::TwistedEdwards(c) => c.mul(n, p),
            EllipticCurve::Montgomery(c) => c.mul(n, p),
        }
    }

    /// Computes the order of a generator by the variant's search.
    pub fn order(&self, g: &Point) -> (r: Result<u64, CurveError>)
        requires
            self.wf(),
            g.in_field(self.spec_q() as int),
        ensures
            r == self.spec_order(*g),
    {
        match self {
            EllipticCurve::Weierstrass(c) => c.order(g),
            EllipticCurve::Edwards(c) => c.order(g),
            EllipticCurve::TwistedEdwards(c) => c.order(g),
            EllipticCurve::Montgomery(c) => c.order(g),
        }
    }

    /// Given one coordinate (x for Weierstrass, y for the Edwards
    /// models), recovers the two points sharing it; the Montgomery
    /// model supports no recovery and always fails. The Edwards
    /// models' recovery exponent restricts their moduli to
    /// `q = 5 (mod 8)`.
    pub fn at(&self, coord: u64) -> (r: Result<(Point, Point), CurveError>)
        requires
            self.wf(),
            coord < self.spec_q(),
            self matches EllipticCurve::Edwards(c) ==> c.q % 8 == 5,
            self matches EllipticCurve::TwistedEdwards(c) ==> c.q % 8 == 5,
        ensures
            self matches EllipticCurve::Edwards(c) ==> r == c.spec_at(coord),
            self matches EllipticCurve::TwistedEdwards(c) ==> r == c.spec_at(coord),
            self matches EllipticCurve::Montgomery(c)
                ==> r == Err::<(Point, Point), CurveError>(CurveError::NoSquareRoot),
            self matches EllipticCurve::Weierstrass(c) ==> (r matches Ok(pair)
                ==> pair.0.x == coord && pair.1.x == coord
                    && c.spec_is_valid(pair.0) && c.spec_is_valid(pair.1)),
            self matches EllipticCurve::Weierstrass(c) ==> ((r is Err)
                <==> spec_tonelli(c.spec_rhs(coord as int), c.q as int) is Err),
    {
        match self {
            EllipticCurve::Weierstrass(c) => c.at(coord),
            EllipticCurve::Edwards(c) => c.at(coord),
            EllipticCurve::TwistedEdwards(c) => c.at(coord),
            EllipticCurve::Montgomery(c) => c.at(coord),
        }
    }

    /// The human-readable equation of the held variant.
    pub fn display(&self) -> String {
        match self {
            EllipticCurve::Weierstrass(c) => c.display(),
            EllipticCurve::Edwards(c) => c.display(),
            EllipticCurve::TwistedEdwards(c) => c.display(),
            EllipticCurve::Montgomery(c) => c.display(),
        }
    }

    /// Law, for every variant: adding the variant's identity on either
    /// side returns the other operand unchanged, for every canonical
    /// valid point (with the `z == 0` marker the Edwards operations
    /// use, for that model).
    pub proof fn lemma_add_identity(self, p: Point)
        requires
            self.wf(),
            p.in_field(self.spec_q() as int),
            self.spec_is_valid(p),
            self matches EllipticCurve::Edwards(_) ==> p.z == 0,
        ensures
            self.spec_add(self.spec_identity(), p) == Ok::<Point, CurveError>(p),
            self.spec_add(p, self.spec_identity()) == Ok::<Point, CurveError>(p),
    {
        match self {
            EllipticCurve::Weierstrass(c) => c.lemma_add_identity(p),
            EllipticCurve::Edwards(c) => c.lemma_add_identity(p),
            EllipticCurve::TwistedEdwards(c) => c.lemma_add_identity(p),
            EllipticCurve::Montgomery(c) => c.lemma_add_identity(p),
        }
    }

    /// Law, for every variant: multiplying any point by the scalar
    /// zero gives the variant's identity.
    pub proof fn lemma_mul_zero(self, p: Point)
        requires
            self.wf(),
        ensures
            self.spec_mul(0, p) == Ok::<Point, CurveError>(self.spec_identity()),
    {
        match self {
            EllipticCurve::Weierstrass(c) => c.lemma_mul_zero(p),
            EllipticCurve::Edwards(c) => c.lemma_mul_zero(p),
            EllipticCurve::TwistedEdwards(c) => c.lemma_mul_zero(p),
            EllipticCurve::Montgomery(c) => c.lemma_mul_zero(p),
        }
    }

    /// Law, for every variant: when multiplying a canonical valid
    /// point by the scalar one succeeds, it returns a point with the
    /// same affine coordinates (the point itself, up to the
    /// normalization marker).
    pub proof fn lemma_mul_one(self, p: Point)
        requires
            self.wf(),
            p.in_field(self.spec_q() as int),
            self.spec_is_valid(p),
            self matches EllipticCurve::Edwards(_) ==> p.z == 0,
        ensures
            self.spec_mul(1, p) matches Ok(v) ==> v.x == p.x && v.y == p.y,
    {
        match self {
            EllipticCurve::Weierstrass(c) => {
                c.lemma_mul_one(p);
                if c.spec_mul(1, p) matches Ok(v) {
                    if p != WeierstrassECC::spec_identity() {
                        vstd::arithmetic::div_mod::lemma_small_mod(p.x as nat, c.q as nat);
                        vstd::arithmetic::div_mod::lemma_small_mod(p.y as nat, c.q as nat);
                    }
                }
            },
            EllipticCurve::Edwards(c) => c.lemma_mul_one(p),
            EllipticCurve::TwistedEdwards(c) => c.lemma_mul_one(p),
            EllipticCurve::Montgomery(c) => c.lemma_mul_one(p),
        }
    }

    /// Law, for every variant: when multiplying a canonical valid
    /// point by the scalar two succeeds, doubling succeeds as well and
    /// both give the same affine coordinates.
    pub proof fn lemma_mul_two(self, p: Point)
        requires
            self.wf(),
            p.in_field(self.spec_q() as int),
            self.spec_is_valid(p),
            self matches EllipticCurve::Edwards(_) ==> p.z == 0,
        ensures
            self.spec_mul(2, p) matches Ok(v) ==> (self.spec_double(p) matches Ok(w)
                && v.x == w.x && v.y == w.y),
    {
        match self {
            EllipticCurve::Weierstrass(c) => c.lemma_mul_two(p),
            EllipticCurve::Edwards(c) => c.lemma_mul_two(p),
            EllipticCurve::TwistedEdwards(c) => c.lemma_mul_two(p),
            EllipticCurve::Montgomery(c) => c.lemma_mul_two(p),
        }
    }
}

} // verus!

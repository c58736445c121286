//! A DSA-style key-generation consumer of the curve capability: it
//! validates a generator, computes the group order, and derives a key
//! pair by scalar multiplication with a freshly drawn private scalar.

use vstd::prelude::*;
use rand::Rng;
use crate::ecc::{CurveError, EllipticCurve};
use crate::point::Point;

verus! {

/// Relies on rand's `Rng::random_range` over `lo..hi`: it returns a
/// uniformly drawn value of that half-open range and panics only when
/// the range is empty, which the precondition excludes. Nothing more is
/// assumed of the outcome.
#[verifier::external_body]
fn random_scalar(lo: u64, hi: u64) -> (r: u64)
    requires
        lo < hi,
    ensures
        lo <= r < hi,
{
    rand::rng().random_range(lo..hi)
}

/// A key-generation instance: a validated generator `g` on the curve
/// `ec`, with `n` the computed order of `g`.
pub struct DSA {
    pub g: Point,
    pub n: u64,
    pub ec: EllipticCurve,
}

impl DSA {
    /// The instance is internally consistent: a well-formed curve, a
    /// canonical valid generator, and `n` its computed order.
    pub open spec fn wf(self) -> bool {
        &&& self.ec.wf()
        &&& self.g.in_field(self.ec.spec_q() as int)
        &&& self.ec.spec_is_valid(self.g)
        &&& self.ec.spec_order(self.g) == Ok::<u64, CurveError>(self.n)
    }

    /// Creates a new DSA instance: rejects a generator that is not on
    /// the curve, and computes the group order of `g` by the curve's
    /// order search, propagating its failure.
    pub fn new(g: Point, ec: EllipticCurve) -> (r: Result<DSA, CurveError>)
        requires
            ec.wf(),
            g.in_field(ec.spec_q() as int),
        ensures
            match r {
                Ok(d) => d.g == g && d.ec == ec && d.wf()
                    && ec.spec_order(g) == Ok::<u64, CurveError>(d.n),
                Err(e) => {
                    &&& !ec.spec_is_valid(g) ==> e == CurveError::InvalidPoint
                    &&& ec.spec_is_valid(g) ==> ec.spec_order(g)
                        == Err::<u64, CurveError>(e)
                },
            },
    {
        if !ec.is_valid(&g) {
            return Err(CurveError::InvalidPoint);
        }
        let n: u64 = match ec.order(&g) {
            Ok(v) => v,
            Err(e) => {
                return Err(e);
            },
        };
        Ok(DSA { g, n, ec })
    }

    /// Derives a key pair: draws a private scalar uniformly from
    /// `[1, n)` and returns it with the public point `priv * g`. Any
    /// group-law failure during the multiplication is propagated.
    pub fn gen_key(&self) -> (r: Result<(u64, Point), CurveError>)
        requires
            self.wf(),
            self.n >= 2,
        ensures
            match r {
                Ok(kp) => 1 <= kp.0 < self.n
                    && self.ec.spec_mul(kp.0 as nat, self.g)
                        == Ok::<Point, CurveError>(kp.1),
                Err(e) => exists|k: u64|
                    1 <= k < self.n && #[trigger] self.ec.spec_mul(k as nat, self.g)
                        == Err::<Point, CurveError>(e),
            },
    {
        let priv_gen: u64 = random_scalar(1, self.n);
        match self.ec.mul(priv_gen, &self.g) {
            Ok(point_pub) => Ok((priv_gen, point_pub)),
            Err(e) => {
                proof {
                    assert(1 <= priv_gen < self.n
                        && self.ec.spec_mul(priv_gen as nat, self.g)
                            == Err::<Point, CurveError>(e));
                }
                Err(e)
            },
        }
    }
}

} // verus!

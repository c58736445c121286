//! The point entity: an (x, y, z) coordinate triple holding either a
//! finite affine point or a model-specific identity sentinel. `z` is a
//! normalization marker (1 = confirmed reduced finite form), never a
//! homogeneous projective coordinate.

use vstd::prelude::*;
use crate::ecc::CurveError;
use crate::utils::{Utils, coprime, has_inv, inv_mod, lemma_inv_unique};

verus! {

/// A point on a curve over the prime field of some modulus `q`.
#[derive(Debug, Clone, Copy, PartialEq, Eq, Structural)]
pub struct Point {
    pub x: u64,
    pub y: u64,
    pub z: u64,
}

impl Point {
    /// All three coordinates are canonical field elements for modulus `q`.
    pub open spec fn in_field(self, q: int) -> bool {
        self.x < q && self.y < q && self.z < q
    }

    /// The affine reading of a coordinate pair once each is scaled by
    /// the inverse of its `z`: two normalized points are affine-equal
    /// exactly when these agree.
    pub open spec fn affine_coords(self, q: int) -> (int, int) {
        (((self.x as int) * inv_mod(self.z as int, q)) % q,
         ((self.y as int) * inv_mod(self.z as int, q)) % q)
    }

    /// Compares two points up to scaling by `z`. Points marked with
    /// `z == 0` (identity or not-yet-normalized form) are compared
    /// structurally; otherwise each point is normalized by the modular
    /// inverse of its `z` and the resulting affine pairs are compared.
    /// Reports `NoInverse` when a nonzero `z` shares a factor with `q`,
    /// which cannot happen for a correctly constructed point.
    pub fn eq_affine(&self, other: &Point, q: u64) -> (r: Result<bool, CurveError>)
        requires
            2 <= q <= 0xFFFF_FFFF,
            self.in_field(q as int),
            other.in_field(q as int),
        ensures
            match r {
                Ok(b) => {
                    &&& self.z == 0 || other.z == 0 ==> b == (self == other)
                    &&& self.z != 0 && other.z != 0 ==> {
                        &&& coprime(q as nat, self.z as nat)
                        &&& coprime(q as nat, other.z as nat)
                        &&& b == (self.affine_coords(q as int) == other.affine_coords(q as int))
                    }
                },
                Err(e) => {
                    &&& e == CurveError::NoInverse
                    &&& self.z != 0 && other.z != 0
                    &&& !(coprime(q as nat, self.z as nat) && coprime(q as nat, other.z as nat))
                },
            },
    {
        let ghost gq: int = q as int;
        if self.z == 0 || other.z == 0 {
            return Ok(self.x == other.x && self.y == other.y && self.z == other.z);
        }
        let inv_self_z: u64 = match Utils::mod_inv(self.z, q) {
            Ok(v) => v,
            Err(e) => {
                return Err(e);
            },
        };
        let inv_other_z: u64 = match Utils::mod_inv(other.z, q) {
            Ok(v) => v,
            Err(e) => {
                return Err(e);
            },
        };
        proof {
            assert(has_inv(self.z as int, gq, inv_self_z as int));
            assert(has_inv(other.z as int, gq, inv_other_z as int));
            lemma_inv_unique(self.z as int, gq, inv_self_z as int,
                inv_mod(self.z as int, gq));
            lemma_inv_unique(other.z as int, gq, inv_other_z as int,
                inv_mod(other.z as int, gq));
            assert(self.x * inv_self_z < 0x1_0000_0000_0000_0000
                && self.y * inv_self_z < 0x1_0000_0000_0000_0000
                && other.x * inv_other_z < 0x1_0000_0000_0000_0000
                && other.y * inv_other_z < 0x1_0000_0000_0000_0000) by (nonlinear_arith)
                requires
                    self.x < 0x1_0000_0000, self.y < 0x1_0000_0000,
                    other.x < 0x1_0000_0000, other.y < 0x1_0000_0000,
                    inv_self_z < 0x1_0000_0000, inv_other_z < 0x1_0000_0000;
        }
        let x1: u64 = (self.x * inv_self_z) % q;
        let y1: u64 = (self.y * inv_self_z) % q;
        let x2: u64 = (other.x * inv_other_z) % q;
        let y2: u64 = (other.y * inv_other_z) % q;
        Ok(x1 == x2 && y1 == y2)
    }
}

} // verus!

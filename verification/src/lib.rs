//! Elliptic-curve group arithmetic over a prime field, for four curve
//! models (short Weierstrass, Edwards, twisted Edwards, Montgomery)
//! behind one capability interface, together with the modular-arithmetic
//! toolkit (modular exponentiation, modular inverse, Tonelli-Shanks
//! square roots) that the curve formulas rest on.
//!
//! Field elements are `u64` values held in canonical form `[0, q)` for a
//! curve modulus `q`; every operation reduces modulo `q`. Moduli are
//! toy-sized by design (`q < 2^32`), so all intermediate products fit in
//! `u64` after stepwise reduction.
#![verifier::loop_isolation(false)]

use vstd::prelude::*;

pub mod dsa;
pub mod ecc;
pub mod edwards_curve;
pub mod montgomery_curve;
pub mod point;
pub mod twisted_curve;
pub mod utils;
pub mod weierstrass_ecc;

verus! {

} // verus!

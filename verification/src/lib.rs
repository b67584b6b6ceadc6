//! Circuit gadgets for a bilinear-pairing computation over the Goldilocks
//! field: tower-field arithmetic, affine curve-point operations, the Miller
//! loop, a simplified final exponentiation, and Poseidon digest binding.
//!
//! Gadgets build an explicit constraint-system description (`CircuitCtx`);
//! every gadget's contract states, for every assignment that satisfies the
//! constraints, how the values of its output wires relate to the values of
//! its input wires.  The description is evaluated here for witness
//! generation and lowered onto the external proving backend's builder for
//! key generation, proving and verification.
use vstd::prelude::*;

pub mod gf;
pub mod vals;
pub mod laws2;
pub mod laws6;
pub mod laws12;
pub mod circuit;
pub mod fp2;
pub mod fp6;
pub mod fp12;
pub mod ec;
pub mod pairing;
pub mod signature;
pub mod eval;
pub mod assembly;

verus! {

} // verus!

//! Sponge-based hashing gadgets for arithmetic circuits.
//!
//! The crate provides a duplex-sponge construction over a prime field,
//! fixed-arity hash primitives built on it (leaf hash, two-to-one hash and a
//! streaming hash chain), an oblivious multiplexer, and a Merkle
//! authentication-path verifier.  Every primitive exists in two mirrored
//! forms that share one specification model: a concrete form computing field
//! values, and a circuit form that emits constraints over allocated
//! variables reproducing the identical computation.

use vstd::prelude::*;

pub mod fr;
pub mod permutation;
pub mod constraints;
pub mod sponge;
pub mod sponge_gadget;
pub mod leafhash;
pub mod two_to_one_hash;
pub mod hashchain;
pub mod mux;
pub mod merkle_tree;

verus! {

/// Malformed construction arguments, detected eagerly: a sponge with a zero
/// rate or capacity, a multiplexer whose width is not a power of two
/// matching its selector count, or a Merkle path whose selector-bit and
/// sibling sequences have different lengths.
#[derive(Clone, Copy, Debug, PartialEq, Eq, Structural)]
pub enum ConfigurationError {
    ZeroRate,
    ZeroCapacity,
    WidthNotPowerOfTwo,
    LengthMismatch,
}

} // verus!

//! Keccak-f[1600] and the sponge construction built on it: the SHA-3 and
//! SHAKE hash families plus the original (pre-standardization) Keccak
//! variants.
//!
//! The permutation is a pure transformation of a 25-lane (1600-bit) state;
//! the sponge driver absorbs arbitrary-length input, applies multi-rate
//! padding, and squeezes an arbitrary-length output. Both are specified by
//! spec-level models (`spec_keccakf`, `spec_keccak_hash`) that every
//! executable function is proved against.

pub mod permutation;
pub mod sponge;

pub use permutation::keccakf;
pub use sponge::Keccak;

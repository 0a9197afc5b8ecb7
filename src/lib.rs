//! Verification of membership and non-membership proofs against the root of a
//! sparse Merkle tree.
//!
//! [`digest`] holds the byte-string digests and the three hash combinations
//! that the tree is built from; [`merkle`] holds the proof object, its sanity
//! predicate and the recombination of a claimed path into a root digest.
use vstd::prelude::*;

pub mod digest;
pub mod merkle;

pub use digest::Digest;
pub use merkle::{has_bit, Proof, ProofType, VerifyError};

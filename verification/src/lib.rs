//! Binary Merkle commitments over 32-byte Keccak-256 digests, with a few
//! helpers for tests that put such a commitment on a ledger.
//!
//! A tree is built bottom-up from an ordered list of leaf digests. Two nodes
//! are combined by hashing them in ascending byte order, so an inclusion proof
//! is a bare list of sibling digests that needs no left/right markers, and a
//! verifier needs nothing but the leaf, the proof and the root.
//!
//! - `hasher`: the digest function, the order of digests and the pair combiner.
//! - `merkle_tree`: the tree, its root and proofs, and the standalone verifier.
//! - `theorems`: what holds of every tree and every proof.
//! - `account`, `clock`, `utils`: account framing, clock stepping and token
//!   units for ledger tests.

pub mod account;
pub mod clock;
pub mod hasher;
pub mod merkle_tree;
pub mod theorems;
pub mod utils;

//! Commitment and dispute engine for an optimistic rollup: homomorphic
//! commitments over a prime-order group, a Merkle tree whose nodes carry
//! subtree aggregates, an interactive bisection game, a single-step verifier
//! and the incentive accounting around them.

pub mod aggregation;
pub mod bisection;
pub mod bond;
pub mod bytes;
pub mod circuit;
pub mod commitment;
pub mod digest;
pub mod encoding;
pub mod erasure;
pub mod errors;
pub mod field;
pub mod group;
pub mod merkle;
pub mod resolution;
pub mod reward;
pub mod sampling;
pub mod stake;
pub mod storage;
pub mod text;
pub mod transcript;
pub mod witness;

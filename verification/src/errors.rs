//! The error taxonomy of the commitment, tree and dispute layers.

use vstd::prelude::*;

verus! {

/// What a fallible operation of the core reports. Each variant carries a
/// short description of the failure.
#[derive(Debug, Clone)]
pub enum ArchimedesError {
    /// The trusted setup drew an identity generator.
    SetupError(String),
    /// A commitment could not be computed.
    CommitmentError(String),
    /// A commitment could not be checked.
    VerificationError(String),
    /// An aggregation range is not within the chain.
    AggregationError(String),
    /// An argument is not acceptable.
    InvalidInput(String),
    /// A value is not in canonical form.
    SerializationError(String),
    /// A batch to encode is empty.
    StateEncodingError(String),
    /// A tree is empty, or an index or range is outside it.
    MerkleTreeError(String),
    /// A dispute message does not fit the state of the game.
    DisputeError(String),
}

} // verus!

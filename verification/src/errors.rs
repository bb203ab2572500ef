use vstd::prelude::*;

verus! {

/// Failure classes of the harness, one per operation family that can go wrong.
#[derive(Debug)]
pub enum HarnessError {
    /// A node or indexer executable could not be located or started.
    EnvironmentSetup,
    /// A node RPC call failed or returned a malformed response.
    NodeRpc,
    /// An indexer RPC call failed.
    IndexerRpc,
    /// A block template carried difficulty bits that are not a 4-byte hex string.
    ConsensusDecode,
    /// The proof-of-work search exhausted the whole nonce space without success.
    ConsensusConstruction,
    /// The node answered a block submission with a non-null payload, carried here.
    BlockSubmissionRejected(String),
    /// A bounded poll elapsed without the awaited observation; carries the operation name.
    TimedOut(String),
    /// A reorg finished at a height other than the one it started from.
    InvariantViolation,
}

} // verus!

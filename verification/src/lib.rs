//! A deterministic blockchain-test harness core: it drives a regtest node
//! and a chain indexer, and provides the verified primitives those drivers
//! rest on — building and proof-of-work mining a guaranteed-empty block,
//! reorganizing the chain while preserving its height, polling an
//! eventually-consistent indexer under a bounded timeout, and materializing
//! the chain as a back-linked checkpoint list.

pub mod chain;
pub mod checkpoint;
pub mod coinbase;
pub mod encode;
pub mod errors;
pub mod miner;
pub mod poller;
pub mod pow;
pub mod scriptnum;

//! What the network reads of the committed state of the header engine.
use vstd::prelude::*;

use crate::chain::{BlockHash, Height, U256};

verus! {

/// A block on the committed chain.
#[derive(Clone, Copy, Debug, PartialEq, Eq)]
pub struct Frontier {
    /// Height of the block.
    pub height: Height,
    /// Hash of the block.
    pub hash: BlockHash,
}

/// The frontiers of one committed snapshot.
#[derive(Clone, Copy, Debug, PartialEq, Eq)]
pub struct FrontierSet {
    /// The finalized frontier.
    pub finalized: Frontier,
    /// The best header frontier.
    pub header_best: Frontier,
    /// The best verified block frontier.
    pub verified_best: Frontier,
}

/// How a header chain ranks against others.
#[derive(Clone, Copy, Debug, PartialEq, Eq)]
pub struct ChainScore {
    /// Exact work after the finalized frontier through the tip.
    pub suffix_work: U256,
    /// Hash of the tip.
    pub tip_hash: BlockHash,
}

/// One atomic snapshot of the header engine.
#[derive(Clone, Copy, Debug, PartialEq, Eq)]
pub struct EngineSnapshot {
    /// Counts committed snapshots.
    pub state_version: u64,
    /// Counts changes of the best header chain.
    pub header_generation: u64,
    /// Counts changes of the verified chain other than growth.
    pub verified_generation: u64,
    /// The frontiers.
    pub frontiers: FrontierSet,
    /// The score of the best header chain.
    pub header_best_score: ChainScore,
    /// Lowest height whose branch data is retained.
    pub oldest_retained_height: Height,
}

} // verus!

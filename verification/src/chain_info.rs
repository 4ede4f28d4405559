//! Descriptions of the networks a cross-chain payload travels between.

use vstd::prelude::*;

verus! {

/// Identifies a blockchain network.
#[derive(Clone, Debug)]
pub struct ChainInfo {
    /// Unique chain identifier (the chain id the network defines).
    pub chain_id: u64,
    /// Human-readable name of the chain, such as "stellar" or "ethereum".
    pub chain_name: String,
    /// Network version or fork identifier.
    pub network_version: u32,
    /// The bridge or registry contract on this chain.
    pub bridge_contract: [u8; 32],
    /// Consensus round or epoch number.
    pub consensus_round: u64,
    /// Whether this chain is active in the cross-chain network.
    pub is_active: bool,
}

/// A bridge between two chains.
#[derive(Clone, Debug)]
pub struct BridgeEndpoint {
    pub source_chain: ChainInfo,
    pub destination_chain: ChainInfo,
    /// Bridge fee in hundredths of a percent (100 = 1%).
    pub fee_percentage: u32,
    /// Minimum liquidity the bridge requires.
    pub min_liquidity: i128,
    pub is_enabled: bool,
}

/// The validator set of a chain.
#[derive(Clone, Debug)]
pub struct ValidatorSet {
    pub chain_info: ChainInfo,
    /// Validators needed to reach consensus.
    pub quorum_threshold: u32,
    /// Validators in the set.
    pub total_validators: u32,
    /// Hash of the current validator list.
    pub validator_list_hash: [u8; 32],
    /// Version of this validator set.
    pub version: u32,
}

} // verus!

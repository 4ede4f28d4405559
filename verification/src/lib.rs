//! Verified models of a collection of Soroban smart contracts.

pub mod math;
pub mod ledger;
pub mod hybrid_amm;
pub mod english_auction;
pub mod oracle_aggregator;
pub mod multi_yield_vault;
pub mod batch_transfer;
pub mod private_transfer;
pub mod admin_guard;
pub mod auction_factory;
pub mod gasless;
pub mod cpu_heavy;
pub mod storage_heavy;
pub mod token_balance;
pub mod soulbound_token;
pub mod small_contracts;
pub mod chain_info;
pub mod did_registry;

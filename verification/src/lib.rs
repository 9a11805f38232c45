//! ShardMeld: content-defined reconstruction, BitTorrent v1 bridging and the
//! SMD devnet economy, with their data formats and accounting rules verified.

mod amount;
pub mod text;

pub use amount::{Amount, AmountError, ATOMIC_UNITS_PER_SMD};
mod supply;

pub use supply::{
    genesis_reserve, max_network_emission, max_supply, supply_check, supply_consistent, SupplyError,
    SupplyState, GENESIS_RESERVE_ATOMIC, MAX_NETWORK_EMISSION_ATOMIC, MAX_SUPPLY_ATOMIC,
};
mod emission;

pub use emission::{EmissionError, EmissionQuote, VersionedEmissionPolicy};
mod bytes;
pub mod contribution;
pub mod rewards;
pub mod pricing;
pub mod bencode;
pub mod codec;
pub mod metadata;
pub mod tracker;
pub mod peer;
pub mod seed;
pub mod profile;
pub mod chunker;
pub mod descriptor;
pub mod capabilities;
pub mod magnet;
pub mod crypto;
pub mod address;
pub mod json;
pub mod wallet;
pub mod transaction;
pub mod ledger;
pub mod consensus;
pub mod devnet;
pub mod audit;
pub mod bridge;
pub mod workflow;
pub mod resume;

//! Option contracts, their books, and the chains that hold them.
pub mod book;
pub mod chain;
pub mod contract;
mod contracts;
pub mod effects;
pub mod event;
pub mod laws;
mod levels;
pub mod manager;
pub mod snapshot;

pub use book::{
    OptionBook, OptionGreeksSnapshot, OptionQuote, PricingOutcome, PricingRequest,
};
pub use chain::OptionChain;
pub use contract::{OptionContract, OptionContractKey};
pub use event::{OptionOrderAction, OptionOrderEvent};
pub use manager::OptionChainManager;
pub use snapshot::{
    AggregatedOptionSnapshot, OptionContractSnapshot, MAX_CONTRACTS_PER_CHAIN,
    MAX_STRIKES_PER_EXPIRY, MSG_TYPE_OPTION_SNAPSHOT, MSG_TYPE_SPOT_BBO,
    OPTION_CONTRACT_SERIALIZED_SIZE, OPTION_HEADER_SERIALIZED_SIZE,
};

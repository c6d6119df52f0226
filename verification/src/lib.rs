//! Limit order books for equities and options, fed by a binary multicast
//! market-data protocol.
mod bounded;
pub mod broadcast;
pub mod clients;
pub mod encoding;
pub mod gateway;
pub mod generator;
mod lists;
pub mod options;
pub mod orderbook;
pub mod pipeline;
pub mod pricing;
pub mod protocol;
mod table;
pub mod tap;
pub mod wire;

pub use options::{
    AggregatedOptionSnapshot, OptionBook, OptionChain, OptionChainManager, OptionContract,
    OptionContractKey, OptionContractSnapshot, OptionGreeksSnapshot, OptionOrderAction,
    OptionOrderEvent, OptionQuote,
};
pub use orderbook::{BboSnapshot, BboUpdate, OrderBook, PriceLevel};
pub use pipeline::Pipeline;
pub use pricing::{BsmResult, OptionType};
pub use protocol::{ItchEvent, ItchParser, Side};

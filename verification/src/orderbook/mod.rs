//! Price-level order books: one per stock, and the set of all of them.
pub mod book;
pub mod books;
pub mod effects;
pub mod laws;
pub mod level;
pub mod model;
mod side;

pub use book::SingleOrderBook;
pub use books::OrderBook;
pub use level::{BboSnapshot, BboUpdate, PriceLevel, BBO_SERIALIZED_SIZE, MAX_LEVELS};

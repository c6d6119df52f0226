//! The values that option pricing works on.
//!
//! Prices of the model are real numbers. The library does not compute with them:
//! it hands out what a pricing model needs and carries what it gives back.
use vstd::prelude::*;

verus! {

/// A real number, as the bit pattern of an IEEE 754 double.
#[derive(Debug, Clone, Copy)]
pub struct Real {
    pub bits: u64,
}

#[derive(Debug, Clone, Copy, PartialEq, Eq, Hash, Structural)]
pub enum OptionType {
    Call,
    Put,
}

/// What the model says of an option: its price, how that reacts, and the
/// volatility at which it holds.
#[derive(Debug, Clone, Copy)]
pub struct BsmResult {
    pub price: Real,
    pub delta: Real,
    pub gamma: Real,
    pub vega: Real,
    pub theta: Real,
    pub rho: Real,
    pub implied_volatility: Real,
}

} // verus!

//! The book of one option contract and the pricing that goes with it.
use crate::options::contract::{OptionContract, OptionContractKey};
use crate::options::event::OptionOrderAction;
use crate::options::levels::{add_to_level, best_level, level_has_room, take_from_level};
use crate::orderbook::level::{BboSnapshot, PriceLevel};
use crate::orderbook::model::{best, has_room, keyed_by_price, quote, with_order, without_shares,
    OrderInfo};
use crate::pricing::{BsmResult, OptionType, Real};
use crate::protocol::Side;
use crate::table::Table;
use vstd::prelude::*;

verus! {

/// A quote of a contract at one moment.
#[derive(Debug, Clone, Copy, PartialEq, Eq, Structural)]
pub struct OptionQuote {
    pub contract_key: OptionContractKey,
    pub bid_price: u64,
    pub bid_volume: u64,
    pub ask_price: u64,
    pub ask_volume: u64,
    pub timestamp: u64,
}

/// The pricing of a contract at one moment.
#[derive(Debug, Clone, Copy)]
pub struct OptionGreeksSnapshot {
    pub contract_key: OptionContractKey,
    pub implied_volatility: Real,
    pub delta: Real,
    pub gamma: Real,
    pub vega: Real,
    pub theta: Real,
    pub rho: Real,
    pub model_price: Real,
    pub spot_price: Real,
    pub mid_price: Real,
}

/// What a pricing model is asked: at which volatility the model gives the mean of
/// the two quotes. Prices are in ten-thousandths, the time left is in seconds.
#[derive(Debug, Clone, Copy)]
pub struct PricingRequest {
    pub contract_key: OptionContractKey,
    pub bid_price: u64,
    pub ask_price: u64,
    pub spot_price: Real,
    pub strike_price: u64,
    pub risk_free_rate: Real,
    pub seconds_to_maturity: u64,
    pub option_type: OptionType,
}

/// What a pricing model answers: the mean of the quotes, and the model's values
/// where it found a volatility.
#[derive(Debug, Clone, Copy)]
pub struct PricingOutcome {
    pub mid_price: Real,
    pub result: Option<BsmResult>,
}

/// The state of the book of one contract.
#[verifier::ext_equal]
pub struct OptionBookState {
    pub contract: OptionContract,
    pub bids: Map<u64, PriceLevel>,
    pub asks: Map<u64, PriceLevel>,
    pub orders: Map<u64, OrderInfo>,
    /// The best prices and volumes at which the contract was last priced.
    pub last_bbo: Option<(u64, u64, u64, u64)>,
    pub last_pricing: Option<BsmResult>,
    pub last_spot_price: Option<Real>,
    /// Whether something has changed since the contract was last priced.
    pub pricing_dirty: bool,
}

impl OptionBookState {
    pub open spec fn empty(contract: OptionContract) -> Self {
        OptionBookState {
            contract,
            bids: Map::empty(),
            asks: Map::empty(),
            orders: Map::empty(),
            last_bbo: None,
            last_pricing: None,
            last_spot_price: None,
            pricing_dirty: true,
        }
    }

    /// Finitely many orders and levels, each level under its own price.
    pub open spec fn valid(self) -> bool {
        &&& keyed_by_price(self.bids)
        &&& keyed_by_price(self.asks)
        &&& self.bids.dom().finite()
        &&& self.asks.dom().finite()
        &&& self.orders.dom().finite()
    }

    pub open spec fn levels(self, side: Side) -> Map<u64, PriceLevel> {
        match side {
            Side::Buy => self.bids,
            Side::Sell => self.asks,
        }
    }

    pub open spec fn with_levels(self, side: Side, levels: Map<u64, PriceLevel>) -> Self {
        match side {
            Side::Buy => OptionBookState { bids: levels, ..self },
            Side::Sell => OptionBookState { asks: levels, ..self },
        }
    }

    pub open spec fn quote(self) -> BboSnapshot {
        quote(self.bids, self.asks)
    }

    /// Whether both sides have a price, so that there is a mean of the two.
    pub open spec fn has_mid(self) -> bool {
        self.quote().bid_price > 0 && self.quote().ask_price > 0
    }

    /// A new order comes in.
    pub open spec fn placed(self, order_ref: u64, order: OrderInfo) -> Self {
        OptionBookState {
            orders: self.orders.insert(order_ref, order),
            pricing_dirty: true,
            ..self.with_levels(
                order.side,
                with_order(self.levels(order.side), order.price, order.shares),
            )
        }
    }

    /// A live order loses shares, at most those it has; without any it goes.
    pub open spec fn reduced(self, order_ref: u64, shares: u32) -> Self {
        if !self.orders.contains_key(order_ref) {
            self
        } else {
            let order = self.orders[order_ref];
            let taken: u32 = if shares <= order.shares { shares } else { order.shares };
            let left = (order.shares - taken) as u32;
            let orders = if left == 0 {
                self.orders.remove(order_ref)
            } else {
                self.orders.insert(order_ref, OrderInfo { shares: left, ..order })
            };
            if taken == 0 {
                OptionBookState { orders, ..self }
            } else {
                OptionBookState {
                    orders,
                    pricing_dirty: true,
                    ..self.with_levels(
                        order.side,
                        without_shares(self.levels(order.side), order.price, taken),
                    )
                }
            }
        }
    }

    /// A live order goes.
    pub open spec fn deleted(self, order_ref: u64) -> Self {
        if !self.orders.contains_key(order_ref) {
            self
        } else {
            let order = self.orders[order_ref];
            OptionBookState {
                orders: self.orders.remove(order_ref),
                pricing_dirty: true,
                ..self.with_levels(
                    order.side,
                    without_shares(self.levels(order.side), order.price, order.shares),
                )
            }
        }
    }

    /// The state after an action on an order.
    pub open spec fn after(self, action: OptionOrderAction) -> Self {
        match action {
            OptionOrderAction::Add { order_ref, side, price, shares } => self.placed(
                order_ref,
                OrderInfo { side, price, shares },
            ),
            OptionOrderAction::Cancel { order_ref, shares } => self.reduced(order_ref, shares),
            OptionOrderAction::Delete { order_ref } => self.deleted(order_ref),
        }
    }

    /// Whether the counters of the levels can hold what an action adds.
    pub open spec fn accepts(self, action: OptionOrderAction) -> bool {
        match action {
            OptionOrderAction::Add { order_ref, side, price, shares } => has_room(
                self.levels(side),
                price,
                shares,
            ),
            _ => true,
        }
    }

    /// What the pricing model is asked of this contract.
    pub open spec fn request(self, spot_price: Real, now: u64, risk_free_rate: Real) -> PricingRequest {
        PricingRequest {
            contract_key: self.contract.key,
            bid_price: self.quote().bid_price,
            ask_price: self.quote().ask_price,
            spot_price,
            strike_price: self.contract.strike_price,
            risk_free_rate,
            seconds_to_maturity: self.contract.seconds_left(now),
            option_type: self.contract.option_type,
        }
    }

    /// The state once an answer of the model is taken in. Without a mean of the
    /// quotes there is nothing to price.
    pub open spec fn priced(self, spot_price: Real, outcome: PricingOutcome) -> Self {
        if self.has_mid() {
            OptionBookState {
                last_bbo: Some(
                    (
                        self.quote().bid_price,
                        self.quote().bid_volume,
                        self.quote().ask_price,
                        self.quote().ask_volume,
                    ),
                ),
                last_pricing: outcome.result,
                last_spot_price: Some(spot_price),
                pricing_dirty: false,
                ..self
            }
        } else {
            self
        }
    }

    /// What an answer of the model says of this contract.
    pub open spec fn greeks(self, spot_price: Real, outcome: PricingOutcome) -> Option<
        OptionGreeksSnapshot,
    > {
        match outcome.result {
            Some(bsm) if self.has_mid() => Some(
                OptionGreeksSnapshot {
                    contract_key: self.contract.key,
                    implied_volatility: bsm.implied_volatility,
                    delta: bsm.delta,
                    gamma: bsm.gamma,
                    vega: bsm.vega,
                    theta: bsm.theta,
                    rho: bsm.rho,
                    model_price: bsm.price,
                    spot_price,
                    mid_price: outcome.mid_price,
                },
            ),
            _ => None,
        }
    }
}

/// The book of one option contract. Its view is the state it is in.
#[derive(Debug)]
pub struct OptionBook {
    contract: OptionContract,
    bids: Table<PriceLevel>,
    asks: Table<PriceLevel>,
    orders: Table<OrderInfo>,
    last_bbo: Option<(u64, u64, u64, u64)>,
    last_pricing: Option<BsmResult>,
    last_spot_price: Option<Real>,
    pricing_dirty: bool,
}

impl View for OptionBook {
    type V = OptionBookState;

    closed spec fn view(&self) -> OptionBookState {
        OptionBookState {
            contract: self.contract,
            bids: self.bids@,
            asks: self.asks@,
            orders: self.orders@,
            last_bbo: self.last_bbo,
            last_pricing: self.last_pricing,
            last_spot_price: self.last_spot_price,
            pricing_dirty: self.pricing_dirty,
        }
    }
}

impl OptionBook {
    pub closed spec fn wf(self) -> bool {
        &&& self.bids.wf()
        &&& self.asks.wf()
        &&& self.orders.wf()
        &&& keyed_by_price(self.bids@)
        &&& keyed_by_price(self.asks@)
    }

    /// What holds of the state of every book.
    pub proof fn lemma_state_is_valid(self)
        requires
            self.wf(),
        ensures
            self@.valid(),
    {
        self.bids.lemma_key_list();
        self.asks.lemma_key_list();
        self.orders.lemma_key_list();
    }

    pub fn new(contract: OptionContract) -> (b: Self)
        ensures
            b.wf(),
            b@ == OptionBookState::empty(contract),
    {
        OptionBook {
            contract,
            bids: Table::new(),
            asks: Table::new(),
            orders: Table::new(),
            last_bbo: None,
            last_pricing: None,
            last_spot_price: None,
            pricing_dirty: true,
        }
    }

    pub fn contract(&self) -> (c: &OptionContract)
        ensures
            *c == self@.contract,
    {
        &self.contract
    }

    pub fn best_bid(&self) -> (r: Option<&PriceLevel>)
        requires
            self.wf(),
        ensures
            match r {
                Some(level) => best(Side::Buy, self@.bids) == Some(*level),
                None => best(Side::Buy, self@.bids) is None,
            },
    {
        best_level(Side::Buy, &self.bids)
    }

    pub fn best_ask(&self) -> (r: Option<&PriceLevel>)
        requires
            self.wf(),
        ensures
            match r {
                Some(level) => best(Side::Sell, self@.asks) == Some(*level),
                None => best(Side::Sell, self@.asks) is None,
            },
    {
        best_level(Side::Sell, &self.asks)
    }

    /// Best bid and its volume, best ask and its volume; zeroes for an empty side.
    pub fn bbo_snapshot(&self) -> (r: (u64, u64, u64, u64))
        requires
            self.wf(),
        ensures
            r == (
                self@.quote().bid_price,
                self@.quote().bid_volume,
                self@.quote().ask_price,
                self@.quote().ask_volume,
            ),
    {
        let bid: (u64, u64) = match self.best_bid() {
            Some(level) => (level.price, level.volume),
            None => (0, 0),
        };
        let ask: (u64, u64) = match self.best_ask() {
            Some(level) => (level.price, level.volume),
            None => (0, 0),
        };
        (bid.0, bid.1, ask.0, ask.1)
    }

    /// The two prices whose mean is the mid price, in ten-thousandths, where both
    /// sides have one.
    pub fn mid_price(&self) -> (r: Option<(u64, u64)>)
        requires
            self.wf(),
        ensures
            r == (if self@.has_mid() {
                Some((self@.quote().bid_price, self@.quote().ask_price))
            } else {
                None
            }),
    {
        let (bid, _bid_volume, ask, _ask_volume) = self.bbo_snapshot();
        if bid > 0 && ask > 0 {
            Some((bid, ask))
        } else {
            None
        }
    }

    /// Whether the counters of a level can hold one more order.
    pub fn can_add(&self, side: Side, price: u64, shares: u32) -> (b: bool)
        requires
            self.wf(),
        ensures
            b == has_room(self@.levels(side), price, shares),
    {
        match side {
            Side::Buy => level_has_room(&self.bids, price, shares),
            Side::Sell => level_has_room(&self.asks, price, shares),
        }
    }

    pub fn add_order(&mut self, order_ref: u64, side: Side, price: u64, shares: u32)
        requires
            old(self).wf(),
            has_room(old(self)@.levels(side), price, shares),
        ensures
            final(self).wf(),
            final(self)@ == old(self)@.placed(order_ref, OrderInfo { side, price, shares }),
    {
        self.orders.insert(order_ref, OrderInfo { side, price, shares });
        match side {
            Side::Buy => add_to_level(&mut self.bids, price, shares),
            Side::Sell => add_to_level(&mut self.asks, price, shares),
        }
        self.pricing_dirty = true;
    }

    pub fn remove_order(&mut self, order_ref: u64, shares: u32)
        requires
            old(self).wf(),
        ensures
            final(self).wf(),
            final(self)@ == old(self)@.reduced(order_ref, shares),
    {
        let order: OrderInfo = match self.orders.get(order_ref) {
            Some(order) => *order,
            None => {
                return;
            },
        };
        let taken: u32 = if shares <= order.shares { shares } else { order.shares };
        let left: u32 = order.shares - taken;
        if taken > 0 {
            match order.side {
                Side::Buy => take_from_level(&mut self.bids, order.price, taken),
                Side::Sell => take_from_level(&mut self.asks, order.price, taken),
            }
            self.pricing_dirty = true;
        }
        if left == 0 {
            self.orders.remove(order_ref);
        } else {
            self.orders.insert(
                order_ref,
                OrderInfo { side: order.side, price: order.price, shares: left },
            );
        }
    }

    pub fn delete_order(&mut self, order_ref: u64)
        requires
            old(self).wf(),
        ensures
            final(self).wf(),
            final(self)@ == old(self)@.deleted(order_ref),
    {
        match self.orders.remove(order_ref) {
            Some(order) => {
                match order.side {
                    Side::Buy => take_from_level(&mut self.bids, order.price, order.shares),
                    Side::Sell => take_from_level(&mut self.asks, order.price, order.shares),
                }
                self.pricing_dirty = true;
            },
            None => {
                assert(self@ =~= old(self)@);
            },
        }
    }

    /// Whether the counters of the levels can hold what an action adds.
    pub(crate) fn can_apply(&self, action: &OptionOrderAction) -> (b: bool)
        requires
            self.wf(),
        ensures
            b == self@.accepts(*action),
    {
        match action {
            OptionOrderAction::Add { order_ref: _, side, price, shares } => self.can_add(
                *side,
                *price,
                *shares,
            ),
            _ => true,
        }
    }

    pub(crate) fn apply(&mut self, action: &OptionOrderAction)
        requires
            old(self).wf(),
            old(self)@.accepts(*action),
        ensures
            final(self).wf(),
            final(self)@ == old(self)@.after(*action),
    {
        match action {
            OptionOrderAction::Add { order_ref, side, price, shares } => {
                self.add_order(*order_ref, *side, *price, *shares);
            },
            OptionOrderAction::Cancel { order_ref, shares } => {
                self.remove_order(*order_ref, *shares);
            },
            OptionOrderAction::Delete { order_ref } => {
                self.delete_order(*order_ref);
            },
        }
    }

    /// What to ask the pricing model, where there is a mean of the quotes.
    pub fn pricing_request(
        &self,
        spot_price: Real,
        current_timestamp_secs: u64,
        risk_free_rate: Real,
    ) -> (r: Option<PricingRequest>)
        requires
            self.wf(),
        ensures
            r == (if self@.has_mid() {
                Some(self@.request(spot_price, current_timestamp_secs, risk_free_rate))
            } else {
                None
            }),
    {
        match self.mid_price() {
            Some((bid_price, ask_price)) => Some(
                PricingRequest {
                    contract_key: self.contract.key,
                    bid_price,
                    ask_price,
                    spot_price,
                    strike_price: self.contract.strike_price,
                    risk_free_rate,
                    seconds_to_maturity: self.contract.time_to_maturity(current_timestamp_secs),
                    option_type: self.contract.option_type,
                },
            ),
            None => None,
        }
    }

    /// Takes in what the pricing model answered and hands it on.
    pub fn compute_pricing(&mut self, spot_price: Real, outcome: PricingOutcome) -> (r: Option<
        OptionGreeksSnapshot,
    >)
        requires
            old(self).wf(),
        ensures
            final(self).wf(),
            final(self)@ == old(self)@.priced(spot_price, outcome),
            r == old(self)@.greeks(spot_price, outcome),
    {
        if self.mid_price().is_none() {
            return None;
        }
        self.last_spot_price = Some(spot_price);
        self.last_pricing = outcome.result;
        self.pricing_dirty = false;
        self.last_bbo = Some(self.bbo_snapshot());
        match outcome.result {
            Some(bsm) => Some(
                OptionGreeksSnapshot {
                    contract_key: self.contract.key,
                    implied_volatility: bsm.implied_volatility,
                    delta: bsm.delta,
                    gamma: bsm.gamma,
                    vega: bsm.vega,
                    theta: bsm.theta,
                    rho: bsm.rho,
                    model_price: bsm.price,
                    spot_price,
                    mid_price: outcome.mid_price,
                },
            ),
            None => None,
        }
    }

    /// Marks the pricing as out of date.
    pub(crate) fn mark_dirty(&mut self)
        requires
            old(self).wf(),
        ensures
            final(self).wf(),
            final(self)@ == (OptionBookState { pricing_dirty: true, ..old(self)@ }),
    {
        self.pricing_dirty = true;
    }

    pub(crate) fn is_dirty(&self) -> (b: bool)
        ensures
            b == self@.pricing_dirty,
    {
        self.pricing_dirty
    }

    pub(crate) fn last_pricing(&self) -> (r: Option<BsmResult>)
        ensures
            r == self@.last_pricing,
    {
        self.last_pricing
    }
}

impl Clone for OptionBook {
    fn clone(&self) -> (r: Self)
        ensures
            self.wf() ==> r.wf() && r@ == self@,
    {
        OptionBook {
            contract: self.contract,
            bids: self.bids.duplicate(),
            asks: self.asks.duplicate(),
            orders: self.orders.duplicate(),
            last_bbo: self.last_bbo,
            last_pricing: self.last_pricing,
            last_spot_price: self.last_spot_price,
            pricing_dirty: self.pricing_dirty,
        }
    }
}

} // verus!

//! What an order book is: its levels, its live orders and what it last reported.
use crate::orderbook::level::{level_list, BboSnapshot, BboUpdate, PriceLevel};
use crate::protocol::{ItchEvent, Side};
use vstd::prelude::*;

verus! {

/// An order that rests in a book.
#[derive(Debug, Clone, Copy)]
pub struct OrderInfo {
    pub side: Side,
    pub price: u64,
    pub shares: u32,
}

/// Whether price `a` comes before price `b` on the given side: a buyer's higher
/// price, a seller's lower one.
pub open spec fn better(side: Side, a: u64, b: u64) -> bool {
    match side {
        Side::Buy => a > b,
        Side::Sell => a < b,
    }
}

pub open spec fn is_best_price(side: Side, levels: Map<u64, PriceLevel>, price: u64) -> bool {
    &&& levels.contains_key(price)
    &&& forall|other: u64| #[trigger]
        levels.contains_key(other) ==> other == price || better(side, price, other)
}

/// The best level of a side, where it has any.
pub open spec fn best(side: Side, levels: Map<u64, PriceLevel>) -> Option<PriceLevel> {
    if exists|price: u64| is_best_price(side, levels, price) {
        Some(levels[choose|price: u64| is_best_price(side, levels, price)])
    } else {
        None
    }
}

/// Whether `top` holds the best `n` levels of a side, best first: all levels
/// where there are no more than that.
pub open spec fn is_top(
    side: Side,
    levels: Map<u64, PriceLevel>,
    n: nat,
    top: Seq<PriceLevel>,
) -> bool {
    &&& top.len() <= n
    &&& forall|i: int|
        0 <= i < top.len() ==> {
            &&& levels.contains_key((#[trigger] top[i]).price)
            &&& levels[top[i].price] == top[i]
        }
    &&& forall|i: int, j: int|
        0 <= i < j < top.len() ==> better(
            side,
            (#[trigger] top[i]).price,
            (#[trigger] top[j]).price,
        )
    &&& forall|price: u64| #[trigger]
        levels.contains_key(price) ==> {
            ||| exists|i: int| 0 <= i < top.len() && (#[trigger] top[i]).price == price
            ||| top.len() == n && forall|i: int|
                0 <= i < top.len() ==> better(side, (#[trigger] top[i]).price, price)
        }
}

/// The best prices and volumes of two sides, zeroes for an empty one.
pub open spec fn quote(bids: Map<u64, PriceLevel>, asks: Map<u64, PriceLevel>) -> BboSnapshot {
    let zero = PriceLevel { price: 0, volume: 0, order_count: 0 };
    let bid = match best(Side::Buy, bids) {
        Some(level) => level,
        None => zero,
    };
    let ask = match best(Side::Sell, asks) {
        Some(level) => level,
        None => zero,
    };
    BboSnapshot {
        bid_price: bid.price,
        bid_volume: bid.volume,
        ask_price: ask.price,
        ask_volume: ask.volume,
    }
}

/// Every level stands under its own price.
pub open spec fn keyed_by_price(levels: Map<u64, PriceLevel>) -> bool {
    forall|price: u64| #[trigger] levels.contains_key(price) ==> levels[price].price == price
}

/// Whether one more order of `shares` shares at `price` can be counted.
pub open spec fn has_room(levels: Map<u64, PriceLevel>, price: u64, shares: u32) -> bool {
    levels.contains_key(price) ==> {
        &&& levels[price].volume + shares <= u64::MAX
        &&& levels[price].order_count < u32::MAX
    }
}

/// One more order of `shares` shares at `price`.
pub open spec fn with_order(levels: Map<u64, PriceLevel>, price: u64, shares: u32) -> Map<
    u64,
    PriceLevel,
> {
    levels.insert(
        price,
        if levels.contains_key(price) {
            PriceLevel {
                price,
                volume: (levels[price].volume + shares) as u64,
                order_count: (levels[price].order_count + 1) as u32,
            }
        } else {
            PriceLevel { price, volume: shares as u64, order_count: 1 }
        },
    )
}

/// `a - b`, but never below zero.
pub open spec fn monus(a: int, b: int) -> int {
    if a >= b {
        a - b
    } else {
        0
    }
}

/// `shares` shares fewer at `price`, and one order fewer. A level without volume
/// goes.
pub open spec fn without_shares(levels: Map<u64, PriceLevel>, price: u64, shares: u32) -> Map<
    u64,
    PriceLevel,
> {
    if !levels.contains_key(price) {
        levels
    } else {
        let volume = monus(levels[price].volume as int, shares as int) as u64;
        let order_count = monus(levels[price].order_count as int, 1) as u32;
        if volume == 0 {
            levels.remove(price)
        } else {
            levels.insert(price, PriceLevel { price, volume, order_count })
        }
    }
}

/// The state of the book of one stock.
#[verifier::ext_equal]
pub struct BookState {
    pub stock: u64,
    pub bids: Map<u64, PriceLevel>,
    pub asks: Map<u64, PriceLevel>,
    pub orders: Map<u64, OrderInfo>,
    /// The best prices and volumes that the last update reported.
    pub reported: BboSnapshot,
    /// The number that the next update will bear.
    pub next_seq: u64,
}

impl BookState {
    pub open spec fn empty(stock: u64) -> Self {
        BookState {
            stock,
            bids: Map::empty(),
            asks: Map::empty(),
            orders: Map::empty(),
            reported: BboSnapshot { bid_price: 0, bid_volume: 0, ask_price: 0, ask_volume: 0 },
            next_seq: 0,
        }
    }

    /// Finitely many orders and levels, each level under its own price.
    pub open spec fn valid(self) -> bool {
        &&& keyed_by_price(self.bids)
        &&& keyed_by_price(self.asks)
        &&& self.bids.dom().finite()
        &&& self.asks.dom().finite()
        &&& self.orders.dom().finite()
    }

    pub open spec fn levels(self, side: Side) -> Map<u64, PriceLevel> {
        match side {
            Side::Buy => self.bids,
            Side::Sell => self.asks,
        }
    }

    pub open spec fn with_levels(self, side: Side, levels: Map<u64, PriceLevel>) -> Self {
        match side {
            Side::Buy => BookState { bids: levels, ..self },
            Side::Sell => BookState { asks: levels, ..self },
        }
    }

    pub open spec fn quote(self) -> BboSnapshot {
        quote(self.bids, self.asks)
    }

    /// A new order comes in.
    pub open spec fn placed(self, order_ref: u64, order: OrderInfo) -> Self {
        BookState {
            orders: self.orders.insert(order_ref, order),
            ..self.with_levels(
                order.side,
                with_order(self.levels(order.side), order.price, order.shares),
            )
        }
    }

    /// A live order loses shares, at most those it has; without any it goes.
    pub open spec fn reduced(self, order_ref: u64, shares: u32) -> Self {
        if !self.orders.contains_key(order_ref) {
            self
        } else {
            let order = self.orders[order_ref];
            let taken: u32 = if shares <= order.shares { shares } else { order.shares };
            let left = (order.shares - taken) as u32;
            BookState {
                orders: if left == 0 {
                    self.orders.remove(order_ref)
                } else {
                    self.orders.insert(order_ref, OrderInfo { shares: left, ..order })
                },
                ..self.with_levels(
                    order.side,
                    without_shares(self.levels(order.side), order.price, taken),
                )
            }
        }
    }

    /// A live order goes.
    pub open spec fn deleted(self, order_ref: u64) -> Self {
        if !self.orders.contains_key(order_ref) {
            self
        } else {
            let order = self.orders[order_ref];
            BookState {
                orders: self.orders.remove(order_ref),
                ..self.with_levels(
                    order.side,
                    without_shares(self.levels(order.side), order.price, order.shares),
                )
            }
        }
    }

    /// A live order goes and another, on the same side, comes in for it.
    pub open spec fn replaced(
        self,
        order_ref: u64,
        new_order_ref: u64,
        shares: u32,
        price: u64,
    ) -> Self {
        if !self.orders.contains_key(order_ref) {
            self
        } else {
            self.deleted(order_ref).placed(
                new_order_ref,
                OrderInfo { side: self.orders[order_ref].side, price, shares },
            )
        }
    }

    /// Levels and orders after an event.
    pub open spec fn after(self, event: ItchEvent) -> Self {
        match event {
            ItchEvent::AddOrder { order_ref, side, shares, price, .. } => self.placed(
                order_ref,
                OrderInfo { side, price, shares },
            ),
            ItchEvent::AddOrderMpid { order_ref, side, shares, price, .. } => self.placed(
                order_ref,
                OrderInfo { side, price, shares },
            ),
            ItchEvent::OrderExecuted { order_ref, shares, .. } => self.reduced(order_ref, shares),
            ItchEvent::OrderExecutedPrice { order_ref, shares, .. } => self.reduced(
                order_ref,
                shares,
            ),
            ItchEvent::OrderCancel { order_ref, shares, .. } => self.reduced(order_ref, shares),
            ItchEvent::OrderDelete { order_ref, .. } => self.deleted(order_ref),
            ItchEvent::OrderReplace { order_ref, new_order_ref, shares, price, .. } =>
            self.replaced(order_ref, new_order_ref, shares, price),
            ItchEvent::StockDirectory { .. } => self,
            ItchEvent::SystemEvent { .. } => self,
        }
    }

    /// Whether the counters of the level that the event adds to can hold it.
    pub open spec fn accepts(self, event: ItchEvent) -> bool {
        match event {
            ItchEvent::AddOrder { side, shares, price, .. } => has_room(
                self.levels(side),
                price,
                shares,
            ),
            ItchEvent::AddOrderMpid { side, shares, price, .. } => has_room(
                self.levels(side),
                price,
                shares,
            ),
            ItchEvent::OrderReplace { order_ref, shares, price, .. } => {
                self.orders.contains_key(order_ref) ==> has_room(
                    self.deleted(order_ref).levels(self.orders[order_ref].side),
                    price,
                    shares,
                )
            },
            _ => true,
        }
    }

    /// The whole state after an event: where the best prices or volumes are no
    /// longer those last reported, they are reported under the next number.
    pub open spec fn stepped(self, event: ItchEvent) -> Self {
        let next = self.after(event);
        if next.quote() == self.reported {
            next
        } else {
            BookState {
                reported: next.quote(),
                next_seq: if self.next_seq == u64::MAX {
                    0
                } else {
                    (self.next_seq + 1) as u64
                },
                ..next
            }
        }
    }

    /// What an event gives its caller: an update if and only if the best prices or
    /// volumes are no longer those last reported.
    pub open spec fn reports(self, event: ItchEvent, update: Option<BboUpdate>) -> bool {
        let next = self.after(event);
        match update {
            None => next.quote() == self.reported,
            Some(u) => {
                &&& next.quote() != self.reported
                &&& u.stock == self.stock
                &&& u.timestamp == event.time()
                &&& u.seq_num == self.next_seq
                &&& u.snapshot() == next.quote()
                &&& is_top(Side::Buy, next.bids, 10, level_list(u.top_bids))
                &&& is_top(Side::Sell, next.asks, 10, level_list(u.top_asks))
            },
        }
    }
}

} // verus!

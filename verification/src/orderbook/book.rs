//! The book of one stock.
use crate::orderbook::level::{level_list, levels_from, BboSnapshot, BboUpdate, PriceLevel};
use crate::orderbook::model::{best, has_room, is_top, BookState, OrderInfo};
use crate::orderbook::side::BookSide;
use crate::protocol::{ItchEvent, Side};
use crate::table::Table;
use vstd::prelude::*;

verus! {

/// The book of one stock. Its view is the state it is in.
#[derive(Debug)]
pub struct SingleOrderBook {
    stock: u64,
    bids: BookSide,
    asks: BookSide,
    orders: Table<OrderInfo>,
    last_bbo: BboSnapshot,
    seq_num: u64,
}

impl View for SingleOrderBook {
    type V = BookState;

    closed spec fn view(&self) -> BookState {
        BookState {
            stock: self.stock,
            bids: self.bids@,
            asks: self.asks@,
            orders: self.orders@,
            reported: self.last_bbo,
            next_seq: self.seq_num,
        }
    }
}

fn price_and_volume(level: Option<&PriceLevel>) -> (r: (u64, u64))
    ensures
        match level {
            Some(l) => r.0 == l.price && r.1 == l.volume,
            None => r.0 == 0 && r.1 == 0,
        },
{
    match level {
        Some(l) => (l.price, l.volume),
        None => (0, 0),
    }
}

impl SingleOrderBook {
    pub closed spec fn wf(self) -> bool {
        &&& self.bids.wf()
        &&& self.bids.side() == Side::Buy
        &&& self.asks.wf()
        &&& self.asks.side() == Side::Sell
        &&& self.orders.wf()
    }

    /// What holds of the state of every book.
    pub proof fn lemma_state_is_valid(self)
        requires
            self.wf(),
        ensures
            self@.valid(),
    {
        self.bids.lemma_view();
        self.asks.lemma_view();
        self.orders.lemma_key_list();
    }

    /// An empty book that has reported nothing.
    pub fn new(stock: u64) -> (b: Self)
        ensures
            b.wf(),
            b@ == BookState::empty(stock),
    {
        SingleOrderBook {
            stock,
            bids: BookSide::new(Side::Buy),
            asks: BookSide::new(Side::Sell),
            orders: Table::with_capacity(65536),
            last_bbo: BboSnapshot { bid_price: 0, bid_volume: 0, ask_price: 0, ask_volume: 0 },
            seq_num: 0,
        }
    }

    pub fn stock(&self) -> (stock: u64)
        ensures
            stock == self@.stock,
    {
        self.stock
    }

    /// Whether an order is live in this book.
    pub fn holds(&self, order_ref: u64) -> (b: bool)
        requires
            self.wf(),
        ensures
            b == self@.orders.contains_key(order_ref),
    {
        self.orders.contains(order_ref)
    }

    fn current_bbo(&self) -> (q: BboSnapshot)
        requires
            self.wf(),
        ensures
            q == self@.quote(),
    {
        let bid = price_and_volume(self.bids.best());
        let ask = price_and_volume(self.asks.best());
        BboSnapshot { bid_price: bid.0, bid_volume: bid.1, ask_price: ask.0, ask_volume: ask.1 }
    }

    fn bbo_changed(&self) -> (b: bool)
        requires
            self.wf(),
        ensures
            b == (self@.quote() != self@.reported),
    {
        let current = self.current_bbo();
        current.bid_price != self.last_bbo.bid_price || current.ask_price
            != self.last_bbo.ask_price || current.bid_volume != self.last_bbo.bid_volume
            || current.ask_volume != self.last_bbo.ask_volume
    }

    fn update_last_bbo(&mut self)
        requires
            old(self).wf(),
        ensures
            final(self).wf(),
            final(self)@ == (BookState { reported: old(self)@.quote(), ..old(self)@ }),
    {
        self.last_bbo = self.current_bbo();
    }

    /// The update that reports the best prices and volumes, where they are not
    /// those last reported. It takes the next number.
    fn create_bbo_update(&mut self, timestamp: u64) -> (r: Option<BboUpdate>)
        requires
            old(self).wf(),
        ensures
            final(self).wf(),
            match r {
                None => {
                    &&& old(self)@.quote() == old(self)@.reported
                    &&& final(self)@ == old(self)@
                },
                Some(u) => {
                    &&& old(self)@.quote() != old(self)@.reported
                    &&& final(self)@ == (BookState {
                        next_seq: if old(self)@.next_seq == u64::MAX {
                            0
                        } else {
                            (old(self)@.next_seq + 1) as u64
                        },
                        ..old(self)@
                    })
                    &&& u.stock == old(self)@.stock
                    &&& u.timestamp == timestamp
                    &&& u.seq_num == old(self)@.next_seq
                    &&& u.snapshot() == old(self)@.quote()
                    &&& is_top(Side::Buy, old(self)@.bids, 10, level_list(u.top_bids))
                    &&& is_top(Side::Sell, old(self)@.asks, 10, level_list(u.top_asks))
                },
            },
    {
        if !self.bbo_changed() {
            return None;
        }
        let bbo = self.current_bbo();
        let seq_num: u64 = self.seq_num;
        self.seq_num = if seq_num == u64::MAX { 0 } else { seq_num + 1 };
        Some(
            BboUpdate {
                stock: self.stock,
                timestamp,
                seq_num,
                bid_price: bbo.bid_price,
                bid_volume: bbo.bid_volume,
                ask_price: bbo.ask_price,
                ask_volume: bbo.ask_volume,
                top_bids: levels_from(self.bids.top_n(10).as_slice()),
                top_asks: levels_from(self.asks.top_n(10).as_slice()),
            },
        )
    }

    fn place(&mut self, order_ref: u64, order: OrderInfo)
        requires
            old(self).wf(),
            has_room(old(self)@.levels(order.side), order.price, order.shares),
        ensures
            final(self).wf(),
            final(self)@ == old(self)@.placed(order_ref, order),
    {
        self.orders.insert(order_ref, order);
        match order.side {
            Side::Buy => self.bids.add_order(order.price, order.shares),
            Side::Sell => self.asks.add_order(order.price, order.shares),
        }
    }

    fn reduce(&mut self, order_ref: u64, shares: u32)
        requires
            old(self).wf(),
        ensures
            final(self).wf(),
            final(self)@ == old(self)@.reduced(order_ref, shares),
    {
        let order: OrderInfo = match self.orders.get(order_ref) {
            Some(order) => *order,
            None => {
                return;
            },
        };
        let taken: u32 = if shares <= order.shares { shares } else { order.shares };
        let left: u32 = order.shares - taken;
        match order.side {
            Side::Buy => {
                self.bids.remove_shares(order.price, taken);
            },
            Side::Sell => {
                self.asks.remove_shares(order.price, taken);
            },
        }
        if left == 0 {
            self.orders.remove(order_ref);
        } else {
            self.orders.insert(
                order_ref,
                OrderInfo { side: order.side, price: order.price, shares: left },
            );
        }
    }

    fn delete(&mut self, order_ref: u64) -> (r: Option<Side>)
        requires
            old(self).wf(),
        ensures
            final(self).wf(),
            final(self)@ == old(self)@.deleted(order_ref),
            r == (if old(self)@.orders.contains_key(order_ref) {
                Some(old(self)@.orders[order_ref].side)
            } else {
                None
            }),
    {
        match self.orders.remove(order_ref) {
            Some(order) => {
                match order.side {
                    Side::Buy => self.bids.delete_all_at_price(order.price, order.shares),
                    Side::Sell => self.asks.delete_all_at_price(order.price, order.shares),
                }
                Some(order.side)
            },
            None => {
                assert(self@ =~= old(self)@);
                None
            },
        }
    }

    /// Applies an event to the book and reports the best prices and volumes where
    /// they change.
    pub fn apply_event(&mut self, event: &ItchEvent) -> (r: Option<BboUpdate>)
        requires
            old(self).wf(),
            old(self)@.accepts(*event),
        ensures
            final(self).wf(),
            final(self)@ == old(self)@.stepped(*event),
            old(self)@.reports(*event, r),
    {
        let ts: u64 = event.timestamp();
        match event {
            ItchEvent::AddOrder { order_ref, side, shares, price, .. } => {
                self.place(*order_ref, OrderInfo { side: *side, price: *price, shares: *shares });
            },
            ItchEvent::AddOrderMpid { order_ref, side, shares, price, .. } => {
                self.place(*order_ref, OrderInfo { side: *side, price: *price, shares: *shares });
            },
            ItchEvent::OrderExecuted { order_ref, shares, .. } => {
                self.reduce(*order_ref, *shares);
            },
            ItchEvent::OrderExecutedPrice { order_ref, shares, .. } => {
                self.reduce(*order_ref, *shares);
            },
            ItchEvent::OrderCancel { order_ref, shares, .. } => {
                self.reduce(*order_ref, *shares);
            },
            ItchEvent::OrderDelete { order_ref, .. } => {
                self.delete(*order_ref);
            },
            ItchEvent::OrderReplace { order_ref, new_order_ref, shares, price, .. } => {
                match self.delete(*order_ref) {
                    Some(side) => {
                        self.place(
                            *new_order_ref,
                            OrderInfo { side, price: *price, shares: *shares },
                        );
                    },
                    None => {},
                }
            },
            _ => {},
        }
        assert(self@ == old(self)@.after(*event));
        let bbo = self.create_bbo_update(ts);
        if bbo.is_some() {
            self.update_last_bbo();
        }
        bbo
    }

    /// Whether the counters of the level that the event adds to can hold it.
    pub fn can_apply(&self, event: &ItchEvent) -> (b: bool)
        requires
            self.wf(),
        ensures
            b == self@.accepts(*event),
    {
        match event {
            ItchEvent::AddOrder { side, shares, price, .. } => self.side(*side).has_room(
                *price,
                *shares,
            ),
            ItchEvent::AddOrderMpid { side, shares, price, .. } => self.side(*side).has_room(
                *price,
                *shares,
            ),
            ItchEvent::OrderReplace { order_ref, shares, price, .. } => {
                match self.orders.get(*order_ref) {
                    Some(order) => self.side(order.side).has_room_after_removal(
                        order.price,
                        order.shares,
                        *price,
                        *shares,
                    ),
                    None => true,
                }
            },
            _ => true,
        }
    }

    fn side(&self, side: Side) -> (s: &BookSide)
        requires
            self.wf(),
        ensures
            s.wf(),
            s.side() == side,
            s@ == self@.levels(side),
    {
        match side {
            Side::Buy => &self.bids,
            Side::Sell => &self.asks,
        }
    }

    pub fn best_bid(&self) -> (r: Option<&PriceLevel>)
        requires
            self.wf(),
        ensures
            match r {
                Some(level) => best(Side::Buy, self@.bids) == Some(*level),
                None => best(Side::Buy, self@.bids) is None,
            },
    {
        self.bids.best()
    }

    pub fn best_ask(&self) -> (r: Option<&PriceLevel>)
        requires
            self.wf(),
        ensures
            match r {
                Some(level) => best(Side::Sell, self@.asks) == Some(*level),
                None => best(Side::Sell, self@.asks) is None,
            },
    {
        self.asks.best()
    }

    /// The best `N` bids, highest price first.
    pub fn top_bids<const N: usize>(&self) -> (top: Vec<PriceLevel>)
        requires
            self.wf(),
        ensures
            is_top(Side::Buy, self@.bids, N as nat, top@),
    {
        self.bids.top_n(N)
    }

    /// The best `N` asks, lowest price first.
    pub fn top_asks<const N: usize>(&self) -> (top: Vec<PriceLevel>)
        requires
            self.wf(),
        ensures
            is_top(Side::Sell, self@.asks, N as nat, top@),
    {
        self.asks.top_n(N)
    }
}

} // verus!

//! Market data made up for trying the gateway out: a book around a price that
//! drifts up and falls back.
use crate::protocol::{ItchEvent, Side};
use vstd::prelude::*;

verus! {

/// The eight bytes of the ticker that all made-up orders are for.
pub const STOCK_AAPL: u64 = 0x4141_504C_2020_2020;

pub const START_PRICE: u64 = 1_500_000;

/// The number of seconds after which the price is moved.
pub const REBASE_AFTER_SECS: u64 = 300;

/// The price around which the orders of a tick lie.
pub open spec fn tick_price(base: u64, tick: u64) -> int {
    base + ((tick % 100) as int - 50) * 1000
}

pub open spec fn made_up_order(
    tick: u64,
    order_ref: int,
    side: Side,
    shares: int,
    price: int,
) -> ItchEvent {
    ItchEvent::AddOrder {
        timestamp: tick,
        order_ref: order_ref as u64,
        side,
        shares: shares as u32,
        stock: STOCK_AAPL,
        price: price as u64,
    }
}

/// A reference so far back, zero where there is none.
pub open spec fn back(order_ref: int, by: int) -> u64 {
    if order_ref >= by {
        (order_ref - by) as u64
    } else {
        0
    }
}

/// The events of a tick: two orders on either side, then the end of two old ones.
/// References run on from tick to tick, four in each.
pub open spec fn tick_events(base: u64, tick: u64) -> Seq<ItchEvent> {
    let price = tick_price(base, tick);
    let last = 4 * tick + 1;
    seq![
        made_up_order(tick, last - 3, Side::Buy, 100 + tick % 500, price - 1000),
        made_up_order(tick, last - 2, Side::Buy, 200 + tick % 300, price - 2000),
        made_up_order(tick, last - 1, Side::Sell, 150 + tick % 400, price + 1000),
        made_up_order(tick, last, Side::Sell, 250 + tick % 200, price + 2000),
        ItchEvent::OrderDelete { timestamp: tick, order_ref: back(last, 48) },
        ItchEvent::OrderDelete { timestamp: tick, order_ref: back(last, 47) },
    ]
}

/// Where the generator stands.
#[derive(Debug)]
pub struct TestGenerator {
    order_ref: u64,
    base_price: u64,
    tick_count: u64,
}

impl TestGenerator {
    /// How many ticks there were.
    pub closed spec fn ticks(self) -> u64 {
        self.tick_count
    }

    /// The price that the drift goes around.
    pub closed spec fn base(self) -> u64 {
        self.base_price
    }

    pub closed spec fn wf(self) -> bool {
        &&& self.order_ref == 1 + 4 * self.tick_count
        &&& START_PRICE <= self.base_price <= 0x2000_0000_0000_0000
    }

    pub fn new() -> (g: Self)
        ensures
            g.wf(),
            g.ticks() == 0,
            g.base() == START_PRICE,
    {
        TestGenerator { order_ref: 1, base_price: START_PRICE, tick_count: 0 }
    }

    /// The events of the next tick. There are as many ticks as there are references
    /// for their orders.
    pub fn next_events(&mut self) -> (events: Vec<ItchEvent>)
        requires
            old(self).wf(),
            old(self).ticks() < 0x3fff_ffff_ffff_ffff,
        ensures
            final(self).wf(),
            final(self).ticks() == old(self).ticks() + 1,
            final(self).base() == old(self).base(),
            events@ == tick_events(old(self).base(), final(self).ticks()),
    {
        self.tick_count = self.tick_count + 1;
        let tick: u64 = self.tick_count;
        let up: u64 = (tick % 100) * 1000;
        let price: u64 = self.base_price + up - 50_000;
        let mut events: Vec<ItchEvent> = Vec::with_capacity(6);
        self.order_ref = self.order_ref + 1;
        events.push(
            ItchEvent::AddOrder {
                timestamp: tick,
                order_ref: self.order_ref,
                side: Side::Buy,
                shares: 100 + (tick % 500) as u32,
                stock: STOCK_AAPL,
                price: price - 1000,
            },
        );
        self.order_ref = self.order_ref + 1;
        events.push(
            ItchEvent::AddOrder {
                timestamp: tick,
                order_ref: self.order_ref,
                side: Side::Buy,
                shares: 200 + (tick % 300) as u32,
                stock: STOCK_AAPL,
                price: price - 2000,
            },
        );
        self.order_ref = self.order_ref + 1;
        events.push(
            ItchEvent::AddOrder {
                timestamp: tick,
                order_ref: self.order_ref,
                side: Side::Sell,
                shares: 150 + (tick % 400) as u32,
                stock: STOCK_AAPL,
                price: price + 1000,
            },
        );
        self.order_ref = self.order_ref + 1;
        events.push(
            ItchEvent::AddOrder {
                timestamp: tick,
                order_ref: self.order_ref,
                side: Side::Sell,
                shares: 250 + (tick % 200) as u32,
                stock: STOCK_AAPL,
                price: price + 2000,
            },
        );
        events.push(
            ItchEvent::OrderDelete {
                timestamp: tick,
                order_ref: self.order_ref.saturating_sub(48),
            },
        );
        events.push(
            ItchEvent::OrderDelete {
                timestamp: tick,
                order_ref: self.order_ref.saturating_sub(47),
            },
        );
        assert(events@ =~= tick_events(old(self).base(), tick));
        events
    }

    /// Whether there are references left for another tick.
    pub fn has_next(&self) -> (b: bool)
        ensures
            b == (self.ticks() < 0x3fff_ffff_ffff_ffff),
    {
        self.tick_count < 0x3fff_ffff_ffff_ffff
    }

    /// Whether the price may be moved: once in a thousand ticks.
    pub fn is_rebase_tick(&self) -> (b: bool)
        ensures
            b == (self.ticks() % 1000 == 0),
    {
        self.tick_count % 1000 == 0
    }

    /// Moves the price that the drift goes around, on every thousandth tick from
    /// five minutes after the start.
    pub fn rebase(&mut self, elapsed_secs: u64)
        requires
            old(self).wf(),
        ensures
            final(self).wf(),
            final(self).ticks() == old(self).ticks(),
            final(self).base() == (if old(self).ticks() % 1000 == 0 && elapsed_secs
                >= REBASE_AFTER_SECS {
                (START_PRICE + old(self).ticks() / 100000 * 10000) as u64
            } else {
                old(self).base()
            }),
    {
        if self.tick_count % 1000 == 0 && elapsed_secs >= REBASE_AFTER_SECS {
            self.base_price = START_PRICE + self.tick_count / 100000 * 10000;
        }
    }
}

/// The made-up market is never crossed: all orders to buy of a tick lie below its
/// price, all orders to sell above it.
pub proof fn lemma_tick_is_not_crossed(base: u64, tick: u64, i: int)
    requires
        START_PRICE <= base <= 0x2000_0000_0000_0000,
        0 <= i < 6,
    ensures
        tick_events(base, tick)[i] matches ItchEvent::AddOrder { side, price, .. } ==> match side {
            Side::Buy => price < tick_price(base, tick),
            Side::Sell => price > tick_price(base, tick),
        },
{
}

/// No two orders, of one tick or of two, share a reference.
pub proof fn lemma_references_are_fresh(
    base: u64,
    tick: u64,
    i: int,
    later_base: u64,
    later: u64,
    j: int,
)
    requires
        1 <= tick <= later <= 0x3fff_ffff_ffff_ffff,
        0 <= i < 4,
        0 <= j < 4,
        tick == later ==> i < j,
    ensures
        tick_events(base, tick)[i] matches ItchEvent::AddOrder { order_ref: first, .. }
            && tick_events(later_base, later)[j] matches ItchEvent::AddOrder {
            order_ref: second,
            ..
        } && first < second,
{
}

/// Whether an event is a made-up order with the given parts.
pub open spec fn is_order(
    event: ItchEvent,
    tick: u64,
    order_ref: int,
    buy: bool,
    shares: int,
    price: int,
) -> bool {
    event matches ItchEvent::AddOrder {
        timestamp,
        order_ref: r,
        side,
        shares: s,
        stock,
        price: p,
    } && {
        &&& timestamp == tick
        &&& r == order_ref
        &&& side == Side::Buy <==> buy
        &&& s == shares
        &&& stock == 0x4141_504C_2020_2020
        &&& p == price
    }
}

/// What a tick brings: bids one and two steps of 1000 below its price, asks one and two
/// steps above it, with sizes that wander in bands from 100, 200, 150 and 250 shares on,
/// and then the end of the orders whose references lie 48 and 47 back, or of order zero
/// where there are not so many.
pub proof fn lemma_tick_brings_a_market(base: u64, tick: u64)
    requires
        1_500_000 <= base <= 0x2000_0000_0000_0000,
        1 <= tick <= 0x3fff_ffff_ffff_ffff,
    ensures
        ({
            let events = tick_events(base, tick);
            let price = base - 50_000 + 1000 * (tick % 100);
            let t = tick as int;
            &&& events.len() == 6
            &&& is_order(events[0], tick, 4 * t - 2, true, 100 + t % 500, price - 1000)
            &&& is_order(events[1], tick, 4 * t - 1, true, 200 + t % 300, price - 2000)
            &&& is_order(events[2], tick, 4 * t, false, 150 + t % 400, price + 1000)
            &&& is_order(events[3], tick, 4 * t + 1, false, 250 + t % 200, price + 2000)
            &&& events[4] matches ItchEvent::OrderDelete { timestamp, order_ref } && timestamp
                == tick && order_ref == if t >= 12 {
                4 * t - 47
            } else {
                0
            }
            &&& events[5] matches ItchEvent::OrderDelete { timestamp, order_ref } && timestamp
                == tick && order_ref == if t >= 12 {
                4 * t - 46
            } else {
                0
            }
        }),
{
}

/// From one tick to the next the price rises by 1000, and every hundredth tick it falls
/// back by 99000.
pub proof fn lemma_price_drifts(base: u64, tick: u64)
    requires
        tick < u64::MAX,
    ensures
        (tick + 1) % 100 != 0 ==> tick_price(base, (tick + 1) as u64) == tick_price(base, tick)
            + 1000,
        (tick + 1) % 100 == 0 ==> tick_price(base, (tick + 1) as u64) == tick_price(base, tick)
            - 99_000,
        tick % 100 == 50 ==> tick_price(base, tick) == base,
{
}

/// The market is for one ticker and starts at one price, which moves after five
/// minutes at the earliest.
pub proof fn lemma_market_starts_here()
    ensures
        STOCK_AAPL == 0x4141_504C_2020_2020,
        START_PRICE == 1_500_000,
        REBASE_AFTER_SECS == 300,
{
}

} // verus!

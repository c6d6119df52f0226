//! What each event does to a book, said order by order and level by level.
use crate::orderbook::books::{all_accept, book_at, books_step, concerns};
use crate::orderbook::laws::lemma_best_level;
use crate::orderbook::level::{level_list, BboUpdate, PriceLevel};
use crate::orderbook::model::{best, is_top, keyed_by_price, BookState};
use crate::protocol::{ItchEvent, Side};
use vstd::prelude::*;

verus! {

/// Whether two sides have the same level, or both none, at every price but one.
pub open spec fn same_but_at(
    before: Map<u64, PriceLevel>,
    after: Map<u64, PriceLevel>,
    price: u64,
) -> bool {
    forall|p: u64|
        p != price ==> {
            &&& #[trigger] after.contains_key(p) <==> before.contains_key(p)
            &&& before.contains_key(p) ==> after[p] == before[p]
        }
}

/// Whether one order of `shares` shares came to a side at `price`, and nothing else
/// happened to it: volume and count there are so much more, from nothing where there
/// was no level.
pub open spec fn came(
    before: Map<u64, PriceLevel>,
    after: Map<u64, PriceLevel>,
    price: u64,
    shares: u32,
) -> bool {
    &&& same_but_at(before, after, price)
    &&& after.contains_key(price)
    &&& after[price].price == price
    &&& if before.contains_key(price) {
        &&& after[price].volume == before[price].volume + shares
        &&& after[price].order_count == before[price].order_count + 1
    } else {
        &&& after[price].volume == shares
        &&& after[price].order_count == 1
    }
}

/// Whether `shares` shares of one order left a side at `price`, and nothing else
/// happened to it. A level whose volume is used up goes; one that stays has lost the
/// shares and counts one order fewer, but never less than none.
pub open spec fn left(
    before: Map<u64, PriceLevel>,
    after: Map<u64, PriceLevel>,
    price: u64,
    shares: u32,
) -> bool {
    &&& same_but_at(before, after, price)
    &&& after.contains_key(price) <==> before.contains_key(price) && before[price].volume > shares
    &&& after.contains_key(price) ==> {
        &&& after[price].price == price
        &&& after[price].volume == before[price].volume - shares
        &&& before[price].order_count > 0 ==> after[price].order_count
            == before[price].order_count - 1
        &&& before[price].order_count == 0 ==> after[price].order_count == 0
    }
}

/// Whether a book is the same in orders and levels.
pub open spec fn untouched(before: BookState, after: BookState) -> bool {
    &&& after.stock == before.stock
    &&& after.orders == before.orders
    &&& after.bids == before.bids
    &&& after.asks == before.asks
}

/// Whether a new order came to a book: it is live with its own side, price and
/// shares, these shares stand at its price on its side, and nothing else changed.
pub open spec fn order_came(
    before: BookState,
    after: BookState,
    order_ref: u64,
    side: Side,
    price: u64,
    shares: u32,
) -> bool {
    &&& after.stock == before.stock
    &&& after.orders.contains_key(order_ref)
    &&& after.orders[order_ref].side == side
    &&& after.orders[order_ref].price == price
    &&& after.orders[order_ref].shares == shares
    &&& others_stay(before, after, order_ref)
    &&& side == Side::Buy ==> came(before.bids, after.bids, price, shares) && after.asks
        == before.asks
    &&& side == Side::Sell ==> came(before.asks, after.asks, price, shares) && after.bids
        == before.bids
}

/// Whether every order but one is live as before, or not live as before.
pub open spec fn others_stay(before: BookState, after: BookState, order_ref: u64) -> bool {
    forall|other: u64|
        other != order_ref ==> {
            &&& #[trigger] after.orders.contains_key(other) <==> before.orders.contains_key(other)
            &&& before.orders.contains_key(other) ==> after.orders[other] == before.orders[other]
        }
}

/// Whether `taken` shares of a live order left a book: the order has so many fewer,
/// on the same side at the same price, and is not live any more where none is left.
pub open spec fn shares_left(before: BookState, after: BookState, order_ref: u64, taken: u32) -> bool {
    let order = before.orders[order_ref];
    &&& before.orders.contains_key(order_ref)
    &&& taken <= order.shares
    &&& after.stock == before.stock
    &&& others_stay(before, after, order_ref)
    &&& after.orders.contains_key(order_ref) <==> taken < order.shares
    &&& taken < order.shares ==> {
        &&& after.orders[order_ref].side == order.side
        &&& after.orders[order_ref].price == order.price
        &&& after.orders[order_ref].shares == order.shares - taken
    }
    &&& order.side == Side::Buy ==> left(before.bids, after.bids, order.price, taken) && after.asks
        == before.asks
    &&& order.side == Side::Sell ==> left(before.asks, after.asks, order.price, taken)
        && after.bids == before.bids
}

/// Whether so many shares of an order were taken from a book, all of them where it
/// has no more than that, and nothing happened where it is not live.
pub open spec fn order_shrank(before: BookState, after: BookState, order_ref: u64, shares: u32) -> bool {
    if before.orders.contains_key(order_ref) {
        if shares < before.orders[order_ref].shares {
            shares_left(before, after, order_ref, shares)
        } else {
            shares_left(before, after, order_ref, before.orders[order_ref].shares)
        }
    } else {
        untouched(before, after)
    }
}

/// A book at first has no orders and no levels, and has reported neither a price nor
/// a number.
pub proof fn lemma_book_starts_empty(stock: u64)
    ensures
        BookState::empty(stock).stock == stock,
        BookState::empty(stock).bids.dom() == Set::<u64>::empty(),
        BookState::empty(stock).asks.dom() == Set::<u64>::empty(),
        BookState::empty(stock).orders.dom() == Set::<u64>::empty(),
        BookState::empty(stock).next_seq == 0,
        BookState::empty(stock).reported.bid_price == 0,
        BookState::empty(stock).reported.bid_volume == 0,
        BookState::empty(stock).reported.ask_price == 0,
        BookState::empty(stock).reported.ask_volume == 0,
{
}

/// A new order rests where it says: under its reference, on its side, at its price,
/// with its shares. Whether the message names a participant makes no difference.
pub proof fn lemma_new_order_rests_where_it_says(
    state: BookState,
    timestamp: u64,
    order_ref: u64,
    side: Side,
    shares: u32,
    stock: u64,
    price: u64,
    mpid: u32,
)
    requires
        state.valid(),
        state.accepts(ItchEvent::AddOrder { timestamp, order_ref, side, shares, stock, price }),
    ensures
        ({
            let plain = ItchEvent::AddOrder { timestamp, order_ref, side, shares, stock, price };
            let named = ItchEvent::AddOrderMpid {
                timestamp,
                order_ref,
                side,
                shares,
                stock,
                price,
                mpid,
            };
            &&& order_came(state, state.stepped(plain), order_ref, side, price, shares)
            &&& order_came(state, state.stepped(named), order_ref, side, price, shares)
            &&& state.stepped(named) == state.stepped(plain)
            &&& state.accepts(named)
        }),
{
}

/// A book has room for a new order exactly where the volume and the count of the
/// level that it goes to stay within their widths.
pub proof fn lemma_room_for_a_new_order(
    state: BookState,
    timestamp: u64,
    order_ref: u64,
    side: Side,
    shares: u32,
    stock: u64,
    price: u64,
    mpid: u32,
)
    ensures
        ({
            let levels = if side == Side::Buy {
                state.bids
            } else {
                state.asks
            };
            let room = levels.contains_key(price) ==> {
                &&& levels[price].volume + shares <= 0xffff_ffff_ffff_ffff
                &&& levels[price].order_count + 1 <= 0xffff_ffff
            };
            &&& state.accepts(
                ItchEvent::AddOrder { timestamp, order_ref, side, shares, stock, price },
            ) <==> room
            &&& state.accepts(
                ItchEvent::AddOrderMpid { timestamp, order_ref, side, shares, stock, price, mpid },
            ) <==> room
        }),
{
}

/// An execution, at whatever price, and a cancellation take as many shares of an
/// order as they say, or all that it has, on either side, and touch nothing else. No
/// book is without room for them.
pub proof fn lemma_reduction_takes_what_it_says(
    state: BookState,
    timestamp: u64,
    order_ref: u64,
    shares: u32,
    match_number: u64,
    printable: bool,
    price: u64,
)
    requires
        state.valid(),
    ensures
        ({
            let executed = ItchEvent::OrderExecuted { timestamp, order_ref, shares, match_number };
            let at_price = ItchEvent::OrderExecutedPrice {
                timestamp,
                order_ref,
                shares,
                match_number,
                printable,
                price,
            };
            let cancelled = ItchEvent::OrderCancel { timestamp, order_ref, shares };
            &&& order_shrank(state, state.stepped(executed), order_ref, shares)
            &&& order_shrank(state, state.stepped(at_price), order_ref, shares)
            &&& order_shrank(state, state.stepped(cancelled), order_ref, shares)
            &&& state.accepts(executed)
            &&& state.accepts(at_price)
            &&& state.accepts(cancelled)
        }),
{
}

/// As long as a level holds the shares of its orders, a reduction of fewer shares
/// than an order has leaves the order live with exactly that many fewer, and the
/// volume at its price is exactly that much less.
pub proof fn lemma_partial_reduction_is_exact(
    state: BookState,
    timestamp: u64,
    order_ref: u64,
    shares: u32,
)
    requires
        state.valid(),
        state.orders.contains_key(order_ref),
        shares < state.orders[order_ref].shares,
        ({
            let order = state.orders[order_ref];
            let levels = if order.side == Side::Buy {
                state.bids
            } else {
                state.asks
            };
            levels.contains_key(order.price) && levels[order.price].volume >= order.shares
        }),
    ensures
        ({
            let order = state.orders[order_ref];
            let after = state.stepped(ItchEvent::OrderCancel { timestamp, order_ref, shares });
            let levels_before = if order.side == Side::Buy {
                state.bids
            } else {
                state.asks
            };
            let levels_after = if order.side == Side::Buy {
                after.bids
            } else {
                after.asks
            };
            &&& after.orders.contains_key(order_ref)
            &&& after.orders[order_ref].shares == order.shares - shares
            &&& after.orders[order_ref].price == order.price
            &&& after.orders[order_ref].side == order.side
            &&& levels_after.contains_key(order.price)
            &&& levels_after[order.price].volume == levels_before[order.price].volume - shares
        }),
{
}

/// A deletion takes all shares of a live order, and an order that is not live leaves
/// a book as it is. No book is without room for it.
pub proof fn lemma_deletion_takes_the_whole_order(state: BookState, timestamp: u64, order_ref: u64)
    requires
        state.valid(),
    ensures
        ({
            let deleted = ItchEvent::OrderDelete { timestamp, order_ref };
            let after = state.stepped(deleted);
            &&& state.orders.contains_key(order_ref) ==> shares_left(
                state,
                after,
                order_ref,
                state.orders[order_ref].shares,
            )
            &&& !state.orders.contains_key(order_ref) ==> untouched(state, after)
            &&& !after.orders.contains_key(order_ref)
            &&& state.accepts(deleted)
        }),
{
}

/// A replacement takes all shares of a live order; in a book without it an order
/// comes in under the new reference, on the side of the old one, with the price and
/// the shares that the message says. Where the old order is not live nothing happens.
pub proof fn lemma_replacement_moves_the_order(
    state: BookState,
    timestamp: u64,
    order_ref: u64,
    new_order_ref: u64,
    shares: u32,
    price: u64,
)
    requires
        state.valid(),
        state.accepts(
            ItchEvent::OrderReplace { timestamp, order_ref, new_order_ref, shares, price },
        ),
    ensures
        ({
            let after = state.stepped(
                ItchEvent::OrderReplace { timestamp, order_ref, new_order_ref, shares, price },
            );
            if state.orders.contains_key(order_ref) {
                exists|mid: BookState|
                    {
                        &&& shares_left(state, mid, order_ref, state.orders[order_ref].shares)
                        &&& #[trigger] order_came(
                            mid,
                            after,
                            new_order_ref,
                            state.orders[order_ref].side,
                            price,
                            shares,
                        )
                    }
            } else {
                untouched(state, after)
            }
        }),
{
    let after = state.stepped(
        ItchEvent::OrderReplace { timestamp, order_ref, new_order_ref, shares, price },
    );
    if state.orders.contains_key(order_ref) {
        let mid = state.deleted(order_ref);
        assert(shares_left(state, mid, order_ref, state.orders[order_ref].shares));
        assert(order_came(
            mid,
            after,
            new_order_ref,
            state.orders[order_ref].side,
            price,
            shares,
        ));
    }
}

/// What is left of a side once shares left it is determined.
proof fn lemma_leaving_is_determined(
    before: Map<u64, PriceLevel>,
    a: Map<u64, PriceLevel>,
    b: Map<u64, PriceLevel>,
    price: u64,
    shares: u32,
)
    requires
        left(before, a, price, shares),
        left(before, b, price, shares),
    ensures
        a == b,
{
    assert forall|p: u64| a.contains_key(p) <==> b.contains_key(p) by {
        if p != price {
            assert(a.contains_key(p) <==> before.contains_key(p));
            assert(b.contains_key(p) <==> before.contains_key(p));
        }
    }
    assert forall|p: u64| a.contains_key(p) implies #[trigger] a[p] == b[p] by {
        if p != price {
            assert(a.contains_key(p) <==> before.contains_key(p));
            assert(b.contains_key(p) <==> before.contains_key(p));
        }
    }
    assert(a =~= b);
}

/// A book has room for a replacement exactly where it has room for the new order once
/// the old one is gone.
pub proof fn lemma_room_for_a_replacement(
    state: BookState,
    mid: BookState,
    timestamp: u64,
    order_ref: u64,
    new_order_ref: u64,
    shares: u32,
    price: u64,
)
    requires
        state.valid(),
        state.orders.contains_key(order_ref),
        shares_left(state, mid, order_ref, state.orders[order_ref].shares),
    ensures
        ({
            let levels = if state.orders[order_ref].side == Side::Buy {
                mid.bids
            } else {
                mid.asks
            };
            state.accepts(
                ItchEvent::OrderReplace { timestamp, order_ref, new_order_ref, shares, price },
            ) <==> (levels.contains_key(price) ==> {
                &&& levels[price].volume + shares <= 0xffff_ffff_ffff_ffff
                &&& levels[price].order_count + 1 <= 0xffff_ffff
            })
        }),
{
    let gone = state.deleted(order_ref);
    assert(shares_left(state, gone, order_ref, state.orders[order_ref].shares));
    let order = state.orders[order_ref];
    if order.side == Side::Buy {
        lemma_leaving_is_determined(state.bids, gone.bids, mid.bids, order.price, order.shares);
    } else {
        lemma_leaving_is_determined(state.asks, gone.asks, mid.asks, order.price, order.shares);
    }
}

/// A notice about a stock or about the feed as a whole changes nothing in a book.
pub proof fn lemma_notices_touch_nothing(
    state: BookState,
    timestamp: u64,
    stock: u64,
    market_category: u8,
    financial_status: u8,
    round_lot_size: u32,
    round_lots_only: bool,
    issue_classification: u8,
    event_code: u8,
)
    ensures
        ({
            let directory = ItchEvent::StockDirectory {
                timestamp,
                stock,
                market_category,
                financial_status,
                round_lot_size,
                round_lots_only,
                issue_classification,
            };
            let system = ItchEvent::SystemEvent { timestamp, event_code };
            &&& untouched(state, state.stepped(directory))
            &&& untouched(state, state.stepped(system))
            &&& state.accepts(directory)
            &&& state.accepts(system)
        }),
{
}

/// Whether `price` and `volume` are those of the highest level, or zeroes where there
/// is no level.
pub open spec fn is_highest(levels: Map<u64, PriceLevel>, price: u64, volume: u64) -> bool {
    if forall|p: u64| !#[trigger] levels.contains_key(p) {
        price == 0 && volume == 0
    } else {
        &&& levels.contains_key(price)
        &&& levels[price].volume == volume
        &&& forall|p: u64| #[trigger] levels.contains_key(p) ==> p <= price
    }
}

/// Whether `price` and `volume` are those of the lowest level, or zeroes where there
/// is no level.
pub open spec fn is_lowest(levels: Map<u64, PriceLevel>, price: u64, volume: u64) -> bool {
    if forall|p: u64| !#[trigger] levels.contains_key(p) {
        price == 0 && volume == 0
    } else {
        &&& levels.contains_key(price)
        &&& levels[price].volume == volume
        &&& forall|p: u64| #[trigger] levels.contains_key(p) ==> price <= p
    }
}

/// The best bid is the level with the highest price, the best ask the one with the
/// lowest. A side without levels has none.
pub proof fn lemma_best_levels_are_the_extremes(levels: Map<u64, PriceLevel>)
    requires
        keyed_by_price(levels),
        levels.dom().finite(),
    ensures
        match best(Side::Buy, levels) {
            Some(level) => levels.contains_key(level.price) && levels[level.price] == level
                && is_highest(levels, level.price, level.volume),
            None => forall|p: u64| !#[trigger] levels.contains_key(p),
        },
        match best(Side::Sell, levels) {
            Some(level) => levels.contains_key(level.price) && levels[level.price] == level
                && is_lowest(levels, level.price, level.volume),
            None => forall|p: u64| !#[trigger] levels.contains_key(p),
        },
{
    lemma_best_level(Side::Buy, levels);
    lemma_best_level(Side::Sell, levels);
    if levels.dom().len() == 0 {
        assert forall|p: u64| !#[trigger] levels.contains_key(p) by {
            assert(!levels.dom().contains(p));
        }
    }
}

/// What a book quotes: price and volume of its highest bid and of its lowest ask.
pub proof fn lemma_quote_is_of_the_extremes(state: BookState)
    requires
        state.valid(),
    ensures
        is_highest(state.bids, state.quote().bid_price, state.quote().bid_volume),
        is_lowest(state.asks, state.quote().ask_price, state.quote().ask_volume),
{
    lemma_best_levels_are_the_extremes(state.bids);
    lemma_best_levels_are_the_extremes(state.asks);
}

/// Whether a list of levels is the front of a side: no more than `n` levels, each one
/// of the side's, and every level of the side is listed or stands behind all `n`.
pub open spec fn fronts(
    levels: Map<u64, PriceLevel>,
    n: nat,
    top: Seq<PriceLevel>,
    before: spec_fn(u64, u64) -> bool,
) -> bool {
    &&& top.len() <= n
    &&& forall|i: int|
        0 <= i < top.len() ==> levels.contains_key((#[trigger] top[i]).price)
            && levels[top[i].price] == top[i]
    &&& forall|i: int, j: int|
        0 <= i < j < top.len() ==> before((#[trigger] top[i]).price, (#[trigger] top[j]).price)
    &&& forall|p: u64| #[trigger]
        levels.contains_key(p) ==> {
            ||| exists|i: int| 0 <= i < top.len() && (#[trigger] top[i]).price == p
            ||| top.len() == n && forall|i: int|
                0 <= i < top.len() ==> before((#[trigger] top[i]).price, p)
        }
}

/// The top bids fall in price and the top asks rise.
pub proof fn lemma_top_levels_run_from_the_extremes(
    levels: Map<u64, PriceLevel>,
    n: nat,
    top: Seq<PriceLevel>,
)
    ensures
        is_top(Side::Buy, levels, n, top) <==> fronts(levels, n, top, |a: u64, b: u64| a > b),
        is_top(Side::Sell, levels, n, top) <==> fronts(levels, n, top, |a: u64, b: u64| a < b),
{
}

/// What an update says is what stands in the book after the event: the highest bid
/// and the lowest ask with their volumes, up to ten bids from the highest down, up to
/// ten asks from the lowest up, the stock and the time of the event. There is an
/// update exactly where the highest bid or the lowest ask, in price or in volume, is
/// not the one last reported.
pub proof fn lemma_update_says_what_stands(
    state: BookState,
    event: ItchEvent,
    update: Option<BboUpdate>,
)
    requires
        state.valid(),
        state.stepped(event).valid(),
        state.reports(event, update),
    ensures
        ({
            let after = state.stepped(event);
            let last = state.reported;
            &&& update is None <==> {
                &&& is_highest(after.bids, last.bid_price, last.bid_volume)
                &&& is_lowest(after.asks, last.ask_price, last.ask_volume)
            }
            &&& is_highest(after.bids, after.reported.bid_price, after.reported.bid_volume)
            &&& is_lowest(after.asks, after.reported.ask_price, after.reported.ask_volume)
            &&& after.stock == state.stock
            &&& update is None ==> after.next_seq == state.next_seq
            &&& update matches Some(u) ==> {
                &&& u.stock == state.stock
                &&& u.timestamp == event.time()
                &&& u.seq_num == state.next_seq
                &&& after.next_seq == (u.seq_num + 1) % 0x1_0000_0000_0000_0000
                &&& is_highest(after.bids, u.bid_price, u.bid_volume)
                &&& is_lowest(after.asks, u.ask_price, u.ask_volume)
                &&& fronts(after.bids, 10, level_list(u.top_bids), |a: u64, b: u64| a > b)
                &&& fronts(after.asks, 10, level_list(u.top_asks), |a: u64, b: u64| a < b)
            }
        }),
{
    let after = state.stepped(event);
    lemma_quote_is_of_the_extremes(after);
    match update {
        Some(u) => {
            lemma_top_levels_run_from_the_extremes(after.bids, 10, level_list(u.top_bids));
            lemma_top_levels_run_from_the_extremes(after.asks, 10, level_list(u.top_asks));
        },
        None => {},
    }
}

/// Whether an event speaks of an order that should be live, and of which.
pub open spec fn speaks_of(event: ItchEvent, order_ref: u64) -> bool {
    match event {
        ItchEvent::OrderExecuted { order_ref: r, .. } => r == order_ref,
        ItchEvent::OrderExecutedPrice { order_ref: r, .. } => r == order_ref,
        ItchEvent::OrderCancel { order_ref: r, .. } => r == order_ref,
        ItchEvent::OrderDelete { order_ref: r, .. } => r == order_ref,
        ItchEvent::OrderReplace { order_ref: r, .. } => r == order_ref,
        _ => false,
    }
}

/// Whether an event brings a new order of the given stock.
pub open spec fn is_order_of(event: ItchEvent, stock: u64) -> bool {
    match event {
        ItchEvent::AddOrder { stock: s, .. } => s == stock,
        ItchEvent::AddOrderMpid { stock: s, .. } => s == stock,
        _ => false,
    }
}

/// Whether one book took an event and all others are as they were.
pub open spec fn one_book_took(
    before: Map<u64, BookState>,
    event: ItchEvent,
    after: Map<u64, BookState>,
    report: Option<BboUpdate>,
    stock: u64,
    book: BookState,
) -> bool {
    &&& after == before.insert(stock, book.stepped(event))
    &&& book.reports(event, report)
}

/// A new order goes to the book of its stock, an empty one where the stock has none.
/// An event on a live order goes to a book that holds it. Where none does, and for a
/// notice, no book changes and nothing is reported.
pub proof fn lemma_events_go_where_they_belong(
    before: Map<u64, BookState>,
    event: ItchEvent,
    after: Map<u64, BookState>,
    report: Option<BboUpdate>,
)
    requires
        books_step(before, event, after, report),
    ensures
        forall|stock: u64| #[trigger]
            is_order_of(event, stock) ==> one_book_took(
                before,
                event,
                after,
                report,
                stock,
                if before.contains_key(stock) {
                    before[stock]
                } else {
                    BookState::empty(stock)
                },
            ),
        forall|order_ref: u64| #[trigger]
            speaks_of(event, order_ref) ==> {
                ||| exists|stock: u64|
                    {
                        &&& before.contains_key(stock)
                        &&& before[stock].orders.contains_key(order_ref)
                        &&& #[trigger] one_book_took(
                            before,
                            event,
                            after,
                            report,
                            stock,
                            before[stock],
                        )
                    }
                ||| {
                    &&& after == before
                    &&& report is None
                    &&& forall|stock: u64| #[trigger]
                        before.contains_key(stock) ==> !before[stock].orders.contains_key(order_ref)
                }
            },
        event is StockDirectory || event is SystemEvent ==> after == before && report is None,
{
    if exists|stock: u64| concerns(before, event, stock) {
        let taker = choose|stock: u64|
            {
                &&& #[trigger] concerns(before, event, stock)
                &&& after == before.insert(stock, book_at(before, stock).stepped(event))
                &&& book_at(before, stock).reports(event, report)
            };
        assert(concerns(before, event, taker));
        assert(one_book_took(before, event, after, report, taker, book_at(before, taker)));
    } else {
        assert forall|stock: u64| is_order_of(event, stock) implies false by {
            assert(concerns(before, event, stock));
        }
        assert forall|order_ref: u64, stock: u64|
            speaks_of(event, order_ref) && #[trigger] before.contains_key(
                stock,
            ) implies !(#[trigger] before[stock].orders.contains_key(order_ref)) by {
            assert(!concerns(before, event, stock));
        }
    }
}

/// Books have room for an event exactly where every book that it can go to has.
pub proof fn lemma_room_in_the_books(before: Map<u64, BookState>, event: ItchEvent)
    ensures
        all_accept(before, event) <==> {
            &&& forall|stock: u64| #[trigger]
                is_order_of(event, stock) ==> (if before.contains_key(stock) {
                    before[stock]
                } else {
                    BookState::empty(stock)
                }).accepts(event)
            &&& forall|order_ref: u64, stock: u64|
                speaks_of(event, order_ref) && #[trigger] before.contains_key(stock)
                    && #[trigger] before[stock].orders.contains_key(order_ref)
                    ==> before[stock].accepts(event)
        },
{
    let all = all_accept(before, event);
    let by_stock = forall|stock: u64| #[trigger]
        is_order_of(event, stock) ==> (if before.contains_key(stock) {
            before[stock]
        } else {
            BookState::empty(stock)
        }).accepts(event);
    let by_order = forall|order_ref: u64, stock: u64|
        speaks_of(event, order_ref) && #[trigger] before.contains_key(stock)
            && #[trigger] before[stock].orders.contains_key(order_ref)
            ==> before[stock].accepts(event);
    if all {
        assert forall|stock: u64| #[trigger] is_order_of(event, stock) implies (
        if before.contains_key(stock) {
            before[stock]
        } else {
            BookState::empty(stock)
        }).accepts(event) by {
            assert(concerns(before, event, stock));
        }
        assert forall|order_ref: u64, stock: u64|
            speaks_of(event, order_ref) && #[trigger] before.contains_key(stock)
                && #[trigger] before[stock].orders.contains_key(
                order_ref,
            ) implies before[stock].accepts(event) by {
            assert(concerns(before, event, stock));
        }
    }
    if by_stock && by_order {
        assert forall|stock: u64| #[trigger]
            concerns(before, event, stock) implies book_at(
            before,
            stock,
        ).accepts(event) by {
            match event {
                ItchEvent::AddOrder { .. } => {
                    assert(is_order_of(event, stock));
                },
                ItchEvent::AddOrderMpid { .. } => {
                    assert(is_order_of(event, stock));
                },
                ItchEvent::OrderExecuted { order_ref, .. } => {
                    assert(speaks_of(event, order_ref));
                },
                ItchEvent::OrderExecutedPrice { order_ref, .. } => {
                    assert(speaks_of(event, order_ref));
                },
                ItchEvent::OrderCancel { order_ref, .. } => {
                    assert(speaks_of(event, order_ref));
                },
                ItchEvent::OrderDelete { order_ref, .. } => {
                    assert(speaks_of(event, order_ref));
                },
                ItchEvent::OrderReplace { order_ref, .. } => {
                    assert(speaks_of(event, order_ref));
                },
                _ => {},
            }
        }
    }
}

} // verus!

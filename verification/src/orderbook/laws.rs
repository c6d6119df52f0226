//! What holds of order books whatever events they take.
use crate::orderbook::books::{book_at, books_step, concerns, live_order_of};
use crate::orderbook::level::{level_list, BboUpdate, PriceLevel};
use crate::orderbook::model::{best, better, has_room, is_best_price, is_top, keyed_by_price,
    BookState, OrderInfo};
use crate::protocol::{ItchEvent, Side};
use vstd::prelude::*;

verus! {

/// A side that has levels has a best one.
proof fn lemma_best_price_exists(side: Side, levels: Map<u64, PriceLevel>)
    requires
        levels.dom().finite(),
        levels.dom().len() > 0,
    ensures
        exists|price: u64| is_best_price(side, levels, price),
    decreases levels.dom().len(),
{
    let any = levels.dom().choose();
    let rest = levels.remove(any);
    if rest.dom().len() == 0 {
        assert forall|other: u64| #[trigger] levels.contains_key(other) implies other == any by {
            if other != any {
                assert(rest.dom().contains(other));
            }
        }
        assert(is_best_price(side, levels, any));
    } else {
        lemma_best_price_exists(side, rest);
        let p = choose|price: u64| is_best_price(side, rest, price);
        let winner = if better(side, any, p) { any } else { p };
        assert forall|other: u64| #[trigger] levels.contains_key(other) implies other == winner
            || better(side, winner, other) by {
            if other != any {
                assert(rest.contains_key(other));
            }
        }
        assert(is_best_price(side, levels, winner));
    }
}

/// A side has a best level exactly when it has any, and no level is better.
pub proof fn lemma_best_level(side: Side, levels: Map<u64, PriceLevel>)
    requires
        levels.dom().finite(),
        keyed_by_price(levels),
    ensures
        best(side, levels) is None <==> levels.dom().len() == 0,
        best(side, levels) matches Some(level) ==> {
            &&& levels.contains_key(level.price)
            &&& levels[level.price] == level
            &&& forall|price: u64| #[trigger]
                levels.contains_key(price) ==> price == level.price || better(
                    side,
                    level.price,
                    price,
                )
        },
{
    if levels.dom().len() > 0 {
        lemma_best_price_exists(side, levels);
    } else {
        assert forall|price: u64| !levels.contains_key(price) by {
            assert(!levels.dom().contains(price));
        }
    }
}

/// The best level heads the top levels.
pub proof fn lemma_top_starts_with_best(
    side: Side,
    levels: Map<u64, PriceLevel>,
    n: nat,
    top: Seq<PriceLevel>,
)
    requires
        levels.dom().finite(),
        keyed_by_price(levels),
        is_top(side, levels, n, top),
        n > 0,
    ensures
        top.len() == 0 <==> best(side, levels) is None,
        top.len() > 0 ==> best(side, levels) == Some(top[0]),
{
    lemma_best_level(side, levels);
    if top.len() > 0 {
        assert(levels.dom().contains(top[0].price));
        let level = best(side, levels)->0;
        assert(levels.contains_key(level.price));
        assert(levels.contains_key(top[0].price));
        if exists|i: int| 0 <= i < top.len() && (#[trigger] top[i]).price == level.price {
            let i = choose|i: int| 0 <= i < top.len() && (#[trigger] top[i]).price == level.price;
            if i > 0 {
                assert(better(side, top[0].price, top[i].price));
            }
        }
    } else if best(side, levels) is Some {
        assert(levels.contains_key(best(side, levels)->0.price));
    }
}

/// The top levels are determined: there is only one way to list them.
pub proof fn lemma_top_is_unique(
    side: Side,
    levels: Map<u64, PriceLevel>,
    n: nat,
    a: Seq<PriceLevel>,
    b: Seq<PriceLevel>,
)
    requires
        is_top(side, levels, n, a),
        is_top(side, levels, n, b),
    ensures
        a == b,
{
    lemma_top_prefix_agrees(side, levels, n, a, b, a.len());
    lemma_top_prefix_agrees(side, levels, n, b, a, b.len());
    assert(a =~= b);
}

proof fn lemma_top_prefix_agrees(
    side: Side,
    levels: Map<u64, PriceLevel>,
    n: nat,
    a: Seq<PriceLevel>,
    b: Seq<PriceLevel>,
    k: nat,
)
    requires
        is_top(side, levels, n, a),
        is_top(side, levels, n, b),
        k <= a.len(),
    ensures
        k <= b.len(),
        forall|i: int| 0 <= i < k ==> a[i] == b[i],
    decreases k,
{
    if k > 0 {
        let m = (k - 1) as nat;
        lemma_top_prefix_agrees(side, levels, n, a, b, m);
        let x = a[m as int];
        assert(levels.contains_key(x.price));
        if !(exists|i: int| 0 <= i < b.len() && (#[trigger] b[i]).price == x.price) {
            // `b` is full and all of it is better than `x`: it has a level that `a`
            // would have to list before `x`.
            assert(b.len() == n);
            let y = b[m as int];
            assert(better(side, y.price, x.price));
            assert(levels.contains_key(y.price));
            lemma_listed_before(side, levels, n, a, b, m);
            assert(false);
        }
        let j = choose|j: int| 0 <= j < b.len() && (#[trigger] b[j]).price == x.price;
        if j < m {
            assert(a[j] == b[j]);
            assert(better(side, a[j].price, x.price));
        }
        if j > m {
            let y = b[m as int];
            assert(better(side, y.price, b[j].price));
            lemma_listed_before(side, levels, n, a, b, m);
        }
        assert(j == m);
        assert(a[m as int] == b[m as int]);
    }
}

/// Where two lists of top levels agree up to place `m`, the second cannot have a
/// better level there than the first.
proof fn lemma_listed_before(
    side: Side,
    levels: Map<u64, PriceLevel>,
    n: nat,
    a: Seq<PriceLevel>,
    b: Seq<PriceLevel>,
    m: nat,
)
    requires
        is_top(side, levels, n, a),
        is_top(side, levels, n, b),
        m < a.len(),
        m < b.len(),
        forall|i: int| 0 <= i < m ==> a[i] == b[i],
    ensures
        !better(side, b[m as int].price, a[m as int].price),
{
    let x = a[m as int];
    let y = b[m as int];
    if better(side, y.price, x.price) {
        assert(levels.contains_key(y.price));
        if exists|i: int| 0 <= i < a.len() && (#[trigger] a[i]).price == y.price {
            let i = choose|i: int| 0 <= i < a.len() && (#[trigger] a[i]).price == y.price;
            if i < m {
                assert(b[i] == a[i]);
                assert(better(side, b[i].price, b[m as int].price));
            }
            if i > m {
                assert(better(side, a[m as int].price, a[i].price));
            }
        } else {
            assert(better(side, a[m as int].price, y.price));
        }
    }
}

proof fn lemma_placement_keeps_valid(state: BookState, order_ref: u64, order: OrderInfo)
    requires
        state.valid(),
    ensures
        state.placed(order_ref, order).valid(),
{
}

proof fn lemma_deletion_keeps_valid(state: BookState, order_ref: u64)
    requires
        state.valid(),
    ensures
        state.deleted(order_ref).valid(),
{
}

proof fn lemma_reduction_keeps_valid(state: BookState, order_ref: u64, shares: u32)
    requires
        state.valid(),
    ensures
        state.reduced(order_ref, shares).valid(),
{
}

/// An event keeps a book's state valid.
pub proof fn lemma_valid_is_kept(state: BookState, event: ItchEvent)
    requires
        state.valid(),
    ensures
        state.after(event).valid(),
        state.stepped(event).valid(),
{
    match event {
        ItchEvent::AddOrder { order_ref, side, shares, price, .. } => {
            lemma_placement_keeps_valid(state, order_ref, OrderInfo { side, price, shares });
        },
        ItchEvent::AddOrderMpid { order_ref, side, shares, price, .. } => {
            lemma_placement_keeps_valid(state, order_ref, OrderInfo { side, price, shares });
        },
        ItchEvent::OrderExecuted { order_ref, shares, .. } => {
            lemma_reduction_keeps_valid(state, order_ref, shares);
        },
        ItchEvent::OrderExecutedPrice { order_ref, shares, .. } => {
            lemma_reduction_keeps_valid(state, order_ref, shares);
        },
        ItchEvent::OrderCancel { order_ref, shares, .. } => {
            lemma_reduction_keeps_valid(state, order_ref, shares);
        },
        ItchEvent::OrderDelete { order_ref, .. } => {
            lemma_deletion_keeps_valid(state, order_ref);
        },
        ItchEvent::OrderReplace { order_ref, new_order_ref, shares, price, .. } => {
            lemma_deletion_keeps_valid(state, order_ref);
            lemma_placement_keeps_valid(
                state.deleted(order_ref),
                new_order_ref,
                OrderInfo { side: state.orders[order_ref].side, price, shares },
            );
        },
        _ => {},
    }
}

/// After every event, what the book last reported is what stands in it.
pub proof fn lemma_reported_is_current(state: BookState, event: ItchEvent)
    ensures
        state.stepped(event).reported == state.stepped(event).quote(),
{
}

/// The state after a run of events.
pub open spec fn run(state: BookState, events: Seq<ItchEvent>) -> BookState
    decreases events.len(),
{
    if events.len() == 0 {
        state
    } else {
        run(state, events.drop_last()).stepped(events.last())
    }
}

/// Whatever a new book goes through, it stays the book of its stock, and what it
/// last reported is what stands in it.
pub proof fn lemma_run_keeps_reporting(stock: u64, events: Seq<ItchEvent>)
    ensures
        run(BookState::empty(stock), events).stock == stock,
        run(BookState::empty(stock), events).reported == run(
            BookState::empty(stock),
            events,
        ).quote(),
    decreases events.len(),
{
    let first = BookState::empty(stock);
    if events.len() > 0 {
        lemma_run_keeps_reporting(stock, events.drop_last());
        lemma_reported_is_current(run(first, events.drop_last()), events.last());
    } else {
        assert(forall|price: u64| !is_best_price(Side::Buy, first.bids, price));
        assert(forall|price: u64| !is_best_price(Side::Sell, first.asks, price));
    }
}

/// How many of a run of events the book reports an update for.
pub open spec fn updates_in(state: BookState, events: Seq<ItchEvent>) -> nat
    decreases events.len(),
{
    if events.len() == 0 {
        0
    } else {
        let before = run(state, events.drop_last());
        updates_in(state, events.drop_last()) + if before.after(events.last()).quote()
            == before.reported {
            0nat
        } else {
            1nat
        }
    }
}

/// Updates are numbered in a row: the next number is as far on as updates were
/// reported, all in 64 bits.
pub proof fn lemma_updates_are_numbered_in_a_row(state: BookState, events: Seq<ItchEvent>)
    ensures
        run(state, events).next_seq as int == (state.next_seq + updates_in(state, events))
            % 0x1_0000_0000_0000_0000,
    decreases events.len(),
{
    if events.len() > 0 {
        lemma_updates_are_numbered_in_a_row(state, events.drop_last());
    }
}

/// An event that comes out with an update takes one number, any other takes none.
pub proof fn lemma_update_takes_a_number(
    state: BookState,
    event: ItchEvent,
    update: Option<BboUpdate>,
)
    requires
        state.reports(event, update),
    ensures
        update matches Some(u) ==> u.seq_num == state.next_seq,
        state.stepped(event).next_seq as int == (state.next_seq + if update is Some {
            1int
        } else {
            0int
        }) % 0x1_0000_0000_0000_0000,
{
}

/// Whatever a new book went through before, an event comes out with an update
/// exactly when the best price or its volume changes on one of the sides. The update
/// bears the number of updates before it, in 64 bits, and tells what stands in the
/// book after the event.
pub proof fn lemma_updates_tell_every_change(
    stock: u64,
    events: Seq<ItchEvent>,
    event: ItchEvent,
    update: Option<BboUpdate>,
)
    requires
        run(BookState::empty(stock), events).reports(event, update),
    ensures
        ({
            let before = run(BookState::empty(stock), events);
            let after = before.stepped(event);
            &&& update is Some <==> before.quote() != after.quote()
            &&& update matches Some(u) ==> {
                &&& u.seq_num as int == updates_in(BookState::empty(stock), events) as int
                    % 0x1_0000_0000_0000_0000
                &&& u.stock == stock
                &&& u.timestamp == event.time()
                &&& u.snapshot() == after.quote()
                &&& forall|top: Seq<PriceLevel>| #[trigger]
                    is_top(Side::Buy, after.bids, 10, top) ==> top == level_list(u.top_bids)
                &&& forall|top: Seq<PriceLevel>| #[trigger]
                    is_top(Side::Sell, after.asks, 10, top) ==> top == level_list(u.top_asks)
            }
        }),
{
    let before = run(BookState::empty(stock), events);
    let after = before.stepped(event);
    lemma_run_keeps_reporting(stock, events);
    lemma_updates_are_numbered_in_a_row(BookState::empty(stock), events);
    match update {
        Some(u) => {
            assert forall|top: Seq<PriceLevel>| #[trigger]
                is_top(Side::Buy, after.bids, 10, top) implies top == level_list(u.top_bids) by {
                lemma_top_is_unique(Side::Buy, after.bids, 10, top, level_list(u.top_bids));
            }
            assert forall|top: Seq<PriceLevel>| #[trigger]
                is_top(Side::Sell, after.asks, 10, top) implies top == level_list(u.top_asks) by {
                lemma_top_is_unique(Side::Sell, after.asks, 10, top, level_list(u.top_asks));
            }
        },
        None => {},
    }
}

/// A new order that is deleted leaves no trace in levels and orders. A level that
/// stood at its price without any volume would go with it, and an order under the
/// same reference would be lost.
pub proof fn lemma_add_then_delete(state: BookState, order_ref: u64, order: OrderInfo)
    requires
        state.valid(),
        !state.orders.contains_key(order_ref),
        has_room(state.levels(order.side), order.price, order.shares),
        state.levels(order.side).contains_key(order.price) ==> state.levels(
            order.side,
        )[order.price].volume > 0,
    ensures
        state.placed(order_ref, order).deleted(order_ref) == state,
{
    let there_and_back = state.placed(order_ref, order).deleted(order_ref);
    assert(there_and_back.orders =~= state.orders);
    assert(there_and_back.bids =~= state.bids);
    assert(there_and_back.asks =~= state.asks);
}

/// Cancelling or executing all that is left of an order is deleting it.
pub proof fn lemma_full_reduction_is_deletion(state: BookState, order_ref: u64, shares: u32)
    requires
        state.orders.contains_key(order_ref) ==> shares >= state.orders[order_ref].shares,
    ensures
        state.reduced(order_ref, shares) == state.deleted(order_ref),
{
}

/// An execution, at whatever price, takes from the book what a cancellation of as
/// many shares takes.
pub proof fn lemma_execution_is_cancellation(
    state: BookState,
    order_ref: u64,
    shares: u32,
    timestamp: u64,
    match_number: u64,
    printable: bool,
    price: u64,
)
    ensures
        ({
            let cancelled = state.stepped(
                ItchEvent::OrderCancel { timestamp, order_ref, shares },
            );
            &&& state.stepped(
                ItchEvent::OrderExecuted { timestamp, order_ref, shares, match_number },
            ) == cancelled
            &&& state.stepped(
                ItchEvent::OrderExecutedPrice {
                    timestamp,
                    order_ref,
                    shares,
                    match_number,
                    printable,
                    price,
                },
            ) == cancelled
        }),
{
}

/// Replacing a live order is deleting it and adding the other on the same side.
pub proof fn lemma_replacement_is_delete_then_add(
    state: BookState,
    order_ref: u64,
    new_order_ref: u64,
    shares: u32,
    price: u64,
    timestamp: u64,
)
    requires
        state.orders.contains_key(order_ref),
    ensures
        state.after(
            ItchEvent::OrderReplace { timestamp, order_ref, new_order_ref, shares, price },
        ) == state.after(ItchEvent::OrderDelete { timestamp, order_ref }).after(
            ItchEvent::AddOrder {
                timestamp,
                order_ref: new_order_ref,
                side: state.orders[order_ref].side,
                shares,
                stock: state.stock,
                price,
            },
        ),
{
}

/// A book that has reported what stands in it says nothing and does not change on
/// an event about an order that it does not hold, nor on one about no order.
pub proof fn lemma_foreign_events_are_ignored(
    state: BookState,
    event: ItchEvent,
    update: Option<BboUpdate>,
)
    requires
        state.reported == state.quote(),
        state.reports(event, update),
        !(event is AddOrder),
        !(event is AddOrderMpid),
        live_order_of(event) matches Some(order_ref)
            ==> !state.orders.contains_key(order_ref),
    ensures
        state.stepped(event) == state,
        update is None,
{
}

/// The shares of the live orders on one side at one price.
pub open spec fn live_shares(orders: Map<u64, OrderInfo>, side: Side, price: u64) -> nat
    decreases orders.dom().len(),
    when orders.dom().finite()
{
    if orders.dom().len() == 0 {
        0
    } else {
        let order_ref = orders.dom().choose();
        shares_there(orders[order_ref], side, price) + live_shares(
            orders.remove(order_ref),
            side,
            price,
        )
    }
}

pub open spec fn shares_there(order: OrderInfo, side: Side, price: u64) -> nat {
    if order.side == side && order.price == price {
        order.shares as nat
    } else {
        0
    }
}

/// The volume at a price, zero where there is no level.
pub open spec fn volume_at(levels: Map<u64, PriceLevel>, price: u64) -> nat {
    if levels.contains_key(price) {
        levels[price].volume as nat
    } else {
        0
    }
}

/// The volume at every price is that of the live orders there.
pub open spec fn volumes_match_orders(state: BookState) -> bool {
    forall|side: Side, price: u64| #[trigger]
        volume_at(state.levels(side), price) == live_shares(state.orders, side, price)
}

/// Whether an event brings no order under a reference that another live order has.
pub open spec fn is_fresh(state: BookState, event: ItchEvent) -> bool {
    match event {
        ItchEvent::AddOrder { order_ref, .. } => !state.orders.contains_key(order_ref),
        ItchEvent::AddOrderMpid { order_ref, .. } => !state.orders.contains_key(order_ref),
        ItchEvent::OrderReplace { order_ref, new_order_ref, .. } => new_order_ref == order_ref
            || !state.orders.contains_key(new_order_ref),
        _ => true,
    }
}

pub(crate) proof fn lemma_live_shares_remove(
    orders: Map<u64, OrderInfo>,
    order_ref: u64,
    side: Side,
    price: u64,
)
    requires
        orders.dom().finite(),
        orders.contains_key(order_ref),
    ensures
        live_shares(orders, side, price) == shares_there(orders[order_ref], side, price)
            + live_shares(orders.remove(order_ref), side, price),
    decreases orders.dom().len(),
{
    let first = orders.dom().choose();
    assert(orders.dom().len() > 0) by {
        if orders.dom().len() == 0 {
            assert(orders.dom() =~= Set::empty());
        }
    }
    if first != order_ref {
        let without_first = orders.remove(first);
        lemma_live_shares_remove(without_first, order_ref, side, price);
        let without_ref = orders.remove(order_ref);
        lemma_live_shares_remove(without_ref, first, side, price);
        assert(without_first.remove(order_ref) =~= without_ref.remove(first));
    }
}

pub(crate) proof fn lemma_live_shares_insert(
    orders: Map<u64, OrderInfo>,
    order_ref: u64,
    order: OrderInfo,
    side: Side,
    price: u64,
)
    requires
        orders.dom().finite(),
        !orders.contains_key(order_ref),
    ensures
        live_shares(orders.insert(order_ref, order), side, price) == shares_there(
            order,
            side,
            price,
        ) + live_shares(orders, side, price),
{
    let more = orders.insert(order_ref, order);
    lemma_live_shares_remove(more, order_ref, side, price);
    assert(more.remove(order_ref) =~= orders);
}

proof fn lemma_deletion_keeps_volumes(state: BookState, order_ref: u64)
    requires
        state.valid(),
        volumes_match_orders(state),
    ensures
        volumes_match_orders(state.deleted(order_ref)),
{
    let next = state.deleted(order_ref);
    if state.orders.contains_key(order_ref) {
        let order = state.orders[order_ref];
        assert forall|side: Side, price: u64| #[trigger]
            volume_at(next.levels(side), price) == live_shares(next.orders, side, price) by {
            lemma_live_shares_remove(state.orders, order_ref, side, price);
            lemma_live_shares_remove(state.orders, order_ref, order.side, order.price);
            assert(volume_at(state.levels(side), price) == live_shares(state.orders, side, price));
        }
    }
}

proof fn lemma_placement_keeps_volumes(state: BookState, order_ref: u64, order: OrderInfo)
    requires
        state.valid(),
        volumes_match_orders(state),
        !state.orders.contains_key(order_ref),
        has_room(state.levels(order.side), order.price, order.shares),
    ensures
        volumes_match_orders(state.placed(order_ref, order)),
{
    let next = state.placed(order_ref, order);
    assert forall|side: Side, price: u64| #[trigger]
        volume_at(next.levels(side), price) == live_shares(next.orders, side, price) by {
        lemma_live_shares_insert(state.orders, order_ref, order, side, price);
        assert(volume_at(state.levels(side), price) == live_shares(state.orders, side, price));
    }
}

proof fn lemma_reduction_keeps_volumes(state: BookState, order_ref: u64, shares: u32)
    requires
        state.valid(),
        volumes_match_orders(state),
    ensures
        volumes_match_orders(state.reduced(order_ref, shares)),
{
    let next = state.reduced(order_ref, shares);
    if state.orders.contains_key(order_ref) {
        let order = state.orders[order_ref];
        let taken: u32 = if shares <= order.shares { shares } else { order.shares };
        let left = (order.shares - taken) as u32;
        let others = state.orders.remove(order_ref);
        assert forall|side: Side, price: u64| #[trigger]
            volume_at(next.levels(side), price) == live_shares(next.orders, side, price) by {
            lemma_live_shares_remove(state.orders, order_ref, side, price);
            lemma_live_shares_remove(state.orders, order_ref, order.side, order.price);
            assert(volume_at(state.levels(side), price) == live_shares(state.orders, side, price));
            assert(volume_at(state.levels(order.side), order.price) == live_shares(
                state.orders,
                order.side,
                order.price,
            ));
            if left != 0 {
                let rest = OrderInfo { shares: left, ..order };
                lemma_live_shares_insert(others, order_ref, rest, side, price);
                assert(others.insert(order_ref, rest) =~= next.orders);
            }
        }
    }
}

/// A new book's volumes match its orders, of which there are none.
pub proof fn lemma_volumes_match_at_first(stock: u64)
    ensures
        volumes_match_orders(BookState::empty(stock)),
        BookState::empty(stock).valid(),
{
}

/// As long as no two live orders share a reference, the volume at every price
/// stays that of the live orders there.
pub proof fn lemma_volumes_keep_matching_orders(state: BookState, event: ItchEvent)
    requires
        state.valid(),
        state.accepts(event),
        is_fresh(state, event),
        volumes_match_orders(state),
    ensures
        volumes_match_orders(state.stepped(event)),
{
    match event {
        ItchEvent::AddOrder { order_ref, side, shares, price, .. } => {
            lemma_placement_keeps_volumes(state, order_ref, OrderInfo { side, price, shares });
        },
        ItchEvent::AddOrderMpid { order_ref, side, shares, price, .. } => {
            lemma_placement_keeps_volumes(state, order_ref, OrderInfo { side, price, shares });
        },
        ItchEvent::OrderExecuted { order_ref, shares, .. } => {
            lemma_reduction_keeps_volumes(state, order_ref, shares);
        },
        ItchEvent::OrderExecutedPrice { order_ref, shares, .. } => {
            lemma_reduction_keeps_volumes(state, order_ref, shares);
        },
        ItchEvent::OrderCancel { order_ref, shares, .. } => {
            lemma_reduction_keeps_volumes(state, order_ref, shares);
        },
        ItchEvent::OrderDelete { order_ref, .. } => {
            lemma_deletion_keeps_volumes(state, order_ref);
        },
        ItchEvent::OrderReplace { order_ref, new_order_ref, shares, price, .. } => {
            if state.orders.contains_key(order_ref) {
                lemma_deletion_keeps_volumes(state, order_ref);
                lemma_placement_keeps_volumes(
                    state.deleted(order_ref),
                    new_order_ref,
                    OrderInfo { side: state.orders[order_ref].side, price, shares },
                );
            }
        },
        _ => {},
    }
    let next = state.after(event);
    let stepped = state.stepped(event);
    assert forall|side: Side, price: u64| #[trigger]
        volume_at(stepped.levels(side), price) == live_shares(stepped.orders, side, price) by {
        assert(volume_at(next.levels(side), price) == live_shares(next.orders, side, price));
    }
}

/// Whether a run of events is accepted step by step and never brings an order
/// under a reference that another live order has.
pub open spec fn is_regular(state: BookState, events: Seq<ItchEvent>) -> bool
    decreases events.len(),
{
    events.len() > 0 ==> {
        let before = run(state, events.drop_last());
        &&& is_regular(state, events.drop_last())
        &&& before.accepts(events.last())
        &&& is_fresh(before, events.last())
    }
}

/// Whatever a new book goes through, the volume at every price is that of the
/// live orders there.
pub proof fn lemma_volumes_match_throughout(stock: u64, events: Seq<ItchEvent>)
    requires
        is_regular(BookState::empty(stock), events),
    ensures
        run(BookState::empty(stock), events).valid(),
        volumes_match_orders(run(BookState::empty(stock), events)),
    decreases events.len(),
{
    let first = BookState::empty(stock);
    if events.len() > 0 {
        lemma_volumes_match_throughout(stock, events.drop_last());
        let before = run(first, events.drop_last());
        lemma_valid_is_kept(before, events.last());
        lemma_volumes_keep_matching_orders(before, events.last());
    } else {
        lemma_volumes_match_at_first(stock);
    }
}

/// Whether the books before and after are the same but for those of one stock.
pub open spec fn same_but_for(
    before: Map<u64, BookState>,
    after: Map<u64, BookState>,
    changed: u64,
) -> bool {
    forall|stock: u64|
        stock != changed ==> {
            &&& before.contains_key(stock) <==> #[trigger] after.contains_key(stock)
            &&& before.contains_key(stock) ==> before[stock] == after[stock]
        }
}

/// An event changes the book of one stock at most; no book goes.
pub proof fn lemma_one_book_at_most_changes(
    before: Map<u64, BookState>,
    event: ItchEvent,
    after: Map<u64, BookState>,
    report: Option<BboUpdate>,
)
    requires
        books_step(before, event, after, report),
    ensures
        before.dom().subset_of(after.dom()),
        exists|changed: u64| same_but_for(before, after, changed),
{
    if exists|stock: u64| concerns(before, event, stock) {
        let changed = choose|stock: u64|
            {
                &&& #[trigger] concerns(before, event, stock)
                &&& after == before.insert(stock, book_at(before, stock).stepped(event))
                &&& book_at(before, stock).reports(event, report)
            };
        assert(same_but_for(before, after, changed));
    } else {
        assert(same_but_for(before, after, 0));
    }
}

/// An event that concerns one stock alone goes to the book of that stock: what comes
/// of it is what that book makes of it, an empty one where the stock had none. No
/// other book changes, and none goes.
pub proof fn lemma_event_goes_to_its_book(
    before: Map<u64, BookState>,
    event: ItchEvent,
    after: Map<u64, BookState>,
    report: Option<BboUpdate>,
    stock: u64,
)
    requires
        books_step(before, event, after, report),
        before.dom().finite(),
        concerns(before, event, stock),
        forall|other: u64| #[trigger] concerns(before, event, other) ==> other == stock,
    ensures
        after == before.insert(stock, book_at(before, stock).stepped(event)),
        book_at(before, stock).reports(event, report),
        after.dom().len() == before.dom().len() + if before.contains_key(stock) {
            0nat
        } else {
            1nat
        },
{
    assert(after.dom() =~= before.dom().insert(stock));
}

/// A report names the stock whose book changed, and its best prices and volumes
/// are those of that book.
pub proof fn lemma_report_speaks_of_its_book(
    before: Map<u64, BookState>,
    event: ItchEvent,
    after: Map<u64, BookState>,
    report: Option<BboUpdate>,
)
    requires
        books_step(before, event, after, report),
        forall|stock: u64| #[trigger]
            before.contains_key(stock) ==> before[stock].stock == stock,
    ensures
        report matches Some(u) ==> {
            &&& after.contains_key(u.stock)
            &&& after[u.stock].quote() == u.snapshot()
            &&& after[u.stock].reported == u.snapshot()
        },
{
}

/// A new order can be found again: an event on it concerns the book of its stock.
pub proof fn lemma_added_order_is_found(
    before: Map<u64, BookState>,
    event: ItchEvent,
    after: Map<u64, BookState>,
    report: Option<BboUpdate>,
    later: ItchEvent,
)
    requires
        books_step(before, event, after, report),
    ensures
        event matches ItchEvent::AddOrder { order_ref, stock, .. } ==> (
        live_order_of(later) == Some(order_ref) ==> concerns(
            after,
            later,
            stock,
        )),
        event matches ItchEvent::AddOrderMpid { order_ref, stock, .. } ==> (
        live_order_of(later) == Some(order_ref) ==> concerns(
            after,
            later,
            stock,
        )),
{
    match event {
        ItchEvent::AddOrder { stock, .. } => {
            assert(concerns(before, event, stock));
        },
        ItchEvent::AddOrderMpid { stock, .. } => {
            assert(concerns(before, event, stock));
        },
        _ => {},
    }
}

} // verus!

//! What holds of option books and chains whatever they go through.
use crate::lists::{lemma_filter_distinct, lemma_none_pass};
use crate::options::book::{OptionBookState, PricingOutcome};
use crate::options::chain::{lemma_shown_step, OptionChainState};
use crate::options::contract::{OptionContract, OptionContractKey};
use crate::options::event::{OptionOrderAction, OptionOrderEvent};
use crate::options::manager::OptionChainsState;
use crate::orderbook::laws::{lemma_live_shares_insert, lemma_live_shares_remove, live_shares,
    volume_at};
use crate::orderbook::model::{has_room, OrderInfo};
use crate::pricing::Real;
use crate::protocol::Side;
use vstd::prelude::*;

verus! {

/// Neither an action on an order nor an answer of the pricing model makes a book's
/// state invalid.
pub proof fn lemma_book_stays_valid(
    book: OptionBookState,
    action: OptionOrderAction,
    spot_price: Real,
    outcome: PricingOutcome,
)
    requires
        book.valid(),
    ensures
        book.after(action).valid(),
        book.priced(spot_price, outcome).valid(),
{
}

/// A new order that is deleted leaves no trace in levels and orders; only the
/// pricing is out of date. A level that stood at its price without any volume would
/// go with it, and an order under the same reference would be lost.
pub proof fn lemma_add_then_delete(book: OptionBookState, order_ref: u64, order: OrderInfo)
    requires
        !book.orders.contains_key(order_ref),
        book.valid(),
        has_room(book.levels(order.side), order.price, order.shares),
        book.levels(order.side).contains_key(order.price) ==> book.levels(
            order.side,
        )[order.price].volume > 0,
    ensures
        book.placed(order_ref, order).deleted(order_ref) == (OptionBookState {
            pricing_dirty: true,
            ..book
        }),
{
    let there_and_back = book.placed(order_ref, order).deleted(order_ref);
    assert(there_and_back.orders =~= book.orders);
    assert(there_and_back.bids =~= book.bids);
    assert(there_and_back.asks =~= book.asks);
}

/// Cancelling all that is left of an order is deleting it, if anything is left.
pub proof fn lemma_full_cancel_is_deletion(book: OptionBookState, order_ref: u64, shares: u32)
    requires
        book.orders.contains_key(order_ref) ==> 0 < book.orders[order_ref].shares <= shares,
    ensures
        book.reduced(order_ref, shares) == book.deleted(order_ref),
{
}

/// An action on an order that is not live changes nothing.
pub proof fn lemma_dead_orders_are_ignored(book: OptionBookState, order_ref: u64, shares: u32)
    requires
        !book.orders.contains_key(order_ref),
    ensures
        book.after(OptionOrderAction::Cancel { order_ref, shares }) == book,
        book.after(OptionOrderAction::Delete { order_ref }) == book,
{
}

/// A change of the best prices or volumes puts the pricing out of date: as long as
/// it is not, they are those at which the contract was priced.
pub open spec fn pricing_is_current(book: OptionBookState) -> bool {
    !book.pricing_dirty ==> book.last_bbo == Some(
        (
            book.quote().bid_price,
            book.quote().bid_volume,
            book.quote().ask_price,
            book.quote().ask_volume,
        ),
    )
}

/// Pricing is current in a new book, and stays so whatever happens to its orders
/// and whatever the pricing model answers.
pub proof fn lemma_pricing_stays_current(
    book: OptionBookState,
    contract: OptionContract,
    action: OptionOrderAction,
    spot_price: Real,
    outcome: PricingOutcome,
)
    requires
        pricing_is_current(book),
    ensures
        pricing_is_current(OptionBookState::empty(contract)),
        pricing_is_current(book.after(action)),
        pricing_is_current(book.priced(spot_price, outcome)),
{
}

/// The volume at every price is that of the live orders there.
pub open spec fn volumes_match_orders(book: OptionBookState) -> bool {
    forall|side: Side, price: u64| #[trigger]
        volume_at(book.levels(side), price) == live_shares(book.orders, side, price)
}

/// A new book's volumes match its orders, of which there are none.
pub proof fn lemma_volumes_match_at_first(contract: OptionContract)
    ensures
        volumes_match_orders(OptionBookState::empty(contract)),
        OptionBookState::empty(contract).valid(),
{
}

proof fn lemma_deletion_keeps_volumes(book: OptionBookState, order_ref: u64)
    requires
        book.valid(),
        volumes_match_orders(book),
    ensures
        volumes_match_orders(book.deleted(order_ref)),
{
    let next = book.deleted(order_ref);
    if book.orders.contains_key(order_ref) {
        let order = book.orders[order_ref];
        assert forall|side: Side, price: u64| #[trigger]
            volume_at(next.levels(side), price) == live_shares(next.orders, side, price) by {
            lemma_live_shares_remove(book.orders, order_ref, side, price);
            lemma_live_shares_remove(book.orders, order_ref, order.side, order.price);
            assert(volume_at(book.levels(side), price) == live_shares(book.orders, side, price));
        }
    }
}

proof fn lemma_placement_keeps_volumes(book: OptionBookState, order_ref: u64, order: OrderInfo)
    requires
        book.valid(),
        volumes_match_orders(book),
        !book.orders.contains_key(order_ref),
        has_room(book.levels(order.side), order.price, order.shares),
    ensures
        volumes_match_orders(book.placed(order_ref, order)),
{
    let next = book.placed(order_ref, order);
    assert forall|side: Side, price: u64| #[trigger]
        volume_at(next.levels(side), price) == live_shares(next.orders, side, price) by {
        lemma_live_shares_insert(book.orders, order_ref, order, side, price);
        assert(volume_at(book.levels(side), price) == live_shares(book.orders, side, price));
    }
}

proof fn lemma_reduction_keeps_volumes(book: OptionBookState, order_ref: u64, shares: u32)
    requires
        book.valid(),
        volumes_match_orders(book),
    ensures
        volumes_match_orders(book.reduced(order_ref, shares)),
{
    let next = book.reduced(order_ref, shares);
    if book.orders.contains_key(order_ref) {
        let order = book.orders[order_ref];
        let taken: u32 = if shares <= order.shares { shares } else { order.shares };
        let left = (order.shares - taken) as u32;
        let others = book.orders.remove(order_ref);
        assert forall|side: Side, price: u64| #[trigger]
            volume_at(next.levels(side), price) == live_shares(next.orders, side, price) by {
            lemma_live_shares_remove(book.orders, order_ref, side, price);
            lemma_live_shares_remove(book.orders, order_ref, order.side, order.price);
            assert(volume_at(book.levels(side), price) == live_shares(book.orders, side, price));
            assert(volume_at(book.levels(order.side), order.price) == live_shares(
                book.orders,
                order.side,
                order.price,
            ));
            if left != 0 {
                let rest = OrderInfo { shares: left, ..order };
                lemma_live_shares_insert(others, order_ref, rest, side, price);
                assert(others.insert(order_ref, rest) =~= next.orders);
            }
        }
    }
}

/// As long as no two live orders share a reference, the volume at every price
/// stays that of the live orders there.
pub proof fn lemma_volumes_keep_matching_orders(book: OptionBookState, action: OptionOrderAction)
    requires
        book.valid(),
        book.accepts(action),
        action matches OptionOrderAction::Add { order_ref, .. } ==> !book.orders.contains_key(
            order_ref,
        ),
        volumes_match_orders(book),
    ensures
        volumes_match_orders(book.after(action)),
{
    match action {
        OptionOrderAction::Add { order_ref, side, price, shares } => {
            lemma_placement_keeps_volumes(book, order_ref, OrderInfo { side, price, shares });
        },
        OptionOrderAction::Cancel { order_ref, shares } => {
            lemma_reduction_keeps_volumes(book, order_ref, shares);
        },
        OptionOrderAction::Delete { order_ref } => {
            lemma_deletion_keeps_volumes(book, order_ref);
        },
    }
}

/// Once every answer is taken in, no contract is left to be priced.
pub proof fn lemma_repricing_is_complete(chain: OptionChainState, outcomes: Seq<PricingOutcome>)
    requires
        chain.valid(),
    ensures
        chain.repriced(outcomes).awaiting() == Seq::<OptionContractKey>::empty(),
{
    if chain.last_spot_price is Some {
        let after = chain.repriced(outcomes);
        assert forall|key: OptionContractKey| after.keys.contains(key) implies !after.awaits(
            key,
        ) by {
            assert(chain.contracts.contains_key(key));
        }
        lemma_none_pass(after.keys, after.due());
    }
}

/// After a spot price came, every contract with both quotes is asked for, and each
/// once.
pub proof fn lemma_spot_price_asks_for_all(
    chain: OptionChainState,
    spot_price: Real,
    timestamp: u64,
    key: OptionContractKey,
)
    requires
        chain.valid(),
    ensures
        chain.with_spot_price(spot_price, timestamp).awaiting().no_duplicates(),
        chain.with_spot_price(spot_price, timestamp).awaiting().contains(key)
            <==> chain.contracts.contains_key(key) && chain.contracts[key].has_mid(),
{
    let next = chain.with_spot_price(spot_price, timestamp);
    lemma_filter_distinct(next.keys, next.due());
    if chain.contracts.contains_key(key) && chain.contracts[key].has_mid() {
        let i = next.keys.index_of(key);
        assert(next.keys[i] == key);
        assert(next.due()(key));
        next.keys.lemma_filter_contains(next.due(), i);
    }
    if next.awaiting().contains(key) {
        next.keys.lemma_filter_contains_rev(next.due(), key);
        let j = next.awaiting().index_of(key);
        next.keys.lemma_filter_pred(next.due(), j);
    }
}

/// A contract that was registered is found: its book is empty, its expiry date is
/// among the dates and its strike among the strikes of that date. No other book
/// changes.
pub proof fn lemma_registered_is_found(
    chain: OptionChainState,
    contract: OptionContract,
    after: OptionChainState,
    other: OptionContractKey,
)
    requires
        chain.registers(contract, after),
    ensures
        after.contracts.contains_key(contract.key),
        after.contracts[contract.key] == OptionBookState::empty(contract),
        after.expiry_dates.contains(contract.expiry_date),
        after.has_strike(contract.expiry_date, contract.strike_price),
        other != contract.key ==> {
            &&& after.contracts.contains_key(other) <==> chain.contracts.contains_key(other)
            &&& chain.contracts.contains_key(other) ==> after.contracts[other]
                == chain.contracts[other]
        },
{
    assert(after.contracts.contains_key(contract.key));
}

/// An event on one contract changes no other contract's book, and makes no contract
/// known.
pub proof fn lemma_event_stays_with_its_contract(
    chains: OptionChainsState,
    event: OptionOrderEvent,
    other: OptionContractKey,
)
    ensures
        chains.after(event).knows(other) <==> chains.knows(other),
        chains.knows(other) && other != event.contract_key ==> chains.after(event).book_of(other)
            == chains.book_of(other),
{
}

proof fn lemma_shown_first_is_bounded(chain: OptionChainState, n: nat)
    requires
        n <= chain.keys.len(),
    ensures
        chain.shown_first(n).len() <= n,
    decreases n,
{
    if n > 0 {
        lemma_shown_first_is_bounded(chain, (n - 1) as nat);
        lemma_shown_step(chain, (n - 1) as nat);
    }
}

/// A snapshot shows no more contracts than the chain has. So every chain of up to
/// 128 contracts can be summed up, whatever the pricing model answers.
pub proof fn lemma_snapshot_fits_small_chains(
    chain: OptionChainState,
    outcomes: Seq<PricingOutcome>,
)
    ensures
        chain.repriced(outcomes).listed().len() <= chain.keys.len(),
{
    let after = chain.repriced(outcomes);
    lemma_shown_first_is_bounded(after, after.keys.len());
}

/// Neither a spot price nor the answers of the pricing model make a chain's state
/// invalid.
pub proof fn lemma_chain_stays_valid(
    chain: OptionChainState,
    spot_price: Real,
    timestamp: u64,
    outcomes: Seq<PricingOutcome>,
)
    requires
        chain.valid(),
    ensures
        chain.with_spot_price(spot_price, timestamp).valid(),
        chain.repriced(outcomes).valid(),
{
}

/// What is asked of a contract and what is answered of it bear that contract's name,
/// one by one and for a whole chain.
pub proof fn lemma_pricing_names_its_contract(
    chains: OptionChainsState,
    key: OptionContractKey,
    now: u64,
    outcome: PricingOutcome,
    i: int,
)
    requires
        chains.valid(),
    ensures
        chains.request(key, now) matches Some(request) ==> request.contract_key == key,
        chains.greeks(key, outcome) matches Some(greeks) ==> greeks.contract_key == key,
        0 <= i < chains.chain_at(key.underlying).awaiting().len() ==> chains.chain_at(
            key.underlying,
        ).requests(now)[i].contract_key == chains.chain_at(key.underlying).awaiting()[i],
{
    let chain = chains.chain_at(key.underlying);
    if 0 <= i < chain.awaiting().len() {
        let asked = chain.awaiting()[i];
        assert(chain.awaiting().contains(asked));
        chain.keys.lemma_filter_contains_rev(chain.due(), asked);
        assert(chain.contracts.contains_key(asked));
    }
}

} // verus!

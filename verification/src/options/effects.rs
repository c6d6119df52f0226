//! What happens to option books, chains and their pricing, said field by field.
use crate::lists::{lemma_filter_distinct, lemma_filter_keeps_order, lemma_present_picks, picked};
use crate::options::book::{OptionBookState, OptionGreeksSnapshot, PricingOutcome, PricingRequest};
use crate::options::chain::OptionChainState;
use crate::options::contract::{date_seconds, OptionContract, OptionContractKey};
use crate::options::event::{OptionOrderAction, OptionOrderEvent};
use crate::options::manager::OptionChainsState;
use crate::options::snapshot::{contract_list, AggregatedOptionSnapshot, OptionContractSnapshot};
use crate::orderbook::effects::{came, is_highest, is_lowest, left, lemma_best_levels_are_the_extremes};
use crate::orderbook::level::BboSnapshot;
use crate::orderbook::model::OrderInfo;
use crate::pricing::{OptionType, Real};
use crate::protocol::Side;
use vstd::prelude::*;

verus! {

/// Whether nothing but orders, levels and the mark on the pricing differs.
pub open spec fn same_contract_and_pricing(before: OptionBookState, after: OptionBookState) -> bool {
    &&& after.contract == before.contract
    &&& after.last_bbo == before.last_bbo
    &&& after.last_pricing == before.last_pricing
    &&& after.last_spot_price == before.last_spot_price
}

/// Whether every order but one is live as before, or not live as before.
pub open spec fn others_stay(before: OptionBookState, after: OptionBookState, order_ref: u64) -> bool {
    forall|other: u64|
        other != order_ref ==> {
            &&& #[trigger] after.orders.contains_key(other) <==> before.orders.contains_key(other)
            &&& before.orders.contains_key(other) ==> after.orders[other] == before.orders[other]
        }
}

/// Whether `taken` shares of a live order left a book: the order has so many fewer,
/// on the same side at the same price, and is not live any more where none is left.
pub open spec fn shares_left(
    before: OptionBookState,
    after: OptionBookState,
    order_ref: u64,
    taken: u32,
) -> bool {
    let order = before.orders[order_ref];
    &&& before.orders.contains_key(order_ref)
    &&& taken <= order.shares
    &&& same_contract_and_pricing(before, after)
    &&& others_stay(before, after, order_ref)
    &&& after.orders.contains_key(order_ref) <==> taken < order.shares
    &&& taken < order.shares ==> {
        &&& after.orders[order_ref].side == order.side
        &&& after.orders[order_ref].price == order.price
        &&& after.orders[order_ref].shares == order.shares - taken
    }
    &&& order.side == Side::Buy ==> left(before.bids, after.bids, order.price, taken) && after.asks
        == before.asks
    &&& order.side == Side::Sell ==> left(before.asks, after.asks, order.price, taken)
        && after.bids == before.bids
}

/// The book of a contract at first: no orders, no levels, never priced, and so out of
/// date.
pub proof fn lemma_option_book_starts_empty(contract: OptionContract)
    ensures
        ({
            let book = OptionBookState::empty(contract);
            &&& book.contract == contract
            &&& book.bids.dom() == Set::<u64>::empty()
            &&& book.asks.dom() == Set::<u64>::empty()
            &&& book.orders.dom() == Set::<u64>::empty()
            &&& book.last_bbo is None
            &&& book.last_pricing is None
            &&& book.last_spot_price is None
            &&& book.pricing_dirty
        }),
{
}

/// A new order rests where it says: under its reference, on its side, at its price,
/// with its shares. The pricing is out of date then.
pub proof fn lemma_option_order_rests_where_it_says(
    book: OptionBookState,
    order_ref: u64,
    side: Side,
    price: u64,
    shares: u32,
)
    requires
        book.valid(),
        book.accepts(OptionOrderAction::Add { order_ref, side, price, shares }),
    ensures
        ({
            let after = book.after(OptionOrderAction::Add { order_ref, side, price, shares });
            &&& after == book.placed(order_ref, OrderInfo { side, price, shares })
            &&& same_contract_and_pricing(book, after)
            &&& after.pricing_dirty
            &&& after.orders.contains_key(order_ref)
            &&& after.orders[order_ref].side == side
            &&& after.orders[order_ref].price == price
            &&& after.orders[order_ref].shares == shares
            &&& others_stay(book, after, order_ref)
            &&& side == Side::Buy ==> came(book.bids, after.bids, price, shares) && after.asks
                == book.asks
            &&& side == Side::Sell ==> came(book.asks, after.asks, price, shares) && after.bids
                == book.bids
        }),
{
}

/// A book has room for a new order exactly where the volume and the count of the level
/// that it goes to stay within their widths, and always for the other actions.
pub proof fn lemma_room_for_an_action(
    book: OptionBookState,
    order_ref: u64,
    side: Side,
    price: u64,
    shares: u32,
)
    ensures
        ({
            let levels = if side == Side::Buy {
                book.bids
            } else {
                book.asks
            };
            &&& book.accepts(OptionOrderAction::Add { order_ref, side, price, shares }) <==> (
            levels.contains_key(price) ==> {
                &&& levels[price].volume + shares <= 0xffff_ffff_ffff_ffff
                &&& levels[price].order_count + 1 <= 0xffff_ffff
            })
            &&& book.accepts(OptionOrderAction::Cancel { order_ref, shares })
            &&& book.accepts(OptionOrderAction::Delete { order_ref })
        }),
{
}

/// A cancellation takes as many shares of an order as it says, or all that it has, and
/// the pricing is out of date then. One that takes none changes neither the levels nor
/// the mark; it only ends an order that has none. An order that is not live leaves the
/// book as it is.
pub proof fn lemma_option_cancel_takes_what_it_says(
    book: OptionBookState,
    order_ref: u64,
    shares: u32,
)
    requires
        book.valid(),
    ensures
        ({
            let after = book.after(OptionOrderAction::Cancel { order_ref, shares });
            let had = book.orders[order_ref].shares;
            &&& after == book.reduced(order_ref, shares)
            &&& !book.orders.contains_key(order_ref) ==> after == book
            &&& book.orders.contains_key(order_ref) && 0 < shares < had ==> shares_left(
                book,
                after,
                order_ref,
                shares,
            ) && after.pricing_dirty
            &&& book.orders.contains_key(order_ref) && 0 < had <= shares ==> shares_left(
                book,
                after,
                order_ref,
                had,
            ) && after.pricing_dirty
            &&& book.orders.contains_key(order_ref) && (shares == 0 || had == 0) ==> {
                &&& same_contract_and_pricing(book, after)
                &&& after.bids == book.bids
                &&& after.asks == book.asks
                &&& after.pricing_dirty == book.pricing_dirty
                &&& others_stay(book, after, order_ref)
                &&& after.orders.contains_key(order_ref) <==> had > 0
                &&& had > 0 ==> after.orders[order_ref] == book.orders[order_ref]
            }
        }),
{
}

/// A deletion takes all shares of a live order, and the pricing is out of date then.
/// An order that is not live leaves the book as it is.
pub proof fn lemma_option_deletion_takes_the_whole_order(book: OptionBookState, order_ref: u64)
    requires
        book.valid(),
    ensures
        ({
            let after = book.after(OptionOrderAction::Delete { order_ref });
            &&& after == book.deleted(order_ref)
            &&& !after.orders.contains_key(order_ref)
            &&& !book.orders.contains_key(order_ref) ==> after == book
            &&& book.orders.contains_key(order_ref) ==> shares_left(
                book,
                after,
                order_ref,
                book.orders[order_ref].shares,
            ) && after.pricing_dirty
        }),
{
}

/// A contract is quoted at its highest bid and its lowest ask, and there is a mean of
/// the two exactly where both prices are above zero.
pub proof fn lemma_option_quote_is_of_the_extremes(book: OptionBookState)
    requires
        book.valid(),
    ensures
        is_highest(book.bids, book.quote().bid_price, book.quote().bid_volume),
        is_lowest(book.asks, book.quote().ask_price, book.quote().ask_volume),
        book.has_mid() <==> book.quote().bid_price > 0 && book.quote().ask_price > 0,
{
    lemma_best_levels_are_the_extremes(book.bids);
    lemma_best_levels_are_the_extremes(book.asks);
}

/// Whether a request asks for the contract of a book: it bears its name, its strike,
/// its type and its time to go, the prices of its best bid and ask, and the given spot
/// price and rate.
pub open spec fn asks_for(
    request: PricingRequest,
    book: OptionBookState,
    spot_price: Real,
    now: u64,
    risk_free_rate: Real,
) -> bool {
    &&& request.contract_key == book.contract.key
    &&& request.strike_price == book.contract.strike_price
    &&& book.contract.option_type == OptionType::Call <==> request.option_type == OptionType::Call
    &&& book.contract.option_type == OptionType::Put <==> request.option_type == OptionType::Put
    &&& request.spot_price == spot_price
    &&& request.risk_free_rate == risk_free_rate
    &&& exists|volume: u64| is_highest(book.bids, request.bid_price, volume)
    &&& exists|volume: u64| is_lowest(book.asks, request.ask_price, volume)
    &&& now < date_seconds(book.contract.expiry_date) ==> request.seconds_to_maturity
        == date_seconds(book.contract.expiry_date) - now
    &&& now >= date_seconds(book.contract.expiry_date) ==> request.seconds_to_maturity == 0
}

/// A request asks for the contract of the book that hands it out, a put as a put and a
/// call as a call.
pub proof fn lemma_request_asks_for_its_contract(
    book: OptionBookState,
    spot_price: Real,
    now: u64,
    risk_free_rate: Real,
)
    requires
        book.valid(),
    ensures
        asks_for(
            book.request(spot_price, now, risk_free_rate),
            book,
            spot_price,
            now,
            risk_free_rate,
        ),
{
    let request = book.request(spot_price, now, risk_free_rate);
    lemma_option_quote_is_of_the_extremes(book);
    assert(is_highest(book.bids, request.bid_price, book.quote().bid_volume));
    assert(is_lowest(book.asks, request.ask_price, book.quote().ask_volume));
}

/// For a contract whose name is made of its own parts, as every new contract's is, a
/// request's strike and type are those that its name says.
pub proof fn lemma_request_agrees_with_its_name(
    book: OptionBookState,
    underlying: u64,
    spot_price: Real,
    now: u64,
    risk_free_rate: Real,
)
    requires
        book.valid(),
        book.contract.key == (OptionContractKey {
            underlying,
            expiry_date: book.contract.expiry_date,
            strike_price: book.contract.strike_price,
            option_type: book.contract.option_type,
        }),
    ensures
        ({
            let request = book.request(spot_price, now, risk_free_rate);
            &&& request.option_type == request.contract_key.option_type
            &&& request.strike_price == request.contract_key.strike_price
            &&& request.contract_key.underlying == underlying
            &&& request.contract_key.expiry_date == book.contract.expiry_date
        }),
{
}

/// What the model answered stays with the book: its result, the spot price and the
/// quotes that it goes with, and the pricing is up to date. Without a mean of the
/// quotes nothing happens.
pub proof fn lemma_answer_stays_with_the_book(
    book: OptionBookState,
    spot_price: Real,
    outcome: PricingOutcome,
)
    ensures
        ({
            let after = book.priced(spot_price, outcome);
            &&& !book.has_mid() ==> after == book
            &&& book.has_mid() ==> {
                &&& after.contract == book.contract
                &&& after.bids == book.bids
                &&& after.asks == book.asks
                &&& after.orders == book.orders
                &&& after.last_pricing == outcome.result
                &&& after.last_spot_price == Some(spot_price)
                &&& !after.pricing_dirty
                &&& after.last_bbo matches Some(bbo) && {
                    &&& bbo.0 == book.quote().bid_price
                    &&& bbo.1 == book.quote().bid_volume
                    &&& bbo.2 == book.quote().ask_price
                    &&& bbo.3 == book.quote().ask_volume
                }
            }
        }),
{
}

/// Whether greeks say of a contract what the model answered.
pub open spec fn says_what_was_answered(
    greeks: Option<OptionGreeksSnapshot>,
    key: OptionContractKey,
    spot_price: Real,
    outcome: PricingOutcome,
) -> bool {
    match outcome.result {
        Some(bsm) => greeks matches Some(g) && {
            &&& g.contract_key == key
            &&& g.implied_volatility == bsm.implied_volatility
            &&& g.delta == bsm.delta
            &&& g.gamma == bsm.gamma
            &&& g.vega == bsm.vega
            &&& g.theta == bsm.theta
            &&& g.rho == bsm.rho
            &&& g.model_price == bsm.price
            &&& g.spot_price == spot_price
            &&& g.mid_price == outcome.mid_price
        },
        None => greeks is None,
    }
}

/// What is handed on of an answer is what the model said, for a contract with a mean
/// of its quotes; for any other nothing is.
pub proof fn lemma_greeks_say_what_was_answered(
    book: OptionBookState,
    spot_price: Real,
    outcome: PricingOutcome,
)
    ensures
        book.has_mid() ==> says_what_was_answered(
            book.greeks(spot_price, outcome),
            book.contract.key,
            spot_price,
            outcome,
        ),
        !book.has_mid() ==> book.greeks(spot_price, outcome) is None,
{
}

/// A chain at first: no contracts, no dates, no spot price, and nothing to be done.
pub proof fn lemma_chain_starts_empty(underlying: u64, risk_free_rate: Real)
    ensures
        ({
            let chain = OptionChainState::empty(underlying, risk_free_rate);
            &&& chain.underlying == underlying
            &&& chain.risk_free_rate == risk_free_rate
            &&& chain.contracts.dom() == Set::<OptionContractKey>::empty()
            &&& chain.keys.len() == 0
            &&& chain.expiry_dates.len() == 0
            &&& chain.last_spot_price is None
            &&& chain.last_spot_timestamp == 0
            &&& !chain.chain_dirty
        }),
{
}

/// A spot price goes to the chain with its time, and puts the pricing of every
/// contract, and of the chain, out of date. Nothing else changes.
pub proof fn lemma_spot_price_puts_all_out_of_date(
    chain: OptionChainState,
    spot_price: Real,
    timestamp: u64,
)
    ensures
        ({
            let after = chain.with_spot_price(spot_price, timestamp);
            &&& after.underlying == chain.underlying
            &&& after.keys == chain.keys
            &&& after.expiry_dates == chain.expiry_dates
            &&& after.risk_free_rate == chain.risk_free_rate
            &&& after.last_spot_price == Some(spot_price)
            &&& after.last_spot_timestamp == timestamp
            &&& after.chain_dirty
            &&& after.contracts.dom() == chain.contracts.dom()
            &&& forall|key: OptionContractKey| #[trigger]
                chain.contracts.contains_key(key) ==> {
                    &&& same_contract_and_pricing(chain.contracts[key], after.contracts[key])
                    &&& after.contracts[key].bids == chain.contracts[key].bids
                    &&& after.contracts[key].asks == chain.contracts[key].asks
                    &&& after.contracts[key].orders == chain.contracts[key].orders
                    &&& after.contracts[key].pricing_dirty
                }
        }),
{
    assert(chain.with_spot_price(spot_price, timestamp).contracts.dom() =~= chain.contracts.dom());
}

/// Without a spot price nothing is asked. With one, exactly those contracts are asked
/// for whose pricing is out of date and whose best bid and ask are above zero, each
/// once, in the order in which the contracts came.
pub proof fn lemma_who_is_asked_for(chain: OptionChainState)
    requires
        chain.valid(),
    ensures
        chain.last_spot_price is None ==> chain.awaiting().len() == 0,
        chain.awaiting().no_duplicates(),
        chain.last_spot_price is Some ==> forall|key: OptionContractKey| #[trigger]
            chain.awaiting().contains(key) <==> {
                &&& chain.contracts.contains_key(key)
                &&& chain.contracts[key].pricing_dirty
                &&& chain.contracts[key].quote().bid_price > 0
                &&& chain.contracts[key].quote().ask_price > 0
            },
        forall|i: int, j: int|
            0 <= i < j < chain.awaiting().len() ==> chain.keys.index_of(
                #[trigger] chain.awaiting()[i],
            ) < chain.keys.index_of(#[trigger] chain.awaiting()[j]),
{
    if chain.last_spot_price is Some {
        lemma_filter_distinct(chain.keys, chain.due());
        assert forall|key: OptionContractKey| #[trigger] chain.awaiting().contains(key) <==> {
            &&& chain.contracts.contains_key(key)
            &&& chain.contracts[key].pricing_dirty
            &&& chain.contracts[key].quote().bid_price > 0
            &&& chain.contracts[key].quote().ask_price > 0
        } by {
            if chain.contracts.contains_key(key) && chain.awaits(key) {
                let i = chain.keys.index_of(key);
                assert(chain.keys[i] == key);
                assert(chain.due()(key));
                chain.keys.lemma_filter_contains(chain.due(), i);
            }
            if chain.awaiting().contains(key) {
                chain.keys.lemma_filter_contains_rev(chain.due(), key);
                let j = chain.awaiting().index_of(key);
                chain.keys.lemma_filter_pred(chain.due(), j);
            }
        }
        lemma_filter_keeps_order(chain.keys, chain.due());
    }
}

/// Each request of a chain asks for the contract whose turn it is, at the spot price
/// and the rate of the chain.
pub proof fn lemma_requests_ask_in_turn(chain: OptionChainState, now: u64, i: int)
    requires
        chain.valid(),
        0 <= i < chain.awaiting().len(),
    ensures
        chain.requests(now).len() == chain.awaiting().len(),
        chain.last_spot_price is Some,
        asks_for(
            chain.requests(now)[i],
            chain.contracts[chain.awaiting()[i]],
            chain.last_spot_price->0,
            now,
            chain.risk_free_rate,
        ),
        chain.requests(now)[i].contract_key == chain.awaiting()[i],
{
    let key = chain.awaiting()[i];
    lemma_who_is_asked_for(chain);
    assert(chain.awaiting().contains(key));
    assert(chain.contracts.contains_key(key));
    lemma_request_asks_for_its_contract(
        chain.contracts[key],
        chain.last_spot_price->0,
        now,
        chain.risk_free_rate,
    );
}

/// The i-th answer goes to the i-th contract that was asked for, at the spot price of
/// the chain, and no contract that was not asked for changes. The chain is up to date
/// then, and nothing else of it changes. Without a spot price nothing happens.
pub proof fn lemma_answers_go_in_turn(
    chain: OptionChainState,
    outcomes: Seq<PricingOutcome>,
    i: int,
    key: OptionContractKey,
)
    requires
        chain.valid(),
        outcomes.len() == chain.awaiting().len(),
    ensures
        ({
            let after = chain.repriced(outcomes);
            &&& chain.last_spot_price is None ==> after == chain
            &&& chain.last_spot_price is Some ==> {
                &&& after.underlying == chain.underlying
                &&& after.keys == chain.keys
                &&& after.expiry_dates == chain.expiry_dates
                &&& after.risk_free_rate == chain.risk_free_rate
                &&& after.last_spot_price == chain.last_spot_price
                &&& after.last_spot_timestamp == chain.last_spot_timestamp
                &&& !after.chain_dirty
                &&& after.contracts.dom() == chain.contracts.dom()
                &&& 0 <= i < outcomes.len() ==> {
                    let asked = chain.awaiting()[i];
                    &&& after.contracts[asked].last_pricing == outcomes[i].result
                    &&& after.contracts[asked].last_spot_price == chain.last_spot_price
                    &&& !after.contracts[asked].pricing_dirty
                    &&& after.contracts[asked].bids == chain.contracts[asked].bids
                    &&& after.contracts[asked].asks == chain.contracts[asked].asks
                    &&& after.contracts[asked].orders == chain.contracts[asked].orders
                    &&& after.contracts[asked].contract == chain.contracts[asked].contract
                }
                &&& chain.contracts.contains_key(key) && !chain.awaiting().contains(key)
                    ==> after.contracts[key] == chain.contracts[key]
            }
        }),
{
    let after = chain.repriced(outcomes);
    if chain.last_spot_price is Some {
        lemma_who_is_asked_for(chain);
        assert(after.contracts.dom() =~= chain.contracts.dom());
        if 0 <= i < outcomes.len() {
            let asked = chain.awaiting()[i];
            assert(chain.awaiting().contains(asked));
            assert(chain.awaiting().index_of(asked) == i);
        }
        if chain.contracts.contains_key(key) && !chain.awaiting().contains(key) {
            assert(!chain.awaits(key));
        }
    }
}

/// What a chain hands on of the answers: in order, for every answer with a result, what
/// the model said of the contract that was asked for, and nothing for the others.
pub proof fn lemma_greeks_come_in_turn(chain: OptionChainState, outcomes: Seq<PricingOutcome>)
    requires
        chain.valid(),
        outcomes.len() == chain.awaiting().len(),
    ensures
        exists|places: Seq<int>|
            {
                &&& #[trigger] picked(places, outcomes.len() as int)
                &&& places.len() == chain.greeks(outcomes).len()
                &&& forall|i: int|
                    0 <= i < outcomes.len() ==> (places.contains(i) <==> (#[trigger]
                    outcomes[i]).result is Some)
                &&& forall|j: int|
                    0 <= j < places.len() ==> says_what_was_answered(
                        Some(#[trigger] chain.greeks(outcomes)[j]),
                        chain.awaiting()[places[j]],
                        chain.last_spot_price->0,
                        outcomes[places[j]],
                    )
            },
{
    lemma_who_is_asked_for(chain);
    let answers = chain.answers(outcomes, chain.awaiting().len());
    let places = lemma_present_picks(answers);
    assert forall|i: int| 0 <= i < outcomes.len() implies (places.contains(i) <==> (#[trigger]
    outcomes[i]).result is Some) by {
        let asked = chain.awaiting()[i];
        assert(chain.awaiting().contains(asked));
        assert(answers[i] == chain.contracts[asked].greeks(chain.last_spot_price->0, outcomes[i]));
    }
    assert forall|j: int| 0 <= j < places.len() implies says_what_was_answered(
        Some(#[trigger] chain.greeks(outcomes)[j]),
        chain.awaiting()[places[j]],
        chain.last_spot_price->0,
        outcomes[places[j]],
    ) by {
        let i = places[j];
        let asked = chain.awaiting()[i];
        assert(chain.awaiting().contains(asked));
        assert(chain.contracts.contains_key(asked));
        assert(answers[i] == Some(chain.greeks(outcomes)[j]));
        lemma_greeks_say_what_was_answered(
            chain.contracts[asked],
            chain.last_spot_price->0,
            outcomes[i],
        );
    }
}

/// A contract that is registered gets an empty book of its own, in place of the one it
/// had, and its expiry date is among the dates, which rise and are each listed once. A
/// contract that was not there comes last. No other book, and nothing else, changes.
pub proof fn lemma_registration_adds_one_contract(
    chain: OptionChainState,
    contract: OptionContract,
    after: OptionChainState,
    other: OptionContractKey,
    date: u32,
)
    requires
        chain.registers(contract, after),
    ensures
        after.contracts.contains_key(contract.key),
        after.contracts[contract.key] == OptionBookState::empty(contract),
        other != contract.key ==> {
            &&& after.contracts.contains_key(other) <==> chain.contracts.contains_key(other)
            &&& chain.contracts.contains_key(other) ==> after.contracts[other]
                == chain.contracts[other]
        },
        chain.contracts.contains_key(contract.key) ==> after.keys == chain.keys,
        !chain.contracts.contains_key(contract.key) ==> {
            &&& after.keys.len() == chain.keys.len() + 1
            &&& after.keys.last() == contract.key
            &&& after.keys.drop_last() == chain.keys
        },
        after.expiry_dates.contains(date) <==> chain.expiry_dates.contains(date) || date
            == contract.expiry_date,
        forall|i: int, j: int|
            0 <= i < j < after.expiry_dates.len() ==> after.expiry_dates[i]
                < after.expiry_dates[j],
        after.underlying == chain.underlying,
        after.risk_free_rate == chain.risk_free_rate,
        after.last_spot_price == chain.last_spot_price,
        after.last_spot_timestamp == chain.last_spot_timestamp,
        after.chain_dirty == chain.chain_dirty,
{
    assert(chain.keys.push(contract.key).drop_last() =~= chain.keys);
}

/// A strike belongs to a date exactly where a contract with that date has it.
pub proof fn lemma_strikes_are_of_contracts(
    chain: OptionChainState,
    key: OptionContractKey,
    expiry: u32,
    strike: u64,
)
    ensures
        chain.contracts.contains_key(key) && chain.contracts[key].contract.expiry_date == expiry
            && chain.contracts[key].contract.strike_price == strike ==> chain.has_strike(
            expiry,
            strike,
        ),
        chain.has_strike(expiry, strike) ==> exists|k: OptionContractKey| #[trigger]
            chain.contracts.contains_key(k) && chain.contracts[k].contract.expiry_date == expiry
                && chain.contracts[k].contract.strike_price == strike,
{
}

/// Whether a line of a snapshot shows a book: its contract, its best bid and ask with
/// their volumes, and what the model last said of it.
pub open spec fn shows(item: OptionContractSnapshot, book: OptionBookState) -> bool {
    &&& item.contract == book.contract
    &&& is_highest(book.bids, item.bid_price, item.bid_volume)
    &&& is_lowest(book.asks, item.ask_price, item.ask_volume)
    &&& book.last_pricing matches Some(pricing) && {
        &&& item.implied_volatility == pricing.implied_volatility
        &&& item.delta == pricing.delta
        &&& item.gamma == pricing.gamma
        &&& item.vega == pricing.vega
        &&& item.theta == pricing.theta
        &&& item.rho == pricing.rho
        &&& item.model_price == pricing.price
    }
}

/// A snapshot shows, in the order in which the contracts came, exactly those that are
/// priced and have a best bid or a best ask above zero.
pub proof fn lemma_snapshot_shows_the_priced(chain: OptionChainState)
    requires
        chain.valid(),
    ensures
        exists|places: Seq<int>|
            {
                &&& #[trigger] picked(places, chain.keys.len() as int)
                &&& places.len() == chain.listed().len()
                &&& forall|i: int|
                    0 <= i < chain.keys.len() ==> (places.contains(i) <==> {
                        let book = chain.contracts[#[trigger] chain.keys[i]];
                        &&& book.last_pricing is Some
                        &&& book.quote().bid_price > 0 || book.quote().ask_price > 0
                    })
                &&& forall|j: int|
                    0 <= j < places.len() ==> shows(
                        #[trigger] chain.listed()[j],
                        chain.contracts[chain.keys[places[j]]],
                    )
            },
{
    let items = Seq::new(chain.keys.len(), |i: int| chain.shown(chain.keys[i]));
    let places = lemma_present_picks(items);
    assert forall|i: int| 0 <= i < chain.keys.len() implies (places.contains(i) <==> {
        let book = chain.contracts[#[trigger] chain.keys[i]];
        &&& book.last_pricing is Some
        &&& book.quote().bid_price > 0 || book.quote().ask_price > 0
    }) by {
        assert(items[i] == chain.shown(chain.keys[i]));
    }
    assert forall|j: int| 0 <= j < places.len() implies shows(
        #[trigger] chain.listed()[j],
        chain.contracts[chain.keys[places[j]]],
    ) by {
        let key = chain.keys[places[j]];
        assert(chain.keys.contains(key));
        assert(chain.contracts.contains_key(key));
        assert(items[places[j]] == Some(chain.listed()[j]));
        lemma_option_quote_is_of_the_extremes(chain.contracts[key]);
    }
}

/// A snapshot bears the underlying and the time of the chain and the quotes that it is
/// made with, and lists what there is to show. There is one exactly where there is
/// anything to show.
pub proof fn lemma_snapshot_is_of_its_chain(
    chain: OptionChainState,
    spot_bbo: BboSnapshot,
    r: Option<AggregatedOptionSnapshot>,
)
    requires
        chain.summed_up(spot_bbo, r),
    ensures
        r is Some <==> chain.listed().len() > 0,
        r matches Some(snapshot) ==> {
            &&& snapshot.underlying == chain.underlying
            &&& snapshot.spot_bid_price == spot_bbo.bid_price
            &&& snapshot.spot_bid_volume == spot_bbo.bid_volume
            &&& snapshot.spot_ask_price == spot_bbo.ask_price
            &&& snapshot.spot_ask_volume == spot_bbo.ask_volume
            &&& snapshot.spot_timestamp == chain.last_spot_timestamp
            &&& contract_list(snapshot.contracts) == chain.listed()
        },
{
}

/// Whether nothing but one chain differs.
pub open spec fn only_chain_changed(
    before: OptionChainsState,
    after: OptionChainsState,
    underlying: u64,
) -> bool {
    &&& after.risk_free_rate == before.risk_free_rate
    &&& after.chains.contains_key(underlying)
    &&& forall|other: u64|
        other != underlying ==> {
            &&& #[trigger] after.chains.contains_key(other) <==> before.chains.contains_key(other)
            &&& before.chains.contains_key(other) ==> after.chains[other] == before.chains[other]
        }
    &&& before.chains.contains_key(underlying) ==> after.keys == before.keys
    &&& !before.chains.contains_key(underlying) ==> after.keys == before.keys.push(underlying)
}

/// The chain of an underlying is the one that is there, or an empty one with the rate
/// of all chains. Putting a chain in its place changes no other chain; a new one comes
/// last.
pub proof fn lemma_chains_stand_under_their_underlying(
    chains: OptionChainsState,
    underlying: u64,
    chain: OptionChainState,
)
    ensures
        chains.chains.contains_key(underlying) ==> chains.chain_at(underlying)
            == chains.chains[underlying],
        !chains.chains.contains_key(underlying) ==> chains.chain_at(underlying)
            == OptionChainState::empty(underlying, chains.risk_free_rate),
        only_chain_changed(chains, chains.with_chain(underlying, chain), underlying),
        chains.with_chain(underlying, chain).chains[underlying] == chain,
        OptionChainsState::empty(chains.risk_free_rate).chains.dom() == Set::<u64>::empty(),
        OptionChainsState::empty(chains.risk_free_rate).keys.len() == 0,
        OptionChainsState::empty(chains.risk_free_rate).risk_free_rate == chains.risk_free_rate,
{
}

/// Whether nothing of a chain but one contract's book differs.
pub open spec fn only_book_changed(
    before: OptionChainState,
    after: OptionChainState,
    key: OptionContractKey,
    book: OptionBookState,
) -> bool {
    &&& after.underlying == before.underlying
    &&& after.keys == before.keys
    &&& after.expiry_dates == before.expiry_dates
    &&& after.risk_free_rate == before.risk_free_rate
    &&& after.last_spot_price == before.last_spot_price
    &&& after.last_spot_timestamp == before.last_spot_timestamp
    &&& after.chain_dirty == before.chain_dirty
    &&& after.contracts == before.contracts.insert(key, book)
}

/// An event reaches the book of its contract, and no other. Where the contract is not
/// known no book changes; the chain of its underlying is there afterwards all the same.
pub proof fn lemma_option_event_reaches_its_book(chains: OptionChainsState, event: OptionOrderEvent)
    ensures
        ({
            let key = event.contract_key;
            let u = key.underlying;
            let after = chains.after(event);
            &&& only_chain_changed(chains, after, u)
            &&& if chains.chains.contains_key(u) && chains.chains[u].contracts.contains_key(key) {
                &&& only_book_changed(
                    chains.chains[u],
                    after.chains[u],
                    key,
                    chains.chains[u].contracts[key].after(event.action),
                )
                &&& chains.accepts(event) <==> chains.chains[u].contracts[key].accepts(event.action)
            } else {
                &&& chains.chains.contains_key(u) ==> after.chains[u] == chains.chains[u]
                &&& !chains.chains.contains_key(u) ==> after.chains[u] == OptionChainState::empty(
                    u,
                    chains.risk_free_rate,
                )
                &&& chains.accepts(event)
            }
        }),
{
}

/// The model is asked for a contract exactly where it is known, its chain has a spot
/// price, and its best bid and ask are above zero; then for that contract, at that spot
/// price and the rate of all chains.
pub proof fn lemma_manager_asks_for_the_contract(
    chains: OptionChainsState,
    key: OptionContractKey,
    now: u64,
)
    requires
        chains.valid(),
    ensures
        ({
            let u = key.underlying;
            let chain = chains.chains[u];
            let book = chain.contracts[key];
            if chains.chains.contains_key(u) && chain.contracts.contains_key(key)
                && chain.last_spot_price is Some && book.quote().bid_price > 0
                && book.quote().ask_price > 0 {
                &&& chains.request(key, now) is Some
                &&& chains.request(key, now)->0.contract_key == key
                &&& asks_for(
                    chains.request(key, now)->0,
                    book,
                    chain.last_spot_price->0,
                    now,
                    chains.risk_free_rate,
                )
            } else {
                chains.request(key, now) is None
            }
        }),
{
    let u = key.underlying;
    let chain = chains.chains[u];
    if chains.chains.contains_key(u) && chain.contracts.contains_key(key)
        && chain.last_spot_price is Some {
        lemma_request_asks_for_its_contract(
            chain.contracts[key],
            chain.last_spot_price->0,
            now,
            chains.risk_free_rate,
        );
    }
}

/// An answer reaches the book of its contract where it is known and its chain has a
/// spot price, and is handed on where there is a mean of the quotes. It changes nothing
/// else, and nothing at all otherwise.
pub proof fn lemma_manager_takes_the_answer(
    chains: OptionChainsState,
    key: OptionContractKey,
    outcome: PricingOutcome,
)
    requires
        chains.valid(),
    ensures
        ({
            let u = key.underlying;
            let chain = chains.chains[u];
            let book = chain.contracts[key];
            let after = chains.priced(key, outcome);
            let greeks = chains.greeks(key, outcome);
            if chains.chains.contains_key(u) && chain.contracts.contains_key(key)
                && chain.last_spot_price is Some {
                let spot = chain.last_spot_price->0;
                &&& only_chain_changed(chains, after, u)
                &&& only_book_changed(chain, after.chains[u], key, book.priced(spot, outcome))
                &&& book.has_mid() ==> says_what_was_answered(greeks, key, spot, outcome)
                &&& !book.has_mid() ==> greeks is None
            } else {
                &&& after == chains
                &&& greeks is None
            }
        }),
{
}

} // verus!

use hft_orderbook_gateway::options::contract::date_to_unix_secs;
use hft_orderbook_gateway::options::{
    OptionBook, OptionChain, OptionChainManager, OptionContract, OptionContractKey,
    OptionContractSnapshot, OptionOrderEvent, PricingOutcome, OPTION_CONTRACT_SERIALIZED_SIZE,
    OPTION_HEADER_SERIALIZED_SIZE,
};
use hft_orderbook_gateway::orderbook::BboSnapshot;
use hft_orderbook_gateway::pricing::{BsmResult, OptionType, Real};
use hft_orderbook_gateway::protocol::Side;

const TEST_UNDERLYING: u64 = 0x4141504C20202020;

/// The second of July 2026.
const NOW: u64 = 1_782_950_400;

fn number(x: f64) -> Real {
    Real { bits: x.to_bits() }
}

fn contract(expiry: u32, strike: u64, option_type: OptionType) -> OptionContract {
    OptionContract::new(TEST_UNDERLYING, expiry, strike, option_type, 100, 1)
}

fn priced(volatility: f64) -> PricingOutcome {
    PricingOutcome {
        mid_price: number(5.25),
        result: Some(BsmResult {
            price: number(1.0),
            delta: number(2.0),
            gamma: number(3.0),
            vega: number(4.0),
            theta: number(5.0),
            rho: number(6.0),
            implied_volatility: number(volatility),
        }),
    }
}

const UNPRICED: PricingOutcome = PricingOutcome {
    mid_price: Real { bits: 0 },
    result: None,
};

#[test]
fn test_option_contract_ttm() {
    let contract = OptionContract::new(TEST_UNDERLYING, 20270101, 1_500_000, OptionType::Call, 100, 0);

    let ttm = contract.time_to_maturity(NOW) as f64 / (365.25 * 86400.0);
    assert!(ttm > 0.4 && ttm < 0.8, "ttm = {}, expected ~0.5", ttm);
}

#[test]
fn test_option_book_add_and_bbo() {
    let contract = contract(20261217, 1_500_000, OptionType::Call);
    let mut book = OptionBook::new(contract);

    book.add_order(1, Side::Buy, 50_000, 10);
    book.add_order(2, Side::Buy, 45_000, 20);
    book.add_order(3, Side::Sell, 55_000, 15);
    book.add_order(4, Side::Sell, 60_000, 25);

    let (bid_p, bid_v, ask_p, ask_v) = book.bbo_snapshot();
    assert_eq!(bid_p, 50_000);
    assert_eq!(bid_v, 10);
    assert_eq!(ask_p, 55_000);
    assert_eq!(ask_v, 15);

    let (bid, ask) = book.mid_price().unwrap();
    let mid = (bid as f64 + ask as f64) / 2.0 / 10000.0;
    assert_eq!(mid, 5.25);
}

#[test]
fn test_option_pricing_calculation() {
    let contract = OptionContract::new(TEST_UNDERLYING, 20261217, 1_000_000, OptionType::Call, 100, 0);
    let mut book = OptionBook::new(contract);

    book.add_order(1, Side::Buy, 70_000, 10);
    book.add_order(2, Side::Sell, 72_000, 15);

    let request = book.pricing_request(number(100.0), NOW, number(0.03)).unwrap();
    assert_eq!(request.contract_key, contract.key);
    assert_eq!(request.bid_price, 70_000);
    assert_eq!(request.ask_price, 72_000);
    assert_eq!(request.spot_price.bits, 100.0f64.to_bits());
    assert_eq!(request.strike_price, 1_000_000);
    assert_eq!(request.risk_free_rate.bits, 0.03f64.to_bits());
    assert_eq!(request.seconds_to_maturity, 14_515_200);
    assert_eq!(request.option_type, OptionType::Call);

    let mid = (request.bid_price as f64 + request.ask_price as f64) / 2.0 / 10000.0;
    assert_eq!(mid, 7.1);
    let outcome = PricingOutcome {
        mid_price: number(mid),
        result: Some(BsmResult {
            price: number(7.1),
            delta: number(0.566),
            gamma: number(0.0246),
            vega: number(0.266),
            theta: number(-0.022),
            rho: number(22.8),
            implied_volatility: number(0.236),
        }),
    };
    let greeks = book.compute_pricing(number(100.0), outcome);
    assert!(greeks.is_some());

    let greeks = greeks.unwrap();
    assert_eq!(greeks.contract_key, contract.key);
    assert!(f64::from_bits(greeks.implied_volatility.bits) > 0.0);
    let delta = f64::from_bits(greeks.delta.bits);
    assert!(delta > 0.0 && delta < 1.0);
    assert!(f64::from_bits(greeks.gamma.bits) > 0.0);
    assert_eq!(greeks.implied_volatility.bits, 0.236f64.to_bits());
    assert_eq!(greeks.delta.bits, 0.566f64.to_bits());
    assert_eq!(greeks.gamma.bits, 0.0246f64.to_bits());
    assert_eq!(greeks.vega.bits, 0.266f64.to_bits());
    assert_eq!(greeks.theta.bits, (-0.022f64).to_bits());
    assert_eq!(greeks.rho.bits, 22.8f64.to_bits());
    assert_eq!(greeks.model_price.bits, 7.1f64.to_bits());
    assert_eq!(greeks.mid_price.bits, 7.1f64.to_bits());
}

#[test]
fn test_option_chain_manager() {
    let mut manager = OptionChainManager::new(number(0.03));

    let contract1 = contract(20261217, 1_500_000, OptionType::Call);
    let contract2 = contract(20261217, 1_500_000, OptionType::Put);
    let contract3 = contract(20270317, 1_500_000, OptionType::Call);

    manager.register_contract(contract1);
    manager.register_contract(contract2);
    manager.register_contract(contract3);

    let chain = manager.get_chain(TEST_UNDERLYING).unwrap();
    assert_eq!(chain.len(), 3);
    assert_eq!(chain.expirations().len(), 2);

    manager.update_spot_price(TEST_UNDERLYING, number(150.0), 1234567890);

    let add_buy = OptionOrderEvent::add(contract1.key, 1, Side::Buy, 50_000, 10, 1234567891);
    assert!(manager.can_apply(&add_buy));
    let _ = manager.apply_option_order_event(&add_buy, NOW);

    let add_sell = OptionOrderEvent::add(contract1.key, 2, Side::Sell, 55_000, 15, 1234567892);

    let request = manager.apply_option_order_event(&add_sell, NOW);
    assert!(request.is_some());
    let request = request.unwrap();
    assert_eq!(request.bid_price, 50_000);
    assert_eq!(request.ask_price, 55_000);
    assert_eq!(request.spot_price.bits, 150.0f64.to_bits());
    assert_eq!(request.strike_price, 1_500_000);
    assert_eq!(request.risk_free_rate.bits, 0.03f64.to_bits());
    assert_eq!(request.seconds_to_maturity, date_to_unix_secs(20261217) - NOW);

    let result = manager.complete_pricing(&request.contract_key, priced(0.25));
    assert!(result.is_some());
    let greeks = result.unwrap();
    assert_eq!(greeks.implied_volatility.bits, 0.25f64.to_bits());
    assert_eq!(greeks.mid_price.bits, 5.25f64.to_bits());
    assert_eq!(greeks.spot_price.bits, 150.0f64.to_bits());
    assert_eq!(greeks.model_price.bits, 1.0f64.to_bits());
    assert!(manager.complete_pricing(&contract2.key, priced(0.25)).is_none());
}

#[test]
fn dates_follow_the_calendar() {
    assert_eq!(date_to_unix_secs(19700101), 0);
    assert_eq!(date_to_unix_secs(19700102), 86400);
    assert_eq!(date_to_unix_secs(20000301), 951_868_800);
    assert_eq!(date_to_unix_secs(20240229) + 86400, date_to_unix_secs(20240301));
    assert_eq!(date_to_unix_secs(20230228) + 86400, date_to_unix_secs(20230301));
    assert_eq!(date_to_unix_secs(20261231) + 86400, date_to_unix_secs(20270101));
    assert_eq!(date_to_unix_secs(19691231), 86400u64.wrapping_neg());
}

#[test]
fn a_contract_past_its_date_has_no_time_left() {
    let c = contract(20261217, 1, OptionType::Put);
    let expiry = date_to_unix_secs(20261217);
    assert_eq!(c.time_to_maturity(expiry - 5), 5);
    assert_eq!(c.time_to_maturity(expiry), 0);
    assert_eq!(c.time_to_maturity(expiry + 5), 0);
    assert_eq!(c.creation_timestamp, 1);
    assert_eq!(c.lot_size, 100);
}

#[test]
fn orders_leave_the_book_of_a_contract() {
    let mut book = OptionBook::new(contract(20261217, 1_500_000, OptionType::Call));
    assert!(book.best_bid().is_none());
    assert!(book.mid_price().is_none());
    assert!(book.can_add(Side::Buy, 100, u32::MAX));
    book.add_order(1, Side::Buy, 100, 10);
    book.add_order(2, Side::Buy, 100, 5);
    book.remove_order(1, 4);
    assert_eq!(book.best_bid().unwrap().volume, 11);
    assert_eq!(book.best_bid().unwrap().order_count, 1);
    book.remove_order(1, 400);
    assert_eq!(book.best_bid().unwrap().volume, 5);
    book.remove_order(1, 1);
    assert_eq!(book.best_bid().unwrap().volume, 5);
    book.delete_order(2);
    assert!(book.best_bid().is_none());
    book.delete_order(2);
    assert_eq!(book.bbo_snapshot(), (0, 0, 0, 0));
    book.add_order(3, Side::Sell, 200, 7);
    book.add_order(4, Side::Sell, 150, 8);
    assert_eq!(book.best_ask().unwrap().price, 150);
    assert_eq!(book.clone().best_ask().unwrap().volume, 8);
    assert_eq!(book.contract().strike_price, 1_500_000);
}

#[test]
fn a_contract_with_one_quote_is_not_priced() {
    let mut book = OptionBook::new(contract(20261217, 1_500_000, OptionType::Call));
    book.add_order(1, Side::Buy, 100, 10);
    assert!(book.pricing_request(number(1.0), NOW, number(0.0)).is_none());
    assert!(book.compute_pricing(number(1.0), priced(0.5)).is_none());
    book.add_order(2, Side::Sell, 110, 10);
    let request = book.pricing_request(number(1.0), NOW, number(0.02)).unwrap();
    assert_eq!(request.option_type, OptionType::Call);
    assert_eq!(request.contract_key, book.contract().key);
    assert!(book.compute_pricing(number(1.0), UNPRICED).is_none());
    assert!(book.compute_pricing(number(1.0), priced(0.5)).is_some());
}

fn quoted_chain() -> OptionChain {
    let mut chain = OptionChain::new(TEST_UNDERLYING, number(0.03));
    let calls = [1_500_000, 1_400_000, 1_600_000];
    for (i, strike) in calls.iter().enumerate() {
        let c = contract(20261217, *strike, OptionType::Call);
        chain.register_contract(c);
        let book = chain.get_contract_mut(&c.key).unwrap();
        book.add_order(1, Side::Buy, 1000 + i as u64, 10);
        if i != 2 {
            book.add_order(2, Side::Sell, 2000 + i as u64, 20);
        }
    }
    chain.register_contract(contract(20260918, 1_500_000, OptionType::Put));
    chain
}

#[test]
fn a_chain_lists_dates_and_strikes_in_order() {
    let mut chain = quoted_chain();
    assert_eq!(chain.underlying(), TEST_UNDERLYING);
    assert_eq!(chain.len(), 4);
    assert!(!chain.is_empty());
    assert_eq!(chain.expirations(), &[20260918, 20261217][..]);
    assert_eq!(chain.strikes_for_expiry(20261217), vec![1_400_000, 1_500_000, 1_600_000]);
    chain.register_contract(contract(20261217, 1_500_000, OptionType::Put));
    assert_eq!(chain.strikes_for_expiry(20261217), vec![1_400_000, 1_500_000, 1_600_000]);
    assert_eq!(chain.strikes_for_expiry(20200101), Vec::<u64>::new());
    let key = contract(20261217, 1_500_000, OptionType::Call).key;
    assert!(chain.get_contract(&key).unwrap().best_bid().is_some());
    chain.register_contract(contract(20261217, 1_500_000, OptionType::Call));
    assert!(chain.get_contract(&key).unwrap().best_bid().is_none());
    assert_eq!(chain.len(), 5);
    let unknown = OptionContractKey { underlying: 1, ..key };
    assert!(chain.get_contract(&unknown).is_none());
    assert!(chain.get_contract_mut(&unknown).is_none());
}

#[test]
fn a_chain_is_priced_once_a_spot_price_is_known() {
    let mut chain = quoted_chain();
    assert_eq!(chain.pricing_requests(NOW).len(), 0);
    assert_eq!(chain.update_all_pricing(&[]).len(), 0);
    chain.update_spot_price(number(150.0), 77);
    assert_eq!(chain.last_spot_price().unwrap().bits, 150.0f64.to_bits());
    let requests = chain.pricing_requests(NOW);
    assert_eq!(requests.len(), 2);
    assert_eq!(requests[0].bid_price, 1000);
    assert_eq!(requests[1].bid_price, 1001);
    let greeks = chain.update_all_pricing(&[UNPRICED, priced(0.2)]);
    assert_eq!(greeks.len(), 1);
    assert_eq!(greeks[0].contract_key.strike_price, 1_400_000);
    assert_eq!(chain.pricing_requests(NOW).len(), 0);
    chain.get_contract_mut(&requests[0].contract_key).unwrap().delete_order(7);
    assert_eq!(chain.pricing_requests(NOW).len(), 0);
    chain.get_contract_mut(&requests[0].contract_key).unwrap().add_order(9, Side::Buy, 1, 1);
    assert_eq!(chain.pricing_requests(NOW).len(), 1);
}

#[test]
fn every_request_of_a_chain_names_its_contract() {
    let mut chain = quoted_chain();
    chain.update_spot_price(number(150.0), 77);
    for request in chain.pricing_requests(NOW) {
        let book = chain.get_contract(&request.contract_key).unwrap();
        assert_eq!(book.contract().key, request.contract_key);
        assert_eq!(book.mid_price(), Some((request.bid_price, request.ask_price)));
    }
}

fn le(bytes: &[u8], at: usize, width: usize) -> u64 {
    bytes[at..at + width].iter().rev().fold(0, |x, b| x * 256 + *b as u64)
}

#[test]
fn a_chain_is_summed_up_and_read_back() {
    let mut chain = quoted_chain();
    chain.update_spot_price(number(1.0), 77);
    let spot_bbo = BboSnapshot { bid_price: 11, bid_volume: 12, ask_price: 13, ask_volume: 14 };
    let requests = chain.prepare_snapshot(number(150.0), NOW);
    assert_eq!(requests.len(), 2);
    assert_eq!(requests[0].spot_price.bits, 150.0f64.to_bits());
    let outcomes = [priced(0.1), priced(0.2)];
    assert!(chain.can_aggregate(&outcomes));
    let snapshot = chain.aggregate_snapshot(spot_bbo, &outcomes).unwrap();
    assert_eq!(snapshot.contracts.len(), 2);
    assert_eq!(snapshot.spot_timestamp, 77);
    assert_eq!(snapshot.serialized_size(), OPTION_HEADER_SERIALIZED_SIZE + 2 * OPTION_CONTRACT_SERIALIZED_SIZE);

    let mut bytes = vec![0xAA];
    snapshot.clone().serialize(&mut bytes);
    assert_eq!(bytes[0], 0xAA);
    let bytes = &bytes[1..];
    assert_eq!(bytes.len(), snapshot.serialized_size());
    assert_eq!(bytes[0], 1);
    assert_eq!(le(bytes, 1, 2) as usize, bytes.len());
    assert_eq!(le(bytes, 3, 8), TEST_UNDERLYING);
    assert_eq!(le(bytes, 11, 8), 11);
    assert_eq!(le(bytes, 19, 8), 12);
    assert_eq!(le(bytes, 27, 8), 13);
    assert_eq!(le(bytes, 35, 8), 14);
    assert_eq!(le(bytes, 43, 8), 77);
    assert_eq!(le(bytes, 51, 2), 2);
    let second = &bytes[53 + 121..];
    assert_eq!(le(second, 0, 4), 20261217);
    assert_eq!(le(second, 4, 8), 1_400_000);
    assert_eq!(second[12], 0);
    assert_eq!(le(second, 13, 8), 1001);
    assert_eq!(le(second, 21, 8), 10);
    assert_eq!(le(second, 29, 8), 2001);
    assert_eq!(le(second, 37, 8), 20);
    assert_eq!(le(second, 45, 8), 0.2f64.to_bits());
    assert_eq!(le(second, 53, 8), 2.0f64.to_bits());
    assert_eq!(le(second, 61, 8), 3.0f64.to_bits());
    assert_eq!(le(second, 69, 8), 4.0f64.to_bits());
    assert_eq!(le(second, 77, 8), 5.0f64.to_bits());
    assert_eq!(le(second, 85, 8), 6.0f64.to_bits());
    assert_eq!(le(second, 93, 8), 1.0f64.to_bits());
    assert_eq!(&second[101..121], &[0u8; 20][..]);
}

#[test]
fn a_chain_without_pricing_has_no_snapshot() {
    let mut chain = quoted_chain();
    let spot_bbo = BboSnapshot { bid_price: 1, bid_volume: 1, ask_price: 1, ask_volume: 1 };
    let requests = chain.prepare_snapshot(number(150.0), NOW);
    assert_eq!(requests.len(), 2);
    assert!(chain.aggregate_snapshot(spot_bbo, &[UNPRICED, UNPRICED]).is_none());
}

#[test]
fn too_many_contracts_are_told_beforehand() {
    let mut chain = OptionChain::new(1, number(0.0));
    for strike in 0..130u64 {
        let c = OptionContract::new(1, 20261217, strike, OptionType::Put, 1, 0);
        chain.register_contract(c);
        let book = chain.get_contract_mut(&c.key).unwrap();
        book.add_order(1, Side::Buy, 10, 1);
        book.add_order(2, Side::Sell, 20, 1);
    }
    let requests = chain.prepare_snapshot(number(1.0), NOW);
    assert_eq!(requests.len(), 130);
    let mut outcomes = vec![priced(0.1); 130];
    assert!(!chain.can_aggregate(&outcomes));
    outcomes[3] = UNPRICED;
    outcomes[5] = UNPRICED;
    assert!(chain.can_aggregate(&outcomes));
    let spot_bbo = BboSnapshot { bid_price: 0, bid_volume: 0, ask_price: 0, ask_volume: 0 };
    let snapshot = chain.aggregate_snapshot(spot_bbo, &outcomes).unwrap();
    assert_eq!(snapshot.contracts.len(), 128);
    assert_eq!(snapshot.contracts[3].contract.strike_price, 4);
    assert_eq!(snapshot.serialized_size(), 15541);
}

#[test]
fn a_contract_leaves_the_end_of_its_field_alone() {
    let item = OptionContractSnapshot {
        contract: contract(20261217, 5, OptionType::Put),
        bid_price: 1,
        bid_volume: 2,
        ask_price: 3,
        ask_volume: 4,
        implied_volatility: number(0.5),
        delta: number(0.5),
        gamma: number(0.5),
        vega: number(0.5),
        theta: number(0.5),
        rho: number(0.5),
        model_price: number(0.75),
    };
    let mut buf = [9u8; OPTION_CONTRACT_SERIALIZED_SIZE];
    item.serialize(&mut buf);
    assert_eq!(buf[12], 1);
    assert_eq!(le(&buf, 93, 8), 0.75f64.to_bits());
    assert_eq!(&buf[101..], &[9u8; 20][..]);
}

#[test]
fn an_event_on_an_unknown_contract_only_makes_the_chain() {
    let mut manager = OptionChainManager::default();
    let key = contract(20261217, 5, OptionType::Put).key;
    assert!(manager.get_chain(TEST_UNDERLYING).is_none());
    assert!(manager.apply_option_order_event(&OptionOrderEvent::delete(key, 1, 2), NOW).is_none());
    assert_eq!(manager.get_chain(TEST_UNDERLYING).unwrap().len(), 0);
    assert!(manager.complete_pricing(&key, priced(0.1)).is_none());
    manager.update_spot_price(99, number(1.0), 1);
    assert!(manager.get_chain(99).is_none());
    manager.get_or_create_chain(99).update_spot_price(number(2.0), 1);
    assert_eq!(manager.get_chain(99).unwrap().last_spot_price().unwrap().bits, 2.0f64.to_bits());
    let listed: Vec<u64> = manager.chains().iter().map(|c| c.0).collect();
    assert_eq!(listed, vec![TEST_UNDERLYING, 99]);
    let (underlying, chain) = manager.chains_mut(1);
    assert_eq!(underlying, 99);
    chain.update_spot_price(number(3.0), 1);
    assert_eq!(manager.get_chain_mut(99).unwrap().last_spot_price().unwrap().bits, 3.0f64.to_bits());
    assert!(manager.get_chain_mut(5).is_none());
}

#[test]
fn events_on_option_orders_are_applied() {
    let mut manager = OptionChainManager::new(number(0.01));
    let c = contract(20261217, 5, OptionType::Put);
    manager.register_contract(c);
    manager.apply_option_order_event(&OptionOrderEvent::add(c.key, 1, Side::Sell, 9, 40, 0), NOW);
    manager.apply_option_order_event(&OptionOrderEvent::cancel(c.key, 1, 15, 0), NOW);
    let volume = |m: &OptionChainManager| {
        let chain = m.get_chain(TEST_UNDERLYING).unwrap();
        chain.get_contract(&c.key).unwrap().bbo_snapshot().3
    };
    assert_eq!(volume(&manager), 25);
    manager.apply_option_order_event(&OptionOrderEvent::delete(c.key, 1, 0), NOW);
    assert_eq!(volume(&manager), 0);
}

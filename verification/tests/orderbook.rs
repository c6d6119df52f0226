use arrayvec::ArrayVec;
use hft_orderbook_gateway::orderbook::{
    BboUpdate, OrderBook, PriceLevel, SingleOrderBook, BBO_SERIALIZED_SIZE,
};
use hft_orderbook_gateway::protocol::{ItchEvent, Side};

const TEST_STOCK: u64 = 0x4141504C20202020;

fn add_order_event(order_ref: u64, side: Side, shares: u32, price: u64) -> ItchEvent {
    ItchEvent::AddOrder { timestamp: 1, order_ref, side, shares, stock: TEST_STOCK, price }
}

fn delete_order_event(order_ref: u64) -> ItchEvent {
    ItchEvent::OrderDelete { timestamp: 2, order_ref }
}

fn cancel_order_event(order_ref: u64, shares: u32) -> ItchEvent {
    ItchEvent::OrderCancel { timestamp: 2, order_ref, shares }
}

fn replace_order_event(order_ref: u64, new_order_ref: u64, shares: u32, price: u64) -> ItchEvent {
    ItchEvent::OrderReplace { timestamp: 3, order_ref, new_order_ref, shares, price }
}

#[test]
fn test_single_book_add_and_bbo() {
    let mut book = SingleOrderBook::new(TEST_STOCK);

    let bbo = book.apply_event(&add_order_event(1, Side::Buy, 100, 1000000));
    assert!(bbo.is_some());
    let bbo = bbo.unwrap();
    assert_eq!(bbo.bid_price, 1000000);
    assert_eq!(bbo.bid_volume, 100);
    assert_eq!(bbo.ask_price, 0);

    let bbo = book.apply_event(&add_order_event(2, Side::Sell, 200, 1100000));
    assert!(bbo.is_some());
    let bbo = bbo.unwrap();
    assert_eq!(bbo.bid_price, 1000000);
    assert_eq!(bbo.ask_price, 1100000);
    assert_eq!(bbo.ask_volume, 200);

    let bbo = book.apply_event(&add_order_event(3, Side::Buy, 50, 1000000));
    assert!(bbo.is_some());
    let bbo = bbo.unwrap();
    assert_eq!(bbo.bid_volume, 150);
}

#[test]
fn test_order_delete() {
    let mut book = SingleOrderBook::new(TEST_STOCK);

    book.apply_event(&add_order_event(1, Side::Buy, 100, 1000000));
    book.apply_event(&add_order_event(2, Side::Buy, 200, 1000000));

    let best_bid = book.best_bid().unwrap();
    assert_eq!(best_bid.volume, 300);
    assert_eq!(best_bid.order_count, 2);

    let bbo = book.apply_event(&delete_order_event(1));
    assert!(bbo.is_some());
    let best_bid = book.best_bid().unwrap();
    assert_eq!(best_bid.volume, 200);
    assert_eq!(best_bid.order_count, 1);
}

#[test]
fn test_order_cancel() {
    let mut book = SingleOrderBook::new(TEST_STOCK);

    book.apply_event(&add_order_event(1, Side::Buy, 100, 1000000));
    let bbo = book.apply_event(&cancel_order_event(1, 30));
    assert!(bbo.is_some());

    let best_bid = book.best_bid().unwrap();
    assert_eq!(best_bid.volume, 70);
    assert_eq!(best_bid.order_count, 0);
}

#[test]
fn test_order_replace() {
    let mut book = SingleOrderBook::new(TEST_STOCK);

    book.apply_event(&add_order_event(1, Side::Buy, 100, 1000000));
    let bbo = book.apply_event(&replace_order_event(1, 2, 150, 1050000));
    assert!(bbo.is_some());

    let best_bid = book.best_bid().unwrap();
    assert_eq!(best_bid.price, 1050000);
    assert_eq!(best_bid.volume, 150);
}

#[test]
fn test_price_level_consolidation() {
    let mut book = SingleOrderBook::new(TEST_STOCK);

    for i in 0..5 {
        book.apply_event(&add_order_event(100 + i, Side::Buy, 100, 1000000));
    }
    let best_bid = book.best_bid().unwrap();
    assert_eq!(best_bid.volume, 500);
    assert_eq!(best_bid.order_count, 5);
}

#[test]
fn test_top_levels() {
    let mut book = SingleOrderBook::new(TEST_STOCK);

    book.apply_event(&add_order_event(1, Side::Buy, 100, 1000000));
    book.apply_event(&add_order_event(2, Side::Buy, 200, 990000));
    book.apply_event(&add_order_event(3, Side::Buy, 300, 980000));
    book.apply_event(&add_order_event(4, Side::Sell, 150, 1010000));
    book.apply_event(&add_order_event(5, Side::Sell, 250, 1020000));

    let bids: Vec<PriceLevel> = book.top_bids::<10>();
    let asks: Vec<PriceLevel> = book.top_asks::<10>();

    assert_eq!(bids.len(), 3);
    assert_eq!(bids[0].price, 1000000);
    assert_eq!(bids[1].price, 990000);
    assert_eq!(bids[2].price, 980000);

    assert_eq!(asks.len(), 2);
    assert_eq!(asks[0].price, 1010000);
    assert_eq!(asks[1].price, 1020000);

    assert_eq!(book.top_bids::<2>().len(), 2);
    assert_eq!(book.top_bids::<2>()[1].price, 990000);
    assert_eq!(book.top_asks::<0>().len(), 0);
}

#[test]
fn test_multistock_orderbook() {
    let mut ob = OrderBook::new();
    const STOCK_A: u64 = 0x4141504C20202020;
    const STOCK_B: u64 = 0x4D53465420202020;

    ob.apply_event(&ItchEvent::AddOrder {
        timestamp: 1,
        order_ref: 1,
        side: Side::Buy,
        shares: 100,
        stock: STOCK_A,
        price: 1000000,
    });

    ob.apply_event(&ItchEvent::AddOrder {
        timestamp: 1,
        order_ref: 2,
        side: Side::Buy,
        shares: 200,
        stock: STOCK_B,
        price: 2000000,
    });

    assert_eq!(ob.len(), 2);

    let book_a = ob.get(STOCK_A).unwrap();
    let book_b = ob.get(STOCK_B).unwrap();

    assert_eq!(book_a.best_bid().unwrap().price, 1000000);
    assert_eq!(book_b.best_bid().unwrap().price, 2000000);
}

#[test]
fn test_bbo_serialization() {
    let update = BboUpdate {
        stock: 123,
        timestamp: 456,
        seq_num: 789,
        bid_price: 1000000,
        bid_volume: 500,
        ask_price: 1010000,
        ask_volume: 300,
        top_bids: ArrayVec::new(),
        top_asks: ArrayVec::new(),
    };

    let mut buf = [0u8; BBO_SERIALIZED_SIZE];
    update.serialize(&mut buf);

    assert_eq!(u64::from_le_bytes(buf[0..8].try_into().unwrap()), 123);
    assert_eq!(u64::from_le_bytes(buf[8..16].try_into().unwrap()), 456);
    assert_eq!(u64::from_le_bytes(buf[16..24].try_into().unwrap()), 789);
    assert_eq!(u64::from_le_bytes(buf[24..32].try_into().unwrap()), 1000000);
    assert_eq!(u64::from_le_bytes(buf[32..40].try_into().unwrap()), 500);
    assert_eq!(u64::from_le_bytes(buf[40..48].try_into().unwrap()), 1010000);
    assert_eq!(u64::from_le_bytes(buf[48..56].try_into().unwrap()), 300);
}

#[test]
fn an_update_carries_five_levels_of_either_side() {
    let mut book = SingleOrderBook::new(TEST_STOCK);
    let mut last = None;
    for i in 0..12u64 {
        last = book.apply_event(&add_order_event(i + 1, Side::Buy, 10 + i as u32, 1000 + i));
    }
    let update = last.unwrap();
    assert_eq!(update.top_bids.len(), 10);
    assert_eq!(update.top_bids[0].price, 1011);
    assert_eq!(update.top_bids[9].price, 1002);
    assert_eq!(update.top_asks.len(), 0);

    let mut buf = [7u8; BBO_SERIALIZED_SIZE];
    update.clone().serialize(&mut buf);
    let word = |k: usize| u64::from_le_bytes(buf[8 * k..8 * k + 8].try_into().unwrap());
    assert_eq!(word(7), 1011);
    assert_eq!(word(8), 21);
    assert_eq!(word(15), 1007);
    assert_eq!(word(16), 17);
    assert_eq!(word(17), 0);
    assert_eq!(word(26), 0);
}

#[test]
fn updates_are_numbered_and_only_changes_are_reported() {
    let mut book = SingleOrderBook::new(TEST_STOCK);
    let first = book.apply_event(&add_order_event(1, Side::Buy, 100, 1000)).unwrap();
    assert!(book.apply_event(&add_order_event(2, Side::Buy, 100, 900)).is_none());
    let second = book.apply_event(&add_order_event(3, Side::Sell, 5, 1100)).unwrap();
    assert_eq!(second.seq_num, first.seq_num + 1);
    assert!(book.apply_event(&delete_order_event(99)).is_none());
    assert!(book
        .apply_event(&ItchEvent::SystemEvent { timestamp: 4, event_code: 1 })
        .is_none());
    let third = book.apply_event(&delete_order_event(1)).unwrap();
    assert_eq!(third.seq_num, second.seq_num + 1);
    assert_eq!(third.bid_price, 900);
}

#[test]
fn an_order_that_is_added_and_deleted_leaves_nothing() {
    let mut book = SingleOrderBook::new(TEST_STOCK);
    book.apply_event(&add_order_event(1, Side::Sell, 100, 1000));
    book.apply_event(&add_order_event(2, Side::Sell, 40, 1000));
    book.apply_event(&delete_order_event(2));
    assert_eq!(book.best_ask().unwrap().volume, 100);
    assert_eq!(book.best_ask().unwrap().order_count, 1);
    book.apply_event(&delete_order_event(1));
    assert!(book.best_ask().is_none());
    assert!(!book.holds(1));
}

#[test]
fn executing_all_that_is_left_removes_an_order() {
    let mut book = SingleOrderBook::new(TEST_STOCK);
    book.apply_event(&add_order_event(1, Side::Buy, 100, 1000));
    book.apply_event(&ItchEvent::OrderExecuted {
        timestamp: 2,
        order_ref: 1,
        shares: 60,
        match_number: 1,
    });
    assert!(book.holds(1));
    assert_eq!(book.best_bid().unwrap().volume, 40);
    book.apply_event(&ItchEvent::OrderExecutedPrice {
        timestamp: 3,
        order_ref: 1,
        shares: 500,
        match_number: 2,
        printable: false,
        price: 999,
    });
    assert!(!book.holds(1));
    assert!(book.best_bid().is_none());
}

#[test]
fn a_full_level_is_told_beforehand() {
    let mut book = SingleOrderBook::new(TEST_STOCK);
    let event = add_order_event(1, Side::Buy, u32::MAX, 1000);
    assert!(book.can_apply(&event));
    book.apply_event(&event);
    assert!(book.can_apply(&add_order_event(2, Side::Buy, u32::MAX, 1000)));
    assert_eq!(book.stock(), TEST_STOCK);
}

#[test]
fn events_reach_the_book_that_holds_the_order() {
    let mut ob = OrderBook::new();
    assert!(ob.is_empty());
    for stock in 1..4u64 {
        let event = ItchEvent::AddOrderMpid {
            timestamp: 1,
            order_ref: stock,
            side: Side::Buy,
            shares: 100,
            stock,
            price: 1000 * stock,
            mpid: 0,
        };
        assert!(ob.can_apply(&event));
        ob.apply_event(&event);
    }
    let update = ob.apply_event(&cancel_order_event(2, 10)).unwrap();
    assert_eq!(update.stock, 2);
    assert_eq!(update.bid_volume, 90);
    assert_eq!(ob.get(1).unwrap().best_bid().unwrap().volume, 100);
    assert!(ob.apply_event(&delete_order_event(77)).is_none());
    assert!(ob.get(9).is_none());
    let mut stocks: Vec<u64> = ob.iter_books().iter().map(|b| b.stock()).collect();
    stocks.sort();
    assert_eq!(stocks, vec![1, 2, 3]);
    assert!(ob.apply_event(&replace_order_event(3, 4, 5, 6)).is_some());
    assert!(ob.get(3).unwrap().holds(4));
    assert_eq!(ob.get_or_create(8).stock(), 8);
    assert_eq!(ob.len(), 4);
}

#[test]
fn a_price_level_is_what_it_is_made_of() {
    let level = PriceLevel::new(1, 2, 3);
    assert_eq!((level.price, level.volume, level.order_count), (1, 2, 3));
    assert_eq!(PriceLevel::zero().volume, 0);
}

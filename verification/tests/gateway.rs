use arrayvec::ArrayVec;
use crossbeam_queue::ArrayQueue;
use hft_orderbook_gateway::broadcast::{encode_batch, next_batch, take_snapshot, take_update};
use hft_orderbook_gateway::clients::{ClientTable, WriteOutcome, MAX_CLIENTS};
use hft_orderbook_gateway::gateway::{apply_results, process_packet};
use hft_orderbook_gateway::generator::{TestGenerator, START_PRICE, STOCK_AAPL};
use hft_orderbook_gateway::options::AggregatedOptionSnapshot;
use hft_orderbook_gateway::orderbook::{BboUpdate, OrderBook};
use hft_orderbook_gateway::pipeline::{Pipeline, BBO_QUEUE_CAP, EVENT_QUEUE_CAP};
use hft_orderbook_gateway::protocol::{ItchEvent, ItchParser, ProtocolError, Side};

fn update(seq_num: u64) -> BboUpdate {
    BboUpdate {
        stock: 123,
        timestamp: 456,
        seq_num,
        bid_price: 1000000,
        bid_volume: 500,
        ask_price: 1010000,
        ask_volume: 300,
        top_bids: ArrayVec::new(),
        top_asks: ArrayVec::new(),
    }
}

fn snapshot(underlying: u64) -> AggregatedOptionSnapshot {
    AggregatedOptionSnapshot {
        underlying,
        spot_bid_price: 1,
        spot_bid_volume: 2,
        spot_ask_price: 3,
        spot_ask_volume: 4,
        spot_timestamp: 5,
        contracts: ArrayVec::new(),
    }
}

#[test]
fn the_pipeline_hands_events_and_updates_on() {
    let pipeline = Pipeline::new();
    assert_eq!(pipeline.event_tx.capacity(), EVENT_QUEUE_CAP);
    assert_eq!(pipeline.bbo_rx.capacity(), BBO_QUEUE_CAP);
    assert_eq!(EVENT_QUEUE_CAP, 1 << 16);
    assert_eq!(BBO_QUEUE_CAP, 1 << 14);
    assert!(pipeline.pop_bbo().is_none());
    assert!(pipeline.bbo_rx.push(update(7)).is_ok());
    assert_eq!(pipeline.pop_bbo().unwrap().seq_num, 7);
    let event = ItchEvent::OrderDelete { timestamp: 1, order_ref: 2 };
    for _ in 0..EVENT_QUEUE_CAP {
        assert!(pipeline.push_event(event.clone()).is_ok());
    }
    assert_eq!(pipeline.push_event(event.clone()), Err(event));
    assert_eq!(Pipeline::default().bbo_rx.capacity(), BBO_QUEUE_CAP);
}

#[test]
fn a_batch_frames_updates_before_snapshots() {
    let bytes = encode_batch(&[update(1), update(2)], &[snapshot(9)]);
    assert_eq!(bytes.len(), 2 * 219 + 53);
    assert_eq!(&bytes[0..3], &[0, 216, 0][..]);
    assert_eq!(u64::from_le_bytes(bytes[3..11].try_into().unwrap()), 123);
    assert_eq!(u64::from_le_bytes(bytes[19..27].try_into().unwrap()), 1);
    assert_eq!(&bytes[219..222], &[0, 216, 0][..]);
    assert_eq!(u64::from_le_bytes(bytes[238..246].try_into().unwrap()), 2);
    assert_eq!(&bytes[438..441], &[1, 53, 0][..]);
    assert_eq!(u64::from_le_bytes(bytes[441..449].try_into().unwrap()), 9);
    assert_eq!(encode_batch(&[], &[]).len(), 0);
}

#[test]
fn a_batch_takes_so_many_out_of_the_queues() {
    let updates: ArrayQueue<BboUpdate> = ArrayQueue::new(100);
    let snapshots: ArrayQueue<AggregatedOptionSnapshot> = ArrayQueue::new(100);
    for i in 0..70 {
        assert!(updates.push(update(i)).is_ok());
    }
    for i in 0..20 {
        assert!(snapshots.push(snapshot(i)).is_ok());
    }
    let first = next_batch(&updates, &snapshots);
    assert_eq!(first.len(), 64 * 219 + 16 * 53);
    assert_eq!(u64::from_le_bytes(first[19..27].try_into().unwrap()), 0);
    let second = next_batch(&updates, &snapshots);
    assert_eq!(second.len(), 6 * 219 + 4 * 53);
    assert_eq!(u64::from_le_bytes(second[19..27].try_into().unwrap()), 64);
    assert_eq!(next_batch(&updates, &snapshots).len(), 0);
}

#[test]
fn what_comes_out_of_a_queue_goes_into_the_batch() {
    let mut batch: ArrayVec<BboUpdate, 64> = ArrayVec::new();
    for i in 0..63 {
        assert!(take_update(&mut batch, Some(update(i))));
    }
    assert!(!take_update(&mut batch.clone(), None));
    assert_eq!(batch.len(), 63);
    assert!(!take_update(&mut batch, Some(update(63))));
    assert_eq!(batch.len(), 64);
    assert_eq!(batch[63].seq_num, 63);

    let mut option_batch: ArrayVec<AggregatedOptionSnapshot, 16> = ArrayVec::new();
    assert!(!take_snapshot(&mut option_batch, None));
    for i in 0..15 {
        assert!(take_snapshot(&mut option_batch, Some(snapshot(i))));
    }
    assert!(!take_snapshot(&mut option_batch, Some(snapshot(15))));
    assert_eq!(option_batch[15].underlying, 15);
}

#[test]
fn clients_come_until_there_is_no_room() {
    let mut table: ClientTable<usize> = ClientTable::new();
    for i in 0..MAX_CLIENTS {
        assert_eq!(table.welcome(i), Ok(()));
    }
    assert_eq!(table.welcome(1000), Err(1000));
    assert_eq!(table.len(), 256);
    *table.client_mut(3) = 33;
    let all = table.take_all();
    assert_eq!(all.len(), 256);
    assert_eq!(all[3], 33);
    assert_eq!(table.len(), 0);
}

#[test]
fn clients_that_cannot_be_written_to_go() {
    let mut table: ClientTable<u32> = ClientTable::new();
    for i in 0..6 {
        assert_eq!(table.welcome(i), Ok(()));
    }
    let outcomes = [
        WriteOutcome::Disconnected,
        WriteOutcome::Written,
        WriteOutcome::WouldBlock,
        WriteOutcome::Failed,
        WriteOutcome::Written,
        WriteOutcome::Failed,
    ];
    assert!(table.can_drop(&outcomes));
    assert_eq!(table.drop_failed(&outcomes), vec![5, 3, 0]);
    let left = table.take_all();
    assert_eq!(left, vec![4, 1, 2]);
}

#[test]
fn so_many_clients_can_go_at_once() {
    let mut table: ClientTable<usize> = ClientTable::new();
    for i in 0..65 {
        assert_eq!(table.welcome(i), Ok(()));
    }
    let mut outcomes = vec![WriteOutcome::Failed; 65];
    assert!(!table.can_drop(&outcomes));
    outcomes[64] = WriteOutcome::Written;
    assert!(table.can_drop(&outcomes));
    assert_eq!(table.drop_failed(&outcomes).len(), 64);
    assert_eq!(table.take_all(), vec![64]);
}

fn add(order_ref: u64, shares: u32) -> Result<ItchEvent, ProtocolError> {
    Ok(ItchEvent::AddOrder {
        timestamp: 1,
        order_ref,
        side: Side::Buy,
        shares,
        stock: 5,
        price: 100,
    })
}

#[test]
fn results_are_applied_in_order() {
    let mut books = OrderBook::new();
    let results = [
        add(1, 10),
        Err(ProtocolError::InvalidMessageType(3)),
        add(2, 20),
        Ok(ItchEvent::SystemEvent { timestamp: 1, event_code: 2 }),
    ];
    let applied = apply_results(&mut books, &results);
    assert_eq!(applied.events, 3);
    assert_eq!(applied.refused, None);
    assert_eq!(applied.updates.len(), 2);
    assert_eq!(applied.updates[0].bid_volume, 10);
    assert_eq!(applied.updates[1].bid_volume, 30);
    assert_eq!(applied.updates[1].seq_num, applied.updates[0].seq_num + 1);
}

#[test]
fn a_packet_becomes_updates() {
    let mut packet = Vec::new();
    for order_ref in 1..3u64 {
        packet.extend_from_slice(&33u16.to_be_bytes());
        packet.push(b'A');
        packet.extend_from_slice(&[0, 0, 0, 0, 0, 1]);
        packet.extend_from_slice(&order_ref.to_be_bytes());
        packet.push(b'B');
        packet.extend_from_slice(&100u32.to_be_bytes());
        packet.extend_from_slice(&5u64.to_be_bytes());
        packet.extend_from_slice(&(1000 + order_ref as u32).to_be_bytes());
        packet.push(0);
    }
    let mut books = OrderBook::new();
    let report = process_packet(&ItchParser::new(), &mut books, &packet);
    assert_eq!(report.results.len(), 2);
    assert_eq!(report.applied.events, 2);
    assert_eq!(report.applied.updates.len(), 2);
    assert_eq!(report.applied.updates[1].bid_price, 1002);
    assert_eq!(books.get(5).unwrap().best_bid().unwrap().price, 1002);
}

#[test]
fn the_generator_makes_a_market() {
    let mut generator = TestGenerator::new();
    assert!(generator.has_next());
    let events = generator.next_events();
    assert_eq!(events.len(), 6);
    let mid = START_PRICE - 49_000;
    assert_eq!(
        events[0],
        ItchEvent::AddOrder {
            timestamp: 1,
            order_ref: 2,
            side: Side::Buy,
            shares: 101,
            stock: STOCK_AAPL,
            price: mid - 1000,
        }
    );
    assert_eq!(
        events[3],
        ItchEvent::AddOrder {
            timestamp: 1,
            order_ref: 5,
            side: Side::Sell,
            shares: 251,
            stock: STOCK_AAPL,
            price: mid + 2000,
        }
    );
    assert_eq!(events[4], ItchEvent::OrderDelete { timestamp: 1, order_ref: 0 });
    for _ in 1..12 {
        generator.next_events();
    }
    let events = generator.next_events();
    assert_eq!(events[4], ItchEvent::OrderDelete { timestamp: 13, order_ref: 5 });
    assert_eq!(events[5], ItchEvent::OrderDelete { timestamp: 13, order_ref: 6 });
    assert!(!generator.is_rebase_tick());
}

#[test]
fn the_generator_moves_its_price_after_a_while() {
    let mut generator = TestGenerator::new();
    let price = |events: &[ItchEvent]| match events[0] {
        ItchEvent::AddOrder { price, .. } => price,
        _ => panic!("no order"),
    };
    for _ in 0..100_000 {
        generator.next_events();
    }
    assert!(generator.is_rebase_tick());
    generator.rebase(299);
    assert_eq!(price(&generator.next_events()), START_PRICE - 49_000 - 1000);
    generator.rebase(400);
    assert_eq!(price(&generator.next_events()), START_PRICE - 48_000 - 1000);
    for _ in 0..998 {
        generator.next_events();
    }
    generator.rebase(300);
    assert_eq!(price(&generator.next_events()), START_PRICE + 10_000 - 49_000 - 1000);
}

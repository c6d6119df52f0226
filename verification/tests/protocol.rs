use hft_orderbook_gateway::protocol::{ItchEvent, ItchParser, ProtocolError, Side};

const STOCK: u64 = 0x4141504C20202020;

fn be(out: &mut Vec<u8>, value: u64, width: usize) {
    let bytes = value.to_be_bytes();
    out.extend_from_slice(&bytes[8 - width..]);
}

/// A message: its length, its kind and its body. The length counts the kind.
fn message(kind: u8, body: &[u8]) -> Vec<u8> {
    let mut out = Vec::new();
    be(&mut out, body.len() as u64 + 1, 2);
    out.push(kind);
    out.extend_from_slice(body);
    out
}

fn head(timestamp: u64, order_ref: u64) -> Vec<u8> {
    let mut body = Vec::new();
    be(&mut body, timestamp, 6);
    be(&mut body, order_ref, 8);
    body
}

fn add_body(side: u8) -> Vec<u8> {
    let mut body = head(7, 12345);
    body.push(side);
    be(&mut body, 1000, 4);
    be(&mut body, STOCK, 8);
    be(&mut body, 1_500_000, 4);
    body
}

fn padded(mut body: Vec<u8>, len: usize) -> Vec<u8> {
    body.resize(len, 0);
    body
}

#[test]
fn test_side_from_byte() {
    assert_eq!(Side::from_byte(b'B').unwrap(), Side::Buy);
    assert_eq!(Side::from_byte(b'S').unwrap(), Side::Sell);
    assert!(Side::from_byte(b'X').is_err());
}

#[test]
fn test_add_order_parse() {
    let parser = ItchParser::new();
    let mut data = vec![0u8; 36];

    let len: u16 = 34;
    data[0] = (len >> 8) as u8;
    data[1] = len as u8;
    data[2] = b'A';

    let mut fields = Vec::new();
    be(&mut fields, 0x1234, 2);
    be(&mut fields, 0x56789ABC, 4);
    be(&mut fields, 12345, 8);
    fields.push(b'B');
    be(&mut fields, 1000, 4);
    be(&mut fields, 0x4141504C20202020, 8);
    be(&mut fields, 1500000, 4);
    data[3..3 + fields.len()].copy_from_slice(&fields);

    let event = parser.parse_message(&data).unwrap();
    match event {
        ItchEvent::AddOrder {
            timestamp,
            order_ref,
            side,
            shares,
            stock,
            price,
        } => {
            assert_eq!(timestamp, 0x123456789ABC);
            assert_eq!(order_ref, 12345);
            assert_eq!(side, Side::Buy);
            assert_eq!(shares, 1000);
            assert_eq!(stock, 0x4141504C20202020);
            assert_eq!(price, 1500000);
        }
        _ => panic!("Expected AddOrder"),
    }
}

#[test]
fn every_kind_of_message_is_read() {
    let parser = ItchParser::new();

    let mut mpid = add_body(b'S');
    be(&mut mpid, 0x4D504944, 4);
    assert_eq!(
        parser.parse_message(&message(b'F', &padded(mpid, 36))).unwrap(),
        ItchEvent::AddOrderMpid {
            timestamp: 7,
            order_ref: 12345,
            side: Side::Sell,
            shares: 1000,
            stock: STOCK,
            price: 1_500_000,
            mpid: 0x4D504944,
        }
    );

    let mut executed = head(8, 1);
    be(&mut executed, 50, 4);
    be(&mut executed, 99, 8);
    assert_eq!(
        parser.parse_message(&message(b'E', &executed)).unwrap(),
        ItchEvent::OrderExecuted { timestamp: 8, order_ref: 1, shares: 50, match_number: 99 }
    );

    let mut at_price = executed.clone();
    at_price.push(b'Y');
    be(&mut at_price, 123, 4);
    assert_eq!(
        parser.parse_message(&message(b'C', &at_price)).unwrap(),
        ItchEvent::OrderExecutedPrice {
            timestamp: 8,
            order_ref: 1,
            shares: 50,
            match_number: 99,
            printable: true,
            price: 123,
        }
    );

    let mut cancel = head(9, 2);
    be(&mut cancel, 30, 4);
    assert_eq!(
        parser.parse_message(&message(b'X', &padded(cancel, 22))).unwrap(),
        ItchEvent::OrderCancel { timestamp: 9, order_ref: 2, shares: 30 }
    );

    assert_eq!(
        parser.parse_message(&message(b'D', &padded(head(10, 3), 18))).unwrap(),
        ItchEvent::OrderDelete { timestamp: 10, order_ref: 3 }
    );

    let mut replace = head(11, 4);
    be(&mut replace, 5, 8);
    be(&mut replace, 60, 4);
    be(&mut replace, 777, 4);
    assert_eq!(
        parser.parse_message(&message(b'U', &padded(replace, 34))).unwrap(),
        ItchEvent::OrderReplace {
            timestamp: 11,
            order_ref: 4,
            new_order_ref: 5,
            shares: 60,
            price: 777,
        }
    );

    let mut directory = Vec::new();
    be(&mut directory, 12, 6);
    be(&mut directory, STOCK, 8);
    directory.push(b'Q');
    directory.push(b'N');
    be(&mut directory, 100, 4);
    directory.push(b'Y');
    directory.push(b'C');
    assert_eq!(
        parser.parse_message(&message(b'R', &padded(directory, 39))).unwrap(),
        ItchEvent::StockDirectory {
            timestamp: 12,
            stock: STOCK,
            market_category: b'Q',
            financial_status: b'N',
            round_lot_size: 100,
            round_lots_only: true,
            issue_classification: b'C',
        }
    );

    let mut system = Vec::new();
    be(&mut system, 13, 6);
    system.push(b'O');
    assert_eq!(
        parser.parse_message(&message(b'S', &padded(system, 11))).unwrap(),
        ItchEvent::SystemEvent { timestamp: 13, event_code: b'O' }
    );
}

#[test]
fn messages_that_cannot_be_read_are_refused() {
    let parser = ItchParser::new();
    assert!(matches!(
        parser.parse_message(&message(b'Z', &[0; 40])),
        Err(ProtocolError::InvalidMessageType(b'Z'))
    ));
    assert!(matches!(
        parser.parse_message(&message(b'D', &[0; 17])),
        Err(ProtocolError::InsufficientData { expected: 18, got: 17 })
    ));
    assert!(matches!(
        parser.parse_message(&message(b'A', &padded(add_body(b'X'), 32))),
        Err(ProtocolError::InvalidMessageType(b'X'))
    ));
    assert!(parser.parse_message(&[0]).is_err());
    assert!(parser.parse_message(&[]).is_err());
}

#[test]
fn a_packet_gives_its_messages_in_order() {
    let parser = ItchParser::new();
    let mut packet = message(b'D', &padded(head(1, 10), 18));
    packet.extend_from_slice(&message(b'Z', &[0; 5]));
    packet.extend_from_slice(&message(b'D', &padded(head(2, 11), 18)));
    let results = parser.parse_multicast_packet(&packet);
    assert_eq!(results.len(), 3);
    assert_eq!(*results[0].as_ref().unwrap(), ItchEvent::OrderDelete { timestamp: 1, order_ref: 10 });
    assert!(matches!(results[1], Err(ProtocolError::InvalidMessageType(b'Z'))));
    assert_eq!(*results[2].as_ref().unwrap(), ItchEvent::OrderDelete { timestamp: 2, order_ref: 11 });
    assert_eq!(parser.parse_multicast_packet(&[]).len(), 0);
}

#[test]
fn packets_can_be_joined() {
    let parser = ItchParser::new();
    let first = message(b'D', &padded(head(1, 10), 18));
    let second = message(b'S', &padded(head(2, 11), 11));
    let mut joined = first.clone();
    joined.extend_from_slice(&second);
    let apart = parser.parse_multicast_packet(&first).len() + parser.parse_multicast_packet(&second).len();
    assert_eq!(parser.parse_multicast_packet(&joined).len(), apart);
}

#[test]
fn an_event_knows_its_time() {
    assert_eq!(ItchEvent::SystemEvent { timestamp: 5, event_code: 1 }.timestamp(), 5);
    assert_eq!(ItchEvent::OrderDelete { timestamp: 6, order_ref: 1 }.timestamp(), 6);
}

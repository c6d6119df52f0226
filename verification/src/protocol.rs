//! The binary market-data protocol: what a multicast packet holds and what
//! events its messages stand for.
//!
//! A packet is a run of frames. A frame is a two-byte length, most significant
//! byte first, and that many bytes. The first of these is the kind of the
//! message, the others are its body. All numbers in a body are big-endian.
use crate::wire::{be_value, read_be_u16, read_be_u32, read_be_u64};
use vstd::prelude::*;
use vstd::slice::slice_subrange;

verus! {

/// `B`, the buy side.
pub const BYTE_BUY: u8 = 0x42;

/// `S`, the sell side.
pub const BYTE_SELL: u8 = 0x53;

/// `Y`, a flag that is set.
pub const BYTE_YES: u8 = 0x59;

/// `A`, a new order.
pub const KIND_ADD_ORDER: u8 = 0x41;

/// `F`, a new order with the participant's identifier.
pub const KIND_ADD_ORDER_MPID: u8 = 0x46;

/// `E`, an execution.
pub const KIND_ORDER_EXECUTED: u8 = 0x45;

/// `C`, an execution at a price of its own.
pub const KIND_ORDER_EXECUTED_PRICE: u8 = 0x43;

/// `X`, some shares of an order are cancelled.
pub const KIND_ORDER_CANCEL: u8 = 0x58;

/// `D`, an order is deleted.
pub const KIND_ORDER_DELETE: u8 = 0x44;

/// `U`, an order is replaced by another.
pub const KIND_ORDER_REPLACE: u8 = 0x55;

/// `R`, a stock of the directory.
pub const KIND_STOCK_DIRECTORY: u8 = 0x52;

/// `S`, an event of the feed as a whole.
pub const KIND_SYSTEM_EVENT: u8 = 0x53;

#[derive(Debug)]
pub enum ProtocolError {
    InvalidMessageType(u8),
    InsufficientData { expected: usize, got: usize },
    ParseError(String),
}

#[derive(Debug, Clone, Copy, PartialEq, Eq, Structural)]
pub enum Side {
    Buy,
    Sell,
}

/// The side that a byte stands for.
pub open spec fn side_of_byte(b: u8) -> Result<Side, ProtocolError> {
    if b == BYTE_BUY {
        Ok(Side::Buy)
    } else if b == BYTE_SELL {
        Ok(Side::Sell)
    } else {
        Err(ProtocolError::InvalidMessageType(b))
    }
}

impl Side {
    /// `B` is the buy side, `S` the sell side; every other byte is refused.
    pub fn from_byte(b: u8) -> (r: Result<Self, ProtocolError>)
        ensures
            r == side_of_byte(b),
    {
        if b == BYTE_BUY {
            Ok(Side::Buy)
        } else if b == BYTE_SELL {
            Ok(Side::Sell)
        } else {
            Err(ProtocolError::InvalidMessageType(b))
        }
    }
}

#[derive(Debug, Clone, PartialEq)]
pub enum ItchEvent {
    AddOrder { timestamp: u64, order_ref: u64, side: Side, shares: u32, stock: u64, price: u64 },
    AddOrderMpid {
        timestamp: u64,
        order_ref: u64,
        side: Side,
        shares: u32,
        stock: u64,
        price: u64,
        mpid: u32,
    },
    OrderExecuted { timestamp: u64, order_ref: u64, shares: u32, match_number: u64 },
    OrderExecutedPrice {
        timestamp: u64,
        order_ref: u64,
        shares: u32,
        match_number: u64,
        printable: bool,
        price: u64,
    },
    OrderCancel { timestamp: u64, order_ref: u64, shares: u32 },
    OrderDelete { timestamp: u64, order_ref: u64 },
    OrderReplace {
        timestamp: u64,
        order_ref: u64,
        new_order_ref: u64,
        shares: u32,
        price: u64,
    },
    StockDirectory {
        timestamp: u64,
        stock: u64,
        market_category: u8,
        financial_status: u8,
        round_lot_size: u32,
        round_lots_only: bool,
        issue_classification: u8,
    },
    SystemEvent { timestamp: u64, event_code: u8 },
}

impl ItchEvent {
    /// The time at which the event happened.
    pub open spec fn time(self) -> u64 {
        match self {
            ItchEvent::AddOrder { timestamp, .. } => timestamp,
            ItchEvent::AddOrderMpid { timestamp, .. } => timestamp,
            ItchEvent::OrderExecuted { timestamp, .. } => timestamp,
            ItchEvent::OrderExecutedPrice { timestamp, .. } => timestamp,
            ItchEvent::OrderCancel { timestamp, .. } => timestamp,
            ItchEvent::OrderDelete { timestamp, .. } => timestamp,
            ItchEvent::OrderReplace { timestamp, .. } => timestamp,
            ItchEvent::StockDirectory { timestamp, .. } => timestamp,
            ItchEvent::SystemEvent { timestamp, .. } => timestamp,
        }
    }

    pub fn timestamp(&self) -> (t: u64)
        ensures
            t == self.time(),
    {
        match self {
            ItchEvent::AddOrder { timestamp, .. } => *timestamp,
            ItchEvent::AddOrderMpid { timestamp, .. } => *timestamp,
            ItchEvent::OrderExecuted { timestamp, .. } => *timestamp,
            ItchEvent::OrderExecutedPrice { timestamp, .. } => *timestamp,
            ItchEvent::OrderCancel { timestamp, .. } => *timestamp,
            ItchEvent::OrderDelete { timestamp, .. } => *timestamp,
            ItchEvent::OrderReplace { timestamp, .. } => *timestamp,
            ItchEvent::StockDirectory { timestamp, .. } => *timestamp,
            ItchEvent::SystemEvent { timestamp, .. } => *timestamp,
        }
    }
}

/// The number in the `n` bytes of `body` from position `at` on.
pub open spec fn number_at(body: Seq<u8>, at: int, n: int) -> nat {
    be_value(body.subrange(at, at + n))
}

/// The time of a message: the six bytes that its body starts with.
pub open spec fn time_of(body: Seq<u8>) -> u64 {
    number_at(body, 0, 6) as u64
}

pub open spec fn insufficient(expected: usize, body: Seq<u8>) -> Result<ItchEvent, ProtocolError> {
    Err(ProtocolError::InsufficientData { expected, got: body.len() as usize })
}

/// Kinds `A` and `F`: a new order, the second with the participant's identifier.
pub open spec fn add_order_event(body: Seq<u8>, with_mpid: bool) -> Result<
    ItchEvent,
    ProtocolError,
> {
    let expected: usize = if with_mpid { 36 } else { 32 };
    if body.len() < expected {
        insufficient(expected, body)
    } else {
        match side_of_byte(body[14]) {
            Err(e) => Err(e),
            Ok(side) => if with_mpid {
                Ok(
                    ItchEvent::AddOrderMpid {
                        timestamp: time_of(body),
                        order_ref: number_at(body, 6, 8) as u64,
                        side,
                        shares: number_at(body, 15, 4) as u32,
                        stock: number_at(body, 19, 8) as u64,
                        price: number_at(body, 27, 4) as u64,
                        mpid: number_at(body, 31, 4) as u32,
                    },
                )
            } else {
                Ok(
                    ItchEvent::AddOrder {
                        timestamp: time_of(body),
                        order_ref: number_at(body, 6, 8) as u64,
                        side,
                        shares: number_at(body, 15, 4) as u32,
                        stock: number_at(body, 19, 8) as u64,
                        price: number_at(body, 27, 4) as u64,
                    },
                )
            },
        }
    }
}

/// Kinds `E` and `C`: an execution, the second at a price of its own.
pub open spec fn order_executed_event(body: Seq<u8>, with_price: bool) -> Result<
    ItchEvent,
    ProtocolError,
> {
    let expected: usize = if with_price { 31 } else { 26 };
    if body.len() < expected {
        insufficient(expected, body)
    } else if with_price {
        Ok(
            ItchEvent::OrderExecutedPrice {
                timestamp: time_of(body),
                order_ref: number_at(body, 6, 8) as u64,
                shares: number_at(body, 14, 4) as u32,
                match_number: number_at(body, 18, 8) as u64,
                printable: body[26] == BYTE_YES,
                price: number_at(body, 27, 4) as u64,
            },
        )
    } else {
        Ok(
            ItchEvent::OrderExecuted {
                timestamp: time_of(body),
                order_ref: number_at(body, 6, 8) as u64,
                shares: number_at(body, 14, 4) as u32,
                match_number: number_at(body, 18, 8) as u64,
            },
        )
    }
}

/// Kind `X`: some shares of an order are cancelled.
pub open spec fn order_cancel_event(body: Seq<u8>) -> Result<ItchEvent, ProtocolError> {
    if body.len() < 22 {
        insufficient(22, body)
    } else {
        Ok(
            ItchEvent::OrderCancel {
                timestamp: time_of(body),
                order_ref: number_at(body, 6, 8) as u64,
                shares: number_at(body, 14, 4) as u32,
            },
        )
    }
}

/// Kind `D`: an order is deleted.
pub open spec fn order_delete_event(body: Seq<u8>) -> Result<ItchEvent, ProtocolError> {
    if body.len() < 18 {
        insufficient(18, body)
    } else {
        Ok(
            ItchEvent::OrderDelete {
                timestamp: time_of(body),
                order_ref: number_at(body, 6, 8) as u64,
            },
        )
    }
}

/// Kind `U`: an order is replaced by another.
pub open spec fn order_replace_event(body: Seq<u8>) -> Result<ItchEvent, ProtocolError> {
    if body.len() < 34 {
        insufficient(34, body)
    } else {
        Ok(
            ItchEvent::OrderReplace {
                timestamp: time_of(body),
                order_ref: number_at(body, 6, 8) as u64,
                new_order_ref: number_at(body, 14, 8) as u64,
                shares: number_at(body, 22, 4) as u32,
                price: number_at(body, 26, 4) as u64,
            },
        )
    }
}

/// Kind `R`: a stock of the directory.
pub open spec fn stock_directory_event(body: Seq<u8>) -> Result<ItchEvent, ProtocolError> {
    if body.len() < 39 {
        insufficient(39, body)
    } else {
        Ok(
            ItchEvent::StockDirectory {
                timestamp: time_of(body),
                stock: number_at(body, 6, 8) as u64,
                market_category: body[14],
                financial_status: body[15],
                round_lot_size: number_at(body, 16, 4) as u32,
                round_lots_only: body[20] == BYTE_YES,
                issue_classification: body[21],
            },
        )
    }
}

/// Kind `S`: an event of the feed as a whole.
pub open spec fn system_event(body: Seq<u8>) -> Result<ItchEvent, ProtocolError> {
    if body.len() < 11 {
        insufficient(11, body)
    } else {
        Ok(ItchEvent::SystemEvent { timestamp: time_of(body), event_code: body[6] })
    }
}

/// What a message of the given kind stands for.
pub open spec fn body_event(kind: u8, body: Seq<u8>) -> Result<ItchEvent, ProtocolError> {
    if kind == KIND_ADD_ORDER {
        add_order_event(body, false)
    } else if kind == KIND_ADD_ORDER_MPID {
        add_order_event(body, true)
    } else if kind == KIND_ORDER_EXECUTED {
        order_executed_event(body, false)
    } else if kind == KIND_ORDER_EXECUTED_PRICE {
        order_executed_event(body, true)
    } else if kind == KIND_ORDER_CANCEL {
        order_cancel_event(body)
    } else if kind == KIND_ORDER_DELETE {
        order_delete_event(body)
    } else if kind == KIND_ORDER_REPLACE {
        order_replace_event(body)
    } else if kind == KIND_STOCK_DIRECTORY {
        stock_directory_event(body)
    } else if kind == KIND_SYSTEM_EVENT {
        system_event(body)
    } else {
        Err(ProtocolError::InvalidMessageType(kind))
    }
}

/// What a frame stands for: its third byte is the kind, the body follows.
pub open spec fn message_event(frame: Seq<u8>) -> Result<ItchEvent, ProtocolError> {
    if frame.len() < 3 {
        Err(ProtocolError::InsufficientData { expected: 3, got: frame.len() as usize })
    } else {
        body_event(frame[2], frame.skip(3))
    }
}

/// The length that the frame at the start of `packet` declares.
pub open spec fn declared_len(packet: Seq<u8>) -> nat {
    packet[0] as nat * 256 + packet[1] as nat
}

/// Whether `packet` starts with a whole frame.
pub open spec fn starts_with_frame(packet: Seq<u8>) -> bool {
    packet.len() >= 2 && declared_len(packet) >= 2 && 2 + declared_len(packet) <= packet.len()
}

/// The frames of a packet, up to the first place where no whole frame stands.
pub open spec fn packet_frames(packet: Seq<u8>) -> Seq<Seq<u8>>
    decreases packet.len(),
{
    if starts_with_frame(packet) {
        let n = 2 + declared_len(packet);
        seq![packet.subrange(0, n as int)] + packet_frames(packet.skip(n as int))
    } else {
        Seq::empty()
    }
}

/// What the frames of a packet stand for, in order.
pub open spec fn packet_events(packet: Seq<u8>) -> Seq<Result<ItchEvent, ProtocolError>> {
    packet_frames(packet).map_values(|frame: Seq<u8>| message_event(frame))
}

/// Whether a packet is made of whole frames and nothing else.
pub open spec fn fully_framed(packet: Seq<u8>) -> bool
    decreases packet.len(),
{
    packet.len() == 0 || (starts_with_frame(packet) && fully_framed(
        packet.skip(2 + declared_len(packet) as int),
    ))
}

/// A number whose bytes are split in two.
proof fn lemma_be_value_split_4(a: Seq<u8>, b: Seq<u8>)
    requires
        b.len() == 4,
    ensures
        be_value(a + b) == be_value(a) * 0x1_0000_0000 + be_value(b),
{
    reveal_with_fuel(be_value, 5);
    let s4 = a + b;
    let s3 = s4.drop_last();
    let s2 = s3.drop_last();
    let s1 = s2.drop_last();
    assert(s1.drop_last() =~= a);
    let b3 = b.drop_last();
    let b2 = b3.drop_last();
    let b1 = b2.drop_last();
    assert(b1.drop_last() =~= Seq::empty());
}

fn u16_at(body: &[u8], at: usize) -> (x: u16)
    requires
        at + 2 <= body@.len(),
    ensures
        x as nat == number_at(body@, at as int, 2),
{
    assert(at + 2 <= body.len());
    let field = slice_subrange(body, at, at + 2);
    assert(field@.subrange(0, 2) =~= body@.subrange(at as int, at + 2));
    read_be_u16(field)
}

fn u32_at(body: &[u8], at: usize) -> (x: u32)
    requires
        at + 4 <= body@.len(),
    ensures
        x as nat == number_at(body@, at as int, 4),
{
    assert(at + 4 <= body.len());
    let field = slice_subrange(body, at, at + 4);
    assert(field@.subrange(0, 4) =~= body@.subrange(at as int, at + 4));
    read_be_u32(field)
}

fn u64_at(body: &[u8], at: usize) -> (x: u64)
    requires
        at + 8 <= body@.len(),
    ensures
        x as nat == number_at(body@, at as int, 8),
{
    assert(at + 8 <= body.len());
    let field = slice_subrange(body, at, at + 8);
    assert(field@.subrange(0, 8) =~= body@.subrange(at as int, at + 8));
    read_be_u64(field)
}

fn time_at_start(body: &[u8]) -> (t: u64)
    requires
        body@.len() >= 6,
    ensures
        t == number_at(body@, 0, 6),
{
    let high: u64 = u16_at(body, 0) as u64;
    let low: u64 = u32_at(body, 2) as u64;
    proof {
        lemma_be_value_split_4(body@.subrange(0, 2), body@.subrange(2, 6));
        assert(body@.subrange(0, 2) + body@.subrange(2, 6) =~= body@.subrange(0, 6));
    }
    high * 0x1_0000_0000 + low
}

fn insufficient_data(expected: usize, body: &[u8]) -> (r: Result<ItchEvent, ProtocolError>)
    ensures
        r == insufficient(expected, body@),
{
    Err(ProtocolError::InsufficientData { expected, got: body.len() })
}

pub struct ItchParser;

impl ItchParser {
    pub fn new() -> (p: Self)
        ensures
            p == ItchParser,
    {
        ItchParser
    }

    /// The event that a frame stands for.
    pub fn parse_message(&self, data: &[u8]) -> (r: Result<ItchEvent, ProtocolError>)
        ensures
            r == message_event(data@),
    {
        if data.len() < 3 {
            return Err(ProtocolError::InsufficientData { expected: 3, got: data.len() });
        }
        let msg_type: u8 = data[2];
        let body = slice_subrange(data, 3, data.len());
        assert(body@ =~= data@.skip(3));
        if msg_type == KIND_ADD_ORDER {
            self.parse_add_order(body, false)
        } else if msg_type == KIND_ADD_ORDER_MPID {
            self.parse_add_order(body, true)
        } else if msg_type == KIND_ORDER_EXECUTED {
            self.parse_order_executed(body, false)
        } else if msg_type == KIND_ORDER_EXECUTED_PRICE {
            self.parse_order_executed(body, true)
        } else if msg_type == KIND_ORDER_CANCEL {
            self.parse_order_cancel(body)
        } else if msg_type == KIND_ORDER_DELETE {
            self.parse_order_delete(body)
        } else if msg_type == KIND_ORDER_REPLACE {
            self.parse_order_replace(body)
        } else if msg_type == KIND_STOCK_DIRECTORY {
            self.parse_stock_directory(body)
        } else if msg_type == KIND_SYSTEM_EVENT {
            self.parse_system_event(body)
        } else {
            Err(ProtocolError::InvalidMessageType(msg_type))
        }
    }

    fn parse_add_order(&self, body: &[u8], with_mpid: bool) -> (r: Result<
        ItchEvent,
        ProtocolError,
    >)
        ensures
            r == add_order_event(body@, with_mpid),
    {
        let expected: usize = if with_mpid { 36 } else { 32 };
        if body.len() < expected {
            return insufficient_data(expected, body);
        }
        let timestamp: u64 = time_at_start(body);
        let order_ref: u64 = u64_at(body, 6);
        match Side::from_byte(body[14]) {
            Err(e) => Err(e),
            Ok(side) => {
                let shares: u32 = u32_at(body, 15);
                let stock: u64 = u64_at(body, 19);
                let price: u64 = u32_at(body, 27) as u64;
                if with_mpid {
                    let mpid: u32 = u32_at(body, 31);
                    Ok(
                        ItchEvent::AddOrderMpid {
                            timestamp,
                            order_ref,
                            side,
                            shares,
                            stock,
                            price,
                            mpid,
                        },
                    )
                } else {
                    Ok(ItchEvent::AddOrder { timestamp, order_ref, side, shares, stock, price })
                }
            },
        }
    }

    fn parse_order_executed(&self, body: &[u8], with_price: bool) -> (r: Result<
        ItchEvent,
        ProtocolError,
    >)
        ensures
            r == order_executed_event(body@, with_price),
    {
        let expected: usize = if with_price { 31 } else { 26 };
        if body.len() < expected {
            return insufficient_data(expected, body);
        }
        let timestamp: u64 = time_at_start(body);
        let order_ref: u64 = u64_at(body, 6);
        let shares: u32 = u32_at(body, 14);
        let match_number: u64 = u64_at(body, 18);
        if with_price {
            let printable: bool = body[26] == BYTE_YES;
            let price: u64 = u32_at(body, 27) as u64;
            Ok(
                ItchEvent::OrderExecutedPrice {
                    timestamp,
                    order_ref,
                    shares,
                    match_number,
                    printable,
                    price,
                },
            )
        } else {
            Ok(ItchEvent::OrderExecuted { timestamp, order_ref, shares, match_number })
        }
    }

    fn parse_order_cancel(&self, body: &[u8]) -> (r: Result<ItchEvent, ProtocolError>)
        ensures
            r == order_cancel_event(body@),
    {
        if body.len() < 22 {
            return insufficient_data(22, body);
        }
        let timestamp: u64 = time_at_start(body);
        let order_ref: u64 = u64_at(body, 6);
        let shares: u32 = u32_at(body, 14);
        Ok(ItchEvent::OrderCancel { timestamp, order_ref, shares })
    }

    fn parse_order_delete(&self, body: &[u8]) -> (r: Result<ItchEvent, ProtocolError>)
        ensures
            r == order_delete_event(body@),
    {
        if body.len() < 18 {
            return insufficient_data(18, body);
        }
        let timestamp: u64 = time_at_start(body);
        let order_ref: u64 = u64_at(body, 6);
        Ok(ItchEvent::OrderDelete { timestamp, order_ref })
    }

    fn parse_order_replace(&self, body: &[u8]) -> (r: Result<ItchEvent, ProtocolError>)
        ensures
            r == order_replace_event(body@),
    {
        if body.len() < 34 {
            return insufficient_data(34, body);
        }
        let timestamp: u64 = time_at_start(body);
        let order_ref: u64 = u64_at(body, 6);
        let new_order_ref: u64 = u64_at(body, 14);
        let shares: u32 = u32_at(body, 22);
        let price: u64 = u32_at(body, 26) as u64;
        Ok(ItchEvent::OrderReplace { timestamp, order_ref, new_order_ref, shares, price })
    }

    fn parse_stock_directory(&self, body: &[u8]) -> (r: Result<ItchEvent, ProtocolError>)
        ensures
            r == stock_directory_event(body@),
    {
        if body.len() < 39 {
            return insufficient_data(39, body);
        }
        let timestamp: u64 = time_at_start(body);
        let stock: u64 = u64_at(body, 6);
        let market_category: u8 = body[14];
        let financial_status: u8 = body[15];
        let round_lot_size: u32 = u32_at(body, 16);
        let round_lots_only: bool = body[20] == BYTE_YES;
        let issue_classification: u8 = body[21];
        Ok(
            ItchEvent::StockDirectory {
                timestamp,
                stock,
                market_category,
                financial_status,
                round_lot_size,
                round_lots_only,
                issue_classification,
            },
        )
    }

    fn parse_system_event(&self, body: &[u8]) -> (r: Result<ItchEvent, ProtocolError>)
        ensures
            r == system_event(body@),
    {
        if body.len() < 11 {
            return insufficient_data(11, body);
        }
        let timestamp: u64 = time_at_start(body);
        let event_code: u8 = body[6];
        Ok(ItchEvent::SystemEvent { timestamp, event_code })
    }

    /// The events of a packet, frame by frame. The walk ends where no whole frame
    /// stands; a frame that does not parse gives an error and the walk goes on.
    pub fn parse_multicast_packet(&self, packet: &[u8]) -> (r: Vec<
        Result<ItchEvent, ProtocolError>,
    >)
        ensures
            r@ == packet_events(packet@),
    {
        let mut events: Vec<Result<ItchEvent, ProtocolError>> = Vec::new();
        let mut offset: usize = 0;
        let mut done: bool = false;
        proof {
            assert(packet@.skip(0) =~= packet@);
            assert(events@ + packet_events(packet@) =~= packet_events(packet@));
        }
        while !done
            invariant
                offset <= packet@.len(),
                packet_events(packet@) == events@ + (if done {
                    Seq::empty()
                } else {
                    packet_events(packet@.skip(offset as int))
                }),
            decreases packet@.len() - offset + (if done { 0int } else { 1int }),
        {
            let ghost rest = packet@.skip(offset as int);
            if packet.len() - offset < 2 {
                done = true;
                assert(packet_events(rest) =~= Seq::empty());
            } else {
                let len: usize = packet[offset] as usize * 256 + packet[offset + 1] as usize;
                assert(len == declared_len(rest));
                if len < 2 || len > packet.len() - offset - 2 {
                    done = true;
                    assert(packet_events(rest) =~= Seq::empty());
                } else {
                    let frame = slice_subrange(packet, offset, offset + 2 + len);
                    let ghost before = events@;
                    events.push(self.parse_message(frame));
                    offset = offset + 2 + len;
                    proof {
                        let n = 2 + len as int;
                        assert(frame@ =~= rest.subrange(0, n));
                        assert(packet@.skip(offset as int) =~= rest.skip(n));
                        assert(packet_events(rest) =~= seq![message_event(frame@)] + packet_events(
                            rest.skip(n),
                        ));
                        assert(before + packet_events(rest) =~= events@ + packet_events(
                            rest.skip(n),
                        ));
                    }
                }
            }
        }
        assert(events@ + Seq::<Result<ItchEvent, ProtocolError>>::empty() =~= events@);
        events
    }
}

impl Default for ItchParser {
    fn default() -> (p: Self)
        ensures
            p == ItchParser,
    {
        ItchParser::new()
    }
}

/// A packet made of whole frames can be split anywhere between two of them: the
/// events of two packets, one after the other, are those of the first and then
/// those of the second.
pub proof fn lemma_packets_join(first: Seq<u8>, second: Seq<u8>)
    requires
        fully_framed(first),
    ensures
        packet_events(first + second) == packet_events(first) + packet_events(second),
{
    lemma_frames_join(first, second);
    assert(packet_events(first + second) =~= packet_events(first) + packet_events(second));
}

proof fn lemma_frames_join(first: Seq<u8>, second: Seq<u8>)
    requires
        fully_framed(first),
    ensures
        packet_frames(first + second) == packet_frames(first) + packet_frames(second),
    decreases first.len(),
{
    if first.len() == 0 {
        assert(first + second =~= second);
        assert(packet_frames(first) =~= Seq::empty());
        assert(packet_frames(first) + packet_frames(second) =~= packet_frames(second));
    } else {
        let n = 2 + declared_len(first) as int;
        let whole = first + second;
        assert(declared_len(whole) == declared_len(first));
        assert(whole.subrange(0, n) =~= first.subrange(0, n));
        assert(whole.skip(n) =~= first.skip(n) + second);
        lemma_frames_join(first.skip(n), second);
        assert(packet_frames(whole) =~= packet_frames(first) + packet_frames(second));
    }
}

/// Times take six bytes: no event that comes out of the parser lies past that.
pub proof fn lemma_parsed_times_are_48_bits(frame: Seq<u8>)
    ensures
        message_event(frame) matches Ok(event) ==> event.time() < 0x1_0000_0000_0000,
{
    if message_event(frame) is Ok {
        let head = frame.skip(3).subrange(0, 6);
        reveal_with_fuel(be_value, 7);
        let h5 = head.drop_last();
        let h4 = h5.drop_last();
        let h3 = h4.drop_last();
        let h2 = h3.drop_last();
        let h1 = h2.drop_last();
        assert(h1.drop_last().len() == 0);
        assert(be_value(head) < 0x1_0000_0000_0000);
    }
}

/// What follows the fields of a message does not matter: a frame that parses
/// still gives the same event when more bytes stand behind it.
pub proof fn lemma_trailing_bytes_ignored(frame: Seq<u8>, extra: Seq<u8>)
    requires
        message_event(frame) is Ok,
    ensures
        message_event(frame + extra) == message_event(frame),
{
    let short = frame.skip(3);
    let long = (frame + extra).skip(3);
    assert forall|at: int, n: int| 0 <= at && 0 <= n && at + n <= short.len() implies #[trigger]
        number_at(long, at, n) == number_at(short, at, n) by {
        assert(long.subrange(at, at + n) =~= short.subrange(at, at + n));
    }
}

/// Every event bears its own time.
pub proof fn lemma_every_event_bears_its_time(event: ItchEvent)
    ensures
        event matches ItchEvent::AddOrder { timestamp, .. } ==> event.time() == timestamp,
        event matches ItchEvent::AddOrderMpid { timestamp, .. } ==> event.time() == timestamp,
        event matches ItchEvent::OrderExecuted { timestamp, .. } ==> event.time() == timestamp,
        event matches ItchEvent::OrderExecutedPrice { timestamp, .. } ==> event.time()
            == timestamp,
        event matches ItchEvent::OrderCancel { timestamp, .. } ==> event.time() == timestamp,
        event matches ItchEvent::OrderDelete { timestamp, .. } ==> event.time() == timestamp,
        event matches ItchEvent::OrderReplace { timestamp, .. } ==> event.time() == timestamp,
        event matches ItchEvent::StockDirectory { timestamp, .. } ==> event.time() == timestamp,
        event matches ItchEvent::SystemEvent { timestamp, .. } ==> event.time() == timestamp,
{
}

/// The letter `B` is the buy side and `S` the sell side; any other byte is refused and
/// named.
pub proof fn lemma_two_letters_name_a_side(b: u8)
    ensures
        b == 66 ==> side_of_byte(b) == Ok::<Side, ProtocolError>(Side::Buy),
        b == 83 ==> side_of_byte(b) == Ok::<Side, ProtocolError>(Side::Sell),
        b != 66 && b != 83 ==> side_of_byte(b) == Err::<Side, ProtocolError>(
            ProtocolError::InvalidMessageType(b),
        ),
{
}

/// A packet is cut from the front: two bytes say how many follow in the frame, the more
/// significant first. Where fewer than two are said, or more than there are, and where
/// not even two bytes are left, the packet gives nothing more.
pub proof fn lemma_packet_is_cut_from_the_front(packet: Seq<u8>)
    ensures
        packet.len() < 2 ==> packet_events(packet).len() == 0,
        packet.len() >= 2 ==> {
            let n = 2 + 256 * packet[0] + packet[1];
            if 4 <= n <= packet.len() {
                packet_events(packet) == seq![message_event(packet.take(n))] + packet_events(
                    packet.skip(n),
                )
            } else {
                packet_events(packet).len() == 0
            }
        },
{
    if packet.len() >= 2 {
        let n = 2 + 256 * packet[0] + packet[1];
        assert(declared_len(packet) == n - 2);
        if 4 <= n <= packet.len() {
            assert(packet.subrange(0, n) =~= packet.take(n));
            assert(packet_events(packet) =~= seq![message_event(packet.take(n))] + packet_events(
                packet.skip(n),
            ));
        }
    }
}

/// Whether a body was too short for its kind, which asks for `least` bytes.
pub open spec fn refused_as_short(
    r: Result<ItchEvent, ProtocolError>,
    least: usize,
    body: Seq<u8>,
) -> bool {
    r matches Err(ProtocolError::InsufficientData { expected, got }) && expected == least && got
        == body.len() as usize
}

/// The third byte of a message is its kind and the others behind it are its body. A
/// message of fewer than three bytes is refused as short, one of an unknown kind by
/// naming the kind.
pub proof fn lemma_message_has_a_kind(frame: Seq<u8>)
    ensures
        frame.len() < 3 ==> refused_as_short(message_event(frame), 3, frame),
        frame.len() >= 3 ==> message_event(frame) == body_event(frame[2], frame.skip(3)),
        frame.len() >= 3 && frame[2] != 65 && frame[2] != 70 && frame[2] != 69 && frame[2] != 67
            && frame[2] != 88 && frame[2] != 68 && frame[2] != 85 && frame[2] != 82 && frame[2]
            != 83 ==> message_event(frame) == Err::<ItchEvent, ProtocolError>(
            ProtocolError::InvalidMessageType(frame[2]),
        ),
{
}

/// The letters `A` and `F` bring a new order, read field by field from its body, the
/// second with the participant's identifier. A body shorter than 32 or 36 bytes is
/// refused, and so is a side that is neither `B` nor `S`.
pub proof fn lemma_new_orders_are_read(body: Seq<u8>)
    ensures
        body.len() < 32 ==> refused_as_short(body_event(65, body), 32, body),
        body.len() < 36 ==> refused_as_short(body_event(70, body), 36, body),
        body.len() >= 32 && body[14] != 66 && body[14] != 83 ==> body_event(65, body) == Err::<
            ItchEvent,
            ProtocolError,
        >(ProtocolError::InvalidMessageType(body[14])),
        body.len() >= 36 && body[14] != 66 && body[14] != 83 ==> body_event(70, body) == Err::<
            ItchEvent,
            ProtocolError,
        >(ProtocolError::InvalidMessageType(body[14])),
        body.len() >= 32 && (body[14] == 66 || body[14] == 83) ==> {
            body_event(65, body) matches Ok(ItchEvent::AddOrder {
                timestamp,
                order_ref,
                side,
                shares,
                stock,
                price,
            }) && {
                &&& timestamp == be_value(body.subrange(0, 6)) as u64
                &&& order_ref == be_value(body.subrange(6, 14)) as u64
                &&& side == Side::Buy <==> body[14] == 66
                &&& shares == be_value(body.subrange(15, 19)) as u32
                &&& stock == be_value(body.subrange(19, 27)) as u64
                &&& price == be_value(body.subrange(27, 31)) as u64
            }
        },
        body.len() >= 36 && (body[14] == 66 || body[14] == 83) ==> {
            body_event(70, body) matches Ok(ItchEvent::AddOrderMpid {
                timestamp,
                order_ref,
                side,
                shares,
                stock,
                price,
                mpid,
            }) && {
                &&& timestamp == be_value(body.subrange(0, 6)) as u64
                &&& order_ref == be_value(body.subrange(6, 14)) as u64
                &&& side == Side::Buy <==> body[14] == 66
                &&& shares == be_value(body.subrange(15, 19)) as u32
                &&& stock == be_value(body.subrange(19, 27)) as u64
                &&& price == be_value(body.subrange(27, 31)) as u64
                &&& mpid == be_value(body.subrange(31, 35)) as u32
            }
        },
{
}

/// The letters `E` and `C` bring an execution, the second with a flag, set by `Y`, and a
/// price of its own. A body shorter than 26 or 31 bytes is refused.
pub proof fn lemma_executions_are_read(body: Seq<u8>)
    ensures
        body.len() < 26 ==> refused_as_short(body_event(69, body), 26, body),
        body.len() < 31 ==> refused_as_short(body_event(67, body), 31, body),
        body.len() >= 26 ==> {
            body_event(69, body) matches Ok(ItchEvent::OrderExecuted {
                timestamp,
                order_ref,
                shares,
                match_number,
            }) && {
                &&& timestamp == be_value(body.subrange(0, 6)) as u64
                &&& order_ref == be_value(body.subrange(6, 14)) as u64
                &&& shares == be_value(body.subrange(14, 18)) as u32
                &&& match_number == be_value(body.subrange(18, 26)) as u64
            }
        },
        body.len() >= 31 ==> {
            body_event(67, body) matches Ok(ItchEvent::OrderExecutedPrice {
                timestamp,
                order_ref,
                shares,
                match_number,
                printable,
                price,
            }) && {
                &&& timestamp == be_value(body.subrange(0, 6)) as u64
                &&& order_ref == be_value(body.subrange(6, 14)) as u64
                &&& shares == be_value(body.subrange(14, 18)) as u32
                &&& match_number == be_value(body.subrange(18, 26)) as u64
                &&& printable <==> body[26] == 89
                &&& price == be_value(body.subrange(27, 31)) as u64
            }
        },
{
}

/// The letters `X`, `D` and `U` bring a cancellation, a deletion and a replacement. A
/// body shorter than 22, 18 or 34 bytes is refused.
pub proof fn lemma_changes_are_read(body: Seq<u8>)
    ensures
        body.len() < 22 ==> refused_as_short(body_event(88, body), 22, body),
        body.len() < 18 ==> refused_as_short(body_event(68, body), 18, body),
        body.len() < 34 ==> refused_as_short(body_event(85, body), 34, body),
        body.len() >= 22 ==> {
            body_event(88, body) matches Ok(ItchEvent::OrderCancel {
                timestamp,
                order_ref,
                shares,
            }) && {
                &&& timestamp == be_value(body.subrange(0, 6)) as u64
                &&& order_ref == be_value(body.subrange(6, 14)) as u64
                &&& shares == be_value(body.subrange(14, 18)) as u32
            }
        },
        body.len() >= 18 ==> {
            body_event(68, body) matches Ok(ItchEvent::OrderDelete { timestamp, order_ref }) && {
                &&& timestamp == be_value(body.subrange(0, 6)) as u64
                &&& order_ref == be_value(body.subrange(6, 14)) as u64
            }
        },
        body.len() >= 34 ==> {
            body_event(85, body) matches Ok(ItchEvent::OrderReplace {
                timestamp,
                order_ref,
                new_order_ref,
                shares,
                price,
            }) && {
                &&& timestamp == be_value(body.subrange(0, 6)) as u64
                &&& order_ref == be_value(body.subrange(6, 14)) as u64
                &&& new_order_ref == be_value(body.subrange(14, 22)) as u64
                &&& shares == be_value(body.subrange(22, 26)) as u32
                &&& price == be_value(body.subrange(26, 30)) as u64
            }
        },
{
}

/// The letters `R` and `S` bring a stock of the directory, with a flag set by `Y`, and an
/// event of the feed. A body shorter than 39 or 11 bytes is refused.
pub proof fn lemma_notices_are_read(body: Seq<u8>)
    ensures
        body.len() < 39 ==> refused_as_short(body_event(82, body), 39, body),
        body.len() < 11 ==> refused_as_short(body_event(83, body), 11, body),
        body.len() >= 39 ==> {
            body_event(82, body) matches Ok(ItchEvent::StockDirectory {
                timestamp,
                stock,
                market_category,
                financial_status,
                round_lot_size,
                round_lots_only,
                issue_classification,
            }) && {
                &&& timestamp == be_value(body.subrange(0, 6)) as u64
                &&& stock == be_value(body.subrange(6, 14)) as u64
                &&& market_category == body[14]
                &&& financial_status == body[15]
                &&& round_lot_size == be_value(body.subrange(16, 20)) as u32
                &&& round_lots_only <==> body[20] == 89
                &&& issue_classification == body[21]
            }
        },
        body.len() >= 11 ==> {
            body_event(83, body) matches Ok(ItchEvent::SystemEvent { timestamp, event_code }) && {
                &&& timestamp == be_value(body.subrange(0, 6)) as u64
                &&& event_code == body[6]
            }
        },
{
}

} // verus!

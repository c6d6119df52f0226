//! How events stand on the wire, and that the parser reads them back.
use crate::protocol::{body_event, declared_len, fully_framed, message_event, packet_events, packet_frames,
    ItchEvent, ProtocolError, Side, BYTE_BUY, BYTE_SELL, BYTE_YES, KIND_ADD_ORDER,
    KIND_ADD_ORDER_MPID, KIND_ORDER_CANCEL, KIND_ORDER_DELETE, KIND_ORDER_EXECUTED,
    KIND_ORDER_EXECUTED_PRICE, KIND_ORDER_REPLACE, KIND_STOCK_DIRECTORY, KIND_SYSTEM_EVENT};
use crate::wire::{be_bytes, be_value, lemma_be_fields_round_trip};
use vstd::prelude::*;

verus! {

/// `N`, a flag that is not set.
pub const BYTE_NO: u8 = 0x4E;

pub open spec fn side_byte(side: Side) -> u8 {
    match side {
        Side::Buy => BYTE_BUY,
        Side::Sell => BYTE_SELL,
    }
}

pub open spec fn flag_byte(set: bool) -> u8 {
    if set {
        BYTE_YES
    } else {
        BYTE_NO
    }
}

/// The kind of message that an event is sent as.
pub open spec fn kind_of(event: ItchEvent) -> u8 {
    match event {
        ItchEvent::AddOrder { .. } => KIND_ADD_ORDER,
        ItchEvent::AddOrderMpid { .. } => KIND_ADD_ORDER_MPID,
        ItchEvent::OrderExecuted { .. } => KIND_ORDER_EXECUTED,
        ItchEvent::OrderExecutedPrice { .. } => KIND_ORDER_EXECUTED_PRICE,
        ItchEvent::OrderCancel { .. } => KIND_ORDER_CANCEL,
        ItchEvent::OrderDelete { .. } => KIND_ORDER_DELETE,
        ItchEvent::OrderReplace { .. } => KIND_ORDER_REPLACE,
        ItchEvent::StockDirectory { .. } => KIND_STOCK_DIRECTORY,
        ItchEvent::SystemEvent { .. } => KIND_SYSTEM_EVENT,
    }
}

/// The fields of an event, one after the other. Times take six bytes and prices
/// four.
pub open spec fn fields_of(event: ItchEvent) -> Seq<u8> {
    let time = be_bytes(event.time() as nat, 6);
    match event {
        ItchEvent::AddOrder { order_ref, side, shares, stock, price, .. } => time + be_bytes(
            order_ref as nat,
            8,
        ) + seq![side_byte(side)] + be_bytes(shares as nat, 4) + be_bytes(stock as nat, 8)
            + be_bytes(price as nat, 4),
        ItchEvent::AddOrderMpid { order_ref, side, shares, stock, price, mpid, .. } => time
            + be_bytes(order_ref as nat, 8) + seq![side_byte(side)] + be_bytes(shares as nat, 4)
            + be_bytes(stock as nat, 8) + be_bytes(price as nat, 4) + be_bytes(mpid as nat, 4),
        ItchEvent::OrderExecuted { order_ref, shares, match_number, .. } => time + be_bytes(
            order_ref as nat,
            8,
        ) + be_bytes(shares as nat, 4) + be_bytes(match_number as nat, 8),
        ItchEvent::OrderExecutedPrice { order_ref, shares, match_number, printable, price, .. } =>
        time + be_bytes(order_ref as nat, 8) + be_bytes(shares as nat, 4) + be_bytes(
            match_number as nat,
            8,
        ) + seq![flag_byte(printable)] + be_bytes(price as nat, 4),
        ItchEvent::OrderCancel { order_ref, shares, .. } => time + be_bytes(order_ref as nat, 8)
            + be_bytes(shares as nat, 4),
        ItchEvent::OrderDelete { order_ref, .. } => time + be_bytes(order_ref as nat, 8),
        ItchEvent::OrderReplace { order_ref, new_order_ref, shares, price, .. } => time + be_bytes(
            order_ref as nat,
            8,
        ) + be_bytes(new_order_ref as nat, 8) + be_bytes(shares as nat, 4) + be_bytes(
            price as nat,
            4,
        ),
        ItchEvent::StockDirectory {
            stock,
            market_category,
            financial_status,
            round_lot_size,
            round_lots_only,
            issue_classification,
            ..
        } => time + be_bytes(stock as nat, 8) + seq![market_category, financial_status] + be_bytes(
            round_lot_size as nat,
            4,
        ) + seq![flag_byte(round_lots_only), issue_classification],
        ItchEvent::SystemEvent { event_code, .. } => time + seq![event_code],
    }
}

/// How many bytes a body has to have at least. Most are longer than their fields.
pub open spec fn least_body_len(event: ItchEvent) -> nat {
    match event {
        ItchEvent::AddOrder { .. } => 32,
        ItchEvent::AddOrderMpid { .. } => 36,
        ItchEvent::OrderExecuted { .. } => 26,
        ItchEvent::OrderExecutedPrice { .. } => 31,
        ItchEvent::OrderCancel { .. } => 22,
        ItchEvent::OrderDelete { .. } => 18,
        ItchEvent::OrderReplace { .. } => 34,
        ItchEvent::StockDirectory { .. } => 39,
        ItchEvent::SystemEvent { .. } => 11,
    }
}

/// The price of an event that has one on the wire, zero for any other.
pub open spec fn price_of(event: ItchEvent) -> u64 {
    match event {
        ItchEvent::AddOrder { price, .. } => price,
        ItchEvent::AddOrderMpid { price, .. } => price,
        ItchEvent::OrderExecutedPrice { price, .. } => price,
        ItchEvent::OrderReplace { price, .. } => price,
        _ => 0,
    }
}

/// Whether an event's time and price fit in their fields.
pub open spec fn fits(event: ItchEvent) -> bool {
    event.time() < 0x1_0000_0000_0000 && price_of(event) < 0x1_0000_0000
}

/// A message with the given kind and body: its length, the kind, and the body.
pub open spec fn frame_of(kind: u8, body: Seq<u8>) -> Seq<u8> {
    be_bytes(body.len() + 1, 2) + seq![kind] + body
}

proof fn lemma_add_order_reads_back(event: ItchEvent, rest: Seq<u8>)
    requires
        event is AddOrder || event is AddOrderMpid,
        fits(event),
        fields_of(event).len() + rest.len() >= least_body_len(event),
    ensures
        body_event(kind_of(event), fields_of(event) + rest) == Ok::<ItchEvent, ProtocolError>(event),
{
    let body = fields_of(event) + rest;
    let (order_ref, side, shares, stock, price, mpid) = match event {
        ItchEvent::AddOrder { order_ref, side, shares, stock, price, .. } => (
            order_ref,
            side,
            shares,
            stock,
            price,
            0u32,
        ),
        ItchEvent::AddOrderMpid { order_ref, side, shares, stock, price, mpid, .. } => (
            order_ref,
            side,
            shares,
            stock,
            price,
            mpid,
        ),
        _ => (0, Side::Buy, 0, 0, 0, 0),
    };
    let t = event.time() as nat;
    lemma_be_fields_round_trip(0, shares as nat, t, order_ref as nat);
    lemma_be_fields_round_trip(0, price as nat, t, stock as nat);
    lemma_be_fields_round_trip(0, mpid as nat, t, stock as nat);
    assert(body.subrange(0, 6) =~= be_bytes(t, 6));
    assert(body.subrange(6, 14) =~= be_bytes(order_ref as nat, 8));
    assert(body[14] == side_byte(side));
    assert(body.subrange(15, 19) =~= be_bytes(shares as nat, 4));
    assert(body.subrange(19, 27) =~= be_bytes(stock as nat, 8));
    assert(body.subrange(27, 31) =~= be_bytes(price as nat, 4));
    if event is AddOrderMpid {
        assert(body.subrange(31, 35) =~= be_bytes(mpid as nat, 4));
    }
}

proof fn lemma_execution_reads_back(event: ItchEvent, rest: Seq<u8>)
    requires
        event is OrderExecuted || event is OrderExecutedPrice,
        fits(event),
    ensures
        body_event(kind_of(event), fields_of(event) + rest) == Ok::<ItchEvent, ProtocolError>(event),
{
    let body = fields_of(event) + rest;
    let (order_ref, shares, match_number, price) = match event {
        ItchEvent::OrderExecuted { order_ref, shares, match_number, .. } => (
            order_ref,
            shares,
            match_number,
            0u64,
        ),
        ItchEvent::OrderExecutedPrice { order_ref, shares, match_number, price, .. } => (
            order_ref,
            shares,
            match_number,
            price,
        ),
        _ => (0, 0, 0, 0),
    };
    let t = event.time() as nat;
    lemma_be_fields_round_trip(0, shares as nat, t, order_ref as nat);
    lemma_be_fields_round_trip(0, price as nat, t, match_number as nat);
    assert(body.subrange(0, 6) =~= be_bytes(t, 6));
    assert(body.subrange(6, 14) =~= be_bytes(order_ref as nat, 8));
    assert(body.subrange(14, 18) =~= be_bytes(shares as nat, 4));
    assert(body.subrange(18, 26) =~= be_bytes(match_number as nat, 8));
    match event {
        ItchEvent::OrderExecutedPrice { printable, .. } => {
            assert(body[26] == flag_byte(printable));
            assert(body.subrange(27, 31) =~= be_bytes(price as nat, 4));
        },
        _ => {},
    }
}

proof fn lemma_change_reads_back(event: ItchEvent, rest: Seq<u8>)
    requires
        event is OrderCancel || event is OrderDelete || event is OrderReplace,
        fits(event),
        fields_of(event).len() + rest.len() >= least_body_len(event),
    ensures
        body_event(kind_of(event), fields_of(event) + rest) == Ok::<ItchEvent, ProtocolError>(event),
{
    let body = fields_of(event) + rest;
    let t = event.time() as nat;
    match event {
        ItchEvent::OrderCancel { order_ref, shares, .. } => {
            lemma_be_fields_round_trip(0, shares as nat, t, order_ref as nat);
            assert(body.subrange(0, 6) =~= be_bytes(t, 6));
            assert(body.subrange(6, 14) =~= be_bytes(order_ref as nat, 8));
            assert(body.subrange(14, 18) =~= be_bytes(shares as nat, 4));
        },
        ItchEvent::OrderDelete { order_ref, .. } => {
            lemma_be_fields_round_trip(0, 0, t, order_ref as nat);
            assert(body.subrange(0, 6) =~= be_bytes(t, 6));
            assert(body.subrange(6, 14) =~= be_bytes(order_ref as nat, 8));
        },
        ItchEvent::OrderReplace { order_ref, new_order_ref, shares, price, .. } => {
            lemma_be_fields_round_trip(0, shares as nat, t, order_ref as nat);
            lemma_be_fields_round_trip(0, price as nat, t, new_order_ref as nat);
            assert(body.subrange(0, 6) =~= be_bytes(t, 6));
            assert(body.subrange(6, 14) =~= be_bytes(order_ref as nat, 8));
            assert(body.subrange(14, 22) =~= be_bytes(new_order_ref as nat, 8));
            assert(body.subrange(22, 26) =~= be_bytes(shares as nat, 4));
            assert(body.subrange(26, 30) =~= be_bytes(price as nat, 4));
        },
        _ => {},
    }
}

proof fn lemma_notice_reads_back(event: ItchEvent, rest: Seq<u8>)
    requires
        event is StockDirectory || event is SystemEvent,
        fits(event),
        fields_of(event).len() + rest.len() >= least_body_len(event),
    ensures
        body_event(kind_of(event), fields_of(event) + rest) == Ok::<ItchEvent, ProtocolError>(event),
{
    let body = fields_of(event) + rest;
    let t = event.time() as nat;
    match event {
        ItchEvent::StockDirectory {
            stock,
            market_category,
            financial_status,
            round_lot_size,
            round_lots_only,
            issue_classification,
            ..
        } => {
            lemma_be_fields_round_trip(0, round_lot_size as nat, t, stock as nat);
            assert(body.subrange(0, 6) =~= be_bytes(t, 6));
            assert(body.subrange(6, 14) =~= be_bytes(stock as nat, 8));
            assert(body[14] == market_category);
            assert(body[15] == financial_status);
            assert(body.subrange(16, 20) =~= be_bytes(round_lot_size as nat, 4));
            assert(body[20] == flag_byte(round_lots_only));
            assert(body[21] == issue_classification);
        },
        ItchEvent::SystemEvent { event_code, .. } => {
            lemma_be_fields_round_trip(0, 0, t, 0);
            assert(body.subrange(0, 6) =~= be_bytes(t, 6));
            assert(body[6] == event_code);
        },
        _ => {},
    }
}

/// Parsing undoes encoding, for every kind of event: a body that starts with the
/// fields of an event and is as long as its kind asks is read as that event,
/// whatever follows the fields.
pub proof fn lemma_parsing_undoes_encoding(event: ItchEvent, rest: Seq<u8>)
    requires
        fits(event),
        fields_of(event).len() + rest.len() >= least_body_len(event),
    ensures
        body_event(kind_of(event), fields_of(event) + rest) == Ok::<ItchEvent, ProtocolError>(event),
{
    match event {
        ItchEvent::AddOrder { .. } => lemma_add_order_reads_back(event, rest),
        ItchEvent::AddOrderMpid { .. } => lemma_add_order_reads_back(event, rest),
        ItchEvent::OrderExecuted { .. } => lemma_execution_reads_back(event, rest),
        ItchEvent::OrderExecutedPrice { .. } => lemma_execution_reads_back(event, rest),
        ItchEvent::OrderCancel { .. } => lemma_change_reads_back(event, rest),
        ItchEvent::OrderDelete { .. } => lemma_change_reads_back(event, rest),
        ItchEvent::OrderReplace { .. } => lemma_change_reads_back(event, rest),
        ItchEvent::StockDirectory { .. } => lemma_notice_reads_back(event, rest),
        ItchEvent::SystemEvent { .. } => lemma_notice_reads_back(event, rest),
    }
}

/// A frame stands for what its body stands for, alone and as a packet.
proof fn lemma_frame_is_cut_out(kind: u8, body: Seq<u8>)
    requires
        1 <= body.len() < 0xffff,
    ensures
        message_event(frame_of(kind, body)) == body_event(kind, body),
        packet_events(frame_of(kind, body)) == seq![body_event(kind, body)],
        fully_framed(frame_of(kind, body)),
{
    let frame = frame_of(kind, body);
    let head = be_bytes(body.len() + 1, 2);
    lemma_be_fields_round_trip(body.len() + 1, 0, 0, 0);
    assert(frame.skip(3) =~= body);
    assert(frame[2] == kind);
    assert(declared_len(frame) == body.len() + 1) by {
        reveal_with_fuel(be_value, 3);
        assert(frame[0] == head[0] && frame[1] == head[1]);
        assert(head.drop_last().drop_last() =~= Seq::empty());
        assert(head.drop_last().last() == head[0]);
    }
    assert(frame.subrange(0, frame.len() as int) =~= frame);
    assert(packet_frames(frame.skip(frame.len() as int)) =~= Seq::empty());
    assert(packet_frames(frame) =~= seq![frame]);
    assert(packet_events(frame) =~= seq![message_event(frame)]);
    assert(fully_framed(frame.skip(frame.len() as int)));
}

/// A message that is framed is read back as its event, alone and as the only one of
/// its packet. It is a whole frame, so that others can follow it.
pub proof fn lemma_framed_event_is_read_back(event: ItchEvent, rest: Seq<u8>)
    requires
        fits(event),
        least_body_len(event) <= fields_of(event).len() + rest.len() < 0xffff,
    ensures
        message_event(frame_of(kind_of(event), fields_of(event) + rest)) == Ok::<
            ItchEvent,
            ProtocolError,
        >(event),
        packet_events(frame_of(kind_of(event), fields_of(event) + rest)) == seq![
            Ok::<ItchEvent, ProtocolError>(event),
        ],
        fully_framed(frame_of(kind_of(event), fields_of(event) + rest)),
{
    lemma_parsing_undoes_encoding(event, rest);
    lemma_frame_is_cut_out(kind_of(event), fields_of(event) + rest);
}

} // verus!

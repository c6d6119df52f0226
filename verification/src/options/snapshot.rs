//! Snapshots of a chain, and their bytes on the wire.
use crate::options::contract::OptionContract;
use crate::orderbook::level::word_at;
use crate::pricing::{OptionType, Real};
use crate::wire::{le_bytes, le_value, le_words, lemma_le_bytes_len, lemma_le_round_trip,
    lemma_le_words_read_back, push_le, put_le};
use arrayvec::ArrayVec;
use vstd::arithmetic::power::pow;
use vstd::prelude::*;

verus! {

pub const MSG_TYPE_SPOT_BBO: u8 = 0;

pub const MSG_TYPE_OPTION_SNAPSHOT: u8 = 1;

pub const MAX_CONTRACTS_PER_CHAIN: usize = 128;

pub const MAX_STRIKES_PER_EXPIRY: usize = 32;

pub const OPTION_CONTRACT_SERIALIZED_SIZE: usize = 121;

pub const OPTION_HEADER_SERIALIZED_SIZE: usize = 1 + 2 + 8 + 8 + 8 + 8 + 8 + 8 + 2;

/// One contract of a snapshot: its quotes and its pricing.
#[derive(Debug, Clone, Copy)]
pub struct OptionContractSnapshot {
    pub contract: OptionContract,
    pub bid_price: u64,
    pub bid_volume: u64,
    pub ask_price: u64,
    pub ask_volume: u64,
    pub implied_volatility: Real,
    pub delta: Real,
    pub gamma: Real,
    pub vega: Real,
    pub theta: Real,
    pub rho: Real,
    pub model_price: Real,
}

/// All priced contracts of a chain, with the quotes of their underlying.
#[derive(Debug)]
pub struct AggregatedOptionSnapshot {
    pub underlying: u64,
    pub spot_bid_price: u64,
    pub spot_bid_volume: u64,
    pub spot_ask_price: u64,
    pub spot_ask_volume: u64,
    pub spot_timestamp: u64,
    pub contracts: ArrayVec<OptionContractSnapshot, 128>,
}

/// The contracts that a bounded vector of 128 holds, first to last.
pub uninterp spec fn contract_list(v: ArrayVec<OptionContractSnapshot, 128>) -> Seq<
    OptionContractSnapshot,
>;

/// `ArrayVec::new`: a vector that holds nothing.
#[verifier::external_body]
pub(crate) fn contracts_new() -> (v: ArrayVec<OptionContractSnapshot, 128>)
    ensures
        contract_list(v) == Seq::<OptionContractSnapshot>::empty(),
{
    ArrayVec::new()
}

/// `ArrayVec::push`: `item` comes behind what the vector holds. The call panics on
/// a vector that is full.
#[verifier::external_body]
pub(crate) fn contracts_push(
    v: &mut ArrayVec<OptionContractSnapshot, 128>,
    item: OptionContractSnapshot,
)
    requires
        contract_list(*old(v)).len() < 128,
    ensures
        contract_list(*final(v)) == contract_list(*old(v)).push(item),
{
    v.push(item);
}

/// `ArrayVec::as_slice`: the contracts that the vector holds, in order, never more
/// than its type has room for.
#[verifier::external_body]
pub(crate) fn contracts_slice(v: &ArrayVec<OptionContractSnapshot, 128>) -> (s: &[OptionContractSnapshot])
    ensures
        s@ == contract_list(*v),
        s@.len() <= 128,
{
    v.as_slice()
}

/// The byte that stands for a call or a put.
pub open spec fn type_byte(option_type: OptionType) -> u8 {
    match option_type {
        OptionType::Call => 0,
        OptionType::Put => 1,
    }
}

impl OptionContractSnapshot {
    /// The quotes and the pricing as 64-bit words.
    pub open spec fn words(self) -> Seq<u64> {
        seq![
            self.bid_price,
            self.bid_volume,
            self.ask_price,
            self.ask_volume,
            self.implied_volatility.bits,
            self.delta.bits,
            self.gamma.bits,
            self.vega.bits,
            self.theta.bits,
            self.rho.bits,
            self.model_price.bits,
        ]
    }

    /// The 101 bytes that say all of a contract.
    pub open spec fn bytes(self) -> Seq<u8> {
        le_bytes(self.contract.expiry_date as nat, 4) + le_bytes(
            self.contract.strike_price as nat,
            8,
        ) + seq![type_byte(self.contract.option_type)] + le_words(self.words())
    }

    /// Writes the contract over the front of `buf`. The last twenty bytes stay as
    /// they are.
    pub fn serialize(&self, buf: &mut [u8; OPTION_CONTRACT_SERIALIZED_SIZE])
        ensures
            final(buf)@ == self.bytes() + old(buf)@.subrange(101, 121),
    {
        let kind: u8 = match self.contract.option_type {
            OptionType::Call => 0,
            OptionType::Put => 1,
        };
        let words: [u64; 11] = [
            self.bid_price,
            self.bid_volume,
            self.ask_price,
            self.ask_volume,
            self.implied_volatility.bits,
            self.delta.bits,
            self.gamma.bits,
            self.vega.bits,
            self.theta.bits,
            self.rho.bits,
            self.model_price.bits,
        ];
        assert(words@ =~= self.words());
        let ghost rest = buf@.subrange(101, 121);
        let ghost b0 = buf@;
        put_le(buf, 0, self.contract.expiry_date as u64, 4);
        let ghost b1 = buf@;
        assert(rest =~= b1.subrange(4, 121).subrange(97, 117));
        put_le(buf, 4, self.contract.strike_price, 8);
        let ghost b2 = buf@;
        assert(rest =~= b2.subrange(12, 121).subrange(89, 109));
        buf[12] = kind;
        let ghost head = le_bytes(self.contract.expiry_date as nat, 4) + le_bytes(
            self.contract.strike_price as nat,
            8,
        ) + seq![kind];
        assert(b0.subrange(0, 0) =~= Seq::empty());
        assert(buf@.subrange(0, 13) =~= b2.subrange(0, 12).push(kind));
        assert(buf@.subrange(0, 13) =~= head);
        assert(head + le_words(words@.take(0)) =~= head);
        assert(rest =~= buf@.subrange(101, 121));
        let mut i: usize = 0;
        while i < 11
            invariant
                i <= 11,
                words@.len() == 11,
                buf@.subrange(0, 13 + 8 * i) == head + le_words(words@.take(i as int)),
                buf@.subrange(101, 121) == rest,
            decreases 11 - i,
        {
            let ghost before = buf@;
            put_le(buf, 13 + 8 * i, words[i], 8);
            proof {
                assert(words@.take(i + 1).drop_last() =~= words@.take(i as int));
                assert(buf@.subrange(0, 13 + 8 * (i + 1)) =~= head + le_words(
                    words@.take(i + 1),
                ));
                let at = 13 + 8 * i + 8;
                assert(buf@.subrange(101, 121) =~= buf@.subrange(at, 121).subrange(
                    101 - at,
                    121 - at,
                ));
                assert(before.subrange(101, 121) =~= before.subrange(at, 121).subrange(
                    101 - at,
                    121 - at,
                ));
            }
            i = i + 1;
        }
        assert(words@.take(11) =~= words@);
        assert(buf@ =~= buf@.subrange(0, 101) + buf@.subrange(101, 121));
    }
}

/// Contracts one after the other, each filled up with zeroes to 121 bytes.
pub open spec fn contracts_bytes(list: Seq<OptionContractSnapshot>) -> Seq<u8>
    decreases list.len(),
{
    if list.len() == 0 {
        Seq::empty()
    } else {
        contracts_bytes(list.drop_last()) + list.last().bytes() + Seq::new(20, |i: int| 0u8)
    }
}

impl AggregatedOptionSnapshot {
    /// The underlying and its quotes as 64-bit words.
    pub open spec fn words(self) -> Seq<u64> {
        seq![
            self.underlying,
            self.spot_bid_price,
            self.spot_bid_volume,
            self.spot_ask_price,
            self.spot_ask_volume,
            self.spot_timestamp,
        ]
    }

    /// The number of bytes of the snapshot.
    pub open spec fn size(self) -> nat {
        53 + 121 * contract_list(self.contracts).len()
    }

    /// The bytes of the snapshot: what it is and how long, the underlying, how many
    /// contracts there are, and each of them.
    pub open spec fn bytes(self) -> Seq<u8> {
        seq![MSG_TYPE_OPTION_SNAPSHOT] + le_bytes(self.size(), 2) + le_words(self.words())
            + le_bytes(contract_list(self.contracts).len(), 2) + contracts_bytes(
            contract_list(self.contracts),
        )
    }

    pub fn serialized_size(&self) -> (n: usize)
        ensures
            n == self.size(),
            n <= 15541,
    {
        let list = contracts_slice(&self.contracts);
        OPTION_HEADER_SERIALIZED_SIZE + list.len() * OPTION_CONTRACT_SERIALIZED_SIZE
    }

    /// Appends the snapshot to `buf`.
    pub fn serialize(&self, buf: &mut Vec<u8>)
        ensures
            final(buf)@ == old(buf)@ + self.bytes(),
    {
        let total: usize = self.serialized_size();
        let list = contracts_slice(&self.contracts);
        let words: [u64; 6] = [
            self.underlying,
            self.spot_bid_price,
            self.spot_bid_volume,
            self.spot_ask_price,
            self.spot_ask_volume,
            self.spot_timestamp,
        ];
        assert(words@ =~= self.words());
        buf.push(MSG_TYPE_OPTION_SNAPSHOT);
        push_le(buf, total as u64, 2);
        let ghost head = buf@;
        assert(head =~= old(buf)@ + seq![MSG_TYPE_OPTION_SNAPSHOT] + le_bytes(self.size(), 2));
        let mut i: usize = 0;
        assert(head + le_words(words@.take(0)) =~= head);
        while i < 6
            invariant
                i <= 6,
                words@.len() == 6,
                buf@ == head + le_words(words@.take(i as int)),
            decreases 6 - i,
        {
            push_le(buf, words[i], 8);
            assert(words@.take(i + 1).drop_last() =~= words@.take(i as int));
            assert(buf@ =~= head + le_words(words@.take(i + 1)));
            i = i + 1;
        }
        assert(words@.take(6) =~= words@);
        push_le(buf, list.len() as u64, 2);
        let ghost front = buf@;
        let mut k: usize = 0;
        assert(front + contracts_bytes(list@.take(0)) =~= front);
        while k < list.len()
            invariant
                k <= list@.len(),
                buf@ == front + contracts_bytes(list@.take(k as int)),
            decreases list@.len() - k,
        {
            let mut part: [u8; OPTION_CONTRACT_SERIALIZED_SIZE] = [0u8;OPTION_CONTRACT_SERIALIZED_SIZE];
            assert(part@.subrange(101, 121) =~= Seq::new(20, |i: int| 0u8));
            list[k].serialize(&mut part);
            buf.extend_from_slice(&part);
            assert(list@.take(k + 1).drop_last() =~= list@.take(k as int));
            assert(buf@ =~= front + contracts_bytes(list@.take(k + 1)));
            k = k + 1;
        }
        assert(list@.take(list@.len() as int) =~= list@);
        assert(buf@ =~= old(buf)@ + self.bytes());
    }
}

impl Clone for AggregatedOptionSnapshot {
    fn clone(&self) -> (r: Self)
        ensures
            r.words() == self.words(),
            contract_list(r.contracts) == contract_list(self.contracts),
    {
        let list = contracts_slice(&self.contracts);
        let mut contracts = contracts_new();
        let mut i: usize = 0;
        while i < list.len()
            invariant
                i <= list@.len() <= 128,
                contract_list(contracts) == list@.take(i as int),
            decreases list@.len() - i,
        {
            contracts_push(&mut contracts, list[i]);
            assert(list@.take(i + 1) =~= list@.take(i as int).push(list@[i as int]));
            i = i + 1;
        }
        assert(list@.take(list@.len() as int) =~= list@);
        AggregatedOptionSnapshot {
            underlying: self.underlying,
            spot_bid_price: self.spot_bid_price,
            spot_bid_volume: self.spot_bid_volume,
            spot_ask_price: self.spot_ask_price,
            spot_ask_volume: self.spot_ask_volume,
            spot_timestamp: self.spot_timestamp,
            contracts,
        }
    }
}

/// Every number of a contract can be read back from its 101 bytes: date, strike
/// and type first, then word number `k` in the eight bytes from `13 + 8 * k` on.
pub proof fn lemma_contract_reads_back(item: OptionContractSnapshot, k: int)
    requires
        0 <= k < 11,
    ensures
        item.bytes().len() == 101,
        le_value(item.bytes().subrange(0, 4)) == item.contract.expiry_date,
        le_value(item.bytes().subrange(4, 12)) == item.contract.strike_price,
        item.bytes()[12] == type_byte(item.contract.option_type),
        le_value(item.bytes().subrange(13 + 8 * k, 21 + 8 * k)) == item.words()[k],
{
    let date = item.contract.expiry_date as nat;
    let strike = item.contract.strike_price as nat;
    lemma_le_bytes_len(date, 4);
    lemma_le_bytes_len(strike, 8);
    lemma_le_words_read_back(item.words(), k);
    reveal_with_fuel(pow, 9);
    assert(pow(256, 4) == 0x1_0000_0000);
    assert(pow(256, 8) == 0x1_0000_0000_0000_0000);
    lemma_le_round_trip(date, 4);
    lemma_le_round_trip(strike, 8);
    assert(item.bytes().subrange(0, 4) =~= le_bytes(date, 4));
    assert(item.bytes().subrange(4, 12) =~= le_bytes(strike, 8));
    assert(item.bytes().subrange(13 + 8 * k, 21 + 8 * k) =~= le_words(item.words()).subrange(
        8 * k,
        8 * k + 8,
    ));
}

proof fn lemma_contracts_stand_in_a_row(list: Seq<OptionContractSnapshot>, k: int)
    requires
        0 <= k < list.len(),
    ensures
        contracts_bytes(list).len() == 121 * list.len(),
        contracts_bytes(list).subrange(121 * k, 121 * k + 101) == list[k].bytes(),
    decreases list.len(),
{
    let front = list.drop_last();
    lemma_contract_reads_back(list.last(), 0);
    if front.len() == 0 {
        assert(contracts_bytes(front) =~= Seq::empty());
    } else {
        lemma_contracts_stand_in_a_row(front, if k < front.len() { k } else { 0 });
    }
    if k < front.len() {
        assert(contracts_bytes(list).subrange(121 * k, 121 * k + 101) =~= contracts_bytes(
            front,
        ).subrange(121 * k, 121 * k + 101));
    } else {
        assert(contracts_bytes(list).subrange(121 * k, 121 * k + 101) =~= list.last().bytes());
    }
}

/// A snapshot can be read back from its bytes: they begin with its type and their
/// own number, word number `k` of the underlying's quotes stands in the eight bytes
/// from `3 + 8 * k` on, the number of contracts follows, and then each contract in
/// a field of 121 bytes.
pub proof fn lemma_snapshot_reads_back(snapshot: AggregatedOptionSnapshot, k: int)
    requires
        contract_list(snapshot.contracts).len() <= MAX_CONTRACTS_PER_CHAIN,
        0 <= k < 6,
    ensures
        snapshot.bytes().len() == snapshot.size(),
        snapshot.bytes()[0] == MSG_TYPE_OPTION_SNAPSHOT,
        le_value(snapshot.bytes().subrange(1, 3)) == snapshot.bytes().len(),
        le_value(snapshot.bytes().subrange(3 + 8 * k, 11 + 8 * k)) == snapshot.words()[k],
        le_value(snapshot.bytes().subrange(51, 53)) == contract_list(snapshot.contracts).len(),
        forall|c: int|
            0 <= c < contract_list(snapshot.contracts).len()
                ==> #[trigger] contract_list(snapshot.contracts)[c].bytes()
                == snapshot.bytes().subrange(53 + 121 * c, 53 + 121 * c + 101),
{
    let list = contract_list(snapshot.contracts);
    lemma_le_bytes_len(snapshot.size(), 2);
    lemma_le_bytes_len(list.len(), 2);
    lemma_le_words_read_back(snapshot.words(), k);
    reveal_with_fuel(pow, 3);
    assert(pow(256, 2) == 0x1_0000);
    lemma_le_round_trip(snapshot.size(), 2);
    lemma_le_round_trip(list.len(), 2);
    if list.len() > 0 {
        lemma_contracts_stand_in_a_row(list, 0);
    }
    assert(snapshot.bytes().subrange(1, 3) =~= le_bytes(snapshot.size(), 2));
    assert(snapshot.bytes().subrange(3 + 8 * k, 11 + 8 * k) =~= le_words(
        snapshot.words(),
    ).subrange(8 * k, 8 * k + 8));
    assert(snapshot.bytes().subrange(51, 53) =~= le_bytes(list.len(), 2));
    assert forall|c: int| 0 <= c < list.len() implies #[trigger] list[c].bytes()
        == snapshot.bytes().subrange(53 + 121 * c, 53 + 121 * c + 101) by {
        lemma_contracts_stand_in_a_row(list, c);
        assert(snapshot.bytes().subrange(53 + 121 * c, 53 + 121 * c + 101) =~= contracts_bytes(
            list,
        ).subrange(121 * c, 121 * c + 101));
    }
}

/// Where the bytes of a serialized contract hold what: the date in four bytes, the
/// strike in eight, zero for a call and one for a put, then the quotes and what the
/// model says, eight bytes each.
pub open spec fn holds_contract(bytes: Seq<u8>, item: OptionContractSnapshot) -> bool {
    &&& bytes.len() >= 101
    &&& le_value(bytes.subrange(0, 4)) == item.contract.expiry_date
    &&& word_at(bytes, 4) == item.contract.strike_price
    &&& item.contract.option_type == OptionType::Call ==> bytes[12] == 0
    &&& item.contract.option_type == OptionType::Put ==> bytes[12] == 1
    &&& word_at(bytes, 13) == item.bid_price
    &&& word_at(bytes, 21) == item.bid_volume
    &&& word_at(bytes, 29) == item.ask_price
    &&& word_at(bytes, 37) == item.ask_volume
    &&& word_at(bytes, 45) == item.implied_volatility.bits
    &&& word_at(bytes, 53) == item.delta.bits
    &&& word_at(bytes, 61) == item.gamma.bits
    &&& word_at(bytes, 69) == item.vega.bits
    &&& word_at(bytes, 77) == item.theta.bits
    &&& word_at(bytes, 85) == item.rho.bits
    &&& word_at(bytes, 93) == item.model_price.bits
}

/// What is serialized of a contract holds it, each number in its place, and the
/// twenty bytes behind it are those that stood there.
pub proof fn lemma_serialized_contract_holds_its_fields(
    item: OptionContractSnapshot,
    before: Seq<u8>,
    bytes: Seq<u8>,
)
    requires
        before.len() == 121,
        bytes == item.bytes() + before.subrange(101, 121),
    ensures
        bytes.len() == 121,
        holds_contract(bytes, item),
        bytes.subrange(101, 121) == before.subrange(101, 121),
{
    lemma_contract_reads_back(item, 0);
    lemma_contract_reads_back(item, 1);
    lemma_contract_reads_back(item, 2);
    lemma_contract_reads_back(item, 3);
    lemma_contract_reads_back(item, 4);
    lemma_contract_reads_back(item, 5);
    lemma_contract_reads_back(item, 6);
    lemma_contract_reads_back(item, 7);
    lemma_contract_reads_back(item, 8);
    lemma_contract_reads_back(item, 9);
    lemma_contract_reads_back(item, 10);
    assert forall|a: int, b: int| 0 <= a <= b <= 101 implies #[trigger] bytes.subrange(a, b)
        == item.bytes().subrange(a, b) by {
        assert(bytes.subrange(a, b) =~= item.bytes().subrange(a, b));
    }
    assert(bytes.subrange(101, 121) =~= before.subrange(101, 121));
}

/// Where the bytes of a serialized snapshot hold what: a one, their own number in two
/// bytes, the underlying, its quotes and their time, eight bytes each, the number of
/// contracts in two bytes, and then every contract in a field of 121 bytes that ends
/// in twenty zeroes.
pub open spec fn holds_snapshot(bytes: Seq<u8>, snapshot: AggregatedOptionSnapshot) -> bool {
    let list = contract_list(snapshot.contracts);
    &&& bytes.len() == 53 + 121 * list.len()
    &&& bytes[0] == 1
    &&& le_value(bytes.subrange(1, 3)) == bytes.len()
    &&& word_at(bytes, 3) == snapshot.underlying
    &&& word_at(bytes, 11) == snapshot.spot_bid_price
    &&& word_at(bytes, 19) == snapshot.spot_bid_volume
    &&& word_at(bytes, 27) == snapshot.spot_ask_price
    &&& word_at(bytes, 35) == snapshot.spot_ask_volume
    &&& word_at(bytes, 43) == snapshot.spot_timestamp
    &&& le_value(bytes.subrange(51, 53)) == list.len()
    &&& forall|c: int|
        0 <= c < list.len() ==> {
            let field = bytes.subrange(53 + 121 * c, 53 + 121 * c + 121);
            &&& holds_contract(field, #[trigger] list[c])
            &&& forall|z: int| 101 <= z < 121 ==> #[trigger] field[z] == 0
        }
}

proof fn lemma_fields_stand_in_a_row(list: Seq<OptionContractSnapshot>, k: int)
    requires
        0 <= k < list.len(),
    ensures
        contracts_bytes(list).len() == 121 * list.len(),
        contracts_bytes(list).subrange(121 * k, 121 * k + 121) == list[k].bytes() + Seq::new(
            20,
            |i: int| 0u8,
        ),
    decreases list.len(),
{
    let front = list.drop_last();
    lemma_contract_reads_back(list.last(), 0);
    if front.len() == 0 {
        assert(contracts_bytes(front) =~= Seq::empty());
    } else {
        lemma_fields_stand_in_a_row(front, if k < front.len() { k } else { 0 });
    }
    if k < front.len() {
        assert(contracts_bytes(list).subrange(121 * k, 121 * k + 121) =~= contracts_bytes(
            front,
        ).subrange(121 * k, 121 * k + 121));
    } else {
        assert(contracts_bytes(list).subrange(121 * k, 121 * k + 121) =~= list.last().bytes()
            + Seq::new(20, |i: int| 0u8));
    }
}

/// What is serialized of a snapshot holds it: the underlying and its quotes, and every
/// contract in turn.
pub proof fn lemma_serialized_snapshot_holds_its_fields(snapshot: AggregatedOptionSnapshot)
    requires
        contract_list(snapshot.contracts).len() <= 128,
    ensures
        holds_snapshot(snapshot.bytes(), snapshot),
        snapshot.size() == snapshot.bytes().len(),
{
    let bytes = snapshot.bytes();
    let list = contract_list(snapshot.contracts);
    lemma_snapshot_reads_back(snapshot, 0);
    lemma_snapshot_reads_back(snapshot, 1);
    lemma_snapshot_reads_back(snapshot, 2);
    lemma_snapshot_reads_back(snapshot, 3);
    lemma_snapshot_reads_back(snapshot, 4);
    lemma_snapshot_reads_back(snapshot, 5);
    assert forall|c: int| 0 <= c < list.len() implies {
        let field = bytes.subrange(53 + 121 * c, 53 + 121 * c + 121);
        &&& holds_contract(field, #[trigger] list[c])
        &&& forall|z: int| 101 <= z < 121 ==> #[trigger] field[z] == 0
    } by {
        let field = bytes.subrange(53 + 121 * c, 53 + 121 * c + 121);
        let zeroes = Seq::new(121, |i: int| 0u8);
        lemma_fields_stand_in_a_row(list, c);
        lemma_le_bytes_len(snapshot.size(), 2);
        lemma_le_bytes_len(list.len(), 2);
        lemma_le_words_read_back(snapshot.words(), 0);
        assert(field =~= contracts_bytes(list).subrange(121 * c, 121 * c + 121));
        assert(zeroes.subrange(101, 121) =~= Seq::new(20, |i: int| 0u8));
        lemma_serialized_contract_holds_its_fields(list[c], zeroes, field);
        assert forall|z: int| 101 <= z < 121 implies #[trigger] field[z] == 0 by {
            assert(field[z] == field.subrange(101, 121)[z - 101]);
        }
    }
}

} // verus!

//! Price levels, and the updates that report the best of them.
use crate::wire::{le_value, le_words, lemma_le_words_read_back, put_le};
use arrayvec::ArrayVec;
use vstd::prelude::*;

verus! {

pub const MAX_LEVELS: usize = 64;

pub const BBO_SERIALIZED_SIZE: usize = 216;

/// The orders that rest at one price.
#[derive(Debug, Clone, Copy)]
pub struct PriceLevel {
    pub price: u64,
    pub volume: u64,
    pub order_count: u32,
}

impl PriceLevel {
    pub fn zero() -> (l: Self)
        ensures
            l == (PriceLevel { price: 0, volume: 0, order_count: 0 }),
    {
        PriceLevel { price: 0, volume: 0, order_count: 0 }
    }

    pub fn new(price: u64, volume: u64, order_count: u32) -> (l: Self)
        ensures
            l == (PriceLevel { price, volume, order_count }),
    {
        PriceLevel { price, volume, order_count }
    }
}

/// The best price and its volume on either side; zeroes stand for an empty side.
#[derive(Debug, Clone, Copy, PartialEq, Eq, Structural)]
pub struct BboSnapshot {
    pub bid_price: u64,
    pub bid_volume: u64,
    pub ask_price: u64,
    pub ask_volume: u64,
}

/// A change of the best bid or offer, with up to ten levels of either side.
#[derive(Debug)]
pub struct BboUpdate {
    pub stock: u64,
    pub timestamp: u64,
    pub seq_num: u64,
    pub bid_price: u64,
    pub bid_volume: u64,
    pub ask_price: u64,
    pub ask_volume: u64,
    pub top_bids: ArrayVec<PriceLevel, 10>,
    pub top_asks: ArrayVec<PriceLevel, 10>,
}

/// The levels that a bounded vector of ten holds, first to last.
pub uninterp spec fn level_list(v: ArrayVec<PriceLevel, 10>) -> Seq<PriceLevel>;

/// `ArrayVec::new`: a vector that holds nothing.
#[verifier::external_body]
pub(crate) fn levels_new() -> (v: ArrayVec<PriceLevel, 10>)
    ensures
        level_list(v) == Seq::<PriceLevel>::empty(),
{
    ArrayVec::new()
}

/// `ArrayVec::push`: `level` comes behind what the vector holds. The call panics
/// on a vector that is full.
#[verifier::external_body]
pub(crate) fn levels_push(v: &mut ArrayVec<PriceLevel, 10>, level: PriceLevel)
    requires
        level_list(*old(v)).len() < 10,
    ensures
        level_list(*final(v)) == level_list(*old(v)).push(level),
{
    v.push(level);
}

/// `ArrayVec::as_slice`: the levels that the vector holds, in order, never more
/// than its type has room for.
#[verifier::external_body]
pub(crate) fn levels_slice(v: &ArrayVec<PriceLevel, 10>) -> (s: &[PriceLevel])
    ensures
        s@ == level_list(*v),
        s@.len() <= 10,
{
    v.as_slice()
}

/// The first levels of a slice, as many as a bounded vector has room for.
pub(crate) fn levels_from(levels: &[PriceLevel]) -> (v: ArrayVec<PriceLevel, 10>)
    ensures
        level_list(v) == (if levels@.len() <= 10 {
            levels@
        } else {
            levels@.take(10)
        }),
{
    let mut v = levels_new();
    let mut i: usize = 0;
    while i < levels.len() && i < 10
        invariant
            i <= levels@.len(),
            i <= 10,
            level_list(v) == levels@.take(i as int),
        decreases levels@.len() - i,
    {
        levels_push(&mut v, levels[i]);
        assert(levels@.take(i + 1) =~= levels@.take(i as int).push(levels@[i as int]));
        i = i + 1;
    }
    assert(levels@.take(levels@.len() as int) =~= levels@);
    v
}

/// Price and volume of the first `n` levels, zeroes where there are fewer.
pub open spec fn level_words(levels: Seq<PriceLevel>, n: nat) -> Seq<u64> {
    Seq::new(
        2 * n,
        |i: int|
            if i / 2 >= levels.len() {
                0
            } else if i % 2 == 0 {
                levels[i / 2].price
            } else {
                levels[i / 2].volume
            },
    )
}

impl BboUpdate {
    /// The best prices and volumes that the update reports.
    pub open spec fn snapshot(self) -> BboSnapshot {
        BboSnapshot {
            bid_price: self.bid_price,
            bid_volume: self.bid_volume,
            ask_price: self.ask_price,
            ask_volume: self.ask_volume,
        }
    }

    /// The words of an update on the wire: its numbers, then five levels of bids
    /// and five of asks.
    pub open spec fn words(self) -> Seq<u64> {
        seq![
            self.stock,
            self.timestamp,
            self.seq_num,
            self.bid_price,
            self.bid_volume,
            self.ask_price,
            self.ask_volume,
        ] + level_words(level_list(self.top_bids), 5) + level_words(level_list(self.top_asks), 5)
    }

    /// Writes the update over the whole of `buf`.
    pub fn serialize(&self, buf: &mut [u8; BBO_SERIALIZED_SIZE])
        ensures
            final(buf)@ == le_words(self.words()),
    {
        let ghost head = seq![
            self.stock,
            self.timestamp,
            self.seq_num,
            self.bid_price,
            self.bid_volume,
            self.ask_price,
            self.ask_volume,
        ];
        let ghost bids = level_list(self.top_bids);
        let ghost asks = level_list(self.top_asks);
        assert(buf@.subrange(0, 0) =~= le_words(Seq::empty()));
        assert(head.take(0) =~= Seq::empty());
        put_word(buf, 0, self.stock, Ghost(head.take(0)));
        assert(head.take(0).push(self.stock) =~= head.take(1));
        put_word(buf, 1, self.timestamp, Ghost(head.take(1)));
        assert(head.take(1).push(self.timestamp) =~= head.take(2));
        put_word(buf, 2, self.seq_num, Ghost(head.take(2)));
        assert(head.take(2).push(self.seq_num) =~= head.take(3));
        put_word(buf, 3, self.bid_price, Ghost(head.take(3)));
        assert(head.take(3).push(self.bid_price) =~= head.take(4));
        put_word(buf, 4, self.bid_volume, Ghost(head.take(4)));
        assert(head.take(4).push(self.bid_volume) =~= head.take(5));
        put_word(buf, 5, self.ask_price, Ghost(head.take(5)));
        assert(head.take(5).push(self.ask_price) =~= head.take(6));
        put_word(buf, 6, self.ask_volume, Ghost(head.take(6)));
        assert(head.take(6).push(self.ask_volume) =~= head.take(7));
        assert(head.take(7) =~= head);
        put_levels(buf, 7, levels_slice(&self.top_bids), Ghost(head));
        put_levels(buf, 17, levels_slice(&self.top_asks), Ghost(head + level_words(bids, 5)));
        assert(buf@.subrange(0, 216) =~= buf@);
    }
}

impl Clone for BboUpdate {
    fn clone(&self) -> (r: Self)
        ensures
            r.stock == self.stock,
            r.timestamp == self.timestamp,
            r.seq_num == self.seq_num,
            r.snapshot() == self.snapshot(),
            level_list(r.top_bids) == level_list(self.top_bids),
            level_list(r.top_asks) == level_list(self.top_asks),
    {
        BboUpdate {
            stock: self.stock,
            timestamp: self.timestamp,
            seq_num: self.seq_num,
            bid_price: self.bid_price,
            bid_volume: self.bid_volume,
            ask_price: self.ask_price,
            ask_volume: self.ask_volume,
            top_bids: levels_from(levels_slice(&self.top_bids)),
            top_asks: levels_from(levels_slice(&self.top_asks)),
        }
    }
}

/// Writes word number `k`, behind the words that stand in `buf` already.
fn put_word(
    buf: &mut [u8; BBO_SERIALIZED_SIZE],
    k: usize,
    word: u64,
    Ghost(done): Ghost<Seq<u64>>,
)
    requires
        k < 27,
        done.len() == k,
        old(buf)@.subrange(0, 8 * k) == le_words(done),
    ensures
        final(buf)@.subrange(0, 8 * (k + 1)) == le_words(done.push(word)),
{
    put_le(buf, 8 * k, word, 8);
    assert(done.push(word).drop_last() =~= done);
}

/// Writes five levels from word number `k` on.
fn put_levels(
    buf: &mut [u8; BBO_SERIALIZED_SIZE],
    k: usize,
    levels: &[PriceLevel],
    Ghost(done): Ghost<Seq<u64>>,
)
    requires
        k <= 17,
        done.len() == k,
        old(buf)@.subrange(0, 8 * k) == le_words(done),
    ensures
        final(buf)@.subrange(0, 8 * (k + 10)) == le_words(done + level_words(levels@, 5)),
{
    let mut i: usize = 0;
    assert(done + level_words(levels@, 0) =~= done);
    while i < 5
        invariant
            i <= 5,
            k <= 17,
            done.len() == k,
            buf@.subrange(0, 8 * (k + 2 * i)) == le_words(done + level_words(levels@, i as nat)),
        decreases 5 - i,
    {
        let level: PriceLevel = if i < levels.len() { levels[i] } else { PriceLevel::zero() };
        let ghost before = done + level_words(levels@, i as nat);
        put_word(buf, k + 2 * i, level.price, Ghost(before));
        put_word(buf, k + 2 * i + 1, level.volume, Ghost(before.push(level.price)));
        assert(before.push(level.price).push(level.volume) =~= done + level_words(
            levels@,
            (i + 1) as nat,
        ));
        i = i + 1;
    }
}

/// An update takes 216 bytes, and every number in it can be read back from them:
/// word number `k` stands in the eight bytes from `8 * k` on.
pub proof fn lemma_update_reads_back(update: BboUpdate, k: int)
    requires
        0 <= k < 27,
    ensures
        update.words().len() == 27,
        le_words(update.words()).len() == BBO_SERIALIZED_SIZE,
        le_value(le_words(update.words()).subrange(8 * k, 8 * k + 8)) == update.words()[k],
{
    lemma_le_words_read_back(update.words(), k);
}

/// The number that stands in the eight bytes of `bytes` from position `at` on.
pub open spec fn word_at(bytes: Seq<u8>, at: int) -> nat {
    le_value(bytes.subrange(at, at + 8))
}

/// Whether the price and the volume of level number `i` stand in the sixteen bytes
/// from position `at` on, zeroes where there are not so many levels.
pub open spec fn level_stands(bytes: Seq<u8>, at: int, levels: Seq<PriceLevel>, i: int) -> bool {
    if i < levels.len() {
        word_at(bytes, at) == levels[i].price && word_at(bytes, at + 8) == levels[i].volume
    } else {
        word_at(bytes, at) == 0 && word_at(bytes, at + 8) == 0
    }
}

/// Where the bytes of a serialized update hold what: the stock, the time, the number,
/// the best bid with its volume and the best ask with its volume, eight bytes each,
/// then the first five bids and the first five asks, sixteen bytes each.
pub open spec fn holds_update(bytes: Seq<u8>, update: BboUpdate) -> bool {
    &&& bytes.len() == 216
    &&& word_at(bytes, 0) == update.stock
    &&& word_at(bytes, 8) == update.timestamp
    &&& word_at(bytes, 16) == update.seq_num
    &&& word_at(bytes, 24) == update.bid_price
    &&& word_at(bytes, 32) == update.bid_volume
    &&& word_at(bytes, 40) == update.ask_price
    &&& word_at(bytes, 48) == update.ask_volume
    &&& level_stands(bytes, 56, level_list(update.top_bids), 0)
    &&& level_stands(bytes, 72, level_list(update.top_bids), 1)
    &&& level_stands(bytes, 88, level_list(update.top_bids), 2)
    &&& level_stands(bytes, 104, level_list(update.top_bids), 3)
    &&& level_stands(bytes, 120, level_list(update.top_bids), 4)
    &&& level_stands(bytes, 136, level_list(update.top_asks), 0)
    &&& level_stands(bytes, 152, level_list(update.top_asks), 1)
    &&& level_stands(bytes, 168, level_list(update.top_asks), 2)
    &&& level_stands(bytes, 184, level_list(update.top_asks), 3)
    &&& level_stands(bytes, 200, level_list(update.top_asks), 4)
}

proof fn lemma_levels_stand(update: BboUpdate, i: int)
    requires
        0 <= i < 5,
    ensures
        level_stands(le_words(update.words()), 56 + 16 * i, level_list(update.top_bids), i),
        level_stands(le_words(update.words()), 136 + 16 * i, level_list(update.top_asks), i),
{
    let words = update.words();
    lemma_le_words_read_back(words, 7 + 2 * i);
    lemma_le_words_read_back(words, 8 + 2 * i);
    lemma_le_words_read_back(words, 17 + 2 * i);
    lemma_le_words_read_back(words, 18 + 2 * i);
    assert(8 * (7 + 2 * i) == 56 + 16 * i);
    assert(8 * (17 + 2 * i) == 136 + 16 * i);
}

/// What is serialized holds the update: all its numbers, and five levels of either
/// side, each in its place.
pub proof fn lemma_serialized_update_holds_its_fields(update: BboUpdate, bytes: Seq<u8>)
    requires
        bytes == le_words(update.words()),
    ensures
        holds_update(bytes, update),
{
    let words = update.words();
    lemma_le_words_read_back(words, 0);
    lemma_le_words_read_back(words, 1);
    lemma_le_words_read_back(words, 2);
    lemma_le_words_read_back(words, 3);
    lemma_le_words_read_back(words, 4);
    lemma_le_words_read_back(words, 5);
    lemma_le_words_read_back(words, 6);
    lemma_levels_stand(update, 0);
    lemma_levels_stand(update, 1);
    lemma_levels_stand(update, 2);
    lemma_levels_stand(update, 3);
    lemma_levels_stand(update, 4);
}

} // verus!

//! One side of a book.
use crate::orderbook::level::PriceLevel;
use crate::orderbook::model::{best, better, has_room, is_best_price, is_top, keyed_by_price,
    with_order, without_shares};
use crate::protocol::Side;
use std::collections::btree_map::Values;
use std::collections::BTreeMap;
use vstd::prelude::*;
use vstd::std_specs::btree::increasing_seq;
use vstd::std_specs::cmp::OrdSpec;
use vstd::std_specs::iter::IteratorSpec;

verus! {

#[derive(Debug)]
pub struct BookSide {
    levels: BTreeMap<u64, PriceLevel>,
    side: Side,
}

impl View for BookSide {
    type V = Map<u64, PriceLevel>;

    closed spec fn view(&self) -> Map<u64, PriceLevel> {
        self.levels@
    }
}

/// Levels in the order of their prices, lowest first.
spec fn ascending(levels: Map<u64, PriceLevel>, s: Seq<PriceLevel>) -> bool {
    &&& forall|i: int|
        0 <= i < s.len() ==> levels.contains_key((#[trigger] s[i]).price) && levels[s[i].price]
            == s[i]
    &&& forall|i: int, j: int|
        0 <= i < j < s.len() ==> (#[trigger] s[i]).price < (#[trigger] s[j]).price
    &&& forall|price: u64| #[trigger]
        levels.contains_key(price) ==> exists|i: int|
            0 <= i < s.len() && (#[trigger] s[i]).price == price
}

proof fn lemma_ascending(levels: Map<u64, PriceLevel>, prices: Seq<u64>, s: Seq<PriceLevel>)
    requires
        keyed_by_price(levels),
        increasing_seq(prices),
        prices.to_set() == levels.dom(),
        s.len() == prices.len(),
        forall|i: int| 0 <= i < s.len() ==> #[trigger] s[i] == levels[prices[i]],
    ensures
        ascending(levels, s),
{
    assert forall|i: int, j: int| 0 <= i < j < prices.len() implies #[trigger] prices[i]
        < #[trigger] prices[j] by {
        assert(prices[i].cmp_spec(&prices[j]) is Less);
    }
    assert forall|i: int| 0 <= i < s.len() implies levels.contains_key(prices[i])
        && #[trigger] s[i].price == prices[i] by {
        assert(prices.to_set().contains(prices[i]));
    }
    assert forall|price: u64| #[trigger] levels.contains_key(price) implies exists|i: int|
        0 <= i < s.len() && (#[trigger] s[i]).price == price by {
        assert(prices.to_set().contains(price));
        let i = choose|i: int| 0 <= i < prices.len() && prices[i] == price;
        assert(s[i].price == price);
    }
}

/// The ends of the ordered levels are the best levels of the two sides.
proof fn lemma_ends(levels: Map<u64, PriceLevel>, s: Seq<PriceLevel>)
    requires
        ascending(levels, s),
    ensures
        s.len() == 0 ==> best(Side::Buy, levels) is None && best(Side::Sell, levels) is None,
        s.len() > 0 ==> best(Side::Buy, levels) == Some(s.last()) && best(Side::Sell, levels)
            == Some(s[0]),
{
    if s.len() > 0 {
        assert(is_best_price(Side::Buy, levels, s.last().price));
        assert(is_best_price(Side::Sell, levels, s[0].price));
    }
}

/// The next item of an iterator.
fn next_of<I: Iterator>(items: &mut I) -> (r: Option<I::Item>)
    requires
        IteratorSpec::obeys_prophetic_iter_laws(old(items)),
    ensures
        IteratorSpec::obeys_prophetic_iter_laws(final(items)),
        if IteratorSpec::remaining(old(items)).len() > 0 {
            &&& IteratorSpec::remaining(final(items)) == IteratorSpec::remaining(old(items)).drop_first()
            &&& r == Some(IteratorSpec::remaining(old(items))[0])
        } else {
            &&& IteratorSpec::remaining(final(items)) == IteratorSpec::remaining(old(items))
            &&& r is None
        },
{
    items.next()
}

/// The last item of an iterator.
fn last_of<I: DoubleEndedIterator>(items: &mut I) -> (r: Option<I::Item>)
    requires
        IteratorSpec::obeys_prophetic_iter_laws(old(items)),
    ensures
        IteratorSpec::obeys_prophetic_iter_laws(final(items)),
        if IteratorSpec::remaining(old(items)).len() > 0 {
            &&& IteratorSpec::remaining(final(items)) == IteratorSpec::remaining(old(items)).drop_last()
            &&& r == Some(IteratorSpec::remaining(old(items)).last())
        } else {
            &&& IteratorSpec::remaining(final(items)) == IteratorSpec::remaining(old(items))
            &&& r is None
        },
{
    items.next_back()
}

impl BookSide {
    pub closed spec fn side(self) -> Side {
        self.side
    }

    pub closed spec fn wf(self) -> bool {
        keyed_by_price(self.levels@)
    }

    pub proof fn lemma_view(self)
        requires
            self.wf(),
        ensures
            keyed_by_price(self@),
            self@.dom().finite(),
    {
    }

    pub fn new(side: Side) -> (s: Self)
        ensures
            s.wf(),
            s.side() == side,
            s@ == Map::<u64, PriceLevel>::empty(),
    {
        BookSide { levels: BTreeMap::new(), side }
    }

    /// The levels, lowest price first.
    fn ordered_values(&self) -> (values: Values<'_, u64, PriceLevel>)
        requires
            self.wf(),
        ensures
            IteratorSpec::obeys_prophetic_iter_laws(&values),
            ascending(self.levels@, values.remaining().unref()),
    {
        let values = self.levels.values();
        proof {
            let m = &self.levels;
            let prices = choose|prices: Seq<u64>|
                {
                    &&& increasing_seq(prices)
                    &&& prices.to_set() == m@.dom()
                    &&& prices.no_duplicates()
                    &&& values.remaining() == prices.map(|i: int, k: u64| &m@[k])
                };
            assert(values.remaining() == prices.map(|i: int, k: u64| &m@[k]));
            lemma_ascending(m@, prices, values.remaining().unref());
        }
        values
    }

    pub fn best(&self) -> (r: Option<&PriceLevel>)
        requires
            self.wf(),
        ensures
            match r {
                Some(level) => best(self.side(), self@) == Some(*level),
                None => best(self.side(), self@) is None,
            },
    {
        let mut values = self.ordered_values();
        let ghost sorted = values.remaining().unref();
        proof {
            lemma_ends(self.levels@, sorted);
        }
        match self.side {
            Side::Buy => last_of(&mut values),
            Side::Sell => next_of(&mut values),
        }
    }

    pub fn has_room(&self, price: u64, shares: u32) -> (b: bool)
        ensures
            b == has_room(self@, price, shares),
    {
        match self.levels.get(&price) {
            Some(level) => level.volume <= u64::MAX - shares as u64 && level.order_count < u32::MAX,
            None => true,
        }
    }

    /// Whether `shares` shares at `price` can be counted once `removed` shares at
    /// `removed_price` are gone.
    pub fn has_room_after_removal(
        &self,
        removed_price: u64,
        removed: u32,
        price: u64,
        shares: u32,
    ) -> (b: bool)
        requires
            self.wf(),
        ensures
            b == has_room(without_shares(self@, removed_price, removed), price, shares),
    {
        if price != removed_price {
            return self.has_room(price, shares);
        }
        match self.levels.get(&price) {
            Some(level) => {
                let volume: u64 = level.volume.saturating_sub(removed as u64);
                volume == 0 || (volume <= u64::MAX - shares as u64
                    && level.order_count.saturating_sub(1) < u32::MAX)
            },
            None => true,
        }
    }

    pub fn add_order(&mut self, price: u64, shares: u32)
        requires
            old(self).wf(),
            has_room(old(self)@, price, shares),
        ensures
            final(self).wf(),
            final(self).side() == old(self).side(),
            final(self)@ == with_order(old(self)@, price, shares),
    {
        let level: PriceLevel = match self.levels.get(&price) {
            Some(level) => PriceLevel::new(
                price,
                level.volume + shares as u64,
                level.order_count + 1,
            ),
            None => PriceLevel::new(price, shares as u64, 1),
        };
        self.levels.insert(price, level);
    }

    /// Whether the level went.
    pub fn remove_shares(&mut self, price: u64, shares: u32) -> (gone: bool)
        requires
            old(self).wf(),
        ensures
            final(self).wf(),
            final(self).side() == old(self).side(),
            final(self)@ == without_shares(old(self)@, price, shares),
            gone == (old(self)@.contains_key(price) && !final(self)@.contains_key(price)),
    {
        let level: PriceLevel = match self.levels.get(&price) {
            Some(level) => PriceLevel::new(
                price,
                level.volume.saturating_sub(shares as u64),
                level.order_count.saturating_sub(1),
            ),
            None => {
                return false;
            },
        };
        if level.volume == 0 {
            self.levels.remove(&price);
            true
        } else {
            self.levels.insert(price, level);
            false
        }
    }

    pub fn delete_all_at_price(&mut self, price: u64, shares: u32)
        requires
            old(self).wf(),
        ensures
            final(self).wf(),
            final(self).side() == old(self).side(),
            final(self)@ == without_shares(old(self)@, price, shares),
    {
        self.remove_shares(price, shares);
    }

    /// The best `n` levels, best first.
    pub fn top_n(&self, n: usize) -> (top: Vec<PriceLevel>)
        requires
            self.wf(),
        ensures
            is_top(self.side(), self@, n as nat, top@),
    {
        let mut top: Vec<PriceLevel> = Vec::new();
        let mut values = self.ordered_values();
        let ghost sorted = values.remaining().unref();
        let mut more: bool = true;
        match self.side {
            Side::Buy => {
                while more && top.len() < n
                    invariant
                        IteratorSpec::obeys_prophetic_iter_laws(&values),
                        top@.len() <= n,
                        top@.len() <= sorted.len(),
                        values.remaining().unref() == sorted.take(sorted.len() - top@.len()),
                        forall|i: int|
                            0 <= i < top@.len() ==> #[trigger] top@[i] == sorted[sorted.len() - 1
                                - i],
                        !more ==> top@.len() == sorted.len(),
                    decreases n - top@.len() + (if more { 1int } else { 0int }),
                {
                    let ghost before = values.remaining();
                    match last_of(&mut values) {
                        Some(level) => {
                            assert(before.unref().last() == *level);
                            top.push(*level);
                            assert(values.remaining().unref() =~= before.unref().drop_last());
                        },
                        None => {
                            more = false;
                            assert(before.unref().len() == 0);
                        },
                    }
                }
            },
            Side::Sell => {
                while more && top.len() < n
                    invariant
                        IteratorSpec::obeys_prophetic_iter_laws(&values),
                        top@.len() <= n,
                        top@.len() <= sorted.len(),
                        values.remaining().unref() == sorted.skip(top@.len() as int),
                        top@ == sorted.take(top@.len() as int),
                        !more ==> top@.len() == sorted.len(),
                    decreases n - top@.len() + (if more { 1int } else { 0int }),
                {
                    let ghost before = values.remaining();
                    match next_of(&mut values) {
                        Some(level) => {
                            assert(before.unref()[0] == *level);
                            top.push(*level);
                            assert(values.remaining().unref() =~= before.unref().drop_first());
                        },
                        None => {
                            more = false;
                            assert(before.unref().len() == 0);
                        },
                    }
                }
            },
        }
        proof {
            assert forall|price: u64| #[trigger] self@.contains_key(price) implies {
                ||| exists|i: int| 0 <= i < top@.len() && (#[trigger] top@[i]).price == price
                ||| top@.len() == n && forall|i: int|
                    0 <= i < top@.len() ==> better(self.side, (#[trigger] top@[i]).price, price)
            } by {
                let k = choose|k: int|
                    0 <= k < sorted.len() && (#[trigger] sorted[k]).price == price;
                let i = if self.side == Side::Buy { sorted.len() - 1 - k } else { k };
                if i < top@.len() {
                    assert(top@[i].price == price);
                }
            }
        }
        top
    }
}

} // verus!

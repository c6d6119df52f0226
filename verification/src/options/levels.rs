//! Price levels in a hash table, in no order of price.
use crate::orderbook::level::PriceLevel;
use crate::orderbook::model::{best, better, has_room, is_best_price, keyed_by_price, with_order,
    without_shares};
use crate::protocol::Side;
use crate::table::Table;
use vstd::prelude::*;

verus! {

fn is_better(side: Side, a: u64, b: u64) -> (r: bool)
    ensures
        r == better(side, a, b),
{
    match side {
        Side::Buy => a > b,
        Side::Sell => a < b,
    }
}

/// The best of the levels, where there are any.
pub(crate) fn best_level(side: Side, levels: &Table<PriceLevel>) -> (r: Option<&PriceLevel>)
    requires
        levels.wf(),
        keyed_by_price(levels@),
    ensures
        match r {
            Some(level) => best(side, levels@) == Some(*level),
            None => best(side, levels@) is None,
        },
{
    let n: usize = levels.len();
    if n == 0 {
        proof {
            levels.lemma_key_list();
            assert forall|price: u64| !is_best_price(side, levels@, price) by {
                assert(!levels.key_list().contains(price));
            }
        }
        return None;
    }
    let (first, _level) = levels.entry(0);
    let mut found: u64 = first;
    let mut i: usize = 1;
    while i < n
        invariant
            levels.wf(),
            n == levels.key_list().len(),
            1 <= i <= n,
            levels@.contains_key(found),
            forall|j: int|
                0 <= j < i ==> {
                    let price = #[trigger] levels.key_list()[j];
                    price == found || better(side, found, price)
                },
        decreases n - i,
    {
        let (price, _level) = levels.entry(i);
        if is_better(side, price, found) {
            found = price;
        }
        i = i + 1;
    }
    proof {
        levels.lemma_key_list();
        assert(is_best_price(side, levels@, found)) by {
            assert forall|price: u64| #[trigger] levels@.contains_key(price) implies price == found
                || better(side, found, price) by {
                let j = choose|j: int|
                    0 <= j < levels.key_list().len() && levels.key_list()[j] == price;
                assert(levels.key_list()[j] == price);
            }
        }
    }
    levels.get(found)
}

/// Whether one more order of `shares` shares at `price` can be counted.
pub(crate) fn level_has_room(levels: &Table<PriceLevel>, price: u64, shares: u32) -> (b: bool)
    requires
        levels.wf(),
    ensures
        b == has_room(levels@, price, shares),
{
    match levels.get(price) {
        Some(level) => level.volume <= u64::MAX - shares as u64 && level.order_count < u32::MAX,
        None => true,
    }
}

pub(crate) fn add_to_level(levels: &mut Table<PriceLevel>, price: u64, shares: u32)
    requires
        old(levels).wf(),
        keyed_by_price(old(levels)@),
        has_room(old(levels)@, price, shares),
    ensures
        final(levels).wf(),
        keyed_by_price(final(levels)@),
        final(levels)@ == with_order(old(levels)@, price, shares),
{
    if levels.contains(price) {
        let level = levels.get_mut(price);
        level.volume = level.volume + shares as u64;
        level.order_count = level.order_count + 1;
    } else {
        levels.insert(price, PriceLevel::new(price, shares as u64, 1));
    }
}

pub(crate) fn take_from_level(levels: &mut Table<PriceLevel>, price: u64, shares: u32)
    requires
        old(levels).wf(),
        keyed_by_price(old(levels)@),
    ensures
        final(levels).wf(),
        keyed_by_price(final(levels)@),
        final(levels)@ == without_shares(old(levels)@, price, shares),
{
    if levels.contains(price) {
        let level = levels.get_mut(price);
        level.volume = level.volume.saturating_sub(shares as u64);
        level.order_count = level.order_count.saturating_sub(1);
        let empty: bool = level.volume == 0;
        if empty {
            levels.remove(price);
            assert(levels@ =~= old(levels)@.remove(price));
        }
    }
}

} // verus!

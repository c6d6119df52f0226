//! Lists with some of their items left out.
use vstd::prelude::*;

verus! {

/// The values that are there, in order.
pub open spec fn present<T>(items: Seq<Option<T>>) -> Seq<T>
    decreases items.len(),
{
    if items.len() == 0 {
        Seq::empty()
    } else {
        match items.last() {
            Some(item) => present(items.drop_last()).push(item),
            None => present(items.drop_last()),
        }
    }
}

/// A filtered list grows by the items that pass.
pub(crate) proof fn lemma_filter_step<A>(list: Seq<A>, pass: spec_fn(A) -> bool, i: int)
    requires
        0 <= i < list.len(),
    ensures
        list.take(i + 1).filter(pass) == (if pass(list[i]) {
            list.take(i).filter(pass).push(list[i])
        } else {
            list.take(i).filter(pass)
        }),
{
    reveal(Seq::filter);
    assert(list.take(i + 1).drop_last() =~= list.take(i));
}

/// An item that passes stands in the filtered list behind those before it that
/// pass.
pub(crate) proof fn lemma_filter_rank<A>(list: Seq<A>, pass: spec_fn(A) -> bool, i: int)
    requires
        0 <= i < list.len(),
        pass(list[i]),
    ensures
        list.take(i).filter(pass).len() < list.filter(pass).len(),
        list.filter(pass)[list.take(i).filter(pass).len() as int] == list[i],
    decreases list.len(),
{
    reveal(Seq::filter);
    let front = list.drop_last();
    if i == list.len() - 1 {
        assert(front =~= list.take(i));
    } else {
        lemma_filter_rank(front, pass, i);
        assert(front.take(i) =~= list.take(i));
    }
}

/// A filtered list has no duplicates where the list has none.
pub(crate) proof fn lemma_filter_distinct<A>(list: Seq<A>, pass: spec_fn(A) -> bool)
    requires
        list.no_duplicates(),
    ensures
        list.filter(pass).no_duplicates(),
    decreases list.len(),
{
    reveal(Seq::filter);
    if list.len() > 0 {
        let front = list.drop_last();
        lemma_filter_distinct(front, pass);
        if front.filter(pass).contains(list.last()) {
            front.lemma_filter_contains_rev(pass, list.last());
            let i = front.index_of(list.last());
            assert(list[i] == list[list.len() - 1]);
        }
    }
}

/// Where no item passes, nothing is left of a list.
pub(crate) proof fn lemma_none_pass<A>(list: Seq<A>, pass: spec_fn(A) -> bool)
    requires
        forall|item: A| list.contains(item) ==> !pass(item),
    ensures
        list.filter(pass) == Seq::<A>::empty(),
    decreases list.len(),
{
    reveal(Seq::filter);
    if list.len() > 0 {
        let front = list.drop_last();
        assert forall|item: A| front.contains(item) implies !pass(item) by {
            let i = front.index_of(item);
            assert(list[i] == item);
            assert(list.contains(item));
        }
        lemma_none_pass(front, pass);
        assert(list.contains(list.last()));
    }
}

/// Whether places below `n` stand in rising order.
pub open spec fn picked(places: Seq<int>, n: int) -> bool {
    &&& forall|j: int| 0 <= j < places.len() ==> 0 <= #[trigger] places[j] < n
    &&& forall|j: int, k: int|
        0 <= j < k < places.len() ==> #[trigger] places[j] < #[trigger] places[k]
}

/// The values that are there are those of certain places, in rising order, and nothing
/// is there in any other place.
pub proof fn lemma_present_picks<T>(items: Seq<Option<T>>) -> (places: Seq<int>)
    ensures
        picked(places, items.len() as int),
        places.len() == present(items).len(),
        forall|i: int|
            0 <= i < items.len() ==> (places.contains(i) <==> #[trigger] items[i] is Some),
        forall|j: int|
            0 <= j < places.len() ==> items[places[j]] == Some(#[trigger] present(items)[j]),
    decreases items.len(),
{
    if items.len() == 0 {
        Seq::empty()
    } else {
        let front = items.drop_last();
        let n = items.len() - 1;
        let before = lemma_present_picks(front);
        assert forall|i: int| 0 <= i < n implies (before.contains(i) <==> #[trigger] items[i]
            is Some) by {
            assert(front[i] == items[i]);
        }
        match items.last() {
            Some(item) => {
                let places = before.push(n);
                assert forall|i: int| 0 <= i < items.len() implies (places.contains(i)
                    <==> #[trigger] items[i] is Some) by {
                    if i == n {
                        assert(places[before.len() as int] == n);
                    } else {
                        if before.contains(i) {
                            let j = before.index_of(i);
                            assert(places[j] == i);
                        }
                        if places.contains(i) {
                            let j = places.index_of(i);
                            assert(before[j] == i);
                        }
                    }
                }
                assert forall|j: int| 0 <= j < places.len() implies items[places[j]] == Some(
                    #[trigger] present(items)[j],
                ) by {
                    if j < before.len() {
                        assert(present(items)[j] == present(front)[j]);
                        assert(front[before[j]] == Some(present(front)[j]));
                    }
                }
                places
            },
            None => {
                assert forall|i: int| 0 <= i < items.len() implies (before.contains(i)
                    <==> #[trigger] items[i] is Some) by {
                    if i == n && before.contains(i) {
                        let j = before.index_of(i);
                        assert(before[j] == n);
                    }
                }
                assert forall|j: int| 0 <= j < before.len() implies items[before[j]] == Some(
                    #[trigger] present(items)[j],
                ) by {
                    assert(front[before[j]] == Some(present(front)[j]));
                }
                before
            },
        }
    }
}

/// A filtered list keeps the order of the list.
pub(crate) proof fn lemma_filter_keeps_order<A>(list: Seq<A>, pass: spec_fn(A) -> bool)
    requires
        list.no_duplicates(),
    ensures
        forall|i: int, j: int|
            0 <= i < j < list.filter(pass).len() ==> list.index_of(
                #[trigger] list.filter(pass)[i],
            ) < list.index_of(#[trigger] list.filter(pass)[j]),
    decreases list.len(),
{
    reveal(Seq::filter);
    if list.len() > 0 {
        let front = list.drop_last();
        lemma_filter_keeps_order(front, pass);
        let kept = list.filter(pass);
        assert forall|x: A| front.contains(x) implies #[trigger] list.index_of(x)
            == front.index_of(x) by {
            let i = front.index_of(x);
            assert(list[i] == x);
            assert(list[list.index_of(x)] == x);
        }
        assert forall|i: int, j: int| 0 <= i < j < kept.len() implies list.index_of(
            #[trigger] kept[i],
        ) < list.index_of(#[trigger] kept[j]) by {
            assert(kept[i] == front.filter(pass)[i]);
            assert(front.filter(pass).contains(kept[i]));
            front.lemma_filter_contains_rev(pass, kept[i]);
            if j < front.filter(pass).len() {
                assert(kept[j] == front.filter(pass)[j]);
                assert(front.filter(pass).contains(kept[j]));
                front.lemma_filter_contains_rev(pass, kept[j]);
            } else {
                assert(kept[j] == list.last());
                assert(list[list.len() - 1] == list.last());
                assert(list.contains(list.last()));
                assert(list.index_of(list.last()) == list.len() - 1);
            }
        }
    }
}

} // verus!

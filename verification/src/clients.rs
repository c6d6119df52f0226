//! The clients that are connected, and which of them go when a write fails.
use crate::lists::{lemma_present_picks, picked, present};
use arrayvec::ArrayVec;
use vstd::prelude::*;

verus! {

pub const MAX_CLIENTS: usize = 256;

/// What came of writing to a client.
#[derive(Debug, Clone, Copy, PartialEq, Eq, Structural)]
pub enum WriteOutcome {
    Written,
    /// The client cannot take more at the moment.
    WouldBlock,
    /// The client has gone.
    Disconnected,
    /// Anything else.
    Failed,
}

impl WriteOutcome {
    /// Whether the client is to be dropped. One that is slow stays.
    pub open spec fn drops(self) -> bool {
        self is Disconnected || self is Failed
    }

    pub fn drops_client(&self) -> (b: bool)
        ensures
            b == self.drops(),
    {
        match self {
            WriteOutcome::Written => false,
            WriteOutcome::WouldBlock => false,
            WriteOutcome::Disconnected => true,
            WriteOutcome::Failed => true,
        }
    }
}

/// The places that a bounded vector of 64 holds, first to last.
pub uninterp spec fn place_list(v: ArrayVec<usize, 64>) -> Seq<usize>;

/// `ArrayVec::new`: a vector that holds nothing.
#[verifier::external_body]
fn places_new() -> (v: ArrayVec<usize, 64>)
    ensures
        place_list(v) == Seq::<usize>::empty(),
{
    ArrayVec::new()
}

/// `ArrayVec::push`: `place` comes behind what the vector holds. The call panics on a
/// vector that is full.
#[verifier::external_body]
fn places_push(v: &mut ArrayVec<usize, 64>, place: usize)
    requires
        place_list(*old(v)).len() < 64,
    ensures
        place_list(*final(v)) == place_list(*old(v)).push(place),
{
    v.push(place);
}

/// `ArrayVec::as_slice`: the places that the vector holds, in order, never more than
/// its type has room for.
#[verifier::external_body]
fn places_slice(v: &ArrayVec<usize, 64>) -> (s: &[usize])
    ensures
        s@ == place_list(*v),
        s@.len() <= 64,
{
    v.as_slice()
}

/// The places, in order, of the outcomes that drop a client, among the first `n`.
pub open spec fn dropped_places(outcomes: Seq<WriteOutcome>, n: nat) -> Seq<usize> {
    present(
        Seq::new(
            n,
            |i: int|
                if outcomes[i].drops() {
                    Some(i as usize)
                } else {
                    None
                },
        ),
    )
}

/// The list once the item in place `i` is taken out and the last one has taken its
/// place.
pub open spec fn swap_removed<T>(list: Seq<T>, i: int) -> Seq<T> {
    list.update(i, list.last()).drop_last()
}

/// The list once the items in the given places are taken out, the last place first.
pub open spec fn without_places<T>(list: Seq<T>, places: Seq<usize>) -> Seq<T>
    decreases places.len(),
{
    if places.len() == 0 {
        list
    } else {
        without_places(swap_removed(list, places.last() as int), places.drop_last())
    }
}

/// The clients that a write reached or will reach: all but those to be dropped.
pub open spec fn kept<T>(clients: Seq<T>, outcomes: Seq<WriteOutcome>) -> Seq<T> {
    present(
        Seq::new(
            clients.len(),
            |i: int|
                if outcomes[i].drops() {
                    None
                } else {
                    Some(clients[i])
                },
        ),
    )
}

proof fn lemma_dropped_places_step(outcomes: Seq<WriteOutcome>, n: nat)
    requires
        n < outcomes.len(),
    ensures
        dropped_places(outcomes, n + 1) == (if outcomes[n as int].drops() {
            dropped_places(outcomes, n).push(n as usize)
        } else {
            dropped_places(outcomes, n)
        }),
{
    let items = |m: nat|
        Seq::new(
            m,
            |i: int|
                if outcomes[i].drops() {
                    Some(i as usize)
                } else {
                    None
                },
        );
    assert(items(n + 1).drop_last() =~= items(n));
}

/// Every place among the first `n` stands in order, below `n`.
proof fn lemma_dropped_places_are_in_order(outcomes: Seq<WriteOutcome>, n: nat)
    requires
        n <= outcomes.len() <= usize::MAX,
    ensures
        dropped_places(outcomes, n).len() <= n,
        forall|i: int|
            0 <= i < dropped_places(outcomes, n).len() ==> #[trigger] dropped_places(
                outcomes,
                n,
            )[i] < n,
        forall|i: int, j: int|
            0 <= i < j < dropped_places(outcomes, n).len() ==> #[trigger] dropped_places(
                outcomes,
                n,
            )[i] < #[trigger] dropped_places(outcomes, n)[j],
    decreases n,
{
    if n > 0 {
        lemma_dropped_places_are_in_order(outcomes, (n - 1) as nat);
        lemma_dropped_places_step(outcomes, (n - 1) as nat);
    }
}

proof fn lemma_dropped_places_grow(outcomes: Seq<WriteOutcome>, m: nat, n: nat)
    requires
        m <= n <= outcomes.len(),
    ensures
        dropped_places(outcomes, m).len() <= dropped_places(outcomes, n).len(),
    decreases n,
{
    if m < n {
        lemma_dropped_places_step(outcomes, (n - 1) as nat);
        lemma_dropped_places_grow(outcomes, m, (n - 1) as nat);
    }
}

/// The connected clients, at most 256 of them. The view is the list of them.
#[derive(Debug)]
pub struct ClientTable<T> {
    clients: Vec<T>,
}

impl<T> View for ClientTable<T> {
    type V = Seq<T>;

    closed spec fn view(&self) -> Seq<T> {
        self.clients@
    }
}

impl<T> ClientTable<T> {
    pub open spec fn wf(self) -> bool {
        self@.len() <= MAX_CLIENTS
    }

    pub fn new() -> (t: Self)
        ensures
            t.wf(),
            t@ == Seq::<T>::empty(),
    {
        ClientTable { clients: Vec::new() }
    }

    pub fn len(&self) -> (n: usize)
        ensures
            n == self@.len(),
    {
        self.clients.len()
    }

    /// Takes a client in, unless there is no room: then it comes back.
    pub fn welcome(&mut self, client: T) -> (r: Result<(), T>)
        requires
            old(self).wf(),
        ensures
            final(self).wf(),
            match r {
                Ok(_) => old(self)@.len() < MAX_CLIENTS && final(self)@ == old(self)@.push(client),
                Err(back) => old(self)@.len() == MAX_CLIENTS && back == client && final(self)@
                    == old(self)@,
            },
    {
        if self.clients.len() >= MAX_CLIENTS {
            return Err(client);
        }
        self.clients.push(client);
        Ok(())
    }

    /// The client in place `i`, to be written to.
    pub fn client_mut(&mut self, i: usize) -> (client: &mut T)
        requires
            i < old(self)@.len(),
        ensures
            *client == old(self)@[i as int],
            final(self)@ == old(self)@.update(i as int, *final(client)),
    {
        &mut self.clients[i]
    }

    /// Whether no more clients are to be dropped than can be dropped at once.
    pub fn can_drop(&self, outcomes: &[WriteOutcome]) -> (b: bool)
        requires
            outcomes@.len() == self@.len(),
        ensures
            b == (dropped_places(outcomes@, outcomes@.len()).len() <= 64),
    {
        let mut count: usize = 0;
        let mut i: usize = 0;
        while i < outcomes.len()
            invariant
                i <= outcomes@.len(),
                count <= i,
                count == dropped_places(outcomes@, i as nat).len(),
            decreases outcomes@.len() - i,
        {
            proof {
                lemma_dropped_places_step(outcomes@, i as nat);
            }
            if outcomes[i].drops_client() {
                count = count + 1;
            }
            i = i + 1;
        }
        count <= 64
    }

    /// Takes out the clients that are to be dropped, given what came of writing to
    /// each, and hands them over, the last first.
    pub fn drop_failed(&mut self, outcomes: &[WriteOutcome]) -> (r: Vec<T>)
        requires
            old(self).wf(),
            outcomes@.len() == old(self)@.len(),
            dropped_places(outcomes@, outcomes@.len()).len() <= 64,
        ensures
            final(self).wf(),
            final(self)@ == without_places(
                old(self)@,
                dropped_places(outcomes@, outcomes@.len()),
            ),
            r@ == dropped_places(outcomes@, outcomes@.len()).reverse().map_values(
                |place: usize| old(self)@[place as int],
            ),
    {
        let mut to_remove = places_new();
        let mut i: usize = 0;
        assert(dropped_places(outcomes@, 0) =~= Seq::empty());
        while i < outcomes.len()
            invariant
                i <= outcomes@.len(),
                place_list(to_remove) == dropped_places(outcomes@, i as nat),
                dropped_places(outcomes@, outcomes@.len()).len() <= 64,
            decreases outcomes@.len() - i,
        {
            proof {
                lemma_dropped_places_step(outcomes@, i as nat);
                lemma_dropped_places_grow(outcomes@, (i + 1) as nat, outcomes@.len());
            }
            if outcomes[i].drops_client() {
                places_push(&mut to_remove, i);
            }
            i = i + 1;
        }
        let places = places_slice(&to_remove);
        let ghost all = dropped_places(outcomes@, outcomes@.len());
        let mut gone: Vec<T> = Vec::new();
        let mut left: usize = places.len();
        proof {
            lemma_dropped_places_are_in_order(outcomes@, outcomes@.len());
            assert(all.take(left as int) =~= all);
        }
        while left > 0
            invariant
                left <= places@.len(),
                places@ == all,
                self@.len() <= old(self)@.len() <= MAX_CLIENTS,
                left > 0 ==> all[left - 1] < self@.len(),
                forall|i: int, j: int| 0 <= i < j < all.len() ==> all[i] < all[j],
                forall|i: int|
                    0 <= i < all.len() ==> #[trigger] all[i] < old(self)@.len(),
                forall|p: int|
                    0 <= p < self@.len() && (left < all.len() ==> p < all[left as int])
                        ==> self@[p] == old(self)@[p],
                without_places(self@, all.take(left as int)) == without_places(old(self)@, all),
                gone@.len() == all.len() - left,
                forall|g: int|
                    0 <= g < gone@.len() ==> #[trigger] gone@[g] == old(self)@[all[all.len() - 1
                        - g] as int],
            decreases left,
        {
            left = left - 1;
            let at: usize = places[left];
            let ghost before = self@;
            proof {
                assert(all.take(left + 1).drop_last() =~= all.take(left as int));
                assert(all.take(left + 1).last() == at);
            }
            let client = self.clients.swap_remove(at);
            assert(self@ =~= swap_removed(before, at as int));
            gone.push(client);
        }
        assert(all.take(0) =~= Seq::empty());
        assert(gone@ =~= all.reverse().map_values(|place: usize| old(self)@[place as int]));
        gone
    }

    /// Takes all clients out.
    pub fn take_all(&mut self) -> (r: Vec<T>)
        ensures
            final(self)@ == Seq::<T>::empty(),
            r@ == old(self)@,
    {
        let mut all: Vec<T> = Vec::new();
        std::mem::swap(&mut all, &mut self.clients);
        all
    }
}

/// The clients from place `m` on that are not to be dropped.
spec fn kept_from<T>(clients: Seq<T>, outcomes: Seq<WriteOutcome>, m: nat) -> Seq<T> {
    present(
        Seq::new(
            (clients.len() - m) as nat,
            |i: int|
                if outcomes[m + i].drops() {
                    None
                } else {
                    Some(clients[m + i])
                },
        ),
    )
}

proof fn lemma_present_first<T>(first: Option<T>, rest: Seq<Option<T>>)
    ensures
        present(seq![first] + rest) == (match first {
            Some(item) => seq![item] + present(rest),
            None => present(rest),
        }),
    decreases rest.len(),
{
    let all = seq![first] + rest;
    if rest.len() == 0 {
        assert(all.drop_last() =~= Seq::empty());
        assert(present(all.drop_last()) =~= Seq::empty());
    } else {
        lemma_present_first(first, rest.drop_last());
        assert(all.drop_last() =~= seq![first] + rest.drop_last());
        assert(all.last() == rest.last());
    }
    match first {
        Some(item) => {
            assert(present(all) =~= seq![item] + present(rest));
        },
        None => {
            assert(present(all) =~= present(rest));
        },
    }
}

proof fn lemma_kept_from_step<T>(clients: Seq<T>, outcomes: Seq<WriteOutcome>, m: nat)
    requires
        m < clients.len(),
    ensures
        kept_from(clients, outcomes, m) == (if outcomes[m as int].drops() {
            kept_from(clients, outcomes, m + 1)
        } else {
            seq![clients[m as int]] + kept_from(clients, outcomes, m + 1)
        }),
{
    let items = |k: nat|
        Seq::new(
            (clients.len() - k) as nat,
            |i: int|
                if outcomes[k + i].drops() {
                    None
                } else {
                    Some(clients[k + i])
                },
        );
    let first = if outcomes[m as int].drops() {
        None
    } else {
        Some(clients[m as int])
    };
    assert(items(m) =~= seq![first] + items(m + 1));
    lemma_present_first(first, items(m + 1));
}

proof fn lemma_places_leave_the_kept<T>(
    clients: Seq<T>,
    outcomes: Seq<WriteOutcome>,
    list: Seq<T>,
    m: nat,
)
    requires
        clients.len() == outcomes.len() <= usize::MAX,
        m <= clients.len(),
        m <= list.len(),
        forall|i: int| 0 <= i < m ==> #[trigger] list[i] == clients[i],
        list.skip(m as int).to_multiset() == kept_from(clients, outcomes, m).to_multiset(),
    ensures
        without_places(list, dropped_places(outcomes, m)).to_multiset() == kept(
            clients,
            outcomes,
        ).to_multiset(),
    decreases m,
{
    broadcast use vstd::seq_lib::group_to_multiset_ensures;

    if m == 0 {
        assert(list.skip(0) =~= list);
        assert(dropped_places(outcomes, 0) =~= Seq::empty());
        assert(Seq::new(
            (clients.len() - 0) as nat,
            |i: int|
                if outcomes[0 + i].drops() {
                    None
                } else {
                    Some(clients[0 + i])
                },
        ) =~= Seq::new(
            clients.len(),
            |i: int|
                if outcomes[i].drops() {
                    None
                } else {
                    Some(clients[i])
                },
        ));
    } else {
        let n = (m - 1) as nat;
        lemma_dropped_places_step(outcomes, n);
        lemma_kept_from_step(clients, outcomes, n);
        let tail = list.skip(m as int);
        if outcomes[n as int].drops() {
            let next = swap_removed(list, n as int);
            assert(dropped_places(outcomes, m).drop_last() =~= dropped_places(outcomes, n));
            assert(forall|i: int| 0 <= i < n ==> #[trigger] next[i] == list[i]);
            if tail.len() == 0 {
                assert(next.skip(n as int) =~= tail);
            } else {
                let moved = seq![tail.last()];
                assert(next.skip(n as int) =~= moved + tail.drop_last());
                assert(tail =~= tail.drop_last() + moved);
                vstd::seq_lib::lemma_multiset_commutative(moved, tail.drop_last());
                vstd::seq_lib::lemma_multiset_commutative(tail.drop_last(), moved);
                assert(next.skip(n as int).to_multiset() =~= tail.to_multiset());
            }
            lemma_places_leave_the_kept(clients, outcomes, next, n);
        } else {
            let here = seq![clients[n as int]];
            assert(list.skip(n as int) =~= here + tail);
            vstd::seq_lib::lemma_multiset_commutative(here, tail);
            vstd::seq_lib::lemma_multiset_commutative(here, kept_from(clients, outcomes, m));
            lemma_places_leave_the_kept(clients, outcomes, list, n);
        }
    }
}

/// Dropping clients drops those whose write failed and no others: the ones that
/// stay are, in whatever order, those that are to be kept.
pub proof fn lemma_only_failed_clients_go<T>(clients: Seq<T>, outcomes: Seq<WriteOutcome>)
    requires
        clients.len() == outcomes.len() <= usize::MAX,
    ensures
        without_places(clients, dropped_places(outcomes, outcomes.len())).to_multiset() == kept(
            clients,
            outcomes,
        ).to_multiset(),
{
    let n = clients.len();
    assert(clients.skip(n as int) =~= Seq::empty());
    assert(kept_from(clients, outcomes, n) =~= Seq::empty());
    lemma_places_leave_the_kept(clients, outcomes, clients, n);
}

/// A client that was written to, or that is merely slow, stays; one that has gone or
/// that failed otherwise goes.
pub proof fn lemma_slow_clients_stay(outcome: WriteOutcome)
    ensures
        outcome == WriteOutcome::Written ==> !outcome.drops(),
        outcome == WriteOutcome::WouldBlock ==> !outcome.drops(),
        outcome == WriteOutcome::Disconnected ==> outcome.drops(),
        outcome == WriteOutcome::Failed ==> outcome.drops(),
{
}

/// The places of clients to be dropped are, in rising order, exactly those where the
/// client has gone or failed.
pub proof fn lemma_dropped_places_are_the_failed(outcomes: Seq<WriteOutcome>, i: int)
    requires
        outcomes.len() <= usize::MAX,
        0 <= i < outcomes.len(),
    ensures
        ({
            let places = dropped_places(outcomes, outcomes.len());
            &&& places.contains(i as usize) <==> outcomes[i] == WriteOutcome::Disconnected
                || outcomes[i] == WriteOutcome::Failed
            &&& forall|j: int| 0 <= j < places.len() ==> #[trigger] places[j] < outcomes.len()
            &&& forall|j: int, k: int|
                0 <= j < k < places.len() ==> #[trigger] places[j] < #[trigger] places[k]
        }),
{
    let n = outcomes.len();
    let items = Seq::new(
        n,
        |i: int|
            if outcomes[i].drops() {
                Some(i as usize)
            } else {
                None
            },
    );
    let places = dropped_places(outcomes, n);
    let picks = lemma_present_picks(items);
    lemma_dropped_places_are_in_order(outcomes, n);
    assert(picks.contains(i) <==> items[i] is Some);
    if picks.contains(i) {
        let j = picks.index_of(i);
        assert(items[picks[j]] == Some(places[j]));
    }
    if places.contains(i as usize) {
        let j = places.index_of(i as usize);
        assert(items[picks[j]] == Some(places[j]));
        assert(picks[j] == i);
    }
}

/// The clients that are kept are, in their order, exactly those that were written to or
/// would block.
pub proof fn lemma_kept_are_the_others<T>(clients: Seq<T>, outcomes: Seq<WriteOutcome>)
    requires
        clients.len() == outcomes.len(),
    ensures
        exists|places: Seq<int>|
            {
                &&& #[trigger] picked(places, clients.len() as int)
                &&& places.len() == kept(clients, outcomes).len()
                &&& forall|i: int|
                    0 <= i < clients.len() ==> (places.contains(i) <==> {
                        ||| #[trigger] outcomes[i] == WriteOutcome::Written
                        ||| outcomes[i] == WriteOutcome::WouldBlock
                    })
                &&& forall|j: int|
                    0 <= j < places.len() ==> clients[places[j]] == #[trigger] kept(
                        clients,
                        outcomes,
                    )[j]
            },
{
    let items = Seq::new(
        clients.len(),
        |i: int|
            if outcomes[i].drops() {
                None
            } else {
                Some(clients[i])
            },
    );
    let places = lemma_present_picks(items);
    assert forall|i: int| 0 <= i < clients.len() implies (places.contains(i) <==> {
        ||| #[trigger] outcomes[i] == WriteOutcome::Written
        ||| outcomes[i] == WriteOutcome::WouldBlock
    }) by {
        assert(items[i] is Some <==> !outcomes[i].drops());
    }
    assert forall|j: int| 0 <= j < places.len() implies clients[places[j]] == #[trigger] kept(
        clients,
        outcomes,
    )[j] by {
        assert(items[places[j]] == Some(kept(clients, outcomes)[j]));
    }
}

} // verus!

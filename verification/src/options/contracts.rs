//! The books of a chain's contracts, found by what tells contracts apart.
//!
//! `ahash::AHashMap` finds the slot of a contract; the books stand in a vector, in
//! the order in which their contracts came.
use crate::options::book::{OptionBook, OptionBookState};
use crate::options::contract::OptionContractKey;
use crate::pricing::OptionType;
use ahash::AHashMap;
use vstd::prelude::*;

verus! {

/// What a hash map from contracts, written as tuples, to slots holds.
pub uninterp spec fn contract_slots(m: AHashMap<(u64, u32, u64, bool), usize>) -> Map<
    (u64, u32, u64, bool),
    usize,
>;

/// `AHashMap::new`: a map that holds nothing.
#[verifier::external_body]
fn contract_slots_new() -> (m: AHashMap<(u64, u32, u64, bool), usize>)
    ensures
        forall|key: (u64, u32, u64, bool)| !contract_slots(m).contains_key(key),
{
    AHashMap::new()
}

/// `AHashMap::get`: the slot that the map holds under `key`, if any.
#[verifier::external_body]
fn contract_slots_get(
    m: &AHashMap<(u64, u32, u64, bool), usize>,
    key: (u64, u32, u64, bool),
) -> (slot: Option<usize>)
    ensures
        slot == (if contract_slots(*m).contains_key(key) {
            Some(contract_slots(*m)[key])
        } else {
            None
        }),
{
    m.get(&key).copied()
}

/// `AHashMap::insert`: afterwards the map holds `slot` under `key`, and under
/// every other key what it held before.
#[verifier::external_body]
fn contract_slots_insert(
    m: &mut AHashMap<(u64, u32, u64, bool), usize>,
    key: (u64, u32, u64, bool),
    slot: usize,
)
    ensures
        contract_slots(*final(m)) == contract_slots(*old(m)).insert(key, slot),
{
    m.insert(key, slot);
}

spec fn code(key: OptionContractKey) -> (u64, u32, u64, bool) {
    (key.underlying, key.expiry_date, key.strike_price, key.option_type is Call)
}

fn encode(key: &OptionContractKey) -> (r: (u64, u32, u64, bool))
    ensures
        r == code(*key),
{
    let call: bool = match key.option_type {
        OptionType::Call => true,
        OptionType::Put => false,
    };
    (key.underlying, key.expiry_date, key.strike_price, call)
}

/// The books of a chain. The view is the state of each contract's book.
#[derive(Debug)]
pub(crate) struct ContractTable {
    index: AHashMap<(u64, u32, u64, bool), usize>,
    keys: Vec<OptionContractKey>,
    books: Vec<OptionBook>,
}

spec fn states(
    index: Map<(u64, u32, u64, bool), usize>,
    books: Seq<OptionBook>,
) -> Map<OptionContractKey, OptionBookState> {
    Map::new(
        |key: OptionContractKey| index.contains_key(code(key)),
        |key: OptionContractKey| books[index[code(key)] as int]@,
    )
}

impl View for ContractTable {
    type V = Map<OptionContractKey, OptionBookState>;

    closed spec fn view(&self) -> Map<OptionContractKey, OptionBookState> {
        states(contract_slots(self.index), self.books@)
    }
}

impl ContractTable {
    /// The slot index and the slots describe each other, and every book is well
    /// formed and stands under its own contract.
    pub closed spec fn wf(self) -> bool {
        &&& self.keys@.len() == self.books@.len()
        &&& forall|i: int|
            0 <= i < self.keys@.len() ==> {
                &&& contract_slots(self.index).contains_key(code(#[trigger] self.keys@[i]))
                &&& contract_slots(self.index)[code(self.keys@[i])] == i
            }
        &&& forall|key: OptionContractKey| #[trigger]
            contract_slots(self.index).contains_key(code(key)) ==> {
                &&& contract_slots(self.index)[code(key)] < self.keys@.len()
                &&& self.keys@[contract_slots(self.index)[code(key)] as int] == key
            }
        &&& forall|i: int|
            0 <= i < self.books@.len() ==> (#[trigger] self.books@[i]).wf()
                && self.books@[i]@.contract.key == self.keys@[i]
    }

    /// The contracts in the order in which they came.
    pub closed spec fn key_list(self) -> Seq<OptionContractKey> {
        self.keys@
    }

    /// The list names every contract exactly once, and every book is in a valid state
    /// and stands under its own contract.
    pub proof fn lemma_key_list(self)
        requires
            self.wf(),
        ensures
            self.key_list().no_duplicates(),
            self@.dom().finite(),
            self@.len() == self.key_list().len(),
            forall|key: OptionContractKey|
                #![trigger self@.contains_key(key)]
                #![trigger self.key_list().contains(key)]
                self@.contains_key(key) <==> self.key_list().contains(key),
            forall|key: OptionContractKey| #[trigger]
                self@.contains_key(key) ==> self@[key].valid() && self@[key].contract.key == key,
    {
        let list = self.key_list();
        assert forall|key: OptionContractKey| self@.contains_key(key) <==> list.contains(key) by {
            if self@.contains_key(key) {
                assert(list[contract_slots(self.index)[code(key)] as int] == key);
            }
            if list.contains(key) {
                let i = choose|i: int| 0 <= i < list.len() && list[i] == key;
                assert(contract_slots(self.index).contains_key(code(list[i])));
            }
        }
        assert forall|i: int, j: int| 0 <= i < j < list.len() implies list[i] != list[j] by {
            assert(contract_slots(self.index)[code(list[i])] == i);
            assert(contract_slots(self.index)[code(list[j])] == j);
        }
        assert(list.to_set() =~= self@.dom());
        list.unique_seq_to_set();
        assert forall|key: OptionContractKey| #[trigger]
            self@.contains_key(key) implies self@[key].valid() && self@[key].contract.key == key by {
            self.books@[contract_slots(self.index)[code(key)] as int].lemma_state_is_valid();
        }
    }

    pub fn new() -> (t: Self)
        ensures
            t.wf(),
            t@ == Map::<OptionContractKey, OptionBookState>::empty(),
            t.key_list() == Seq::<OptionContractKey>::empty(),
    {
        let t = ContractTable {
            index: contract_slots_new(),
            keys: Vec::new(),
            books: Vec::new(),
        };
        assert(t@ =~= Map::<OptionContractKey, OptionBookState>::empty());
        t
    }

    pub fn len(&self) -> (n: usize)
        requires
            self.wf(),
        ensures
            n == self.key_list().len(),
    {
        self.keys.len()
    }

    pub fn get(&self, key: &OptionContractKey) -> (r: Option<&OptionBook>)
        requires
            self.wf(),
        ensures
            match r {
                Some(book) => self@.contains_key(*key) && book@ == self@[*key] && book.wf(),
                None => !self@.contains_key(*key),
            },
    {
        match contract_slots_get(&self.index, encode(key)) {
            Some(slot) => Some(&self.books[slot]),
            None => None,
        }
    }

    /// The place of a contract in the list.
    pub fn position(&self, key: &OptionContractKey) -> (r: Option<usize>)
        requires
            self.wf(),
        ensures
            match r {
                Some(i) => i < self.key_list().len() && self.key_list()[i as int] == *key
                    && self@.contains_key(*key),
                None => !self@.contains_key(*key),
            },
    {
        contract_slots_get(&self.index, encode(key))
    }

    /// The contract in place `i` and its book.
    pub fn entry(&self, i: usize) -> (r: (OptionContractKey, &OptionBook))
        requires
            self.wf(),
            i < self.key_list().len(),
        ensures
            r.0 == self.key_list()[i as int],
            self@.contains_key(r.0),
            r.1@ == self@[r.0],
            r.1.wf(),
    {
        (self.keys[i], &self.books[i])
    }

    /// The book in place `i`, to be changed in place.
    pub fn book_mut(&mut self, i: usize) -> (book: &mut OptionBook)
        requires
            old(self).wf(),
            i < old(self).key_list().len(),
        ensures
            book.wf(),
            book@ == old(self)@[old(self).key_list()[i as int]],
            book@.contract.key == old(self).key_list()[i as int],
            final(self)@ == old(self)@.insert(old(self).key_list()[i as int], final(book)@),
            final(self).key_list() == old(self).key_list(),
            final(book).wf() && final(book)@.contract.key == old(self).key_list()[i as int]
                ==> final(self).wf(),
    {
        proof {
            let key = self.keys@[i as int];
            let index = contract_slots(self.index);
            let books = self.books@;
            assert forall|b: OptionBook| #[trigger]
                states(index, books.update(i as int, b)) == states(index, books).insert(
                    key,
                    b@,
                ) by {
                assert(states(index, books.update(i as int, b)) =~= states(index, books).insert(
                    key,
                    b@,
                ));
            }
        }
        &mut self.books[i]
    }

    /// Puts a book under `key`, in place of the one that stood there.
    pub fn insert(&mut self, key: OptionContractKey, book: OptionBook)
        requires
            old(self).wf(),
            book.wf(),
            book@.contract.key == key,
        ensures
            final(self).wf(),
            final(self)@ == old(self)@.insert(key, book@),
            final(self).key_list() == (if old(self)@.contains_key(key) {
                old(self).key_list()
            } else {
                old(self).key_list().push(key)
            }),
    {
        match contract_slots_get(&self.index, encode(&key)) {
            Some(slot) => {
                self.books.set(slot, book);
                assert(self@ =~= old(self)@.insert(key, book@));
            },
            None => {
                let slot: usize = self.keys.len();
                contract_slots_insert(&mut self.index, encode(&key), slot);
                self.keys.push(key);
                self.books.push(book);
                assert(self@ =~= old(self)@.insert(key, book@));
            },
        }
    }

    /// A table of its own with the same contents.
    pub fn duplicate(&self) -> (t: Self)
        ensures
            self.wf() ==> t.wf() && t@ == self@ && t.key_list() == self.key_list(),
    {
        let mut t = ContractTable::new();
        let mut i: usize = 0;
        while i < self.keys.len() && i < self.books.len()
            invariant
                i <= self.keys@.len(),
                i <= self.books@.len(),
                t.keys@ == self.keys@.take(i as int),
                t.books@.len() == i,
                self.wf() ==> forall|j: int|
                    0 <= j < i ==> (#[trigger] t.books@[j]).wf() && t.books@[j]@ == self.books@[j]@,
                self.wf() ==> forall|key: OptionContractKey|
                    {
                        &&& #[trigger] contract_slots(t.index).contains_key(code(key)) <==> {
                            &&& contract_slots(self.index).contains_key(code(key))
                            &&& contract_slots(self.index)[code(key)] < i
                        }
                        &&& contract_slots(t.index).contains_key(code(key)) ==> contract_slots(
                            t.index,
                        )[code(key)] == contract_slots(self.index)[code(key)]
                    },
            decreases self.keys@.len() - i,
        {
            contract_slots_insert(&mut t.index, encode(&self.keys[i]), i);
            t.keys.push(self.keys[i]);
            t.books.push(self.books[i].clone());
            i = i + 1;
            assert(t.keys@ =~= self.keys@.take(i as int));
        }
        proof {
            if self.wf() {
                assert(self.keys@.take(i as int) =~= self.keys@);
                assert(t@ =~= self@);
            }
        }
        t
    }
}

} // verus!

//! The option chains of all underlyings.
use crate::options::book::{OptionBookState, OptionGreeksSnapshot, PricingOutcome, PricingRequest};
use crate::options::chain::{OptionChain, OptionChainState};
use crate::options::contract::{OptionContract, OptionContractKey};
use crate::options::event::OptionOrderEvent;
use crate::pricing::Real;
use crate::table::Table;
use vstd::prelude::*;

verus! {

/// The state of all chains.
#[verifier::ext_equal]
pub struct OptionChainsState {
    pub chains: Map<u64, OptionChainState>,
    /// The underlyings in the order in which their chains came.
    pub keys: Seq<u64>,
    pub risk_free_rate: Real,
}

impl OptionChainsState {
    pub open spec fn empty(risk_free_rate: Real) -> Self {
        OptionChainsState { chains: Map::empty(), keys: Seq::empty(), risk_free_rate }
    }

    /// Every chain is listed once and in a valid state.
    pub open spec fn valid(self) -> bool {
        &&& self.keys.no_duplicates()
        &&& forall|underlying: u64|
            #![trigger self.chains.contains_key(underlying)]
            #![trigger self.keys.contains(underlying)]
            self.chains.contains_key(underlying) <==> self.keys.contains(underlying)
        &&& forall|underlying: u64| #[trigger]
            self.chains.contains_key(underlying) ==> self.chains[underlying].valid()
    }

    /// The chain of an underlying: an empty one where it has none yet.
    pub open spec fn chain_at(self, underlying: u64) -> OptionChainState {
        if self.chains.contains_key(underlying) {
            self.chains[underlying]
        } else {
            OptionChainState::empty(underlying, self.risk_free_rate)
        }
    }

    pub open spec fn with_chain(self, underlying: u64, chain: OptionChainState) -> Self {
        OptionChainsState {
            chains: self.chains.insert(underlying, chain),
            keys: if self.chains.contains_key(underlying) {
                self.keys
            } else {
                self.keys.push(underlying)
            },
            ..self
        }
    }

    /// Whether a contract is known on its underlying.
    pub open spec fn knows(self, key: OptionContractKey) -> bool {
        self.chain_at(key.underlying).contracts.contains_key(key)
    }

    /// The book of a contract that is known.
    pub open spec fn book_of(self, key: OptionContractKey) -> OptionBookState {
        self.chain_at(key.underlying).contracts[key]
    }

    pub open spec fn with_book(self, key: OptionContractKey, book: OptionBookState) -> Self {
        let chain = self.chain_at(key.underlying);
        self.with_chain(
            key.underlying,
            OptionChainState { contracts: chain.contracts.insert(key, book), ..chain },
        )
    }

    /// Whether the book that an event goes to has room for it.
    pub open spec fn accepts(self, event: OptionOrderEvent) -> bool {
        self.knows(event.contract_key) ==> self.book_of(event.contract_key).accepts(event.action)
    }

    /// The state after an event on an order. The chain of the underlying is there
    /// afterwards, whether the contract is known or not.
    pub open spec fn after(self, event: OptionOrderEvent) -> Self {
        let key = event.contract_key;
        if self.knows(key) {
            self.with_book(key, self.book_of(key).after(event.action))
        } else {
            self.with_chain(key.underlying, self.chain_at(key.underlying))
        }
    }

    /// What the pricing model is asked of a contract, at the rate of all chains:
    /// there has to be a spot price and a mean of the quotes.
    pub open spec fn request(self, key: OptionContractKey, now: u64) -> Option<PricingRequest> {
        match self.chain_at(key.underlying).last_spot_price {
            Some(spot) if self.knows(key) && self.book_of(key).has_mid() => Some(
                self.book_of(key).request(spot, now, self.risk_free_rate),
            ),
            _ => None,
        }
    }

    /// The state once an answer for a contract is taken in.
    pub open spec fn priced(self, key: OptionContractKey, outcome: PricingOutcome) -> Self {
        match self.chain_at(key.underlying).last_spot_price {
            Some(spot) if self.knows(key) => self.with_book(
                key,
                self.book_of(key).priced(spot, outcome),
            ),
            _ => self,
        }
    }

    /// What an answer says of a contract.
    pub open spec fn greeks(self, key: OptionContractKey, outcome: PricingOutcome) -> Option<
        OptionGreeksSnapshot,
    > {
        match self.chain_at(key.underlying).last_spot_price {
            Some(spot) if self.knows(key) => self.book_of(key).greeks(spot, outcome),
            _ => None,
        }
    }
}

/// The option chains of all underlyings. The view is the state of each of them.
#[derive(Debug)]
pub struct OptionChainManager {
    chains: Table<OptionChain>,
    risk_free_rate: Real,
}

spec fn states(chains: Map<u64, OptionChain>) -> Map<u64, OptionChainState> {
    chains.map_values(|chain: OptionChain| chain@)
}

impl View for OptionChainManager {
    type V = OptionChainsState;

    closed spec fn view(&self) -> OptionChainsState {
        OptionChainsState {
            chains: states(self.chains@),
            keys: self.chains.key_list(),
            risk_free_rate: self.risk_free_rate,
        }
    }
}

proof fn lemma_states_insert(chains: Map<u64, OptionChain>, underlying: u64)
    ensures
        forall|c: OptionChain| #[trigger]
            states(chains.insert(underlying, c)) == states(chains).insert(underlying, c@),
{
    assert forall|c: OptionChain| #[trigger]
        states(chains.insert(underlying, c)) == states(chains).insert(underlying, c@) by {
        assert(states(chains.insert(underlying, c)) =~= states(chains).insert(underlying, c@));
    }
}

impl OptionChainManager {
    pub closed spec fn wf(self) -> bool {
        &&& self.chains.wf()
        &&& forall|underlying: u64| #[trigger]
            self.chains@.contains_key(underlying) ==> self.chains@[underlying].wf()
    }

    /// What holds of the state of all chains.
    pub proof fn lemma_state_is_valid(self)
        requires
            self.wf(),
        ensures
            self@.valid(),
            self@.chains.dom().finite(),
            self@.chains.len() == self@.keys.len(),
    {
        self.chains.lemma_key_list();
        assert(self@.chains.dom() =~= self.chains@.dom());
        assert forall|underlying: u64| #[trigger]
            self@.chains.contains_key(underlying) implies self@.chains[underlying].valid() by {
            self.chains@[underlying].lemma_state_is_valid();
        }
    }

    pub fn new(risk_free_rate: Real) -> (m: Self)
        ensures
            m.wf(),
            m@ == OptionChainsState::empty(risk_free_rate),
    {
        let m = OptionChainManager { chains: Table::new(), risk_free_rate };
        assert(m@.chains =~= Map::empty());
        m
    }

    /// The chain of an underlying, to be changed in place; an empty one is made
    /// where it has none.
    pub fn get_or_create_chain(&mut self, underlying: u64) -> (chain: &mut OptionChain)
        requires
            old(self).wf(),
        ensures
            chain.wf(),
            chain@ == old(self)@.chain_at(underlying),
            final(self)@ == old(self)@.with_chain(underlying, final(chain)@),
            final(chain).wf() ==> final(self).wf(),
    {
        let ghost before = self.chains@;
        if !self.chains.contains(underlying) {
            let rate: Real = self.risk_free_rate;
            self.chains.insert(underlying, OptionChain::new(underlying, rate));
        }
        proof {
            lemma_states_insert(before, underlying);
            lemma_states_insert(self.chains@, underlying);
            assert forall|c: OptionChain|
                #![trigger states(self.chains@.insert(underlying, c))]
                states(self.chains@.insert(underlying, c)) == states(before).insert(
                    underlying,
                    c@,
                ) by {
                assert(states(self.chains@.insert(underlying, c)) =~= states(before).insert(
                    underlying,
                    c@,
                ));
            }
        }
        self.chains.get_mut(underlying)
    }

    pub fn get_chain(&self, underlying: u64) -> (r: Option<&OptionChain>)
        requires
            self.wf(),
        ensures
            match r {
                Some(chain) => self@.chains.contains_key(underlying) && chain@
                    == self@.chains[underlying] && chain.wf(),
                None => !self@.chains.contains_key(underlying),
            },
    {
        self.chains.get(underlying)
    }

    /// The chain of an underlying, to be changed in place.
    pub fn get_chain_mut(&mut self, underlying: u64) -> (r: Option<&mut OptionChain>)
        requires
            old(self).wf(),
        ensures
            match r {
                Some(chain) => {
                    &&& old(self)@.chains.contains_key(underlying)
                    &&& chain@ == old(self)@.chains[underlying]
                    &&& chain.wf()
                    &&& final(self)@ == old(self)@.with_chain(underlying, final(chain)@)
                    &&& final(chain).wf() ==> final(self).wf()
                },
                None => {
                    &&& !old(self)@.chains.contains_key(underlying)
                    &&& *final(self) == *old(self)
                },
            },
    {
        if self.chains.contains(underlying) {
            proof {
                lemma_states_insert(self.chains@, underlying);
            }
            Some(self.chains.get_mut(underlying))
        } else {
            None
        }
    }

    /// Takes in the spot price of an underlying that has a chain.
    pub fn update_spot_price(&mut self, underlying: u64, spot_price: Real, timestamp: u64)
        requires
            old(self).wf(),
        ensures
            final(self).wf(),
            final(self)@ == (if old(self)@.chains.contains_key(underlying) {
                old(self)@.with_chain(
                    underlying,
                    old(self)@.chains[underlying].with_spot_price(spot_price, timestamp),
                )
            } else {
                old(self)@
            }),
    {
        match self.get_chain_mut(underlying) {
            Some(chain) => {
                chain.update_spot_price(spot_price, timestamp);
            },
            None => {},
        }
    }

    pub fn register_contract(&mut self, contract: OptionContract)
        requires
            old(self).wf(),
        ensures
            final(self).wf(),
            final(self)@ == old(self)@.with_chain(
                contract.underlying,
                final(self)@.chains[contract.underlying],
            ),
            old(self)@.chain_at(contract.underlying).registers(
                contract,
                final(self)@.chains[contract.underlying],
            ),
    {
        let chain = self.get_or_create_chain(contract.underlying);
        chain.register_contract(contract);
    }

    /// Whether the book that an event goes to has room for it.
    pub fn can_apply(&self, event: &OptionOrderEvent) -> (b: bool)
        requires
            self.wf(),
        ensures
            b == self@.accepts(*event),
    {
        match self.chains.get(event.contract_key.underlying) {
            Some(chain) => match chain.get_contract(&event.contract_key) {
                Some(book) => book.can_apply(&event.action),
                None => true,
            },
            None => true,
        }
    }

    /// Applies an event to the book of its contract, and says what to ask the
    /// pricing model thereupon.
    pub fn apply_option_order_event(
        &mut self,
        event: &OptionOrderEvent,
        current_timestamp_secs: u64,
    ) -> (r: Option<PricingRequest>)
        requires
            old(self).wf(),
            old(self)@.accepts(*event),
        ensures
            final(self).wf(),
            final(self)@ == old(self)@.after(*event),
            r == final(self)@.request(event.contract_key, current_timestamp_secs),
    {
        let rate: Real = self.risk_free_rate;
        let chain = self.get_or_create_chain(event.contract_key.underlying);
        match chain.get_contract_mut(&event.contract_key) {
            Some(book) => {
                book.apply(&event.action);
            },
            None => {
                return None;
            },
        }
        let spot: Real = match chain.last_spot_price() {
            Some(spot) => spot,
            None => {
                return None;
            },
        };
        match chain.get_contract(&event.contract_key) {
            Some(book) => book.pricing_request(spot, current_timestamp_secs, rate),
            None => None,
        }
    }

    /// Takes in what the pricing model answered for a contract and hands it on.
    pub fn complete_pricing(&mut self, key: &OptionContractKey, outcome: PricingOutcome) -> (r:
        Option<OptionGreeksSnapshot>)
        requires
            old(self).wf(),
        ensures
            final(self).wf(),
            final(self)@ == old(self)@.priced(*key, outcome),
            r == old(self)@.greeks(*key, outcome),
    {
        match self.get_chain_mut(key.underlying) {
            Some(chain) => match chain.last_spot_price() {
                Some(spot) => match chain.get_contract_mut(key) {
                    Some(book) => book.compute_pricing(spot, outcome),
                    None => None,
                },
                None => None,
            },
            None => None,
        }
    }

    /// The chains with their underlyings, in the order in which they came.
    pub fn chains(&self) -> (r: Vec<(u64, &OptionChain)>)
        requires
            self.wf(),
        ensures
            r@.len() == self@.keys.len(),
            forall|i: int|
                0 <= i < r@.len() ==> {
                    &&& (#[trigger] r@[i]).0 == self@.keys[i]
                    &&& self@.chains.contains_key(r@[i].0)
                    &&& r@[i].1@ == self@.chains[r@[i].0]
                    &&& r@[i].1.wf()
                },
    {
        let mut list: Vec<(u64, &OptionChain)> = Vec::new();
        let n: usize = self.chains.len();
        let mut i: usize = 0;
        while i < n
            invariant
                self.wf(),
                n == self.chains.key_list().len(),
                i <= n,
                list@.len() == i,
                forall|j: int|
                    0 <= j < i ==> {
                        &&& (#[trigger] list@[j]).0 == self.chains.key_list()[j]
                        &&& self.chains@.contains_key(list@[j].0)
                        &&& *list@[j].1 == self.chains@[list@[j].0]
                    },
            decreases n - i,
        {
            list.push(self.chains.entry(i));
            i = i + 1;
        }
        list
    }

    /// Chain number `i` in the order in which they came, with its underlying, to be
    /// changed in place.
    pub fn chains_mut(&mut self, i: usize) -> (r: (u64, &mut OptionChain))
        requires
            old(self).wf(),
            i < old(self)@.keys.len(),
        ensures
            r.0 == old(self)@.keys[i as int],
            old(self)@.chains.contains_key(r.0),
            r.1@ == old(self)@.chains[r.0],
            r.1.wf(),
            final(self)@ == old(self)@.with_chain(r.0, final(r.1)@),
            final(r.1).wf() ==> final(self).wf(),
    {
        proof {
            lemma_states_insert(self.chains@, self.chains.key_list()[i as int]);
        }
        self.chains.entry_mut(i)
    }
}

impl Default for OptionChainManager {
    fn default() -> (m: Self)
        ensures
            m.wf(),
            m@ == OptionChainsState::empty(Real { bits: 0 }),
    {
        OptionChainManager::new(Real { bits: 0 })
    }
}

} // verus!

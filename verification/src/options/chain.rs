//! All option contracts on one underlying.
use crate::lists::{lemma_filter_distinct, lemma_filter_rank, lemma_filter_step, present};
use crate::options::book::{OptionBook, OptionBookState, OptionGreeksSnapshot, PricingOutcome,
    PricingRequest};
use crate::options::contract::{OptionContract, OptionContractKey};
use crate::options::contracts::ContractTable;
use crate::options::snapshot::{contract_list, contracts_new, contracts_push,
    AggregatedOptionSnapshot, OptionContractSnapshot};
use crate::orderbook::level::BboSnapshot;
use crate::pricing::Real;
use vstd::prelude::*;

verus! {

/// The state of a chain.
#[verifier::ext_equal]
pub struct OptionChainState {
    pub underlying: u64,
    pub contracts: Map<OptionContractKey, OptionBookState>,
    /// The contracts in the order in which they came.
    pub keys: Seq<OptionContractKey>,
    pub expiry_dates: Seq<u32>,
    pub risk_free_rate: Real,
    pub last_spot_price: Option<Real>,
    pub last_spot_timestamp: u64,
    pub chain_dirty: bool,
}

impl OptionChainState {
    pub open spec fn empty(underlying: u64, risk_free_rate: Real) -> Self {
        OptionChainState {
            underlying,
            contracts: Map::empty(),
            keys: Seq::empty(),
            expiry_dates: Seq::empty(),
            risk_free_rate,
            last_spot_price: None,
            last_spot_timestamp: 0,
            chain_dirty: false,
        }
    }

    /// Every contract is listed once, every book is in a valid state and stands under
    /// its own contract, and the expiry dates stand in order, each once.
    pub open spec fn valid(self) -> bool {
        &&& self.keys.no_duplicates()
        &&& forall|key: OptionContractKey|
            #![trigger self.contracts.contains_key(key)]
            #![trigger self.keys.contains(key)]
            self.contracts.contains_key(key) <==> self.keys.contains(key)
        &&& forall|key: OptionContractKey| #[trigger]
            self.contracts.contains_key(key) ==> {
                &&& self.contracts[key].valid()
                &&& self.contracts[key].contract.key == key
            }
        &&& forall|i: int, j: int|
            0 <= i < j < self.expiry_dates.len() ==> self.expiry_dates[i] < self.expiry_dates[j]
    }

    /// Whether a contract is to be priced anew: something has changed since, and
    /// there is a mean of the quotes.
    pub open spec fn awaits(self, key: OptionContractKey) -> bool {
        self.contracts[key].pricing_dirty && self.contracts[key].has_mid()
    }

    pub open spec fn due(self) -> spec_fn(OptionContractKey) -> bool {
        |key: OptionContractKey| self.awaits(key)
    }

    /// The contracts that are to be priced anew. None is before a spot price came.
    pub open spec fn awaiting(self) -> Seq<OptionContractKey> {
        if self.last_spot_price is None {
            Seq::empty()
        } else {
            self.keys.filter(self.due())
        }
    }

    /// What the pricing model is asked, one request for each contract that is to be
    /// priced anew.
    pub open spec fn requests(self, now: u64) -> Seq<PricingRequest> {
        self.awaiting().map_values(
            |key: OptionContractKey|
                self.contracts[key].request(self.last_spot_price->0, now, self.risk_free_rate),
        )
    }

    /// The state once the answers are taken in, one for each contract that was to
    /// be priced anew and in the same order.
    pub open spec fn repriced(self, outcomes: Seq<PricingOutcome>) -> Self {
        if self.last_spot_price is None {
            self
        } else {
            OptionChainState {
                contracts: self.contracts.map_entries(
                    |key: OptionContractKey, book: OptionBookState|
                        if self.awaits(key) {
                            book.priced(
                                self.last_spot_price->0,
                                outcomes[self.awaiting().index_of(key)],
                            )
                        } else {
                            book
                        },
                ),
                chain_dirty: false,
                ..self
            }
        }
    }

    /// What each of the first `n` answers says of its contract.
    pub open spec fn answers(self, outcomes: Seq<PricingOutcome>, n: nat) -> Seq<
        Option<OptionGreeksSnapshot>,
    > {
        Seq::new(
            n,
            |i: int|
                self.contracts[self.awaiting()[i]].greeks(self.last_spot_price->0, outcomes[i]),
        )
    }

    /// What the answers say of the contracts, where they say anything.
    pub open spec fn greeks(self, outcomes: Seq<PricingOutcome>) -> Seq<OptionGreeksSnapshot> {
        present(self.answers(outcomes, self.awaiting().len()))
    }

    /// The state once a spot price came: every contract is to be priced anew.
    pub open spec fn with_spot_price(self, spot_price: Real, timestamp: u64) -> Self {
        OptionChainState {
            contracts: self.contracts.map_values(
                |book: OptionBookState| OptionBookState { pricing_dirty: true, ..book },
            ),
            last_spot_price: Some(spot_price),
            last_spot_timestamp: timestamp,
            chain_dirty: true,
            ..self
        }
    }
}

impl OptionChainState {
    /// A contract comes, with an empty book. Its expiry date takes its place among
    /// the dates, unless it is there already.
    pub open spec fn registers(self, contract: OptionContract, after: Self) -> bool {
        &&& after == OptionChainState {
            contracts: self.contracts.insert(contract.key, OptionBookState::empty(contract)),
            keys: if self.contracts.contains_key(contract.key) {
                self.keys
            } else {
                self.keys.push(contract.key)
            },
            expiry_dates: after.expiry_dates,
            ..self
        }
        &&& after.valid()
        &&& forall|date: u32| #[trigger]
            after.expiry_dates.contains(date) <==> self.expiry_dates.contains(date) || date
                == contract.expiry_date
    }

    /// What a snapshot shows of a contract: it has to be priced, and to have a quote
    /// on one side at least.
    pub open spec fn shown(self, key: OptionContractKey) -> Option<OptionContractSnapshot> {
        let book = self.contracts[key];
        let quote = book.quote();
        match book.last_pricing {
            Some(pricing) if quote.bid_price > 0 || quote.ask_price > 0 => Some(
                OptionContractSnapshot {
                    contract: book.contract,
                    bid_price: quote.bid_price,
                    bid_volume: quote.bid_volume,
                    ask_price: quote.ask_price,
                    ask_volume: quote.ask_volume,
                    implied_volatility: pricing.implied_volatility,
                    delta: pricing.delta,
                    gamma: pricing.gamma,
                    vega: pricing.vega,
                    theta: pricing.theta,
                    rho: pricing.rho,
                    model_price: pricing.price,
                },
            ),
            _ => None,
        }
    }

    /// What a snapshot shows of the first `n` contracts.
    pub open spec fn shown_first(self, n: nat) -> Seq<OptionContractSnapshot> {
        present(Seq::new(n, |i: int| self.shown(self.keys[i])))
    }

    /// The contracts of a snapshot of the chain.
    pub open spec fn listed(self) -> Seq<OptionContractSnapshot> {
        self.shown_first(self.keys.len())
    }

    /// Whether `r` is a snapshot of the chain with the given quotes of the
    /// underlying. Without a contract to show there is none.
    pub open spec fn summed_up(
        self,
        spot_bbo: BboSnapshot,
        r: Option<AggregatedOptionSnapshot>,
    ) -> bool {
        match r {
            Some(snapshot) => {
                &&& self.listed().len() > 0
                &&& snapshot.underlying == self.underlying
                &&& snapshot.spot_bid_price == spot_bbo.bid_price
                &&& snapshot.spot_bid_volume == spot_bbo.bid_volume
                &&& snapshot.spot_ask_price == spot_bbo.ask_price
                &&& snapshot.spot_ask_volume == spot_bbo.ask_volume
                &&& snapshot.spot_timestamp == self.last_spot_timestamp
                &&& contract_list(snapshot.contracts) == self.listed()
            },
            None => self.listed().len() == 0,
        }
    }

    /// Whether some contract that expires on the given date has the given strike.
    pub open spec fn has_strike(self, expiry: u32, strike: u64) -> bool {
        exists|key: OptionContractKey|
            {
                &&& #[trigger] self.contracts.contains_key(key)
                &&& self.contracts[key].contract.expiry_date == expiry
                &&& self.contracts[key].contract.strike_price == strike
            }
    }
}

pub(crate) proof fn lemma_shown_step(chain: OptionChainState, n: nat)
    requires
        n < chain.keys.len(),
    ensures
        chain.shown_first(n + 1) == (match chain.shown(chain.keys[n as int]) {
            Some(item) => chain.shown_first(n).push(item),
            None => chain.shown_first(n),
        }),
{
    let items = Seq::new(n + 1, |i: int| chain.shown(chain.keys[i]));
    assert(items.drop_last() =~= Seq::new(n, |i: int| chain.shown(chain.keys[i])));
}

proof fn lemma_shown_grows(chain: OptionChainState, m: nat, n: nat)
    requires
        m <= n <= chain.keys.len(),
    ensures
        chain.shown_first(m).len() <= chain.shown_first(n).len(),
    decreases n,
{
    if m < n {
        lemma_shown_step(chain, (n - 1) as nat);
        lemma_shown_grows(chain, m, (n - 1) as nat);
    }
}

/// All option contracts on one underlying. The view is the state of the chain.
#[derive(Debug)]
pub struct OptionChain {
    underlying: u64,
    contracts: ContractTable,
    expiry_dates: Vec<u32>,
    risk_free_rate: Real,
    last_spot_price: Option<Real>,
    last_spot_timestamp: u64,
    chain_dirty: bool,
}

impl View for OptionChain {
    type V = OptionChainState;

    closed spec fn view(&self) -> OptionChainState {
        OptionChainState {
            underlying: self.underlying,
            contracts: self.contracts@,
            keys: self.contracts.key_list(),
            expiry_dates: self.expiry_dates@,
            risk_free_rate: self.risk_free_rate,
            last_spot_price: self.last_spot_price,
            last_spot_timestamp: self.last_spot_timestamp,
            chain_dirty: self.chain_dirty,
        }
    }
}

/// Puts a date in its place among dates that stand in order.
fn insert_date(dates: &mut Vec<u32>, date: u32)
    requires
        forall|i: int, j: int| 0 <= i < j < old(dates)@.len() ==> old(dates)@[i] < old(dates)@[j],
    ensures
        forall|i: int, j: int|
            0 <= i < j < final(dates)@.len() ==> final(dates)@[i] < final(dates)@[j],
        forall|d: u32| #[trigger]
            final(dates)@.contains(d) <==> old(dates)@.contains(d) || d == date,
{
    let mut at: usize = 0;
    while at < dates.len() && dates[at] < date
        invariant
            at <= dates@.len(),
            forall|i: int| 0 <= i < at ==> dates@[i] < date,
        decreases dates@.len() - at,
    {
        at = at + 1;
    }
    if at < dates.len() && dates[at] == date {
        return ;
    }
    dates.insert(at, date);
    proof {
        let before = old(dates)@;
        assert(dates@[at as int] == date);
        assert forall|d: u32| #[trigger] dates@.contains(d) <==> before.contains(d) || d
            == date by {
            if before.contains(d) {
                let i = before.index_of(d);
                assert(dates@[if i < at { i } else { i + 1 }] == d);
            }
            if dates@.contains(d) && d != date {
                let i = dates@.index_of(d);
                assert(before[if i < at { i } else { i - 1 }] == d);
            }
        }
    }
}

/// Puts a strike in its place among strikes that stand in order.
fn insert_strike(strikes: &mut Vec<u64>, strike: u64)
    requires
        forall|i: int, j: int|
            0 <= i < j < old(strikes)@.len() ==> old(strikes)@[i] < old(strikes)@[j],
    ensures
        forall|i: int, j: int|
            0 <= i < j < final(strikes)@.len() ==> final(strikes)@[i] < final(strikes)@[j],
        forall|s: u64| #[trigger]
            final(strikes)@.contains(s) <==> old(strikes)@.contains(s) || s == strike,
{
    let mut at: usize = 0;
    while at < strikes.len() && strikes[at] < strike
        invariant
            at <= strikes@.len(),
            forall|i: int| 0 <= i < at ==> strikes@[i] < strike,
        decreases strikes@.len() - at,
    {
        at = at + 1;
    }
    if at < strikes.len() && strikes[at] == strike {
        return ;
    }
    strikes.insert(at, strike);
    proof {
        let before = old(strikes)@;
        assert(strikes@[at as int] == strike);
        assert forall|s: u64| #[trigger] strikes@.contains(s) <==> before.contains(s) || s
            == strike by {
            if before.contains(s) {
                let i = before.index_of(s);
                assert(strikes@[if i < at { i } else { i + 1 }] == s);
            }
            if strikes@.contains(s) && s != strike {
                let i = strikes@.index_of(s);
                assert(before[if i < at { i } else { i - 1 }] == s);
            }
        }
    }
}

impl OptionChain {
    pub closed spec fn wf(self) -> bool {
        &&& self.contracts.wf()
        &&& forall|i: int, j: int|
            0 <= i < j < self.expiry_dates@.len() ==> self.expiry_dates@[i] < self.expiry_dates@[j]
    }

    /// What holds of the state of every chain.
    pub proof fn lemma_state_is_valid(self)
        requires
            self.wf(),
        ensures
            self@.valid(),
    {
        self.contracts.lemma_key_list();
    }

    pub fn new(underlying: u64, risk_free_rate: Real) -> (c: Self)
        ensures
            c.wf(),
            c@ == OptionChainState::empty(underlying, risk_free_rate),
    {
        OptionChain {
            underlying,
            contracts: ContractTable::new(),
            expiry_dates: Vec::new(),
            risk_free_rate,
            last_spot_price: None,
            last_spot_timestamp: 0,
            chain_dirty: false,
        }
    }

    pub fn underlying(&self) -> (u: u64)
        ensures
            u == self@.underlying,
    {
        self.underlying
    }

    pub fn last_spot_price(&self) -> (r: Option<Real>)
        ensures
            r == self@.last_spot_price,
    {
        self.last_spot_price
    }

    pub fn register_contract(&mut self, contract: OptionContract)
        requires
            old(self).wf(),
        ensures
            final(self).wf(),
            old(self)@.registers(contract, final(self)@),
    {
        insert_date(&mut self.expiry_dates, contract.expiry_date);
        self.contracts.insert(contract.key, OptionBook::new(contract));
        proof {
            self.lemma_state_is_valid();
        }
    }

    /// Takes in a spot price. Every contract is to be priced anew.
    pub fn update_spot_price(&mut self, spot_price: Real, timestamp: u64)
        requires
            old(self).wf(),
        ensures
            final(self).wf(),
            final(self)@ == old(self)@.with_spot_price(spot_price, timestamp),
    {
        self.last_spot_price = Some(spot_price);
        self.last_spot_timestamp = timestamp;
        self.chain_dirty = true;
        let ghost first = self.contracts;
        let n: usize = self.contracts.len();
        let mut i: usize = 0;
        while i < n
            invariant
                self.contracts.wf(),
                first.wf(),
                n == first.key_list().len(),
                i <= n,
                self.contracts.key_list() == first.key_list(),
                self.contracts@.dom() == first@.dom(),
                forall|j: int|
                    0 <= j < i ==> self.contracts@[#[trigger] first.key_list()[j]] == (
                    OptionBookState { pricing_dirty: true, ..first@[first.key_list()[j]] }),
                forall|j: int|
                    i <= j < n ==> self.contracts@[#[trigger] first.key_list()[j]]
                        == first@[first.key_list()[j]],
                self.underlying == old(self).underlying,
                self.expiry_dates == old(self).expiry_dates,
                self.risk_free_rate == old(self).risk_free_rate,
                self.last_spot_price == Some(spot_price),
                self.last_spot_timestamp == timestamp,
                self.chain_dirty,
            decreases n - i,
        {
            proof {
                first.lemma_key_list();
                assert(first.key_list().contains(first.key_list()[i as int]));
            }
            self.contracts.book_mut(i).mark_dirty();
            assert(self.contracts@.dom() =~= first@.dom());
            i = i + 1;
        }
        proof {
            first.lemma_key_list();
            assert(self@.contracts =~= old(self)@.with_spot_price(spot_price, timestamp).contracts)
                by {
                assert forall|key: OptionContractKey| #[trigger]
                    first@.contains_key(key) implies self.contracts@[key] == (OptionBookState {
                    pricing_dirty: true,
                    ..first@[key]
                }) by {
                    let j = first.key_list().index_of(key);
                    assert(first.key_list()[j] == key);
                }
            }
        }
    }

    pub fn get_contract(&self, key: &OptionContractKey) -> (r: Option<&OptionBook>)
        requires
            self.wf(),
        ensures
            match r {
                Some(book) => self@.contracts.contains_key(*key) && book@ == self@.contracts[*key]
                    && book.wf(),
                None => !self@.contracts.contains_key(*key),
            },
    {
        self.contracts.get(key)
    }

    /// The book of a contract, to be changed in place. It has to stay the book of that
    /// contract.
    pub fn get_contract_mut(&mut self, key: &OptionContractKey) -> (r: Option<&mut OptionBook>)
        requires
            old(self).wf(),
        ensures
            match r {
                Some(book) => {
                    &&& old(self)@.contracts.contains_key(*key)
                    &&& book@ == old(self)@.contracts[*key]
                    &&& book@.contract.key == *key
                    &&& book.wf()
                    &&& final(self)@ == (OptionChainState {
                        contracts: old(self)@.contracts.insert(*key, final(book)@),
                        ..old(self)@
                    })
                    &&& final(book).wf() && final(book)@.contract.key == *key
                        ==> final(self).wf()
                },
                None => {
                    &&& !old(self)@.contracts.contains_key(*key)
                    &&& *final(self) == *old(self)
                },
            },
    {
        match self.contracts.position(key) {
            Some(i) => Some(self.contracts.book_mut(i)),
            None => None,
        }
    }

    /// What to ask the pricing model, one request for each contract that is to be
    /// priced anew.
    pub fn pricing_requests(&self, current_timestamp_secs: u64) -> (r: Vec<PricingRequest>)
        requires
            self.wf(),
        ensures
            r@ == self@.requests(current_timestamp_secs),
    {
        let mut requests: Vec<PricingRequest> = Vec::new();
        let spot: Real = match self.last_spot_price {
            Some(spot) => spot,
            None => {
                assert(requests@ =~= self@.requests(current_timestamp_secs));
                return requests;
            },
        };
        let ghost ask = |key: OptionContractKey|
            self@.contracts[key].request(
                self@.last_spot_price->0,
                current_timestamp_secs,
                self@.risk_free_rate,
            );
        let n: usize = self.contracts.len();
        let mut i: usize = 0;
        assert(self@.keys.take(0).filter(self@.due()) =~= Seq::empty()) by {
            reveal(Seq::filter);
        }
        while i < n
            invariant
                self.wf(),
                n == self@.keys.len(),
                i <= n,
                self@.last_spot_price == Some(spot),
                ask == |key: OptionContractKey|
                    self@.contracts[key].request(
                        self@.last_spot_price->0,
                        current_timestamp_secs,
                        self@.risk_free_rate,
                    ),
                requests@ == self@.keys.take(i as int).filter(self@.due()).map_values(ask),
            decreases n - i,
        {
            let (key, book) = self.contracts.entry(i);
            proof {
                lemma_filter_step(self@.keys, self@.due(), i as int);
            }
            let ghost before = self@.keys.take(i as int).filter(self@.due());
            if book.is_dirty() {
                match book.pricing_request(spot, current_timestamp_secs, self.risk_free_rate) {
                    Some(request) => {
                        requests.push(request);
                        assert(requests@ =~= before.push(key).map_values(ask));
                    },
                    None => {},
                }
            }
            i = i + 1;
        }
        assert(self@.keys.take(n as int) =~= self@.keys);
        requests
    }

    /// Takes in what the pricing model answered, one answer for each request and in
    /// the same order, and hands on what it found.
    pub fn update_all_pricing(&mut self, outcomes: &[PricingOutcome]) -> (r: Vec<
        OptionGreeksSnapshot,
    >)
        requires
            old(self).wf(),
            outcomes@.len() == old(self)@.awaiting().len(),
        ensures
            final(self).wf(),
            final(self)@ == old(self)@.repriced(outcomes@),
            r@ == old(self)@.greeks(outcomes@),
    {
        let mut results: Vec<OptionGreeksSnapshot> = Vec::new();
        let spot: Real = match self.last_spot_price {
            Some(spot) => spot,
            None => {
                return results;
            },
        };
        let ghost first = self@;
        let ghost keys = first.keys;
        let ghost due = first.due();
        proof {
            self.lemma_state_is_valid();
            lemma_filter_distinct(keys, due);
            assert(keys.take(0).filter(due) =~= Seq::empty()) by {
                reveal(Seq::filter);
            }
            assert(first.answers(outcomes@, 0) =~= Seq::empty());
        }
        let n: usize = self.contracts.len();
        let mut i: usize = 0;
        let mut k: usize = 0;
        while i < n
            invariant
                first == old(self)@,
                first.valid(),
                keys == first.keys,
                due == first.due(),
                first.last_spot_price == Some(spot),
                outcomes@.len() == first.awaiting().len(),
                first.awaiting().no_duplicates(),
                n == keys.len(),
                i <= n,
                k == keys.take(i as int).filter(due).len(),
                self.wf(),
                self@ == (OptionChainState { contracts: self@.contracts, ..first }),
                self@.contracts.dom() == first.contracts.dom(),
                forall|j: int|
                    0 <= j < i ==> self@.contracts[#[trigger] keys[j]] == first.repriced(
                        outcomes@,
                    ).contracts[keys[j]],
                forall|j: int|
                    i <= j < n ==> self@.contracts[#[trigger] keys[j]] == first.contracts[keys[j]],
                results@ == present(first.answers(outcomes@, k as nat)),
            decreases n - i,
        {
            let ghost key = keys[i as int];
            proof {
                assert(keys.contains(key));
                lemma_filter_step(keys, due, i as int);
                if due(key) {
                    lemma_filter_rank(keys, due, i as int);
                    assert(first.awaiting()[k as int] == key);
                    assert(first.awaiting().index_of(key) == k);
                    assert(first.answers(outcomes@, (k + 1) as nat).drop_last() =~= first.answers(
                        outcomes@,
                        k as nat,
                    ));
                }
            }
            let book = self.contracts.book_mut(i);
            if book.is_dirty() && book.mid_price().is_some() {
                match book.compute_pricing(spot, outcomes[k]) {
                    Some(greeks) => {
                        results.push(greeks);
                    },
                    None => {},
                }
                k = k + 1;
            }
            assert(self@.contracts.dom() =~= first.contracts.dom());
            i = i + 1;
        }
        self.chain_dirty = false;
        proof {
            assert(keys.take(n as int) =~= keys);
            assert forall|key: OptionContractKey| #[trigger]
                first.contracts.contains_key(key) implies self@.contracts[key] == first.repriced(
                outcomes@,
            ).contracts[key] by {
                let j = keys.index_of(key);
                assert(keys[j] == key);
            }
            assert(self@.contracts =~= first.repriced(outcomes@).contracts);
        }
        results
    }

    /// Takes in the spot price that goes with the quotes of the underlying, and says
    /// what to ask the pricing model before the chain is summed up.
    pub fn prepare_snapshot(&mut self, spot_price: Real, current_timestamp_secs: u64) -> (r: Vec<
        PricingRequest,
    >)
        requires
            old(self).wf(),
        ensures
            final(self).wf(),
            final(self)@ == old(self)@.with_spot_price(
                spot_price,
                old(self)@.last_spot_timestamp,
            ),
            r@ == final(self)@.requests(current_timestamp_secs),
    {
        let timestamp: u64 = self.last_spot_timestamp;
        self.update_spot_price(spot_price, timestamp);
        self.pricing_requests(current_timestamp_secs)
    }

    /// Takes in what the pricing model answered and sums the chain up.
    pub fn aggregate_snapshot(&mut self, spot_bbo: BboSnapshot, outcomes: &[PricingOutcome]) -> (r:
        Option<AggregatedOptionSnapshot>)
        requires
            old(self).wf(),
            outcomes@.len() == old(self)@.awaiting().len(),
            old(self)@.repriced(outcomes@).listed().len() <= 128,
        ensures
            final(self).wf(),
            final(self)@ == old(self)@.repriced(outcomes@),
            final(self)@.summed_up(spot_bbo, r),
    {
        self.update_all_pricing(outcomes);
        let n: usize = self.contracts.len();
        let mut contracts = contracts_new();
        let mut count: usize = 0;
        let mut i: usize = 0;
        assert(self@.shown_first(0) =~= Seq::empty());
        while i < n
            invariant
                self.wf(),
                n == self@.keys.len(),
                i <= n,
                self@.listed().len() <= 128,
                contract_list(contracts) == self@.shown_first(i as nat),
                count == contract_list(contracts).len(),
            decreases n - i,
        {
            let (key, book) = self.contracts.entry(i);
            proof {
                lemma_shown_step(self@, i as nat);
                lemma_shown_grows(self@, (i + 1) as nat, n as nat);
            }
            match book.last_pricing() {
                Some(pricing) => {
                    let (bid_price, bid_volume, ask_price, ask_volume) = book.bbo_snapshot();
                    if bid_price > 0 || ask_price > 0 {
                        contracts_push(
                            &mut contracts,
                            OptionContractSnapshot {
                                contract: *book.contract(),
                                bid_price,
                                bid_volume,
                                ask_price,
                                ask_volume,
                                implied_volatility: pricing.implied_volatility,
                                delta: pricing.delta,
                                gamma: pricing.gamma,
                                vega: pricing.vega,
                                theta: pricing.theta,
                                rho: pricing.rho,
                                model_price: pricing.price,
                            },
                        );
                        count = count + 1;
                    }
                },
                None => {},
            }
            i = i + 1;
        }
        if count == 0 {
            return None;
        }
        Some(
            AggregatedOptionSnapshot {
                underlying: self.underlying,
                spot_bid_price: spot_bbo.bid_price,
                spot_bid_volume: spot_bbo.bid_volume,
                spot_ask_price: spot_bbo.ask_price,
                spot_ask_volume: spot_bbo.ask_volume,
                spot_timestamp: self.last_spot_timestamp,
                contracts,
            },
        )
    }

    /// Whether a snapshot has room for the contracts that it would show once the
    /// answers are taken in.
    pub fn can_aggregate(&self, outcomes: &[PricingOutcome]) -> (b: bool)
        requires
            self.wf(),
            outcomes@.len() == self@.awaiting().len(),
        ensures
            b == (self@.repriced(outcomes@).listed().len() <= 128),
    {
        let mut copy = self.clone();
        copy.update_all_pricing(outcomes);
        let n: usize = copy.contracts.len();
        let mut count: usize = 0;
        let mut i: usize = 0;
        assert(copy@.shown_first(0) =~= Seq::empty());
        while i < n
            invariant
                copy.wf(),
                n == copy@.keys.len(),
                i <= n,
                count == copy@.shown_first(i as nat).len(),
                count <= i,
            decreases n - i,
        {
            let (_key, book) = copy.contracts.entry(i);
            proof {
                lemma_shown_step(copy@, i as nat);
            }
            if book.last_pricing().is_some() {
                let (bid_price, _bid_volume, ask_price, _ask_volume) = book.bbo_snapshot();
                if bid_price > 0 || ask_price > 0 {
                    count = count + 1;
                }
            }
            i = i + 1;
        }
        count <= 128
    }

    /// The expiry dates in order, each once.
    pub fn expirations(&self) -> (r: &[u32])
        ensures
            r@ == self@.expiry_dates,
    {
        self.expiry_dates.as_slice()
    }

    /// The strikes of the contracts that expire on the given date, in order, each
    /// once.
    pub fn strikes_for_expiry(&self, expiry: u32) -> (r: Vec<u64>)
        requires
            self.wf(),
        ensures
            forall|i: int, j: int| 0 <= i < j < r@.len() ==> r@[i] < r@[j],
            forall|strike: u64| #[trigger]
                r@.contains(strike) <==> self@.has_strike(expiry, strike),
    {
        let mut strikes: Vec<u64> = Vec::new();
        let n: usize = self.contracts.len();
        let mut i: usize = 0;
        while i < n
            invariant
                self.wf(),
                n == self@.keys.len(),
                i <= n,
                forall|i: int, j: int| 0 <= i < j < strikes@.len() ==> strikes@[i] < strikes@[j],
                forall|j: int|
                    0 <= j < i && self@.contracts[#[trigger] self@.keys[j]].contract.expiry_date
                        == expiry ==> strikes@.contains(
                        self@.contracts[self@.keys[j]].contract.strike_price,
                    ),
                forall|strike: u64| #[trigger]
                    strikes@.contains(strike) ==> self@.has_strike(expiry, strike),
            decreases n - i,
        {
            let (key, book) = self.contracts.entry(i);
            assert(self@.contracts.contains_key(key));
            if book.contract().expiry_date == expiry {
                insert_strike(&mut strikes, book.contract().strike_price);
            }
            i = i + 1;
        }
        proof {
            self.lemma_state_is_valid();
            assert forall|strike: u64| self@.has_strike(expiry, strike) implies #[trigger]
            strikes@.contains(strike) by {
                let key = choose|key: OptionContractKey|
                    {
                        &&& #[trigger] self@.contracts.contains_key(key)
                        &&& self@.contracts[key].contract.expiry_date == expiry
                        &&& self@.contracts[key].contract.strike_price == strike
                    };
                let j = self@.keys.index_of(key);
                assert(self@.keys[j] == key);
            }
        }
        strikes
    }

    pub fn len(&self) -> (n: usize)
        requires
            self.wf(),
        ensures
            n == self@.contracts.len(),
            n == self@.keys.len(),
    {
        proof {
            self.contracts.lemma_key_list();
        }
        self.contracts.len()
    }

    pub fn is_empty(&self) -> (b: bool)
        requires
            self.wf(),
        ensures
            b == (self@.keys.len() == 0),
            b == (self@.contracts.len() == 0),
    {
        self.len() == 0
    }
}

impl Clone for OptionChain {
    fn clone(&self) -> (r: Self)
        ensures
            self.wf() ==> r.wf() && r@ == self@,
    {
        OptionChain {
            underlying: self.underlying,
            contracts: self.contracts.duplicate(),
            expiry_dates: self.expiry_dates.clone(),
            risk_free_rate: self.risk_free_rate,
            last_spot_price: self.last_spot_price,
            last_spot_timestamp: self.last_spot_timestamp,
            chain_dirty: self.chain_dirty,
        }
    }
}

} // verus!

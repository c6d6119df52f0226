//! From packets to updates: the step that the gateway takes for every packet.
use crate::lists::present;
use crate::orderbook::books::{all_accept, book_at, books_step, concerns, OrderBook};
use crate::orderbook::level::BboUpdate;
use crate::orderbook::model::BookState;
use crate::protocol::{packet_events, ItchEvent, ItchParser, ProtocolError};
use vstd::prelude::*;

verus! {

/// Whether the books go through the given states, one more than there are results,
/// with the given reports: every event takes them one step on, and what could not
/// be read is passed over.
pub open spec fn replays(
    results: Seq<Result<ItchEvent, ProtocolError>>,
    states: Seq<Map<u64, BookState>>,
    reports: Seq<Option<BboUpdate>>,
) -> bool {
    &&& states.len() == results.len() + 1
    &&& reports.len() == results.len()
    &&& forall|i: int|
        0 <= i < results.len() ==> match #[trigger] results[i] {
            Ok(event) => {
                &&& all_accept(states[i], event)
                &&& books_step(states[i], event, states[i + 1], reports[i])
            },
            Err(_) => states[i + 1] == states[i] && reports[i] is None,
        }
}

/// Whether the results can take the books from one state to another, with the given
/// updates on the way.
pub open spec fn leads_to(
    before: Map<u64, BookState>,
    results: Seq<Result<ItchEvent, ProtocolError>>,
    after: Map<u64, BookState>,
    updates: Seq<BboUpdate>,
) -> bool {
    exists|states: Seq<Map<u64, BookState>>, reports: Seq<Option<BboUpdate>>|
        {
            &&& #[trigger] replays(results, states, reports)
            &&& states.first() == before
            &&& states.last() == after
            &&& updates == present(reports)
        }
}

/// How many of the results are events.
pub open spec fn event_count(results: Seq<Result<ItchEvent, ProtocolError>>) -> nat
    decreases results.len(),
{
    if results.len() == 0 {
        0
    } else {
        event_count(results.drop_last()) + if results.last() is Ok {
            1nat
        } else {
            0nat
        }
    }
}

/// What applying events came to.
pub struct Applied {
    /// The updates that the books reported, in order.
    pub updates: Vec<BboUpdate>,
    /// How many events the books took.
    pub events: u64,
    /// The place of the event that a book had no room for, where there was one.
    /// Neither it nor what comes behind it was applied.
    pub refused: Option<usize>,
}

impl Applied {
    /// What came of applying `results` to the books.
    pub open spec fn tells(
        self,
        before: Map<u64, BookState>,
        results: Seq<Result<ItchEvent, ProtocolError>>,
        after: Map<u64, BookState>,
    ) -> bool {
        match self.refused {
            None => {
                &&& leads_to(before, results, after, self.updates@)
                &&& self.events == event_count(results)
            },
            Some(k) => {
                &&& k < results.len()
                &&& results[k as int] matches Ok(event) && !all_accept(after, event)
                &&& leads_to(before, results.take(k as int), after, self.updates@)
                &&& self.events == event_count(results.take(k as int))
            },
        }
    }
}

/// Applies every event to the books, in order, up to the first that a book has no
/// room for.
pub fn apply_results(
    books: &mut OrderBook,
    results: &[Result<ItchEvent, ProtocolError>],
) -> (r: Applied)
    requires
        old(books).wf(),
    ensures
        final(books).wf(),
        r.tells(old(books)@, results@, final(books)@),
{
    let mut updates: Vec<BboUpdate> = Vec::new();
    let mut events: u64 = 0;
    let mut i: usize = 0;
    let ghost mut states: Seq<Map<u64, BookState>> = seq![books@];
    let ghost mut reports: Seq<Option<BboUpdate>> = Seq::empty();
    assert(results@.take(0) =~= Seq::empty());
    while i < results.len()
        invariant
            books.wf(),
            i <= results@.len(),
            events <= i,
            events == event_count(results@.take(i as int)),
            replays(results@.take(i as int), states, reports),
            states.first() == old(books)@,
            states.last() == books@,
            updates@ == present(reports),
        decreases results@.len() - i,
    {
        let ghost head = results@.take(i as int);
        let ghost next = results@.take(i + 1);
        let ghost old_states = states;
        let ghost old_reports = reports;
        assert(next.drop_last() =~= head);
        match &results[i] {
            Ok(event) => {
                if !books.can_apply(event) {
                    assert(leads_to(old(books)@, head, books@, updates@));
                    return Applied { updates, events, refused: Some(i) };
                }
                events = events + 1;
                let report = books.apply_event(event);
                proof {
                    states = states.push(books@);
                    reports = reports.push(report);
                }
                match report {
                    Some(update) => {
                        updates.push(update);
                    },
                    None => {},
                }
            },
            Err(_) => {
                proof {
                    states = states.push(books@);
                    reports = reports.push(None);
                }
            },
        }
        proof {
            assert(reports.drop_last() =~= old_reports);
            assert forall|j: int| 0 <= j < next.len() implies match #[trigger] next[j] {
                Ok(event) => {
                    &&& all_accept(states[j], event)
                    &&& books_step(states[j], event, states[j + 1], reports[j])
                },
                Err(_) => states[j + 1] == states[j] && reports[j] is None,
            } by {
                if j < i {
                    assert(next[j] == head[j]);
                }
            }
        }
        i = i + 1;
    }
    assert(results@.take(i as int) =~= results@);
    assert(leads_to(old(books)@, results@, books@, updates@));
    Applied { updates, events, refused: None }
}

/// What became of a packet.
pub struct PacketReport {
    /// What was read from the packet, in order.
    pub results: Vec<Result<ItchEvent, ProtocolError>>,
    pub applied: Applied,
}

/// Reads a packet and applies its events to the books.
pub fn process_packet(parser: &ItchParser, books: &mut OrderBook, packet: &[u8]) -> (r:
    PacketReport)
    requires
        old(books).wf(),
    ensures
        final(books).wf(),
        r.results@ == packet_events(packet@),
        r.applied.tells(old(books)@, packet_events(packet@), final(books)@),
{
    let results = parser.parse_multicast_packet(packet);
    let applied = apply_results(books, results.as_slice());
    PacketReport { results, applied }
}

/// How many of the reports speak of a stock.
pub open spec fn reports_on(reports: Seq<Option<BboUpdate>>, stock: u64) -> nat
    decreases reports.len(),
{
    if reports.len() == 0 {
        0
    } else {
        reports_on(reports.drop_last(), stock) + match reports.last() {
            Some(update) if update.stock == stock => 1nat,
            _ => 0nat,
        }
    }
}

/// Whether every book is that of the stock it stands under.
pub open spec fn keyed_by_stock(books: Map<u64, BookState>) -> bool {
    forall|stock: u64| #[trigger] books.contains_key(stock) ==> books[stock].stock == stock
}

/// Each stock's updates are numbered in a row, whatever happens to other stocks in
/// between: the next number of a book is as far on as updates on its stock were
/// reported, in 64 bits.
pub proof fn lemma_numbers_run_on_per_stock(
    results: Seq<Result<ItchEvent, ProtocolError>>,
    states: Seq<Map<u64, BookState>>,
    reports: Seq<Option<BboUpdate>>,
    stock: u64,
)
    requires
        replays(results, states, reports),
        keyed_by_stock(states.first()),
    ensures
        keyed_by_stock(states.last()),
        book_at(states.last(), stock).next_seq as int == (book_at(states.first(), stock).next_seq
            + reports_on(reports, stock)) % 0x1_0000_0000_0000_0000,
    decreases results.len(),
{
    if results.len() > 0 {
        let front = results.drop_last();
        let n = results.len() - 1;
        assert forall|i: int| 0 <= i < front.len() implies match #[trigger] front[i] {
            Ok(event) => {
                &&& all_accept(states.drop_last()[i], event)
                &&& books_step(
                    states.drop_last()[i],
                    event,
                    states.drop_last()[i + 1],
                    reports.drop_last()[i],
                )
            },
            Err(_) => states.drop_last()[i + 1] == states.drop_last()[i]
                && reports.drop_last()[i] is None,
        } by {
            assert(results[i] == front[i]);
        }
        lemma_numbers_run_on_per_stock(front, states.drop_last(), reports.drop_last(), stock);
        let before = states[n];
        let after = states[n + 1];
        assert(states.drop_last().last() == before);
        assert(states.drop_last().first() == states.first());
        match results[n] {
            Ok(event) => {
                if exists|s: u64| concerns(before, event, s) {
                    let s = choose|s: u64|
                        {
                            &&& #[trigger] concerns(before, event, s)
                            &&& after == before.insert(s, book_at(before, s).stepped(event))
                            &&& book_at(before, s).reports(event, reports[n])
                        };
                    assert(book_at(before, s).stock == s);
                }
            },
            Err(_) => {},
        }
    }
}

/// Nothing to apply changes nothing; an event takes the books one step and gives the
/// update that they report, if any; what could not be read is passed over.
pub proof fn lemma_one_result_at_a_time(
    before: Map<u64, BookState>,
    result: Result<ItchEvent, ProtocolError>,
    after: Map<u64, BookState>,
    updates: Seq<BboUpdate>,
)
    ensures
        leads_to(before, Seq::empty(), after, updates) <==> after == before && updates.len() == 0,
        result is Err ==> (leads_to(before, seq![result], after, updates) <==> after == before
            && updates.len() == 0),
        result matches Ok(event) ==> (leads_to(before, seq![result], after, updates) <==> {
            ||| updates.len() == 0 && all_accept(before, event) && books_step(
                before,
                event,
                after,
                None,
            )
            ||| updates.len() == 1 && all_accept(before, event) && books_step(
                before,
                event,
                after,
                Some(updates[0]),
            )
        }),
{
    let none = Seq::<Result<ItchEvent, ProtocolError>>::empty();
    let no_reports = Seq::<Option<BboUpdate>>::empty();
    if after == before && updates.len() == 0 {
        assert(replays(none, seq![before], no_reports));
        assert(updates =~= present(no_reports));
        assert(seq![before].first() == before && seq![before].last() == before);
        if result is Err {
            assert(replays(seq![result], seq![before, before], seq![None::<BboUpdate>]));
            assert(seq![None::<BboUpdate>].drop_last() =~= no_reports);
            assert(updates =~= present(seq![None::<BboUpdate>]));
        }
    }
    if leads_to(before, none, after, updates) {
        let (states, reports) = choose|
            states: Seq<Map<u64, BookState>>,
            reports: Seq<Option<BboUpdate>>,
        |
            {
                &&& #[trigger] replays(none, states, reports)
                &&& states.first() == before
                &&& states.last() == after
                &&& updates == present(reports)
            };
        assert(states.first() == states.last());
        assert(present(reports).len() == 0);
    }
    if leads_to(before, seq![result], after, updates) {
        let (states, reports) = choose|
            states: Seq<Map<u64, BookState>>,
            reports: Seq<Option<BboUpdate>>,
        |
            {
                &&& #[trigger] replays(seq![result], states, reports)
                &&& states.first() == before
                &&& states.last() == after
                &&& updates == present(reports)
            };
        assert(seq![result][0] == result);
        assert(states[0] == before && states[1] == after);
        assert(reports.drop_last() =~= no_reports);
        assert(present(reports.drop_last()).len() == 0);
    }
    match result {
        Ok(event) => {
            if updates.len() == 0 && all_accept(before, event) && books_step(
                before,
                event,
                after,
                None,
            ) {
                let reports = seq![None::<BboUpdate>];
                assert(present(no_reports).len() == 0);
                assert(replays(seq![result], seq![before, after], reports));
                assert(reports.drop_last() =~= no_reports);
                assert(updates =~= present(reports));
                assert(seq![before, after].first() == before);
                assert(seq![before, after].last() == after);
            }
            if updates.len() == 1 && all_accept(before, event) && books_step(
                before,
                event,
                after,
                Some(updates[0]),
            ) {
                let reports = seq![Some(updates[0])];
                assert(present(no_reports).len() == 0);
                assert(replays(seq![result], seq![before, after], reports));
                assert(reports.drop_last() =~= no_reports);
                assert(updates =~= present(reports));
                assert(seq![before, after].first() == before);
                assert(seq![before, after].last() == after);
            }
        },
        Err(_) => {},
    }
}

proof fn lemma_present_joins<T>(a: Seq<Option<T>>, b: Seq<Option<T>>)
    ensures
        present(a + b) == present(a) + present(b),
    decreases b.len(),
{
    if b.len() == 0 {
        assert(a + b =~= a);
        assert(present(a) + present(b) =~= present(a));
    } else {
        lemma_present_joins(a, b.drop_last());
        assert((a + b).drop_last() =~= a + b.drop_last());
        assert(present(a + b) =~= present(a) + present(b));
    }
}

/// Results are applied one after the other: some results and then others lead where
/// the others lead from where the first lead, with the updates of the first and then
/// those of the others.
pub proof fn lemma_results_are_applied_in_order(
    before: Map<u64, BookState>,
    first: Seq<Result<ItchEvent, ProtocolError>>,
    second: Seq<Result<ItchEvent, ProtocolError>>,
    after: Map<u64, BookState>,
    updates: Seq<BboUpdate>,
)
    ensures
        leads_to(before, first + second, after, updates) <==> exists|
            mid: Map<u64, BookState>,
            n: int,
        |
            {
                &&& 0 <= n <= updates.len()
                &&& #[trigger] leads_to(before, first, mid, updates.take(n))
                &&& leads_to(mid, second, after, updates.skip(n))
            },
{
    if leads_to(before, first + second, after, updates) {
        let (states, reports) = choose|
            states: Seq<Map<u64, BookState>>,
            reports: Seq<Option<BboUpdate>>,
        |
            {
                &&& #[trigger] replays(first + second, states, reports)
                &&& states.first() == before
                &&& states.last() == after
                &&& updates == present(reports)
            };
        let m = first.len() as int;
        let states_a = states.take(m + 1);
        let states_b = states.skip(m);
        let reports_a = reports.take(m);
        let reports_b = reports.skip(m);
        assert forall|i: int| 0 <= i < first.len() implies match #[trigger] first[i] {
            Ok(event) => {
                &&& all_accept(states_a[i], event)
                &&& books_step(states_a[i], event, states_a[i + 1], reports_a[i])
            },
            Err(_) => states_a[i + 1] == states_a[i] && reports_a[i] is None,
        } by {
            assert((first + second)[i] == first[i]);
        }
        assert forall|i: int| 0 <= i < second.len() implies match #[trigger] second[i] {
            Ok(event) => {
                &&& all_accept(states_b[i], event)
                &&& books_step(states_b[i], event, states_b[i + 1], reports_b[i])
            },
            Err(_) => states_b[i + 1] == states_b[i] && reports_b[i] is None,
        } by {
            assert((first + second)[m + i] == second[i]);
        }
        assert(replays(first, states_a, reports_a));
        assert(replays(second, states_b, reports_b));
        lemma_present_joins(reports_a, reports_b);
        assert(reports_a + reports_b =~= reports);
        let n = present(reports_a).len() as int;
        assert(updates.take(n) =~= present(reports_a));
        assert(updates.skip(n) =~= present(reports_b));
        assert(leads_to(before, first, states[m], updates.take(n)));
        assert(leads_to(states[m], second, after, updates.skip(n)));
    }
    if exists|mid: Map<u64, BookState>, n: int|
        {
            &&& 0 <= n <= updates.len()
            &&& #[trigger] leads_to(before, first, mid, updates.take(n))
            &&& leads_to(mid, second, after, updates.skip(n))
        } {
        let (mid, n) = choose|mid: Map<u64, BookState>, n: int|
            {
                &&& 0 <= n <= updates.len()
                &&& #[trigger] leads_to(before, first, mid, updates.take(n))
                &&& leads_to(mid, second, after, updates.skip(n))
            };
        let (states_a, reports_a) = choose|
            states: Seq<Map<u64, BookState>>,
            reports: Seq<Option<BboUpdate>>,
        |
            {
                &&& #[trigger] replays(first, states, reports)
                &&& states.first() == before
                &&& states.last() == mid
                &&& updates.take(n) == present(reports)
            };
        let (states_b, reports_b) = choose|
            states: Seq<Map<u64, BookState>>,
            reports: Seq<Option<BboUpdate>>,
        |
            {
                &&& #[trigger] replays(second, states, reports)
                &&& states.first() == mid
                &&& states.last() == after
                &&& updates.skip(n) == present(reports)
            };
        let states = states_a + states_b.skip(1);
        let reports = reports_a + reports_b;
        let m = first.len() as int;
        assert forall|i: int| 0 <= i < (first + second).len() implies match #[trigger] (first
            + second)[i] {
            Ok(event) => {
                &&& all_accept(states[i], event)
                &&& books_step(states[i], event, states[i + 1], reports[i])
            },
            Err(_) => states[i + 1] == states[i] && reports[i] is None,
        } by {
            if i < m {
                assert((first + second)[i] == first[i]);
            } else {
                assert((first + second)[i] == second[i - m]);
                assert(states[i] == states_b[i - m]);
                assert(states[i + 1] == states_b[i - m + 1]);
            }
        }
        assert(replays(first + second, states, reports));
        lemma_present_joins(reports_a, reports_b);
        assert(updates.take(n) + updates.skip(n) =~= updates);
        assert(states.first() == before);
        assert(states.last() == after);
        assert(leads_to(before, first + second, after, updates));
    }
}

/// Events are counted one by one: what could not be read counts nothing.
pub proof fn lemma_events_are_counted(
    results: Seq<Result<ItchEvent, ProtocolError>>,
    result: Result<ItchEvent, ProtocolError>,
)
    ensures
        event_count(Seq::empty()) == 0,
        result is Ok ==> event_count(results.push(result)) == event_count(results) + 1,
        result is Err ==> event_count(results.push(result)) == event_count(results),
{
    assert(results.push(result).drop_last() =~= results);
}

/// Either every result was applied and counted, or those before the first event that
/// the books, as they then stood, had no room for.
pub proof fn lemma_application_stops_at_the_first_refusal(
    applied: Applied,
    before: Map<u64, BookState>,
    results: Seq<Result<ItchEvent, ProtocolError>>,
    after: Map<u64, BookState>,
)
    requires
        applied.tells(before, results, after),
    ensures
        applied.refused is None ==> {
            &&& leads_to(before, results, after, applied.updates@)
            &&& applied.events == event_count(results)
        },
        applied.refused matches Some(k) ==> {
            &&& k < results.len()
            &&& leads_to(before, results.take(k as int), after, applied.updates@)
            &&& applied.events == event_count(results.take(k as int))
            &&& results[k as int] is Ok
            &&& !all_accept(after, results[k as int]->Ok_0)
        },
{
}

} // verus!

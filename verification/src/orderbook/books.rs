//! The books of all stocks.
use crate::orderbook::book::SingleOrderBook;
use crate::orderbook::level::BboUpdate;
use crate::orderbook::model::BookState;
use crate::protocol::ItchEvent;
use crate::table::Table;
use vstd::prelude::*;

verus! {

/// The book of a stock: an empty one where the stock has none yet.
pub open spec fn book_at(books: Map<u64, BookState>, stock: u64) -> BookState {
    if books.contains_key(stock) {
        books[stock]
    } else {
        BookState::empty(stock)
    }
}

/// The order that an event speaks of, where it names one that should be live.
pub open spec fn live_order_of(event: ItchEvent) -> Option<u64> {
    match event {
        ItchEvent::OrderExecuted { order_ref, .. } => Some(order_ref),
        ItchEvent::OrderExecutedPrice { order_ref, .. } => Some(order_ref),
        ItchEvent::OrderCancel { order_ref, .. } => Some(order_ref),
        ItchEvent::OrderDelete { order_ref, .. } => Some(order_ref),
        ItchEvent::OrderReplace { order_ref, .. } => Some(order_ref),
        _ => None,
    }
}

/// Whether an event can go to the book of the given stock: a new order goes to
/// the book of its stock, an event on a live order to a book that holds it.
pub open spec fn concerns(books: Map<u64, BookState>, event: ItchEvent, stock: u64) -> bool {
    match event {
        ItchEvent::AddOrder { stock: of, .. } => stock == of,
        ItchEvent::AddOrderMpid { stock: of, .. } => stock == of,
        _ => match live_order_of(event) {
            Some(order_ref) => books.contains_key(stock) && books[stock].orders.contains_key(
                order_ref,
            ),
            None => false,
        },
    }
}

/// Whether every book that the event can go to accepts it.
pub open spec fn all_accept(books: Map<u64, BookState>, event: ItchEvent) -> bool {
    forall|stock: u64| #[trigger]
        concerns(books, event, stock) ==> book_at(books, stock).accepts(event)
}

/// Whether an event can take the books from one state to another with the given
/// report: one book that the event concerns takes it and reports, and no other
/// book changes. Where it concerns none, nothing changes and nothing is reported.
pub open spec fn books_step(
    before: Map<u64, BookState>,
    event: ItchEvent,
    after: Map<u64, BookState>,
    report: Option<BboUpdate>,
) -> bool {
    if exists|stock: u64| concerns(before, event, stock) {
        exists|stock: u64|
            {
                &&& #[trigger] concerns(before, event, stock)
                &&& after == before.insert(stock, book_at(before, stock).stepped(event))
                &&& book_at(before, stock).reports(event, report)
            }
    } else {
        after == before && report is None
    }
}

/// The books of all stocks. The view is the state of each of them.
pub struct OrderBook {
    books: Table<SingleOrderBook>,
}

spec fn states(books: Map<u64, SingleOrderBook>) -> Map<u64, BookState> {
    books.map_values(|book: SingleOrderBook| book@)
}

impl View for OrderBook {
    type V = Map<u64, BookState>;

    closed spec fn view(&self) -> Map<u64, BookState> {
        states(self.books@)
    }
}

impl OrderBook {
    pub closed spec fn wf(self) -> bool {
        &&& self.books.wf()
        &&& forall|stock: u64| #[trigger]
            self.books@.contains_key(stock) ==> {
                &&& self.books@[stock].wf()
                &&& self.books@[stock]@.stock == stock
            }
    }

    /// Every stock's book is that stock's, and in a valid state.
    pub proof fn lemma_books_are_valid(self)
        requires
            self.wf(),
        ensures
            self@.dom().finite(),
            forall|stock: u64| #[trigger]
                self@.contains_key(stock) ==> self@[stock].valid() && self@[stock].stock == stock,
    {
        self.books.lemma_key_list();
        assert(self@.dom() =~= self.books@.dom());
        assert forall|stock: u64| #[trigger] self@.contains_key(stock) implies self@[stock].valid()
            && self@[stock].stock == stock by {
            self.books@[stock].lemma_state_is_valid();
        }
    }

    pub fn new() -> (b: Self)
        ensures
            b.wf(),
            b@ == Map::<u64, BookState>::empty(),
    {
        let b = OrderBook { books: Table::with_capacity(1024) };
        assert(b@ =~= Map::<u64, BookState>::empty());
        b
    }

    /// The book of a stock, to be changed in place; an empty one is made where the
    /// stock has none.
    pub fn get_or_create(&mut self, stock: u64) -> (book: &mut SingleOrderBook)
        requires
            old(self).wf(),
        ensures
            book.wf(),
            book@ == book_at(old(self)@, stock),
            final(self)@ == old(self)@.insert(stock, final(book)@),
            final(book).wf() && final(book)@.stock == stock ==> final(self).wf(),
    {
        let ghost before = self.books@;
        if !self.books.contains(stock) {
            self.books.insert(stock, SingleOrderBook::new(stock));
        }
        proof {
            let made = self.books@;
            assert forall|b: SingleOrderBook| #[trigger]
                states(made.insert(stock, b)) == states(before).insert(stock, b@) by {
                assert(states(made.insert(stock, b)) =~= states(before).insert(stock, b@));
            }
        }
        self.books.get_mut(stock)
    }

    pub fn get(&self, stock: u64) -> (r: Option<&SingleOrderBook>)
        requires
            self.wf(),
        ensures
            match r {
                Some(book) => self@.contains_key(stock) && book@ == self@[stock] && book.wf(),
                None => !self@.contains_key(stock),
            },
    {
        self.books.get(stock)
    }

    /// Applies an event to the book that it concerns.
    pub fn apply_event(&mut self, event: &ItchEvent) -> (r: Option<BboUpdate>)
        requires
            old(self).wf(),
            all_accept(old(self)@, *event),
        ensures
            final(self).wf(),
            books_step(old(self)@, *event, final(self)@, r),
    {
        match event {
            ItchEvent::AddOrder { stock, .. } => self.apply_to(*stock, event),
            ItchEvent::AddOrderMpid { stock, .. } => self.apply_to(*stock, event),
            ItchEvent::OrderExecuted { order_ref, .. } => self.apply_to_holder(*order_ref, event),
            ItchEvent::OrderExecutedPrice { order_ref, .. } => self.apply_to_holder(
                *order_ref,
                event,
            ),
            ItchEvent::OrderCancel { order_ref, .. } => self.apply_to_holder(*order_ref, event),
            ItchEvent::OrderDelete { order_ref, .. } => self.apply_to_holder(*order_ref, event),
            ItchEvent::OrderReplace { order_ref, .. } => self.apply_to_holder(*order_ref, event),
            _ => None,
        }
    }

    fn apply_to(&mut self, stock: u64, event: &ItchEvent) -> (r: Option<BboUpdate>)
        requires
            old(self).wf(),
            concerns(old(self)@, *event, stock),
            book_at(old(self)@, stock).accepts(*event),
        ensures
            final(self).wf(),
            books_step(old(self)@, *event, final(self)@, r),
    {
        proof {
            self.lemma_books_are_valid();
        }
        let book = self.get_or_create(stock);
        book.apply_event(event)
    }

    fn apply_to_holder(&mut self, order_ref: u64, event: &ItchEvent) -> (r: Option<BboUpdate>)
        requires
            old(self).wf(),
            live_order_of(*event) == Some(order_ref),
            all_accept(old(self)@, *event),
        ensures
            final(self).wf(),
            books_step(old(self)@, *event, final(self)@, r),
    {
        match self.find_stock_for_order(order_ref) {
            Some(stock) => self.apply_to(stock, event),
            None => None,
        }
    }

    /// A stock whose book holds the order, where there is one.
    fn find_stock_for_order(&self, order_ref: u64) -> (r: Option<u64>)
        requires
            self.wf(),
        ensures
            match r {
                Some(stock) => self@.contains_key(stock) && self@[stock].orders.contains_key(
                    order_ref,
                ),
                None => forall|stock: u64| #[trigger]
                    self@.contains_key(stock) ==> !self@[stock].orders.contains_key(order_ref),
            },
    {
        let mut i: usize = 0;
        while i < self.books.len()
            invariant
                self.wf(),
                i <= self.books.key_list().len(),
                forall|j: int|
                    0 <= j < i ==> !self.books@[#[trigger] self.books.key_list()[j]]@.orders.contains_key(
                        order_ref,
                    ),
            decreases self.books.key_list().len() - i,
        {
            let (stock, book) = self.books.entry(i);
            if book.holds(order_ref) {
                return Some(book.stock());
            }
            i = i + 1;
        }
        proof {
            self.books.lemma_key_list();
            assert forall|stock: u64| #[trigger] self@.contains_key(
                stock,
            ) implies !self@[stock].orders.contains_key(order_ref) by {
                assert(self.books@.contains_key(stock));
                let j = choose|j: int|
                    0 <= j < self.books.key_list().len() && self.books.key_list()[j] == stock;
                assert(self.books.key_list()[j] == stock);
            }
        }
        None
    }

    /// Whether every book that the event can go to accepts it.
    pub fn can_apply(&self, event: &ItchEvent) -> (b: bool)
        requires
            self.wf(),
        ensures
            b == all_accept(self@, *event),
    {
        match event {
            ItchEvent::AddOrder { stock, .. } => self.can_apply_to(*stock, event),
            ItchEvent::AddOrderMpid { stock, .. } => self.can_apply_to(*stock, event),
            ItchEvent::OrderReplace { order_ref, .. } => self.holders_accept(*order_ref, event),
            _ => true,
        }
    }

    fn can_apply_to(&self, stock: u64, event: &ItchEvent) -> (b: bool)
        requires
            self.wf(),
            event is AddOrder || event is AddOrderMpid,
            concerns(self@, *event, stock),
        ensures
            b == all_accept(self@, *event),
    {
        match self.books.get(stock) {
            Some(book) => {
                let b: bool = book.can_apply(event);
                assert(book@ == book_at(self@, stock));
                b
            },
            None => true,
        }
    }

    fn holders_accept(&self, order_ref: u64, event: &ItchEvent) -> (b: bool)
        requires
            self.wf(),
            live_order_of(*event) == Some(order_ref),
        ensures
            b == all_accept(self@, *event),
    {
        let mut i: usize = 0;
        while i < self.books.len()
            invariant
                self.wf(),
                live_order_of(*event) == Some(order_ref),
                i <= self.books.key_list().len(),
                forall|j: int|
                    0 <= j < i ==> {
                        let book = self.books@[#[trigger] self.books.key_list()[j]]@;
                        book.orders.contains_key(order_ref) ==> book.accepts(*event)
                    },
            decreases self.books.key_list().len() - i,
        {
            let (stock, book) = self.books.entry(i);
            if book.holds(order_ref) && !book.can_apply(event) {
                assert(concerns(self@, *event, stock));
                return false;
            }
            i = i + 1;
        }
        proof {
            self.books.lemma_key_list();
            assert forall|stock: u64| #[trigger] concerns(self@, *event, stock) implies book_at(
                self@,
                stock,
            ).accepts(*event) by {
                assert(self.books@.contains_key(stock));
                let j = choose|j: int|
                    0 <= j < self.books.key_list().len() && self.books.key_list()[j] == stock;
                assert(self.books.key_list()[j] == stock);
            }
        }
        true
    }

    /// The number of stocks that have a book.
    pub fn len(&self) -> (n: usize)
        requires
            self.wf(),
        ensures
            n == self@.len(),
    {
        assert(self@.dom() =~= self.books@.dom());
        self.books.len()
    }

    pub fn is_empty(&self) -> (b: bool)
        requires
            self.wf(),
        ensures
            b == (self@.len() == 0),
    {
        self.len() == 0
    }

    /// All books, each once, in no particular order.
    pub fn iter_books(&self) -> (r: Vec<&SingleOrderBook>)
        requires
            self.wf(),
        ensures
            r@.len() == self@.len(),
            forall|i: int|
                0 <= i < r@.len() ==> {
                    &&& (#[trigger] r@[i]).wf()
                    &&& self@.contains_key(r@[i]@.stock)
                    &&& self@[r@[i]@.stock] == r@[i]@
                },
            forall|i: int, j: int|
                0 <= i < j < r@.len() ==> (#[trigger] r@[i])@.stock != (#[trigger] r@[j])@.stock,
            forall|stock: u64| #[trigger]
                self@.contains_key(stock) ==> exists|i: int|
                    0 <= i < r@.len() && (#[trigger] r@[i])@.stock == stock,
    {
        let mut r: Vec<&SingleOrderBook> = Vec::new();
        let mut i: usize = 0;
        while i < self.books.len()
            invariant
                self.wf(),
                i <= self.books.key_list().len(),
                r@.len() == i,
                forall|j: int|
                    0 <= j < i ==> {
                        &&& (#[trigger] r@[j])@.stock == self.books.key_list()[j]
                        &&& *r@[j] == self.books@[self.books.key_list()[j]]
                        &&& self.books@.contains_key(self.books.key_list()[j])
                    },
            decreases self.books.key_list().len() - i,
        {
            let (stock, book) = self.books.entry(i);
            r.push(book);
            i = i + 1;
        }
        proof {
            self.books.lemma_key_list();
            assert(self@.dom() =~= self.books@.dom());
            assert forall|stock: u64| #[trigger] self@.contains_key(stock) implies exists|i: int|
                0 <= i < r@.len() && (#[trigger] r@[i])@.stock == stock by {
                assert(self.books@.contains_key(stock));
                let j = choose|j: int|
                    0 <= j < self.books.key_list().len() && self.books.key_list()[j] == stock;
                assert(r@[j]@.stock == stock);
            }
        }
        r
    }
}

impl Default for OrderBook {
    fn default() -> (b: Self)
        ensures
            b.wf(),
            b@ == Map::<u64, BookState>::empty(),
    {
        OrderBook::new()
    }
}

} // verus!

//! Order books and the exchange that lists securities and matches orders.

use vstd::prelude::*;
use std::collections::VecDeque;
use crate::orders::{Order, OrderType, Trade};
use crate::securities_lib::{Security, Trend};
use crate::matching::{
    ahead_of, crosses, insert_by_priority, lemma_insert_by_priority_at, lemma_insert_keeps_order, lemma_match_keeps_order,
    lemma_match_shape, match_against,
    priority_slot, lemma_priority_slot, side_ordered, trade_between, traded_quantity, with_quantity,
};

verus! {

/// The contents of an order book: bids and offers, each in priority order
/// (best price first, earlier arrival first at equal prices).
pub struct BookView {
    pub bids: Seq<Order>,
    pub asks: Seq<Order>,
}

impl BookView {
    /// Bids hold only buy orders with falling prices; offers hold only sell
    /// orders with rising prices.
    pub open spec fn wf(self) -> bool {
        &&& side_ordered(self.bids, OrderType::Buy)
        &&& side_ordered(self.asks, OrderType::Sell)
    }

    /// The book after `order` is queued on its own side.
    pub open spec fn with_order(self, order: Order) -> BookView {
        match order.order_type {
            OrderType::Buy => BookView { bids: insert_by_priority(self.bids, order), asks: self.asks },
            OrderType::Sell => BookView { bids: self.bids, asks: insert_by_priority(self.asks, order) },
        }
    }

    /// Matching `order` against the opposite side, then queueing whatever is
    /// left of it: the resulting book and the trades, in execution order.
    pub open spec fn after_incoming(self, order: Order) -> (BookView, Seq<Trade>) {
        match order.order_type {
            OrderType::Buy => {
                let m = match_against(order, self.asks);
                let b = BookView { bids: self.bids, asks: m.2 };
                (if m.0.quantity > 0 { b.with_order(m.0) } else { b }, m.1)
            },
            OrderType::Sell => {
                let m = match_against(order, self.bids);
                let b = BookView { bids: m.2, asks: self.asks };
                (if m.0.quantity > 0 { b.with_order(m.0) } else { b }, m.1)
            },
        }
    }

    /// The best bid is below the best offer.
    pub open spec fn uncrossed(self) -> bool {
        self.bids.len() > 0 && self.asks.len() > 0 ==> self.bids[0].price < self.asks[0].price
    }
}

/// The resting buy and sell orders of one security.
pub struct OrderBook {
    buy_orders: VecDeque<Order>,
    sell_orders: VecDeque<Order>,
}

impl View for OrderBook {
    type V = BookView;

    closed spec fn view(&self) -> BookView {
        BookView { bids: self.buy_orders@, asks: self.sell_orders@ }
    }
}

fn is_ahead(resting: &Order, order: &Order) -> (b: bool)
    ensures
        b == ahead_of(*resting, *order),
{
    match order.order_type {
        OrderType::Buy => resting.price >= order.price,
        OrderType::Sell => resting.price <= order.price,
    }
}

fn is_crossing(incoming: &Order, resting_price: u64) -> (b: bool)
    ensures
        b == crosses(*incoming, resting_price),
{
    match incoming.order_type {
        OrderType::Buy => resting_price <= incoming.price,
        OrderType::Sell => resting_price >= incoming.price,
    }
}

fn make_trade(incoming: &Order, resting: &Order, quantity: u64) -> (t: Trade)
    ensures
        t == trade_between(*incoming, *resting, quantity),
{
    match incoming.order_type {
        OrderType::Buy => Trade::new(
            incoming.id,
            resting.id,
            incoming.security_ticker.clone(),
            quantity,
            resting.price,
            incoming.timestamp,
        ),
        OrderType::Sell => Trade::new(
            resting.id,
            incoming.id,
            incoming.security_ticker.clone(),
            quantity,
            resting.price,
            incoming.timestamp,
        ),
    }
}

/// Queues `order` on a side in priority order.
fn insert_into_side(side: &mut VecDeque<Order>, order: Order)
    requires
        side_ordered(old(side)@, order.order_type),
    ensures
        final(side)@ == insert_by_priority(old(side)@, order),
        side_ordered(final(side)@, order.order_type),
{
    let mut k: usize = 0;
    while k < side.len() && is_ahead(&side[k], &order)
        invariant
            0 <= k <= side@.len(),
            forall|i: int| 0 <= i < k ==> ahead_of(#[trigger] side@[i], order),
        decreases side@.len() - k,
    {
        k = k + 1;
    }
    proof {
        lemma_insert_by_priority_at(side@, order, k as int);
    }
    side.insert(k, order);
    proof {
        lemma_insert_keeps_order(old(side)@, order);
    }
}

/// Matches `incoming` against the opposite side, in priority order.
fn match_side(incoming: Order, side: &mut VecDeque<Order>) -> (res: (Order, Vec<Trade>))
    ensures
        match_against(incoming, old(side)@) == (res.0, res.1@, final(side)@),
{
    let mut remaining = incoming;
    let mut trades: Vec<Trade> = Vec::new();
    let ghost start = side@;
    while remaining.quantity > 0 && side.len() > 0 && is_crossing(&remaining, side[0].price)
        invariant
            match_against(incoming, start) == (
                match_against(remaining, side@).0,
                trades@ + match_against(remaining, side@).1,
                match_against(remaining, side@).2,
            ),
        decreases side@.len() + remaining.quantity,
    {
        let ghost before_side = side@;
        let ghost before_rem = remaining;
        let mut resting = side.pop_front().unwrap();
        let q = if remaining.quantity < resting.quantity {
            remaining.quantity
        } else {
            resting.quantity
        };
        let trade = make_trade(&remaining, &resting, q);
        trades.push(trade);
        let partial = resting.quantity > remaining.quantity;
        remaining.quantity = remaining.quantity - q;
        resting.quantity = resting.quantity - q;
        if partial {
            side.push_front(resting);
            assert(side@ =~= before_side.update(0, with_quantity(before_side[0], resting.quantity)));
        } else {
            assert(side@ =~= before_side.drop_first());
        }
        assert(remaining == with_quantity(before_rem, remaining.quantity));
        assert(trades@ =~= (trades@.drop_last() + seq![trade]));
    }
    (remaining, trades)
}

impl OrderBook {
    pub fn new() -> (book: OrderBook)
        ensures
            book@.bids == Seq::<Order>::empty(),
            book@.asks == Seq::<Order>::empty(),
            book@.wf(),
    {
        OrderBook { buy_orders: VecDeque::new(), sell_orders: VecDeque::new() }
    }

    /// Queues `order` on its own side, behind the orders at its price.
    pub fn add_order(&mut self, order: Order)
        requires
            old(self)@.wf(),
        ensures
            final(self)@ == old(self)@.with_order(order),
            final(self)@.wf(),
    {
        match order.order_type {
            OrderType::Buy => insert_into_side(&mut self.buy_orders, order),
            OrderType::Sell => insert_into_side(&mut self.sell_orders, order),
        }
    }

    /// Matches `order` against the opposite side in price-time priority and
    /// queues whatever is left of it; returns the trades in execution order.
    pub fn match_order(&mut self, order: Order) -> (trades: Vec<Trade>)
        requires
            old(self)@.wf(),
        ensures
            (final(self)@, trades@) == old(self)@.after_incoming(order),
            final(self)@.wf(),
    {
        let ghost before = self@;
        proof {
            lemma_match_shape(order, before.asks);
            lemma_match_shape(order, before.bids);
            lemma_match_keeps_order(order, before.asks, OrderType::Sell);
            lemma_match_keeps_order(order, before.bids, OrderType::Buy);
        }
        match order.order_type {
            OrderType::Buy => {
                let (remaining, trades) = match_side(order, &mut self.sell_orders);
                if remaining.quantity > 0 {
                    insert_into_side(&mut self.buy_orders, remaining);
                }
                trades
            },
            OrderType::Sell => {
                let (remaining, trades) = match_side(order, &mut self.buy_orders);
                if remaining.quantity > 0 {
                    insert_into_side(&mut self.sell_orders, remaining);
                }
                trades
            },
        }
    }

    /// The resting buy orders, best price first.
    pub fn buy_orders(&self) -> (bids: &VecDeque<Order>)
        ensures
            bids@ == self@.bids,
    {
        &self.buy_orders
    }

    /// The resting sell orders, best price first.
    pub fn sell_orders(&self) -> (asks: &VecDeque<Order>)
        ensures
            asks@ == self@.asks,
    {
        &self.sell_orders
    }
}

/// Every order on a side is for `ticker` and still has shares to trade.
pub open spec fn side_holds(side: Seq<Order>, ticker: Seq<char>) -> bool {
    forall|i: int|
        0 <= i < side.len() ==> (#[trigger] side[i]).security_ticker@ == ticker && side[i].quantity > 0
}

impl BookView {
    /// Both sides hold only live orders for `ticker`.
    pub open spec fn holds(self, ticker: Seq<char>) -> bool {
        side_holds(self.bids, ticker) && side_holds(self.asks, ticker)
    }
}

pub proof fn lemma_match_holds(incoming: Order, side: Seq<Order>, ticker: Seq<char>)
    requires
        side_holds(side, ticker),
    ensures
        side_holds(match_against(incoming, side).2, ticker),
{
    lemma_match_shape(incoming, side);
    let m = match_against(incoming, side);
    let d = side.len() - m.2.len();
    assert forall|i: int| 0 <= i < m.2.len() implies (#[trigger] m.2[i]).security_ticker@ == ticker
        && m.2[i].quantity > 0 by {
        assert(m.2[i] == with_quantity(side[i + d], m.2[i].quantity));
    }
}

pub proof fn lemma_insert_holds(side: Seq<Order>, order: Order, ticker: Seq<char>)
    requires
        side_holds(side, ticker),
        order.security_ticker@ == ticker,
        order.quantity > 0,
    ensures
        side_holds(insert_by_priority(side, order), ticker),
{
    let k = priority_slot(side, order) as int;
    lemma_priority_slot(side, order);
    lemma_insert_by_priority_at(side, order, k);
    let after = side.insert(k, order);
    assert forall|i: int| 0 <= i < after.len() implies (#[trigger] after[i]).security_ticker@ == ticker
        && after[i].quantity > 0 by {
        if i < k {
            assert(after[i] == side[i]);
        } else if i > k {
            assert(after[i] == side[i - 1]);
        }
    }
}

/// Matching an order for `ticker` keeps a book holding only live orders for it.
pub proof fn lemma_after_incoming_holds(book: BookView, order: Order, ticker: Seq<char>)
    requires
        book.holds(ticker),
        order.security_ticker@ == ticker,
    ensures
        book.after_incoming(order).0.holds(ticker),
{
    lemma_match_shape(order, book.asks);
    lemma_match_shape(order, book.bids);
    lemma_match_holds(order, book.asks, ticker);
    lemma_match_holds(order, book.bids, ticker);
    let ma = match_against(order, book.asks);
    let mb = match_against(order, book.bids);
    if ma.0.quantity > 0 {
        lemma_insert_holds(book.bids, ma.0, ticker);
    }
    if mb.0.quantity > 0 {
        lemma_insert_holds(book.asks, mb.0, ticker);
    }
}

/// A security after recording `trades` one after another.
pub open spec fn recorded(security: Security, trades: Seq<Trade>) -> Security
    decreases trades.len(),
{
    if trades.len() == 0 {
        security
    } else {
        recorded(security, trades.drop_last()).after_trade(trades.last().price, trades.last().quantity)
    }
}

/// Recording `trades` on `security` stays within `u64`: the volume and every
/// market capitalisation on the way fit.
pub open spec fn can_record_all(security: Security, trades: Seq<Trade>) -> bool {
    &&& security.volume + traded_quantity(trades) <= u64::MAX
    &&& forall|k: int|
        0 <= k < trades.len() ==> (#[trigger] trades[k]).price * security.outstanding_shares <= u64::MAX
}

pub proof fn lemma_recorded(security: Security, trades: Seq<Trade>)
    requires
        security.volume + traded_quantity(trades) <= u64::MAX,
    ensures
        recorded(security, trades).volume == security.volume + traded_quantity(trades),
        recorded(security, trades).ticker_symbol == security.ticker_symbol,
        recorded(security, trades).outstanding_shares == security.outstanding_shares,
        recorded(security, trades).trend == security.trend,
    decreases trades.len(),
{
    if trades.len() > 0 {
        lemma_recorded(security, trades.drop_last());
    }
}

pub proof fn lemma_traded_prefix(trades: Seq<Trade>, k: int)
    requires
        0 <= k <= trades.len(),
    ensures
        traded_quantity(trades.take(k)) <= traded_quantity(trades),
    decreases trades.len(),
{
    if k < trades.len() {
        assert(trades.take(k) =~= trades.drop_last().take(k));
        lemma_traded_prefix(trades.drop_last(), k);
    } else {
        assert(trades.take(k) =~= trades);
    }
}

/// The contents of the exchange: the ticker each security was listed
/// under, the listed securities, the order book of each (all at the same
/// position), and every trade executed so far.
pub struct ExchangeView {
    pub tickers: Seq<Seq<char>>,
    pub securities: Seq<Security>,
    pub books: Seq<BookView>,
    pub trade_history: Seq<Trade>,
}

/// The message with which an order for `ticker` is refused.
pub open spec fn not_tradable_message(ticker: Seq<char>) -> Seq<char> {
    "Security "@ + ticker + " is not tradable (current trend is Banned) or does not exist."@
}

/// The message with which a second listing of `ticker` is refused.
pub open spec fn already_listed_message(ticker: Seq<char>) -> Seq<char> {
    "Security with ticker "@ + ticker + " already exists."@
}

impl ExchangeView {
    pub open spec fn listed_at(self, ticker: Seq<char>, i: int) -> bool {
        0 <= i < self.tickers.len() && self.tickers[i] == ticker
    }

    /// The position of the security listed under `ticker`, if any.
    pub open spec fn listing(self, ticker: Seq<char>) -> Option<int> {
        if exists|i: int| self.listed_at(ticker, i) {
            Some(choose|i: int| self.listed_at(ticker, i))
        } else {
            None
        }
    }

    /// A security is listed under `ticker` and is not banned from trading.
    pub open spec fn tradable(self, ticker: Seq<char>) -> bool {
        match self.listing(ticker) {
            Some(i) => self.securities[i].trend != Trend::Banned,
            None => false,
        }
    }

    /// Placing `order` records its trades on the security within `u64`.
    pub open spec fn order_fits(self, order: Order) -> bool {
        match self.listing(order.security_ticker@) {
            Some(i) => self.tradable(order.security_ticker@) ==> can_record_all(
                self.securities[i],
                self.books[i].after_incoming(order).1,
            ),
            None => true,
        }
    }

    /// The exchange after a tradable `order` is placed, and its trades.
    pub open spec fn after_place(self, order: Order) -> (ExchangeView, Seq<Trade>) {
        let i = self.listing(order.security_ticker@)->Some_0;
        let m = self.books[i].after_incoming(order);
        (
            ExchangeView {
                tickers: self.tickers,
                securities: self.securities.update(i, recorded(self.securities[i], m.1)),
                books: self.books.update(i, m.0),
                trade_history: self.trade_history + m.1,
            },
            m.1,
        )
    }

    /// Listing tickers are unique, each security has a well-formed,
    /// uncrossed book holding only live orders for its listing ticker.
    pub open spec fn wf(self) -> bool {
        &&& self.securities.len() == self.tickers.len()
        &&& self.books.len() == self.tickers.len()
        &&& forall|i: int, j: int|
            0 <= i < j < self.tickers.len() ==> (#[trigger] self.tickers[i]) != (#[trigger] self.tickers[j])
        &&& forall|i: int|
            0 <= i < self.books.len() ==> {
                &&& (#[trigger] self.books[i]).wf()
                &&& self.books[i].uncrossed()
                &&& self.books[i].holds(self.tickers[i])
            }
    }
}

/// A securities exchange: listed securities, one order book per security,
/// and the history of executed trades.
pub struct StockExchange {
    tickers: Vec<String>,
    securities: Vec<Security>,
    order_books: Vec<OrderBook>,
    trade_history: Vec<Trade>,
}

impl View for StockExchange {
    type V = ExchangeView;

    closed spec fn view(&self) -> ExchangeView {
        ExchangeView {
            tickers: self.tickers@.map_values(|t: String| t@),
            securities: self.securities@,
            books: self.order_books@.map_values(|b: OrderBook| b@),
            trade_history: self.trade_history@,
        }
    }
}

impl StockExchange {
    pub fn new() -> (exchange: StockExchange)
        ensures
            exchange@.tickers == Seq::<Seq<char>>::empty(),
            exchange@.securities == Seq::<Security>::empty(),
            exchange@.books == Seq::<BookView>::empty(),
            exchange@.trade_history == Seq::<Trade>::empty(),
            exchange@.wf(),
    {
        let exchange = StockExchange {
            tickers: Vec::new(),
            securities: Vec::new(),
            order_books: Vec::new(),
            trade_history: Vec::new(),
        };
        assert(exchange@.books =~= Seq::<BookView>::empty());
        assert(exchange@.tickers =~= Seq::<Seq<char>>::empty());
        exchange
    }

    /// The position of the security listed under `ticker`.
    fn find(&self, ticker: &String) -> (found: Option<usize>)
        requires
            self@.wf(),
        ensures
            found == match self@.listing(ticker@) {
                Some(i) => Some(i as usize),
                None => None::<usize>,
            },
            found matches Some(i) ==> self@.listed_at(ticker@, i as int),
    {
        let mut i: usize = 0;
        while i < self.tickers.len()
            invariant
                self@.wf(),
                0 <= i <= self.tickers@.len(),
                self@.tickers.len() == self.tickers@.len(),
                forall|j: int| 0 <= j < i ==> !self@.listed_at(ticker@, j),
            decreases self.tickers@.len() - i,
        {
            assert(self@.tickers[i as int] == self.tickers@[i as int]@);
            if self.tickers[i] == *ticker {
                assert(self@.listed_at(ticker@, i as int));
                let ghost c = choose|c: int| self@.listed_at(ticker@, c);
                assert(c == i) by {
                    if c > i {
                        assert(self@.tickers[i as int] != self@.tickers[c]);
                    }
                }
                return Some(i);
            }
            i = i + 1;
        }
        None
    }

    /// Lists `security` with an empty order book, unless its ticker is taken.
    pub fn add_security(&mut self, security: Security) -> (result: Result<(), String>)
        requires
            old(self)@.wf(),
        ensures
            final(self)@.wf(),
            match result {
                Ok(()) => {
                    &&& old(self)@.listing(security.ticker_symbol@) is None
                    &&& final(self)@.tickers == old(self)@.tickers.push(security.ticker_symbol@)
                    &&& final(self)@.securities == old(self)@.securities.push(security)
                    &&& final(self)@.books == old(self)@.books.push(
                        BookView { bids: Seq::empty(), asks: Seq::empty() },
                    )
                    &&& final(self)@.trade_history == old(self)@.trade_history
                },
                Err(message) => {
                    &&& old(self)@.listing(security.ticker_symbol@) is Some
                    &&& message@ == already_listed_message(security.ticker_symbol@)
                    &&& final(self)@ == old(self)@
                },
            },
    {
        match self.find(&security.ticker_symbol) {
            Some(_) => {
                let mut message = "Security with ticker ".to_string();
                message.append(security.ticker_symbol.as_str());
                message.append(" already exists.");
                Err(message)
            },
            None => {
                let ghost before = self@;
                let book = OrderBook::new();
                let key = security.ticker_symbol.clone();
                self.tickers.push(key);
                self.securities.push(security);
                self.order_books.push(book);
                assert(self@.books =~= before.books.push(book@));
                assert(self@.tickers =~= before.tickers.push(security.ticker_symbol@));
                let ghost after = self@;
                assert forall|i: int, j: int| 0 <= i < j < after.tickers.len() implies
                    (#[trigger] after.tickers[i]) != (#[trigger] after.tickers[j]) by {
                    if j == before.tickers.len() {
                        assert(!before.listed_at(security.ticker_symbol@, i));
                    } else {
                        assert(after.tickers[i] == before.tickers[i]);
                        assert(after.tickers[j] == before.tickers[j]);
                    }
                }
                assert forall|i: int| 0 <= i < after.books.len() implies {
                    &&& (#[trigger] after.books[i]).wf()
                    &&& after.books[i].uncrossed()
                    &&& after.books[i].holds(after.tickers[i])
                } by {
                    if i < before.books.len() {
                        assert(after.books[i] == before.books[i]);
                        assert(after.tickers[i] == before.tickers[i]);
                    }
                }
                Ok(())
            },
        }
    }

    /// Places `order` on the book of its security: it trades in price-time
    /// priority against the opposite side, the rest of it is queued, every
    /// trade is recorded on the security and in the history. An order for a
    /// security that is unknown or banned is refused.
    pub fn place_order(&mut self, order: Order) -> (result: Result<Vec<Trade>, String>)
        requires
            old(self)@.wf(),
            old(self)@.order_fits(order),
        ensures
            final(self)@.wf(),
            match result {
                Ok(trades) => {
                    &&& old(self)@.tradable(order.security_ticker@)
                    &&& (final(self)@, trades@) == old(self)@.after_place(order)
                },
                Err(message) => {
                    &&& !old(self)@.tradable(order.security_ticker@)
                    &&& message@ == not_tradable_message(order.security_ticker@)
                    &&& final(self)@ == old(self)@
                },
            },
    {
        let found = self.find(&order.security_ticker);
        let tradable = match found {
            Some(i) => self.securities[i].trend != Trend::Banned,
            None => false,
        };
        if !tradable {
            let mut message = "Security ".to_string();
            message.append(order.security_ticker.as_str());
            message.append(" is not tradable (current trend is Banned) or does not exist.");
            return Err(message);
        }
        let i = match found {
            Some(i) => i,
            None => 0,
        };
        let ghost before = self@;
        let ghost incoming = order;
        let ghost ticker = order.security_ticker@;
        let ghost m = before.books[i as int].after_incoming(incoming);
        proof {
            crate::laws::law_matching_keeps_book_uncrossed(before.books[i as int], incoming);
            lemma_after_incoming_holds(before.books[i as int], incoming, ticker);
            assert(self.order_books@[i as int]@ == before.books[i as int]);
        }
        let trades = self.order_books[i].match_order(order);
        assert(self@.books =~= before.books.update(i as int, m.0));
        assert(trades@ == m.1);

        let ghost security = before.securities[i as int];
        let ghost books_after = self.order_books@;
        let ghost keys = self.tickers@;
        let mut k: usize = 0;
        while k < trades.len()
            invariant
                0 <= k <= trades@.len(),
                i < before.securities.len(),
                trades@ == m.1,
                security == before.securities[i as int],
                can_record_all(security, m.1),
                self.securities@ == before.securities.update(i as int, recorded(security, m.1.take(k as int))),
                self.trade_history@ == before.trade_history,
                self.order_books@ == books_after,
                self.tickers@ == keys,
            decreases trades@.len() - k,
        {
            proof {
                lemma_traded_prefix(m.1, k as int);
                lemma_traded_prefix(m.1, k + 1);
                lemma_recorded(security, m.1.take(k as int));
                assert(m.1.take(k + 1).drop_last() =~= m.1.take(k as int));
                assert(m.1.take(k + 1).last() == m.1[k as int]);
                assert(traded_quantity(m.1.take(k + 1)) == traded_quantity(m.1.take(k as int)) + m.1[k as int].quantity);
            }
            let price = trades[k].price;
            let quantity = trades[k].quantity;
            self.securities[i].record_trade(price, quantity);
            k = k + 1;
            assert(self.securities@ =~= before.securities.update(i as int, recorded(security, m.1.take(k as int))));
        }
        assert(m.1.take(k as int) =~= m.1);
        let ghost securities_after = self.securities@;
        assert(m.1.take(0) =~= Seq::<Trade>::empty());
        assert(before.trade_history + Seq::<Trade>::empty() =~= before.trade_history);

        let mut k: usize = 0;
        while k < trades.len()
            invariant
                0 <= k <= trades@.len(),
                trades@ == m.1,
                self.trade_history@ == before.trade_history + m.1.take(k as int),
                self.securities@ == securities_after,
                self.order_books@ == books_after,
                self.tickers@ == keys,
            decreases trades@.len() - k,
        {
            let trade = trades[k].clone();
            self.trade_history.push(trade);
            k = k + 1;
            assert(self.trade_history@ =~= before.trade_history + m.1.take(k as int));
        }
        assert(m.1.take(k as int) =~= m.1);
        proof {
            lemma_recorded(security, m.1);
            let after = self@;
            assert forall|a: int| 0 <= a < after.books.len() implies {
                &&& (#[trigger] after.books[a]).wf()
                &&& after.books[a].uncrossed()
                &&& after.books[a].holds(after.tickers[a])
            } by {
                assert(before.books[a].wf());
            }
        }
        Ok(trades)
    }


    /// The security listed under `ticker`.
    pub fn get_security(&self, ticker: &str) -> (security: Option<&Security>)
        requires
            self@.wf(),
        ensures
            match self@.listing(ticker@) {
                Some(i) => security matches Some(s) && *s == self@.securities[i],
                None => security is None,
            },
    {
        let ticker = ticker.to_string();
        match self.find(&ticker) {
            Some(i) => Some(&self.securities[i]),
            None => None,
        }
    }

    /// Mutable access to the security listed under `ticker`. The security
    /// stays listed under that ticker whatever is changed through it.
    pub fn get_security_mut(&mut self, ticker: &str) -> (security: Option<&mut Security>)
        requires
            old(self)@.wf(),
        ensures
            match old(self)@.listing(ticker@) {
                Some(i) => security matches Some(s) && {
                    &&& *s == old(self)@.securities[i]
                    &&& final(self)@.securities == old(self)@.securities.update(i, *final(s))
                    &&& final(self)@.tickers == old(self)@.tickers
                    &&& final(self)@.books == old(self)@.books
                    &&& final(self)@.trade_history == old(self)@.trade_history
                },
                None => security is None && final(self)@ == old(self)@,
            },
            final(self)@.wf(),
    {
        let ticker = ticker.to_string();
        match self.find(&ticker) {
            Some(i) => Some(&mut self.securities[i]),
            None => None,
        }
    }


    /// The order book of the security listed under `ticker`.
    pub fn get_order_book(&self, ticker: &str) -> (book: Option<&OrderBook>)
        requires
            self@.wf(),
        ensures
            match self@.listing(ticker@) {
                Some(i) => book matches Some(b) && b@ == self@.books[i],
                None => book is None,
            },
    {
        let ticker = ticker.to_string();
        match self.find(&ticker) {
            Some(i) => Some(&self.order_books[i]),
            None => None,
        }
    }

    /// The tickers the securities were listed under, in listing order.
    pub fn listed_tickers(&self) -> (tickers: &Vec<String>)
        ensures
            tickers@.map_values(|t: String| t@) == self@.tickers,
    {
        &self.tickers
    }

    /// The listed securities, in listing order.
    pub fn securities(&self) -> (securities: &Vec<Security>)
        ensures
            securities@ == self@.securities,
    {
        &self.securities
    }

    /// Every trade executed so far, oldest first.
    pub fn trade_history(&self) -> (history: &Vec<Trade>)
        ensures
            history@ == self@.trade_history,
    {
        &self.trade_history
    }

    /// The trades `order` would make against the book of its security, if
    /// the security is listed; nothing is changed.
    pub fn preview_trades(&self, order: &Order) -> (trades: Option<Vec<Trade>>)
        requires
            self@.wf(),
        ensures
            match self@.listing(order.security_ticker@) {
                Some(i) => trades matches Some(t) && t@ == self@.books[i].after_incoming(*order).1,
                None => trades is None,
            },
    {
        let i = match self.find(&order.security_ticker) {
            Some(i) => i,
            None => {
                return None;
            },
        };
        let book = &self.order_books[i];
        assert(book@ == self@.books[i as int]);
        let mut opposite = match order.order_type {
            OrderType::Buy => book.sell_orders.clone(),
            OrderType::Sell => book.buy_orders.clone(),
        };
        proof {
            match order.order_type {
                OrderType::Buy => assert(opposite@ =~= book@.asks),
                OrderType::Sell => assert(opposite@ =~= book@.bids),
            }
        }
        let (_, trades) = match_side(order.clone(), &mut opposite);
        Some(trades)
    }

    /// Whether placing `order` keeps the volume and market capitalisation of
    /// its security within `u64`; `place_order` asks for this.
    pub fn can_place_order(&self, order: &Order) -> (fits: bool)
        requires
            self@.wf(),
        ensures
            fits == self@.order_fits(*order),
    {
        let i = match self.find(&order.security_ticker) {
            Some(i) => i,
            None => {
                return true;
            },
        };
        if self.securities[i].trend == Trend::Banned {
            return true;
        }
        let trades = match self.preview_trades(order) {
            Some(trades) => trades,
            None => {
                return true;
            },
        };
        let ghost m = self@.books[i as int].after_incoming(*order);
        assert(trades@ == m.1);
        let security = &self.securities[i];
        let mut volume = security.volume;
        let mut k: usize = 0;
        while k < trades.len()
            invariant
                0 <= k <= trades@.len(),
                trades@ == m.1,
                volume == security.volume + traded_quantity(m.1.take(k as int)),
                self@.listing(order.security_ticker@) == Some(i as int),
                self@.tradable(order.security_ticker@),
                *security == self@.securities[i as int],
                m == self@.books[i as int].after_incoming(*order),
                forall|j: int| 0 <= j < k ==> (#[trigger] m.1[j]).price * security.outstanding_shares <= u64::MAX,
            decreases trades@.len() - k,
        {
            proof {
                lemma_traded_prefix(m.1, k + 1);
                assert(m.1.take(k + 1).drop_last() =~= m.1.take(k as int));
                assert(m.1.take(k + 1).last() == m.1[k as int]);
            }
            match volume.checked_add(trades[k].quantity) {
                Some(v) => {
                    volume = v;
                },
                None => {
                    return false;
                },
            }
            if trades[k].price.checked_mul(security.outstanding_shares).is_none() {
                return false;
            }
            k = k + 1;
        }
        assert(m.1.take(k as int) =~= m.1);
        true
    }

}

} // verus!

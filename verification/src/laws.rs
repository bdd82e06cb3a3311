//! Properties that matching and the order book keep, proved over the model.

use vstd::prelude::*;
use crate::orders::{Order, OrderType, Trade};
use crate::matching::{
    crosses, insert_by_priority, lemma_insert_keeps_order, lemma_match_keeps_order, lemma_match_shape, match_against,
    min_qty, resting_quantity, side_ordered, trade_between, traded_quantity, with_quantity,
};
use crate::exchange::{lemma_after_incoming_holds, lemma_recorded, BookView, ExchangeView};
use crate::session::{after_buys, after_sells, trades_cost, Account};
use crate::player::{after_removal, bought, deposited, holding_in, purchase_fits, withdrawn, Holding};
use crate::securities_lib::{min_u64, max_u64, Security};
use crate::player::{portfolio_value, price_of, PortfolioItem};
use crate::session::{market_order, market_price};
use crate::commands::{command_matches, Command};

verus! {

/// The id of the resting order that `trade` filled against `incoming`.
pub open spec fn resting_id(incoming: Order, trade: Trade) -> u64 {
    match incoming.order_type {
        OrderType::Buy => trade.matched_sell_order_id,
        OrderType::Sell => trade.matched_buy_order_id,
    }
}

/// The id `trade` records for the incoming order.
pub open spec fn incoming_id(incoming: Order, trade: Trade) -> u64 {
    match incoming.order_type {
        OrderType::Buy => trade.matched_buy_order_id,
        OrderType::Sell => trade.matched_sell_order_id,
    }
}

pub proof fn lemma_traded_prepend(t: Trade, ts: Seq<Trade>)
    ensures
        traded_quantity(seq![t] + ts) == t.quantity + traded_quantity(ts),
    decreases ts.len(),
{
    let all = seq![t] + ts;
    if ts.len() == 0 {
        assert(all.drop_last() =~= Seq::<Trade>::empty());
        assert(all.last() == t);
        assert(traded_quantity(Seq::<Trade>::empty()) == 0);
        assert(traded_quantity(ts) == 0);
    } else {
        assert(all.drop_last() =~= seq![t] + ts.drop_last());
        assert(all.last() == ts.last());
        lemma_traded_prepend(t, ts.drop_last());
        assert(traded_quantity(ts) == traded_quantity(ts.drop_last()) + ts.last().quantity);
    }
}

/// Limit prices are respected: every trade executes at a price the incoming
/// order accepts, and carries the incoming order's id, ticker and timestamp.
pub proof fn law_trades_respect_limit(incoming: Order, side: Seq<Order>)
    ensures
        forall|i: int| 0 <= i < match_against(incoming, side).1.len() ==> {
            let t = #[trigger] match_against(incoming, side).1[i];
            &&& crosses(incoming, t.price)
            &&& incoming_id(incoming, t) == incoming.id
            &&& t.security_ticker == incoming.security_ticker
            &&& t.timestamp == incoming.timestamp
        },
    decreases side.len(),
{
    let m = match_against(incoming, side);
    if incoming.quantity == 0 || side.len() == 0 || !crosses(incoming, side[0].price) {
    } else if side[0].quantity > incoming.quantity {
    } else {
        let q = min_qty(incoming.quantity, side[0].quantity);
        let next = with_quantity(incoming, (incoming.quantity - q) as u64);
        law_trades_respect_limit(next, side.drop_first());
        let r = match_against(next, side.drop_first());
        assert forall|i: int| 0 <= i < m.1.len() implies {
            let t = #[trigger] m.1[i];
            &&& crosses(incoming, t.price)
            &&& incoming_id(incoming, t) == incoming.id
            &&& t.security_ticker == incoming.security_ticker
            &&& t.timestamp == incoming.timestamp
        } by {
            if i > 0 {
                assert(m.1[i] == r.1[i - 1]);
            }
        }
    }
}

/// Price-time priority: the i-th trade fills the i-th resting order of the
/// opposite side, at that order's price.
pub proof fn law_trades_follow_priority(incoming: Order, side: Seq<Order>)
    ensures
        match_against(incoming, side).1.len() <= side.len(),
        forall|i: int| 0 <= i < match_against(incoming, side).1.len() ==> {
            let t = #[trigger] match_against(incoming, side).1[i];
            &&& t.price == side[i].price
            &&& resting_id(incoming, t) == side[i].id
        },
    decreases side.len(),
{
    let m = match_against(incoming, side);
    if incoming.quantity == 0 || side.len() == 0 || !crosses(incoming, side[0].price) {
    } else if side[0].quantity > incoming.quantity {
    } else {
        let q = min_qty(incoming.quantity, side[0].quantity);
        let next = with_quantity(incoming, (incoming.quantity - q) as u64);
        let rest = side.drop_first();
        law_trades_follow_priority(next, rest);
        let r = match_against(next, rest);
        assert forall|i: int| 0 <= i < m.1.len() implies {
            let t = #[trigger] m.1[i];
            &&& t.price == side[i].price
            &&& resting_id(incoming, t) == side[i].id
        } by {
            if i > 0 {
                assert(m.1[i] == r.1[i - 1]);
                assert(rest[i - 1] == side[i]);
            }
        }
    }
}

/// Shares are conserved: what trades equals what the incoming order lost,
/// and equals what the opposite side lost.
pub proof fn law_matching_conserves_shares(incoming: Order, side: Seq<Order>)
    ensures
        traded_quantity(match_against(incoming, side).1) + match_against(incoming, side).0.quantity
            == incoming.quantity,
        resting_quantity(side) == resting_quantity(match_against(incoming, side).2)
            + traded_quantity(match_against(incoming, side).1),
    decreases side.len(),
{
    let m = match_against(incoming, side);
    if incoming.quantity == 0 || side.len() == 0 || !crosses(incoming, side[0].price) {
        assert(traded_quantity(m.1) == 0);
    } else {
        let resting = side[0];
        let q = min_qty(incoming.quantity, resting.quantity);
        let t = trade_between(incoming, resting, q);
        if resting.quantity > incoming.quantity {
            lemma_traded_prepend(t, Seq::empty());
            assert(seq![t] + Seq::<Trade>::empty() =~= seq![t]);
            assert(m.2.drop_first() =~= side.drop_first());
        } else {
            let next = with_quantity(incoming, (incoming.quantity - q) as u64);
            law_matching_conserves_shares(next, side.drop_first());
            let r = match_against(next, side.drop_first());
            lemma_traded_prepend(t, r.1);
        }
    }
}

pub proof fn lemma_insert_front(side: Seq<Order>, order: Order)
    ensures
        insert_by_priority(side, order).len() > 0,
        insert_by_priority(side, order)[0] == if side.len() > 0 && crate::matching::ahead_of(side[0], order) {
            side[0]
        } else {
            order
        },
{
}

proof fn lemma_match_front(order: Order, side: Seq<Order>)
    ensures
        ({
            let m = match_against(order, side);
            &&& m.0 == with_quantity(order, m.0.quantity)
            &&& m.0.quantity > 0 ==> (m.2.len() == 0 || !crosses(order, m.2[0].price))
            &&& m.2.len() <= side.len()
            &&& m.2.len() > 0 ==> m.2[0].price == side[side.len() - m.2.len()].price
        }),
{
    lemma_match_shape(order, side);
    let m = match_against(order, side);
    if m.2.len() > 0 {
        assert(m.2[0] == with_quantity(side[side.len() - m.2.len()], m.2[0].quantity));
    }
}

proof fn lemma_bids_after_buy(book: BookView, order: Order)
    requires
        book.wf(),
        book.uncrossed(),
        order.order_type == OrderType::Buy,
    ensures
        book.after_incoming(order).0.wf(),
        book.after_incoming(order).0.uncrossed(),
{
    let m = match_against(order, book.asks);
    lemma_match_front(order, book.asks);
    lemma_match_keeps_order(order, book.asks, OrderType::Sell);
    let b = BookView { bids: book.bids, asks: m.2 };
    let nb = if m.0.quantity > 0 { b.with_order(m.0) } else { b };
    assert(book.after_incoming(order).0 == nb);
    if m.2.len() > 0 {
        let d = book.asks.len() - m.2.len();
        assert(book.asks[0].price <= book.asks[d].price);
    }
    if m.0.quantity > 0 {
        lemma_insert_front(book.bids, m.0);
        lemma_insert_keeps_order(book.bids, m.0);
    }
}

proof fn lemma_asks_after_sell(book: BookView, order: Order)
    requires
        book.wf(),
        book.uncrossed(),
        order.order_type == OrderType::Sell,
    ensures
        book.after_incoming(order).0.wf(),
        book.after_incoming(order).0.uncrossed(),
{
    let m = match_against(order, book.bids);
    lemma_match_front(order, book.bids);
    lemma_match_keeps_order(order, book.bids, OrderType::Buy);
    let b = BookView { bids: m.2, asks: book.asks };
    let nb = if m.0.quantity > 0 { b.with_order(m.0) } else { b };
    assert(book.after_incoming(order).0 == nb);
    if m.2.len() > 0 {
        let d = book.bids.len() - m.2.len();
        assert(book.bids[0].price >= book.bids[d].price);
    }
    if m.0.quantity > 0 {
        lemma_insert_front(book.asks, m.0);
        lemma_insert_keeps_order(book.asks, m.0);
    }
}

/// Matching keeps a well-formed book well-formed, and a book whose best bid
/// is below its best offer stays that way.
pub proof fn law_matching_keeps_book_uncrossed(book: BookView, order: Order)
    requires
        book.wf(),
        book.uncrossed(),
    ensures
        book.after_incoming(order).0.wf(),
        book.after_incoming(order).0.uncrossed(),
{
    match order.order_type {
        OrderType::Buy => lemma_bids_after_buy(book, order),
        OrderType::Sell => lemma_asks_after_sell(book, order),
    }
}

pub proof fn lemma_buys_cash(start: Account, trades: Seq<Trade>)
    ensures
        after_buys(start, trades).cash == start.cash - trades_cost(trades),
    decreases trades.len(),
{
    if trades.len() > 0 {
        lemma_buys_cash(start, trades.drop_last());
    }
}

pub proof fn lemma_cost_bound(trades: Seq<Trade>, limit: u64)
    requires
        forall|i: int| 0 <= i < trades.len() ==> (#[trigger] trades[i]).price <= limit,
    ensures
        0 <= trades_cost(trades) <= traded_quantity(trades) * limit,
    decreases trades.len(),
{
    if trades.len() > 0 {
        let rest = trades.drop_last();
        assert forall|i: int| 0 <= i < rest.len() implies (#[trigger] rest[i]).price <= limit by {
            assert(rest[i] == trades[i]);
        }
        lemma_cost_bound(rest, limit);
        let t = trades.last();
        assert(t == trades[trades.len() - 1]);
        let q = t.quantity as int;
        let p = t.price as int;
        let l = limit as int;
        let tq = traded_quantity(rest) as int;
        assert(0 <= q * p <= q * l) by (nonlinear_arith)
            requires 0 <= q, 0 <= p, p <= l;
        assert(tq * l + q * l == (tq + q) * l) by (nonlinear_arith);
    }
}

pub proof fn lemma_limit_prices(incoming: Order, side: Seq<Order>, k: int)
    requires
        incoming.order_type == OrderType::Buy,
        0 <= k <= match_against(incoming, side).1.len(),
    ensures
        forall|i: int| 0 <= i < match_against(incoming, side).1.take(k).len()
            ==> (#[trigger] match_against(incoming, side).1.take(k)[i]).price <= incoming.price,
{
    law_trades_respect_limit(incoming, side);
    let ts = match_against(incoming, side).1;
    assert forall|i: int| 0 <= i < ts.take(k).len() implies (#[trigger] ts.take(k)[i]).price <= incoming.price by {
        assert(ts.take(k)[i] == ts[i]);
        assert(crosses(incoming, ts[i].price));
    }
}

/// A market buy that passed its funds test never spends more than the
/// quantity times its limit price: after any number of its trades, the
/// cash is at least what it was less that amount, so it never goes below zero.
pub proof fn law_market_buy_within_cash(start: Account, order: Order, side: Seq<Order>)
    requires
        order.order_type == OrderType::Buy,
        order.quantity * order.price <= start.cash,
    ensures
        forall|k: int| 0 <= k <= match_against(order, side).1.len() ==>
            #[trigger] after_buys(start, match_against(order, side).1.take(k)).cash
                >= start.cash - order.quantity * order.price >= 0,
{
    let ts = match_against(order, side).1;
    law_matching_conserves_shares(order, side);
    assert forall|k: int| 0 <= k <= ts.len() implies
        #[trigger] after_buys(start, ts.take(k)).cash >= start.cash - order.quantity * order.price >= 0 by {
        lemma_buys_cash(start, ts.take(k));
        lemma_limit_prices(order, side, k);
        lemma_cost_bound(ts.take(k), order.price);
        crate::exchange::lemma_traded_prefix(ts, k);
        let tk = traded_quantity(ts.take(k)) as int;
        let q = order.quantity as int;
        let p = order.price as int;
        assert(tk * p <= q * p) by (nonlinear_arith)
            requires 0 <= tk <= q, 0 <= p;
    }
}

/// Every trade of an order against live resting orders moves some shares.
pub proof fn lemma_trades_positive(incoming: Order, side: Seq<Order>)
    requires
        forall|i: int| 0 <= i < side.len() ==> (#[trigger] side[i]).quantity > 0,
    ensures
        forall|i: int| 0 <= i < match_against(incoming, side).1.len()
            ==> (#[trigger] match_against(incoming, side).1[i]).quantity > 0,
    decreases side.len(),
{
    let m = match_against(incoming, side);
    if incoming.quantity == 0 || side.len() == 0 || !crosses(incoming, side[0].price) {
    } else if side[0].quantity > incoming.quantity {
    } else {
        let q = min_qty(incoming.quantity, side[0].quantity);
        let next = with_quantity(incoming, (incoming.quantity - q) as u64);
        let rest = side.drop_first();
        assert forall|i: int| 0 <= i < rest.len() implies (#[trigger] rest[i]).quantity > 0 by {
            assert(rest[i] == side[i + 1]);
        }
        lemma_trades_positive(next, rest);
        let r = match_against(next, rest);
        assert forall|i: int| 0 <= i < m.1.len() implies (#[trigger] m.1[i]).quantity > 0 by {
            if i > 0 {
                assert(m.1[i] == r.1[i - 1]);
            }
        }
    }
}

proof fn lemma_sells_track_holding(start: Account, trades: Seq<Trade>, ticker: Seq<char>, held: u64, k: int)
    requires
        0 <= k <= trades.len(),
        start.holdings.contains_key(ticker),
        start.holdings[ticker].quantity == held,
        traded_quantity(trades) <= held,
        forall|i: int| 0 <= i < trades.len() ==> (#[trigger] trades[i]).security_ticker@ == ticker,
    ensures
        traded_quantity(trades.take(k)) < held ==> {
            &&& after_sells(start, trades.take(k)).holdings.contains_key(ticker)
            &&& after_sells(start, trades.take(k)).holdings[ticker].quantity == held - traded_quantity(trades.take(k))
        },
    decreases k,
{
    crate::exchange::lemma_traded_prefix(trades, k);
    if k > 0 {
        let pre = trades.take(k);
        assert(pre.drop_last() =~= trades.take(k - 1));
        assert(pre.last() == trades[k - 1]);
        lemma_sells_track_holding(start, trades, ticker, held, k - 1);
    } else {
        assert(trades.take(0) =~= Seq::<Trade>::empty());
    }
}

/// A market sell that passed its holdings test is always covered: before
/// each of its trades the portfolio still holds at least that trade's
/// shares, so no removal of shares fails.
pub proof fn law_market_sell_covered(start: Account, order: Order, side: Seq<Order>)
    requires
        order.order_type == OrderType::Sell,
        start.holdings.contains_key(order.security_ticker@),
        start.holdings[order.security_ticker@].quantity >= order.quantity,
        forall|i: int| 0 <= i < side.len() ==> (#[trigger] side[i]).quantity > 0,
    ensures
        forall|k: int| 0 <= k < match_against(order, side).1.len() ==> {
            let a = #[trigger] after_sells(start, match_against(order, side).1.take(k));
            let t = match_against(order, side).1[k];
            &&& a.holdings.contains_key(t.security_ticker@)
            &&& a.holdings[t.security_ticker@].quantity >= t.quantity
        },
{
    let ts = match_against(order, side).1;
    let ticker = order.security_ticker@;
    let held = start.holdings[ticker].quantity;
    law_matching_conserves_shares(order, side);
    law_trades_respect_limit(order, side);
    lemma_trades_positive(order, side);
    assert forall|i: int| 0 <= i < ts.len() implies (#[trigger] ts[i]).security_ticker@ == ticker by {}
    assert forall|k: int| 0 <= k < ts.len() implies {
        let a = #[trigger] after_sells(start, ts.take(k));
        let t = ts[k];
        &&& a.holdings.contains_key(t.security_ticker@)
        &&& a.holdings[t.security_ticker@].quantity >= t.quantity
    } by {
        crate::exchange::lemma_traded_prefix(ts, k + 1);
        assert(ts.take(k + 1).drop_last() =~= ts.take(k));
        assert(ts.take(k + 1).last() == ts[k]);
        lemma_sells_track_holding(start, ts, ticker, held, k);
    }
}

/// A holding bought and then sold in full is gone again: buying shares of
/// a ticker not held and selling the same quantity leaves the holdings as
/// they were.
pub proof fn law_buy_then_sell_restores_holdings(
    holdings: Map<Seq<char>, Holding>,
    ticker: Seq<char>,
    quantity: u64,
    price: u64,
)
    requires
        !holdings.contains_key(ticker),
        purchase_fits(None, quantity, price),
    ensures
        after_removal(holdings.insert(ticker, bought(None, quantity, price)), ticker, quantity) == holdings,
{
    let after = holdings.insert(ticker, bought(None, quantity, price));
    assert(after[ticker].quantity == quantity);
    assert(after.remove(ticker) =~= holdings);
}

pub proof fn lemma_floor_between(total: int, n: int, lo: int, hi: int)
    requires
        n > 0,
        n * lo <= total <= n * hi,
    ensures
        lo <= total / n <= hi,
{
    assert(lo <= total / n) by (nonlinear_arith)
        requires n > 0, n * lo <= total;
    assert(total / n <= hi) by (nonlinear_arith)
        requires n > 0, total <= n * hi;
}

/// The average buy price is a weighted average: after buying more shares
/// of a holding, the average lies between the old average and the purchase
/// price; a first purchase is recorded at its own price.
pub proof fn law_average_price_between(before: Option<Holding>, quantity: u64, price: u64)
    requires
        purchase_fits(before, quantity, price),
    ensures
        ({
            let after = bought(before, quantity, price);
            match before {
                Some(h) => {
                    &&& after.quantity == h.quantity + quantity
                    &&& after.quantity > 0 ==> min_u64(h.average_buy_price, price) <= after.average_buy_price
                        <= max_u64(h.average_buy_price, price)
                },
                None => {
                    &&& after.quantity == quantity
                    &&& quantity > 0 ==> after.average_buy_price == price
                },
            }
        }),
{
    let (q0, a0) = match before {
        Some(h) => (h.quantity as int, h.average_buy_price as int),
        None => (0int, 0int),
    };
    let q = quantity as int;
    let p = price as int;
    let n = q0 + q;
    let total = q0 * a0 + q * p;
    if n > 0 {
        let lo = if a0 < p { a0 } else { p };
        let hi = if a0 > p { a0 } else { p };
        match before {
            Some(_) => {
                assert(n * lo <= total <= n * hi) by (nonlinear_arith)
                    requires
                        n == q0 + q, total == q0 * a0 + q * p, 0 <= q0, 0 <= q,
                        lo <= a0 <= hi, lo <= p <= hi;
                lemma_floor_between(total, n, lo, hi);
            },
            None => {
                assert(total == n * p) by (nonlinear_arith)
                    requires q0 == 0, n == q, total == q0 * a0 + q * p;
                lemma_floor_between(total, n, p, p);
            },
        }
    }
}

/// The current price stays within the day's range through price moves and
/// trades.
pub proof fn law_price_stays_within_day_range(security: Security, price: u64, quantity: u64)
    requires
        security.price_within_day_range(),
    ensures
        security.with_price(price).price_within_day_range(),
        security.after_trade(price, quantity).price_within_day_range(),
{
}

/// A price move or a trade leaves the market capitalisation equal to the
/// new price times the shares outstanding.
pub proof fn law_market_cap_follows_price(security: Security, price: u64, quantity: u64)
    requires
        price * security.outstanding_shares <= u64::MAX,
    ensures
        security.with_price(price).market_cap_is_current(),
        security.after_trade(price, quantity).market_cap_is_current(),
{
}

/// Withdrawing what was just deposited succeeds and restores the balance:
/// `withdraw_cash(amount)` after `deposit_cash(amount)` gives back the
/// balance the player had.
pub proof fn law_withdraw_undoes_deposit(cash: u64, amount: u64)
    requires
        deposited(cash, amount) <= u64::MAX,
    ensures
        withdrawn(deposited(cash, amount) as u64, amount) == Some(cash),
{
}

/// Placing an order records its trades: the security's volume grows by the
/// shares traded, its price becomes that of the last trade, and the history
/// gains exactly those trades, in order.
pub proof fn law_trades_are_recorded(exchange: ExchangeView, order: Order)
    requires
        exchange.wf(),
        exchange.tradable(order.security_ticker@),
        exchange.order_fits(order),
    ensures
        ({
            let i = exchange.listing(order.security_ticker@)->Some_0;
            let (after, trades) = exchange.after_place(order);
            &&& after.securities[i].volume == exchange.securities[i].volume + traded_quantity(trades)
            &&& trades.len() > 0 ==> after.securities[i].current_price == trades.last().price
            &&& trades.len() == 0 ==> after.securities[i] == exchange.securities[i]
            &&& after.trade_history == exchange.trade_history + trades
        }),
{
    let i = exchange.listing(order.security_ticker@)->Some_0;
    let trades = exchange.books[i].after_incoming(order).1;
    lemma_recorded(exchange.securities[i], trades);
}

/// Placing an order on a tradable security keeps the exchange well formed:
/// every book stays sorted, holds only live orders for its listing ticker,
/// and has its best bid below its best offer. (A refused order leaves the
/// exchange as it was.)
pub proof fn law_place_order_keeps_exchange_well_formed(exchange: ExchangeView, order: Order)
    requires
        exchange.wf(),
        exchange.tradable(order.security_ticker@),
    ensures
        exchange.after_place(order).0.wf(),
{
    let i = exchange.listing(order.security_ticker@)->Some_0;
    assert(exchange.listed_at(order.security_ticker@, i));
    let book = exchange.books[i];
    law_matching_keeps_book_uncrossed(book, order);
    lemma_after_incoming_holds(book, order, exchange.tickers[i]);
    let after = exchange.after_place(order).0;
    assert forall|a: int| 0 <= a < after.books.len() implies {
        &&& (#[trigger] after.books[a]).wf()
        &&& after.books[a].uncrossed()
        &&& after.books[a].holds(after.tickers[a])
    } by {
        assert(exchange.books[a].wf());
    }
}

/// Adding a positive quantity of shares keeps every holding positive: the
/// holdings `add_shares` leaves hold no empty position when none was there.
pub proof fn law_positive_purchase_keeps_holdings_positive(
    holdings: Map<Seq<char>, Holding>,
    ticker: Seq<char>,
    quantity: u64,
    price: u64,
)
    requires
        forall|t: Seq<char>| #[trigger] holdings.contains_key(t) ==> holdings[t].quantity > 0,
        quantity > 0,
        purchase_fits(holding_in(holdings, ticker), quantity, price),
    ensures
        ({
            let after = holdings.insert(ticker, bought(holding_in(holdings, ticker), quantity, price));
            forall|t: Seq<char>| #[trigger] after.contains_key(t) ==> after[t].quantity > 0
        }),
{
}

/// `new_side` is `side` with `order` put behind every order priced as well
/// as it or better, and ahead of every order priced worse.
pub open spec fn queued_by_price_then_arrival(side: Seq<Order>, new_side: Seq<Order>, order: Order) -> bool {
    exists|k: int|
        #![trigger side.insert(k, order)]
        {
            &&& 0 <= k <= side.len()
            &&& new_side == side.insert(k, order)
            &&& forall|i: int| 0 <= i < k ==> match order.order_type {
                OrderType::Buy => (#[trigger] side[i]).price >= order.price,
                OrderType::Sell => side[i].price <= order.price,
            }
            &&& forall|i: int| k <= i < side.len() ==> match order.order_type {
                OrderType::Buy => (#[trigger] side[i]).price < order.price,
                OrderType::Sell => side[i].price > order.price,
            }
        }
}

/// Time priority: a new order joins its own side behind every resting order
/// whose price is as good as its own or better, whatever their quantities,
/// and ahead of every order with a worse price; the opposite side is left
/// as it was. So among equal prices, orders stay in arrival order.
pub proof fn law_add_order_keeps_time_priority(book: BookView, order: Order)
    requires
        book.wf(),
    ensures
        match order.order_type {
            OrderType::Buy => {
                &&& book.with_order(order).asks == book.asks
                &&& queued_by_price_then_arrival(book.bids, book.with_order(order).bids, order)
            },
            OrderType::Sell => {
                &&& book.with_order(order).bids == book.bids
                &&& queued_by_price_then_arrival(book.asks, book.with_order(order).asks, order)
            },
        },
{
    let side = match order.order_type {
        OrderType::Buy => book.bids,
        OrderType::Sell => book.asks,
    };
    assert(side_ordered(side, order.order_type));
    let k = crate::matching::priority_slot(side, order) as int;
    crate::matching::lemma_priority_slot(side, order);
    crate::matching::lemma_insert_by_priority_at(side, order, k);
    assert forall|i: int| k <= i < side.len() implies match order.order_type {
        OrderType::Buy => (#[trigger] side[i]).price < order.price,
        OrderType::Sell => side[i].price > order.price,
    } by {
        assert(!crate::matching::ahead_of(side[k], order));
    }
    assert forall|i: int| 0 <= i < k implies match order.order_type {
        OrderType::Buy => (#[trigger] side[i]).price >= order.price,
        OrderType::Sell => side[i].price <= order.price,
    } by {
        assert(crate::matching::ahead_of(side[i], order));
    }
    let after = book.with_order(order);
    match order.order_type {
        OrderType::Buy => {
            assert(after.bids == side.insert(k, order));
        },
        OrderType::Sell => {
            assert(after.asks == side.insert(k, order));
        },
    }
}

/// The price list gives, for a ticker, the price of its first entry for
/// that ticker, and nothing for a ticker it does not mention.
pub proof fn law_first_listed_price_counts(prices: Seq<(String, u64)>, ticker: Seq<char>)
    ensures
        forall|i: int|
            0 <= i < prices.len() && (#[trigger] prices[i]).0@ == ticker
                && (forall|j: int| 0 <= j < i ==> prices[j].0@ != ticker)
                ==> price_of(prices, ticker) == Some(prices[i].1),
        (forall|i: int| 0 <= i < prices.len() ==> (#[trigger] prices[i]).0@ != ticker)
            ==> price_of(prices, ticker) is None,
    decreases prices.len(),
{
    if prices.len() > 0 {
        let rest = prices.drop_first();
        law_first_listed_price_counts(rest, ticker);
        assert forall|i: int|
            0 <= i < prices.len() && (#[trigger] prices[i]).0@ == ticker
                && (forall|j: int| 0 <= j < i ==> prices[j].0@ != ticker)
                implies price_of(prices, ticker) == Some(prices[i].1) by {
            if i > 0 {
                assert(prices[0].0@ != ticker);
                assert(rest[i - 1] == prices[i]);
                assert forall|j: int| 0 <= j < i - 1 implies rest[j].0@ != ticker by {
                    assert(rest[j] == prices[j + 1]);
                }
            }
        }
        if forall|i: int| 0 <= i < prices.len() ==> (#[trigger] prices[i]).0@ != ticker {
            assert(prices[0].0@ != ticker);
            assert forall|i: int| 0 <= i < rest.len() implies (#[trigger] rest[i]).0@ != ticker by {
                assert(rest[i] == prices[i + 1]);
            }
        }
    }
}

/// A portfolio of one holding is worth its quantity times the price of the
/// first entry the price list has for its ticker, wherever that entry
/// stands in the list, and nothing when the list has no entry for it.
pub proof fn law_single_holding_value(item: PortfolioItem, prices: Seq<(String, u64)>)
    ensures
        forall|i: int|
            0 <= i < prices.len() && (#[trigger] prices[i]).0@ == item.security_ticker@
                && (forall|j: int| 0 <= j < i ==> prices[j].0@ != item.security_ticker@)
                ==> portfolio_value(seq![item], prices) == item.quantity * prices[i].1,
        (forall|i: int| 0 <= i < prices.len() ==> (#[trigger] prices[i]).0@ != item.security_ticker@)
            ==> portfolio_value(seq![item], prices) == 0,
{
    law_first_listed_price_counts(prices, item.security_ticker@);
    let items = seq![item];
    assert(items.drop_last() =~= Seq::<PortfolioItem>::empty());
    assert(items.last() == item);
    assert(portfolio_value(Seq::<PortfolioItem>::empty(), prices) == 0);
}

/// Within a day the range only widens: a price move or a trade never lowers
/// the day's high nor raises its low, and the new price becomes the high or
/// the low when it lies outside the range.
pub proof fn law_day_range_only_widens(security: Security, price: u64, quantity: u64)
    ensures
        ({
            let moved = security.with_price(price);
            &&& moved.current_price == price
            &&& moved.day_high >= security.day_high && moved.day_high >= price
            &&& (moved.day_high == security.day_high || moved.day_high == price)
            &&& moved.day_low <= security.day_low && moved.day_low <= price
            &&& (moved.day_low == security.day_low || moved.day_low == price)
        }),
        ({
            let traded = security.after_trade(price, quantity);
            &&& traded.current_price == price
            &&& traded.day_high >= security.day_high && traded.day_high >= price
            &&& (traded.day_high == security.day_high || traded.day_high == price)
            &&& traded.day_low <= security.day_low && traded.day_low <= price
            &&& (traded.day_low == security.day_low || traded.day_low == price)
        }),
{
}

/// A market order, buy or sell, carries exactly the id, timestamp, ticker,
/// quantity and side it was built with, at the security's current price.
pub proof fn law_market_order_carries_its_inputs(
    kind: OrderType,
    exchange: ExchangeView,
    ticker: String,
    quantity: u64,
    order_id: u64,
    timestamp: u64,
)
    ensures
        ({
            let order = market_order(kind, exchange, ticker, quantity, order_id, timestamp);
            &&& order.id == order_id
            &&& order.timestamp == timestamp
            &&& order.order_type == kind
            &&& order.security_ticker == ticker
            &&& order.quantity == quantity
            &&& (exchange.listing(ticker@) matches Some(i) ==> order.price == exchange.securities[i].current_price)
        }),
{
}

/// `orderbook` and `ob` are the same command: with a ticker after either of
/// them, the command is to show that ticker's order book.
pub proof fn law_orderbook_synonyms(command: Command, words: Seq<Seq<char>>)
    requires
        words.len() == 2,
        command_matches(command, words, "orderbook"@) || command_matches(command, words, "ob"@),
    ensures
        command matches Command::ShowOrderBook { ticker } && ticker@ == words[1],
{
    reveal_strlit("orderbook");
    reveal_strlit("ob");
    reveal_strlit("buy");
    reveal_strlit("sell");
    reveal_strlit("portfolio");
    reveal_strlit("pf");
    reveal_strlit("prices");
    reveal_strlit("quote");
    reveal_strlit("trades");
    reveal_strlit("help");
    reveal_strlit("exit");
    assert("orderbook"@.len() != "buy"@.len());
    assert("orderbook"@ != "buy"@);
    assert("orderbook"@.len() != "sell"@.len());
    assert("orderbook"@ != "sell"@);
    assert("orderbook"@[0] != "portfolio"@[0]);
    assert("orderbook"@ != "portfolio"@);
    assert("orderbook"@.len() != "pf"@.len());
    assert("orderbook"@ != "pf"@);
    assert("orderbook"@.len() != "prices"@.len());
    assert("orderbook"@ != "prices"@);
    assert("orderbook"@.len() != "quote"@.len());
    assert("orderbook"@ != "quote"@);
    assert("orderbook"@.len() != "trades"@.len());
    assert("orderbook"@ != "trades"@);
    assert("orderbook"@.len() != "help"@.len());
    assert("orderbook"@ != "help"@);
    assert("orderbook"@.len() != "exit"@.len());
    assert("orderbook"@ != "exit"@);
    assert("ob"@.len() != "buy"@.len());
    assert("ob"@ != "buy"@);
    assert("ob"@.len() != "sell"@.len());
    assert("ob"@ != "sell"@);
    assert("ob"@.len() != "portfolio"@.len());
    assert("ob"@ != "portfolio"@);
    assert("ob"@[0] != "pf"@[0]);
    assert("ob"@ != "pf"@);
    assert("ob"@.len() != "prices"@.len());
    assert("ob"@ != "prices"@);
    assert("ob"@.len() != "quote"@.len());
    assert("ob"@ != "quote"@);
    assert("ob"@.len() != "trades"@.len());
    assert("ob"@ != "trades"@);
    assert("ob"@.len() != "help"@.len());
    assert("ob"@ != "help"@);
    assert("ob"@.len() != "exit"@.len());
    assert("ob"@ != "exit"@);
}

} // verus!

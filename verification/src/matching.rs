//! The mathematical model of an order book side and of price-time priority
//! matching, with the properties that matching keeps.

use vstd::prelude::*;
use crate::orders::{Order, OrderType, Trade};

verus! {

/// Whether a resting order at `resting_price` is good enough for `incoming`:
/// a buy trades with offers at or below its limit, a sell with bids at or above.
pub open spec fn crosses(incoming: Order, resting_price: u64) -> bool {
    match incoming.order_type {
        OrderType::Buy => resting_price <= incoming.price,
        OrderType::Sell => resting_price >= incoming.price,
    }
}

/// The trade of `quantity` shares between `incoming` and a resting order; it
/// executes at the resting order's price and carries the incoming order's
/// ticker and timestamp.
pub open spec fn trade_between(incoming: Order, resting: Order, quantity: u64) -> Trade {
    match incoming.order_type {
        OrderType::Buy => Trade {
            matched_buy_order_id: incoming.id,
            matched_sell_order_id: resting.id,
            security_ticker: incoming.security_ticker,
            quantity,
            price: resting.price,
            timestamp: incoming.timestamp,
        },
        OrderType::Sell => Trade {
            matched_buy_order_id: resting.id,
            matched_sell_order_id: incoming.id,
            security_ticker: incoming.security_ticker,
            quantity,
            price: resting.price,
            timestamp: incoming.timestamp,
        },
    }
}

pub open spec fn with_quantity(order: Order, quantity: u64) -> Order {
    Order { quantity, ..order }
}

pub open spec fn min_qty(a: u64, b: u64) -> u64 {
    if a < b { a } else { b }
}

/// Matches `incoming` against the opposite side of a book, listed in
/// priority order (best price first, earlier arrival first within a price).
/// Returns what is left of the incoming order, the trades in the order they
/// execute, and the opposite side afterwards. Resting orders that are filled
/// leave the side; a partly filled one keeps its place with what is left.
pub open spec fn match_against(incoming: Order, side: Seq<Order>) -> (Order, Seq<Trade>, Seq<Order>)
    decreases side.len(),
{
    if incoming.quantity == 0 || side.len() == 0 || !crosses(incoming, side[0].price) {
        (incoming, Seq::empty(), side)
    } else {
        let resting = side[0];
        let q = min_qty(incoming.quantity, resting.quantity);
        let trade = trade_between(incoming, resting, q);
        if resting.quantity > incoming.quantity {
            (
                with_quantity(incoming, 0),
                seq![trade],
                side.update(0, with_quantity(resting, (resting.quantity - q) as u64)),
            )
        } else {
            let rest = match_against(
                with_quantity(incoming, (incoming.quantity - q) as u64),
                side.drop_first(),
            );
            (rest.0, seq![trade] + rest.1, rest.2)
        }
    }
}

/// Whether `resting`, already queued on `order`'s own side, keeps priority
/// over `order`: its price is at least as good.
pub open spec fn ahead_of(resting: Order, order: Order) -> bool {
    match order.order_type {
        OrderType::Buy => resting.price >= order.price,
        OrderType::Sell => resting.price <= order.price,
    }
}

/// Queues `order` on its own side: behind every order with an equal or
/// better price, ahead of every order with a worse one.
pub open spec fn insert_by_priority(side: Seq<Order>, order: Order) -> Seq<Order>
    decreases side.len(),
{
    if side.len() == 0 {
        seq![order]
    } else if ahead_of(side[0], order) {
        seq![side[0]] + insert_by_priority(side.drop_first(), order)
    } else {
        seq![order] + side
    }
}

/// A side of a book for orders of type `kind`: every order has that type,
/// and prices run from best to worst (falling for bids, rising for offers).
pub open spec fn side_ordered(side: Seq<Order>, kind: OrderType) -> bool {
    &&& forall|i: int| 0 <= i < side.len() ==> (#[trigger] side[i]).order_type == kind
    &&& forall|i: int, j: int|
        0 <= i < j < side.len() ==> match kind {
            OrderType::Buy => (#[trigger] side[i]).price >= (#[trigger] side[j]).price,
            OrderType::Sell => side[i].price <= side[j].price,
        }
}

/// The number of shares resting on a side.
pub open spec fn resting_quantity(side: Seq<Order>) -> nat
    decreases side.len(),
{
    if side.len() == 0 {
        0
    } else {
        side[0].quantity as nat + resting_quantity(side.drop_first())
    }
}

/// The number of shares exchanged in a sequence of trades.
pub open spec fn traded_quantity(trades: Seq<Trade>) -> nat
    decreases trades.len(),
{
    if trades.len() == 0 {
        0
    } else {
        traded_quantity(trades.drop_last()) + trades.last().quantity as nat
    }
}

/// What matching leaves behind: the incoming order keeps everything but its
/// quantity, which only shrinks; if some of it is left, the opposite side
/// offers nothing it can trade with; and the side afterwards is the side
/// before with some filled orders gone from the front and at most the new
/// front order reduced.
pub proof fn lemma_match_shape(incoming: Order, side: Seq<Order>)
    ensures
        ({
            let m = match_against(incoming, side);
            let d = side.len() - m.2.len();
            &&& m.0 == with_quantity(incoming, m.0.quantity)
            &&& m.0.quantity <= incoming.quantity
            &&& m.0.quantity > 0 ==> (m.2.len() == 0 || !crosses(incoming, m.2[0].price))
            &&& 0 <= d <= side.len()
            &&& forall|i: int| 0 <= i < m.2.len() ==> (#[trigger] m.2[i]) == with_quantity(side[i + d], m.2[i].quantity)
            &&& forall|i: int| 0 <= i < m.2.len() ==> (#[trigger] m.2[i]).quantity <= side[i + d].quantity
            &&& forall|i: int| 1 <= i < m.2.len() ==> (#[trigger] m.2[i]) == side[i + d]
            &&& (forall|i: int| 0 <= i < side.len() ==> (#[trigger] side[i]).quantity > 0)
                ==> (forall|i: int| 0 <= i < m.2.len() ==> (#[trigger] m.2[i]).quantity > 0)
        }),
    decreases side.len(),
{
    let m = match_against(incoming, side);
    if incoming.quantity == 0 || side.len() == 0 || !crosses(incoming, side[0].price) {
        assert forall|i: int| 0 <= i < m.2.len() implies (#[trigger] m.2[i]) == with_quantity(side[i], m.2[i].quantity) by {
            assert(side[i] == with_quantity(side[i], side[i].quantity));
        }
    } else {
        let resting = side[0];
        let q = min_qty(incoming.quantity, resting.quantity);
        if resting.quantity > incoming.quantity {
            assert forall|i: int| 0 <= i < m.2.len() implies (#[trigger] m.2[i]) == with_quantity(side[i], m.2[i].quantity) by {
                if i > 0 {
                    assert(side[i] == with_quantity(side[i], side[i].quantity));
                }
            }
        } else {
            let next = with_quantity(incoming, (incoming.quantity - q) as u64);
            let rest = side.drop_first();
            lemma_match_shape(next, rest);
            let r = match_against(next, rest);
            assert(m.2 == r.2);
            let d = side.len() - m.2.len();
            let d1 = rest.len() - r.2.len();
            assert(d == d1 + 1);
            assert forall|i: int| 0 <= i < m.2.len() implies (#[trigger] m.2[i]) == with_quantity(side[i + d], m.2[i].quantity) by {
                assert(rest[i + d1] == side[i + d]);
            }
            assert forall|i: int| 0 <= i < m.2.len() implies (#[trigger] m.2[i]).quantity <= side[i + d].quantity by {
                assert(rest[i + d1] == side[i + d]);
            }
            assert forall|i: int| 1 <= i < m.2.len() implies (#[trigger] m.2[i]) == side[i + d] by {
                assert(rest[i + d1] == side[i + d]);
            }
            if forall|i: int| 0 <= i < side.len() ==> (#[trigger] side[i]).quantity > 0 {
                assert forall|i: int| 0 <= i < rest.len() implies (#[trigger] rest[i]).quantity > 0 by {
                    assert(rest[i] == side[i + 1]);
                }
            }
        }
    }
}

/// Matching keeps a side in priority order.
pub proof fn lemma_match_keeps_order(incoming: Order, side: Seq<Order>, kind: OrderType)
    requires
        side_ordered(side, kind),
    ensures
        side_ordered(match_against(incoming, side).2, kind),
{
    lemma_match_shape(incoming, side);
    let m = match_against(incoming, side);
    let d = side.len() - m.2.len();
    assert forall|i: int| 0 <= i < m.2.len() implies (#[trigger] m.2[i]).order_type == kind by {
        assert(side[i + d].order_type == kind);
    }
    assert forall|i: int, j: int| 0 <= i < j < m.2.len() implies match kind {
        OrderType::Buy => (#[trigger] m.2[i]).price >= (#[trigger] m.2[j]).price,
        OrderType::Sell => m.2[i].price <= m.2[j].price,
    } by {
        assert(m.2[i].price == side[i + d].price);
        assert(m.2[j].price == side[j + d].price);
    }
}

pub proof fn lemma_insert_by_priority_at(side: Seq<Order>, order: Order, k: int)
    requires
        0 <= k <= side.len(),
        forall|i: int| 0 <= i < k ==> ahead_of(#[trigger] side[i], order),
        k < side.len() ==> !ahead_of(side[k], order),
    ensures
        insert_by_priority(side, order) == side.insert(k, order),
    decreases side.len(),
{
    if side.len() == 0 {
        assert(side.insert(k, order) =~= seq![order]);
    } else if k == 0 {
        assert(side.insert(k, order) =~= seq![order] + side);
    } else {
        let rest = side.drop_first();
        assert forall|i: int| 0 <= i < k - 1 implies ahead_of(#[trigger] rest[i], order) by {
            assert(rest[i] == side[i + 1]);
        }
        lemma_insert_by_priority_at(rest, order, k - 1);
        assert(side.insert(k, order) =~= seq![side[0]] + rest.insert(k - 1, order));
    }
}

/// How many orders of a side keep priority over `order`, counted from the front.
pub open spec fn priority_slot(side: Seq<Order>, order: Order) -> nat
    decreases side.len(),
{
    if side.len() == 0 {
        0
    } else if ahead_of(side[0], order) {
        1 + priority_slot(side.drop_first(), order)
    } else {
        0
    }
}

pub proof fn lemma_priority_slot(side: Seq<Order>, order: Order)
    ensures
        priority_slot(side, order) <= side.len(),
        forall|i: int| 0 <= i < priority_slot(side, order) ==> ahead_of(#[trigger] side[i], order),
        priority_slot(side, order) < side.len() ==> !ahead_of(side[priority_slot(side, order) as int], order),
    decreases side.len(),
{
    if side.len() > 0 && ahead_of(side[0], order) {
        let rest = side.drop_first();
        lemma_priority_slot(rest, order);
        assert forall|i: int| 0 <= i < priority_slot(side, order) implies ahead_of(#[trigger] side[i], order) by {
            if i > 0 {
                assert(side[i] == rest[i - 1]);
            }
        }
    }
}

/// Queueing an order on its own side keeps that side in priority order.
pub proof fn lemma_insert_keeps_order(side: Seq<Order>, order: Order)
    requires
        side_ordered(side, order.order_type),
    ensures
        side_ordered(insert_by_priority(side, order), order.order_type),
{
    let k = priority_slot(side, order) as int;
    lemma_priority_slot(side, order);
    lemma_insert_by_priority_at(side, order, k);
    let after = side.insert(k, order);
    assert forall|i: int, j: int| 0 <= i < j < after.len() implies match order.order_type {
        OrderType::Buy => (#[trigger] after[i]).price >= (#[trigger] after[j]).price,
        OrderType::Sell => after[i].price <= after[j].price,
    } by {
        if i < k && j > k {
            assert(after[i] == side[i]);
            assert(after[j] == side[j - 1]);
        } else if i < k && j == k {
            assert(after[i] == side[i]);
        } else if i == k && j > k {
            assert(after[j] == side[j - 1]);
            assert(!ahead_of(side[k], order));
        } else if i < k {
            assert(after[i] == side[i]);
            assert(after[j] == side[j]);
        } else {
            assert(after[i] == side[i - 1]);
            assert(after[j] == side[j - 1]);
        }
    }
    assert forall|i: int| 0 <= i < after.len() implies (#[trigger] after[i]).order_type == order.order_type by {
        if i < k {
            assert(after[i] == side[i]);
        } else if i > k {
            assert(after[i] == side[i - 1]);
        }
    }
}

} // verus!

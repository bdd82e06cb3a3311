use zero_sum_game::exchange::OrderBook;
use zero_sum_game::orders::{Order, OrderType};

fn sell(id: u64, quantity: u64, price: u64) -> Order {
    Order::new(id, OrderType::Sell, "XYZ", quantity, price, 0)
}

fn buy(id: u64, quantity: u64, price: u64) -> Order {
    Order::new(id, OrderType::Buy, "XYZ", quantity, price, 0)
}

fn ids(orders: &std::collections::VecDeque<Order>) -> Vec<u64> {
    orders.iter().map(|o| o.id).collect()
}

#[test]
fn resting_orders_queue_by_price_then_arrival() {
    let mut book = OrderBook::new();
    book.add_order(sell(1, 5, 101));
    book.add_order(sell(2, 5, 100));
    book.add_order(sell(3, 5, 101));
    assert_eq!(ids(book.sell_orders()), vec![2, 1, 3]);
    book.add_order(buy(4, 5, 90));
    book.add_order(buy(5, 5, 95));
    book.add_order(buy(6, 5, 90));
    assert_eq!(ids(book.buy_orders()), vec![5, 4, 6]);
}

#[test]
fn buy_fills_best_offers_first() {
    let mut book = OrderBook::new();
    book.add_order(sell(1, 5, 102));
    book.add_order(sell(2, 5, 100));
    book.add_order(sell(3, 5, 101));
    let trades = book.match_order(buy(10, 12, 101));
    let fills: Vec<(u64, u64, u64)> = trades.iter().map(|t| (t.matched_sell_order_id, t.quantity, t.price)).collect();
    assert_eq!(fills, vec![(2, 5, 100), (3, 5, 101)]);
    assert!(trades.iter().all(|t| t.matched_buy_order_id == 10));
    // The rest of the buy rests at its limit, below the remaining offer.
    assert_eq!(ids(book.buy_orders()), vec![10]);
    assert_eq!(book.buy_orders()[0].quantity, 2);
    assert_eq!(ids(book.sell_orders()), vec![1]);
}

#[test]
fn partial_fill_keeps_the_resting_order_in_front() {
    let mut book = OrderBook::new();
    book.add_order(buy(1, 10, 100));
    book.add_order(buy(2, 10, 100));
    let trades = book.match_order(sell(3, 4, 99));
    assert_eq!(trades.len(), 1);
    assert_eq!(trades[0].matched_buy_order_id, 1);
    assert_eq!(trades[0].matched_sell_order_id, 3);
    assert_eq!(trades[0].quantity, 4);
    assert_eq!(trades[0].price, 100);
    assert_eq!(ids(book.buy_orders()), vec![1, 2]);
    assert_eq!(book.buy_orders()[0].quantity, 6);
    assert!(book.sell_orders().is_empty());
}

#[test]
fn order_that_does_not_cross_only_rests() {
    let mut book = OrderBook::new();
    book.add_order(sell(1, 5, 105));
    let trades = book.match_order(buy(2, 5, 104));
    assert!(trades.is_empty());
    assert_eq!(ids(book.buy_orders()), vec![2]);
    assert_eq!(ids(book.sell_orders()), vec![1]);
}

#[test]
fn exact_fill_leaves_nothing_behind() {
    let mut book = OrderBook::new();
    book.add_order(sell(1, 5, 100));
    let trades = book.match_order(buy(2, 5, 100));
    assert_eq!(trades.len(), 1);
    assert!(book.buy_orders().is_empty());
    assert!(book.sell_orders().is_empty());
}

#[test]
fn zero_quantity_order_neither_trades_nor_rests() {
    let mut book = OrderBook::new();
    book.add_order(sell(1, 5, 100));
    let trades = book.match_order(buy(2, 0, 200));
    assert!(trades.is_empty());
    assert!(book.buy_orders().is_empty());
    assert_eq!(book.sell_orders()[0].quantity, 5);
}

#[test]
fn shares_are_conserved_by_matching() {
    let mut book = OrderBook::new();
    book.add_order(sell(1, 3, 100));
    book.add_order(sell(2, 4, 100));
    book.add_order(sell(3, 6, 103));
    let before: u64 = book.sell_orders().iter().map(|o| o.quantity).sum();
    let trades = book.match_order(buy(9, 10, 103));
    let traded: u64 = trades.iter().map(|t| t.quantity).sum();
    let after: u64 = book.sell_orders().iter().map(|o| o.quantity).sum();
    assert_eq!(traded, 10);
    assert_eq!(before, after + traded);
    assert!(trades.iter().all(|t| t.price <= 103));
}

use zero_sum_game::exchange::StockExchange;
use zero_sum_game::orders::{Order, OrderType};
use zero_sum_game::securities::get_initial_securities;
use zero_sum_game::securities_lib::{Industry, Security, Trend};

fn listed_exchange() -> StockExchange {
    let mut exchange = StockExchange::new();
    for security in get_initial_securities() {
        exchange.add_security(security).unwrap();
    }
    exchange
}

#[test]
fn second_listing_of_a_ticker_is_refused() {
    let mut exchange = listed_exchange();
    let again = Security::new("XYZ", "Another", Industry::Other, 1, 1);
    assert_eq!(
        exchange.add_security(again),
        Err("Security with ticker XYZ already exists.".to_string())
    );
    assert_eq!(exchange.securities().len(), 4);
    assert_eq!(exchange.get_security("XYZ").unwrap().name, "XYZ Corp");
}

#[test]
fn unknown_ticker_is_not_tradable() {
    let mut exchange = listed_exchange();
    let result = exchange.place_order(Order::new(1, OrderType::Buy, "NOPE", 1, 100, 0));
    assert_eq!(
        result.unwrap_err(),
        "Security NOPE is not tradable (current trend is Banned) or does not exist."
    );
    assert!(exchange.trade_history().is_empty());
}

#[test]
fn banned_security_is_not_tradable() {
    let mut exchange = listed_exchange();
    exchange.get_security_mut("ABC").unwrap().trend = Trend::Banned;
    let result = exchange.place_order(Order::new(1, OrderType::Sell, "ABC", 1, 100, 0));
    assert_eq!(
        result.unwrap_err(),
        "Security ABC is not tradable (current trend is Banned) or does not exist."
    );
    assert!(exchange.get_order_book("ABC").unwrap().sell_orders().is_empty());
}

#[test]
fn lookups_by_ticker() {
    let exchange = listed_exchange();
    assert_eq!(exchange.get_security("FIN").unwrap().current_price, 25000);
    assert!(exchange.get_security("fin").is_none());
    assert!(exchange.get_order_book("GAME").is_some());
    assert!(exchange.get_order_book("NONE").is_none());
}

#[test]
fn matched_orders_update_security_and_history() {
    let mut exchange = listed_exchange();
    let first = exchange.place_order(Order::new(1, OrderType::Buy, "XYZ", 10, 15000, 1)).unwrap();
    assert!(first.is_empty());
    let trades = exchange.place_order(Order::new(2, OrderType::Sell, "XYZ", 5, 14900, 2)).unwrap();
    assert_eq!(trades.len(), 1);
    assert_eq!(trades[0].matched_buy_order_id, 1);
    assert_eq!(trades[0].matched_sell_order_id, 2);
    assert_eq!(trades[0].quantity, 5);
    assert_eq!(trades[0].price, 15000);
    assert_eq!(trades[0].timestamp, 2);
    let xyz = exchange.get_security("XYZ").unwrap();
    assert_eq!(xyz.volume, 5);
    assert_eq!(xyz.current_price, 15000);
    assert_eq!(xyz.market_cap, 15000 * 1_000_000);
    assert_eq!(exchange.trade_history().len(), 1);
    let book = exchange.get_order_book("XYZ").unwrap();
    assert_eq!(book.buy_orders().len(), 1);
    assert_eq!(book.buy_orders()[0].quantity, 5);
    assert!(book.sell_orders().is_empty());
}

#[test]
fn trades_move_the_day_range() {
    let mut exchange = listed_exchange();
    exchange.place_order(Order::new(1, OrderType::Sell, "ABC", 5, 8000, 1)).unwrap();
    exchange.place_order(Order::new(2, OrderType::Sell, "ABC", 5, 7000, 1)).unwrap();
    let trades = exchange.place_order(Order::new(3, OrderType::Buy, "ABC", 10, 9000, 2)).unwrap();
    let prices: Vec<u64> = trades.iter().map(|t| t.price).collect();
    assert_eq!(prices, vec![7000, 8000]);
    let abc = exchange.get_security("ABC").unwrap();
    assert_eq!(abc.current_price, 8000);
    assert_eq!(abc.day_low, 7000);
    assert_eq!(abc.day_high, 8000);
    assert_eq!(abc.volume, 10);
}

#[test]
fn book_stays_uncrossed() {
    let mut exchange = listed_exchange();
    exchange.place_order(Order::new(1, OrderType::Buy, "GAME", 10, 1000, 0)).unwrap();
    exchange.place_order(Order::new(2, OrderType::Sell, "GAME", 4, 1100, 0)).unwrap();
    exchange.place_order(Order::new(3, OrderType::Sell, "GAME", 20, 990, 0)).unwrap();
    let book = exchange.get_order_book("GAME").unwrap();
    assert!(book.buy_orders().is_empty());
    let asks: Vec<(u64, u64)> = book.sell_orders().iter().map(|o| (o.price, o.quantity)).collect();
    assert_eq!(asks, vec![(990, 10), (1100, 4)]);
    exchange.place_order(Order::new(4, OrderType::Buy, "GAME", 5, 980, 0)).unwrap();
    let book = exchange.get_order_book("GAME").unwrap();
    assert!(book.buy_orders()[0].price < book.sell_orders()[0].price);
}

#[test]
fn overflowing_volume_is_detected_before_placing() {
    let mut exchange = StockExchange::new();
    let mut huge = Security::new("BIG", "Big", Industry::Other, 1, 1);
    huge.volume = u64::MAX - 1;
    exchange.add_security(huge).unwrap();
    exchange.place_order(Order::new(1, OrderType::Sell, "BIG", 5, 1, 0)).unwrap();
    let small = Order::new(2, OrderType::Buy, "BIG", 1, 1, 0);
    let large = Order::new(3, OrderType::Buy, "BIG", 2, 1, 0);
    assert!(exchange.can_place_order(&small));
    assert!(!exchange.can_place_order(&large));
    let unknown = Order::new(4, OrderType::Buy, "NONE", 2, 1, 0);
    assert!(exchange.can_place_order(&unknown));
}

#[test]
fn securities_stay_listed_under_their_listing_ticker() {
    let mut exchange = listed_exchange();
    exchange.get_security_mut("XYZ").unwrap().ticker_symbol = "QQQ".to_string();
    assert_eq!(exchange.get_security("XYZ").unwrap().ticker_symbol, "QQQ");
    assert!(exchange.get_security("QQQ").is_none());
    assert!(exchange.get_order_book("XYZ").is_some());
    let trades = exchange.place_order(Order::new(1, OrderType::Buy, "XYZ", 1, 15000, 0)).unwrap();
    assert!(trades.is_empty());
    assert!(exchange.place_order(Order::new(2, OrderType::Buy, "QQQ", 1, 15000, 0)).is_err());
    let again = Security::new("XYZ", "Again", Industry::Other, 1, 1);
    assert!(exchange.add_security(again).is_err());
}

use zero_sum_game::exchange::StockExchange;
use zero_sum_game::orders::{Order, OrderType, Trade};
use zero_sum_game::player::Player;
use zero_sum_game::securities::get_initial_securities;
use zero_sum_game::session::settle_buy;

#[test]
fn scripted_session_outcome() {
    let mut exchange = StockExchange::new();
    for security in get_initial_securities() {
        exchange.add_security(security).unwrap();
    }
    let mut player = Player::new("Player 1".to_string(), 1_000_000);

    let resting = exchange.place_order(Order::new(1, OrderType::Buy, "XYZ", 10, 15000, 1)).unwrap();
    assert!(resting.is_empty());
    let market = exchange.place_order(Order::new(2, OrderType::Sell, "XYZ", 5, 15000, 2)).unwrap();
    assert_eq!(market.len(), 1);
    assert_eq!((market[0].matched_buy_order_id, market[0].matched_sell_order_id), (1, 2));

    settle_buy(&mut player, &vec![Trade::new(0, 0, "ABC".to_string(), 20, 7400, 2)]);
    assert_eq!(player.cash_balance, 852_000);

    let sell = exchange.place_order(Order::new(3, OrderType::Sell, "ABC", 10, 7500, 3)).unwrap();
    assert!(sell.is_empty());
    let buy = exchange.place_order(Order::new(4, OrderType::Buy, "ABC", 20, 7600, 4)).unwrap();
    assert_eq!(buy.len(), 1);
    assert_eq!((buy[0].matched_buy_order_id, buy[0].matched_sell_order_id), (4, 3));
    assert_eq!((buy[0].quantity, buy[0].price), (10, 7500));
    settle_buy(&mut player, &buy);
    assert_eq!(player.cash_balance, 777_000);
    assert_eq!(player.portfolio[0].quantity, 30);
    assert_eq!(player.portfolio[0].average_buy_price, 223_000 / 30);

    let xyz_book = exchange.get_order_book("XYZ").unwrap();
    assert_eq!(xyz_book.buy_orders().len(), 1);
    assert_eq!(xyz_book.buy_orders()[0].quantity, 5);
    let abc_book = exchange.get_order_book("ABC").unwrap();
    assert_eq!(abc_book.buy_orders()[0].id, 4);
    assert_eq!(abc_book.buy_orders()[0].quantity, 10);
    assert!(abc_book.sell_orders().is_empty());
    assert_eq!(exchange.trade_history().len(), 2);

    let abc = exchange.get_security("ABC").unwrap();
    assert_eq!((abc.volume, abc.current_price, abc.day_low, abc.day_high), (10, 7500, 7500, 7550));

    let prices: Vec<(String, u64)> = exchange
        .securities()
        .iter()
        .map(|s| (s.ticker_symbol.clone(), s.current_price))
        .collect();
    assert!(player.net_worth_fits(&prices));
    assert_eq!(player.get_total_net_worth(&prices), 777_000 + 30 * 7500);
}

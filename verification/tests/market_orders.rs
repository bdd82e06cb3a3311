use zero_sum_game::exchange::StockExchange;
use zero_sum_game::orders::{Order, OrderType};
use zero_sum_game::player::Player;
use zero_sum_game::securities::get_initial_securities;
use zero_sum_game::securities_lib::Trend;
use zero_sum_game::session::{can_market_buy, can_market_sell, market_buy, market_sell, CommandError, MarketOutcome};

fn listed_exchange() -> StockExchange {
    let mut exchange = StockExchange::new();
    for security in get_initial_securities() {
        exchange.add_security(security).unwrap();
    }
    exchange
}

#[test]
fn market_buy_takes_an_id_places_and_settles() {
    let mut exchange = listed_exchange();
    exchange.place_order(Order::new(1, OrderType::Sell, "XYZ", 4, 14000, 0)).unwrap();
    let mut player = Player::new("P".to_string(), 200_000);
    let mut next_id = 7;
    let xyz = "XYZ".to_string();
    assert!(can_market_buy(&player, &exchange, next_id, &xyz, 6, 3));
    match market_buy(&mut player, &mut exchange, &mut next_id, &xyz, 6, 3) {
        MarketOutcome::Executed { order, trades, settlement } => {
            assert_eq!(order.id, 7);
            assert_eq!(order.price, 15000);
            assert_eq!(order.timestamp, 3);
            assert_eq!(trades.len(), 1);
            assert_eq!((trades[0].quantity, trades[0].price), (4, 14000));
            assert_eq!(settlement, vec![200_000 - 56_000]);
        }
        other => panic!("unexpected {:?}", other),
    }
    assert_eq!(next_id, 8);
    assert_eq!(player.cash_balance, 144_000);
    assert_eq!(player.portfolio[0].quantity, 4);
    let book = exchange.get_order_book("XYZ").unwrap();
    assert_eq!(book.buy_orders()[0].id, 7);
    assert_eq!(book.buy_orders()[0].quantity, 2);
    assert_eq!(exchange.trade_history().len(), 1);
}

#[test]
fn refused_market_buy_keeps_the_id() {
    let mut exchange = listed_exchange();
    let mut player = Player::new("P".to_string(), 10);
    let mut next_id = 5;
    match market_buy(&mut player, &mut exchange, &mut next_id, &"XYZ".to_string(), 1, 0) {
        MarketOutcome::Refused(error) => assert_eq!(
            error,
            CommandError::InsufficientFunds { required: 15000, price: 15000, available: 10 }
        ),
        other => panic!("unexpected {:?}", other),
    }
    assert_eq!(next_id, 5);
    assert_eq!(player.cash_balance, 10);
}

#[test]
fn rejected_market_sell_uses_up_an_id() {
    let mut exchange = listed_exchange();
    exchange.get_security_mut("ABC").unwrap().trend = Trend::Banned;
    let mut player = Player::new("P".to_string(), 0);
    player.add_shares("ABC".to_string(), 5, 7000);
    let mut next_id = 5;
    let abc = "ABC".to_string();
    assert!(can_market_sell(&player, &exchange, next_id, &abc, 5, 0));
    match market_sell(&mut player, &mut exchange, &mut next_id, &abc, 5, 0) {
        MarketOutcome::Rejected(message) => assert_eq!(
            message,
            "Security ABC is not tradable (current trend is Banned) or does not exist."
        ),
        other => panic!("unexpected {:?}", other),
    }
    assert_eq!(next_id, 6);
    assert_eq!(player.portfolio[0].quantity, 5);
}

#[test]
fn market_sell_collects_the_proceeds() {
    let mut exchange = listed_exchange();
    exchange.place_order(Order::new(1, OrderType::Buy, "ABC", 3, 7600, 0)).unwrap();
    let mut player = Player::new("P".to_string(), 0);
    player.add_shares("ABC".to_string(), 5, 7000);
    let mut next_id = 2;
    match market_sell(&mut player, &mut exchange, &mut next_id, &"ABC".to_string(), 5, 0) {
        MarketOutcome::Executed { order, trades, settlement } => {
            assert_eq!(order.order_type, OrderType::Sell);
            assert_eq!(order.price, 7550);
            assert_eq!(trades.len(), 1);
            assert_eq!(settlement, vec![Ok(3 * 7600)]);
        }
        other => panic!("unexpected {:?}", other),
    }
    assert_eq!(next_id, 3);
    assert_eq!(player.portfolio[0].quantity, 2);
    let book = exchange.get_order_book("ABC").unwrap();
    assert_eq!(book.sell_orders()[0].quantity, 2);
}

#[test]
fn market_order_overflows_are_detected() {
    let exchange = listed_exchange();
    let player = Player::new("P".to_string(), u64::MAX);
    let xyz = "XYZ".to_string();
    assert!(!can_market_buy(&player, &exchange, 1, &xyz, u64::MAX, 0));
    assert!(!can_market_buy(&player, &exchange, u64::MAX, &xyz, 1, 0));
    assert!(can_market_buy(&player, &exchange, u64::MAX, &xyz, 0, 0));
}

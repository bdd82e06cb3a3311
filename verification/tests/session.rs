use zero_sum_game::commands::Command;
use zero_sum_game::exchange::StockExchange;
use zero_sum_game::orders::{Order, OrderType, Trade};
use zero_sum_game::player::Player;
use zero_sum_game::securities::get_initial_securities;
use zero_sum_game::securities_lib::Security;
use zero_sum_game::securities_lib::Industry;
use zero_sum_game::session::{
    can_settle_buy, can_settle_sell, get_current_timestamp, prepare_buy_order, prepare_sell_order,
    settle_buy, settle_sell, shares_held, CommandError,
};

fn listed_exchange() -> StockExchange {
    let mut exchange = StockExchange::new();
    for security in get_initial_securities() {
        exchange.add_security(security).unwrap();
    }
    exchange
}

#[test]
fn timestamps_are_zero() {
    assert_eq!(get_current_timestamp(), 0);
}

#[test]
fn buy_validation() {
    let exchange = listed_exchange();
    let player = Player::new("P".to_string(), 100_000);
    let xyz = "XYZ".to_string();
    assert_eq!(prepare_buy_order(&player, &exchange, &xyz, 0, 1, 0).unwrap_err(), CommandError::ZeroQuantity);
    assert_eq!(
        prepare_buy_order(&player, &exchange, &"NOPE".to_string(), 1, 1, 0).unwrap_err(),
        CommandError::UnknownSecurity
    );
    assert_eq!(
        prepare_buy_order(&player, &exchange, &xyz, 7, 1, 0).unwrap_err(),
        CommandError::InsufficientFunds { required: 105_000, price: 15000, available: 100_000 }
    );
    let order = prepare_buy_order(&player, &exchange, &xyz, 6, 11, 4).unwrap();
    assert_eq!(order.id, 11);
    assert_eq!(order.order_type, OrderType::Buy);
    assert_eq!(order.security_ticker, "XYZ");
    assert_eq!(order.quantity, 6);
    assert_eq!(order.price, 15000);
    assert_eq!(order.timestamp, 4);
}

#[test]
fn zero_price_refuses_both_sides() {
    let mut exchange = StockExchange::new();
    exchange.add_security(Security::new("FREE", "Free", Industry::Other, 0, 10)).unwrap();
    let mut player = Player::new("P".to_string(), 100);
    player.add_shares("FREE".to_string(), 5, 0);
    let free = "FREE".to_string();
    assert_eq!(prepare_buy_order(&player, &exchange, &free, 1, 1, 0).unwrap_err(), CommandError::ZeroPrice);
    assert_eq!(prepare_sell_order(&player, &exchange, &free, 1, 1, 0).unwrap_err(), CommandError::ZeroPrice);
}

#[test]
fn sell_validation() {
    let exchange = listed_exchange();
    let mut player = Player::new("P".to_string(), 0);
    player.add_shares("ABC".to_string(), 20, 7400);
    player.add_shares("GONE".to_string(), 1, 5);
    let abc = "ABC".to_string();
    assert_eq!(prepare_sell_order(&player, &exchange, &abc, 0, 1, 0).unwrap_err(), CommandError::ZeroQuantity);
    assert_eq!(
        prepare_sell_order(&player, &exchange, &abc, 21, 1, 0).unwrap_err(),
        CommandError::NotEnoughShares { owned: 20 }
    );
    assert_eq!(
        prepare_sell_order(&player, &exchange, &"XYZ".to_string(), 1, 1, 0).unwrap_err(),
        CommandError::NotEnoughShares { owned: 0 }
    );
    assert_eq!(
        prepare_sell_order(&player, &exchange, &"GONE".to_string(), 1, 1, 0).unwrap_err(),
        CommandError::UnknownSecurity
    );
    let order = prepare_sell_order(&player, &exchange, &abc, 10, 3, 0).unwrap();
    assert_eq!(order.order_type, OrderType::Sell);
    assert_eq!(order.price, 7550);
    assert_eq!(shares_held(&player, &abc), 20);
}

#[test]
fn market_buy_settles_in_cash_and_shares() {
    let mut exchange = listed_exchange();
    exchange.place_order(Order::new(1, OrderType::Sell, "XYZ", 4, 14000, 0)).unwrap();
    exchange.place_order(Order::new(2, OrderType::Sell, "XYZ", 4, 15000, 0)).unwrap();
    let mut player = Player::new("P".to_string(), 200_000);
    let order = prepare_buy_order(&player, &exchange, &"XYZ".to_string(), 6, 3, 0).unwrap();
    assert!(exchange.can_place_order(&order));
    let trades = exchange.place_order(order).unwrap();
    assert!(can_settle_buy(&player, &trades));
    let balances = settle_buy(&mut player, &trades);
    assert_eq!(balances, vec![200_000 - 4 * 14000, 200_000 - 4 * 14000 - 2 * 15000]);
    assert_eq!(player.cash_balance, 200_000 - 86_000);
    assert_eq!(player.portfolio[0].quantity, 6);
    assert_eq!(player.portfolio[0].average_buy_price, 86_000 / 6);
    // Spent at most the validated cost of six shares at the market price.
    assert!(player.cash_balance >= 200_000 - 6 * 15000);
}

#[test]
fn market_sell_settles_in_cash_and_shares() {
    let mut exchange = listed_exchange();
    exchange.place_order(Order::new(1, OrderType::Buy, "ABC", 3, 7600, 0)).unwrap();
    exchange.place_order(Order::new(2, OrderType::Buy, "ABC", 10, 7550, 0)).unwrap();
    let mut player = Player::new("P".to_string(), 0);
    player.add_shares("ABC".to_string(), 5, 7000);
    let order = prepare_sell_order(&player, &exchange, &"ABC".to_string(), 5, 3, 0).unwrap();
    let trades = exchange.place_order(order).unwrap();
    assert!(can_settle_sell(&player, &trades));
    let outcomes = settle_sell(&mut player, &trades);
    assert_eq!(outcomes, vec![Ok(3 * 7600), Ok(3 * 7600 + 2 * 7550)]);
    assert!(player.portfolio.is_empty());
}

#[test]
fn settling_a_sell_without_the_shares_reports_it() {
    let mut player = Player::new("P".to_string(), 0);
    player.add_shares("ABC".to_string(), 1, 7000);
    let trades = vec![
        Trade::new(1, 2, "ABC".to_string(), 2, 10, 0),
        Trade::new(1, 2, "XYZ".to_string(), 1, 10, 0),
    ];
    let outcomes = settle_sell(&mut player, &trades);
    assert_eq!(outcomes, vec![Err("Not enough shares to sell."), Err("Security not found in portfolio.")]);
    assert_eq!(player.cash_balance, 30);
    assert_eq!(player.portfolio[0].quantity, 1);
}

#[test]
fn settlement_tests_detect_overflow_and_overdraft() {
    let player = Player::new("P".to_string(), 10);
    let costly = vec![Trade::new(1, 2, "ABC".to_string(), 2, 6, 0)];
    assert!(!can_settle_buy(&player, &costly));
    let cheap = vec![Trade::new(1, 2, "ABC".to_string(), 2, 5, 0)];
    assert!(can_settle_buy(&player, &cheap));
    let rich = Player::new("R".to_string(), u64::MAX - 10);
    assert!(can_settle_sell(&rich, &cheap));
    let more = vec![
        Trade::new(1, 2, "ABC".to_string(), 2, 5, 0),
        Trade::new(1, 2, "ABC".to_string(), 2, 3, 0),
    ];
    assert!(!can_settle_sell(&rich, &more));
}

#[test]
fn commands_are_read_from_words() {
    assert!(matches!(Command::parse("   "), Command::Empty));
    match Command::parse("  BUY xyz 10 ") {
        Command::Buy { ticker, quantity } => {
            assert_eq!(ticker, "XYZ");
            assert_eq!(quantity, 10);
        }
        other => panic!("unexpected {:?}", other),
    }
    match Command::parse("sell abc +7") {
        Command::Sell { ticker, quantity } => {
            assert_eq!(ticker, "ABC");
            assert_eq!(quantity, 7);
        }
        other => panic!("unexpected {:?}", other),
    }
    assert!(matches!(Command::parse("buy xyz"), Command::BuyUsage));
    assert!(matches!(Command::parse("buy xyz ten"), Command::BuyUsage));
    assert!(matches!(Command::parse("sell xyz -1"), Command::SellUsage));
    assert!(matches!(Command::parse("sell xyz 99999999999999999999"), Command::SellUsage));
    assert!(matches!(Command::parse("PF"), Command::Portfolio));
    assert!(matches!(Command::parse("portfolio"), Command::Portfolio));
    match Command::parse("quote xyz") {
        Command::Prices { ticker: Some(t) } => assert_eq!(t, "xyz"),
        other => panic!("unexpected {:?}", other),
    }
    assert!(matches!(Command::parse("prices"), Command::Prices { ticker: None }));
    match Command::parse("ob Game") {
        Command::ShowOrderBook { ticker } => assert_eq!(ticker, "Game"),
        other => panic!("unexpected {:?}", other),
    }
    assert!(matches!(Command::parse("orderbook"), Command::OrderBookUsage));
    assert!(matches!(Command::parse("trades"), Command::Trades));
    assert!(matches!(Command::parse("Help"), Command::Help));
    assert!(matches!(Command::parse("exit now"), Command::Exit));
    match Command::parse("Dance") {
        Command::Unknown { command } => assert_eq!(command, "dance"),
        other => panic!("unexpected {:?}", other),
    }
}

#[test]
fn commands_from_words_take_the_keyword_given() {
    let words = vec!["BUY", "abc", "3"];
    match Command::from_words(&words, &"buy".to_string()) {
        Command::Buy { ticker, quantity } => assert_eq!((ticker.as_str(), quantity), ("ABC", 3)),
        other => panic!("unexpected {:?}", other),
    }
}

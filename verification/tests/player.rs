use zero_sum_game::player::Player;

fn prices(list: &[(&str, u64)]) -> Vec<(String, u64)> {
    list.iter().map(|(t, p)| (t.to_string(), *p)).collect()
}

#[test]
fn cash_moves_in_and_out() {
    let mut player = Player::new("Player 1".to_string(), 1_000_000);
    player.deposit_cash(500);
    assert_eq!(player.cash_balance, 1_000_500);
    assert_eq!(player.withdraw_cash(500), Ok(()));
    assert_eq!(player.cash_balance, 1_000_000);
    assert_eq!(player.withdraw_cash(1_000_001), Err("Insufficient cash balance."));
    assert_eq!(player.cash_balance, 1_000_000);
    assert_eq!(player.withdraw_cash(1_000_000), Ok(()));
    assert_eq!(player.cash_balance, 0);
}

#[test]
fn average_buy_price_is_weighted() {
    let mut player = Player::new("P".to_string(), 0);
    player.add_shares("ABC".to_string(), 20, 7400);
    player.add_shares("ABC".to_string(), 10, 7700);
    assert_eq!(player.portfolio.len(), 1);
    assert_eq!(player.portfolio[0].quantity, 30);
    assert_eq!(player.portfolio[0].average_buy_price, 7500);
    player.add_shares("ABC".to_string(), 1, 0);
    assert_eq!(player.portfolio[0].quantity, 31);
    assert_eq!(player.portfolio[0].average_buy_price, 225000 / 31);
}

#[test]
fn adding_zero_shares_creates_an_empty_holding() {
    let mut player = Player::new("P".to_string(), 0);
    player.add_shares("XYZ".to_string(), 0, 15000);
    assert_eq!(player.portfolio.len(), 1);
    assert_eq!(player.portfolio[0].quantity, 0);
    assert_eq!(player.portfolio[0].average_buy_price, 0);
}

#[test]
fn removing_shares() {
    let mut player = Player::new("P".to_string(), 0);
    player.add_shares("ABC".to_string(), 20, 7400);
    assert_eq!(player.remove_shares("XYZ".to_string(), 1), Err("Security not found in portfolio."));
    assert_eq!(player.remove_shares("ABC".to_string(), 21), Err("Not enough shares to sell."));
    assert_eq!(player.remove_shares("ABC".to_string(), 5), Ok(()));
    assert_eq!(player.portfolio[0].quantity, 15);
    assert_eq!(player.portfolio[0].average_buy_price, 7400);
    assert_eq!(player.remove_shares("ABC".to_string(), 15), Ok(()));
    assert!(player.portfolio.is_empty());
}

#[test]
fn buying_then_selling_everything_restores_the_portfolio() {
    let mut player = Player::new("P".to_string(), 0);
    player.add_shares("FIN".to_string(), 3, 25000);
    player.add_shares("GAME".to_string(), 7, 1000);
    assert_eq!(player.remove_shares("GAME".to_string(), 7), Ok(()));
    assert_eq!(player.portfolio.len(), 1);
    assert_eq!(player.portfolio[0].security_ticker, "FIN");
    assert_eq!(player.portfolio[0].quantity, 3);
}

#[test]
fn holding_lookup() {
    let mut player = Player::new("P".to_string(), 0);
    player.add_shares("FIN".to_string(), 3, 25000);
    let h = player.holding(&"FIN".to_string()).unwrap();
    assert_eq!((h.quantity, h.average_buy_price), (3, 25000));
    assert!(player.holding(&"ABC".to_string()).is_none());
}

#[test]
fn portfolio_value_and_net_worth() {
    let mut player = Player::new("P".to_string(), 1000);
    player.add_shares("XYZ".to_string(), 10, 15000);
    player.add_shares("ABC".to_string(), 2, 7000);
    player.add_shares("ODD".to_string(), 4, 100);
    let market = prices(&[("XYZ", 15500), ("ABC", 7550), ("FIN", 25000)]);
    assert_eq!(player.get_portfolio_value(&market), 10 * 15500 + 2 * 7550);
    assert_eq!(player.get_total_net_worth(&market), 1000 + 10 * 15500 + 2 * 7550);
    assert_eq!(player.get_portfolio_value(&Vec::new()), 0);
}

#[test]
fn first_price_of_a_ticker_counts() {
    let mut player = Player::new("P".to_string(), 0);
    player.add_shares("XYZ".to_string(), 2, 1);
    let market = prices(&[("XYZ", 10), ("XYZ", 99)]);
    assert_eq!(player.get_portfolio_value(&market), 20);
}

#[test]
fn duplicate_copies_the_player() {
    let mut player = Player::new("P".to_string(), 42);
    player.add_shares("XYZ".to_string(), 2, 1);
    let copy = player.duplicate();
    assert_eq!(copy.name, "P");
    assert_eq!(copy.cash_balance, 42);
    assert_eq!(copy.portfolio.len(), 1);
}

#[test]
fn portfolio_items_keep_their_places() {
    let mut player = Player::new("P".to_string(), 0);
    player.add_shares("A".to_string(), 1, 10);
    player.add_shares("B".to_string(), 2, 20);
    player.add_shares("C".to_string(), 3, 30);
    player.add_shares("B".to_string(), 2, 40);
    let order: Vec<(&str, u64)> = player.portfolio.iter().map(|i| (i.security_ticker.as_str(), i.quantity)).collect();
    assert_eq!(order, vec![("A", 1), ("B", 4), ("C", 3)]);
    player.remove_shares("B".to_string(), 4).unwrap();
    let order: Vec<&str> = player.portfolio.iter().map(|i| i.security_ticker.as_str()).collect();
    assert_eq!(order, vec!["A", "C"]);
}

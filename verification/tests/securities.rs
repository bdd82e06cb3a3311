use zero_sum_game::orders::{Order, OrderType, Trade};
use zero_sum_game::securities::get_initial_securities;
use zero_sum_game::securities_lib::{Industry, Security, Trend};

#[test]
fn order_new_keeps_every_field() {
    let order = Order::new(7, OrderType::Sell, "ABC", 12, 7550, 3);
    assert_eq!(order.id, 7);
    assert_eq!(order.order_type, OrderType::Sell);
    assert_eq!(order.security_ticker, "ABC");
    assert_eq!(order.quantity, 12);
    assert_eq!(order.price, 7550);
    assert_eq!(order.timestamp, 3);
    let copy = order.clone();
    assert_eq!(copy.security_ticker, "ABC");
    assert_eq!(copy.quantity, 12);
}

#[test]
fn trade_new_keeps_every_field() {
    let trade = Trade::new(1, 2, "XYZ".to_string(), 5, 15000, 9);
    assert_eq!(trade.matched_buy_order_id, 1);
    assert_eq!(trade.matched_sell_order_id, 2);
    assert_eq!(trade.security_ticker, "XYZ");
    assert_eq!(trade.quantity, 5);
    assert_eq!(trade.price, 15000);
    assert_eq!(trade.timestamp, 9);
    let copy = trade.clone();
    assert_eq!(copy.matched_sell_order_id, 2);
}

#[test]
fn industry_names_ignore_case() {
    assert_eq!(Industry::new("Technology"), Industry::Technology);
    assert_eq!(Industry::new("FINANCE"), Industry::Finance);
    assert_eq!(Industry::new("real estate"), Industry::RealEstate);
    assert_eq!(Industry::new("RealEstate"), Industry::RealEstate);
    assert_eq!(Industry::new("Consumer Goods"), Industry::ConsumerGoods);
    assert_eq!(Industry::new("consumergoods"), Industry::ConsumerGoods);
    assert_eq!(Industry::new("blockchain"), Industry::Blockchain);
    assert_eq!(Industry::new("Government"), Industry::Government);
}

#[test]
fn unknown_industry_is_other() {
    assert_eq!(Industry::new("space travel"), Industry::Other);
    assert_eq!(Industry::new(""), Industry::Other);
    assert_eq!(Industry::new(" technology"), Industry::Other);
}

#[test]
fn industry_from_lowercase_is_exact() {
    assert_eq!(Industry::from_lowercase(&"media".to_string()), Industry::Media);
    assert_eq!(Industry::from_lowercase(&"Media".to_string()), Industry::Other);
}

#[test]
fn new_security_starts_flat() {
    let s = Security::new("XYZ", "XYZ Corp", Industry::Technology, 15000, 1_000_000);
    assert_eq!(s.ticker_symbol, "XYZ");
    assert_eq!(s.name, "XYZ Corp");
    assert_eq!(s.current_price, 15000);
    assert_eq!(s.previous_close_price, 15000);
    assert_eq!(s.open_price, 15000);
    assert_eq!(s.day_high, 15000);
    assert_eq!(s.day_low, 15000);
    assert_eq!(s.volume, 0);
    assert_eq!(s.market_cap, 15_000_000_000);
    assert_eq!(s.outstanding_shares, 1_000_000);
    assert_eq!(s.trend, Trend::Normal);
}

#[test]
fn update_price_widens_the_day_range() {
    let mut s = Security::new("ABC", "ABC Materials", Industry::Manufacturing, 7550, 500_000);
    s.update_price(8000);
    assert_eq!((s.current_price, s.day_high, s.day_low), (8000, 8000, 7550));
    s.update_price(7000);
    assert_eq!((s.current_price, s.day_high, s.day_low), (7000, 8000, 7000));
    assert_eq!(s.market_cap, 7000 * 500_000);
    assert_eq!(s.volume, 0);
}

#[test]
fn record_trade_adds_volume_and_moves_price() {
    let mut s = Security::new("FIN", "Finance Hub", Industry::Finance, 25000, 750_000);
    s.record_trade(26000, 10);
    s.record_trade(24000, 5);
    assert_eq!(s.volume, 15);
    assert_eq!(s.current_price, 24000);
    assert_eq!(s.day_high, 26000);
    assert_eq!(s.day_low, 24000);
    assert_eq!(s.market_cap, 24000 * 750_000);
    assert!(s.day_low <= s.current_price && s.current_price <= s.day_high);
}

#[test]
fn close_and_open_day() {
    let mut s = Security::new("GAME", "Zero Sum Game Inc.", Industry::Media, 1000, 200_000);
    s.record_trade(1200, 3);
    s.close_day();
    assert_eq!(s.previous_close_price, 1200);
    s.open_day(1100);
    assert_eq!(s.open_price, 1100);
    assert_eq!(s.current_price, 1100);
    assert_eq!(s.day_high, 1100);
    assert_eq!(s.day_low, 1100);
    assert_eq!(s.volume, 0);
    assert_eq!(s.previous_close_price, 1200);
    // The market capitalisation is not recomputed when a day opens.
    assert_eq!(s.market_cap, 1200 * 200_000);
}

#[test]
fn initial_securities_are_the_four_listings() {
    let all = get_initial_securities();
    assert_eq!(all.len(), 4);
    let tickers: Vec<&str> = all.iter().map(|s| s.ticker_symbol.as_str()).collect();
    assert_eq!(tickers, vec!["XYZ", "ABC", "FIN", "GAME"]);
    assert_eq!(all[0].market_cap, 15000 * 1_000_000);
    assert_eq!(all[1].current_price, 7550);
    assert_eq!(all[2].industry, Industry::Finance);
    assert_eq!(all[3].name, "Zero Sum Game Inc.");
    assert_eq!(all[3].market_cap, 200_000_000);
    assert_eq!(all[3].outstanding_shares, 200_000);
    assert_eq!(all[3].trend, Trend::Normal);
}

#[test]
fn securities_can_be_cloned() {
    let s = Security::new("ABC", "ABC Materials", Industry::Manufacturing, 7550, 500_000);
    let copy = s.clone();
    assert_eq!(copy.ticker_symbol, "ABC");
    assert_eq!(copy.market_cap, s.market_cap);
}

//! The securities the exchange lists when it opens.

use vstd::prelude::*;
use crate::securities_lib::{Industry, Security, Trend};

verus! {

/// A security as listed at the start: every price at `price`, no volume,
/// a normal trend, and the market capitalisation given.
pub open spec fn fresh_listing(
    security: Security,
    ticker: Seq<char>,
    name: Seq<char>,
    industry: Industry,
    price: u64,
    market_cap: nat,
    shares: u64,
) -> bool {
    &&& security.ticker_symbol@ == ticker
    &&& security.name@ == name
    &&& security.industry == industry
    &&& security.current_price == price
    &&& security.previous_close_price == price
    &&& security.open_price == price
    &&& security.day_high == price
    &&& security.day_low == price
    &&& security.volume == 0
    &&& security.market_cap == market_cap
    &&& security.outstanding_shares == shares
    &&& security.trend == Trend::Normal
}

/// The four securities listed when the game starts.
pub fn get_initial_securities() -> (securities: Vec<Security>)
    ensures
        securities@.len() == 4,
        fresh_listing(securities@[0], "XYZ"@, "XYZ Corp"@, Industry::Technology, 15000, 15000 * 1_000_000, 1_000_000),
        fresh_listing(securities@[1], "ABC"@, "ABC Materials"@, Industry::Manufacturing, 7550, 7550 * 500_000, 500_000),
        fresh_listing(securities@[2], "FIN"@, "Finance Hub"@, Industry::Finance, 25000, 25000 * 750_000, 750_000),
        fresh_listing(securities@[3], "GAME"@, "Zero Sum Game Inc."@, Industry::Media, 1000, 1000 * 200000, 200000),
{
    let mut securities = Vec::new();
    securities.push(Security::new("XYZ", "XYZ Corp", Industry::Technology, 15000, 1_000_000));
    securities.push(Security::new("ABC", "ABC Materials", Industry::Manufacturing, 7550, 500_000));
    securities.push(Security::new("FIN", "Finance Hub", Industry::Finance, 25000, 750_000));
    securities.push(Security {
        ticker_symbol: "GAME".to_string(),
        name: "Zero Sum Game Inc.".to_string(),
        industry: Industry::Media,
        current_price: 1000,
        previous_close_price: 1000,
        open_price: 1000,
        day_high: 1000,
        day_low: 1000,
        volume: 0,
        market_cap: 1000 * 200000,
        outstanding_shares: 200000,
        trend: Trend::Normal,
    });
    securities
}

} // verus!

//! The trading session a player drives from the command line: time
//! stamping, the conditions a market order must meet before it is sent, and settling
//! its trades in the player's cash and portfolio.

use vstd::prelude::*;
use crate::exchange::{ExchangeView, StockExchange};
use crate::orders::{Order, OrderType, Trade};
use crate::securities_lib::Trend;
use crate::exchange::not_tradable_message;
use crate::player::{after_removal, bought, holding_in, purchase_fits, Holding, Player};

verus! {

/// The timestamp given to orders: the simulation does not track time and
/// stamps everything with zero.
pub fn get_current_timestamp() -> (timestamp: u64)
    ensures
        timestamp == 0,
{
    0
}

/// Why a market order was not sent.
#[derive(Debug, Clone, Copy, PartialEq, Eq, Structural)]
pub enum CommandError {
    /// The quantity asked for is zero.
    ZeroQuantity,
    /// No security is listed under the ticker.
    UnknownSecurity,
    /// The security's current price is zero.
    ZeroPrice,
    /// The cash does not cover the quantity at the current price.
    InsufficientFunds { required: u64, price: u64, available: u64 },
    /// The player holds fewer shares than the quantity to sell.
    NotEnoughShares { owned: u64 },
}

/// The current price of the security listed under `ticker`.
pub open spec fn market_price(exchange: ExchangeView, ticker: Seq<char>) -> Option<u64> {
    match exchange.listing(ticker) {
        Some(i) => Some(exchange.securities[i].current_price),
        None => None,
    }
}

/// The cost of `quantity` shares at the current price stays within `u64`.
pub open spec fn cost_fits(exchange: ExchangeView, ticker: Seq<char>, quantity: u64) -> bool {
    match market_price(exchange, ticker) {
        Some(price) => quantity * price <= u64::MAX,
        None => true,
    }
}

/// The first condition a market buy fails, if any, in the order they are tested.
pub open spec fn buy_refusal(cash: u64, exchange: ExchangeView, ticker: Seq<char>, quantity: u64) -> Option<CommandError> {
    if quantity == 0 {
        Some(CommandError::ZeroQuantity)
    } else {
        match market_price(exchange, ticker) {
            None => Some(CommandError::UnknownSecurity),
            Some(price) => if price == 0 {
                Some(CommandError::ZeroPrice)
            } else if cash < quantity * price {
                Some(CommandError::InsufficientFunds {
                    required: (quantity * price) as u64,
                    price,
                    available: cash,
                })
            } else {
                None
            },
        }
    }
}

/// The shares of `ticker` a player holds.
pub open spec fn owned(holdings: Map<Seq<char>, Holding>, ticker: Seq<char>) -> u64 {
    match holding_in(holdings, ticker) {
        Some(h) => h.quantity,
        None => 0,
    }
}

/// The first condition a market sell fails, if any, in the order they are tested.
pub open spec fn sell_refusal(
    holdings: Map<Seq<char>, Holding>,
    exchange: ExchangeView,
    ticker: Seq<char>,
    quantity: u64,
) -> Option<CommandError> {
    if quantity == 0 {
        Some(CommandError::ZeroQuantity)
    } else if owned(holdings, ticker) < quantity {
        Some(CommandError::NotEnoughShares { owned: owned(holdings, ticker) })
    } else {
        match market_price(exchange, ticker) {
            None => Some(CommandError::UnknownSecurity),
            Some(price) => if price == 0 {
                Some(CommandError::ZeroPrice)
            } else {
                None
            },
        }
    }
}

/// The market order sent for a command that met its conditions: a limit
/// order at the security's current price.
pub open spec fn market_order(
    kind: OrderType,
    exchange: ExchangeView,
    ticker: String,
    quantity: u64,
    order_id: u64,
    timestamp: u64,
) -> Order {
    Order {
        id: order_id,
        order_type: kind,
        security_ticker: ticker,
        quantity,
        price: match market_price(exchange, ticker@) {
            Some(price) => price,
            None => 0,
        },
        timestamp,
    }
}

/// The current price of the security listed under `ticker`, if any.
fn current_price(exchange: &StockExchange, ticker: &String) -> (price: Option<u64>)
    requires
        exchange@.wf(),
    ensures
        price == market_price(exchange@, ticker@),
{
    match exchange.get_security(ticker.as_str()) {
        Some(security) => Some(security.current_price),
        None => None,
    }
}

/// Validates a market buy of `quantity` shares of `ticker` and builds its
/// order: a buy limited at the current price.
pub fn prepare_buy_order(
    player: &Player,
    exchange: &StockExchange,
    ticker: &String,
    quantity: u64,
    order_id: u64,
    timestamp: u64,
) -> (result: Result<Order, CommandError>)
    requires
        exchange@.wf(),
        cost_fits(exchange@, ticker@, quantity),
    ensures
        match result {
            Ok(order) => {
                &&& buy_refusal(player.cash_balance, exchange@, ticker@, quantity) is None
                &&& order == market_order(OrderType::Buy, exchange@, *ticker, quantity, order_id, timestamp)
                &&& order.id == order_id
                &&& order.timestamp == timestamp
            },
            Err(error) => buy_refusal(player.cash_balance, exchange@, ticker@, quantity) == Some(error),
        },
{
    if quantity == 0 {
        return Err(CommandError::ZeroQuantity);
    }
    let price = match current_price(exchange, ticker) {
        Some(price) => price,
        None => {
            return Err(CommandError::UnknownSecurity);
        },
    };
    if price == 0 {
        return Err(CommandError::ZeroPrice);
    }
    let total_cost = quantity * price;
    if player.cash_balance < total_cost {
        return Err(
            CommandError::InsufficientFunds {
                required: total_cost,
                price,
                available: player.cash_balance,
            },
        );
    }
    Ok(
        Order {
            id: order_id,
            order_type: OrderType::Buy,
            security_ticker: ticker.clone(),
            quantity,
            price,
            timestamp,
        },
    )
}

/// The shares of `ticker` the player holds.
pub fn shares_held(player: &Player, ticker: &String) -> (shares: u64)
    requires
        player.wf(),
    ensures
        shares == owned(player.holdings(), ticker@),
{
    match player.holding(ticker) {
        Some(h) => h.quantity,
        None => 0,
    }
}

/// Validates a market sell of `quantity` shares of `ticker` and builds its
/// order: a sell limited at the current price.
pub fn prepare_sell_order(
    player: &Player,
    exchange: &StockExchange,
    ticker: &String,
    quantity: u64,
    order_id: u64,
    timestamp: u64,
) -> (result: Result<Order, CommandError>)
    requires
        player.wf(),
        exchange@.wf(),
    ensures
        match result {
            Ok(order) => {
                &&& sell_refusal(player.holdings(), exchange@, ticker@, quantity) is None
                &&& order == market_order(OrderType::Sell, exchange@, *ticker, quantity, order_id, timestamp)
                &&& order.id == order_id
                &&& order.timestamp == timestamp
            },
            Err(error) => sell_refusal(player.holdings(), exchange@, ticker@, quantity) == Some(error),
        },
{
    if quantity == 0 {
        return Err(CommandError::ZeroQuantity);
    }
    let held = shares_held(player, ticker);
    if held < quantity {
        return Err(CommandError::NotEnoughShares { owned: held });
    }
    let price = match current_price(exchange, ticker) {
        Some(price) => price,
        None => {
            return Err(CommandError::UnknownSecurity);
        },
    };
    if price == 0 {
        return Err(CommandError::ZeroPrice);
    }
    Ok(
        Order {
            id: order_id,
            order_type: OrderType::Sell,
            security_ticker: ticker.clone(),
            quantity,
            price,
            timestamp,
        },
    )
}

/// A player's cash and holdings, as the bookkeeping of trades sees them.
pub struct Account {
    pub cash: int,
    pub holdings: Map<Seq<char>, Holding>,
}

/// The account after paying for `trades` one after another, each adding
/// its shares at its price.
pub open spec fn after_buys(start: Account, trades: Seq<Trade>) -> Account
    decreases trades.len(),
{
    if trades.len() == 0 {
        start
    } else {
        let a = after_buys(start, trades.drop_last());
        let t = trades.last();
        Account {
            cash: a.cash - t.quantity * t.price,
            holdings: a.holdings.insert(
                t.security_ticker@,
                bought(holding_in(a.holdings, t.security_ticker@), t.quantity, t.price),
            ),
        }
    }
}

/// Paying for `trades` never takes more cash than is there, and every
/// holding it grows stays within `u64`.
pub open spec fn buys_fit(start: Account, trades: Seq<Trade>) -> bool
    decreases trades.len(),
{
    if trades.len() == 0 {
        true
    } else {
        let a = after_buys(start, trades.drop_last());
        let t = trades.last();
        &&& buys_fit(start, trades.drop_last())
        &&& t.quantity * t.price <= a.cash
        &&& purchase_fits(holding_in(a.holdings, t.security_ticker@), t.quantity, t.price)
    }
}

/// The account after being paid for `trades` one after another, each
/// handing over its shares.
pub open spec fn after_sells(start: Account, trades: Seq<Trade>) -> Account
    decreases trades.len(),
{
    if trades.len() == 0 {
        start
    } else {
        let a = after_sells(start, trades.drop_last());
        let t = trades.last();
        Account {
            cash: a.cash + t.quantity * t.price,
            holdings: after_removal(a.holdings, t.security_ticker@, t.quantity),
        }
    }
}

/// Being paid for `trades` keeps the cash within `u64`.
pub open spec fn sells_fit(start: Account, trades: Seq<Trade>) -> bool
    decreases trades.len(),
{
    if trades.len() == 0 {
        true
    } else {
        let a = after_sells(start, trades.drop_last());
        let t = trades.last();
        &&& sells_fit(start, trades.drop_last())
        &&& a.cash + t.quantity * t.price <= u64::MAX
    }
}

pub open spec fn account_of(player: Player) -> Account {
    Account { cash: player.cash_balance as int, holdings: player.holdings() }
}

pub proof fn lemma_buys_fit_prefix(start: Account, trades: Seq<Trade>, k: int)
    requires
        0 <= k <= trades.len(),
        buys_fit(start, trades),
    ensures
        buys_fit(start, trades.take(k)),
    decreases trades.len(),
{
    if k < trades.len() {
        assert(trades.take(k) =~= trades.drop_last().take(k));
        lemma_buys_fit_prefix(start, trades.drop_last(), k);
    } else {
        assert(trades.take(k) =~= trades);
    }
}

pub proof fn lemma_sells_fit_prefix(start: Account, trades: Seq<Trade>, k: int)
    requires
        0 <= k <= trades.len(),
        sells_fit(start, trades),
    ensures
        sells_fit(start, trades.take(k)),
    decreases trades.len(),
{
    if k < trades.len() {
        assert(trades.take(k) =~= trades.drop_last().take(k));
        lemma_sells_fit_prefix(start, trades.drop_last(), k);
    } else {
        assert(trades.take(k) =~= trades);
    }
}

/// The cash a sequence of trades costs: each quantity times its price.
pub open spec fn trades_cost(trades: Seq<Trade>) -> int
    decreases trades.len(),
{
    if trades.len() == 0 {
        0
    } else {
        trades_cost(trades.drop_last()) + trades.last().quantity * trades.last().price
    }
}

/// Whether `settle_sell` can be called: being paid for the trades keeps
/// the cash within `u64`.
pub fn can_settle_sell(player: &Player, trades: &Vec<Trade>) -> (fits: bool)
    ensures
        fits == sells_fit(account_of(*player), trades@),
{
    let ghost start = account_of(*player);
    let mut cash = player.cash_balance;
    let mut k: usize = 0;
    assert(trades@.take(0) =~= Seq::<Trade>::empty());
    while k < trades.len()
        invariant
            0 <= k <= trades@.len(),
            start == account_of(*player),
            cash == after_sells(start, trades@.take(k as int)).cash,
            sells_fit(start, trades@.take(k as int)),
        decreases trades@.len() - k,
    {
        proof {
            assert(trades@.take(k + 1).drop_last() =~= trades@.take(k as int));
            assert(trades@.take(k + 1).last() == trades@[k as int]);
            if sells_fit(start, trades@) {
                lemma_sells_fit_prefix(start, trades@, k + 1);
            }
            assert(0 <= trades@[k as int].quantity * trades@[k as int].price) by (nonlinear_arith);
        }
        let proceeds = match trades[k].quantity.checked_mul(trades[k].price) {
            Some(p) => p,
            None => {
                return false;
            },
        };
        cash = match cash.checked_add(proceeds) {
            Some(c) => c,
            None => {
                return false;
            },
        };
        k = k + 1;
    }
    assert(trades@.take(k as int) =~= trades@);
    true
}

/// Whether `settle_buy` can be called: no trade costs more than the cash
/// left, and every holding it grows stays within `u64`.
pub fn can_settle_buy(player: &Player, trades: &Vec<Trade>) -> (fits: bool)
    requires
        player.wf(),
    ensures
        fits == buys_fit(account_of(*player), trades@),
{
    let ghost start = account_of(*player);
    let mut trial = player.duplicate();
    let mut k: usize = 0;
    assert(trades@.take(0) =~= Seq::<Trade>::empty());
    while k < trades.len()
        invariant
            0 <= k <= trades@.len(),
            start == account_of(*player),
            trial.wf(),
            account_of(trial) == after_buys(start, trades@.take(k as int)),
            buys_fit(start, trades@.take(k as int)),
        decreases trades@.len() - k,
    {
        proof {
            assert(trades@.take(k + 1).drop_last() =~= trades@.take(k as int));
            assert(trades@.take(k + 1).last() == trades@[k as int]);
            if buys_fit(start, trades@) {
                lemma_buys_fit_prefix(start, trades@, k + 1);
            }
            assert(0 <= trades@[k as int].quantity * trades@[k as int].price) by (nonlinear_arith);
        }
        let trade = &trades[k];
        let cost = match trade.quantity.checked_mul(trade.price) {
            Some(c) => c,
            None => {
                return false;
            },
        };
        if cost > trial.cash_balance {
            return false;
        }
        let (q0, a0) = match trial.holding(&trade.security_ticker) {
            Some(h) => (h.quantity, h.average_buy_price),
            None => (0, 0),
        };
        if q0.checked_add(trade.quantity).is_none() {
            return false;
        }
        let held_cost = match q0.checked_mul(a0) {
            Some(c) => c,
            None => {
                proof {
                    assert(0 <= trade.quantity * trade.price) by (nonlinear_arith);
                }
                return false;
            },
        };
        if held_cost.checked_add(cost).is_none() {
            return false;
        }
        trial.cash_balance = trial.cash_balance - cost;
        trial.add_shares(trade.security_ticker.clone(), trade.quantity, trade.price);
        k = k + 1;
    }
    assert(trades@.take(k as int) =~= trades@);
    true
}

/// The cash balance after each trade of a market buy, as `settle_buy`
/// reports it.
pub open spec fn buy_balances(start: Account, trades: Seq<Trade>, balances: Seq<u64>) -> bool {
    &&& balances.len() == trades.len()
    &&& forall|k: int| 0 <= k < trades.len() ==> #[trigger] balances[k] == after_buys(start, trades.take(k + 1)).cash
}

/// What `settle_sell` reports for each trade of a market sell: the cash
/// balance after it, or why its shares could not leave the portfolio.
pub open spec fn sell_outcomes(start: Account, trades: Seq<Trade>, outcomes: Seq<Result<u64, &'static str>>) -> bool {
    &&& outcomes.len() == trades.len()
    &&& forall|k: int| 0 <= k < trades.len() ==> {
        let before = after_sells(start, trades.take(k));
        let t = trades[k];
        match #[trigger] outcomes[k] {
            Ok(balance) => {
                &&& before.holdings.contains_key(t.security_ticker@)
                &&& before.holdings[t.security_ticker@].quantity >= t.quantity
                &&& balance == after_sells(start, trades.take(k + 1)).cash
            },
            Err(message) => if before.holdings.contains_key(t.security_ticker@) {
                &&& before.holdings[t.security_ticker@].quantity < t.quantity
                &&& message@ == "Not enough shares to sell."@
            } else {
                message@ == "Security not found in portfolio."@
            },
        }
    }
}

/// Pays for the trades of a market buy: for each, the cash goes down by its
/// cost and its shares join the portfolio at its price. Returns the cash
/// balance after each trade.
pub fn settle_buy(player: &mut Player, trades: &Vec<Trade>) -> (balances: Vec<u64>)
    requires
        old(player).wf(),
        buys_fit(account_of(*old(player)), trades@),
    ensures
        final(player).wf(),
        final(player).name == old(player).name,
        account_of(*final(player)) == after_buys(account_of(*old(player)), trades@),
        buy_balances(account_of(*old(player)), trades@, balances@),
{
    let ghost start = account_of(*player);
    let ghost name = player.name;
    let mut balances: Vec<u64> = Vec::new();
    let mut k: usize = 0;
    assert(trades@.take(0) =~= Seq::<Trade>::empty());
    while k < trades.len()
        invariant
            0 <= k <= trades@.len(),
            player.wf(),
            player.name == name,
            buys_fit(start, trades@),
            account_of(*player) == after_buys(start, trades@.take(k as int)),
            balances@.len() == k,
            forall|j: int| 0 <= j < k ==> #[trigger] balances@[j] == after_buys(start, trades@.take(j + 1)).cash,
        decreases trades@.len() - k,
    {
        proof {
            lemma_buys_fit_prefix(start, trades@, k + 1);
            assert(trades@.take(k + 1).drop_last() =~= trades@.take(k as int));
            assert(trades@.take(k + 1).last() == trades@[k as int]);
            assert(0 <= trades@[k as int].quantity * trades@[k as int].price) by (nonlinear_arith);
        }
        let trade = &trades[k];
        player.cash_balance = player.cash_balance - trade.quantity * trade.price;
        player.add_shares(trade.security_ticker.clone(), trade.quantity, trade.price);
        balances.push(player.cash_balance);
        k = k + 1;
    }
    assert(trades@.take(k as int) =~= trades@);
    balances
}

/// Collects the proceeds of the trades of a market sell: for each, the
/// cash goes up by its value and its shares leave the portfolio. Returns,
/// for each trade, the cash balance after it, or why its shares could not
/// be taken out of the portfolio.
pub fn settle_sell(player: &mut Player, trades: &Vec<Trade>) -> (outcomes: Vec<Result<u64, &'static str>>)
    requires
        old(player).wf(),
        sells_fit(account_of(*old(player)), trades@),
    ensures
        final(player).wf(),
        final(player).name == old(player).name,
        account_of(*final(player)) == after_sells(account_of(*old(player)), trades@),
        sell_outcomes(account_of(*old(player)), trades@, outcomes@),
{
    let ghost start = account_of(*player);
    let ghost name = player.name;
    let mut outcomes: Vec<Result<u64, &'static str>> = Vec::new();
    let mut k: usize = 0;
    assert(trades@.take(0) =~= Seq::<Trade>::empty());
    while k < trades.len()
        invariant
            0 <= k <= trades@.len(),
            player.wf(),
            player.name == name,
            sells_fit(start, trades@),
            account_of(*player) == after_sells(start, trades@.take(k as int)),
            outcomes@.len() == k,
            forall|j: int| 0 <= j < k ==> {
                let before = after_sells(start, trades@.take(j));
                let t = trades@[j];
                match #[trigger] outcomes@[j] {
                    Ok(balance) => {
                        &&& before.holdings.contains_key(t.security_ticker@)
                        &&& before.holdings[t.security_ticker@].quantity >= t.quantity
                        &&& balance == after_sells(start, trades@.take(j + 1)).cash
                    },
                    Err(message) => if before.holdings.contains_key(t.security_ticker@) {
                        &&& before.holdings[t.security_ticker@].quantity < t.quantity
                        &&& message@ == "Not enough shares to sell."@
                    } else {
                        message@ == "Security not found in portfolio."@
                    },
                }
            },
        decreases trades@.len() - k,
    {
        proof {
            lemma_sells_fit_prefix(start, trades@, k + 1);
            assert(trades@.take(k + 1).drop_last() =~= trades@.take(k as int));
            assert(trades@.take(k + 1).last() == trades@[k as int]);
            assert(0 <= trades@[k as int].quantity * trades@[k as int].price) by (nonlinear_arith);
        }
        let trade = &trades[k];
        player.cash_balance = player.cash_balance + trade.quantity * trade.price;
        let outcome = match player.remove_shares(trade.security_ticker.clone(), trade.quantity) {
            Ok(()) => Ok(player.cash_balance),
            Err(message) => Err(message),
        };
        outcomes.push(outcome);
        k = k + 1;
    }
    assert(trades@.take(k as int) =~= trades@);
    outcomes
}

/// What came of a market order typed by the player.
#[derive(Debug)]
pub enum MarketOutcome<S> {
    /// It failed a condition and was not sent.
    Refused(CommandError),
    /// The exchange refused it, with this message.
    Rejected(String),
    /// It was placed, made these trades, and they were settled.
    Executed { order: Order, trades: Vec<Trade>, settlement: S },
}

/// A market buy stays within `u64` at every step: its cost, the order id
/// that follows it, the exchange's records and the player's settlement.
pub open spec fn market_buy_fits(
    player: Player,
    exchange: ExchangeView,
    next_order_id: u64,
    ticker: String,
    quantity: u64,
    timestamp: u64,
) -> bool {
    &&& cost_fits(exchange, ticker@, quantity)
    &&& buy_refusal(player.cash_balance, exchange, ticker@, quantity) is None ==> {
        let order = market_order(OrderType::Buy, exchange, ticker, quantity, next_order_id, timestamp);
        &&& next_order_id < u64::MAX
        &&& exchange.order_fits(order)
        &&& exchange.tradable(ticker@) ==> buys_fit(account_of(player), exchange.after_place(order).1)
    }
}

/// A market sell stays within `u64` at every step: the order id that
/// follows it, the exchange's records and the player's settlement.
pub open spec fn market_sell_fits(
    player: Player,
    exchange: ExchangeView,
    next_order_id: u64,
    ticker: String,
    quantity: u64,
    timestamp: u64,
) -> bool {
    sell_refusal(player.holdings(), exchange, ticker@, quantity) is None ==> {
        let order = market_order(OrderType::Sell, exchange, ticker, quantity, next_order_id, timestamp);
        &&& next_order_id < u64::MAX
        &&& exchange.order_fits(order)
        &&& exchange.tradable(ticker@) ==> sells_fit(account_of(player), exchange.after_place(order).1)
    }
}

/// Whether the security listed under `ticker` is tradable.
fn is_tradable(exchange: &StockExchange, ticker: &String) -> (tradable: bool)
    requires
        exchange@.wf(),
    ensures
        tradable == exchange@.tradable(ticker@),
{
    match exchange.get_security(ticker.as_str()) {
        Some(security) => security.trend != Trend::Banned,
        None => false,
    }
}

/// Whether `market_buy` can be called with these arguments.
pub fn can_market_buy(
    player: &Player,
    exchange: &StockExchange,
    next_order_id: u64,
    ticker: &String,
    quantity: u64,
    timestamp: u64,
) -> (fits: bool)
    requires
        player.wf(),
        exchange@.wf(),
    ensures
        fits == market_buy_fits(*player, exchange@, next_order_id, *ticker, quantity, timestamp),
{
    match current_price(exchange, ticker) {
        Some(price) => {
            if quantity.checked_mul(price).is_none() {
                return false;
            }
        },
        None => {},
    }
    let order = match prepare_buy_order(player, exchange, ticker, quantity, next_order_id, timestamp) {
        Ok(order) => order,
        Err(_) => {
            return true;
        },
    };
    if next_order_id == u64::MAX {
        return false;
    }
    if !exchange.can_place_order(&order) {
        return false;
    }
    if !is_tradable(exchange, ticker) {
        return true;
    }
    match exchange.preview_trades(&order) {
        Some(trades) => can_settle_buy(player, &trades),
        None => true,
    }
}

/// Whether `market_sell` can be called with these arguments.
pub fn can_market_sell(
    player: &Player,
    exchange: &StockExchange,
    next_order_id: u64,
    ticker: &String,
    quantity: u64,
    timestamp: u64,
) -> (fits: bool)
    requires
        player.wf(),
        exchange@.wf(),
    ensures
        fits == market_sell_fits(*player, exchange@, next_order_id, *ticker, quantity, timestamp),
{
    let order = match prepare_sell_order(player, exchange, ticker, quantity, next_order_id, timestamp) {
        Ok(order) => order,
        Err(_) => {
            return true;
        },
    };
    if next_order_id == u64::MAX {
        return false;
    }
    if !exchange.can_place_order(&order) {
        return false;
    }
    if !is_tradable(exchange, ticker) {
        return true;
    }
    match exchange.preview_trades(&order) {
        Some(trades) => can_settle_sell(player, &trades),
        None => true,
    }
}

/// A market buy of `quantity` shares of `ticker`: the order is validated,
/// takes the next order id, is placed on the exchange, and its trades are
/// paid for.
pub fn market_buy(
    player: &mut Player,
    exchange: &mut StockExchange,
    next_order_id: &mut u64,
    ticker: &String,
    quantity: u64,
    timestamp: u64,
) -> (outcome: MarketOutcome<Vec<u64>>)
    requires
        old(player).wf(),
        old(exchange)@.wf(),
        market_buy_fits(*old(player), old(exchange)@, *old(next_order_id), *ticker, quantity, timestamp),
    ensures
        final(player).wf(),
        final(exchange)@.wf(),
        final(player).name == old(player).name,
        match outcome {
            MarketOutcome::Refused(error) => {
                &&& buy_refusal(old(player).cash_balance, old(exchange)@, ticker@, quantity) == Some(error)
                &&& *final(next_order_id) == *old(next_order_id)
                &&& final(exchange)@ == old(exchange)@
                &&& *final(player) == *old(player)
            },
            MarketOutcome::Rejected(message) => {
                &&& buy_refusal(old(player).cash_balance, old(exchange)@, ticker@, quantity) is None
                &&& !old(exchange)@.tradable(ticker@)
                &&& message@ == not_tradable_message(ticker@)
                &&& *final(next_order_id) == *old(next_order_id) + 1
                &&& final(exchange)@ == old(exchange)@
                &&& *final(player) == *old(player)
            },
            MarketOutcome::Executed { order, trades, settlement } => {
                &&& buy_refusal(old(player).cash_balance, old(exchange)@, ticker@, quantity) is None
                &&& old(exchange)@.tradable(ticker@)
                &&& order == market_order(OrderType::Buy, old(exchange)@, *ticker, quantity, *old(next_order_id), timestamp)
                &&& *final(next_order_id) == *old(next_order_id) + 1
                &&& (final(exchange)@, trades@) == old(exchange)@.after_place(order)
                &&& account_of(*final(player)) == after_buys(account_of(*old(player)), trades@)
                &&& buy_balances(account_of(*old(player)), trades@, settlement@)
            },
        },
{
    let order = match prepare_buy_order(player, exchange, ticker, quantity, *next_order_id, timestamp) {
        Ok(order) => order,
        Err(error) => {
            return MarketOutcome::Refused(error);
        },
    };
    *next_order_id = *next_order_id + 1;
    let placed = order.clone();
    match exchange.place_order(order) {
        Err(message) => MarketOutcome::Rejected(message),
        Ok(trades) => {
            let settlement = settle_buy(player, &trades);
            MarketOutcome::Executed { order: placed, trades, settlement }
        },
    }
}

/// A market sell of `quantity` shares of `ticker`: the order is validated,
/// takes the next order id, is placed on the exchange, and the proceeds of
/// its trades are collected.
pub fn market_sell(
    player: &mut Player,
    exchange: &mut StockExchange,
    next_order_id: &mut u64,
    ticker: &String,
    quantity: u64,
    timestamp: u64,
) -> (outcome: MarketOutcome<Vec<Result<u64, &'static str>>>)
    requires
        old(player).wf(),
        old(exchange)@.wf(),
        market_sell_fits(*old(player), old(exchange)@, *old(next_order_id), *ticker, quantity, timestamp),
    ensures
        final(player).wf(),
        final(exchange)@.wf(),
        final(player).name == old(player).name,
        match outcome {
            MarketOutcome::Refused(error) => {
                &&& sell_refusal(old(player).holdings(), old(exchange)@, ticker@, quantity) == Some(error)
                &&& *final(next_order_id) == *old(next_order_id)
                &&& final(exchange)@ == old(exchange)@
                &&& *final(player) == *old(player)
            },
            MarketOutcome::Rejected(message) => {
                &&& sell_refusal(old(player).holdings(), old(exchange)@, ticker@, quantity) is None
                &&& !old(exchange)@.tradable(ticker@)
                &&& message@ == not_tradable_message(ticker@)
                &&& *final(next_order_id) == *old(next_order_id) + 1
                &&& final(exchange)@ == old(exchange)@
                &&& *final(player) == *old(player)
            },
            MarketOutcome::Executed { order, trades, settlement } => {
                &&& sell_refusal(old(player).holdings(), old(exchange)@, ticker@, quantity) is None
                &&& old(exchange)@.tradable(ticker@)
                &&& order == market_order(OrderType::Sell, old(exchange)@, *ticker, quantity, *old(next_order_id), timestamp)
                &&& *final(next_order_id) == *old(next_order_id) + 1
                &&& (final(exchange)@, trades@) == old(exchange)@.after_place(order)
                &&& account_of(*final(player)) == after_sells(account_of(*old(player)), trades@)
                &&& sell_outcomes(account_of(*old(player)), trades@, settlement@)
            },
        },
{
    let order = match prepare_sell_order(player, exchange, ticker, quantity, *next_order_id, timestamp) {
        Ok(order) => order,
        Err(error) => {
            return MarketOutcome::Refused(error);
        },
    };
    *next_order_id = *next_order_id + 1;
    let placed = order.clone();
    match exchange.place_order(order) {
        Err(message) => MarketOutcome::Rejected(message),
        Ok(trades) => {
            let settlement = settle_sell(player, &trades);
            MarketOutcome::Executed { order: placed, trades, settlement }
        },
    }
}

} // verus!

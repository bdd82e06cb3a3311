//! A trader: cash and a portfolio of holdings with their average cost.

use vstd::prelude::*;

verus! {

/// Shares of one security held by a player; prices are in cents.
#[derive(Debug)]
pub struct PortfolioItem {
    pub security_ticker: String,
    pub quantity: u64,
    pub average_buy_price: u64,
}

impl Clone for PortfolioItem {
    fn clone(&self) -> (copy: Self)
        ensures
            copy == *self,
    {
        PortfolioItem {
            security_ticker: self.security_ticker.clone(),
            quantity: self.quantity,
            average_buy_price: self.average_buy_price,
        }
    }
}

/// What a player holds of one security: the quantity and the average price paid.
#[derive(Debug, Clone, Copy, PartialEq, Eq, Structural)]
pub struct Holding {
    pub quantity: u64,
    pub average_buy_price: u64,
}

/// Every ticker occurs at most once among the items.
pub open spec fn tickers_unique(items: Seq<PortfolioItem>) -> bool {
    forall|i: int, j: int|
        0 <= i < j < items.len() ==> (#[trigger] items[i]).security_ticker@
            != (#[trigger] items[j]).security_ticker@
}

pub open spec fn holds_at(items: Seq<PortfolioItem>, ticker: Seq<char>, i: int) -> bool {
    0 <= i < items.len() && items[i].security_ticker@ == ticker
}

/// The holdings the items describe, by ticker.
pub open spec fn holdings_of(items: Seq<PortfolioItem>) -> Map<Seq<char>, Holding> {
    Map::new(
        |t: Seq<char>| exists|i: int| holds_at(items, t, i),
        |t: Seq<char>| {
            let i = choose|i: int| holds_at(items, t, i);
            Holding { quantity: items[i].quantity, average_buy_price: items[i].average_buy_price }
        },
    )
}

pub proof fn lemma_holding_at(items: Seq<PortfolioItem>, i: int)
    requires
        tickers_unique(items),
        0 <= i < items.len(),
    ensures
        holdings_of(items).contains_key(items[i].security_ticker@),
        holdings_of(items)[items[i].security_ticker@] == (Holding {
            quantity: items[i].quantity,
            average_buy_price: items[i].average_buy_price,
        }),
{
    let t = items[i].security_ticker@;
    assert(holds_at(items, t, i));
    let c = choose|c: int| holds_at(items, t, c);
    assert(c == i) by {
        if c < i {
            assert(items[c].security_ticker@ != items[i].security_ticker@);
        } else if c > i {
            assert(items[i].security_ticker@ != items[c].security_ticker@);
        }
    }
}

pub proof fn lemma_holdings_update(items: Seq<PortfolioItem>, i: int, item: PortfolioItem)
    requires
        tickers_unique(items),
        0 <= i < items.len(),
        item.security_ticker@ == items[i].security_ticker@,
    ensures
        tickers_unique(items.update(i, item)),
        holdings_of(items.update(i, item)) == holdings_of(items).insert(
            item.security_ticker@,
            Holding { quantity: item.quantity, average_buy_price: item.average_buy_price },
        ),
{
    let after = items.update(i, item);
    assert forall|a: int, b: int| 0 <= a < b < after.len() implies
        (#[trigger] after[a]).security_ticker@ != (#[trigger] after[b]).security_ticker@ by {
        assert(items[a].security_ticker@ != items[b].security_ticker@);
    }
    let m = holdings_of(items).insert(
        item.security_ticker@,
        Holding { quantity: item.quantity, average_buy_price: item.average_buy_price },
    );
    assert forall|t: Seq<char>| #[trigger] holdings_of(after).contains_key(t) <==> m.contains_key(t) by {
        if holdings_of(after).contains_key(t) {
            let j = choose|j: int| holds_at(after, t, j);
            if j != i {
                assert(holds_at(items, t, j));
            }
        }
        if m.contains_key(t) && t != item.security_ticker@ {
            let j = choose|j: int| holds_at(items, t, j);
            assert(holds_at(after, t, j));
        }
        if t == item.security_ticker@ {
            assert(holds_at(after, t, i));
        }
    }
    assert forall|t: Seq<char>| #[trigger] holdings_of(after).contains_key(t) implies holdings_of(after)[t]
        == m[t] by {
        let j = choose|j: int| holds_at(after, t, j);
        lemma_holding_at(after, j);
        if j != i {
            lemma_holding_at(items, j);
        }
    }
    assert(holdings_of(after) =~= m);
}

pub proof fn lemma_holdings_push(items: Seq<PortfolioItem>, item: PortfolioItem)
    requires
        tickers_unique(items),
        !holdings_of(items).contains_key(item.security_ticker@),
    ensures
        tickers_unique(items.push(item)),
        holdings_of(items.push(item)) == holdings_of(items).insert(
            item.security_ticker@,
            Holding { quantity: item.quantity, average_buy_price: item.average_buy_price },
        ),
{
    let after = items.push(item);
    assert forall|a: int, b: int| 0 <= a < b < after.len() implies
        (#[trigger] after[a]).security_ticker@ != (#[trigger] after[b]).security_ticker@ by {
        if b == items.len() {
            assert(!holds_at(items, item.security_ticker@, a));
        } else {
            assert(items[a].security_ticker@ != items[b].security_ticker@);
        }
    }
    let m = holdings_of(items).insert(
        item.security_ticker@,
        Holding { quantity: item.quantity, average_buy_price: item.average_buy_price },
    );
    assert forall|t: Seq<char>| #[trigger] holdings_of(after).contains_key(t) <==> m.contains_key(t) by {
        if holdings_of(after).contains_key(t) {
            let j = choose|j: int| holds_at(after, t, j);
            if j < items.len() {
                assert(holds_at(items, t, j));
            }
        }
        if m.contains_key(t) && t != item.security_ticker@ {
            let j = choose|j: int| holds_at(items, t, j);
            assert(holds_at(after, t, j));
        }
        if t == item.security_ticker@ {
            assert(holds_at(after, t, items.len() as int));
        }
    }
    assert forall|t: Seq<char>| #[trigger] holdings_of(after).contains_key(t) implies holdings_of(after)[t]
        == m[t] by {
        let j = choose|j: int| holds_at(after, t, j);
        lemma_holding_at(after, j);
        if j < items.len() {
            lemma_holding_at(items, j);
        }
    }
    assert(holdings_of(after) =~= m);
}

pub proof fn lemma_holdings_remove(items: Seq<PortfolioItem>, i: int)
    requires
        tickers_unique(items),
        0 <= i < items.len(),
    ensures
        tickers_unique(items.remove(i)),
        holdings_of(items.remove(i)) == holdings_of(items).remove(items[i].security_ticker@),
{
    let after = items.remove(i);
    let gone = items[i].security_ticker@;
    assert forall|a: int, b: int| 0 <= a < b < after.len() implies
        (#[trigger] after[a]).security_ticker@ != (#[trigger] after[b]).security_ticker@ by {
        let a0 = if a < i { a } else { a + 1 };
        let b0 = if b < i { b } else { b + 1 };
        assert(after[a] == items[a0]);
        assert(after[b] == items[b0]);
        assert(items[a0].security_ticker@ != items[b0].security_ticker@);
    }
    let m = holdings_of(items).remove(gone);
    assert forall|t: Seq<char>| #[trigger] holdings_of(after).contains_key(t) <==> m.contains_key(t) by {
        if holdings_of(after).contains_key(t) {
            let j = choose|j: int| holds_at(after, t, j);
            let j0 = if j < i { j } else { j + 1 };
            assert(after[j] == items[j0]);
            assert(holds_at(items, t, j0));
            if t == gone {
                assert(items[i].security_ticker@ != items[j0].security_ticker@ || i == j0);
            }
        }
        if m.contains_key(t) {
            let j = choose|j: int| holds_at(items, t, j);
            assert(j != i);
            let j1 = if j < i { j } else { j - 1 };
            assert(after[j1] == items[j]);
            assert(holds_at(after, t, j1));
        }
    }
    assert forall|t: Seq<char>| #[trigger] holdings_of(after).contains_key(t) implies holdings_of(after)[t]
        == m[t] by {
        let j = choose|j: int| holds_at(after, t, j);
        let j0 = if j < i { j } else { j + 1 };
        assert(after[j] == items[j0]);
        lemma_holding_at(after, j);
        lemma_holding_at(items, j0);
    }
    assert(holdings_of(after) =~= m);
}

/// The position of the item for `ticker` among the items.
pub open spec fn position(items: Seq<PortfolioItem>, ticker: Seq<char>) -> int {
    choose|i: int| holds_at(items, ticker, i)
}

pub proof fn lemma_position(items: Seq<PortfolioItem>, ticker: Seq<char>, i: int)
    requires
        tickers_unique(items),
        holds_at(items, ticker, i),
    ensures
        position(items, ticker) == i,
{
    let c = position(items, ticker);
    assert(holds_at(items, ticker, c));
    if c < i {
        assert(items[c].security_ticker@ != items[i].security_ticker@);
    } else if c > i {
        assert(items[i].security_ticker@ != items[c].security_ticker@);
    }
}

/// The item recording `holding` under `ticker`.
pub open spec fn item_of(ticker: String, holding: Holding) -> PortfolioItem {
    PortfolioItem {
        security_ticker: ticker,
        quantity: holding.quantity,
        average_buy_price: holding.average_buy_price,
    }
}

/// The items after buying `quantity` shares of `ticker` at `price`: the
/// item for the ticker is replaced in place, or a new one is appended.
pub open spec fn items_after_purchase(items: Seq<PortfolioItem>, ticker: String, quantity: u64, price: u64) -> Seq<PortfolioItem> {
    let h = bought(holding_in(holdings_of(items), ticker@), quantity, price);
    if holdings_of(items).contains_key(ticker@) {
        items.update(position(items, ticker@), item_of(ticker, h))
    } else {
        items.push(item_of(ticker, h))
    }
}

/// The items after handing over `quantity` shares of `ticker`: the item is
/// reduced in place, or leaves when it reaches zero; without enough shares
/// nothing changes.
pub open spec fn items_after_sale(items: Seq<PortfolioItem>, ticker: String, quantity: u64) -> Seq<PortfolioItem> {
    let holdings = holdings_of(items);
    if holdings.contains_key(ticker@) && holdings[ticker@].quantity >= quantity {
        let i = position(items, ticker@);
        if holdings[ticker@].quantity == quantity {
            items.remove(i)
        } else {
            items.update(
                i,
                PortfolioItem {
                    security_ticker: ticker,
                    quantity: (items[i].quantity - quantity) as u64,
                    average_buy_price: items[i].average_buy_price,
                },
            )
        }
    } else {
        items
    }
}

/// The price the list gives for `ticker`: that of its first entry for it.
pub open spec fn price_of(prices: Seq<(String, u64)>, ticker: Seq<char>) -> Option<u64>
    decreases prices.len(),
{
    if prices.len() == 0 {
        None
    } else if prices[0].0@ == ticker {
        Some(prices[0].1)
    } else {
        price_of(prices.drop_first(), ticker)
    }
}

/// The market value of the items: each quantity times its price, for the
/// items the price list knows.
pub open spec fn portfolio_value(items: Seq<PortfolioItem>, prices: Seq<(String, u64)>) -> nat
    decreases items.len(),
{
    if items.len() == 0 {
        0
    } else {
        portfolio_value(items.drop_last(), prices) + match price_of(prices, items.last().security_ticker@) {
            Some(p) => (items.last().quantity * p) as nat,
            None => 0nat,
        }
    }
}

/// The holding after buying `quantity` shares at `price` on top of `before`
/// (an absent holding counts as none at price zero): the quantities add up
/// and the average price is the total cost over the total quantity,
/// rounded down, or zero when nothing is held.
pub open spec fn bought(before: Option<Holding>, quantity: u64, price: u64) -> Holding {
    let (q0, a0) = match before {
        Some(h) => (h.quantity, h.average_buy_price),
        None => (0u64, 0u64),
    };
    let total_quantity = q0 + quantity;
    let total_cost = q0 * a0 + quantity * price;
    Holding {
        quantity: total_quantity as u64,
        average_buy_price: if total_quantity > 0 { (total_cost / total_quantity) as u64 } else { 0 },
    }
}

/// Buying `quantity` at `price` on top of `before` stays within `u64`.
pub open spec fn purchase_fits(before: Option<Holding>, quantity: u64, price: u64) -> bool {
    let (q0, a0) = match before {
        Some(h) => (h.quantity, h.average_buy_price),
        None => (0u64, 0u64),
    };
    &&& q0 + quantity <= u64::MAX
    &&& q0 * a0 + quantity * price <= u64::MAX
}

/// The holdings after handing over `quantity` shares of `ticker`: the
/// holding shrinks, and leaves when it reaches zero; without enough shares
/// nothing changes.
pub open spec fn after_removal(holdings: Map<Seq<char>, Holding>, ticker: Seq<char>, quantity: u64) -> Map<Seq<char>, Holding> {
    if holdings.contains_key(ticker) && holdings[ticker].quantity >= quantity {
        if holdings[ticker].quantity == quantity {
            holdings.remove(ticker)
        } else {
            holdings.insert(
                ticker,
                Holding {
                    quantity: (holdings[ticker].quantity - quantity) as u64,
                    average_buy_price: holdings[ticker].average_buy_price,
                },
            )
        }
    } else {
        holdings
    }
}

pub open spec fn holding_in(holdings: Map<Seq<char>, Holding>, ticker: Seq<char>) -> Option<Holding> {
    if holdings.contains_key(ticker) {
        Some(holdings[ticker])
    } else {
        None
    }
}

pub proof fn lemma_value_prefix(items: Seq<PortfolioItem>, prices: Seq<(String, u64)>, k: int)
    requires
        0 <= k <= items.len(),
    ensures
        portfolio_value(items.take(k), prices) <= portfolio_value(items, prices),
    decreases items.len(),
{
    if k < items.len() {
        assert(items.take(k) =~= items.drop_last().take(k));
        lemma_value_prefix(items.drop_last(), prices, k);
    } else {
        assert(items.take(k) =~= items);
    }
}

/// Looks up the price the list gives for `ticker`.
fn lookup_price(prices: &Vec<(String, u64)>, ticker: &String) -> (price: Option<u64>)
    ensures
        price == price_of(prices@, ticker@),
{
    let mut i: usize = 0;
    assert(prices@.subrange(0, prices@.len() as int) =~= prices@);
    while i < prices.len()
        invariant
            0 <= i <= prices@.len(),
            price_of(prices@, ticker@) == price_of(prices@.subrange(i as int, prices@.len() as int), ticker@),
        decreases prices@.len() - i,
    {
        let ghost rest = prices@.subrange(i as int, prices@.len() as int);
        assert(rest[0] == prices@[i as int]);
        if prices[i].0 == *ticker {
            return Some(prices[i].1);
        }
        assert(rest.drop_first() =~= prices@.subrange(i + 1, prices@.len() as int));
        i = i + 1;
    }
    None
}

/// The cash balance after depositing `amount`.
pub open spec fn deposited(cash: u64, amount: u64) -> int {
    cash + amount
}

/// The cash balance after withdrawing `amount`, when the balance covers it.
pub open spec fn withdrawn(cash: u64, amount: u64) -> Option<u64> {
    if cash >= amount {
        Some((cash - amount) as u64)
    } else {
        None
    }
}

/// A player of the game: a name, cash in cents and a portfolio.
#[derive(Debug)]
pub struct Player {
    pub name: String,
    pub cash_balance: u64,
    pub portfolio: Vec<PortfolioItem>,
}

impl Player {
    /// The portfolio's items, one per ticker.
    pub open spec fn items(&self) -> Seq<PortfolioItem> {
        self.portfolio@
    }

    /// The portfolio by ticker.
    pub open spec fn holdings(&self) -> Map<Seq<char>, Holding> {
        holdings_of(self.items())
    }

    pub open spec fn wf(&self) -> bool {
        tickers_unique(self.items())
    }

    pub fn new(name: String, initial_cash: u64) -> (player: Player)
        ensures
            player.name == name,
            player.cash_balance == initial_cash,
            player.items() == Seq::<PortfolioItem>::empty(),
            player.holdings() == Map::<Seq<char>, Holding>::empty(),
            player.wf(),
    {
        let player = Player { name, cash_balance: initial_cash, portfolio: Vec::new() };
        assert(player.holdings() =~= Map::<Seq<char>, Holding>::empty());
        player
    }

    pub fn deposit_cash(&mut self, amount: u64)
        requires
            deposited(old(self).cash_balance, amount) <= u64::MAX,
        ensures
            final(self).cash_balance == deposited(old(self).cash_balance, amount),
            final(self).name == old(self).name,
            final(self).items() == old(self).items(),
    {
        self.cash_balance = self.cash_balance + amount;
    }

    /// Takes `amount` out of the cash balance if it is there.
    pub fn withdraw_cash(&mut self, amount: u64) -> (result: Result<(), &'static str>)
        ensures
            final(self).name == old(self).name,
            final(self).items() == old(self).items(),
            match result {
                Ok(()) => withdrawn(old(self).cash_balance, amount) == Some(final(self).cash_balance),
                Err(message) => {
                    &&& withdrawn(old(self).cash_balance, amount) is None
                    &&& message@ == "Insufficient cash balance."@
                    &&& final(self).cash_balance == old(self).cash_balance
                },
            },
    {
        if self.cash_balance >= amount {
            self.cash_balance = self.cash_balance - amount;
            Ok(())
        } else {
            Err("Insufficient cash balance.")
        }
    }

    /// The position of the item for `ticker`.
    fn find(&self, ticker: &String) -> (found: Option<usize>)
        requires
            self.wf(),
        ensures
            match found {
                Some(i) => holds_at(self.items(), ticker@, i as int),
                None => !self.holdings().contains_key(ticker@),
            },
    {
        let mut i: usize = 0;
        while i < self.portfolio.len()
            invariant
                0 <= i <= self.portfolio@.len(),
                forall|j: int| 0 <= j < i ==> !holds_at(self.items(), ticker@, j),
            decreases self.portfolio@.len() - i,
        {
            if self.portfolio[i].security_ticker == *ticker {
                return Some(i);
            }
            i = i + 1;
        }
        None
    }

    /// Adds `quantity` shares bought at `purchase_price` each; the average
    /// buy price becomes the weighted average of the old and new shares.
    pub fn add_shares(&mut self, security_ticker: String, quantity: u64, purchase_price: u64)
        requires
            old(self).wf(),
            purchase_fits(holding_in(old(self).holdings(), security_ticker@), quantity, purchase_price),
        ensures
            final(self).wf(),
            final(self).name == old(self).name,
            final(self).cash_balance == old(self).cash_balance,
            final(self).holdings() == old(self).holdings().insert(
                security_ticker@,
                bought(holding_in(old(self).holdings(), security_ticker@), quantity, purchase_price),
            ),
            final(self).items() == items_after_purchase(old(self).items(), security_ticker, quantity, purchase_price),
    {
        let ghost ticker = security_ticker@;
        match self.find(&security_ticker) {
            Some(i) => {
                let q0 = self.portfolio[i].quantity;
                let a0 = self.portfolio[i].average_buy_price;
                proof {
                    lemma_holding_at(self.items(), i as int);
                    assert(0 <= q0 * a0) by (nonlinear_arith);
                    assert(0 <= quantity * purchase_price) by (nonlinear_arith);
                }
                let total_cost = q0 * a0 + quantity * purchase_price;
                let total_quantity = q0 + quantity;
                let average = if total_quantity > 0 { total_cost / total_quantity } else { 0 };
                let item = PortfolioItem {
                    security_ticker,
                    quantity: total_quantity,
                    average_buy_price: average,
                };
                proof {
                    lemma_holdings_update(self.items(), i as int, item);
                    lemma_position(self.items(), ticker, i as int);
                }
                self.portfolio.set(i, item);
            },
            None => {
                proof {
                    assert(0 <= quantity * purchase_price) by (nonlinear_arith);
                }
                let total_cost = quantity * purchase_price;
                let average = if quantity > 0 { total_cost / quantity } else { 0 };
                let item = PortfolioItem { security_ticker, quantity, average_buy_price: average };
                proof {
                    lemma_holdings_push(self.items(), item);
                }
                self.portfolio.push(item);
            },
        }
    }

    /// Takes `quantity` shares out of the holding for the ticker; a holding
    /// that reaches zero leaves the portfolio.
    pub fn remove_shares(&mut self, security_ticker: String, quantity: u64) -> (result: Result<(), &'static str>)
        requires
            old(self).wf(),
        ensures
            final(self).wf(),
            final(self).name == old(self).name,
            final(self).cash_balance == old(self).cash_balance,
            final(self).items() == items_after_sale(old(self).items(), security_ticker, quantity),
            match result {
                Ok(()) => {
                    &&& old(self).holdings().contains_key(security_ticker@)
                    &&& old(self).holdings()[security_ticker@].quantity >= quantity
                    &&& final(self).holdings() == after_removal(old(self).holdings(), security_ticker@, quantity)
                },
                Err(message) => {
                    &&& final(self).holdings() == old(self).holdings()
                    &&& if old(self).holdings().contains_key(security_ticker@) {
                        &&& old(self).holdings()[security_ticker@].quantity < quantity
                        &&& message@ == "Not enough shares to sell."@
                    } else {
                        message@ == "Security not found in portfolio."@
                    }
                },
            },
    {
        match self.find(&security_ticker) {
            Some(i) => {
                proof {
                    lemma_holding_at(self.items(), i as int);
                    lemma_position(self.items(), security_ticker@, i as int);
                }
                let held = self.portfolio[i].quantity;
                if held >= quantity {
                    if held - quantity == 0 {
                        proof {
                            lemma_holdings_remove(self.items(), i as int);
                        }
                        self.portfolio.remove(i);
                    } else {
                        let item = PortfolioItem {
                            security_ticker,
                            quantity: held - quantity,
                            average_buy_price: self.portfolio[i].average_buy_price,
                        };
                        proof {
                            lemma_holdings_update(self.items(), i as int, item);
                        }
                        self.portfolio.set(i, item);
                    }
                    Ok(())
                } else {
                    Err("Not enough shares to sell.")
                }
            },
            None => Err("Security not found in portfolio."),
        }
    }


    /// The market value of the portfolio at the given prices; holdings
    /// without a price count for nothing.
    pub fn get_portfolio_value(&self, market_prices: &Vec<(String, u64)>) -> (value: u64)
        requires
            portfolio_value(self.items(), market_prices@) <= u64::MAX,
        ensures
            value == portfolio_value(self.items(), market_prices@),
    {
        let mut total: u64 = 0;
        let mut i: usize = 0;
        while i < self.portfolio.len()
            invariant
                0 <= i <= self.portfolio@.len(),
                portfolio_value(self.items(), market_prices@) <= u64::MAX,
                total == portfolio_value(self.items().take(i as int), market_prices@),
            decreases self.portfolio@.len() - i,
        {
            proof {
                lemma_value_prefix(self.items(), market_prices@, i + 1);
                assert(self.items().take(i + 1).drop_last() =~= self.items().take(i as int));
                assert(self.items().take(i + 1).last() == self.items()[i as int]);
            }
            let item = &self.portfolio[i];
            match lookup_price(market_prices, &item.security_ticker) {
                Some(price) => {
                    proof {
                        assert(0 <= item.quantity * price) by (nonlinear_arith);
                    }
                    total = total + item.quantity * price;
                },
                None => {},
            }
            i = i + 1;
        }
        assert(self.items().take(i as int) =~= self.items());
        total
    }

    /// Cash plus the market value of the portfolio.
    pub fn get_total_net_worth(&self, market_prices: &Vec<(String, u64)>) -> (worth: u64)
        requires
            self.cash_balance + portfolio_value(self.items(), market_prices@) <= u64::MAX,
        ensures
            worth == self.cash_balance + portfolio_value(self.items(), market_prices@),
    {
        self.cash_balance + self.get_portfolio_value(market_prices)
    }


    /// What the player holds of `ticker`.
    pub fn holding(&self, ticker: &String) -> (holding: Option<Holding>)
        requires
            self.wf(),
        ensures
            holding == holding_in(self.holdings(), ticker@),
    {
        match self.find(ticker) {
            Some(i) => {
                proof {
                    lemma_holding_at(self.items(), i as int);
                }
                Some(Holding {
                    quantity: self.portfolio[i].quantity,
                    average_buy_price: self.portfolio[i].average_buy_price,
                })
            },
            None => None,
        }
    }

    /// A copy of the player.
    pub fn duplicate(&self) -> (copy: Player)
        ensures
            copy.name == self.name,
            copy.cash_balance == self.cash_balance,
            copy.items() == self.items(),
    {
        let portfolio = self.portfolio.clone();
        assert(portfolio@ =~= self.portfolio@);
        Player { name: self.name.clone(), cash_balance: self.cash_balance, portfolio }
    }


    /// Whether `get_total_net_worth` can be called: cash plus the market
    /// value of the portfolio fits in `u64`.
    pub fn net_worth_fits(&self, market_prices: &Vec<(String, u64)>) -> (fits: bool)
        ensures
            fits == (self.cash_balance + portfolio_value(self.items(), market_prices@) <= u64::MAX),
    {
        let mut total: u64 = self.cash_balance;
        let mut i: usize = 0;
        while i < self.portfolio.len()
            invariant
                0 <= i <= self.portfolio@.len(),
                total == self.cash_balance + portfolio_value(self.items().take(i as int), market_prices@),
            decreases self.portfolio@.len() - i,
        {
            proof {
                lemma_value_prefix(self.items(), market_prices@, i + 1);
                assert(self.items().take(i + 1).drop_last() =~= self.items().take(i as int));
                assert(self.items().take(i + 1).last() == self.items()[i as int]);
            }
            let item = &self.portfolio[i];
            match lookup_price(market_prices, &item.security_ticker) {
                Some(price) => {
                    proof {
                        assert(0 <= item.quantity * price) by (nonlinear_arith);
                    }
                    let value = match item.quantity.checked_mul(price) {
                        Some(v) => v,
                        None => {
                            return false;
                        },
                    };
                    total = match total.checked_add(value) {
                        Some(t) => t,
                        None => {
                            return false;
                        },
                    };
                },
                None => {},
            }
            i = i + 1;
        }
        assert(self.items().take(i as int) =~= self.items());
        true
    }

}

} // verus!

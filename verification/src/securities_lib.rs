use vstd::prelude::*;

verus! {

/// The sector a listed company belongs to.
#[derive(Debug, Clone, Copy, PartialEq, Eq, Hash, Structural)]
pub enum Industry {
    Technology,
    Finance,
    Healthcare,
    Retail,
    Manufacturing,
    Energy,
    Utilities,
    RealEstate,
    Media,
    ConsumerGoods,
    Transportation,
    Agriculture,
    Education,
    Government,
    Blockchain,
    Other,
}

/// Names what `str::to_lowercase` returns for a string.
pub uninterp spec fn lowercase(s: Seq<char>) -> Seq<char>;

/// Calls `str::to_lowercase`, which returns the Unicode lowercase mapping of
/// the whole string as a new `String`. Its contract only names the result.
#[verifier::external_body]
pub(crate) fn to_lowercase(s: &str) -> (lower: String)
    ensures
        lower@ == lowercase(s@),
{
    s.to_lowercase()
}

/// Whether `s` holds exactly the characters of `text`.
pub(crate) fn spells(s: &String, text: &str) -> (b: bool)
    ensures
        b == (s@ == text@),
{
    let t = text.to_string();
    *s == t
}

/// The industry that a lowercase name denotes; unknown names are `Other`.
pub open spec fn industry_named(name: Seq<char>) -> Industry {
    if name == "technology"@ {
        Industry::Technology
    } else if name == "finance"@ {
        Industry::Finance
    } else if name == "healthcare"@ {
        Industry::Healthcare
    } else if name == "retail"@ {
        Industry::Retail
    } else if name == "manufacturing"@ {
        Industry::Manufacturing
    } else if name == "energy"@ {
        Industry::Energy
    } else if name == "utilities"@ {
        Industry::Utilities
    } else if name == "realestate"@ || name == "real estate"@ {
        Industry::RealEstate
    } else if name == "media"@ {
        Industry::Media
    } else if name == "consumergoods"@ || name == "consumer goods"@ {
        Industry::ConsumerGoods
    } else if name == "transportation"@ {
        Industry::Transportation
    } else if name == "agriculture"@ {
        Industry::Agriculture
    } else if name == "education"@ {
        Industry::Education
    } else if name == "government"@ {
        Industry::Government
    } else if name == "blockchain"@ {
        Industry::Blockchain
    } else {
        Industry::Other
    }
}

impl Industry {
    /// Parses an industry name, ignoring case; unknown names give `Other`.
    pub fn new(name: &str) -> (industry: Industry)
        ensures
            industry == industry_named(lowercase(name@)),
    {
        let lower = to_lowercase(name);
        Industry::from_lowercase(&lower)
    }

    /// The industry named by an already lowercased name.
    pub fn from_lowercase(name: &String) -> (industry: Industry)
        ensures
            industry == industry_named(name@),
    {
        if spells(name, "technology") {
            Industry::Technology
        } else if spells(name, "finance") {
            Industry::Finance
        } else if spells(name, "healthcare") {
            Industry::Healthcare
        } else if spells(name, "retail") {
            Industry::Retail
        } else if spells(name, "manufacturing") {
            Industry::Manufacturing
        } else if spells(name, "energy") {
            Industry::Energy
        } else if spells(name, "utilities") {
            Industry::Utilities
        } else if spells(name, "realestate") || spells(name, "real estate") {
            Industry::RealEstate
        } else if spells(name, "media") {
            Industry::Media
        } else if spells(name, "consumergoods") || spells(name, "consumer goods") {
            Industry::ConsumerGoods
        } else if spells(name, "transportation") {
            Industry::Transportation
        } else if spells(name, "agriculture") {
            Industry::Agriculture
        } else if spells(name, "education") {
            Industry::Education
        } else if spells(name, "government") {
            Industry::Government
        } else if spells(name, "blockchain") {
            Industry::Blockchain
        } else {
            Industry::Other
        }
    }
}

/// The market sentiment attached to a security. A `Banned` security does
/// not trade.
#[derive(Debug, Clone, Copy, PartialEq, Eq, Hash, Structural)]
pub enum Trend {
    Normal,
    Rising,
    Correcting,
    Bubble,
    ShortSqueeze,
    Banned,
    PanicSelling,
    PanicBuying,
    InsidersBuying,
    InsidersSelling,
}

/// A listed security and its statistics for the trading day. Prices and
/// market capitalisation are in cents.
#[derive(Debug, Clone)]
pub struct Security {
    pub ticker_symbol: String,
    pub name: String,
    pub industry: Industry,
    pub current_price: u64,
    pub previous_close_price: u64,
    pub open_price: u64,
    pub day_high: u64,
    pub day_low: u64,
    pub volume: u64,
    pub market_cap: u64,
    pub outstanding_shares: u64,
    pub trend: Trend,
}

pub open spec fn max_u64(a: u64, b: u64) -> u64 {
    if a > b { a } else { b }
}

pub open spec fn min_u64(a: u64, b: u64) -> u64 {
    if a < b { a } else { b }
}

impl Security {
    /// The current price lies within the day's low and high.
    pub open spec fn price_within_day_range(&self) -> bool {
        self.day_low <= self.current_price <= self.day_high
    }

    /// The market capitalisation is the current price times the shares outstanding.
    pub open spec fn market_cap_is_current(&self) -> bool {
        self.market_cap == self.current_price * self.outstanding_shares
    }

    /// A trade at `price` of `quantity` shares can be recorded without overflow.
    pub open spec fn can_record_trade(&self, price: u64, quantity: u64) -> bool {
        &&& self.volume + quantity <= u64::MAX
        &&& price * self.outstanding_shares <= u64::MAX
    }

    /// The security after the price moves to `price`.
    pub open spec fn with_price(self, price: u64) -> Security {
        Security {
            current_price: price,
            day_high: max_u64(self.day_high, price),
            day_low: min_u64(self.day_low, price),
            market_cap: (price * self.outstanding_shares) as u64,
            ..self
        }
    }

    /// The security after a trade of `quantity` shares at `price`.
    pub open spec fn after_trade(self, price: u64, quantity: u64) -> Security {
        Security { volume: (self.volume + quantity) as u64, ..self.with_price(price) }
    }

    pub fn new(
        ticker_symbol: &str,
        name: &str,
        industry: Industry,
        initial_price: u64,
        outstanding_shares: u64,
    ) -> (security: Security)
        requires
            initial_price * outstanding_shares <= u64::MAX,
        ensures
            security.ticker_symbol@ == ticker_symbol@,
            security.name@ == name@,
            security.industry == industry,
            security.current_price == initial_price,
            security.previous_close_price == initial_price,
            security.open_price == initial_price,
            security.day_high == initial_price,
            security.day_low == initial_price,
            security.volume == 0,
            security.market_cap == initial_price * outstanding_shares,
            security.outstanding_shares == outstanding_shares,
            security.trend == Trend::Normal,
    {
        Security {
            ticker_symbol: ticker_symbol.to_string(),
            name: name.to_string(),
            industry,
            current_price: initial_price,
            previous_close_price: initial_price,
            open_price: initial_price,
            day_high: initial_price,
            day_low: initial_price,
            volume: 0,
            market_cap: initial_price * outstanding_shares,
            outstanding_shares,
            trend: Trend::Normal,
        }
    }

    /// Moves the price, widening the day's range to include it.
    pub fn update_price(&mut self, new_price: u64)
        requires
            new_price * old(self).outstanding_shares <= u64::MAX,
        ensures
            *final(self) == old(self).with_price(new_price),
    {
        self.current_price = new_price;
        if new_price > self.day_high {
            self.day_high = new_price;
        }
        if new_price < self.day_low {
            self.day_low = new_price;
        }
        self.market_cap = self.current_price * self.outstanding_shares;
    }

    /// Records a trade: the price moves to the traded price and the volume grows.
    pub fn record_trade(&mut self, traded_price: u64, quantity: u64)
        requires
            old(self).can_record_trade(traded_price, quantity),
        ensures
            *final(self) == old(self).after_trade(traded_price, quantity),
    {
        self.current_price = traded_price;
        self.volume = self.volume + quantity;
        if traded_price > self.day_high {
            self.day_high = traded_price;
        }
        if traded_price < self.day_low {
            self.day_low = traded_price;
        }
        self.market_cap = self.current_price * self.outstanding_shares;
    }

    pub fn close_day(&mut self)
        ensures
            *final(self) == (Security { previous_close_price: old(self).current_price, ..*old(self) }),
    {
        self.previous_close_price = self.current_price;
    }

    /// Starts a new trading day at `open_price`. The market capitalisation
    /// is left as it was.
    pub fn open_day(&mut self, open_price: u64)
        ensures
            *final(self) == (Security {
                open_price,
                current_price: open_price,
                day_high: open_price,
                day_low: open_price,
                volume: 0,
                ..*old(self)
            }),
    {
        self.open_price = open_price;
        self.current_price = open_price;
        self.day_high = open_price;
        self.day_low = open_price;
        self.volume = 0;
    }
}

} // verus!

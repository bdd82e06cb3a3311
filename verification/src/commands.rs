//! Reading a line typed by the player into a command.

use vstd::prelude::*;
use crate::securities_lib::{lowercase, spells, to_lowercase};

verus! {

/// Names what `str::split_whitespace` yields for a string: its words, in
/// order, as separated by Unicode white space.
pub uninterp spec fn whitespace_words(s: Seq<char>) -> Seq<Seq<char>>;

/// Calls `str::split_whitespace` and collects the words. Its contract only
/// names the result.
#[verifier::external_body]
fn split_words<'a>(s: &'a str) -> (words: Vec<&'a str>)
    ensures
        words@.map_values(|w: &str| w@) == whitespace_words(s@),
{
    s.split_whitespace().collect()
}

/// Names what `str::to_uppercase` returns for a string.
pub uninterp spec fn uppercase(s: Seq<char>) -> Seq<char>;

/// Calls `str::to_uppercase`, which returns the Unicode uppercase mapping
/// of the whole string as a new `String`. Its contract only names the result.
#[verifier::external_body]
fn to_uppercase(s: &str) -> (upper: String)
    ensures
        upper@ == uppercase(s@),
{
    s.to_uppercase()
}

pub open spec fn is_digit(c: char) -> bool {
    '0' <= c <= '9'
}

/// The number a string of decimal digits denotes.
pub open spec fn digits_value(digits: Seq<char>) -> int
    decreases digits.len(),
{
    if digits.len() == 0 {
        0
    } else {
        digits_value(digits.drop_last()) * 10 + (digits.last() as int - '0' as int)
    }
}

/// What parsing `text` as a `u64` gives: an optional `+` followed by at least
/// one decimal digit and nothing else, denoting a number that fits.
pub open spec fn unsigned_value(text: Seq<char>) -> Option<u64> {
    let digits = if text.len() > 0 && text[0] == '+' { text.drop_first() } else { text };
    if digits.len() > 0 && (forall|i: int| 0 <= i < digits.len() ==> is_digit(#[trigger] digits[i]))
        && digits_value(digits) <= u64::MAX {
        Some(digits_value(digits) as u64)
    } else {
        None
    }
}

/// Calls `str::parse::<u64>`. Its documentation: the text is an optional `+`
/// sign followed by only decimal digits; anything else, an empty text, or a
/// number too large for `u64` is an error.
#[verifier::external_body]
fn parse_unsigned(text: &str) -> (value: Option<u64>)
    ensures
        value == unsigned_value(text@),
{
    text.parse::<u64>().ok()
}

/// A command typed by the player.
#[derive(Debug)]
pub enum Command {
    /// Nothing was typed.
    Empty,
    /// `buy <TICKER> <QUANTITY>`: a market buy.
    Buy { ticker: String, quantity: u64 },
    /// `buy` without a ticker and a quantity.
    BuyUsage,
    /// `sell <TICKER> <QUANTITY>`: a market sell.
    Sell { ticker: String, quantity: u64 },
    /// `sell` without a ticker and a quantity.
    SellUsage,
    /// `portfolio` or `pf`.
    Portfolio,
    /// `prices` or `quote`, for one ticker or for all.
    Prices { ticker: Option<String> },
    /// `orderbook <TICKER>` or `ob <TICKER>`.
    ShowOrderBook { ticker: String },
    /// `orderbook` or `ob` without exactly one ticker.
    OrderBookUsage,
    /// `trades`.
    Trades,
    /// `help`.
    Help,
    /// `exit`.
    Exit,
    /// Any other word, lowercased.
    Unknown { command: String },
}

/// What a command does, given the words typed and the first one lowercased.
pub open spec fn command_matches(command: Command, words: Seq<Seq<char>>, keyword: Seq<char>) -> bool {
    match command {
        Command::Empty => words.len() == 0,
        Command::Buy { ticker, quantity } => {
            &&& words.len() == 3
            &&& keyword == "buy"@
            &&& ticker@ == uppercase(words[1])
            &&& unsigned_value(words[2]) == Some(quantity)
        },
        Command::BuyUsage => {
            &&& words.len() > 0
            &&& keyword == "buy"@
            &&& !(words.len() == 3 && unsigned_value(words[2]) is Some)
        },
        Command::Sell { ticker, quantity } => {
            &&& words.len() == 3
            &&& keyword == "sell"@
            &&& ticker@ == uppercase(words[1])
            &&& unsigned_value(words[2]) == Some(quantity)
        },
        Command::SellUsage => {
            &&& words.len() > 0
            &&& keyword == "sell"@
            &&& !(words.len() == 3 && unsigned_value(words[2]) is Some)
        },
        Command::Portfolio => words.len() > 0 && (keyword == "portfolio"@ || keyword == "pf"@),
        Command::Prices { ticker } => {
            &&& words.len() > 0
            &&& (keyword == "prices"@ || keyword == "quote"@)
            &&& match ticker {
                Some(t) => words.len() > 1 && t@ == words[1],
                None => words.len() == 1,
            }
        },
        Command::ShowOrderBook { ticker } => {
            &&& words.len() == 2
            &&& (keyword == "orderbook"@ || keyword == "ob"@)
            &&& ticker@ == words[1]
        },
        Command::OrderBookUsage => {
            &&& words.len() > 0
            &&& (keyword == "orderbook"@ || keyword == "ob"@)
            &&& words.len() != 2
        },
        Command::Trades => words.len() > 0 && keyword == "trades"@,
        Command::Help => words.len() > 0 && keyword == "help"@,
        Command::Exit => words.len() > 0 && keyword == "exit"@,
        Command::Unknown { command } => {
            &&& words.len() > 0
            &&& command@ == keyword
            &&& keyword != "buy"@
            &&& keyword != "sell"@
            &&& keyword != "portfolio"@
            &&& keyword != "pf"@
            &&& keyword != "prices"@
            &&& keyword != "quote"@
            &&& keyword != "orderbook"@
            &&& keyword != "ob"@
            &&& keyword != "trades"@
            &&& keyword != "help"@
            &&& keyword != "exit"@
        },
    }
}

impl Command {
    /// Reads a line: its words are split on white space and the first one,
    /// ignoring case, names the command.
    pub fn parse(input: &str) -> (command: Command)
        ensures
            command_matches(
                command,
                whitespace_words(input@),
                if whitespace_words(input@).len() > 0 {
                    lowercase(whitespace_words(input@)[0])
                } else {
                    Seq::empty()
                },
            ),
    {
        let words = split_words(input);
        proof {
            assert(words@.len() == whitespace_words(input@).len());
            assert forall|i: int| 0 <= i < words@.len() implies words@[i]@ == whitespace_words(input@)[i] by {
                assert(words@.map_values(|w: &str| w@)[i] == words@[i]@);
            }
        }
        if words.len() == 0 {
            return Command::Empty;
        }
        let keyword = to_lowercase(words[0]);
        Command::from_words(&words, &keyword)
    }

    /// The command for the words typed, given the first one lowercased.
    pub fn from_words(words: &Vec<&str>, keyword: &String) -> (command: Command)
        requires
            words@.len() > 0,
        ensures
            command_matches(command, words@.map_values(|w: &str| w@), keyword@),
    {
        let ghost ws = words@.map_values(|w: &str| w@);
        assert(ws.len() == words@.len());
        assert(forall|i: int| 0 <= i < words@.len() ==> ws[i] == #[trigger] words@[i]@);
        if spells(keyword, "buy") || spells(keyword, "sell") {
            let buying = spells(keyword, "buy");
            if words.len() == 3 {
                match parse_unsigned(words[2]) {
                    Some(quantity) => {
                        let ticker = to_uppercase(words[1]);
                        if buying {
                            return Command::Buy { ticker, quantity };
                        } else {
                            return Command::Sell { ticker, quantity };
                        }
                    },
                    None => {},
                }
            }
            if buying {
                Command::BuyUsage
            } else {
                Command::SellUsage
            }
        } else if spells(keyword, "portfolio") || spells(keyword, "pf") {
            Command::Portfolio
        } else if spells(keyword, "prices") || spells(keyword, "quote") {
            if words.len() > 1 {
                Command::Prices { ticker: Some(words[1].to_string()) }
            } else {
                Command::Prices { ticker: None }
            }
        } else if spells(keyword, "orderbook") || spells(keyword, "ob") {
            if words.len() == 2 {
                Command::ShowOrderBook { ticker: words[1].to_string() }
            } else {
                Command::OrderBookUsage
            }
        } else if spells(keyword, "trades") {
            Command::Trades
        } else if spells(keyword, "help") {
            Command::Help
        } else if spells(keyword, "exit") {
            Command::Exit
        } else {
            Command::Unknown { command: keyword.clone() }
        }
    }
}

} // verus!

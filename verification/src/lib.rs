//! A verified model of a small securities exchange: limit order books with
//! price-time priority matching, securities with daily statistics, and a
//! trader's cash and portfolio.

pub mod orders;
pub mod securities_lib;
pub mod matching;
pub mod exchange;
pub mod laws;
pub mod player;
pub mod securities;
pub mod session;
pub mod commands;

//! Trades as a strategy layer records them.
//!
//! Not part of the request/response core: callers use these records to track
//! an entry, its protective prices and its eventual exit around the exchange
//! operations.

use vstd::prelude::*;

use crate::decimal::Decimal;

verus! {

/// Which way a trade was entered; `Flat` marks a record with no open side.
#[derive(Clone, Copy, Debug, PartialEq, Eq, Structural)]
pub enum TradeSide {
    Sell,
    Buy,
    Flat,
}

impl TradeSide {
    /// The sign of the side: buying counts +1, selling -1, no side 0.
    pub fn value(&self) -> (r: i64)
        ensures
            r == match *self {
                TradeSide::Sell => -1,
                TradeSide::Buy => 1,
                TradeSide::Flat => 0,
            },
    {
        match *self {
            TradeSide::Sell => -1,
            TradeSide::Buy => 1,
            TradeSide::Flat => 0,
        }
    }
}

impl Default for TradeSide {
    /// A fresh record has no side.
    fn default() -> (r: Self)
        ensures
            r == TradeSide::Flat,
    {
        TradeSide::Flat
    }
}

/// One recorded trade: entry, sizing, and its protective prices.
#[derive(Clone, Debug, PartialEq)]
pub struct Trade {
    pub symbol: String,
    pub entry_price: Decimal,
    pub entry_side: TradeSide,
    pub entry_ts: i64,
    pub exit_price: Decimal,
    pub position: Decimal,
    /// take profit
    pub tp_price: Decimal,
    /// stop loss
    pub sl_price: Decimal,
}

} // verus!

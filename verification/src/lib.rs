//! FIFO tax-lot accounting: trades are matched against the oldest lots first and the
//! profit they realise is totalled per fiscal year.
//!
//! An [`inventory::Inventory`] takes purchases, sales and dividends one at a time. A
//! purchase becomes a lot of its instrument. A sale draws on the oldest lots of its
//! instrument and says, lot by lot, what it took and what it gained. Sales and dividends
//! add to the profit of the fiscal year they fall in. Every event leaves an entry in the
//! log; an event that is turned down leaves nothing at all.
//!
//! Money is counted in whole minor units of the currency: prices and fees in 64 bits,
//! what they multiply and add up to in 128 bits, so that no amount of one event can
//! overflow.
//!
//! - [`date`]: trade dates
//! - [`fiscal`]: fiscal years and their totals
//! - [`lots`]: the lots of one instrument
//! - [`matching`]: matching a sale against lots, first in, first out
//! - [`log`]: the entries of the log
//! - [`model`]: the inventory as a plain value, and what holds of it
//! - [`inventory`]: the inventory itself

pub mod date;
pub mod fiscal;
pub mod inventory;
pub mod log;
pub mod lots;
pub mod matching;
pub mod model;

use crate::date::TradeDate;
use vstd::prelude::*;

verus! {

/// The kinds of trade event.
#[derive(Debug, Clone, Copy, PartialEq, Eq, Structural)]
pub enum TradeType {
    BUY,
    SELL,
    DIV,
}

impl TradeType {
    /// The word a kind is written with.
    pub open spec fn label(self) -> Seq<char> {
        match self {
            TradeType::BUY => "BUY"@,
            TradeType::SELL => "SELL"@,
            TradeType::DIV => "DIV"@,
        }
    }

    /// The kind as text.
    pub fn to_string(&self) -> (text: String)
        ensures
            text@ == self.label(),
    {
        match self {
            TradeType::BUY => "BUY".to_owned(),
            TradeType::SELL => "SELL".to_owned(),
            TradeType::DIV => "DIV".to_owned(),
        }
    }
}

/// Why an event was turned down.
#[derive(Debug, Clone, Copy, PartialEq, Eq, Structural)]
pub enum TradeError {
    /// No units, a negative price or a negative fee.
    InvalidEvent,
    /// A sale of an instrument of which no lot is held.
    UnknownInstrument,
    /// A sale of more units than are held.
    InsufficientInventory,
    /// The fiscal year's total would leave the range of 128-bit numbers.
    TotalOutOfRange,
}

/// One trade event as it comes in. Money is counted in whole minor units of the currency.
#[derive(Debug, Clone)]
pub struct TradingRecord {
    pub date: TradeDate,
    pub buy_or_sell: TradeType,
    /// The instrument traded.
    pub code: String,
    /// Units bought or sold, or units that a dividend is paid on.
    pub volume: u32,
    /// Price per unit; for a dividend, the amount paid per unit.
    pub price: i64,
    pub fee: i64,
}

} // verus!

//! The log: one entry for each event recorded, and what the entries add up to.

use crate::date::TradeDate;
use crate::matching::{attributed_fees, total_profit, total_quantity, SellingFulfillment};
use crate::{TradeType, TradingRecord};
use vstd::prelude::*;

verus! {

/// One entry of the log: an event, what it settled for and what it realised.
#[derive(Debug, Clone)]
pub struct ConsolidatedTransaction {
    pub date: TradeDate,
    pub trade_type: TradeType,
    pub code: String,
    pub quantity: u32,
    pub price: i64,
    pub fee: i64,
    /// Cash that changed hands: price and fee for a purchase, price less fee for a sale.
    pub amount_settled: i128,
    /// For a sale, what it took from each lot.
    pub fulfillments: Option<Vec<SellingFulfillment>>,
    pub net_profit: i128,
}

/// A log entry as a plain value.
pub struct TransactionView {
    pub date: TradeDate,
    pub trade_type: TradeType,
    pub code: Seq<char>,
    pub quantity: u32,
    pub price: i64,
    pub fee: i64,
    pub amount_settled: int,
    pub fulfillments: Option<Seq<SellingFulfillment>>,
    pub net_profit: int,
}

impl View for ConsolidatedTransaction {
    type V = TransactionView;

    open spec fn view(&self) -> TransactionView {
        TransactionView {
            date: self.date,
            trade_type: self.trade_type,
            code: self.code@,
            quantity: self.quantity,
            price: self.price,
            fee: self.fee,
            amount_settled: self.amount_settled as int,
            fulfillments: match self.fulfillments {
                Some(rows) => Some(rows@),
                None => None,
            },
            net_profit: self.net_profit as int,
        }
    }
}

impl TransactionView {
    /// An entry is of a valid event and has the shape of its kind. A purchase settles for
    /// the price of its units and the fee, and realises nothing. A sale settles for the
    /// price of its units less the fee; its rows take the units sold, and it realises what
    /// they do. A dividend settles for the amount paid on its units, all of it profit.
    pub open spec fn wf(self) -> bool {
        &&& self.quantity >= 1
        &&& self.price >= 0
        &&& self.fee >= 0
        &&& match self.trade_type {
            TradeType::BUY => {
                &&& self.fulfillments is None
                &&& self.amount_settled == self.quantity * self.price + self.fee
                &&& self.net_profit == 0
            },
            TradeType::SELL => {
                &&& self.fulfillments matches Some(rows)
                &&& total_quantity(rows) == self.quantity
                &&& self.amount_settled == self.quantity * self.price - self.fee
                &&& self.net_profit == total_profit(rows)
            },
            TradeType::DIV => {
                &&& self.fulfillments is None
                &&& self.fee == 0
                &&& self.amount_settled == self.quantity * self.price
                &&& self.net_profit == self.amount_settled
            },
        }
    }

    /// The units that the entry brought to the lots of `code`, or took from them.
    pub open spec fn units_added(self, code: Seq<char>) -> int {
        if self.code != code {
            0
        } else {
            match self.trade_type {
                TradeType::BUY => self.quantity as int,
                TradeType::SELL => -(self.quantity as int),
                TradeType::DIV => 0,
            }
        }
    }

    /// The purchase fees that the entry laid on the lots of `code`, or took off them by
    /// charging them to its rows.
    pub open spec fn fees_added(self, code: Seq<char>) -> int {
        if self.code != code {
            0
        } else {
            match self.trade_type {
                TradeType::BUY => self.fee as int,
                TradeType::SELL => match self.fulfillments {
                    Some(rows) => -attributed_fees(rows),
                    None => 0,
                },
                TradeType::DIV => 0,
            }
        }
    }

    /// Whether the entry counts towards the profit of fiscal year `fy`.
    pub open spec fn realized_in(self, fy: i32) -> bool {
        self.trade_type != TradeType::BUY && self.date.fiscal_year() == fy
    }
}

/// The log as plain values.
pub open spec fn log_of(entries: Seq<ConsolidatedTransaction>) -> Seq<TransactionView> {
    entries.map_values(|entry: ConsolidatedTransaction| entry@)
}

/// The log entry of a purchase.
pub open spec fn purchase_entry(record: TradingRecord) -> TransactionView {
    TransactionView {
        date: record.date,
        trade_type: TradeType::BUY,
        code: record.code@,
        quantity: record.volume,
        price: record.price,
        fee: record.fee,
        amount_settled: record.volume * record.price + record.fee,
        fulfillments: None,
        net_profit: 0,
    }
}

/// The log entry of a sale that took `rows` from the lots.
pub open spec fn sale_entry(
    record: TradingRecord,
    rows: Seq<SellingFulfillment>,
) -> TransactionView {
    TransactionView {
        date: record.date,
        trade_type: TradeType::SELL,
        code: record.code@,
        quantity: record.volume,
        price: record.price,
        fee: record.fee,
        amount_settled: record.volume * record.price - record.fee,
        fulfillments: Some(rows),
        net_profit: total_profit(rows),
    }
}

/// The log entry of a dividend.
pub open spec fn dividend_entry(record: TradingRecord) -> TransactionView {
    TransactionView {
        date: record.date,
        trade_type: TradeType::DIV,
        code: record.code@,
        quantity: record.volume,
        price: record.price,
        fee: 0,
        amount_settled: record.volume * record.price,
        fulfillments: None,
        net_profit: record.volume * record.price,
    }
}

/// The profit that the sales and dividends of fiscal year `fy` in the log realised.
pub open spec fn realized_profit(log: Seq<TransactionView>, fy: i32) -> int
    decreases log.len(),
{
    if log.len() == 0 {
        0
    } else if log.last().realized_in(fy) {
        realized_profit(log.drop_last(), fy) + log.last().net_profit
    } else {
        realized_profit(log.drop_last(), fy)
    }
}

/// Whether the log holds a sale or dividend of fiscal year `fy`.
pub open spec fn has_realized(log: Seq<TransactionView>, fy: i32) -> bool {
    exists|i: int| 0 <= i < log.len() && (#[trigger] log[i]).realized_in(fy)
}

/// The units of `code` that the purchases in the log brought, less those that its sales
/// took.
pub open spec fn units_in_log(log: Seq<TransactionView>, code: Seq<char>) -> int
    decreases log.len(),
{
    if log.len() == 0 {
        0
    } else {
        units_in_log(log.drop_last(), code) + log.last().units_added(code)
    }
}

/// The fees paid on the purchases of `code` in the log, less those that the rows of its
/// sales were charged with.
pub open spec fn fees_in_log(log: Seq<TransactionView>, code: Seq<char>) -> int
    decreases log.len(),
{
    if log.len() == 0 {
        0
    } else {
        fees_in_log(log.drop_last(), code) + log.last().fees_added(code)
    }
}

/// Adding an entry to the log adds its profit to the fiscal year it counts towards, and
/// to no other.
pub proof fn lemma_log_push(log: Seq<TransactionView>, entry: TransactionView, fy: i32)
    ensures
        realized_profit(log.push(entry), fy) == realized_profit(log, fy) + if entry.realized_in(
            fy,
        ) {
            entry.net_profit
        } else {
            0
        },
        has_realized(log.push(entry), fy) <==> has_realized(log, fy) || entry.realized_in(fy),
{
    let longer = log.push(entry);
    assert(longer.drop_last() =~= log);
    if has_realized(log, fy) {
        let i = choose|i: int| 0 <= i < log.len() && (#[trigger] log[i]).realized_in(fy);
    }
    if entry.realized_in(fy) {
    }
    if has_realized(longer, fy) {
        let i = choose|i: int| 0 <= i < longer.len() && (#[trigger] longer[i]).realized_in(fy);
        if i < log.len() {
        }
    }
}

/// A fiscal year of which the log holds no sale or dividend has realised nothing.
pub proof fn lemma_nothing_realized(log: Seq<TransactionView>, fy: i32)
    requires
        !has_realized(log, fy),
    ensures
        realized_profit(log, fy) == 0,
    decreases log.len(),
{
    if log.len() > 0 {
        let earlier = log.drop_last();
        lemma_nothing_realized(log.drop_last(), fy);
    }
}

} // verus!

//! The inventory: the lots of every instrument, the profit realised per fiscal year, and
//! the log of all that was recorded.

pub use crate::log::ConsolidatedTransaction;
pub use crate::matching::SellingFulfillment;
pub use crate::TradeError;

use crate::fiscal::{accumulate, accumulated, fits_total};
use crate::log::{dividend_entry, log_of, purchase_entry, sale_entry};
use crate::lots::{covers, insert_lot, lots_wf, InventoryItem};
use crate::matching::{consume, fulfill_sale};
use crate::model::{lemma_amount_bounds, lemma_apply_wf, valid_event, with_held, InventoryView};
use crate::{TradeType, TradingRecord};
use std::collections::HashMap;
use vstd::prelude::*;

verus! {

/// The lots of one instrument.
struct Holding {
    code: String,
    items: Vec<InventoryItem>,
}

/// Whether holding `i` is that of `code`.
spec fn holds(holdings: Seq<Holding>, code: Seq<char>, i: int) -> bool {
    0 <= i < holdings.len() && holdings[i].code@ == code
}

/// The lots held of `code`: those of its holding, none without one.
spec fn lots_of(holdings: Seq<Holding>, code: Seq<char>) -> Seq<InventoryItem> {
    if exists|i: int| holds(holdings, code, i) {
        holdings[choose|i: int| holds(holdings, code, i)].items@
    } else {
        Seq::empty()
    }
}

/// No instrument has two holdings.
spec fn distinct_codes(holdings: Seq<Holding>) -> bool {
    forall|i: int, j: int| 0 <= i < j < holdings.len() ==> holdings[i].code@ != holdings[j].code@
}

/// The lots of every instrument of which any are held.
spec fn lots_map(holdings: Seq<Holding>) -> Map<Seq<char>, Seq<InventoryItem>> {
    Map::new(
        |code: Seq<char>| lots_of(holdings, code).len() > 0,
        |code: Seq<char>| lots_of(holdings, code),
    )
}

/// The lots of an instrument are those of its one holding.
proof fn lemma_lots_of_holding(holdings: Seq<Holding>, at: int)
    requires
        distinct_codes(holdings),
        0 <= at < holdings.len(),
    ensures
        lots_of(holdings, holdings[at].code@) == holdings[at].items@,
{
    assert(holds(holdings, holdings[at].code@, at));
}

/// Changing the lots of one holding changes the lots of its instrument and of no other.
proof fn lemma_lots_after_change(before: Seq<Holding>, after: Seq<Holding>, at: int)
    requires
        distinct_codes(before),
        0 <= at < before.len(),
        after.len() == before.len(),
        after[at].code@ == before[at].code@,
        forall|j: int| 0 <= j < before.len() && j != at ==> after[j] == before[j],
    ensures
        distinct_codes(after),
        lots_map(after) == with_held(lots_map(before), before[at].code@, after[at].items@),
{
    let code = before[at].code@;
    lemma_lots_of_holding(after, at);
    assert forall|other: Seq<char>| other != code implies lots_of(after, other) == lots_of(
        before,
        other,
    ) by {
        if exists|i: int| holds(before, other, i) {
            let i = choose|i: int| holds(before, other, i);
            lemma_lots_of_holding(before, i);
            lemma_lots_of_holding(after, i);
        } else {
            assert forall|i: int| !holds(after, other, i) by {
                if 0 <= i < after.len() && i != at {
                    assert(!holds(before, other, i));
                }
            }
        }
    }
}

/// A new holding without lots changes the lots of no instrument.
proof fn lemma_lots_after_push(before: Seq<Holding>, holding: Holding)
    requires
        distinct_codes(before),
        forall|i: int| !holds(before, holding.code@, i),
        holding.items@.len() == 0,
    ensures
        distinct_codes(before.push(holding)),
        lots_map(before.push(holding)) == lots_map(before),
        lots_of(before, holding.code@).len() == 0,
{
    let after = before.push(holding);
    assert forall|i: int, j: int| 0 <= i < j < after.len() implies after[i].code@
        != after[j].code@ by {
        assert(!holds(before, holding.code@, i));
    }
    lemma_lots_of_holding(after, before.len() as int);
    assert forall|other: Seq<char>| lots_of(after, other) =~= lots_of(before, other) by {
        if other != holding.code@ {
            if exists|i: int| holds(before, other, i) {
                let i = choose|i: int| holds(before, other, i);
                lemma_lots_of_holding(before, i);
                lemma_lots_of_holding(after, i);
            } else {
                assert forall|i: int| !holds(after, other, i) by {
                    if 0 <= i < before.len() {
                        assert(!holds(before, other, i));
                    }
                }
            }
        }
    }
}

/// Whether an event trades at least one unit at a price and a fee that are not negative.
pub fn is_valid_event(record: &TradingRecord) -> (valid: bool)
    ensures
        valid == valid_event(*record),
{
    record.volume >= 1 && record.price >= 0 && record.fee >= 0
}

/// The lots of every instrument, the profit realised per fiscal year, and the log.
pub struct Inventory {
    inventory_items: Vec<Holding>,
    fy_profit_map: HashMap<i32, i128>,
    consolidated_transactions: Vec<ConsolidatedTransaction>,
}

impl View for Inventory {
    type V = InventoryView;

    closed spec fn view(&self) -> InventoryView {
        InventoryView {
            lots: lots_map(self.inventory_items@),
            fy_profit: self.fy_profit_map@,
            transactions: log_of(self.consolidated_transactions@),
        }
    }
}

impl Inventory {
    /// No instrument is listed twice.
    pub closed spec fn distinct(&self) -> bool {
        distinct_codes(self.inventory_items@)
    }

    /// What holds of an inventory at all times.
    pub open spec fn wf(&self) -> bool {
        &&& self.distinct()
        &&& self@.wf()
    }

    /// The lots of holding `at` are those that the inventory holds of its instrument, and
    /// they are in good standing.
    proof fn lemma_holding(&self, at: int)
        requires
            self.wf(),
            0 <= at < self.inventory_items@.len(),
        ensures
            self@.held(self.inventory_items@[at].code@) == self.inventory_items@[at].items@,
            lots_wf(self.inventory_items@[at].items@),
    {
        lemma_lots_of_holding(self.inventory_items@, at);
    }

    /// An inventory with nothing in it.
    pub fn new() -> (inventory: Inventory)
        ensures
            inventory.wf(),
            inventory@ == InventoryView::empty(),
    {
        Inventory {
            inventory_items: Vec::new(),
            fy_profit_map: HashMap::new(),
            consolidated_transactions: Vec::new(),
        }
    }

    /// The log: one entry for each event recorded, in the order they came.
    pub fn consolidated_transactions(&self) -> (log: &Vec<ConsolidatedTransaction>)
        ensures
            log_of(log@) == self@.transactions,
    {
        &self.consolidated_transactions
    }

    /// The lots held of an instrument, oldest first; `None` where none are held.
    pub fn lots(&self, code: &String) -> (lots: Option<&Vec<InventoryItem>>)
        requires
            self.wf(),
        ensures
            match lots {
                Some(items) => items@.len() > 0 && items@ == self@.held(code@),
                None => self@.held(code@).len() == 0,
            },
    {
        match self.find_holding(code) {
            Some(at) => {
                proof {
                    self.lemma_holding(at as int);
                }
                if self.inventory_items[at].items.len() > 0 {
                    Some(&self.inventory_items[at].items)
                } else {
                    None
                }
            },
            None => None,
        }
    }

    /// The profit realised per fiscal year.
    pub fn fy_profit_map(&self) -> (totals: &HashMap<i32, i128>)
        ensures
            totals@ == self@.fy_profit,
    {
        &self.fy_profit_map
    }

    /// The place of the holding of `code`, if there is one.
    fn find_holding(&self, code: &String) -> (found: Option<usize>)
        ensures
            match found {
                Some(at) => holds(self.inventory_items@, code@, at as int),
                None => forall|i: int| !holds(self.inventory_items@, code@, i),
            },
    {
        let mut i: usize = 0;
        while i < self.inventory_items.len()
            invariant
                i <= self.inventory_items.len(),
                forall|j: int| 0 <= j < i ==> !holds(self.inventory_items@, code@, j),
            decreases self.inventory_items.len() - i,
        {
            if self.inventory_items[i].code == *code {
                return Some(i);
            }
            i += 1;
        }
        None
    }

    /// Records an event: a purchase, a sale or a dividend. An event that is turned down
    /// changes nothing.
    pub fn record_transaction(&mut self, trading_record: &TradingRecord) -> (result: Result<
        (),
        TradeError,
    >)
        requires
            old(self).wf(),
        ensures
            final(self).wf(),
            match old(self)@.rejects(*trading_record) {
                Some(error) => result == Err::<(), TradeError>(error) && final(self)@ == old(
                    self,
                )@,
                None => result is Ok && final(self)@ == old(self)@.apply(*trading_record),
            },
    {
        match trading_record.buy_or_sell {
            TradeType::BUY => self.record_buy(trading_record),
            TradeType::SELL => self.record_sell(trading_record),
            TradeType::DIV => self.record_dividend(trading_record),
        }
    }

    /// Records a purchase: a new lot among those of its instrument, at its place in date
    /// order, and an entry in the log.
    fn record_buy(&mut self, trading_record: &TradingRecord) -> (result: Result<(), TradeError>)
        requires
            old(self).wf(),
        ensures
            final(self).wf(),
            match old(self)@.rejects_purchase(*trading_record) {
                Some(error) => result == Err::<(), TradeError>(error) && final(self)@ == old(
                    self,
                )@,
                None => result is Ok && final(self)@ == old(self)@.purchase(*trading_record),
            },
    {
        if !is_valid_event(trading_record) {
            return Err(TradeError::InvalidEvent);
        }
        let at: usize = match self.find_holding(&trading_record.code) {
            Some(at) => at,
            None => {
                let holding = Holding { code: trading_record.code.clone(), items: Vec::new() };
                proof {
                    lemma_lots_after_push(self.inventory_items@, holding);
                }
                self.inventory_items.push(holding);
                self.inventory_items.len() - 1
            },
        };
        let ghost listed = self.inventory_items@;
        proof {
            self.lemma_holding(at as int);
        }
        let lot = InventoryItem {
            date_acquired: trading_record.date,
            quantity: trading_record.volume,
            price: trading_record.price,
            remaining_fee: trading_record.fee,
        };
        insert_lot(&mut self.inventory_items[at].items, lot);
        proof {
            lemma_lots_after_change(listed, self.inventory_items@, at as int);
            lemma_amount_bounds(trading_record.volume, trading_record.price);
        }
        let amount_settled: i128 = trading_record.volume as i128 * trading_record.price as i128
            + trading_record.fee as i128;
        let entry = ConsolidatedTransaction {
            date: trading_record.date,
            trade_type: TradeType::BUY,
            code: trading_record.code.clone(),
            quantity: trading_record.volume,
            price: trading_record.price,
            fee: trading_record.fee,
            amount_settled,
            fulfillments: None,
            net_profit: 0,
        };
        self.consolidated_transactions.push(entry);
        proof {
            assert(self@ == old(self)@.purchase(*trading_record));
            lemma_apply_wf(
                old(self)@,
                TradingRecord { buy_or_sell: TradeType::BUY, ..*trading_record },
            );
        }
        Ok(())
    }

    /// Records a sale: the oldest lots of the instrument are drawn on, the profit is added
    /// to the sale's fiscal year, and an entry with the rows goes into the log.
    fn record_sell(&mut self, trading_record: &TradingRecord) -> (result: Result<(), TradeError>)
        requires
            old(self).wf(),
        ensures
            final(self).wf(),
            match old(self)@.rejects_sale(*trading_record) {
                Some(error) => result == Err::<(), TradeError>(error) && final(self)@ == old(
                    self,
                )@,
                None => result is Ok && final(self)@ == old(self)@.sale(*trading_record),
            },
    {
        if !is_valid_event(trading_record) {
            return Err(TradeError::InvalidEvent);
        }
        let at: usize = match self.find_holding(&trading_record.code) {
            Some(at) => at,
            None => {
                return Err(TradeError::UnknownInstrument);
            },
        };
        let ghost listed = self.inventory_items@;
        proof {
            self.lemma_holding(at as int);
        }
        if self.inventory_items[at].items.len() == 0 {
            return Err(TradeError::UnknownInstrument);
        }
        if !covers(&self.inventory_items[at].items, trading_record.volume) {
            return Err(TradeError::InsufficientInventory);
        }
        let (rows, net_profit) = fulfill_sale(
            &self.inventory_items[at].items,
            trading_record.volume,
            trading_record.date,
            trading_record.price,
            trading_record.fee,
        );
        let financial_year: i32 = trading_record.date.fiscal_year();
        if !self.record_fy_profit(financial_year, net_profit) {
            return Err(TradeError::TotalOutOfRange);
        }
        consume(&mut self.inventory_items[at].items, trading_record.volume);
        proof {
            lemma_lots_after_change(listed, self.inventory_items@, at as int);
            lemma_amount_bounds(trading_record.volume, trading_record.price);
        }
        let amount_settled: i128 = trading_record.volume as i128 * trading_record.price as i128
            - trading_record.fee as i128;
        let entry = ConsolidatedTransaction {
            date: trading_record.date,
            trade_type: TradeType::SELL,
            code: trading_record.code.clone(),
            quantity: trading_record.volume,
            price: trading_record.price,
            fee: trading_record.fee,
            amount_settled,
            fulfillments: Some(rows),
            net_profit,
        };
        self.consolidated_transactions.push(entry);
        proof {
            assert(self@ == old(self)@.sale(*trading_record));
            lemma_apply_wf(
                old(self)@,
                TradingRecord { buy_or_sell: TradeType::SELL, ..*trading_record },
            );
        }
        Ok(())
    }

    /// Records a dividend, whatever kind the record says it is: the amount paid is added to
    /// the dividend's fiscal year and an entry goes into the log. No lot is touched.
    pub fn record_dividend(&mut self, trading_record: &TradingRecord) -> (result: Result<
        (),
        TradeError,
    >)
        requires
            old(self).wf(),
        ensures
            final(self).wf(),
            match old(self)@.rejects_dividend(*trading_record) {
                Some(error) => result == Err::<(), TradeError>(error) && final(self)@ == old(
                    self,
                )@,
                None => result is Ok && final(self)@ == old(self)@.dividend(*trading_record),
            },
    {
        if !is_valid_event(trading_record) {
            return Err(TradeError::InvalidEvent);
        }
        proof {
            lemma_amount_bounds(trading_record.volume, trading_record.price);
        }
        let financial_year: i32 = trading_record.date.fiscal_year();
        let amount_settled: i128 = trading_record.volume as i128 * trading_record.price as i128;
        if !self.record_fy_profit(financial_year, amount_settled) {
            return Err(TradeError::TotalOutOfRange);
        }
        let entry = ConsolidatedTransaction {
            date: trading_record.date,
            trade_type: TradeType::DIV,
            code: trading_record.code.clone(),
            quantity: trading_record.volume,
            price: trading_record.price,
            fee: 0,
            amount_settled,
            fulfillments: None,
            net_profit: amount_settled,
        };
        self.consolidated_transactions.push(entry);
        proof {
            assert(self@ == old(self)@.dividend(*trading_record));
            lemma_apply_wf(
                old(self)@,
                TradingRecord { buy_or_sell: TradeType::DIV, ..*trading_record },
            );
        }
        Ok(())
    }

    /// Adds `profit` to the total of fiscal year `fy`; see [`accumulate`].
    fn record_fy_profit(&mut self, fy: i32, profit: i128) -> (recorded: bool)
        ensures
            final(self).inventory_items == old(self).inventory_items,
            final(self).consolidated_transactions == old(self).consolidated_transactions,
            recorded == fits_total(old(self)@.fy_total(fy) + profit),
            recorded ==> final(self).fy_profit_map@ == accumulated(
                old(self).fy_profit_map@,
                fy,
                profit as int,
            ),
            !recorded ==> final(self).fy_profit_map@ == old(self).fy_profit_map@,
    {
        accumulate(&mut self.fy_profit_map, fy, profit)
    }
}

} // verus!

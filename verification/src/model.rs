//! The inventory as a plain value: what each event makes of it, when an event is turned
//! down, and what holds of it whatever events come in.

use crate::fiscal::{accumulated, fits_total, total_of};
use crate::log::{
    dividend_entry, fees_in_log, has_realized, lemma_log_push, lemma_nothing_realized,
    purchase_entry, realized_profit, sale_entry, units_in_log, TransactionView,
};
use crate::lots::{
    held_quantity, lemma_with_lot, lots_wf, outstanding_fees, with_lot, InventoryItem,
};
use crate::matching::{
    draw, fulfill, lemma_fees_conserved, lemma_first_in_first_out, lemma_quantity_conserved,
    remaining, total_profit, total_quantity, SellingFulfillment,
};
use crate::{TradeError, TradeType, TradingRecord};
use vstd::prelude::*;

verus! {

/// An event must trade at least one unit, and neither its price nor its fee may be
/// negative.
pub open spec fn valid_event(record: TradingRecord) -> bool {
    &&& record.volume >= 1
    &&& record.price >= 0
    &&& record.fee >= 0
}

/// The lots of all instruments after those of `code` have become `lots`. An instrument
/// without lots is not listed.
pub open spec fn with_held(
    held: Map<Seq<char>, Seq<InventoryItem>>,
    code: Seq<char>,
    lots: Seq<InventoryItem>,
) -> Map<Seq<char>, Seq<InventoryItem>> {
    if lots.len() == 0 {
        held.remove(code)
    } else {
        held.insert(code, lots)
    }
}

/// The inventory as a plain value.
#[verifier::ext_equal]
pub struct InventoryView {
    /// The lots of each instrument of which any are held, oldest first.
    pub lots: Map<Seq<char>, Seq<InventoryItem>>,
    /// The profit realised in each fiscal year that saw a sale or a dividend.
    pub fy_profit: Map<i32, i128>,
    /// All that was recorded, in the order it came.
    pub transactions: Seq<TransactionView>,
}

impl InventoryView {
    /// The inventory before anything is recorded.
    pub open spec fn empty() -> InventoryView {
        InventoryView { lots: Map::empty(), fy_profit: Map::empty(), transactions: Seq::empty() }
    }

    /// The lots held of an instrument; none if it is not listed.
    pub open spec fn held(self, code: Seq<char>) -> Seq<InventoryItem> {
        if self.lots.dom().contains(code) {
            self.lots[code]
        } else {
            Seq::empty()
        }
    }

    /// The profit realised in a fiscal year so far.
    pub open spec fn fy_total(self, fy: i32) -> int {
        total_of(self.fy_profit, fy)
    }

    /// The lots of an instrument account for its log entries: they hold the units bought
    /// and not sold, and carry the purchase fees that no row of a sale was charged with.
    pub open spec fn balanced(self, code: Seq<char>) -> bool {
        &&& held_quantity(self.held(code)) == units_in_log(self.transactions, code)
        &&& outstanding_fees(self.held(code)) == fees_in_log(self.transactions, code)
    }

    /// What holds of an inventory at all times: the lots listed of an instrument are some,
    /// in date order and in good standing; the lots of every instrument account for its log
    /// entries; a fiscal year has a total if and only if the log holds a sale or dividend
    /// of that year, and the total is the profit of those entries; every log entry has the
    /// shape of its kind.
    pub open spec fn wf(self) -> bool {
        &&& forall|code: Seq<char>| #[trigger] self.balanced(code)
        &&& forall|code: Seq<char>| #[trigger]
            self.lots.dom().contains(code) ==> self.lots[code].len() > 0 && lots_wf(
                self.lots[code],
            )
        &&& forall|fy: i32| #[trigger]
            self.fy_profit.dom().contains(fy) <==> has_realized(self.transactions, fy)
        &&& forall|fy: i32| #[trigger]
            self.fy_profit.dom().contains(fy) ==> self.fy_profit[fy] == realized_profit(
                self.transactions,
                fy,
            )
        &&& forall|i: int|
            0 <= i < self.transactions.len() ==> (#[trigger] self.transactions[i]).wf()
    }

    /// The rows that a sale would take from the lots held.
    pub open spec fn sale_rows(self, record: TradingRecord) -> Seq<SellingFulfillment> {
        fulfill(self.held(record.code@), record.volume, record.date, record.price, record.fee)
    }

    /// Why a purchase is turned down, if it is.
    pub open spec fn rejects_purchase(self, record: TradingRecord) -> Option<TradeError> {
        if !valid_event(record) {
            Some(TradeError::InvalidEvent)
        } else {
            None
        }
    }

    /// Why a sale is turned down, if it is.
    pub open spec fn rejects_sale(self, record: TradingRecord) -> Option<TradeError> {
        if !valid_event(record) {
            Some(TradeError::InvalidEvent)
        } else if self.held(record.code@).len() == 0 {
            Some(TradeError::UnknownInstrument)
        } else if held_quantity(self.held(record.code@)) < record.volume {
            Some(TradeError::InsufficientInventory)
        } else if !fits_total(
            self.fy_total(record.date.fiscal_year()) + total_profit(self.sale_rows(record)),
        ) {
            Some(TradeError::TotalOutOfRange)
        } else {
            None
        }
    }

    /// Why a dividend is turned down, if it is.
    pub open spec fn rejects_dividend(self, record: TradingRecord) -> Option<TradeError> {
        if !valid_event(record) {
            Some(TradeError::InvalidEvent)
        } else if !fits_total(
            self.fy_total(record.date.fiscal_year()) + record.volume * record.price,
        ) {
            Some(TradeError::TotalOutOfRange)
        } else {
            None
        }
    }

    /// Why an event is turned down, if it is.
    pub open spec fn rejects(self, record: TradingRecord) -> Option<TradeError> {
        match record.buy_or_sell {
            TradeType::BUY => self.rejects_purchase(record),
            TradeType::SELL => self.rejects_sale(record),
            TradeType::DIV => self.rejects_dividend(record),
        }
    }

    /// The inventory after a purchase: a new lot at its place in date order.
    pub open spec fn purchase(self, record: TradingRecord) -> InventoryView {
        let lot = InventoryItem {
            date_acquired: record.date,
            quantity: record.volume,
            price: record.price,
            remaining_fee: record.fee,
        };
        InventoryView {
            lots: with_held(self.lots, record.code@, with_lot(self.held(record.code@), lot)),
            fy_profit: self.fy_profit,
            transactions: self.transactions.push(purchase_entry(record)),
        }
    }

    /// The inventory after a sale: the oldest lots drawn on, the profit added to its fiscal
    /// year.
    pub open spec fn sale(self, record: TradingRecord) -> InventoryView {
        let rows = self.sale_rows(record);
        let fy = record.date.fiscal_year();
        InventoryView {
            lots: with_held(
                self.lots,
                record.code@,
                remaining(self.held(record.code@), record.volume),
            ),
            fy_profit: accumulated(self.fy_profit, fy, total_profit(rows)),
            transactions: self.transactions.push(sale_entry(record, rows)),
        }
    }

    /// The inventory after a dividend: the lots as they were, the amount paid added to its
    /// fiscal year.
    pub open spec fn dividend(self, record: TradingRecord) -> InventoryView {
        let fy = record.date.fiscal_year();
        InventoryView {
            lots: self.lots,
            fy_profit: accumulated(self.fy_profit, fy, record.volume * record.price),
            transactions: self.transactions.push(dividend_entry(record)),
        }
    }

    /// The inventory after an event that is not turned down.
    pub open spec fn apply(self, record: TradingRecord) -> InventoryView {
        match record.buy_or_sell {
            TradeType::BUY => self.purchase(record),
            TradeType::SELL => self.sale(record),
            TradeType::DIV => self.dividend(record),
        }
    }
}

/// What a purchase or a dividend settles for stays below 2^96.
pub proof fn lemma_amount_bounds(volume: u32, price: i64)
    requires
        price >= 0,
    ensures
        0 <= volume * price <= 0x8000_0000_0000_0000_0000_0000,
{
    let units: int = volume as int;
    let each: int = price as int;
    assert(0 <= units * each <= 0x8000_0000_0000_0000_0000_0000) by (nonlinear_arith)
        requires
            0 <= units <= 0xffff_ffff,
            0 <= each <= 0x7fff_ffff_ffff_ffff,
    ;
}

/// The profit of fiscal year `fy` is the sum of what the sales and dividends of that year
/// in the log realised.
pub proof fn lemma_profit_additivity(inventory: InventoryView, fy: i32)
    requires
        inventory.wf(),
    ensures
        inventory.fy_total(fy) == realized_profit(inventory.transactions, fy),
{
    if !inventory.fy_profit.dom().contains(fy) {
        lemma_nothing_realized(inventory.transactions, fy);
    }
}

/// A sale takes the units sold out of the lots of its instrument, shows them in the rows
/// of its log entry, and leaves the lots of every other instrument alone.
pub proof fn lemma_sale_conserves_quantity(inventory: InventoryView, record: TradingRecord)
    requires
        inventory.wf(),
        inventory.rejects_sale(record) is None,
    ensures
        held_quantity(inventory.sale(record).held(record.code@)) == held_quantity(
            inventory.held(record.code@),
        ) - record.volume,
        inventory.sale(record).transactions.last().fulfillments matches Some(rows)
            && total_quantity(rows) == record.volume,
        forall|code: Seq<char>|
            code != record.code@ ==> inventory.sale(record).held(code) == inventory.held(code),
{
    lemma_quantity_conserved(
        inventory.held(record.code@),
        record.volume,
        record.date,
        record.price,
        record.fee,
    );
}

/// Every sale is first in, first out. Its rows follow the lots of its instrument from the
/// oldest on, one row to a lot, so they come in date order; the first row is drawn from
/// the lot acquired earliest of all that are held, and no row but the last leaves anything
/// of its lot.
pub proof fn lemma_sale_first_in_first_out(inventory: InventoryView, record: TradingRecord)
    requires
        inventory.wf(),
        inventory.rejects_sale(record) is None,
    ensures
        ({
            let lots = inventory.held(record.code@);
            let rows = inventory.sale_rows(record);
            &&& inventory.sale(record).transactions.last().fulfillments == Some(rows)
            &&& 1 <= rows.len() <= lots.len()
            &&& rows[0].quantity == draw(lots[0], record.volume)
            &&& forall|j: int|
                0 <= j < lots.len() ==> rows[0].date_purchased.timestamp() <= (
                #[trigger] lots[j]).date_acquired.timestamp()
            &&& forall|i: int|
                0 <= i < rows.len() ==> (#[trigger] rows[i]).date_purchased
                    == lots[i].date_acquired && rows[i].purchase_price == lots[i].price
            &&& forall|i: int|
                0 <= i < rows.len() - 1 ==> (#[trigger] rows[i]).quantity == lots[i].quantity
            &&& forall|i: int, j: int|
                0 <= i <= j < rows.len() ==> rows[i].date_purchased.timestamp()
                    <= rows[j].date_purchased.timestamp()
        }),
{
    let lots = inventory.held(record.code@);
    let rows = inventory.sale_rows(record);
    lemma_first_in_first_out(lots, record.volume, record.date, record.price, record.fee);
    assert forall|i: int, j: int|
        0 <= i <= j < rows.len() implies rows[i].date_purchased.timestamp()
        <= rows[j].date_purchased.timestamp() by {
        assert(rows[i].date_purchased == lots[i].date_acquired);
        assert(rows[j].date_purchased == lots[j].date_acquired);
    }
}

/// An event that is not turned down leaves the inventory in good standing.
pub proof fn lemma_apply_wf(inventory: InventoryView, record: TradingRecord)
    requires
        inventory.wf(),
        inventory.rejects(record) is None,
    ensures
        inventory.apply(record).wf(),
{
    let after = inventory.apply(record);
    let held = inventory.held(record.code@);
    let entry = after.transactions.last();
    match record.buy_or_sell {
        TradeType::BUY => {
            let lot = InventoryItem {
                date_acquired: record.date,
                quantity: record.volume,
                price: record.price,
                remaining_fee: record.fee,
            };
            lemma_with_lot(held, lot);
        },
        TradeType::SELL => {
            lemma_first_in_first_out(held, record.volume, record.date, record.price, record.fee);
            lemma_quantity_conserved(held, record.volume, record.date, record.price, record.fee);
            lemma_fees_conserved(held, record.volume, record.date, record.price, record.fee);
        },
        TradeType::DIV => {},
    }
    assert(after.transactions.drop_last() =~= inventory.transactions);
    assert forall|code: Seq<char>| #[trigger] after.balanced(code) by {
        assert(inventory.balanced(code));
    }
    assert forall|year: i32|
        (#[trigger] after.fy_profit.dom().contains(year) <==> has_realized(
            after.transactions,
            year,
        )) && (after.fy_profit.dom().contains(year) ==> after.fy_profit[year] == realized_profit(
            after.transactions,
            year,
        )) by {
        lemma_log_push(inventory.transactions, entry, year);
        lemma_profit_additivity(inventory, year);
    }
}

/// An event that is not turned down adds one entry to the end of the log, which says what
/// the event said; the entries before it stay as they were.
pub proof fn lemma_one_entry_per_event(inventory: InventoryView, record: TradingRecord)
    requires
        inventory.rejects(record) is None,
    ensures
        ({
            let after = inventory.apply(record);
            let entry = after.transactions.last();
            &&& after.transactions.len() == inventory.transactions.len() + 1
            &&& after.transactions.drop_last() == inventory.transactions
            &&& entry.trade_type == record.buy_or_sell
            &&& entry.date == record.date
            &&& entry.code == record.code@
            &&& entry.quantity == record.volume
            &&& entry.price == record.price
        }),
{
}

/// A sale and a dividend add what they realised to the total of their fiscal year and to no
/// other; a purchase changes no total.
pub proof fn lemma_profit_accumulates(inventory: InventoryView, record: TradingRecord, fy: i32)
    requires
        inventory.wf(),
        inventory.rejects(record) is None,
    ensures
        ({
            let after = inventory.apply(record);
            let entry = after.transactions.last();
            &&& entry.realized_in(fy) ==> after.fy_total(fy) == inventory.fy_total(fy)
                + entry.net_profit
            &&& !entry.realized_in(fy) ==> after.fy_total(fy) == inventory.fy_total(fy)
            &&& entry.realized_in(fy) <==> record.buy_or_sell != TradeType::BUY
                && record.date.fiscal_year() == fy
            &&& record.buy_or_sell == TradeType::BUY ==> after.fy_profit == inventory.fy_profit
        }),
{
    let after = inventory.apply(record);
    lemma_apply_wf(inventory, record);
    lemma_profit_additivity(inventory, fy);
    lemma_profit_additivity(after, fy);
    lemma_log_push(inventory.transactions, after.transactions.last(), fy);
}

/// The inventory that a run of events leaves: each is applied in its turn unless it is
/// turned down.
pub open spec fn replay(events: Seq<TradingRecord>) -> InventoryView
    decreases events.len(),
{
    if events.len() == 0 {
        InventoryView::empty()
    } else {
        let before = replay(events.drop_last());
        if before.rejects(events.last()) is None {
            before.apply(events.last())
        } else {
            before
        }
    }
}

/// Whatever events come in, the inventory stays in good standing, and the total of each
/// fiscal year is the profit of the sales and dividends of that year in the log.
pub proof fn lemma_replay(events: Seq<TradingRecord>, fy: i32)
    ensures
        replay(events).wf(),
        replay(events).fy_total(fy) == realized_profit(replay(events).transactions, fy),
    decreases events.len(),
{
    if events.len() > 0 {
        let before = replay(events.drop_last());
        lemma_replay(events.drop_last(), fy);
        if before.rejects(events.last()) is None {
            lemma_apply_wf(before, events.last());
        }
    }
    lemma_profit_additivity(replay(events), fy);
}

} // verus!

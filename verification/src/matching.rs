//! Matching a sale against the lots of an instrument, oldest lot first.

use crate::date::TradeDate;
use crate::lots::{
    after_purchases, earliest, held_quantity, lemma_after_purchases, lots_wf,
    outstanding_fees, remove_if_exhausted, InventoryItem,
};
use vstd::prelude::*;

verus! {

/// What one sale took from one lot.
#[derive(Clone, Copy, Debug, PartialEq, Eq, Structural)]
pub struct SellingFulfillment {
    pub date_purchased: TradeDate,
    pub purchase_price: i64,
    /// Units taken from the lot.
    pub quantity: u32,
    /// The purchase fee that this row is charged with.
    pub purchase_fee: i64,
    /// The sale's fee that this row is charged with.
    pub selling_fee: i64,
    /// Seconds from the purchase to the sale.
    pub acquired_duration: i64,
    pub profit: i128,
}

/// A bound on the profit or loss of a sale of `quantity` units: no price or fee reaches
/// 2^63, so no unit can lose or gain more than three times that.
pub open spec fn profit_limit(quantity: int) -> int {
    0x1_8000_0000_0000_0000 * quantity
}

/// The units that a sale still wanting `wanted` takes from `lot`: all it wants, or all
/// there is.
pub open spec fn draw(lot: InventoryItem, wanted: u32) -> u32 {
    if wanted <= lot.quantity {
        wanted
    } else {
        lot.quantity
    }
}

/// The purchase fee that a lot hands on to the sale that draws on it.
pub open spec fn attributed_fee(lot: InventoryItem) -> i64 {
    if lot.remaining_fee > 0 {
        lot.remaining_fee
    } else {
        0
    }
}

/// The profit of a row: what the units gained in price, less the fees charged to the row.
pub open spec fn row_profit(
    quantity: u32,
    price: i64,
    purchase_price: i64,
    purchase_fee: i64,
    selling_fee: i64,
) -> int {
    quantity * (price - purchase_price) - purchase_fee - selling_fee
}

/// The row for `taken` units drawn from `lot` by a sale at `date` for `price` a unit,
/// where `selling_fee` is the part of the sale's fee that falls on this row.
pub open spec fn fulfillment(
    lot: InventoryItem,
    taken: u32,
    date: TradeDate,
    price: i64,
    selling_fee: i64,
) -> SellingFulfillment {
    SellingFulfillment {
        date_purchased: lot.date_acquired,
        purchase_price: lot.price,
        quantity: taken,
        purchase_fee: attributed_fee(lot),
        selling_fee,
        acquired_duration: (date.timestamp() - lot.date_acquired.timestamp()) as i64,
        profit: row_profit(taken, price, lot.price, attributed_fee(lot), selling_fee) as i128,
    }
}

/// A lot after a sale took `taken` of its units: its fee has gone to that sale.
pub open spec fn drawn_down(lot: InventoryItem, taken: u32) -> InventoryItem {
    InventoryItem {
        date_acquired: lot.date_acquired,
        quantity: (lot.quantity - taken) as u32,
        price: lot.price,
        remaining_fee: 0,
    }
}

/// The rows of a sale of `wanted` units at `date` for `price` a unit: lot after lot from
/// the front, each drawn on for all the sale still wants or all it holds. The sale's whole
/// fee falls on the first row.
pub open spec fn fulfill(
    lots: Seq<InventoryItem>,
    wanted: u32,
    date: TradeDate,
    price: i64,
    selling_fee: i64,
) -> Seq<SellingFulfillment>
    decreases lots.len(),
{
    if wanted == 0 || lots.len() == 0 {
        Seq::empty()
    } else {
        let taken = draw(lots[0], wanted);
        seq![fulfillment(lots[0], taken, date, price, selling_fee)] + fulfill(
            lots.drop_first(),
            (wanted - taken) as u32,
            date,
            price,
            0,
        )
    }
}

/// The lots that a sale of `wanted` units leaves: emptied lots are gone, and a lot drawn
/// on in part stays in front with what it still holds.
pub open spec fn remaining(lots: Seq<InventoryItem>, wanted: u32) -> Seq<InventoryItem>
    decreases lots.len(),
{
    if wanted == 0 || lots.len() == 0 {
        lots
    } else if wanted < lots[0].quantity {
        lots.update(0, drawn_down(lots[0], wanted))
    } else {
        remaining(lots.drop_first(), (wanted - lots[0].quantity) as u32)
    }
}

/// The units that the rows took.
pub open spec fn total_quantity(rows: Seq<SellingFulfillment>) -> nat
    decreases rows.len(),
{
    if rows.len() == 0 {
        0
    } else {
        rows[0].quantity as nat + total_quantity(rows.drop_first())
    }
}

/// The profit of all rows together.
pub open spec fn total_profit(rows: Seq<SellingFulfillment>) -> int
    decreases rows.len(),
{
    if rows.len() == 0 {
        0
    } else {
        rows[0].profit + total_profit(rows.drop_first())
    }
}

/// The purchase fees that the rows are charged with.
pub open spec fn attributed_fees(rows: Seq<SellingFulfillment>) -> int
    decreases rows.len(),
{
    if rows.len() == 0 {
        0
    } else {
        rows[0].purchase_fee + attributed_fees(rows.drop_first())
    }
}

/// A row's profit lies within the limit for the units it took.
pub proof fn lemma_row_profit_bounds(
    quantity: u32,
    price: i64,
    purchase_price: i64,
    purchase_fee: i64,
    selling_fee: i64,
)
    requires
        quantity >= 1,
        price >= 0,
        purchase_price >= 0,
        purchase_fee >= 0,
        selling_fee >= 0,
    ensures
        -0x8000_0000_0000_0000 * quantity <= quantity * (price - purchase_price)
            <= 0x8000_0000_0000_0000 * quantity,
        -profit_limit(quantity as int) <= row_profit(
            quantity,
            price,
            purchase_price,
            purchase_fee,
            selling_fee,
        ) <= profit_limit(quantity as int),
{
    let gain: int = price - purchase_price;
    let count: int = quantity as int;
    assert(-0x8000_0000_0000_0000 * count <= count * gain <= 0x8000_0000_0000_0000 * count)
        by (nonlinear_arith)
        requires
            count >= 1,
            -0x8000_0000_0000_0000 <= gain <= 0x8000_0000_0000_0000,
    ;
}

/// What a row says is exact: its profit is what the units gained less the fees charged to
/// it, and its holding time is the seconds from the purchase to the sale. Nothing is cut
/// to fit.
pub proof fn lemma_fulfillment_exact(
    lot: InventoryItem,
    taken: u32,
    date: TradeDate,
    price: i64,
    selling_fee: i64,
)
    requires
        date.within_calendar(),
        lot.date_acquired.within_calendar(),
    ensures
        fulfillment(lot, taken, date, price, selling_fee).profit == row_profit(
            taken,
            price,
            lot.price,
            attributed_fee(lot),
            selling_fee,
        ),
        fulfillment(lot, taken, date, price, selling_fee).acquired_duration == date.timestamp()
            - lot.date_acquired.timestamp(),
{
    let gain: int = price - lot.price;
    let count: int = taken as int;
    assert(-0x1_0000_0000_0000_0000_0000_0000 <= count * gain
        <= 0x1_0000_0000_0000_0000_0000_0000) by (nonlinear_arith)
        requires
            0 <= count <= 0xffff_ffff,
            -0x1_0000_0000_0000_0000 <= gain <= 0x1_0000_0000_0000_0000,
    ;
}

/// Adding a row at the end adds its profit to the total.
pub proof fn lemma_total_profit_push(rows: Seq<SellingFulfillment>, row: SellingFulfillment)
    ensures
        total_profit(rows.push(row)) == total_profit(rows) + row.profit,
    decreases rows.len(),
{
    if rows.len() == 0 {
        assert(total_profit(rows.push(row).drop_first()) == 0);
    } else {
        assert(rows.push(row).drop_first() =~= rows.drop_first().push(row));
        lemma_total_profit_push(rows.drop_first(), row);
    }
}

/// The part of the sale's fee that falls on row `i`: all of it on the first row.
pub open spec fn selling_fee_of_row(i: int, selling_fee: i64) -> i64 {
    if i == 0 {
        selling_fee
    } else {
        0
    }
}

/// A sale takes exactly the units it asks for, and the lots hold that many fewer
/// afterwards.
pub proof fn lemma_quantity_conserved(
    lots: Seq<InventoryItem>,
    wanted: u32,
    date: TradeDate,
    price: i64,
    selling_fee: i64,
)
    requires
        wanted <= held_quantity(lots),
    ensures
        total_quantity(fulfill(lots, wanted, date, price, selling_fee)) == wanted,
        held_quantity(remaining(lots, wanted)) == held_quantity(lots) - wanted,
    decreases lots.len(),
{
    if wanted > 0 && lots.len() > 0 {
        let taken = draw(lots[0], wanted);
        let rest = lots.drop_first();
        let rows = fulfill(lots, wanted, date, price, selling_fee);
        lemma_quantity_conserved(rest, (wanted - taken) as u32, date, price, 0);
        assert(rows.drop_first() =~= fulfill(rest, (wanted - taken) as u32, date, price, 0));
        if wanted < lots[0].quantity {
            assert(remaining(lots, wanted).drop_first() =~= rest);
        }
    }
}

/// First in, first out. The rows of a sale follow the lots from the front, one row to a
/// lot: row `i` is drawn from lot `i`, carries that lot's outstanding fee, and takes at
/// least one unit. Every lot but the last one drawn on is emptied, so the first row takes
/// all the sale wants or all the oldest lot holds. What the sale leaves is the untouched
/// lots behind the last row's lot, with that lot in front of them, drawn down, where it
/// was not emptied; they are in date order still.
pub proof fn lemma_first_in_first_out(
    lots: Seq<InventoryItem>,
    wanted: u32,
    date: TradeDate,
    price: i64,
    selling_fee: i64,
)
    requires
        lots_wf(lots),
        wanted <= held_quantity(lots),
    ensures
        ({
            let rows = fulfill(lots, wanted, date, price, selling_fee);
            let left = remaining(lots, wanted);
            let last = rows.len() - 1;
            &&& rows.len() <= lots.len()
            &&& wanted >= 1 ==> rows.len() >= 1 && rows[0].quantity == draw(lots[0], wanted)
            &&& forall|i: int|
                0 <= i < rows.len() ==> #[trigger] rows[i] == fulfillment(
                    lots[i],
                    rows[i].quantity,
                    date,
                    price,
                    selling_fee_of_row(i, selling_fee),
                )
            &&& forall|i: int|
                0 <= i < rows.len() ==> 1 <= (#[trigger] rows[i]).quantity <= lots[i].quantity
                    && rows[i].purchase_fee == lots[i].remaining_fee
            &&& forall|i: int|
                0 <= i < last ==> (#[trigger] rows[i]).quantity == lots[i].quantity
            &&& rows.len() == 0 ==> left == lots
            &&& rows.len() >= 1 && rows[last].quantity < lots[last].quantity ==> left
                == lots.subrange(last, lots.len() as int).update(
                0,
                drawn_down(lots[last], rows[last].quantity),
            )
            &&& rows.len() >= 1 && rows[last].quantity == lots[last].quantity ==> left
                == lots.subrange(last + 1, lots.len() as int)
            &&& lots_wf(left)
        }),
    decreases lots.len(),
{
    if wanted > 0 && lots.len() > 0 {
        let taken = draw(lots[0], wanted);
        let rows = fulfill(lots, wanted, date, price, selling_fee);
        let rest = lots.drop_first();
        let more = fulfill(rest, (wanted - taken) as u32, date, price, 0);
        lemma_first_in_first_out(rest, (wanted - taken) as u32, date, price, 0);
        assert(rows =~= seq![fulfillment(lots[0], taken, date, price, selling_fee)] + more);
    }
}

/// After any run of purchases, a sale of no more than is held draws first on the lot
/// acquired earliest of them all, and takes all it wants from that lot or all the lot
/// holds.
pub proof fn lemma_earliest_lot_drawn_first(
    purchases: Seq<InventoryItem>,
    wanted: u32,
    date: TradeDate,
    price: i64,
    selling_fee: i64,
)
    requires
        forall|k: int| 0 <= k < purchases.len() ==> (#[trigger] purchases[k]).wf(),
        1 <= wanted <= held_quantity(purchases),
    ensures
        ({
            let lots = after_purchases(purchases);
            let rows = fulfill(lots, wanted, date, price, selling_fee);
            &&& rows.len() >= 1
            &&& purchases.contains(lots[0])
            &&& rows[0].date_purchased == lots[0].date_acquired
            &&& rows[0].purchase_price == lots[0].price
            &&& forall|k: int|
                0 <= k < purchases.len() ==> rows[0].date_purchased.timestamp() <= (
                #[trigger] purchases[k]).date_acquired.timestamp()
            &&& rows[0].quantity == wanted || rows[0].quantity == lots[0].quantity
            &&& forall|i: int|
                0 <= i < rows.len() - 1 ==> (#[trigger] rows[i]).quantity == lots[i].quantity
        }),
{
    let lots = after_purchases(purchases);
    let rows = fulfill(lots, wanted, date, price, selling_fee);
    lemma_after_purchases(purchases);
    lemma_first_in_first_out(lots, wanted, date, price, selling_fee);
    assert forall|k: int| 0 <= k < purchases.len() implies rows[0].date_purchased.timestamp() <= (
    #[trigger] purchases[k]).date_acquired.timestamp() by {
        assert(purchases.contains(purchases[k]));
        let j = choose|j: int| 0 <= j < lots.len() && lots[j] == purchases[k];
        assert(lots[0].date_acquired.timestamp() <= lots[j].date_acquired.timestamp());
    }
}

/// No purchase fee is charged twice or lost: what a sale's rows are charged with and what
/// the lots still carry afterwards is what the lots carried before.
pub proof fn lemma_fees_conserved(
    lots: Seq<InventoryItem>,
    wanted: u32,
    date: TradeDate,
    price: i64,
    selling_fee: i64,
)
    requires
        lots_wf(lots),
        wanted <= held_quantity(lots),
    ensures
        attributed_fees(fulfill(lots, wanted, date, price, selling_fee)) + outstanding_fees(
            remaining(lots, wanted),
        ) == outstanding_fees(lots),
    decreases lots.len(),
{
    if wanted > 0 && lots.len() > 0 {
        let taken = draw(lots[0], wanted);
        let rest = lots.drop_first();
        let rows = fulfill(lots, wanted, date, price, selling_fee);
        lemma_fees_conserved(rest, (wanted - taken) as u32, date, price, 0);
        assert(rows.drop_first() =~= fulfill(rest, (wanted - taken) as u32, date, price, 0));
        if wanted < lots[0].quantity {
            assert(remaining(lots, wanted).drop_first() =~= rest);
        }
    }
}

/// A lot's purchase fee is charged once in the lot's life. Where a sale takes only a part
/// of the last lot it draws on, its row carries the lot's whole fee; the next sale draws
/// on that same lot first, and its row carries none.
pub proof fn lemma_fee_charged_once(
    lots: Seq<InventoryItem>,
    first: u32,
    second: u32,
    first_date: TradeDate,
    first_price: i64,
    first_fee: i64,
    second_date: TradeDate,
    second_price: i64,
    second_fee: i64,
)
    requires
        lots_wf(lots),
        1 <= first,
        1 <= second,
        first + second <= held_quantity(lots),
    ensures
        ({
            let once = fulfill(lots, first, first_date, first_price, first_fee);
            let left = remaining(lots, first);
            let again = fulfill(left, second, second_date, second_price, second_fee);
            let last = once.len() - 1;
            &&& once.len() >= 1
            &&& again.len() >= 1
            &&& once[last].date_purchased == lots[last].date_acquired
            &&& once[last].purchase_fee == lots[last].remaining_fee
            &&& once[last].quantity < lots[last].quantity ==> {
                &&& again[0].date_purchased == lots[last].date_acquired
                &&& again[0].purchase_price == lots[last].price
                &&& again[0].purchase_fee == 0
            }
            &&& once[last].quantity == lots[last].quantity ==> {
                &&& again[0].date_purchased == lots[last + 1].date_acquired
                &&& again[0].purchase_price == lots[last + 1].price
                &&& again[0].purchase_fee == lots[last + 1].remaining_fee
            }
        }),
{
    let left = remaining(lots, first);
    lemma_first_in_first_out(lots, first, first_date, first_price, first_fee);
    lemma_quantity_conserved(lots, first, first_date, first_price, first_fee);
    lemma_first_in_first_out(left, second, second_date, second_price, second_fee);
}

/// Works out the rows of a sale and their total profit. The lots stay as they are.
pub fn fulfill_sale(
    items: &Vec<InventoryItem>,
    quantity: u32,
    date: TradeDate,
    price: i64,
    fee: i64,
) -> (out: (Vec<SellingFulfillment>, i128))
    requires
        lots_wf(items@),
        quantity <= held_quantity(items@),
        price >= 0,
        fee >= 0,
    ensures
        out.0@ == fulfill(items@, quantity, date, price, fee),
        out.1 == total_profit(out.0@),
        -profit_limit(quantity as int) <= out.1 <= profit_limit(quantity as int),
{
    let mut rows: Vec<SellingFulfillment> = Vec::new();
    let mut net: i128 = 0;
    let mut wanted: u32 = quantity;
    let mut selling_fee: i64 = fee;
    let mut i: usize = 0;
    assert(items@.subrange(0, items.len() as int) =~= items@);
    while wanted > 0
        invariant
            i <= items.len(),
            lots_wf(items@),
            price >= 0,
            selling_fee >= 0,
            wanted <= quantity,
            wanted <= held_quantity(items@.subrange(i as int, items.len() as int)),
            rows@ + fulfill(
                items@.subrange(i as int, items.len() as int),
                wanted,
                date,
                price,
                selling_fee,
            ) == fulfill(items@, quantity, date, price, fee),
            net == total_profit(rows@),
            -profit_limit(quantity - wanted) <= net <= profit_limit(quantity - wanted),
        decreases items.len() - i,
    {
        let ghost rest = items@.subrange(i as int, items.len() as int);
        assert(rest.drop_first() =~= items@.subrange(i + 1, items.len() as int));
        let lot = items[i];
        let taken: u32 = if wanted <= lot.quantity {
            wanted
        } else {
            lot.quantity
        };
        let purchase_fee: i64 = if lot.remaining_fee > 0 {
            lot.remaining_fee
        } else {
            0
        };
        proof {
            lemma_row_profit_bounds(taken, price, lot.price, purchase_fee, selling_fee);
            lemma_total_profit_push(
                rows@,
                fulfillment(lot, taken, date, price, selling_fee),
            );
        }
        let gain: i128 = price as i128 - lot.price as i128;
        let profit: i128 = taken as i128 * gain - purchase_fee as i128 - selling_fee as i128;
        let row = SellingFulfillment {
            date_purchased: lot.date_acquired,
            purchase_price: lot.price,
            quantity: taken,
            purchase_fee,
            selling_fee,
            acquired_duration: date.timestamp() - lot.date_acquired.timestamp(),
            profit,
        };
        rows.push(row);
        net = net + profit;
        wanted = wanted - taken;
        selling_fee = 0;
        i = i + 1;
    }
    (rows, net)
}

/// Takes `quantity` units out of the lots, oldest first: each lot in its turn gives all
/// that is still wanted or all it holds, hands on its fee, and goes once it is empty.
pub fn consume(items: &mut Vec<InventoryItem>, quantity: u32)
    requires
        lots_wf(old(items)@),
        quantity <= held_quantity(old(items)@),
    ensures
        final(items)@ == remaining(old(items)@, quantity),
{
    let mut wanted: u32 = quantity;
    while wanted > 0
        invariant
            lots_wf(items@),
            wanted <= held_quantity(items@),
            remaining(items@, wanted) == remaining(old(items)@, quantity),
        decreases wanted,
    {
        let ghost before = items@;
        let mut taken: u32 = 0;
        if let Some(lot) = earliest(items) {
            taken = if wanted <= lot.quantity {
                wanted
            } else {
                lot.quantity
            };
            lot.quantity = lot.quantity - taken;
            if lot.remaining_fee > 0 {
                lot.remaining_fee = 0;
            }
        }
        remove_if_exhausted(items);
        wanted = wanted - taken;
        proof {
            lemma_first_in_first_out(before, taken, before[0].date_acquired, 0, 0);
            lemma_quantity_conserved(before, taken, before[0].date_acquired, 0, 0);
            if taken == before[0].quantity {
                assert(remaining(before.drop_first(), 0) == before.drop_first());
            }
            assert(items@ == remaining(before, taken));
        }
    }
}

} // verus!

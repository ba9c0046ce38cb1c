//! The lots held of one instrument: what was bought and is not yet sold, oldest first.

use crate::date::TradeDate;
use vstd::prelude::*;

verus! {

/// One purchase, or what is left of it.
///
/// Money is counted in whole minor units of the currency.
#[derive(Clone, Copy, Debug, PartialEq, Eq, Structural)]
pub struct InventoryItem {
    pub date_acquired: TradeDate,
    /// Units not yet sold.
    pub quantity: u32,
    /// Price paid per unit.
    pub price: i64,
    /// The part of the purchase fee that no sale has been charged with yet.
    pub remaining_fee: i64,
}

impl InventoryItem {
    /// A lot in the ledger still holds something, and neither its price nor its fee is
    /// negative.
    pub open spec fn wf(self) -> bool {
        &&& self.quantity >= 1
        &&& self.price >= 0
        &&& self.remaining_fee >= 0
    }
}

/// No lot was acquired before one that stands in front of it.
pub open spec fn in_date_order(lots: Seq<InventoryItem>) -> bool {
    forall|i: int, j: int|
        0 <= i <= j < lots.len() ==> lots[i].date_acquired.timestamp()
            <= lots[j].date_acquired.timestamp()
}

/// What holds of the lots of an instrument at all times.
pub open spec fn lots_wf(lots: Seq<InventoryItem>) -> bool {
    &&& in_date_order(lots)
    &&& forall|i: int| 0 <= i < lots.len() ==> (#[trigger] lots[i]).wf()
}

/// The units held over all lots.
pub open spec fn held_quantity(lots: Seq<InventoryItem>) -> nat
    decreases lots.len(),
{
    if lots.len() == 0 {
        0
    } else {
        lots[0].quantity as nat + held_quantity(lots.drop_first())
    }
}

/// The purchase fees that no sale has been charged with yet, over all lots.
pub open spec fn outstanding_fees(lots: Seq<InventoryItem>) -> int
    decreases lots.len(),
{
    if lots.len() == 0 {
        0
    } else {
        lots[0].remaining_fee + outstanding_fees(lots.drop_first())
    }
}

/// Where a lot acquired at `date` goes: in front of the first lot acquired strictly
/// later, and behind all lots if there is none.
pub open spec fn insert_position(lots: Seq<InventoryItem>, date: TradeDate) -> int
    decreases lots.len(),
{
    if lots.len() == 0 || date.timestamp() < lots[0].date_acquired.timestamp() {
        0
    } else {
        1 + insert_position(lots.drop_first(), date)
    }
}

/// The lots after `lot` has joined them.
pub open spec fn with_lot(lots: Seq<InventoryItem>, lot: InventoryItem) -> Seq<InventoryItem> {
    lots.insert(insert_position(lots, lot.date_acquired), lot)
}

/// The insert position is the first one whose lot is strictly younger than `date`: no lot
/// in front of it is, and the lot at it, if there is one, is.
pub proof fn lemma_insert_position(lots: Seq<InventoryItem>, date: TradeDate)
    ensures
        0 <= insert_position(lots, date) <= lots.len(),
        forall|i: int|
            0 <= i < insert_position(lots, date) ==> lots[i].date_acquired.timestamp()
                <= date.timestamp(),
        insert_position(lots, date) < lots.len() ==> date.timestamp()
            < lots[insert_position(lots, date)].date_acquired.timestamp(),
    decreases lots.len(),
{
    if lots.len() > 0 && date.timestamp() >= lots[0].date_acquired.timestamp() {
        let rest = lots.drop_first();
        lemma_insert_position(rest, date);
        assert forall|i: int|
            0 <= i < insert_position(lots, date) implies lots[i].date_acquired.timestamp()
            <= date.timestamp() by {
            if i > 0 {
                assert(lots[i] == rest[i - 1]);
            }
        }
    }
}

/// A new lot keeps the lots in date order and in good standing, and it comes to stand
/// behind every lot that is as old as it or older.
pub proof fn lemma_with_lot(lots: Seq<InventoryItem>, lot: InventoryItem)
    requires
        lots_wf(lots),
        lot.wf(),
    ensures
        lots_wf(with_lot(lots, lot)),
        with_lot(lots, lot).len() == lots.len() + 1,
        held_quantity(with_lot(lots, lot)) == held_quantity(lots) + lot.quantity,
        outstanding_fees(with_lot(lots, lot)) == outstanding_fees(lots) + lot.remaining_fee,
        forall|i: int|
            0 <= i < lots.len() && lots[i].date_acquired.timestamp()
                <= lot.date_acquired.timestamp() ==> i < insert_position(
                lots,
                lot.date_acquired,
            ) && with_lot(lots, lot)[i] == lots[i],
{
    let at = insert_position(lots, lot.date_acquired);
    lemma_insert_position(lots, lot.date_acquired);
    lemma_held_quantity_insert(lots, at, lot);
    lemma_outstanding_fees_insert(lots, at, lot);
}

/// Inserting a lot anywhere adds its units to those held.
pub proof fn lemma_held_quantity_insert(lots: Seq<InventoryItem>, at: int, lot: InventoryItem)
    requires
        0 <= at <= lots.len(),
    ensures
        held_quantity(lots.insert(at, lot)) == held_quantity(lots) + lot.quantity,
    decreases lots.len(),
{
    let after = lots.insert(at, lot);
    if at == 0 {
        assert(after.drop_first() =~= lots);
    } else {
        assert(after.drop_first() =~= lots.drop_first().insert(at - 1, lot));
        lemma_held_quantity_insert(lots.drop_first(), at - 1, lot);
    }
}

/// Inserting a lot anywhere adds its fee to those outstanding.
pub proof fn lemma_outstanding_fees_insert(lots: Seq<InventoryItem>, at: int, lot: InventoryItem)
    requires
        0 <= at <= lots.len(),
    ensures
        outstanding_fees(lots.insert(at, lot)) == outstanding_fees(lots) + lot.remaining_fee,
    decreases lots.len(),
{
    let after = lots.insert(at, lot);
    if at == 0 {
        assert(after.drop_first() =~= lots);
    } else {
        assert(after.drop_first() =~= lots.drop_first().insert(at - 1, lot));
        lemma_outstanding_fees_insert(lots.drop_first(), at - 1, lot);
    }
}

/// The lots that a run of purchases builds up, each joining in its turn.
pub open spec fn after_purchases(purchases: Seq<InventoryItem>) -> Seq<InventoryItem>
    decreases purchases.len(),
{
    if purchases.len() == 0 {
        Seq::empty()
    } else {
        with_lot(after_purchases(purchases.drop_last()), purchases.last())
    }
}

/// Whatever order purchases arrive in, the lots they build up are in date order, and they
/// are those purchases and nothing else.
pub proof fn lemma_after_purchases(purchases: Seq<InventoryItem>)
    requires
        forall|k: int| 0 <= k < purchases.len() ==> (#[trigger] purchases[k]).wf(),
    ensures
        lots_wf(after_purchases(purchases)),
        after_purchases(purchases).len() == purchases.len(),
        held_quantity(after_purchases(purchases)) == held_quantity(purchases),
        forall|lot: InventoryItem|
            after_purchases(purchases).contains(lot) <==> purchases.contains(lot),
    decreases purchases.len(),
{
    if purchases.len() > 0 {
        let earlier = purchases.drop_last();
        let newest = purchases.last();
        let before = after_purchases(earlier);
        let after = after_purchases(purchases);
        let at = insert_position(before, newest.date_acquired);
        lemma_after_purchases(earlier);
        lemma_with_lot(before, newest);
        lemma_held_quantity_insert(earlier, earlier.len() as int, newest);
        assert(earlier.insert(earlier.len() as int, newest) =~= purchases);
        lemma_insert_position(before, newest.date_acquired);
        lemma_insert_contains(before, at, newest);
        lemma_insert_contains(earlier, earlier.len() as int, newest);
        assert forall|lot: InventoryItem| after.contains(lot) <==> purchases.contains(
            lot,
        ) by {
            assert(earlier.insert(earlier.len() as int, newest).contains(lot)
                <==> earlier.contains(lot) || lot == newest);
        }
    }
}

/// A sequence with one more item holds that item and what it held before.
pub proof fn lemma_insert_contains(lots: Seq<InventoryItem>, at: int, lot: InventoryItem)
    requires
        0 <= at <= lots.len(),
    ensures
        forall|other: InventoryItem|
            lots.insert(at, lot).contains(other) <==> lots.contains(other) || other == lot,
{
    let after = lots.insert(at, lot);
    assert forall|other: InventoryItem| after.contains(other) <==> lots.contains(other) || other
        == lot by {
        if after.contains(other) {
            let j = choose|j: int| 0 <= j < after.len() && after[j] == other;
            if j < at {
                assert(lots[j] == other);
            } else if j > at {
                assert(lots[j - 1] == other);
            }
        }
        if lots.contains(other) {
            let j = choose|j: int| 0 <= j < lots.len() && lots[j] == other;
            if j < at {
                assert(after[j] == other);
            } else {
                assert(after[j + 1] == other);
            }
        }
        if other == lot {
            assert(after[at] == other);
        }
    }
}

/// Puts `lot` among `items` at its place in date order.
pub fn insert_lot(items: &mut Vec<InventoryItem>, lot: InventoryItem)
    ensures
        final(items)@ == with_lot(old(items)@, lot),
{
    let mut i: usize = 0;
    assert(items@.subrange(0, items.len() as int) =~= items@);
    while i < items.len() && lot.date_acquired.timestamp() >= items[i].date_acquired.timestamp()
        invariant
            i <= items.len(),
            i + insert_position(items@.subrange(i as int, items.len() as int), lot.date_acquired)
                == insert_position(items@, lot.date_acquired),
        decreases items.len() - i,
    {
        assert(items@.subrange(i as int, items.len() as int).drop_first() =~= items@.subrange(
            i + 1,
            items.len() as int,
        ));
        i += 1;
    }
    items.insert(i, lot);
}

/// The oldest lot, to read or to change; none where nothing is held.
pub fn earliest(items: &mut Vec<InventoryItem>) -> (lot: Option<&mut InventoryItem>)
    ensures
        old(items)@.len() == 0 ==> lot is None && final(items)@ == old(items)@,
        old(items)@.len() > 0 ==> {
            &&& lot matches Some(first)
            &&& *first == old(items)@[0]
            &&& final(items)@ == old(items)@.update(0, *final(first))
        },
{
    if items.len() == 0 {
        None
    } else {
        Some(&mut items[0])
    }
}

/// Drops the oldest lot if nothing is left of it.
pub fn remove_if_exhausted(items: &mut Vec<InventoryItem>)
    ensures
        final(items)@ == if old(items)@.len() > 0 && old(items)@[0].quantity == 0 {
            old(items)@.drop_first()
        } else {
            old(items)@
        },
{
    if items.len() > 0 && items[0].quantity == 0 {
        items.remove(0);
    }
}

/// Whether the lots hold at least `quantity` units.
pub fn covers(items: &Vec<InventoryItem>, quantity: u32) -> (enough: bool)
    ensures
        enough == (held_quantity(items@) >= quantity),
{
    let mut i: usize = 0;
    let mut seen: u64 = 0;
    assert(items@.subrange(0, items.len() as int) =~= items@);
    while i < items.len() && seen < quantity as u64
        invariant
            i <= items.len(),
            seen <= 2 * (u32::MAX as u64),
            seen + held_quantity(items@.subrange(i as int, items.len() as int))
                == held_quantity(items@),
        decreases items.len() - i,
    {
        assert(items@.subrange(i as int, items.len() as int).drop_first() =~= items@.subrange(
            i + 1,
            items.len() as int,
        ));
        seen += items[i].quantity as u64;
        i += 1;
    }
    seen >= quantity as u64
}

} // verus!

use chrono::NaiveDate;
use lot_ledger::date::TradeDate;
use lot_ledger::lots::{covers, earliest, insert_lot, remove_if_exhausted, InventoryItem};
use lot_ledger::matching::{consume, fulfill_sale, SellingFulfillment};

fn day(year: i32, month: u32, day: u32) -> TradeDate {
    let instant = NaiveDate::from_ymd_opt(year, month, day)
        .unwrap()
        .and_hms_opt(0, 0, 0)
        .unwrap()
        .and_utc()
        .timestamp();
    TradeDate::from_timestamp(instant).unwrap()
}

fn lot(date: TradeDate, quantity: u32, price: i64, fee: i64) -> InventoryItem {
    InventoryItem { date_acquired: date, quantity, price, remaining_fee: fee }
}

fn prices(items: &Vec<InventoryItem>) -> Vec<i64> {
    items.iter().map(|item| item.price).collect()
}

#[test]
fn a_lot_goes_behind_older_lots_and_before_younger_ones() {
    let mut items = Vec::new();
    insert_lot(&mut items, lot(day(2022, 3, 1), 10, 3, 0));
    insert_lot(&mut items, lot(day(2022, 1, 1), 10, 1, 0));
    insert_lot(&mut items, lot(day(2022, 2, 1), 10, 2, 0));
    insert_lot(&mut items, lot(day(2022, 4, 1), 10, 4, 0));
    assert_eq!(prices(&items), vec![1, 2, 3, 4]);
}

#[test]
fn a_lot_goes_behind_lots_of_the_same_date() {
    let mut items = Vec::new();
    insert_lot(&mut items, lot(day(2022, 1, 1), 10, 1, 0));
    insert_lot(&mut items, lot(day(2022, 2, 1), 10, 2, 0));
    insert_lot(&mut items, lot(day(2022, 1, 1), 10, 3, 0));
    insert_lot(&mut items, lot(day(2022, 2, 1), 10, 4, 0));
    insert_lot(&mut items, lot(day(2022, 1, 1), 10, 5, 0));
    assert_eq!(prices(&items), vec![1, 3, 5, 2, 4]);
}

#[test]
fn covers_counts_all_lots() {
    let mut items = Vec::new();
    assert!(covers(&items, 0));
    assert!(!covers(&items, 1));
    insert_lot(&mut items, lot(day(2022, 1, 1), 10, 1, 0));
    insert_lot(&mut items, lot(day(2022, 2, 1), 5, 2, 0));
    assert!(covers(&items, 1));
    assert!(covers(&items, 15));
    assert!(!covers(&items, 16));
    assert!(!covers(&items, u32::MAX));
}

#[test]
fn covers_does_not_overflow_on_large_lots() {
    let mut items = Vec::new();
    insert_lot(&mut items, lot(day(2022, 1, 1), u32::MAX, 1, 0));
    insert_lot(&mut items, lot(day(2022, 2, 1), u32::MAX, 2, 0));
    insert_lot(&mut items, lot(day(2022, 3, 1), u32::MAX, 3, 0));
    assert!(covers(&items, u32::MAX));
}

#[test]
fn earliest_is_the_lot_in_front() {
    let mut items = Vec::new();
    assert!(earliest(&mut items).is_none());
    insert_lot(&mut items, lot(day(2022, 2, 1), 5, 2, 0));
    insert_lot(&mut items, lot(day(2022, 1, 1), 10, 1, 7));
    let first = earliest(&mut items).unwrap();
    assert_eq!(first.price, 1);
    assert_eq!(first.quantity, 10);
    first.quantity = 4;
    assert_eq!(items[0].quantity, 4);
    assert_eq!(items[1].quantity, 5);
}

#[test]
fn only_an_empty_lot_in_front_is_removed() {
    let mut items = Vec::new();
    remove_if_exhausted(&mut items);
    assert!(items.is_empty());
    insert_lot(&mut items, lot(day(2022, 1, 1), 10, 1, 0));
    insert_lot(&mut items, lot(day(2022, 2, 1), 5, 2, 0));
    remove_if_exhausted(&mut items);
    assert_eq!(prices(&items), vec![1, 2]);
    earliest(&mut items).unwrap().quantity = 0;
    remove_if_exhausted(&mut items);
    assert_eq!(prices(&items), vec![2]);
}

#[test]
fn rows_follow_the_lots_from_the_front() {
    let mut items = Vec::new();
    insert_lot(&mut items, lot(day(2022, 1, 1), 10, 100, 3));
    insert_lot(&mut items, lot(day(2022, 1, 11), 20, 110, 4));
    insert_lot(&mut items, lot(day(2022, 1, 21), 30, 120, 5));
    let (rows, net) = fulfill_sale(&items, 35, day(2022, 1, 31), 150, 9);
    assert_eq!(rows.len(), 3);
    assert_eq!(
        rows.iter().map(|row| (row.quantity, row.purchase_price)).collect::<Vec<_>>(),
        vec![(10, 100), (20, 110), (5, 120)]
    );
    assert_eq!(rows.iter().map(|row| row.purchase_fee).collect::<Vec<_>>(), vec![3, 4, 5]);
    assert_eq!(rows.iter().map(|row| row.selling_fee).collect::<Vec<_>>(), vec![9, 0, 0]);
    assert_eq!(
        rows.iter().map(|row| row.acquired_duration).collect::<Vec<_>>(),
        vec![30 * 86_400, 20 * 86_400, 10 * 86_400]
    );
    assert_eq!(
        rows.iter().map(|row| row.profit).collect::<Vec<_>>(),
        vec![10 * 50 - 3 - 9, 20 * 40 - 4, 5 * 30 - 5]
    );
    assert_eq!(net, 488 + 796 + 145);
    assert_eq!(items.len(), 3);
    assert_eq!(items[0].quantity, 10);
}

#[test]
fn a_sale_of_nothing_has_no_rows() {
    let mut items = Vec::new();
    insert_lot(&mut items, lot(day(2022, 1, 1), 10, 100, 3));
    let (rows, net) = fulfill_sale(&items, 0, day(2022, 1, 31), 150, 9);
    assert!(rows.is_empty());
    assert_eq!(net, 0);
    consume(&mut items, 0);
    assert_eq!(items.len(), 1);
    assert_eq!(items[0].quantity, 10);
    assert_eq!(items[0].remaining_fee, 3);
}

#[test]
fn consumed_lots_go_and_the_last_one_keeps_the_rest() {
    let mut items = Vec::new();
    insert_lot(&mut items, lot(day(2022, 1, 1), 10, 100, 3));
    insert_lot(&mut items, lot(day(2022, 1, 11), 20, 110, 4));
    insert_lot(&mut items, lot(day(2022, 1, 21), 30, 120, 5));
    consume(&mut items, 35);
    assert_eq!(items.len(), 1);
    assert_eq!(items[0].quantity, 25);
    assert_eq!(items[0].price, 120);
    assert_eq!(items[0].remaining_fee, 0);
    assert_eq!(items[0].date_acquired.timestamp(), day(2022, 1, 21).timestamp());
}

#[test]
fn a_sale_that_ends_with_a_lot_leaves_the_next_untouched() {
    let mut items = Vec::new();
    insert_lot(&mut items, lot(day(2022, 1, 1), 10, 100, 3));
    insert_lot(&mut items, lot(day(2022, 1, 11), 20, 110, 4));
    let (rows, _) = fulfill_sale(&items, 10, day(2022, 1, 31), 150, 9);
    assert_eq!(rows.len(), 1);
    consume(&mut items, 10);
    assert_eq!(items.len(), 1);
    assert_eq!(items[0].quantity, 20);
    assert_eq!(items[0].remaining_fee, 4);
}

#[test]
fn the_largest_amounts_fit() {
    let mut items = Vec::new();
    insert_lot(&mut items, lot(day(2022, 1, 1), u32::MAX, i64::MAX, i64::MAX));
    let (rows, net) = fulfill_sale(&items, u32::MAX, day(2022, 1, 31), 0, i64::MAX);
    assert_eq!(rows.len(), 1);
    let expected = -(u32::MAX as i128) * (i64::MAX as i128) - 2 * (i64::MAX as i128);
    assert_eq!(rows[0].profit, expected);
    assert_eq!(net, expected);
    let mut items = Vec::new();
    insert_lot(&mut items, lot(day(2022, 1, 1), u32::MAX, 0, 0));
    let (rows, net) = fulfill_sale(&items, u32::MAX, day(2022, 1, 31), i64::MAX, 0);
    assert_eq!(rows[0].profit, (u32::MAX as i128) * (i64::MAX as i128));
    assert_eq!(net, (u32::MAX as i128) * (i64::MAX as i128));
}

#[test]
fn a_row_says_what_was_taken_and_what_it_gained() {
    let mut items = Vec::new();
    insert_lot(&mut items, lot(day(2022, 1, 10), 100, 1000, 500));
    let (rows, net) = fulfill_sale(&items, 100, day(2022, 3, 1), 1200, 500);
    assert_eq!(
        rows,
        vec![SellingFulfillment {
            date_purchased: day(2022, 1, 10),
            purchase_price: 1000,
            quantity: 100,
            purchase_fee: 500,
            selling_fee: 500,
            acquired_duration: 50 * 86_400,
            profit: 19_000,
        }]
    );
    assert_eq!(net, 19_000);
    consume(&mut items, 100);
    assert!(items.is_empty());
}

#[test]
fn a_lot_drawn_on_keeps_its_date_and_price() {
    let mut items = Vec::new();
    insert_lot(&mut items, lot(day(2022, 1, 10), 100, 1000, 500));
    consume(&mut items, 1);
    assert_eq!(items, vec![lot(day(2022, 1, 10), 99, 1000, 0)]);
    consume(&mut items, 98);
    assert_eq!(items, vec![lot(day(2022, 1, 10), 1, 1000, 0)]);
    consume(&mut items, 1);
    assert_eq!(items, Vec::new());
}

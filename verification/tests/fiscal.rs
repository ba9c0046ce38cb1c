use std::collections::HashMap;

use lot_ledger::fiscal::{accumulate, fiscal_year_of};

#[test]
fn the_first_amount_of_a_fiscal_year_is_its_total() {
    let mut totals = HashMap::new();
    assert!(accumulate(&mut totals, 2022, 190));
    assert_eq!(totals.len(), 1);
    assert_eq!(totals.get(&2022), Some(&190));
}

#[test]
fn later_amounts_are_added_to_the_total() {
    let mut totals = HashMap::new();
    assert!(accumulate(&mut totals, 2022, 190));
    assert!(accumulate(&mut totals, 2022, -365));
    assert!(accumulate(&mut totals, 2023, 50));
    assert!(accumulate(&mut totals, 2022, 5));
    assert_eq!(totals.len(), 2);
    assert_eq!(totals.get(&2022), Some(&-170));
    assert_eq!(totals.get(&2023), Some(&50));
}

#[test]
fn an_amount_of_nothing_still_opens_the_fiscal_year() {
    let mut totals = HashMap::new();
    assert!(accumulate(&mut totals, 2022, 0));
    assert_eq!(totals.get(&2022), Some(&0));
}

#[test]
fn a_total_out_of_range_is_not_stored() {
    let mut totals = HashMap::new();
    assert!(accumulate(&mut totals, 2022, i128::MAX));
    assert!(!accumulate(&mut totals, 2022, 1));
    assert_eq!(totals.get(&2022), Some(&i128::MAX));
    assert!(accumulate(&mut totals, 2022, -1));
    assert_eq!(totals.get(&2022), Some(&(i128::MAX - 1)));
    assert!(accumulate(&mut totals, 2023, i128::MIN));
    assert!(!accumulate(&mut totals, 2023, -1));
    assert_eq!(totals.get(&2023), Some(&i128::MIN));
    assert_eq!(totals.len(), 2);
}

#[test]
fn the_fiscal_year_ends_with_june() {
    assert_eq!(fiscal_year_of(2023, 6), 2023);
    assert_eq!(fiscal_year_of(2023, 7), 2024);
    assert_eq!(fiscal_year_of(2023, 1), 2023);
    assert_eq!(fiscal_year_of(2023, 12), 2024);
    assert_eq!(fiscal_year_of(i32::MAX - 1, 12), i32::MAX);
    assert_eq!(fiscal_year_of(i32::MIN, 12), i32::MIN + 1);
}

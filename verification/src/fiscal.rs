//! Fiscal years: which one a month belongs to, and the profit totalled in each.

use std::collections::HashMap;
use vstd::prelude::*;

verus! {

/// The fiscal year that a calendar month belongs to. Fiscal years run from July to June
/// and carry the number of the calendar year they end in.
pub open spec fn spec_fiscal_year_of(year: i32, month: u32) -> i32 {
    if month < 7 {
        year
    } else {
        (year + 1) as i32
    }
}

/// The fiscal year of a month of a calendar year: that year from January to June, the
/// next one from July to December.
#[verifier::when_used_as_spec(spec_fiscal_year_of)]
pub fn fiscal_year_of(year: i32, month: u32) -> (fy: i32)
    requires
        year < i32::MAX,
    ensures
        fy == spec_fiscal_year_of(year, month),
        month < 7 ==> fy == year,
        month >= 7 ==> fy == year + 1,
{
    if month < 7 {
        year
    } else {
        year + 1
    }
}

/// Whether a fiscal year's total can be stored.
pub open spec fn fits_total(total: int) -> bool {
    i128::MIN <= total <= i128::MAX
}

/// The total of a fiscal year: nothing where none is stored.
pub open spec fn total_of(totals: Map<i32, i128>, fy: i32) -> int {
    if totals.dom().contains(fy) {
        totals[fy] as int
    } else {
        0
    }
}

/// The totals after `amount` has been added to that of fiscal year `fy`.
pub open spec fn accumulated(totals: Map<i32, i128>, fy: i32, amount: int) -> Map<i32, i128> {
    totals.insert(fy, (total_of(totals, fy) + amount) as i128)
}

/// Adds `amount` to the total of fiscal year `fy`, which starts at nothing. Where the sum
/// cannot be stored, nothing changes and the answer is `false`.
pub fn accumulate(totals: &mut HashMap<i32, i128>, fy: i32, amount: i128) -> (stored: bool)
    ensures
        stored == fits_total(total_of(old(totals)@, fy) + amount),
        stored ==> final(totals)@ == accumulated(old(totals)@, fy, amount as int),
        !stored ==> final(totals)@ == old(totals)@,
{
    broadcast use vstd::std_specs::hash::group_hash_axioms;

    let current: i128 = match totals.get(&fy) {
        Some(total) => *total,
        None => 0,
    };
    match current.checked_add(amount) {
        Some(total) => {
            totals.insert(fy, total);
            true
        },
        None => false,
    }
}

} // verus!

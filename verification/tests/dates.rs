use chrono::NaiveDate;
use lot_ledger::date::TradeDate;
use lot_ledger::fiscal::fiscal_year_of;
use lot_ledger::TradeType;

fn at(year: i32, month: u32, day: u32, hour: u32, minute: u32, second: u32) -> TradeDate {
    let instant = NaiveDate::from_ymd_opt(year, month, day)
        .unwrap()
        .and_hms_opt(hour, minute, second)
        .unwrap()
        .and_utc()
        .timestamp();
    TradeDate::from_timestamp(instant).unwrap()
}

#[test]
fn last_day_of_june_is_in_the_fiscal_year_of_its_calendar_year() {
    assert_eq!(at(2023, 6, 30, 0, 0, 0).fiscal_year(), 2023);
}

#[test]
fn first_day_of_july_is_in_the_next_fiscal_year() {
    assert_eq!(at(2023, 7, 1, 0, 0, 0).fiscal_year(), 2024);
}

#[test]
fn fiscal_year_turns_at_midnight() {
    assert_eq!(at(2023, 6, 30, 23, 59, 59).fiscal_year(), 2023);
    assert_eq!(at(2023, 7, 1, 0, 0, 0).timestamp() - at(2023, 6, 30, 23, 59, 59).timestamp(), 1);
}

#[test]
fn first_and_last_day_of_a_calendar_year() {
    assert_eq!(at(2022, 1, 1, 0, 0, 0).fiscal_year(), 2022);
    assert_eq!(at(2022, 12, 31, 23, 59, 59).fiscal_year(), 2023);
}

#[test]
fn every_month_has_its_fiscal_year() {
    for month in 1..=6 {
        assert_eq!(fiscal_year_of(2021, month), 2021);
        assert_eq!(at(2021, month, 15, 12, 0, 0).fiscal_year(), 2021);
    }
    for month in 7..=12 {
        assert_eq!(fiscal_year_of(2021, month), 2022);
        assert_eq!(at(2021, month, 15, 12, 0, 0).fiscal_year(), 2022);
    }
}

#[test]
fn fiscal_year_of_years_before_the_common_era() {
    assert_eq!(fiscal_year_of(-1, 6), -1);
    assert_eq!(fiscal_year_of(-1, 7), 0);
}

#[test]
fn the_epoch_is_the_first_of_january_1970() {
    let epoch = TradeDate::from_timestamp(0).unwrap();
    assert_eq!(epoch.timestamp(), 0);
    assert_eq!(epoch.year(), 1970);
    assert_eq!(epoch.month(), 1);
    assert_eq!(epoch.fiscal_year(), 1970);
}

#[test]
fn a_second_before_the_epoch_is_in_december_1969() {
    let date = TradeDate::from_timestamp(-1).unwrap();
    assert_eq!(date.timestamp(), -1);
    assert_eq!(date.year(), 1969);
    assert_eq!(date.month(), 12);
    assert_eq!(date.fiscal_year(), 1970);
}

#[test]
fn year_and_month_are_read_off_the_calendar() {
    // 2022-06-30 00:00:00
    let date = TradeDate::from_timestamp(1_656_547_200).unwrap();
    assert_eq!(date.timestamp(), 1_656_547_200);
    assert_eq!(date.year(), 2022);
    assert_eq!(date.month(), 6);
    // 2024-02-29 12:00:00, a leap day
    let leap = TradeDate::from_timestamp(1_709_208_000).unwrap();
    assert_eq!(leap.year(), 2024);
    assert_eq!(leap.month(), 2);
}

#[test]
fn the_date_keeps_the_instant_it_was_made_from() {
    let date = at(2022, 3, 1, 9, 30, 15);
    let again = TradeDate::from_timestamp(date.timestamp()).unwrap();
    assert_eq!(again.timestamp(), date.timestamp());
    assert_eq!(again.year(), 2022);
    assert_eq!(again.month(), 3);
}

#[test]
fn instants_beyond_the_calendar_have_no_date() {
    assert!(TradeDate::from_timestamp(i64::MAX).is_none());
    assert!(TradeDate::from_timestamp(i64::MIN).is_none());
}

#[test]
fn the_ends_of_the_calendar() {
    let last = NaiveDate::MAX.and_hms_opt(23, 59, 59).unwrap().and_utc().timestamp();
    let date = TradeDate::from_timestamp(last).unwrap();
    assert_eq!(date.year(), 262_142);
    assert_eq!(date.month(), 12);
    assert_eq!(date.fiscal_year(), 262_143);
    assert!(TradeDate::from_timestamp(last + 1).is_none());
    let first = NaiveDate::MIN.and_hms_opt(0, 0, 0).unwrap().and_utc().timestamp();
    let date = TradeDate::from_timestamp(first).unwrap();
    assert_eq!(date.year(), -262_143);
    assert_eq!(date.month(), 1);
    assert_eq!(date.fiscal_year(), -262_143);
    assert!(TradeDate::from_timestamp(first - 1).is_none());
}

#[test]
fn trade_types_are_written_in_capitals() {
    assert_eq!(TradeType::BUY.to_string(), "BUY");
    assert_eq!(TradeType::SELL.to_string(), "SELL");
    assert_eq!(TradeType::DIV.to_string(), "DIV");
}

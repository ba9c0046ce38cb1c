//! Trade dates: an instant on the clock, together with the calendar year and month it
//! falls in.

use crate::fiscal::fiscal_year_of;
use vstd::prelude::*;

verus! {

/// The calendar year and the month, counted from January as 1, of the instant `timestamp`
/// seconds after 1970-01-01 00:00:00, as the proleptic Gregorian calendar has them; `None`
/// where the calendar does not reach that far.
pub uninterp spec fn civil_year_month(timestamp: i64) -> Option<(i32, u32)>;

/// Asks chrono for the calendar date of an instant: `DateTime::from_timestamp`, then
/// `Datelike::year` and `Datelike::month` of what it returns.
///
/// Nothing is proved of this function. It is taken on trust that the answer depends on
/// `timestamp` alone, that an instant is only accepted when its day number
/// (`timestamp / 86_400 + 719_163`, counted from the calendar's day 1) fits in 32 bits, and
/// that the year of an accepted instant lies between the years of `NaiveDate::MIN` and
/// `NaiveDate::MAX`.
#[verifier::external_body]
fn calendar_year_month(timestamp: i64) -> (r: Option<(i32, u32)>)
    ensures
        r == civil_year_month(timestamp),
        r is Some ==> i32::MIN <= timestamp / 86_400 + 719_163 <= i32::MAX,
        r matches Some((year, _)) ==> -262_143 <= year <= 262_142,
{
    match chrono::DateTime::from_timestamp(timestamp, 0) {
        Some(instant) => {
            Some((chrono::Datelike::year(&instant), chrono::Datelike::month(&instant)))
        },
        None => None,
    }
}

/// The date and time of a trade.
///
/// A value can only be made by [`TradeDate::from_timestamp`], so its year and month are
/// always those of its instant.
#[derive(Clone, Copy, Debug, PartialEq, Eq, Structural)]
pub struct TradeDate {
    timestamp: i64,
    year: i32,
    month: u32,
}

impl TradeDate {
    /// What holds of every date: its year and month are those of its instant, and the
    /// calendar reaches it.
    #[verifier::type_invariant]
    spec fn consistent(self) -> bool {
        &&& civil_year_month(self.timestamp) == Some((self.year, self.month))
        &&& i32::MIN <= self.timestamp / 86_400 + 719_163 <= i32::MAX
        &&& -262_143 <= self.year <= 262_142
    }

    /// Seconds since 1970-01-01 00:00:00.
    pub closed spec fn spec_timestamp(&self) -> i64 {
        self.timestamp
    }

    /// Calendar year.
    pub closed spec fn spec_year(&self) -> i32 {
        self.year
    }

    /// Calendar month.
    pub closed spec fn spec_month(&self) -> u32 {
        self.month
    }

    /// The calendar keeps a date within 2^48 seconds of 1970 and within 262,143 years of
    /// the year 0, so that neither the time between two dates nor a fiscal year leaves the
    /// range of its type.
    pub open spec fn within_calendar(&self) -> bool {
        &&& -0x1_0000_0000_0000 < self.spec_timestamp() < 0x1_0000_0000_0000
        &&& -262_143 <= self.spec_year() <= 262_142
    }

    /// The fiscal year an instant belongs to: fiscal years run from July to June and
    /// carry the number of the calendar year they end in.
    pub open spec fn spec_fiscal_year(&self) -> i32 {
        fiscal_year_of(self.spec_year(), self.spec_month())
    }

    /// The date of the instant `timestamp` seconds after 1970-01-01 00:00:00, if the
    /// calendar reaches that far.
    pub fn from_timestamp(timestamp: i64) -> (date: Option<TradeDate>)
        ensures
            date is Some <==> civil_year_month(timestamp) is Some,
            date matches Some(d) ==> {
                &&& d.within_calendar()
                &&& d.spec_timestamp() == timestamp
                &&& civil_year_month(timestamp) == Some((d.spec_year(), d.spec_month()))
            },
    {
        match calendar_year_month(timestamp) {
            Some((year, month)) => Some(TradeDate { timestamp, year, month }),
            None => None,
        }
    }

    /// Seconds since 1970-01-01 00:00:00.
    #[verifier::when_used_as_spec(spec_timestamp)]
    pub fn timestamp(&self) -> (t: i64)
        ensures
            t == self.spec_timestamp(),
            self.within_calendar(),
    {
        proof {
            use_type_invariant(self);
        }
        self.timestamp
    }

    /// The calendar year the date falls in.
    #[verifier::when_used_as_spec(spec_year)]
    pub fn year(&self) -> (y: i32)
        ensures
            y == self.spec_year(),
            self.within_calendar(),
    {
        proof {
            use_type_invariant(self);
        }
        self.year
    }

    /// The calendar month the date falls in.
    #[verifier::when_used_as_spec(spec_month)]
    pub fn month(&self) -> (m: u32)
        ensures
            m == self.spec_month(),
    {
        self.month
    }

    /// The fiscal year of the date: its calendar year from January to June, the next one
    /// from July to December.
    #[verifier::when_used_as_spec(spec_fiscal_year)]
    pub fn fiscal_year(&self) -> (fy: i32)
        ensures
            fy == self.spec_fiscal_year(),
            self.within_calendar(),
            self.month() < 7 ==> fy == self.year(),
            self.month() >= 7 ==> fy == self.year() + 1,
    {
        proof {
            use_type_invariant(self);
        }
        fiscal_year_of(self.year, self.month)
    }
}

} // verus!

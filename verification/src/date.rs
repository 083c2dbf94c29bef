//! Calendar dates as day numbers, written and read in ISO 8601 (`2026-09-20`).
use vstd::prelude::*;

verus! {

/// The first day a date can be: -262143-01-01, as days since 0001-01-01 (day 1).
pub const FIRST_DAY: i32 = -95746129;

/// The last day a date can be: 262142-12-31.
pub const LAST_DAY: i32 = 95745399;

/// A day number that stands for a date.
pub open spec fn valid_day(day: int) -> bool {
    FIRST_DAY <= day <= LAST_DAY
}

/// Names what `chrono::NaiveDate`'s `Display` writes for the date with the given
/// day number (days since 0001-01-01, which is day 1).
pub uninterp spec fn date_text(day: int) -> Seq<char>;

/// Names what `chrono::NaiveDate`'s `FromStr` reads from a text, as a day number.
pub uninterp spec fn parsed_date(text: Seq<char>) -> Option<i32>;

/// Calls `chrono::NaiveDate::from_num_days_from_ce_opt` and writes the date with
/// its `Display`, which is `%Y-%m-%d`: a year of at least four digits, then `-`,
/// two digits of month, `-` and two digits of day. Its documentation says that the
/// text reads back with `str::parse`, whose `FromStr` takes the same format; so
/// parsing it gives the same day.
#[verifier::external_body]
pub(crate) fn format_date(day: i32) -> (text: String)
    requires
        valid_day(day as int),
    ensures
        text@ == date_text(day as int),
        text@.len() >= 10,
        parsed_date(text@) == Some(day),
{
    chrono::NaiveDate::from_num_days_from_ce_opt(day).unwrap().to_string()
}

/// Calls `str::parse::<chrono::NaiveDate>` and gives the date's day number; every
/// date chrono can hold has a valid day number.
#[verifier::external_body]
pub(crate) fn parse_date(text: &str) -> (day: Option<i32>)
    ensures
        day == parsed_date(text@),
        day matches Some(d) ==> valid_day(d as int),
{
    text.parse::<chrono::NaiveDate>().ok().map(|d| chrono::Datelike::num_days_from_ce(&d))
}

/// The day before a date, which must not be the first day a date can be.
pub fn previous_day(day: i32) -> (before: i32)
    requires
        valid_day(day as int),
        day > FIRST_DAY,
    ensures
        before == day - 1,
        valid_day(before as int),
{
    day - 1
}

} // verus!

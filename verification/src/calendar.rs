//! Calendar months of Unix timestamps.

use vstd::prelude::*;

verus! {

/// The text `YYYY-MM` of the UTC calendar month that holds the instant
/// `secs` seconds after the Unix epoch; `None` where the calendar in use
/// cannot hold that instant.
pub uninterp spec fn utc_year_month(secs: i64) -> Option<Seq<char>>;

/// The month text of `timestamp`, or the month of the epoch itself where the
/// calendar cannot hold `timestamp`.
pub open spec fn month_text(timestamp: i64) -> Seq<char> {
    match utc_year_month(timestamp) {
        Some(text) => text,
        None => utc_year_month(0).unwrap(),
    }
}

/// Calls chrono's `DateTime::from_timestamp(secs, 0)` and renders the
/// instant with `DateTime::format("%Y-%m")`.
///
/// Believed of chrono, not proved: the text depends on `secs` alone, an
/// instant out of chrono's range gives `None`, and the epoch is in range.
#[verifier::external_body]
fn utc_year_month_text(secs: i64) -> (r: Option<String>)
    ensures
        r is Some == utc_year_month(secs) is Some,
        r matches Some(text) ==> utc_year_month(secs) == Some(text@),
        secs == 0 ==> r is Some,
{
    match chrono::DateTime::from_timestamp(secs, 0) {
        Some(instant) => Some(instant.format("%Y-%m").to_string()),
        None => None,
    }
}

/// Renders the calendar month of a Unix timestamp as `YYYY-MM`. A timestamp
/// that the calendar cannot hold is rendered as the month of the epoch.
pub fn format_month_from_timestamp(timestamp: i64) -> (label: String)
    ensures
        label@ == month_text(timestamp),
{
    match utc_year_month_text(timestamp) {
        Some(text) => text,
        None => {
            let epoch = utc_year_month_text(0);
            epoch.unwrap()
        },
    }
}

} // verus!

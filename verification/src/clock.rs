//! Today's date in UTC, read from the system clock and written by chrono as
//! `YYYY-MM-DD`.
use chrono::DateTime;
use std::time::{Duration, SystemTime, UNIX_EPOCH};
use vstd::prelude::*;

verus! {

#[verifier::external_type_specification]
#[verifier::external_body]
pub struct ExSystemTime(std::time::SystemTime);

/// The first second of the year 10000 in Unix time: chrono writes every
/// earlier time from the epoch on with a four-digit year.
pub const END_OF_FOUR_DIGIT_YEARS: u64 = 253402300800;

/// `YYYY-MM-DD`: ten characters, `-` after the year and after the month,
/// ASCII digits elsewhere.
pub open spec fn is_date_text(s: Seq<char>) -> bool {
    &&& s.len() == 10
    &&& s[4] == '-'
    &&& s[7] == '-'
    &&& forall|i: int| 0 <= i < 10 && i != 4 && i != 7 ==> '0' <= #[trigger] s[i] <= '9'
}

/// The UTC date, as chrono writes it with `%Y-%m-%d`, of the time `secs`
/// seconds after the Unix epoch; none where chrono has no such time.
pub uninterp spec fn utc_date_text(secs: i64) -> Option<Seq<char>>;

/// Reads the system clock (`SystemTime::now`). Nothing is stated of the
/// time it gives.
#[verifier::external_body]
fn clock_now() -> (r: SystemTime) {
    SystemTime::now()
}

/// The time from the Unix epoch to `t` (`SystemTime::duration_since` with
/// `UNIX_EPOCH`); none when `t` lies before the epoch. Nothing is stated of
/// which case comes, as `t` is opaque here.
#[verifier::external_body]
fn since_epoch(t: &SystemTime) -> (r: Option<Duration>) {
    match t.duration_since(UNIX_EPOCH) {
        Ok(d) => Some(d),
        Err(_) => None,
    }
}

/// The whole seconds of `d` (`Duration::as_secs`). Nothing is stated of the
/// number, as `d` is opaque here.
#[verifier::external_body]
fn whole_secs(d: &Duration) -> (r: u64) {
    d.as_secs()
}

/// The UTC date of the time `secs` seconds after the Unix epoch, as
/// `YYYY-MM-DD` (`DateTime::from_timestamp`, then `format("%Y-%m-%d")`).
/// chrono's documentation of `%Y` gives four zero-padded digits for the years
/// 0 to 9999, and of `%m` and `%d` two; `from_timestamp` gives a time for
/// every such second.
#[verifier::external_body]
fn utc_date(secs: i64) -> (r: Option<String>)
    ensures
        match (r, utc_date_text(secs)) {
            (Some(s), Some(t)) => s@ == t,
            (None, None) => true,
            _ => false,
        },
        0 <= secs < END_OF_FOUR_DIGIT_YEARS ==> r is Some && is_date_text(r.unwrap()@),
{
    match DateTime::from_timestamp(secs, 0) {
        Some(t) => Some(t.format("%Y-%m-%d").to_string()),
        None => None,
    }
}

/// The date of a time given in seconds after the Unix epoch, when its year
/// has four digits.
pub fn date_of_unix_secs(secs: u64) -> (r: Option<String>)
    ensures
        secs < END_OF_FOUR_DIGIT_YEARS ==> (r matches Some(s) && is_date_text(s@) && utc_date_text(
            secs as i64,
        ) == Some(s@)),
        secs >= END_OF_FOUR_DIGIT_YEARS ==> r is None,
{
    if secs < END_OF_FOUR_DIGIT_YEARS {
        utc_date(secs as i64)
    } else {
        None
    }
}

/// Today's date in UTC as `YYYY-MM-DD`.
///
/// None when the clock reads a time before the Unix epoch or after the year
/// 9999; which time it reads is not stated.
pub fn today_utc() -> (r: Option<String>)
    ensures
        r matches Some(s) ==> is_date_text(s@) && exists|secs: i64|
            0 <= secs < END_OF_FOUR_DIGIT_YEARS && #[trigger] utc_date_text(secs) == Some(s@),
{
    let now = clock_now();
    match since_epoch(&now) {
        None => None,
        Some(d) => {
            let secs = whole_secs(&d);
            let r = date_of_unix_secs(secs);
            proof {
                if secs < END_OF_FOUR_DIGIT_YEARS {
                    assert(utc_date_text(secs as i64) == Some(r->0@));
                }
            }
            r
        },
    }
}

} // verus!

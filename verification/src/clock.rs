//! The wall clock and the HTTP date format.
//!
//! Reading the clock is left to `std::time`, and formatting a date to the
//! `httpdate` crate; neither is proved here. What the clock returns is not
//! constrained at all. The formatted date is named as a function of the
//! second it stands for.

use vstd::prelude::*;
use std::time::{Duration, SystemTime};
use crate::text::printable;

verus! {

#[verifier::external_type_specification]
#[verifier::external_body]
pub struct ExSystemTime(std::time::SystemTime);

/// The IMF-fixdate text (`Sun, 06 Nov 1994 08:49:37 GMT`) of the instant
/// `secs` seconds after the Unix epoch, as `httpdate` renders it.
pub uninterp spec fn imf_fixdate(secs: u64) -> Seq<u8>;

/// The last second that has an HTTP date: the end of the year 9999.
pub const LAST_DATE_SECOND: u64 = 253402300799;

/// Every HTTP date has this many bytes.
pub const DATE_LEN: usize = 29;

/// `SystemTime::now`: the current reading of the system clock.
#[verifier::external_body]
fn now() -> SystemTime {
    SystemTime::now()
}

/// `SystemTime::duration_since` the Unix epoch: the time elapsed since then,
/// or `None` for an instant before it.
#[verifier::external_body]
fn since_epoch(instant: &SystemTime) -> Option<Duration> {
    instant.duration_since(std::time::UNIX_EPOCH).ok()
}

/// `Duration::as_secs`: the whole seconds of a duration.
#[verifier::external_body]
fn whole_seconds(elapsed: &Duration) -> u64 {
    elapsed.as_secs()
}

/// `httpdate::fmt_http_date` of the instant `secs` seconds after the Unix
/// epoch: 29 bytes that depend on `secs` alone, each a letter, a digit, a
/// space, a comma or a colon. The call panics from the year 10000 on, which
/// `requires` leaves out.
#[verifier::external_body]
fn fmt_http_date(secs: u64) -> (text: Vec<u8>)
    requires
        secs <= LAST_DATE_SECOND,
    ensures
        text@ == imf_fixdate(secs),
        text@.len() == DATE_LEN,
        printable(text@),
{
    httpdate::fmt_http_date(std::time::UNIX_EPOCH + Duration::from_secs(secs)).into_bytes()
}

/// The second whose date stands for the clock reading `secs`: `secs` itself,
/// or the last second that has an HTTP date when `secs` lies beyond it.
pub open spec fn date_second(secs: u64) -> u64 {
    if secs <= LAST_DATE_SECOND {
        secs
    } else {
        LAST_DATE_SECOND
    }
}

/// The HTTP date for the clock reading `secs`.
pub open spec fn date_text(secs: u64) -> Seq<u8> {
    imf_fixdate(date_second(secs))
}

/// The HTTP date for a clock reading of `secs` seconds after the Unix epoch.
/// A reading past the year 9999 gives the last date that the format has.
pub fn http_date(secs: u64) -> (text: Vec<u8>)
    ensures
        text@ == date_text(secs),
        text@.len() == DATE_LEN,
        printable(text@),
{
    if secs <= LAST_DATE_SECOND {
        fmt_http_date(secs)
    } else {
        fmt_http_date(LAST_DATE_SECOND)
    }
}

/// The clock's reading in whole seconds after the Unix epoch; 0 when the
/// clock stands before the epoch. Two calls may differ.
pub(crate) fn unix_time() -> u64 {
    let instant = now();
    match since_epoch(&instant) {
        Some(elapsed) => whole_seconds(&elapsed),
        None => 0,
    }
}

} // verus!

//! Singapore local time.
//!
//! The view models read no clock: a caller passes the service date,
//! the clock reading, and the realtime `now_unix` in. These functions
//! are what a caller needs to produce them. Singapore keeps one offset
//! all year and observes no daylight saving, so the conversion is
//! arithmetic and needs no time zone database.

use vstd::prelude::*;

use crate::time::{GtfsTime, ServiceDate, MAX_DAYS, MIN_DAYS};

verus! {

/// The offset of Singapore Standard Time from UTC, in seconds.
pub const SGT_OFFSET_SECS: i64 = 28800;

/// The number of seconds in one calendar day.
pub const SECS_PER_DAY: i64 = 86400;

/// Whether a POSIX timestamp falls on a date that a [`ServiceDate`]
/// can hold, once it is moved to Singapore time.
pub open spec fn sgt_in_range(unix_secs: int) -> bool {
    MIN_DAYS * 86400 <= unix_secs + 28800 < (MAX_DAYS + 1) * 86400
}

/// Convert a POSIX timestamp to a Singapore date and clock time.
///
/// The clock is a civil time on that date, from `00:00:00` to
/// `23:59:59`. It is not a GTFS service-day time: a run that started
/// before midnight belongs to the day before.
///
/// The result is exact: the days of the date, times a day, plus the
/// clock, is the timestamp moved by the Singapore offset.
pub fn sgt_from_unix(unix_secs: i64) -> (r: (ServiceDate, GtfsTime))
    requires
        sgt_in_range(unix_secs as int),
    ensures
        r.0.day_count() * 86400 + r.1.secs == unix_secs + 28800,
        0 <= r.1.secs < 86400,
{
    let local = unix_secs + SGT_OFFSET_SECS;
    let shifted = (local - MIN_DAYS * SECS_PER_DAY) as u64;
    let whole = (shifted / 86400) as i64;
    let rest = (shifted % 86400) as u32;
    proof {
        assert(shifted == local - MIN_DAYS * 86400);
        assert(whole * 86400 + rest == shifted) by (nonlinear_arith)
            requires
                whole == shifted / 86400,
                rest == shifted % 86400,
        ;
        assert(whole <= MAX_DAYS - MIN_DAYS) by (nonlinear_arith)
            requires
                whole == shifted / 86400,
                shifted < (MAX_DAYS - MIN_DAYS + 1) * 86400,
        ;
    }
    let date = ServiceDate::from_days(whole + MIN_DAYS);
    let clock = GtfsTime::from_seconds(rest);
    (date, clock)
}

/// Whether a POSIX timestamp falls on a date that a [`ServiceDate`]
/// can hold, once it is moved to Singapore time.
pub fn in_sgt_range(unix_secs: i64) -> (b: bool)
    ensures
        b == sgt_in_range(unix_secs as int),
{
    let local = unix_secs as i128 + SGT_OFFSET_SECS as i128;
    MIN_DAYS as i128 * 86400 <= local && local < (MAX_DAYS as i128 + 1) * 86400
}

/// The type of a reading of the system clock, `std::time::SystemTime`.
#[verifier::external_type_specification]
#[verifier::external_body]
pub struct ExSystemTime(std::time::SystemTime);

/// Read the system clock (`SystemTime::now`). Nothing is stated of the
/// reading: it is the machine's.
#[verifier::external_body]
fn system_now() -> std::time::SystemTime {
    std::time::SystemTime::now()
}

/// The span from the POSIX epoch to a reading
/// (`SystemTime::duration_since` with `UNIX_EPOCH`), or `None` where the
/// reading lies before the epoch, which is when `duration_since` fails.
#[verifier::external_body]
fn since_epoch(t: &std::time::SystemTime) -> Option<std::time::Duration> {
    match t.duration_since(std::time::UNIX_EPOCH) {
        Ok(d) => Some(d),
        Err(_) => None,
    }
}

/// The whole seconds of a span (`Duration::as_secs`).
#[verifier::external_body]
fn whole_seconds(d: &std::time::Duration) -> u64 {
    d.as_secs()
}

/// Read the current POSIX time, in whole seconds.
///
/// The reading depends on the machine's clock, so what is stated is
/// what holds of every reading: it is never negative. It is `None`
/// where the clock reads before 1970, or where the seconds do not fit
/// an `i64`.
pub fn unix_now() -> (t: Option<i64>)
    ensures
        t matches Some(s) ==> s >= 0,
{
    let now = system_now();
    match since_epoch(&now) {
        None => None,
        Some(d) => {
            let s = whole_seconds(&d);
            if s <= 9223372036854775807u64 {
                Some(s as i64)
            } else {
                None
            }
        },
    }
}

/// Turn a reading of the clock into a Singapore date and clock time:
/// `None` where there is no reading or the reading lies outside the
/// dates a [`ServiceDate`] can hold, and the conversion of
/// [`sgt_from_unix`] otherwise.
pub fn sgt_from_reading(reading: Option<i64>) -> (r: Option<(ServiceDate, GtfsTime)>)
    ensures
        r is Some <==> (reading matches Some(u) && sgt_in_range(u as int)),
        r matches Some(p) ==> (reading matches Some(u) && p.0.day_count() * 86400 + p.1.secs == u
            + 28800 && 0 <= p.1.secs < 86400),
{
    match reading {
        None => None,
        Some(u) => {
            if in_sgt_range(u) {
                Some(sgt_from_unix(u))
            } else {
                None
            }
        },
    }
}

/// Get the current Singapore date and clock time: the reading of
/// [`unix_now`], converted by [`sgt_from_reading`].
///
/// The reading itself depends on the machine's clock, so what is
/// stated is what holds of every reading: the date and the clock are
/// those of some timestamp in range.
pub fn sgt_now() -> (r: Option<(ServiceDate, GtfsTime)>)
    ensures
        r matches Some(p) ==> {
            &&& 0 <= p.1.secs < 86400
            &&& exists|u: int|
                #[trigger] sgt_in_range(u) && p.0.day_count() * 86400 + p.1.secs == u + 28800
        },
{
    let reading = unix_now();
    let r = sgt_from_reading(reading);
    proof {
        if let Some(u) = reading {
            if r is Some {
                assert(sgt_in_range(u as int));
            }
        }
    }
    r
}

} // verus!

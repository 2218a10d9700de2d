//! Service-day times and service dates.
//!
//! A [`GtfsTime`] counts seconds after midnight of the service day, so
//! a run that continues past midnight keeps times such as `25:35:00`.
//! A [`ServiceDate`] counts days from 1970-01-01 on the proleptic
//! Gregorian calendar.

use vstd::prelude::*;

use crate::textbuf::{decimal, pad2, pad4, push_char, push_pad2, push_pad4, push_decimal};

verus! {

/// A time on the service day, in seconds after its midnight.
#[derive(Copy, Clone, Debug, PartialEq, Eq, PartialOrd, Ord, Hash)]
pub struct GtfsTime {
    /// The seconds after midnight of the service day.
    pub secs: u32,
}

impl GtfsTime {
    /// Make a time from seconds after midnight of the service day.
    pub fn from_seconds(secs: u32) -> (t: GtfsTime)
        ensures
            t.secs == secs,
    {
        GtfsTime { secs }
    }

    /// Make a time from hours, minutes, and seconds.
    pub fn from_hms(h: u32, m: u32, s: u32) -> (t: GtfsTime)
        requires
            h * 3600 + m * 60 + s <= u32::MAX,
        ensures
            t.secs == h * 3600 + m * 60 + s,
    {
        GtfsTime { secs: h * 3600 + m * 60 + s }
    }

    /// Get the seconds after midnight of the service day.
    pub fn seconds(&self) -> (s: u32)
        ensures
            s == self.secs,
    {
        self.secs
    }

    /// Get the hour on the service day; 24 and more are the next day.
    pub fn hours(&self) -> (h: u32)
        ensures
            h == self.secs / 3600,
    {
        self.secs / 3600
    }

    /// Get the minute of the hour.
    pub fn minutes(&self) -> (m: u32)
        ensures
            m == (self.secs / 60) % 60,
    {
        (self.secs / 60) % 60
    }

    /// Get the second of the minute.
    pub fn seconds_part(&self) -> (s: u32)
        ensures
            s == self.secs % 60,
    {
        self.secs % 60
    }

    /// Get the time on the 24-hour clock, in seconds after midnight.
    pub fn clock_seconds(&self) -> (s: u32)
        ensures
            s == self.secs % 86400,
    {
        self.secs % 86400
    }

    /// Get the time a number of seconds later.
    pub fn plus_seconds(&self, seconds: u32) -> (t: GtfsTime)
        requires
            self.secs + seconds <= u32::MAX,
        ensures
            t.secs == self.secs + seconds,
    {
        GtfsTime { secs: self.secs + seconds }
    }

    /// Write the time as `HH:MM:SS`, keeping hours past 24.
    pub fn to_text(&self) -> (s: String)
        ensures
            s@ == time_text(self.secs as nat),
    {
        let mut out = String::new();
        push_pad2(&mut out, (self.secs / 3600) as u64);
        push_char(&mut out, ':');
        push_pad2(&mut out, ((self.secs / 60) % 60) as u64);
        push_char(&mut out, ':');
        push_pad2(&mut out, (self.secs % 60) as u64);
        out
    }
}

/// The text of a service-day time, `HH:MM:SS`.
pub open spec fn time_text(secs: nat) -> Seq<char> {
    pad2(secs / 3600) + seq![':'] + pad2((secs / 60) % 60) + seq![':'] + pad2(secs % 60)
}

/// The value of one ASCII decimal digit, when the character is one.
pub open spec fn digit_value(c: char) -> Option<nat> {
    if '0' <= c && c <= '9' {
        Some((c as u32 - 48) as nat)
    } else {
        None
    }
}

/// The number that a run of decimal digits spells.
pub open spec fn digits_value(s: Seq<char>) -> nat
    decreases s.len(),
{
    if s.len() == 0 {
        0
    } else {
        digits_value(s.drop_last()) * 10 + (s.last() as u32 - 48) as nat
    }
}

/// Report whether every character of a sequence is a decimal digit.
pub open spec fn all_digits(s: Seq<char>) -> bool {
    forall|i: int| 0 <= i < s.len() ==> '0' <= #[trigger] s[i] && s[i] <= '9'
}

/// The time that a GTFS time field spells: one or more digits of
/// hours, a colon, two digits of minutes below 60, a colon, and two
/// digits of seconds below 60.
pub open spec fn parse_time_spec(s: Seq<char>) -> Option<nat> {
    let n = s.len() as int;
    if n >= 7 && s[n - 3] == ':' && s[n - 6] == ':' && all_digits(s.subrange(0, n - 6))
        && all_digits(s.subrange(n - 5, n - 3)) && all_digits(s.subrange(n - 2, n)) {
        let h = digits_value(s.subrange(0, n - 6));
        let m = digits_value(s.subrange(n - 5, n - 3));
        let sec = digits_value(s.subrange(n - 2, n));
        if m < 60 && sec < 60 && h * 3600 + m * 60 + sec <= u32::MAX {
            Some(h * 3600 + m * 60 + sec)
        } else {
            None
        }
    } else {
        None
    }
}

/// Read the number that `v[from..to]` spells, when every character is
/// a digit and the number stays below the bound.
pub fn read_digits(v: &Vec<char>, from: usize, to: usize, bound: u64) -> (r: Option<u64>)
    requires
        from <= to <= v@.len(),
        bound <= u32::MAX,
    ensures
        r matches Some(x) ==> all_digits(v@.subrange(from as int, to as int)) && x == digits_value(
            v@.subrange(from as int, to as int),
        ) && x <= bound,
        r is None ==> !all_digits(v@.subrange(from as int, to as int)) || digits_value(
            v@.subrange(from as int, to as int),
        ) > bound,
{
    let mut acc: u64 = 0;
    let mut i = from;
    while i < to
        invariant
            from <= i <= to <= v@.len(),
            bound <= u32::MAX,
            all_digits(v@.subrange(from as int, i as int)),
            acc == digits_value(v@.subrange(from as int, i as int)),
            acc <= bound,
        decreases to - i,
    {
        let c = v[i];
        proof {
            let t = v@.subrange(from as int, i + 1);
            assert(t.drop_last() =~= v@.subrange(from as int, i as int));
        }
        if !('0' <= c && c <= '9') {
            proof {
                assert(v@.subrange(from as int, to as int)[i - from] == c);
            }
            return None;
        }
        let d: u64 = (c as u32 - 48) as u64;
        let next = acc * 10 + d;
        if next > bound {
            proof {
                lemma_digits_prefix_monotone(v@, from as int, i + 1, to as int);
            }
            return None;
        }
        acc = next;
        i = i + 1;
        proof {
            let t = v@.subrange(from as int, i as int);
            assert forall|k: int| 0 <= k < t.len() implies '0' <= #[trigger] t[k] && t[k] <= '9' by {
                if k < t.len() - 1 {
                    assert(t[k] == v@.subrange(from as int, i - 1)[k]);
                }
            }
        }
    }
    Some(acc)
}

/// A longer run of digits never spells a smaller number than its
/// prefix.
pub proof fn lemma_digits_prefix_monotone(v: Seq<char>, from: int, mid: int, to: int)
    requires
        0 <= from <= mid <= to <= v.len(),
    ensures
        all_digits(v.subrange(from, to)) ==> digits_value(v.subrange(from, mid)) <= digits_value(
            v.subrange(from, to),
        ),
    decreases to - mid,
{
    if mid < to && all_digits(v.subrange(from, to)) {
        lemma_digits_prefix_monotone(v, from, mid, to - 1);
        let t = v.subrange(from, to);
        assert(t.drop_last() =~= v.subrange(from, to - 1));
        assert forall|k: int| 0 <= k < t.drop_last().len() implies '0' <= #[trigger] t.drop_last()[k]
            && t.drop_last()[k] <= '9' by {
            assert(t.drop_last()[k] == t[k]);
        }
    }
}

/// Read a GTFS time such as `08:05:00` or `25:35:00`.
pub fn parse_time(s: &str) -> (r: Option<GtfsTime>)
    ensures
        r matches Some(t) ==> parse_time_spec(s@) == Some(t.secs as nat),
        r is None ==> parse_time_spec(s@) is None,
{
    let v = crate::textbuf::chars_of(s);
    let n = v.len();
    if n < 7 || v[n - 3] != ':' || v[n - 6] != ':' {
        return None;
    }
    let h = read_digits(&v, 0, n - 6, u32::MAX as u64);
    let m = read_digits(&v, n - 5, n - 3, 99);
    let sec = read_digits(&v, n - 2, n, 99);
    proof {
        lemma_two_digits_bound(v@.subrange(n - 5, n - 3));
        lemma_two_digits_bound(v@.subrange(n - 2, n as int));
    }
    match (h, m, sec) {
        (Some(h), Some(m), Some(sec)) => {
            if m < 60 && sec < 60 && h * 3600 + m * 60 + sec <= u32::MAX as u64 {
                Some(GtfsTime { secs: (h * 3600 + m * 60 + sec) as u32 })
            } else {
                None
            }
        },
        _ => {
            proof {
                if h is None && all_digits(v@.subrange(0, n - 6)) {
                    assert(digits_value(v@.subrange(0, n - 6)) > u32::MAX);
                }
            }
            None
        },
    }
}

/// Two digits spell at most 99.
pub proof fn lemma_two_digits_bound(s: Seq<char>)
    requires
        s.len() == 2,
    ensures
        all_digits(s) ==> digits_value(s) <= 99,
{
    if all_digits(s) {
        assert(s.drop_last().drop_last().len() == 0);
        assert(s.drop_last().last() == s[0]);
        assert('0' <= s[0] <= '9');
        assert('0' <= s[1] <= '9');
        reveal_with_fuel(digits_value, 3);
        let a = (s[0] as u32 - 48) as nat;
        let b = (s[1] as u32 - 48) as nat;
        assert(a <= 9 && b <= 9);
        assert(digits_value(s.drop_last().drop_last()) == 0);
        assert(digits_value(s.drop_last()) == a);
        assert(digits_value(s) == a * 10 + b);
    }
}

} // verus!

verus! {

/// The first day count a date may have: 0000-03-01.
pub const MIN_DAYS: i64 = -719468;

/// The last day count a date may have.
pub const MAX_DAYS: i64 = 3000000;

/// The civil date of a day count, as (year, month, day).
///
/// This is the standard civil-from-days computation on the proleptic
/// Gregorian calendar, counting eras of 400 years from 0000-03-01.
pub open spec fn civil(days: int) -> (int, int, int) {
    let z = days + 719468;
    let era = z / 146097;
    let doe = z - era * 146097;
    let yoe = (doe - doe / 1460 + doe / 36524 - doe / 146096) / 365;
    let y = yoe + era * 400;
    let doy = doe - (365 * yoe + yoe / 4 - yoe / 100);
    let mp = (5 * doy + 2) / 153;
    let d = doy - (153 * mp + 2) / 5 + 1;
    let m = if mp < 10 {
        mp + 3
    } else {
        mp - 9
    };
    (if m <= 2 {
        y + 1
    } else {
        y
    }, m, d)
}

/// The day count of a civil date, the inverse of [`civil`].
pub open spec fn days_from_civil(y: int, m: int, d: int) -> int {
    let y2 = if m <= 2 {
        y - 1
    } else {
        y
    };
    let era = y2 / 400;
    let yoe = y2 - era * 400;
    let mp = if m > 2 {
        m - 3
    } else {
        m + 9
    };
    let doy = (153 * mp + 2) / 5 + d - 1;
    let doe = yoe * 365 + yoe / 4 - yoe / 100 + doy;
    era * 146097 + doe - 719468
}

/// Report whether a year is a leap year.
pub open spec fn is_leap(y: int) -> bool {
    y % 4 == 0 && (y % 100 != 0 || y % 400 == 0)
}

/// The number of days in a month.
pub open spec fn days_in_month(y: int, m: int) -> int {
    if m == 2 {
        if is_leap(y) {
            29
        } else {
            28
        }
    } else if m == 4 || m == 6 || m == 9 || m == 11 {
        30
    } else {
        31
    }
}

/// The index of the weekday of a day count, Monday first.
/// 1970-01-01, day zero, was a Thursday.
pub open spec fn weekday_index(days: int) -> int {
    (days + 719470) % 7
}

/// A day of the week.
#[derive(Copy, Clone, Debug, PartialEq, Eq)]
pub enum Weekday {
    Monday,
    Tuesday,
    Wednesday,
    Thursday,
    Friday,
    Saturday,
    Sunday,
}

/// The weekday of an index, Monday first.
pub open spec fn weekday_of_index(i: int) -> Weekday {
    if i == 0 {
        Weekday::Monday
    } else if i == 1 {
        Weekday::Tuesday
    } else if i == 2 {
        Weekday::Wednesday
    } else if i == 3 {
        Weekday::Thursday
    } else if i == 4 {
        Weekday::Friday
    } else if i == 5 {
        Weekday::Saturday
    } else {
        Weekday::Sunday
    }
}

/// A service date, as a count of days from 1970-01-01.
#[derive(Copy, Clone, Debug, PartialEq, Eq, PartialOrd, Ord, Hash)]
pub struct ServiceDate {
    days: i64,
}

impl ServiceDate {
    /// The days from 1970-01-01.
    pub closed spec fn day_count(self) -> int {
        self.days as int
    }

    #[verifier::type_invariant]
    spec fn in_range(self) -> bool {
        MIN_DAYS <= self.days <= MAX_DAYS
    }

    /// Make the date a number of days after 1970-01-01.
    pub fn from_days(days: i64) -> (d: ServiceDate)
        requires
            MIN_DAYS <= days <= MAX_DAYS,
        ensures
            d.day_count() == days,
    {
        ServiceDate { days }
    }

    /// Get the number of days after 1970-01-01.
    pub fn days(&self) -> (n: i64)
        ensures
            n == self.day_count(),
            MIN_DAYS <= n <= MAX_DAYS,
    {
        proof {
            use_type_invariant(self);
        }
        self.days
    }

    /// Get the day before.
    pub fn previous_day(&self) -> (d: ServiceDate)
        requires
            self.day_count() > MIN_DAYS,
        ensures
            d.day_count() == self.day_count() - 1,
    {
        proof {
            use_type_invariant(self);
        }
        ServiceDate { days: self.days - 1 }
    }

    /// Get the date a number of days later, or earlier for a negative
    /// number.
    pub fn plus_days(&self, n: i64) -> (d: ServiceDate)
        requires
            MIN_DAYS <= self.day_count() + n <= MAX_DAYS,
        ensures
            d.day_count() == self.day_count() + n,
    {
        proof {
            use_type_invariant(self);
        }
        ServiceDate { days: self.days + n }
    }

    fn civil_exec(&self) -> (r: (i64, i64, i64))
        ensures
            r.0 == civil(self.day_count()).0,
            r.1 == civil(self.day_count()).1,
            r.2 == civil(self.day_count()).2,
    {
        proof {
            use_type_invariant(self);
        }
        let z = self.days + 719468;
        let era = z / 146097;
        let doe = z - era * 146097;
        let yoe = (doe - doe / 1460 + doe / 36524 - doe / 146096) / 365;
        let y = yoe + era * 400;
        let doy = doe - (365 * yoe + yoe / 4 - yoe / 100);
        let mp = (5 * doy + 2) / 153;
        let d = doy - (153 * mp + 2) / 5 + 1;
        let m = if mp < 10 {
            mp + 3
        } else {
            mp - 9
        };
        (if m <= 2 {
            y + 1
        } else {
            y
        }, m, d)
    }

    /// Get the year.
    pub fn year(&self) -> (y: i64)
        ensures
            y == civil(self.day_count()).0,
    {
        self.civil_exec().0
    }

    /// Get the month, from 1 to 12.
    pub fn month(&self) -> (m: i64)
        ensures
            m == civil(self.day_count()).1,
    {
        self.civil_exec().1
    }

    /// Get the day of the month.
    pub fn day(&self) -> (d: i64)
        ensures
            d == civil(self.day_count()).2,
    {
        self.civil_exec().2
    }

    /// Get the day of the week.
    pub fn weekday(&self) -> (w: Weekday)
        ensures
            w == weekday_of_index(weekday_index(self.day_count())),
    {
        proof {
            use_type_invariant(self);
        }
        let i = (self.days + 719470) % 7;
        if i == 0 {
            Weekday::Monday
        } else if i == 1 {
            Weekday::Tuesday
        } else if i == 2 {
            Weekday::Wednesday
        } else if i == 3 {
            Weekday::Thursday
        } else if i == 4 {
            Weekday::Friday
        } else if i == 5 {
            Weekday::Saturday
        } else {
            Weekday::Sunday
        }
    }
}

/// The text of a date, `YYYYMMDD`.
pub open spec fn date_text(days: int) -> Seq<char> {
    let (y, m, d) = civil(days);
    pad4(y as nat) + pad2(m as nat) + pad2(d as nat)
}

impl ServiceDate {
    /// Write the date as `YYYYMMDD`.
    pub fn to_text(&self) -> (s: String)
        ensures
            s@ == date_text(self.day_count()),
    {
        let (y, m, d) = self.civil_exec();
        proof {
            use_type_invariant(self);
            lemma_civil_nonnegative(self.day_count());
        }
        let mut out = String::new();
        push_pad4(&mut out, y as u64);
        push_pad2(&mut out, m as u64);
        push_pad2(&mut out, d as u64);
        out
    }
}

/// The parts of the civil date of a date in range are not negative.
pub proof fn lemma_civil_nonnegative(days: int)
    requires
        MIN_DAYS <= days <= MAX_DAYS,
    ensures
        civil(days).0 >= 0,
        civil(days).1 >= 1,
        civil(days).2 >= 1,
{
}

/// The date that eight digits `YYYYMMDD` spell, when they name a day
/// of the calendar from the year 1 on.
pub open spec fn parse_date_spec(s: Seq<char>) -> Option<int> {
    if s.len() == 8 && all_digits(s) {
        let y = digits_value(s.subrange(0, 4)) as int;
        let m = digits_value(s.subrange(4, 6)) as int;
        let d = digits_value(s.subrange(6, 8)) as int;
        if y >= 1 && 1 <= m <= 12 && 1 <= d <= days_in_month(y, m) {
            Some(days_from_civil(y, m, d))
        } else {
            None
        }
    } else {
        None
    }
}

/// Read a GTFS date such as `20260810`.
pub fn parse_date(s: &str) -> (r: Option<ServiceDate>)
    ensures
        r matches Some(d) ==> parse_date_spec(s@) == Some(d.day_count()),
        r is None ==> parse_date_spec(s@) is None,
{
    let v = crate::textbuf::chars_of(s);
    if v.len() != 8 {
        return None;
    }
    let y = read_digits(&v, 0, 4, 9999);
    let m = read_digits(&v, 4, 6, 99);
    let d = read_digits(&v, 6, 8, 99);
    proof {
        lemma_split_digits(v@);
        lemma_two_digits_bound(v@.subrange(4, 6));
        lemma_two_digits_bound(v@.subrange(6, 8));
        lemma_four_digits_bound(v@.subrange(0, 4));
    }
    match (y, m, d) {
        (Some(y), Some(m), Some(d)) => {
            if y < 1 || m < 1 || m > 12 || d < 1 {
                return None;
            }
            let leap = y % 4 == 0 && (y % 100 != 0 || y % 400 == 0);
            let dim: u64 = if m == 2 {
                if leap {
                    29
                } else {
                    28
                }
            } else if m == 4 || m == 6 || m == 9 || m == 11 {
                30
            } else {
                31
            };
            if d > dim {
                return None;
            }
            let (yi, mi, di) = (y as i64, m as i64, d as i64);
            let y2 = if mi <= 2 {
                yi - 1
            } else {
                yi
            };
            let era = y2 / 400;
            let yoe = y2 - era * 400;
            let mp = if mi > 2 {
                mi - 3
            } else {
                mi + 9
            };
            let doy = (153 * mp + 2) / 5 + di - 1;
            let doe = yoe * 365 + yoe / 4 - yoe / 100 + doy;
            let days = era * 146097 + doe - 719468;
            Some(ServiceDate { days })
        },
        _ => None,
    }
}

/// Eight digits split into their parts, and each part is all digits.
pub proof fn lemma_split_digits(s: Seq<char>)
    requires
        s.len() == 8,
    ensures
        all_digits(s) <==> (all_digits(s.subrange(0, 4)) && all_digits(s.subrange(4, 6))
            && all_digits(s.subrange(6, 8))),
{
    if all_digits(s.subrange(0, 4)) && all_digits(s.subrange(4, 6)) && all_digits(
        s.subrange(6, 8),
    ) {
        assert forall|i: int| 0 <= i < s.len() implies '0' <= #[trigger] s[i] && s[i] <= '9' by {
            if i < 4 {
                assert(s.subrange(0, 4)[i] == s[i]);
            } else if i < 6 {
                assert(s.subrange(4, 6)[i - 4] == s[i]);
            } else {
                assert(s.subrange(6, 8)[i - 6] == s[i]);
            }
        }
    }
}

/// Four digits spell at most 9999.
pub proof fn lemma_four_digits_bound(s: Seq<char>)
    requires
        s.len() == 4,
    ensures
        all_digits(s) ==> digits_value(s) <= 9999,
{
    if all_digits(s) {
        reveal_with_fuel(digits_value, 5);
        assert('0' <= s[0] <= '9');
        assert('0' <= s[1] <= '9');
        assert('0' <= s[2] <= '9');
        assert('0' <= s[3] <= '9');
        assert(s.drop_last().drop_last().drop_last().drop_last().len() == 0);
        assert(s.drop_last().drop_last().drop_last().last() == s[0]);
        assert(s.drop_last().drop_last().last() == s[1]);
        assert(s.drop_last().last() == s[2]);
    }
}

} // verus!

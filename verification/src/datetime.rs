//! Points in time, the date/time text formats a column is recognised by,
//! and the integer arithmetic that turns stored dates and timestamps into
//! points in time.
use vstd::prelude::*;

use chrono::Datelike;

verus! {

pub const NANOS_PER_SECOND: i128 = 1_000_000_000;

pub const SECONDS_PER_DAY: i128 = 86_400;

/// A point in time, as nanoseconds since 1970-01-01 00:00:00 UTC (negative
/// before it). It stands for the (possibly fractional) unix seconds a
/// datetime column holds.
#[derive(Clone, Copy, PartialEq, Eq, Debug, Structural)]
pub struct Timestamp {
    pub nanos: i128,
}

impl Timestamp {
    /// The point `secs` whole seconds and `subsec_nanos` nanoseconds after
    /// the epoch.
    pub fn from_parts(secs: i64, subsec_nanos: u32) -> (t: Timestamp)
        ensures
            t.nanos == secs * NANOS_PER_SECOND + subsec_nanos,
    {
        Timestamp { nanos: (secs as i128) * NANOS_PER_SECOND + (subsec_nanos as i128) }
    }

    /// The point `secs` whole seconds after the epoch.
    pub fn from_seconds(secs: i64) -> (t: Timestamp)
        ensures
            t.nanos == secs * NANOS_PER_SECOND,
    {
        Timestamp { nanos: (secs as i128) * NANOS_PER_SECOND }
    }

    /// Midnight UTC of the day `days` days after 1970-01-01 (an Arrow `Date32`).
    pub fn from_days(days: i32) -> (t: Timestamp)
        ensures
            t.nanos == days * SECONDS_PER_DAY * NANOS_PER_SECOND,
    {
        Timestamp { nanos: (days as i128) * SECONDS_PER_DAY * NANOS_PER_SECOND }
    }

    /// `ms` milliseconds after the epoch (an Arrow `Date64` or millisecond timestamp).
    pub fn from_millis(ms: i64) -> (t: Timestamp)
        ensures
            t.nanos == ms * 1_000_000,
    {
        Timestamp { nanos: (ms as i128) * 1_000_000 }
    }

    /// `us` microseconds after the epoch.
    pub fn from_micros(us: i64) -> (t: Timestamp)
        ensures
            t.nanos == us * 1_000,
    {
        Timestamp { nanos: (us as i128) * 1_000 }
    }

    /// `ns` nanoseconds after the epoch.
    pub fn from_nanos(ns: i64) -> (t: Timestamp)
        ensures
            t.nanos == ns,
    {
        Timestamp { nanos: ns as i128 }
    }

    /// The epoch itself.
    pub fn epoch() -> (t: Timestamp)
        ensures
            t.nanos == 0,
    {
        Timestamp { nanos: 0 }
    }
}

/// How a stored date or timestamp counts time since the epoch: Arrow's
/// `Date32` (days), `Date64` (milliseconds), and its timestamps in each unit.
#[derive(Clone, Copy, PartialEq, Eq, Debug, Structural)]
pub enum TimeEncoding {
    Date32Days,
    Date64Millis,
    Seconds,
    Millis,
    Micros,
    Nanos,
}

/// Nanoseconds since the epoch of a value stored with `enc`.
pub open spec fn encoded_nanos(enc: TimeEncoding, value: int) -> int {
    match enc {
        TimeEncoding::Date32Days => value * SECONDS_PER_DAY * NANOS_PER_SECOND,
        TimeEncoding::Date64Millis => value * 1_000_000,
        TimeEncoding::Seconds => value * NANOS_PER_SECOND,
        TimeEncoding::Millis => value * 1_000_000,
        TimeEncoding::Micros => value * 1_000,
        TimeEncoding::Nanos => value,
    }
}

/// The point in time a value stored with `enc` stands for.
pub fn timestamp_from(enc: TimeEncoding, value: i64) -> (t: Timestamp)
    ensures
        t.nanos == encoded_nanos(enc, value as int),
{
    match enc {
        TimeEncoding::Date32Days => Timestamp { nanos: (value as i128) * SECONDS_PER_DAY * NANOS_PER_SECOND },
        TimeEncoding::Date64Millis | TimeEncoding::Millis => Timestamp::from_millis(value),
        TimeEncoding::Seconds => Timestamp::from_seconds(value),
        TimeEncoding::Micros => Timestamp::from_micros(value),
        TimeEncoding::Nanos => Timestamp::from_nanos(value),
    }
}

// ---------------------------------------------------------------------
// Parsing date/time text (chrono)
// ---------------------------------------------------------------------

/// What chrono's `DateTime::parse_from_rfc3339` gives for `s`, as its
/// unix `timestamp()` and `timestamp_subsec_nanos()`, or `None` where it
/// refuses `s`.
pub uninterp spec fn rfc3339_parse(s: Seq<char>) -> Option<(i64, u32)>;

/// What chrono's `NaiveDateTime::parse_from_str(s, fmt)` gives, read as
/// UTC: its unix `timestamp()` and `timestamp_subsec_nanos()`, or `None`
/// where it refuses.
pub uninterp spec fn naive_datetime_parse(s: Seq<char>, fmt: Seq<char>) -> Option<(i64, u32)>;

/// What chrono's `NaiveDate::parse_from_str(s, fmt)` gives, as the unix
/// seconds of that day's midnight UTC, or `None` where it refuses.
pub uninterp spec fn naive_date_parse(s: Seq<char>, fmt: Seq<char>) -> Option<i64>;

/// Calls chrono's `DateTime::parse_from_rfc3339`; the claim is only that
/// the answer is a function of `s` (named `rfc3339_parse`). Which strings it
/// accepts and what instant it yields is chrono's RFC 3339 grammar, not
/// restated here.
#[verifier::external_body]
fn rfc3339_instant(s: &str) -> (r: Option<(i64, u32)>)
    ensures
        r == rfc3339_parse(s@),
{
    match chrono::DateTime::parse_from_rfc3339(s) {
        Ok(dt) => Some((dt.timestamp(), dt.timestamp_subsec_nanos())),
        Err(_) => None,
    }
}

/// Calls chrono's `NaiveDateTime::parse_from_str` and reads the result as
/// UTC (`and_utc()`), as whole unix seconds and the nanoseconds past them;
/// the claim is only that the answer is a function of `s` and `fmt` (named
/// `naive_datetime_parse`).
#[verifier::external_body]
fn naive_datetime_instant(s: &str, fmt: &str) -> (r: Option<(i64, u32)>)
    ensures
        r == naive_datetime_parse(s@, fmt@),
{
    match chrono::NaiveDateTime::parse_from_str(s, fmt) {
        Ok(dt) => Some((dt.and_utc().timestamp(), dt.and_utc().timestamp_subsec_nanos())),
        Err(_) => None,
    }
}

/// Calls chrono's `NaiveDate::parse_from_str` and reads the day's midnight
/// as UTC unix seconds; the claim is only that the answer is a function of
/// `s` and `fmt` (named `naive_date_parse`).
#[verifier::external_body]
fn naive_date_seconds(s: &str, fmt: &str) -> (r: Option<i64>)
    ensures
        r == naive_date_parse(s@, fmt@),
{
    match chrono::NaiveDate::parse_from_str(s, fmt) {
        Ok(d) => Some(chrono::NaiveDateTime::from(d).and_utc().timestamp()),
        Err(_) => None,
    }
}

pub const DATETIME_FORMAT_COUNT: usize = 8;

pub const DATE_FORMAT_COUNT: usize = 4;

/// The date-and-time formats tried, in order.
pub open spec fn datetime_format(i: int) -> Seq<char> {
    if i == 0 {
        "%Y-%m-%d %H:%M:%S%.f"@
    } else if i == 1 {
        "%Y-%m-%d %H:%M:%S"@
    } else if i == 2 {
        "%Y-%m-%dT%H:%M:%S%.f"@
    } else if i == 3 {
        "%Y-%m-%dT%H:%M:%S"@
    } else if i == 4 {
        "%m/%d/%Y %H:%M:%S"@
    } else if i == 5 {
        "%m/%d/%Y %H:%M"@
    } else if i == 6 {
        "%d/%m/%Y %H:%M:%S"@
    } else {
        "%d-%m-%Y %H:%M:%S"@
    }
}

/// The date-only formats tried, in order.
pub open spec fn date_format(i: int) -> Seq<char> {
    if i == 0 {
        "%Y-%m-%d"@
    } else if i == 1 {
        "%m/%d/%Y"@
    } else if i == 2 {
        "%d/%m/%Y"@
    } else {
        "%Y/%m/%d"@
    }
}

fn datetime_format_str(i: usize) -> (f: &'static str)
    requires
        i < DATETIME_FORMAT_COUNT,
    ensures
        f@ == datetime_format(i as int),
{
    match i {
        0 => "%Y-%m-%d %H:%M:%S%.f",
        1 => "%Y-%m-%d %H:%M:%S",
        2 => "%Y-%m-%dT%H:%M:%S%.f",
        3 => "%Y-%m-%dT%H:%M:%S",
        4 => "%m/%d/%Y %H:%M:%S",
        5 => "%m/%d/%Y %H:%M",
        6 => "%d/%m/%Y %H:%M:%S",
        _ => "%d-%m-%Y %H:%M:%S",
    }
}

fn date_format_str(i: usize) -> (f: &'static str)
    requires
        i < DATE_FORMAT_COUNT,
    ensures
        f@ == date_format(i as int),
{
    match i {
        0 => "%Y-%m-%d",
        1 => "%m/%d/%Y",
        2 => "%d/%m/%Y",
        _ => "%Y/%m/%d",
    }
}

/// The seconds and nanoseconds given by the first date-and-time format,
/// from `i` on, that accepts `s`.
pub open spec fn first_datetime_match(s: Seq<char>, i: int) -> Option<(i64, u32)>
    decreases DATETIME_FORMAT_COUNT - i,
{
    if i < 0 || i >= DATETIME_FORMAT_COUNT {
        None
    } else {
        match naive_datetime_parse(s, datetime_format(i)) {
            Some(t) => Some(t),
            None => first_datetime_match(s, i + 1),
        }
    }
}

/// The seconds given by the first date-only format, from `i` on, that
/// accepts `s`.
pub open spec fn first_date_match(s: Seq<char>, i: int) -> Option<i64>
    decreases DATE_FORMAT_COUNT - i,
{
    if i < 0 || i >= DATE_FORMAT_COUNT {
        None
    } else {
        match naive_date_parse(s, date_format(i)) {
            Some(t) => Some(t),
            None => first_date_match(s, i + 1),
        }
    }
}

/// The point in time `s` denotes: RFC 3339 first, then each date-and-time
/// format in turn (read as UTC), both keeping sub-second precision, then
/// each date-only format (midnight UTC).
pub open spec fn parse_datetime_spec(s: Seq<char>) -> Option<Timestamp> {
    match rfc3339_parse(s) {
        Some((secs, sub)) => Some(Timestamp { nanos: (secs * NANOS_PER_SECOND + sub) as i128 }),
        None => match first_datetime_match(s, 0) {
            Some((secs, sub)) => Some(Timestamp { nanos: (secs * NANOS_PER_SECOND + sub) as i128 }),
            None => match first_date_match(s, 0) {
                Some(t) => Some(Timestamp { nanos: (t * NANOS_PER_SECOND) as i128 }),
                None => None,
            },
        },
    }
}

/// Try a handful of common date/time formats and return the instant (UTC).
pub fn parse_datetime(s: &str) -> (r: Option<Timestamp>)
    ensures
        r == parse_datetime_spec(s@),
{
    if let Some((secs, sub)) = rfc3339_instant(s) {
        return Some(Timestamp::from_parts(secs, sub));
    }
    let mut i: usize = 0;
    while i < DATETIME_FORMAT_COUNT
        invariant
            i <= DATETIME_FORMAT_COUNT,
            rfc3339_parse(s@) is None,
            first_datetime_match(s@, 0) == first_datetime_match(s@, i as int),
        decreases DATETIME_FORMAT_COUNT - i,
    {
        if let Some((secs, sub)) = naive_datetime_instant(s, datetime_format_str(i)) {
            return Some(Timestamp::from_parts(secs, sub));
        }
        i = i + 1;
    }
    let mut j: usize = 0;
    while j < DATE_FORMAT_COUNT
        invariant
            j <= DATE_FORMAT_COUNT,
            first_datetime_match(s@, 0) is None,
            rfc3339_parse(s@) is None,
            first_date_match(s@, 0) == first_date_match(s@, j as int),
        decreases DATE_FORMAT_COUNT - j,
    {
        if let Some(t) = naive_date_seconds(s, date_format_str(j)) {
            return Some(Timestamp::from_seconds(t));
        }
        j = j + 1;
    }
    None
}

// ---------------------------------------------------------------------
// Tick labels
// ---------------------------------------------------------------------

pub open spec fn date_label_format() -> Seq<char> {
    "%Y-%m-%d"@
}

pub open spec fn datetime_label_format() -> Seq<char> {
    "%Y-%m-%d %H:%M:%S"@
}

/// What chrono writes for the UTC date-time `secs` seconds after the epoch
/// with the strftime format `fmt`, or `None` where that instant is outside
/// chrono's range.
pub uninterp spec fn utc_format(secs: i64, fmt: Seq<char>) -> Option<Seq<char>>;

/// Calls chrono's `DateTime::from_timestamp(secs, 0)` and formats the result
/// with `fmt`; the claim is only that the outcome is a function of `secs`
/// and `fmt` (named `utc_format`). Only the two label formats are passed,
/// which chrono always renders.
#[verifier::external_body]
fn format_utc(secs: i64, fmt: &str) -> (r: Option<String>)
    requires
        fmt@ == date_label_format() || fmt@ == datetime_label_format(),
    ensures
        match r {
            Some(s) => utc_format(secs, fmt@) == Some(s@),
            None => utc_format(secs, fmt@) is None,
        },
{
    match chrono::DateTime::from_timestamp(secs, 0) {
        Some(dt) => Some(dt.format(fmt).to_string()),
        None => None,
    }
}

/// The format a tick at `secs` is labelled with: the date alone at
/// midnight (which reduces clutter for pure-date data), the date and time
/// otherwise.
pub open spec fn label_format(secs: i64) -> Seq<char> {
    if (secs as int) % (SECONDS_PER_DAY as int) == 0 {
        date_label_format()
    } else {
        datetime_label_format()
    }
}

/// The label of a date-time axis tick at `secs` whole seconds, empty where
/// the instant is outside chrono's range.
pub open spec fn timestamp_label(secs: i64) -> Seq<char> {
    match utc_format(secs, label_format(secs)) {
        Some(s) => s,
        None => Seq::empty(),
    }
}

/// A tick is labelled with the date alone exactly at a UTC midnight (a
/// whole number of days after the epoch); every other instant, a whole hour
/// included, is labelled with the date and the time of day.
pub proof fn tick_label_law(secs: i64)
    ensures
        (secs as int) % 86_400 == 0 ==> label_format(secs) == "%Y-%m-%d"@,
        (secs as int) % 86_400 != 0 ==> label_format(secs) == "%Y-%m-%d %H:%M:%S"@,
        (secs as int) % 86_400 == 0 ==> timestamp_label(secs) == match utc_format(secs, "%Y-%m-%d"@) {
            Some(s) => s,
            None => Seq::empty(),
        },
        (secs as int) % 86_400 != 0 ==> timestamp_label(secs) == match utc_format(
            secs,
            "%Y-%m-%d %H:%M:%S"@,
        ) {
            Some(s) => s,
            None => Seq::empty(),
        },
{
}

/// The label of a date-time axis tick: the UTC date, with the time of day
/// unless it is midnight.
pub fn format_timestamp(secs: i64) -> (s: String)
    ensures
        s@ == timestamp_label(secs),
{
    let midnight = (secs as i128) % SECONDS_PER_DAY == 0;
    let fmt = if midnight {
        "%Y-%m-%d"
    } else {
        "%Y-%m-%d %H:%M:%S"
    };
    match format_utc(secs, fmt) {
        Some(s) => s,
        None => String::new(),
    }
}

// ---------------------------------------------------------------------
// Calendar days
// ---------------------------------------------------------------------

/// The whole seconds of `t` (rounded down), held to the range of `i64`.
pub open spec fn whole_seconds_spec(t: Timestamp) -> i64 {
    let q = t.nanos as int / NANOS_PER_SECOND as int;
    if q > i64::MAX {
        i64::MAX
    } else if q < i64::MIN {
        i64::MIN
    } else {
        q as i64
    }
}

/// The whole seconds of `t`, rounded down and saturated to `i64`.
pub fn whole_seconds(t: Timestamp) -> (s: i64)
    ensures
        s == whole_seconds_spec(t),
{
    let n = t.nanos;
    let q: i128 = if n >= 0 {
        n / NANOS_PER_SECOND
    } else {
        let m: i128 = -(n + 1);
        -(m / NANOS_PER_SECOND) - 1
    };
    assert(q == n as int / NANOS_PER_SECOND as int) by (nonlinear_arith)
        requires
            q == (if n >= 0 {
                n as int / 1_000_000_000
            } else {
                -((-(n + 1)) as int / 1_000_000_000) - 1
            }),
            NANOS_PER_SECOND == 1_000_000_000,
    ;
    if q > i64::MAX as i128 {
        i64::MAX
    } else if q < i64::MIN as i128 {
        i64::MIN
    } else {
        q as i64
    }
}

/// What chrono gives as the calendar day `(year, month, day)` of the UTC
/// instant `secs` seconds after the epoch, or `None` outside chrono's range.
pub uninterp spec fn utc_day_of(secs: i64) -> Option<(i32, u32, u32)>;

/// Calls chrono's `DateTime::from_timestamp(secs, 0)` and reads its year,
/// month and day; the claim is only that the outcome is a function of
/// `secs` (named `utc_day_of`). The calendar itself is not restated.
#[verifier::external_body]
fn utc_calendar_day(secs: i64) -> (r: Option<(i32, u32, u32)>)
    ensures
        r == utc_day_of(secs),
{
    chrono::DateTime::from_timestamp(secs, 0).map(|dt| (dt.year(), dt.month(), dt.day()))
}

/// The UTC calendar day `(year, month, day)` a point in time falls on,
/// `None` where it lies outside chrono's range.
pub fn seconds_to_date(t: Timestamp) -> (r: Option<(i32, u32, u32)>)
    ensures
        r == utc_day_of(whole_seconds_spec(t)),
{
    utc_calendar_day(whole_seconds(t))
}

/// What chrono gives as the unix seconds of midnight UTC at the start of
/// the day `(year, month, day)`, or `None` where that is no valid date.
pub uninterp spec fn midnight_of(year: i32, month: u32, day: u32) -> Option<i64>;

/// Calls chrono's `NaiveDate::from_ymd_opt` and reads the day's midnight as
/// UTC unix seconds; the claim is only that the outcome is a function of
/// the three numbers (named `midnight_of`).
#[verifier::external_body]
fn utc_midnight(year: i32, month: u32, day: u32) -> (r: Option<i64>)
    ensures
        r == midnight_of(year, month, day),
{
    chrono::NaiveDate::from_ymd_opt(year, month, day).map(
        |d| d.and_time(chrono::NaiveTime::MIN).and_utc().timestamp(),
    )
}

/// Unix seconds of the day's midnight UTC, `None` where `(year, month,
/// day)` is no valid date.
pub fn date_to_seconds(year: i32, month: u32, day: u32) -> (r: Option<i64>)
    ensures
        r == midnight_of(year, month, day),
{
    utc_midnight(year, month, day)
}

// ---------------------------------------------------------------------
// Ranges of points in time
// ---------------------------------------------------------------------

/// The earliest and latest present values of `vals`, or the epoch twice when
/// none is present.
pub open spec fn min_max_spec(vals: Seq<Option<Timestamp>>) -> (Timestamp, Timestamp)
    decreases vals.len(),
{
    if vals.len() == 0 {
        (Timestamp { nanos: 0 }, Timestamp { nanos: 0 })
    } else {
        let rest = min_max_spec(vals.drop_last());
        let rest_present = exists|k: int| 0 <= k < vals.len() - 1 && (#[trigger] vals[k]) is Some;
        match vals.last() {
            None => rest,
            Some(v) => if !rest_present {
                (v, v)
            } else {
                (
                    if v.nanos < rest.0.nanos { v } else { rest.0 },
                    if v.nanos > rest.1.nanos { v } else { rest.1 },
                )
            },
        }
    }
}

/// The earliest and latest present values, or the epoch twice if there is none.
pub fn min_max(vals: &[Option<Timestamp>]) -> (r: (Timestamp, Timestamp))
    ensures
        r == min_max_spec(vals@),
        forall|k: int| 0 <= k < vals@.len() && (#[trigger] vals@[k]) is Some ==> r.0.nanos <= vals@[k]->0.nanos <= r.1.nanos,
        (exists|k: int| 0 <= k < vals@.len() && (#[trigger] vals@[k]) is Some) ==> (exists|k: int|
            0 <= k < vals@.len() && vals@[k] == Some(r.0)) && (exists|k: int|
            0 <= k < vals@.len() && vals@[k] == Some(r.1)),
        (forall|k: int| 0 <= k < vals@.len() ==> (#[trigger] vals@[k]) is None) ==> r.0.nanos == 0 && r.1.nanos == 0,
{
    let mut lo = Timestamp::epoch();
    let mut hi = Timestamp::epoch();
    let mut any = false;
    let mut i: usize = 0;
    while i < vals.len()
        invariant
            i <= vals@.len(),
            (lo, hi) == min_max_spec(vals@.take(i as int)),
            any == exists|k: int| 0 <= k < i && (#[trigger] vals@[k]) is Some,
            forall|k: int| 0 <= k < i && (#[trigger] vals@[k]) is Some ==> lo.nanos <= vals@[k]->0.nanos <= hi.nanos,
            any ==> (exists|k: int| 0 <= k < i && vals@[k] == Some(lo)) && (exists|k: int|
                0 <= k < i && vals@[k] == Some(hi)),
            !any ==> lo.nanos == 0 && hi.nanos == 0,
        decreases vals@.len() - i,
    {
        let ghost prev = vals@.take(i as int);
        let ghost cur = vals@.take(i + 1);
        assert(cur.drop_last() =~= prev);
        assert(cur.last() == vals@[i as int]);
        assert(any == exists|k: int| 0 <= k < cur.len() - 1 && (#[trigger] cur[k]) is Some) by {
            if any {
                let k = choose|k: int| 0 <= k < i && (#[trigger] vals@[k]) is Some;
                assert(cur[k] == vals@[k]);
            }
            if exists|k: int| 0 <= k < cur.len() - 1 && (#[trigger] cur[k]) is Some {
                let k = choose|k: int| 0 <= k < cur.len() - 1 && (#[trigger] cur[k]) is Some;
                assert(cur[k] == vals@[k]);
            }
        }
        if let Some(v) = vals[i] {
            if !any {
                lo = v;
                hi = v;
            } else {
                if v.nanos < lo.nanos {
                    lo = v;
                }
                if v.nanos > hi.nanos {
                    hi = v;
                }
            }
            any = true;
        }
        i = i + 1;
    }
    assert(vals@.take(vals@.len() as int) =~= vals@);
    (lo, hi)
}

/// Rows whose value is present and falls on a day from `start_midnight` to
/// `end_midnight` (both in unix seconds, the end day included whole).
pub open spec fn in_day_range(v: Option<Timestamp>, start_midnight: i64, end_midnight: i64) -> bool {
    match v {
        Some(t) => start_midnight * NANOS_PER_SECOND <= t.nanos < (end_midnight + SECONDS_PER_DAY)
            * NANOS_PER_SECOND,
        None => false,
    }
}

/// A row is kept exactly when its value is present and lies on one of the
/// days from the start day through the end day, the whole end day
/// included: at or after the start day's midnight and before the midnight
/// one day after the end day's. In particular a value within the end day
/// is kept whenever the start day is not later, and a missing value is
/// never kept.
pub proof fn day_range_law(v: Option<Timestamp>, start_midnight: i64, end_midnight: i64)
    ensures
        v is None ==> !in_day_range(v, start_midnight, end_midnight),
        v matches Some(t) ==> (in_day_range(v, start_midnight, end_midnight) <==> (
        start_midnight as int) * 1_000_000_000 <= t.nanos as int && (t.nanos as int) < (
        end_midnight as int + 86_400) * 1_000_000_000),
        v matches Some(t) ==> (start_midnight <= end_midnight && (end_midnight as int)
            * 1_000_000_000 <= t.nanos as int && (t.nanos as int) < (end_midnight as int + 86_400)
            * 1_000_000_000 ==> in_day_range(v, start_midnight, end_midnight)),
{
    if let Some(t) = v {
        if start_midnight <= end_midnight {
            assert((start_midnight as int) * 1_000_000_000 <= (end_midnight as int) * 1_000_000_000)
                by (nonlinear_arith)
                requires
                    start_midnight <= end_midnight,
            ;
        }
    }
}

/// For each value, whether it lies in the day range from `start_midnight`
/// through the whole day that starts at `end_midnight`.
pub fn row_mask(vals: &[Option<Timestamp>], start_midnight: i64, end_midnight: i64) -> (mask: Vec<bool>)
    ensures
        mask@.len() == vals@.len(),
        forall|k: int| 0 <= k < vals@.len() ==> mask@[k] == in_day_range(#[trigger] vals@[k], start_midnight, end_midnight),
{
    let start = (start_midnight as i128) * NANOS_PER_SECOND;
    let end = ((end_midnight as i128) + SECONDS_PER_DAY) * NANOS_PER_SECOND;
    let mut mask: Vec<bool> = Vec::new();
    let mut i: usize = 0;
    while i < vals.len()
        invariant
            i <= vals@.len(),
            start == start_midnight * NANOS_PER_SECOND,
            end == (end_midnight + SECONDS_PER_DAY) * NANOS_PER_SECOND,
            mask@.len() == i,
            forall|k: int| 0 <= k < i ==> mask@[k] == in_day_range(#[trigger] vals@[k], start_midnight, end_midnight),
        decreases vals@.len() - i,
    {
        let keep = match vals[i] {
            Some(t) => start <= t.nanos && t.nanos < end,
            None => false,
        };
        mask.push(keep);
        i = i + 1;
    }
    mask
}

/// The rows `0..row_count` that a mask keeps; rows past the mask's end, and
/// every row when there is no mask, are kept.
pub fn included_rows(row_count: usize, mask: Option<&Vec<bool>>) -> (rows: Vec<usize>)
    ensures
        forall|k: int| 0 <= k < rows@.len() ==> (#[trigger] rows@[k]) < row_count,
        forall|k: int, l: int| 0 <= k < l < rows@.len() ==> rows@[k] < rows@[l],
        forall|r: usize| r < row_count ==> (rows@.contains(r) <==> match mask {
            None => true,
            Some(m) => r >= m@.len() || m@[r as int],
        }),
{
    let mut rows: Vec<usize> = Vec::new();
    let mut i: usize = 0;
    while i < row_count
        invariant
            i <= row_count,
            forall|k: int| 0 <= k < rows@.len() ==> (#[trigger] rows@[k]) < i,
            forall|k: int, l: int| 0 <= k < l < rows@.len() ==> rows@[k] < rows@[l],
            forall|r: usize| r < i ==> (rows@.contains(r) <==> match mask {
                None => true,
                Some(m) => r >= m@.len() || m@[r as int],
            }),
            forall|r: usize| r >= i ==> !rows@.contains(r),
        decreases row_count - i,
    {
        let keep = match mask {
            None => true,
            Some(m) => i >= m.len() || m[i],
        };
        let ghost before = rows@;
        if keep {
            rows.push(i);
            assert(rows@.last() == i);
            assert forall|r: usize| r >= i + 1 implies !rows@.contains(r) by {
                if rows@.contains(r) {
                    let k = choose|k: int| 0 <= k < rows@.len() && rows@[k] == r;
                    if k < before.len() {
                        assert(before[k] == r);
                        assert(before.contains(r));
                    }
                }
            }
            assert forall|r: usize| r < i + 1 implies (rows@.contains(r) <==> match mask {
                None => true,
                Some(m) => r >= m@.len() || m@[r as int],
            }) by {
                if r < i {
                    if before.contains(r) {
                        let k = choose|k: int| 0 <= k < before.len() && before[k] == r;
                        assert(rows@[k] == r);
                    }
                    if rows@.contains(r) {
                        let k = choose|k: int| 0 <= k < rows@.len() && rows@[k] == r;
                        assert(k < before.len());
                        assert(before[k] == r);
                    }
                } else {
                    assert(rows@[rows@.len() - 1] == r);
                }
            }
        }
        i = i + 1;
    }
    rows
}

} // verus!

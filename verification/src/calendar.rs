//! Times in UTC, from the `time` crate, as JavaScript writes them.

use crate::text::{last_digits, padded};
use crate::types::{store_error, SyncError};
use vstd::prelude::*;
use vstd::string::StringExecFns;

verus! {

/// A time in UTC, in its parts.
#[derive(Debug, Clone, Copy, PartialEq, Eq, Structural)]
pub struct UtcParts {
    pub year: i32,
    pub month: u8,
    pub day: u8,
    pub hour: u8,
    pub minute: u8,
    pub second: u8,
    pub millisecond: u16,
}

/// Whether a year of the Gregorian calendar has a leap day.
pub open spec fn leap_year(year: int) -> bool {
    year % 4 == 0 && (year % 100 != 0 || year % 400 == 0)
}

/// The days of a month.
pub open spec fn month_days(year: int, month: int) -> int {
    if month == 2 {
        if leap_year(year) {
            29
        } else {
            28
        }
    } else if month == 4 || month == 6 || month == 9 || month == 11 {
        30
    } else {
        31
    }
}

/// The days of a year before a month.
pub open spec fn days_before(year: int, month: int) -> int
    decreases month,
{
    if month <= 1 {
        0
    } else {
        days_before(year, month - 1) + month_days(year, month - 1)
    }
}

/// The days from the first of January 1970 to the first of January of a year.
pub open spec fn year_start(year: int) -> int {
    365 * (year - 1) + (year - 1) / 4 - (year - 1) / 100 + (year - 1) / 400 - 719162
}

/// The days from the first of January 1970 to a date.
pub open spec fn day_number(year: int, month: int, day: int) -> int {
    year_start(year) + days_before(year, month) + day - 1
}

/// Whether the parts stand for a time of the calendar.
pub open spec fn valid_parts(p: UtcParts) -> bool {
    &&& 1 <= p.month <= 12
    &&& 1 <= p.day <= month_days(p.year as int, p.month as int)
    &&& p.hour < 24
    &&& p.minute < 60
    &&& p.second < 60
    &&& p.millisecond < 1000
}

/// The milliseconds from the beginning of 1970 to a time.
pub open spec fn epoch_of(p: UtcParts) -> int {
    day_number(p.year as int, p.month as int, p.day as int) * 86_400_000 + p.hour * 3_600_000
        + p.minute * 60_000 + p.second * 1_000 + p.millisecond
}

/// The first nanosecond of the year -9999, counted from the beginning of 1970.
pub const FIRST_NANOS: i128 = -377_705_116_800_000_000_000;

/// The first nanosecond after the year 9999, counted from the beginning of 1970.
pub const END_NANOS: i128 = 253_402_300_800_000_000_000;

/// Calls `time::OffsetDateTime::from_unix_timestamp_nanos` and reads the parts of its result. It
/// gives a time for the years -9999 to 9999 and an error beyond; the parts are those of the
/// proleptic Gregorian calendar in UTC, the milliseconds rounded down.
#[verifier::external_body]
fn utc_parts(nanos: i128) -> (parts: Option<UtcParts>)
    ensures
        parts is Some <==> FIRST_NANOS <= nanos < END_NANOS,
        match parts {
            Some(p) => valid_parts(p) && epoch_of(p) == nanos as int / 1_000_000,
            None => true,
        },
{
    match time::OffsetDateTime::from_unix_timestamp_nanos(nanos) {
        Ok(t) => Some(UtcParts {
            year: t.year(),
            month: u8::from(t.month()),
            day: t.day(),
            hour: t.hour(),
            minute: t.minute(),
            second: t.second(),
            millisecond: t.millisecond(),
        }),
        Err(_) => None,
    }
}

/// A time as JavaScript writes it: `YYYY-MM-DDTHH:MM:SS.mmmZ`.
pub open spec fn utc_text(p: UtcParts) -> Seq<char> {
    last_digits(p.year as nat, 4) + "-"@ + last_digits(p.month as nat, 2) + "-"@ + last_digits(
        p.day as nat,
        2,
    ) + "T"@ + last_digits(p.hour as nat, 2) + ":"@ + last_digits(p.minute as nat, 2) + ":"@
        + last_digits(p.second as nat, 2) + "."@ + last_digits(p.millisecond as nat, 3) + "Z"@
}

/// The first millisecond of the year 0, counted from the beginning of 1970.
pub const FIRST_MS: i64 = -62_167_219_200_000;

/// The first millisecond after the year 9999, counted from the beginning of 1970.
pub const END_MS: i64 = 253_402_300_800_000;

/// What is said of a time that cannot be written.
pub open spec fn timestamp_failed() -> Seq<char> {
    "snapshot export timestamp formatting failed"@
}

fn write_parts(p: &UtcParts) -> (text: String)
    requires
        p.year >= 0,
    ensures
        text@ == utc_text(*p),
{
    let mut s = padded(p.year as u64, 4);
    s.append("-");
    s.append(padded(p.month as u64, 2).as_str());
    s.append("-");
    s.append(padded(p.day as u64, 2).as_str());
    s.append("T");
    s.append(padded(p.hour as u64, 2).as_str());
    s.append(":");
    s.append(padded(p.minute as u64, 2).as_str());
    s.append(":");
    s.append(padded(p.second as u64, 2).as_str());
    s.append(".");
    s.append(padded(p.millisecond as u64, 3).as_str());
    s.append("Z");
    s
}

/// Writes a time, given in milliseconds from the beginning of 1970, for the years 0 to 9999; any
/// other is refused.
pub fn format_utc_iso8601(epoch_ms: i64) -> (result: Result<String, SyncError>)
    ensures
        match result {
            Ok(text) => {
                &&& FIRST_MS <= epoch_ms < END_MS
                &&& exists|p: UtcParts| #[trigger]
                    valid_parts(p) && p.year >= 0 && epoch_of(p) == epoch_ms && text@ == utc_text(p)
            },
            Err(e) => {
                &&& !(FIRST_MS <= epoch_ms < END_MS)
                &&& store_error(e, timestamp_failed())
            },
        },
{
    match utc_parts(epoch_ms as i128 * 1_000_000) {
        Some(parts) => {
            proof {
                lemma_year_sign(parts);
            }
            if parts.year < 0 {
                return Err(SyncError::store("snapshot export timestamp formatting failed"));
            }
            Ok(write_parts(&parts))
        },
        None => Err(SyncError::store("snapshot export timestamp formatting failed")),
    }
}

proof fn lemma_days_before_bound(year: int, month: int)
    requires
        1 <= month <= 12,
    ensures
        0 <= days_before(year, month),
        days_before(year, month) + month_days(year, month) <= if leap_year(year) {
            366int
        } else {
            365int
        },
{
    reveal_with_fuel(days_before, 13);
}

proof fn lemma_year_length(year: int)
    ensures
        year_start(year + 1) == year_start(year) + if leap_year(year) {
            366int
        } else {
            365int
        },
{
}

proof fn lemma_year_start_order(a: int, b: int)
    requires
        a <= b,
    ensures
        year_start(a) <= year_start(b),
    decreases b - a,
{
    if a < b {
        lemma_year_start_order(a, b - 1);
        lemma_year_length(b - 1);
    }
}

/// A date lies within its year.
proof fn lemma_date_in_year(p: UtcParts)
    requires
        valid_parts(p),
    ensures
        year_start(p.year as int) <= day_number(p.year as int, p.month as int, p.day as int),
        day_number(p.year as int, p.month as int, p.day as int) < year_start(p.year + 1),
        day_number(p.year as int, p.month as int, p.day as int) * 86_400_000 <= epoch_of(p),
        epoch_of(p) < (day_number(p.year as int, p.month as int, p.day as int) + 1) * 86_400_000,
{
    lemma_days_before_bound(p.year as int, p.month as int);
    lemma_year_length(p.year as int);
}

proof fn lemma_year_sign(p: UtcParts)
    requires
        valid_parts(p),
    ensures
        p.year < 0 <==> epoch_of(p) < FIRST_MS,
{
    lemma_date_in_year(p);
    assert(year_start(0) * 86_400_000 == FIRST_MS);
    if p.year < 0 {
        lemma_year_start_order(p.year + 1, 0);
    } else {
        lemma_year_start_order(0, p.year as int);
    }
}

proof fn lemma_month_order(year: int, a: int, b: int)
    requires
        1 <= a < b <= 12,
    ensures
        days_before(year, a) + month_days(year, a) <= days_before(year, b),
    decreases b - a,
{
    if a < b - 1 {
        lemma_month_order(year, a, b - 1);
    }
}

/// The milliseconds of a day that have passed.
spec fn clock_of(p: UtcParts) -> int {
    p.hour * 3_600_000 + p.minute * 60_000 + p.second * 1000 + p.millisecond
}

proof fn lemma_one_year(p: UtcParts, q: UtcParts)
    requires
        valid_parts(p),
        valid_parts(q),
        day_number(p.year as int, p.month as int, p.day as int) == day_number(
            q.year as int,
            q.month as int,
            q.day as int,
        ),
    ensures
        p.year == q.year,
{
    lemma_date_in_year(p);
    lemma_date_in_year(q);
    if p.year < q.year {
        lemma_year_start_order(p.year + 1, q.year as int);
    } else if q.year < p.year {
        lemma_year_start_order(q.year + 1, p.year as int);
    }
}

proof fn lemma_one_date(p: UtcParts, q: UtcParts)
    requires
        valid_parts(p),
        valid_parts(q),
        p.year == q.year,
        day_number(p.year as int, p.month as int, p.day as int) == day_number(
            q.year as int,
            q.month as int,
            q.day as int,
        ),
    ensures
        p.month == q.month,
        p.day == q.day,
{
    if p.month < q.month {
        lemma_month_order(p.year as int, p.month as int, q.month as int);
    } else if q.month < p.month {
        lemma_month_order(p.year as int, q.month as int, p.month as int);
    }
}

proof fn lemma_one_clock(p: UtcParts, q: UtcParts)
    requires
        valid_parts(p),
        valid_parts(q),
        clock_of(p) == clock_of(q),
    ensures
        p.hour == q.hour,
        p.minute == q.minute,
        p.second == q.second,
        p.millisecond == q.millisecond,
{
    assert(p.hour == q.hour);
    assert(p.minute == q.minute);
    assert(p.second == q.second);
}

proof fn lemma_one_day(p: UtcParts, q: UtcParts)
    requires
        valid_parts(p),
        valid_parts(q),
        epoch_of(p) == epoch_of(q),
    ensures
        day_number(p.year as int, p.month as int, p.day as int) == day_number(
            q.year as int,
            q.month as int,
            q.day as int,
        ),
        clock_of(p) == clock_of(q),
{
    let a = day_number(p.year as int, p.month as int, p.day as int);
    let b = day_number(q.year as int, q.month as int, q.day as int);
    assert(epoch_of(p) == a * 86_400_000 + clock_of(p));
    assert(epoch_of(q) == b * 86_400_000 + clock_of(q));
    assert(0 <= clock_of(p) < 86_400_000);
    assert(0 <= clock_of(q) < 86_400_000);
}

/// Every millisecond has one time of the calendar.
pub proof fn law_one_time_per_millisecond(p: UtcParts, q: UtcParts)
    requires
        valid_parts(p),
        valid_parts(q),
        epoch_of(p) == epoch_of(q),
    ensures
        p == q,
{
    lemma_one_day(p, q);
    lemma_one_year(p, q);
    lemma_one_date(p, q);
    lemma_one_clock(p, q);
}

proof fn lemma_last_digits_len(n: nat, width: nat)
    ensures
        last_digits(n, width).len() == width,
    decreases width,
{
    if width > 0 {
        lemma_last_digits_len(n / 10, (width - 1) as nat);
    }
}

/// A written time has 24 characters.
pub proof fn law_written_time_length(p: UtcParts)
    ensures
        utc_text(p).len() == 24,
{
    reveal_strlit("-");
    reveal_strlit("T");
    reveal_strlit(":");
    reveal_strlit(".");
    reveal_strlit("Z");
    lemma_last_digits_len(p.year as nat, 4);
    lemma_last_digits_len(p.month as nat, 2);
    lemma_last_digits_len(p.day as nat, 2);
    lemma_last_digits_len(p.hour as nat, 2);
    lemma_last_digits_len(p.minute as nat, 2);
    lemma_last_digits_len(p.second as nat, 2);
    lemma_last_digits_len(p.millisecond as nat, 3);
}

} // verus!

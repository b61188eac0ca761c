//! The local date and time that names a recording, and its rendering as
//! text through chrono.
use vstd::prelude::*;
use crate::text::padded;

verus! {

/// A local calendar date and wall-clock time, as read from the system.
#[derive(Debug, Clone, Copy, PartialEq, Eq, Structural)]
pub struct LocalTime {
    pub year: i32,
    pub month: u32,
    pub day: u32,
    pub hour: u32,
    pub minute: u32,
    pub second: u32,
}

/// Whether `y` is a leap year of the proleptic Gregorian calendar.
pub open spec fn is_leap_year(y: int) -> bool {
    let a = if y < 0 { -y } else { y };
    a % 4 == 0 && (a % 100 != 0 || a % 400 == 0)
}

/// The number of days of month `m` (1 to 12) of year `y`.
pub open spec fn days_in_month(y: int, m: int) -> int {
    if m == 2 {
        if is_leap_year(y) { 29 } else { 28 }
    } else if m == 4 || m == 6 || m == 9 || m == 11 {
        30
    } else {
        31
    }
}

/// The date and time exist: a day of the calendar within the years chrono
/// represents, and a time of day without leap second.
pub open spec fn valid_fields(year: i32, month: u32, day: u32, hour: u32, minute: u32, second: u32) -> bool {
    &&& -262143 <= year <= 262142
    &&& 1 <= month <= 12
    &&& 1 <= day <= days_in_month(year as int, month as int)
    &&& hour < 24
    &&& minute < 60
    &&& second < 60
}

/// Two zero-padded digits.
pub open spec fn two(n: u32) -> Seq<char> {
    padded(n as nat, 2)
}

/// The stamp that names a session's files, `YYYYMMDD_HHMMSS`, for a year of
/// four digits.
pub open spec fn date_stamp(t: LocalTime) -> Seq<char> {
    padded(t.year as nat, 4) + two(t.month) + two(t.day) + "_"@ + two(t.hour) + two(t.minute) + two(t.second)
}

/// The time of day, `HH:MM:SS`.
pub open spec fn clock_text(t: LocalTime) -> Seq<char> {
    two(t.hour) + ":"@ + two(t.minute) + ":"@ + two(t.second)
}

impl LocalTime {
    pub open spec fn valid(self) -> bool {
        valid_fields(self.year, self.month, self.day, self.hour, self.minute, self.second)
    }

    /// The local time with the given fields; `None` when no such date or
    /// time exists.
    pub fn new(year: i32, month: u32, day: u32, hour: u32, minute: u32, second: u32) -> (r: Option<LocalTime>)
        ensures
            r is Some <==> valid_fields(year, month, day, hour, minute, second),
            r matches Some(t) ==> t == (LocalTime { year, month, day, hour, minute, second }),
    {
        if year < -262143 || year > 262142 || month < 1 || month > 12 || hour >= 24 || minute >= 60 || second >= 60 {
            return None;
        }
        let a: u32 = if year < 0 { (0 - (year as i64)) as u32 } else { year as u32 };
        let leap = a % 4 == 0 && (a % 100 != 0 || a % 400 == 0);
        let days: u32 = if month == 2 {
            if leap { 29 } else { 28 }
        } else if month == 4 || month == 6 || month == 9 || month == 11 {
            30
        } else {
            31
        };
        if day < 1 || day > days {
            return None;
        }
        Some(LocalTime { year, month, day, hour, minute, second })
    }
}

/// The two patterns a recording uses: the stamp of its files and the time of
/// its label.
pub open spec fn known_pattern(p: Seq<char>) -> bool {
    p == "%Y%m%d_%H%M%S"@ || p == "%H:%M:%S"@
}

/// chrono's `NaiveDateTime::format(pattern)`, rendered to a `String`, of the
/// date and time in `t`, built by `NaiveDate::from_ymd_opt` and
/// `NaiveDate::and_hms_opt`. Those return `None` exactly when the date or the
/// time does not exist, as their documentation says; then so does this. By
/// chrono's strftime table, `%Y` is the year zero-padded to four digits (a
/// year before 0 or after 9999 takes a sign, whose form is not stated here),
/// and `%m`, `%d`, `%H`, `%M`, `%S` are two zero-padded digits each; other
/// characters of the pattern are copied. Both patterns admitted are valid
/// and need no time zone, so formatting cannot fail.
#[verifier::external_body]
fn format_local_time(t: &LocalTime, pattern: &str) -> (r: Option<String>)
    requires
        known_pattern(pattern@),
    ensures
        r is Some <==> t.valid(),
        r matches Some(s) ==> (pattern@ == "%Y%m%d_%H%M%S"@ && 0 <= t.year <= 9999 ==> s@ == date_stamp(*t)),
        r matches Some(s) ==> (pattern@ == "%H:%M:%S"@ ==> s@ == clock_text(*t)),
{
    match chrono::NaiveDate::from_ymd_opt(t.year, t.month, t.day) {
        Some(date) => match date.and_hms_opt(t.hour, t.minute, t.second) {
            Some(dt) => Some(dt.format(pattern).to_string()),
            None => None,
        },
        None => None,
    }
}

/// The stamp that names a session's files, `%Y%m%d_%H%M%S` of the local
/// time: `YYYYMMDD_HHMMSS` for a year of four digits.
pub fn file_stamp(t: &LocalTime) -> (s: String)
    requires
        t.valid(),
    ensures
        0 <= t.year <= 9999 ==> s@ == date_stamp(*t),
{
    match format_local_time(t, "%Y%m%d_%H%M%S") {
        Some(s) => s,
        None => String::new(),
    }
}

/// The time of day of the local time, `%H:%M:%S`.
pub fn clock_stamp(t: &LocalTime) -> (s: String)
    requires
        t.valid(),
    ensures
        s@ == clock_text(*t),
{
    match format_local_time(t, "%H:%M:%S") {
        Some(s) => s,
        None => String::new(),
    }
}

} // verus!

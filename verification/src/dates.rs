//! Civil dates and wall-clock times, and the date arithmetic the layout needs.
use vstd::prelude::*;

verus! {

/// A day of the proleptic Gregorian calendar.
#[derive(Clone, Copy, Debug, PartialEq, Eq, Structural)]
pub struct CivilDate {
    pub year: i16,
    pub month: i8,
    pub day: i8,
}

/// A wall-clock time of day: hour `0..=23`, minute `0..=59`.
#[derive(Clone, Copy, Debug, PartialEq, Eq, Structural)]
pub struct LocalTime {
    pub hour: u8,
    pub minute: u8,
}

/// A civil date together with a wall-clock time.
#[derive(Clone, Copy, Debug, PartialEq, Eq, Structural)]
pub struct LocalDateTime {
    pub date: CivilDate,
    pub time: LocalTime,
}

pub open spec fn is_leap_year(y: int) -> bool {
    y % 4 == 0 && (y % 100 != 0 || y % 400 == 0)
}

pub open spec fn days_in_month(y: int, m: int) -> int {
    if m == 2 {
        if is_leap_year(y) { 29 } else { 28 }
    } else if m == 4 || m == 6 || m == 9 || m == 11 {
        30
    } else {
        31
    }
}

/// A real date in the years `-9999..=9999`, the range both date libraries in use accept.
pub open spec fn valid_date(d: CivilDate) -> bool {
    &&& -9999 <= d.year <= 9999
    &&& 1 <= d.month <= 12
    &&& 1 <= d.day <= days_in_month(d.year as int, d.month as int)
}

pub open spec fn valid_time(t: LocalTime) -> bool {
    t.hour < 24 && t.minute < 60
}

/// Number of days from 1970-01-01 to the given date (negative before it).
#[verifier::opaque]
pub open spec fn epoch_day(d: CivilDate) -> int {
    let y = if d.month <= 2 { d.year - 1 } else { d.year as int };
    let era = y / 400;
    let yoe = y - era * 400;
    let mp = (d.month + 9) % 12;
    let doy = (153 * mp + 2) / 5 + d.day - 1;
    let doe = yoe * 365 + yoe / 4 - yoe / 100 + doy;
    era * 146097 + doe - 719468
}

/// Minutes since midnight of a wall-clock time.
pub open spec fn minutes_of_day(t: LocalTime) -> int {
    t.hour * 60 + t.minute
}

/// Minutes since midnight of the time shown.
pub fn date_to_mins(t: LocalTime) -> (r: u16)
    requires
        valid_time(t),
    ensures
        r == minutes_of_day(t),
{
    t.hour as u16 * 60 + t.minute as u16
}

/// Signed number of days from `other` to `date`, as `jiff::civil::Date::since` gives it
/// in its default configuration (days as the largest unit) read back with
/// `Span::get_days`. The contract states that this is the difference of the two dates'
/// day numbers, which is what jiff documents for the default configuration; both dates
/// are valid, so neither `Date::new` nor `since` fails.
#[verifier::external_body]
pub fn days_since(date: CivilDate, other: CivilDate) -> (r: i32)
    requires
        valid_date(date),
        valid_date(other),
    ensures
        r == epoch_day(date) - epoch_day(other),
{
    let a = jiff::civil::Date::new(date.year, date.month, date.day).unwrap();
    let b = jiff::civil::Date::new(other.year, other.month, other.day).unwrap();
    a.since(b).unwrap().get_days()
}

/// Smallest microsecond count since the Unix epoch that `jiff::Timestamp` accepts.
pub open spec fn min_timestamp_micros() -> int {
    (-377705116800 + 93599) * 1_000_000
}

/// Largest microsecond count since the Unix epoch that `jiff::Timestamp::from_microsecond`
/// accepts: the start of its largest second.
pub open spec fn max_timestamp_micros() -> int {
    (253402300799 - 93599) * 1_000_000
}

/// Local wall-clock seconds (UTC+2) of a microsecond timestamp, rounded down.
pub open spec fn local_seconds(micros: int) -> int {
    micros / 1_000_000 + 2 * 3600
}

/// Converts microseconds since the Unix epoch to the date and time at the fixed UTC+2
/// offset, through `jiff::Timestamp::from_microsecond` and `Timestamp::to_zoned` with
/// `TimeZone::fixed(offset(2))`. The contract states the calendar arithmetic jiff
/// performs: the local day number and the hour and minute within that day.
#[verifier::external_body]
pub fn get_time(micros: i64) -> (r: LocalDateTime)
    requires
        min_timestamp_micros() <= micros <= max_timestamp_micros(),
    ensures
        valid_date(r.date),
        valid_time(r.time),
        epoch_day(r.date) == local_seconds(micros as int) / 86400,
        r.time.hour == (local_seconds(micros as int) % 86400) / 3600,
        r.time.minute == (local_seconds(micros as int) % 3600) / 60,
{
    let tz = jiff::tz::TimeZone::fixed(jiff::tz::offset(2));
    let now = jiff::Timestamp::from_microsecond(micros).unwrap().to_zoned(tz);
    LocalDateTime {
        date: CivilDate { year: now.year(), month: now.month(), day: now.day() },
        time: LocalTime { hour: now.hour() as u8, minute: now.minute() as u8 },
    }
}

/// What `icu::datetime::DateTimeFormatter` with locale `hu-HU` and the long
/// year-month-day-weekday field set writes for a Gregorian date.
pub uninterp spec fn hungarian_long_date(year: int, month: int, day: int) -> Seq<char>;

/// Formats a date the long Hungarian way (as in "2026. július 11., szombat") with
/// `icu_datetime::DateTimeFormatter` and the compiled `hu-HU` data. The text itself is
/// named, not spelled out: the contract ties it to the date's three fields only.
#[verifier::external_body]
pub fn format_long_date_hu(date: CivilDate) -> (r: String)
    requires
        valid_date(date),
    ensures
        r@ == hungarian_long_date(date.year as int, date.month as int, date.day as int),
{
    let icu_date = icu_datetime::input::Date::try_new_gregorian(
        date.year as i32,
        date.month as u8,
        date.day as u8,
    ).unwrap();
    let locale = icu::locale::Locale::try_from_str("hu-HU").unwrap();
    let formatter = icu_datetime::DateTimeFormatter::try_new(
        locale.into(),
        icu_datetime::fieldsets::YMDE::long(),
    ).unwrap();
    formatter.format(&icu_date).to_string()
}

/// The seven days of the week, Monday first.
#[derive(Clone, Copy, Debug, PartialEq, Eq, Structural)]
pub enum Weekday {
    Monday,
    Tuesday,
    Wednesday,
    Thursday,
    Friday,
    Saturday,
    Sunday,
}

/// Position of a weekday, Monday being 0.
pub open spec fn weekday_index(d: Weekday) -> int {
    match d {
        Weekday::Monday => 0,
        Weekday::Tuesday => 1,
        Weekday::Wednesday => 2,
        Weekday::Thursday => 3,
        Weekday::Friday => 4,
        Weekday::Saturday => 5,
        Weekday::Sunday => 6,
    }
}

/// The weekday at position `i % 7`, Monday being 0.
pub open spec fn weekday_at(i: int) -> Weekday {
    let k = i % 7;
    if k == 0 {
        Weekday::Monday
    } else if k == 1 {
        Weekday::Tuesday
    } else if k == 2 {
        Weekday::Wednesday
    } else if k == 3 {
        Weekday::Thursday
    } else if k == 4 {
        Weekday::Friday
    } else if k == 5 {
        Weekday::Saturday
    } else {
        Weekday::Sunday
    }
}

fn weekday_from_index(i: u8) -> (d: Weekday)
    requires
        i < 7,
    ensures
        weekday_index(d) == i,
{
    match i {
        0 => Weekday::Monday,
        1 => Weekday::Tuesday,
        2 => Weekday::Wednesday,
        3 => Weekday::Thursday,
        4 => Weekday::Friday,
        5 => Weekday::Saturday,
        _ => Weekday::Sunday,
    }
}

fn weekday_to_index(d: Weekday) -> (i: u8)
    ensures
        i == weekday_index(d),
{
    match d {
        Weekday::Monday => 0,
        Weekday::Tuesday => 1,
        Weekday::Wednesday => 2,
        Weekday::Thursday => 3,
        Weekday::Friday => 4,
        Weekday::Saturday => 5,
        Weekday::Sunday => 6,
    }
}

/// The weekday `days` days after `d`, wrapping around the week.
pub fn weekday_wrapping_add(d: Weekday, days: u8) -> (r: Weekday)
    ensures
        weekday_index(r) == (weekday_index(d) + days) % 7,
        r == weekday_at(weekday_index(d) + days),
{
    let i = weekday_to_index(d);
    let n = ((i as u16 + days as u16) % 7) as u8;
    weekday_from_index(n)
}

/// The English name of a weekday.
pub open spec fn weekday_name(d: Weekday) -> Seq<char> {
    match d {
        Weekday::Monday => "Monday"@,
        Weekday::Tuesday => "Tuesday"@,
        Weekday::Wednesday => "Wednesday"@,
        Weekday::Thursday => "Thursday"@,
        Weekday::Friday => "Friday"@,
        Weekday::Saturday => "Saturday"@,
        Weekday::Sunday => "Sunday"@,
    }
}

/// Number of letters in the English name of a weekday.
pub open spec fn weekday_name_len(d: Weekday) -> int {
    match d {
        Weekday::Monday => 6,
        Weekday::Tuesday => 7,
        Weekday::Wednesday => 9,
        Weekday::Thursday => 8,
        Weekday::Friday => 6,
        Weekday::Saturday => 8,
        Weekday::Sunday => 6,
    }
}

/// The English name of a weekday, as the day labels show it.
pub fn day_name(d: Weekday) -> (s: &'static str)
    ensures
        s@ == weekday_name(d),
        s@.len() == weekday_name_len(d),
{
    match d {
        Weekday::Monday => {
            proof { reveal_strlit("Monday"); }
            "Monday"
        }
        Weekday::Tuesday => {
            proof { reveal_strlit("Tuesday"); }
            "Tuesday"
        }
        Weekday::Wednesday => {
            proof { reveal_strlit("Wednesday"); }
            "Wednesday"
        }
        Weekday::Thursday => {
            proof { reveal_strlit("Thursday"); }
            "Thursday"
        }
        Weekday::Friday => {
            proof { reveal_strlit("Friday"); }
            "Friday"
        }
        Weekday::Saturday => {
            proof { reveal_strlit("Saturday"); }
            "Saturday"
        }
        Weekday::Sunday => {
            proof { reveal_strlit("Sunday"); }
            "Sunday"
        }
    }
}

} // verus!

use vstd::prelude::*;
use crate::text::{decimal, decimal_text, padded2, padded2_text};

verus! {

/// First year that the calendar model represents.
pub const MIN_YEAR: u32 = 1;

/// Last year that the calendar model represents (the date literals carry four year digits).
pub const MAX_YEAR: u32 = 9999;

/// Fixed offset, in hours, that the date-time literals of the calendar export are shifted by
/// to reach local time.
pub const TZ_OFFSET_HOURS: u32 = 2;

pub open spec fn is_leap_year(year: int) -> bool {
    (year % 4 == 0 && year % 100 != 0) || year % 400 == 0
}

/// Number of days in `month` of `year` in the proleptic Gregorian calendar.
pub open spec fn days_in_month_spec(year: int, month: int) -> int {
    if month == 2 {
        if is_leap_year(year) { 29 } else { 28 }
    } else if month == 4 || month == 6 || month == 9 || month == 11 {
        30
    } else {
        31
    }
}

/// A `(year, month, day)` triple naming a real day of the representable range.
pub open spec fn valid_date(d: (u32, u32, u32)) -> bool {
    &&& MIN_YEAR <= d.0 <= MAX_YEAR
    &&& 1 <= d.1 <= 12
    &&& 1 <= d.2 <= days_in_month_spec(d.0 as int, d.1 as int)
}

pub open spec fn min_date() -> (u32, u32, u32) {
    (MIN_YEAR, 1, 1)
}

pub open spec fn max_date() -> (u32, u32, u32) {
    (MAX_YEAR, 12, 31)
}

/// Calendar order of two dates.
pub open spec fn date_le(a: (u32, u32, u32), b: (u32, u32, u32)) -> bool {
    a.0 < b.0 || (a.0 == b.0 && (a.1 < b.1 || (a.1 == b.1 && a.2 <= b.2)))
}

/// The day after `d`.
pub open spec fn next_date(d: (u32, u32, u32)) -> (u32, u32, u32) {
    if (d.2 as int) < days_in_month_spec(d.0 as int, d.1 as int) {
        (d.0, d.1, (d.2 + 1) as u32)
    } else if d.1 < 12 {
        (d.0, (d.1 + 1) as u32, 1)
    } else {
        ((d.0 + 1) as u32, 1, 1)
    }
}

/// The day before `d`.
pub open spec fn prev_date(d: (u32, u32, u32)) -> (u32, u32, u32) {
    if d.2 > 1 {
        (d.0, d.1, (d.2 - 1) as u32)
    } else if d.1 > 1 {
        (d.0, (d.1 - 1) as u32, days_in_month_spec(d.0 as int, d.1 - 1) as u32)
    } else {
        ((d.0 - 1) as u32, 12, 31)
    }
}

/// Per-month offsets of the weekday congruence.
pub open spec fn month_offset(month: int) -> int {
    seq![0int, 3, 2, 5, 0, 3, 5, 1, 4, 6, 2, 4][month - 1]
}

/// Weekday of a date, 0 for Monday up to 6 for Sunday.
pub open spec fn weekday_spec(d: (u32, u32, u32)) -> int {
    let y: int = if d.1 < 3 { d.0 - 1 } else { d.0 as int };
    (y + y / 4 - y / 100 + y / 400 + month_offset(d.1 as int) + d.2 + 6) % 7
}

/// Number of days in a month.
pub fn days_in_month(year: u32, month: u32) -> (r: u32)
    requires
        1 <= month <= 12,
    ensures
        r as int == days_in_month_spec(year as int, month as int),
{
    if month == 2 {
        if (year % 4 == 0 && year % 100 != 0) || year % 400 == 0 {
            29
        } else {
            28
        }
    } else if month == 4 || month == 6 || month == 9 || month == 11 {
        30
    } else {
        31
    }
}

/// Weekday of a date, 0 for Monday up to 6 for Sunday.
pub fn day_of_week(d: (u32, u32, u32)) -> (r: u32)
    requires
        valid_date(d),
    ensures
        r as int == weekday_spec(d),
        r < 7,
{
    let t: [u32; 12] = [0, 3, 2, 5, 0, 3, 5, 1, 4, 6, 2, 4];
    let mut y: u32 = d.0;
    if d.1 < 3 {
        y = y - 1;
    }
    let i: usize = (d.1 - 1) as usize;
    assert(t@ =~= seq![0u32, 3, 2, 5, 0, 3, 5, 1, 4, 6, 2, 4]);
    let off = t[i];
    assert(off as int == month_offset(d.1 as int));
    (y + y / 4 - y / 100 + y / 400 + off + d.2 + 6) % 7
}

/// Name of a weekday number; the empty string for a number above 6.
pub fn dow_to_str(n: u32) -> (r: &'static str)
    ensures
        r@ == dow_name(n as int)@,
{
    match n {
        0 => "Hétfő",
        1 => "Kedd",
        2 => "Szerda",
        3 => "Csütörtök",
        4 => "Péntek",
        5 => "Szombat",
        6 => "Vasárnap",
        _ => "",
    }
}

pub open spec fn dow_name(n: int) -> &'static str {
    if n == 0 {
        "Hétfő"
    } else if n == 1 {
        "Kedd"
    } else if n == 2 {
        "Szerda"
    } else if n == 3 {
        "Csütörtök"
    } else if n == 4 {
        "Péntek"
    } else if n == 5 {
        "Szombat"
    } else if n == 6 {
        "Vasárnap"
    } else {
        ""
    }
}

/// Name of the weekday on which a date falls.
pub fn day_to_dowstr(n: (u32, u32, u32)) -> (r: &'static str)
    requires
        valid_date(n),
    ensures
        r@ == dow_name(weekday_spec(n))@,
{
    dow_to_str(day_of_week(n))
}

/// Whether `d` is the first representable date.
pub fn is_min_date(d: (u32, u32, u32)) -> (r: bool)
    ensures
        r == (d == min_date()),
{
    d.0 == MIN_YEAR && d.1 == 1 && d.2 == 1
}

/// Whether `d` is the last representable date.
pub fn is_max_date(d: (u32, u32, u32)) -> (r: bool)
    ensures
        r == (d == max_date()),
{
    d.0 == MAX_YEAR && d.1 == 12 && d.2 == 31
}

/// The day after `d`, rolling over month and year ends.
pub fn next_day(d: (u32, u32, u32)) -> (r: (u32, u32, u32))
    requires
        valid_date(d),
        d != max_date(),
    ensures
        r == next_date(d),
        valid_date(r),
{
    let dim = days_in_month(d.0, d.1);
    if d.2 < dim {
        (d.0, d.1, d.2 + 1)
    } else if d.1 < 12 {
        (d.0, d.1 + 1, 1)
    } else {
        (d.0 + 1, 1, 1)
    }
}

/// The day before `d`, rolling back over month and year starts.
pub fn prev_day(d: (u32, u32, u32)) -> (r: (u32, u32, u32))
    requires
        valid_date(d),
        d != min_date(),
    ensures
        r == prev_date(d),
        valid_date(r),
{
    if d.2 > 1 {
        (d.0, d.1, d.2 - 1)
    } else if d.1 > 1 {
        (d.0, d.1 - 1, days_in_month(d.0, d.1 - 1))
    } else {
        (d.0 - 1, 12, 31)
    }
}

/// Stepping back one day and then forward one day returns to the starting date.
pub proof fn lemma_next_of_prev(d: (u32, u32, u32))
    requires
        valid_date(d),
        d != min_date(),
    ensures
        valid_date(prev_date(d)),
        prev_date(d) != max_date(),
        next_date(prev_date(d)) == d,
{
}

/// Stepping forward one day and then back one day returns to the starting date.
pub proof fn lemma_prev_of_next(d: (u32, u32, u32))
    requires
        valid_date(d),
        d != max_date(),
    ensures
        valid_date(next_date(d)),
        next_date(d) != min_date(),
        prev_date(next_date(d)) == d,
{
}

/// The day after a date falls on the next weekday.
pub proof fn lemma_next_weekday(d: (u32, u32, u32))
    requires
        valid_date(d),
        d != max_date(),
    ensures
        weekday_spec(next_date(d)) == (weekday_spec(d) + 1) % 7,
{
}

/// The day after a date comes after it in calendar order, and nothing lies between them.
pub proof fn lemma_next_is_successor(d: (u32, u32, u32), e: (u32, u32, u32))
    requires
        valid_date(d),
        d != max_date(),
        valid_date(e),
    ensures
        date_le(d, next_date(d)),
        d != next_date(d),
        date_le(d, e) && d != e ==> date_le(next_date(d), e),
{
}

/// An hour and minute of a day.
#[derive(Clone, Copy, Debug, PartialEq, Eq, Structural)]
pub struct TimeStamp {
    pub h: u32,
    pub m: u32,
}

impl TimeStamp {
    /// Minutes since midnight.
    pub open spec fn minutes(self) -> int {
        self.h * 60 + self.m
    }

    /// The time as `HH:MM`.
    pub fn to_text(&self) -> (r: String)
        ensures
            r@ == padded2(self.h as nat) + ":"@ + padded2(self.m as nat),
    {
        let mut r = padded2_text(self.h);
        r.append(":");
        r.append(padded2_text(self.m).as_str());
        r
    }

    /// Adds a number of minutes, carrying whole hours into the hour field.
    pub fn add(self, minute: u32) -> (r: TimeStamp)
        requires
            self.m + minute <= u32::MAX,
            self.h + (self.m + minute) / 60 <= u32::MAX,
        ensures
            r.minutes() == self.minutes() + minute,
            r.m < 60,
    {
        let total: u32 = self.m + minute;
        let r = TimeStamp { h: self.h + total / 60, m: total % 60 };
        assert(r.h * 60 + r.m == self.h * 60 + total) by (nonlinear_arith)
            requires
                r.h == self.h + total / 60,
                r.m == total % 60,
        ;
        r
    }

    /// Adds a number of minutes in place.
    pub fn add_assign(&mut self, min: u32)
        requires
            old(self).m + min <= u32::MAX,
            old(self).h + (old(self).m + min) / 60 <= u32::MAX,
        ensures
            final(self).minutes() == old(self).minutes() + min,
            final(self).m < 60,
    {
        *self = self.add(min);
    }
}

/// A calendar date with a time of day, and the weekday of the date.
#[derive(Clone, Copy, Debug, Default, PartialEq, Eq, Structural, PartialOrd, Ord)]
pub struct ICSTime {
    pub year: u32,
    pub month: u32,
    pub day: u32,
    pub hour: u32,
    pub min: u32,
    pub dow: u32,
}

/// Why a line, a block or a field of the calendar text could not be read.
#[derive(Clone, Copy, Debug, PartialEq, Eq, Structural)]
pub enum ParseError {
    /// A line without a `:` delimiter, or with an empty key.
    MalformedLine,
    /// A block closed before a required field was set, or a summary lacks a separator.
    MissingField,
    /// A date-time literal that is too short, not numeric or out of range.
    InvalidDateLiteral,
}

pub open spec fn is_digit(c: char) -> bool {
    '0' <= c <= '9'
}

pub open spec fn all_digits(s: Seq<char>, from: int, to: int) -> bool {
    forall|i: int| from <= i < to ==> is_digit(#[trigger] s[i])
}

/// The decimal number written by the characters `s[from..to]`.
pub open spec fn number_at(s: Seq<char>, from: int, to: int) -> int
    decreases to - from,
{
    if to <= from {
        0
    } else {
        number_at(s, from, to - 1) * 10 + (s[to - 1] as int - '0' as int)
    }
}

pub open spec fn literal_year(s: Seq<char>) -> int {
    number_at(s, 0, 4)
}

pub open spec fn literal_month(s: Seq<char>) -> int {
    number_at(s, 4, 6)
}

pub open spec fn literal_day(s: Seq<char>) -> int {
    number_at(s, 6, 8)
}

pub open spec fn literal_hour(s: Seq<char>) -> int {
    number_at(s, 9, 11)
}

pub open spec fn literal_minute(s: Seq<char>) -> int {
    number_at(s, 11, 13)
}

/// A date-time literal `YYYYMMDDxhhmm...`: the character at index 8 is a separator that is
/// skipped, and whatever follows index 13 is ignored.
pub open spec fn valid_time_literal(s: Seq<char>) -> bool {
    &&& s.len() >= 13
    &&& all_digits(s, 0, 8)
    &&& all_digits(s, 9, 13)
    &&& MIN_YEAR <= literal_year(s) <= MAX_YEAR
    &&& 1 <= literal_month(s) <= 12
    &&& 1 <= literal_day(s) <= days_in_month_spec(literal_year(s), literal_month(s))
    &&& literal_hour(s) < 24
    &&& literal_minute(s) < 60
}

/// The time value that a valid date-time literal denotes, hour shifted by the fixed offset.
pub open spec fn time_of_literal(s: Seq<char>) -> ICSTime {
    let d = (literal_year(s) as u32, literal_month(s) as u32, literal_day(s) as u32);
    ICSTime {
        year: d.0,
        month: d.1,
        day: d.2,
        hour: (literal_hour(s) + TZ_OFFSET_HOURS) as u32,
        min: literal_minute(s) as u32,
        dow: weekday_spec(d) as u32,
    }
}

/// A time value written as `WEEKDAY, YEAR.MM.DD. HH:MM`.
pub open spec fn ics_text(t: ICSTime) -> Seq<char> {
    dow_name(t.dow as int)@ + ", "@ + decimal(t.year as nat) + "."@ + padded2(t.month as nat) + "."@
        + padded2(t.day as nat) + ". "@ + padded2(t.hour as nat) + ":"@ + padded2(t.min as nat)
}

/// The date of a time value.
pub open spec fn date_of(t: ICSTime) -> (u32, u32, u32) {
    (t.year, t.month, t.day)
}

/// Order of the times of day of two time values: by hour, then minute.
pub open spec fn time_le(a: ICSTime, b: ICSTime) -> bool {
    a.hour < b.hour || (a.hour == b.hour && a.min <= b.min)
}

/// Chronological order of two time values: by date, then hour, then minute.
pub open spec fn ics_le(a: ICSTime, b: ICSTime) -> bool {
    date_le(date_of(a), date_of(b)) && (date_of(a) == date_of(b) ==> time_le(a, b))
}

/// Reads the decimal number of `s[from..to]`, or `None` when a character there is no digit.
fn read_number(s: &str, from: usize, to: usize) -> (r: Option<u32>)
    requires
        from <= to <= s@.len(),
        to - from <= 4,
    ensures
        r is Some <==> all_digits(s@, from as int, to as int),
        r matches Some(n) ==> n as int == number_at(s@, from as int, to as int),
{
    let mut acc: u32 = 0;
    let mut i: usize = from;
    while i < to
        invariant
            from <= i <= to <= s@.len(),
            to - from <= 4,
            all_digits(s@, from as int, i as int),
            acc as int == number_at(s@, from as int, i as int),
            acc < pow10((i - from) as nat),
        decreases to - i,
    {
        let c = s.get_char(i);
        if c < '0' || c > '9' {
            return None;
        }
        let d: u32 = (c as u32) - ('0' as u32);
        assert(pow10((i - from) as nat) <= 1000) by {
            reveal_with_fuel(pow10, 4);
        }
        assert(acc * 10 + d < pow10((i + 1 - from) as nat)) by (nonlinear_arith)
            requires
                acc < pow10((i - from) as nat),
                d < 10,
                pow10((i + 1 - from) as nat) == pow10((i - from) as nat) * 10,
        ;
        acc = acc * 10 + d;
        i = i + 1;
    }
    Some(acc)
}

pub open spec fn pow10(n: nat) -> int
    decreases n,
{
    if n == 0 {
        1
    } else {
        pow10((n - 1) as nat) * 10
    }
}

impl ICSTime {
    /// Reads a date-time literal and shifts its hour by the fixed offset of the export.
    pub fn new(time_string: &str) -> (r: Result<ICSTime, ParseError>)
        ensures
            r is Ok <==> valid_time_literal(time_string@),
            r matches Err(e) ==> e == ParseError::InvalidDateLiteral,
            r matches Ok(t) ==> t == time_of_literal(time_string@),
            r matches Ok(t) ==> {
                let s = time_string@;
                &&& t.year == literal_year(s)
                &&& t.month == literal_month(s)
                &&& t.day == literal_day(s)
                &&& t.hour == literal_hour(s) + TZ_OFFSET_HOURS
                &&& t.min == literal_minute(s)
                &&& t.dow == weekday_spec(date_of(t))
            },
    {
        let len = time_string.unicode_len();
        if len < 13 {
            return Err(ParseError::InvalidDateLiteral);
        }
        let y = read_number(time_string, 0, 4);
        let m = read_number(time_string, 4, 6);
        let d = read_number(time_string, 6, 8);
        let hr = read_number(time_string, 9, 11);
        let mi = read_number(time_string, 11, 13);
        proof {
            let s = time_string@;
            assert(all_digits(s, 0, 8) <==> all_digits(s, 0, 4) && all_digits(s, 4, 6)
                && all_digits(s, 6, 8));
        }
        match (y, m, d, hr, mi) {
            (Some(y), Some(m), Some(d), Some(hr), Some(mi)) => {
                if y < MIN_YEAR || y > MAX_YEAR || m < 1 || m > 12 || hr >= 24 || mi >= 60 {
                    return Err(ParseError::InvalidDateLiteral);
                }
                if d < 1 || d > days_in_month(y, m) {
                    return Err(ParseError::InvalidDateLiteral);
                }
                let dow = day_of_week((y, m, d));
                Ok(ICSTime { year: y, month: m, day: d, hour: hr + TZ_OFFSET_HOURS, min: mi, dow })
            },
            _ => Err(ParseError::InvalidDateLiteral),
        }
    }

    /// The time value as `WEEKDAY, YEAR.MM.DD. HH:MM`.
    pub fn to_text(&self) -> (r: String)
        ensures
            r@ == ics_text(*self),
    {
        let mut r = String::from_str(dow_to_str(self.dow));
        r.append(", ");
        r.append(decimal_text(self.year).as_str());
        r.append(".");
        r.append(padded2_text(self.month).as_str());
        r.append(".");
        r.append(padded2_text(self.day).as_str());
        r.append(". ");
        r.append(padded2_text(self.hour).as_str());
        r.append(":");
        r.append(padded2_text(self.min).as_str());
        r
    }

    /// Whether this time value falls on the given date.
    pub fn is_on_day(&self, date_tuple: (u32, u32, u32)) -> (r: bool)
        ensures
            r == (date_of(*self) == date_tuple),
    {
        self.year == date_tuple.0 && self.month == date_tuple.1 && self.day == date_tuple.2
    }
}

/// Chronological order of two time values: by date, then hour, then minute.
pub fn ics_before_eq(a: &ICSTime, b: &ICSTime) -> (r: bool)
    ensures
        r == ics_le(*a, *b),
{
    if a.year != b.year {
        a.year < b.year
    } else if a.month != b.month {
        a.month < b.month
    } else if a.day != b.day {
        a.day < b.day
    } else if a.hour != b.hour {
        a.hour < b.hour
    } else {
        a.min <= b.min
    }
}

/// Whether the date `a` comes no later than the date `b`.
pub fn date_before_eq(a: (u32, u32, u32), b: (u32, u32, u32)) -> (r: bool)
    ensures
        r == date_le(a, b),
{
    if a.0 != b.0 {
        a.0 < b.0
    } else if a.1 != b.1 {
        a.1 < b.1
    } else {
        a.2 <= b.2
    }
}

#[verifier::external_type_specification]
#[verifier::external_body]
pub struct ExNaiveDate(chrono::NaiveDate);

/// Relies on chrono's `Local::now` and `DateTime::date_naive`: the local date now.
#[verifier::external_body]
fn local_date_now() -> (r: chrono::NaiveDate) {
    chrono::Local::now().date_naive()
}

/// Relies on chrono's `Datelike` for `NaiveDate`: the year, the month (1 to 12) and the day of
/// month (1 to 31) of a date.
#[verifier::external_body]
pub fn chrono_as_date_tuple(d: &chrono::NaiveDate) -> (r: (i32, u32, u32))
    ensures
        1 <= r.1 <= 12,
        1 <= r.2 <= 31,
{
    (chrono::Datelike::year(d), chrono::Datelike::month(d), chrono::Datelike::day(d))
}

/// Relies on chrono's `Local::now` and `Timelike`: the local hour (0 to 23) and minute (0 to 59)
/// now.
#[verifier::external_body]
pub fn current_timestamp() -> (r: TimeStamp)
    ensures
        r.h < 24,
        r.m < 60,
{
    let t = chrono::Local::now();
    TimeStamp { h: chrono::Timelike::hour(&t), m: chrono::Timelike::minute(&t) }
}

/// Today's local date, or `None` when the clock gives a year outside the representable range.
pub fn today_as_date_tuple() -> (r: Option<(u32, u32, u32)>)
    ensures
        r matches Some(d) ==> valid_date(d),
{
    date_of_tuple(chrono_as_date_tuple(&local_date_now()))
}

/// A year, month and day as a date of the representable range, or `None` when the year lies
/// outside the range or the day outside the month.
pub fn date_of_tuple(t: (i32, u32, u32)) -> (r: Option<(u32, u32, u32)>)
    requires
        1 <= t.1 <= 12,
    ensures
        r is Some <==> (MIN_YEAR <= t.0 <= MAX_YEAR && 1 <= t.2 <= days_in_month_spec(
            t.0 as int,
            t.1 as int,
        )),
        r matches Some(d) ==> d == (t.0 as u32, t.1, t.2) && valid_date(d),
{
    let (y, m, d) = t;
    if y < MIN_YEAR as i32 || y > MAX_YEAR as i32 {
        return None;
    }
    let y = y as u32;
    if d < 1 || d > days_in_month(y, m) {
        return None;
    }
    Some((y, m, d))
}

} // verus!

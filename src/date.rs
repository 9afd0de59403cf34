use vstd::prelude::*;
use vstd::string::*;

verus! {

/// A calendar day of the proleptic Gregorian calendar, read from `YYYY-MM-DD`.
/// It stands for the instant of local midnight that opens the day.
#[derive(Clone, Copy, Debug, PartialEq, Eq, Structural, Hash)]
pub struct CalendarDate {
    pub year: u32,
    pub month: u32,
    pub day: u32,
}

/// Why a date text was refused.
#[derive(Clone, Copy, Debug, PartialEq, Eq, Structural)]
pub enum DateError {
    /// The text is not four digits, a dash, two digits, a dash and two digits.
    Malformed,
    /// The text has the right shape but names no day of the calendar.
    NoSuchDay,
}

impl DateError {
    /// A short human-readable explanation.
    pub fn message(&self) -> (r: &'static str) {
        match self {
            DateError::Malformed => "input does not have the form YYYY-MM-DD",
            DateError::NoSuchDay => "input is out of range for a calendar date",
        }
    }
}

pub open spec fn is_digit(c: char) -> bool {
    '0' <= c && c <= '9'
}

pub open spec fn digit_value(c: char) -> int {
    c as int - '0' as int
}

/// Exactly `YYYY-MM-DD`: ten characters, dashes at the fifth and eighth, digits elsewhere.
pub open spec fn has_date_shape(s: Seq<char>) -> bool {
    &&& s.len() == 10
    &&& s[4] == '-'
    &&& s[7] == '-'
    &&& forall|i: int| 0 <= i < 10 && i != 4 && i != 7 ==> is_digit(#[trigger] s[i])
}

pub open spec fn year_field(s: Seq<char>) -> int {
    1000 * digit_value(s[0]) + 100 * digit_value(s[1]) + 10 * digit_value(s[2]) + digit_value(s[3])
}

pub open spec fn month_field(s: Seq<char>) -> int {
    10 * digit_value(s[5]) + digit_value(s[6])
}

pub open spec fn day_field(s: Seq<char>) -> int {
    10 * digit_value(s[8]) + digit_value(s[9])
}

pub open spec fn is_leap_year(y: int) -> bool {
    y % 4 == 0 && (y % 100 != 0 || y % 400 == 0)
}

pub open spec fn days_in_month(y: int, m: int) -> int {
    if m == 2 {
        if is_leap_year(y) { 29 } else { 28 }
    } else if m == 4 || m == 6 || m == 9 || m == 11 {
        30
    } else if 1 <= m <= 12 {
        31
    } else {
        0
    }
}

/// `y-m-d` names a day of the proleptic Gregorian calendar.
pub open spec fn is_calendar_date(y: int, m: int, d: int) -> bool {
    1 <= m <= 12 && 1 <= d <= days_in_month(y, m)
}

/// `s` is a `YYYY-MM-DD` text naming a real day.
pub open spec fn date_text_ok(s: Seq<char>) -> bool {
    has_date_shape(s) && is_calendar_date(year_field(s), month_field(s), day_field(s))
}

/// The day that the text `s` names.
pub open spec fn date_of(s: Seq<char>) -> CalendarDate {
    CalendarDate { year: year_field(s) as u32, month: month_field(s) as u32, day: day_field(s) as u32 }
}

/// The error that reading the date text `s` gives, where it is refused.
pub open spec fn date_error_of(s: Seq<char>) -> DateError {
    if !has_date_shape(s) {
        DateError::Malformed
    } else {
        DateError::NoSuchDay
    }
}

#[verifier::external_type_specification]
#[verifier::external_body]
pub struct ExNaiveDate(chrono::NaiveDate);

/// Relies on chrono's `NaiveDate::from_ymd_opt`, which returns `None` exactly when the
/// month or day is invalid or the day does not exist; years 0 to 9999 lie in its range.
#[verifier::external_body]
fn naive_date(year: u32, month: u32, day: u32) -> (r: Option<chrono::NaiveDate>)
    requires
        year <= 9999,
    ensures
        r is Some <==> is_calendar_date(year as int, month as int, day as int),
{
    chrono::NaiveDate::from_ymd_opt(year as i32, month, day)
}

fn digit_at(s: &str, i: usize) -> (r: u32)
    requires
        i < s@.len(),
        is_digit(s@[i as int]),
    ensures
        r as int == digit_value(s@[i as int]),
        r <= 9,
{
    let c = s.get_char(i);
    (c as u32) - ('0' as u32)
}

fn shape_ok(s: &str) -> (r: bool)
    ensures
        r == has_date_shape(s@),
{
    if s.unicode_len() != 10 {
        return false;
    }
    let mut i: usize = 0;
    while i < 10
        invariant
            s@.len() == 10,
            i <= 10,
            forall|j: int| 0 <= j < i && j != 4 && j != 7 ==> is_digit(#[trigger] s@[j]),
            i > 4 ==> s@[4] == '-',
            i > 7 ==> s@[7] == '-',
        decreases 10 - i,
    {
        let c = s.get_char(i);
        if i == 4 || i == 7 {
            if c != '-' {
                return false;
            }
        } else if !('0' <= c && c <= '9') {
            assert(!is_digit(s@[i as int]));
            return false;
        }
        i = i + 1;
    }
    true
}

/// Reads a strict `YYYY-MM-DD` date. Anything else (another layout, a time of day,
/// surrounding text) is `Malformed`; a well-shaped text naming no real day is `NoSuchDay`.
pub fn parse_custom_time(time: String) -> (r: Result<CalendarDate, DateError>)
    ensures
        r == if date_text_ok(time@) {
            Ok::<CalendarDate, DateError>(date_of(time@))
        } else {
            Err(date_error_of(time@))
        },
{
    let s = time.as_str();
    if !shape_ok(s) {
        return Err(DateError::Malformed);
    }
    assert(is_digit(s@[0]) && is_digit(s@[1]) && is_digit(s@[2]) && is_digit(s@[3]));
    assert(is_digit(s@[5]) && is_digit(s@[6]) && is_digit(s@[8]) && is_digit(s@[9]));
    let year = 1000 * digit_at(s, 0) + 100 * digit_at(s, 1) + 10 * digit_at(s, 2) + digit_at(s, 3);
    let month = 10 * digit_at(s, 5) + digit_at(s, 6);
    let day = 10 * digit_at(s, 8) + digit_at(s, 9);
    if naive_date(year, month, day).is_none() {
        return Err(DateError::NoSuchDay);
    }
    Ok(CalendarDate { year, month, day })
}

/// `a` falls on a day strictly before `b`.
pub open spec fn before(a: CalendarDate, b: CalendarDate) -> bool {
    a.year < b.year || (a.year == b.year && (a.month < b.month || (a.month == b.month && a.day
        < b.day)))
}

/// `lo <= t <= hi`, both ends included.
pub open spec fn within(t: CalendarDate, lo: CalendarDate, hi: CalendarDate) -> bool {
    !before(t, lo) && !before(hi, t)
}

pub fn precedes(a: &CalendarDate, b: &CalendarDate) -> (r: bool)
    ensures
        r == before(*a, *b),
{
    a.year < b.year || (a.year == b.year && (a.month < b.month || (a.month == b.month && a.day
        < b.day)))
}

pub proof fn lemma_before_trichotomy(a: CalendarDate, b: CalendarDate)
    ensures
        before(a, b) || before(b, a) || a == b,
        !(before(a, b) && before(b, a)),
        !before(a, a),
{
}

} // verus!

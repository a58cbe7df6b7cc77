use vstd::prelude::*;

use chrono::Datelike;

use crate::error::ConfigError;

verus! {

pub open spec fn is_leap_year(y: int) -> bool {
    (y % 4 == 0 && y % 100 != 0) || y % 400 == 0
}

pub open spec fn days_in_month(y: int, m: int) -> int {
    if m == 2 {
        if is_leap_year(y) { 29 } else { 28 }
    } else if m == 4 || m == 6 || m == 9 || m == 11 {
        30
    } else {
        31
    }
}

/// Whether year, month and day name a day of the proleptic Gregorian calendar.
pub open spec fn is_calendar_date(y: int, m: int, d: int) -> bool {
    1 <= m <= 12 && 1 <= d <= days_in_month(y, m)
}

/// The dates that the fixed pattern can write: four-digit years.
pub open spec fn is_valid_ymd(y: int, m: int, d: int) -> bool {
    0 <= y <= 9999 && is_calendar_date(y, m, d)
}

pub open spec fn digit_char(n: int) -> char {
    seq!['0', '1', '2', '3', '4', '5', '6', '7', '8', '9'][n]
}

pub open spec fn is_digit(c: char) -> bool {
    '0' <= c <= '9'
}

pub open spec fn digit_value(c: char) -> int {
    c as int - '0' as int
}

/// `YYYY-MM-DD`, each field zero-padded.
pub open spec fn ymd_text(y: int, m: int, d: int) -> Seq<char> {
    seq![
        digit_char(y / 1000), digit_char((y / 100) % 10), digit_char((y / 10) % 10),
        digit_char(y % 10), '-', digit_char(m / 10), digit_char(m % 10), '-',
        digit_char(d / 10), digit_char(d % 10),
    ]
}

/// Whether `s` has the shape `DDDD-DD-DD` with `D` an ASCII digit.
pub open spec fn has_date_shape(s: Seq<char>) -> bool {
    &&& s.len() == 10
    &&& s[4] == '-'
    &&& s[7] == '-'
    &&& forall|i: int| 0 <= i < 10 && i != 4 && i != 7 ==> is_digit(#[trigger] s[i])
}

pub open spec fn text_year(s: Seq<char>) -> int {
    digit_value(s[0]) * 1000 + digit_value(s[1]) * 100 + digit_value(s[2]) * 10 + digit_value(s[3])
}

pub open spec fn text_month(s: Seq<char>) -> int {
    digit_value(s[5]) * 10 + digit_value(s[6])
}

pub open spec fn text_day(s: Seq<char>) -> int {
    digit_value(s[8]) * 10 + digit_value(s[9])
}

/// Whether `s` is accepted as a date: the fixed pattern, naming a calendar day.
pub open spec fn is_date_text(s: Seq<char>) -> bool {
    has_date_shape(s) && is_calendar_date(text_year(s), text_month(s), text_day(s))
}

/// A calendar day with a year from 0 to 9999.
#[derive(Debug, Clone, Copy, PartialEq, Eq, Structural)]
pub struct Date {
    year: i32,
    month: u32,
    day: u32,
}

/// Relies on chrono's `NaiveDate::from_ymd_opt`, which gives `None` exactly when the
/// day does not exist in the proleptic Gregorian calendar (years 0 to 9999 are in range).
#[verifier::external_body]
fn calendar_has_day(year: i32, month: u32, day: u32) -> (r: bool)
    requires
        0 <= year <= 9999,
    ensures
        r == is_calendar_date(year as int, month as int, day as int),
{
    chrono::NaiveDate::from_ymd_opt(year, month, day).is_some()
}

/// Relies on chrono's `NaiveDate::format` with `%Y-%m-%d`: year zero-padded to four
/// digits (no sign below 10000), month and day zero-padded to two.
#[verifier::external_body]
fn chrono_ymd_text(year: i32, month: u32, day: u32) -> (r: String)
    requires
        is_valid_ymd(year as int, month as int, day as int),
    ensures
        r@ == ymd_text(year as int, month as int, day as int),
{
    chrono::NaiveDate::from_ymd_opt(year, month, day).unwrap().format("%Y-%m-%d").to_string()
}

/// Relies on chrono's `Local::now().date_naive()`: a day that chrono can represent.
#[verifier::external_body]
fn chrono_local_today() -> (r: (i32, u32, u32))
    ensures
        is_calendar_date(r.0 as int, r.1 as int, r.2 as int),
{
    let d = chrono::Local::now().date_naive();
    (d.year(), d.month(), d.day())
}

impl Date {
    #[verifier::type_invariant]
    spec fn inv(self) -> bool {
        is_valid_ymd(self.year as int, self.month as int, self.day as int)
    }

    pub closed spec fn spec_year(self) -> int {
        self.year as int
    }

    pub closed spec fn spec_month(self) -> int {
        self.month as int
    }

    pub closed spec fn spec_day(self) -> int {
        self.day as int
    }

    /// The date of the given day, if it exists and its year has four digits.
    pub fn from_ymd(year: i32, month: u32, day: u32) -> (r: Option<Date>)
        ensures
            r is Some <==> is_valid_ymd(year as int, month as int, day as int),
            r matches Some(d) ==> d.spec_year() == year && d.spec_month() == month
                && d.spec_day() == day,
    {
        if year < 0 || year > 9999 {
            return None;
        }
        if calendar_has_day(year, month, day) {
            Some(Date { year, month, day })
        } else {
            None
        }
    }

    pub fn year(&self) -> (r: i32)
        ensures
            r == self.spec_year(),
    {
        self.year
    }

    pub fn month(&self) -> (r: u32)
        ensures
            r == self.spec_month(),
    {
        self.month
    }

    pub fn day(&self) -> (r: u32)
        ensures
            r == self.spec_day(),
    {
        self.day
    }

    /// The date in the fixed pattern `YYYY-MM-DD`.
    pub fn format(&self) -> (r: String)
        ensures
            r@ == ymd_text(self.spec_year(), self.spec_month(), self.spec_day()),
            is_valid_ymd(self.spec_year(), self.spec_month(), self.spec_day()),
    {
        proof { use_type_invariant(self); }
        chrono_ymd_text(self.year, self.month, self.day)
    }
}

/// The value of the ASCII digit at character position `i` of `s`.
fn digit_at(s: &str, i: usize) -> (r: u32)
    requires
        i < s@.len(),
        is_digit(s@[i as int]),
    ensures
        r == digit_value(s@[i as int]),
        r < 10,
{
    let c = s.get_char(i);
    (c as u32) - ('0' as u32)
}

/// Reads a date written in the fixed pattern `YYYY-MM-DD`; any other shape, or a day
/// that the calendar lacks, is `InvalidFormat`.
pub fn parse(s: &str) -> (r: Result<Date, ConfigError>)
    ensures
        r is Ok <==> is_date_text(s@),
        r matches Ok(d) ==> d.spec_year() == text_year(s@) && d.spec_month() == text_month(s@)
            && d.spec_day() == text_day(s@),
        r matches Err(e) ==> e == ConfigError::InvalidFormat,
{
    let n = s.unicode_len();
    if n != 10 {
        return Err(ConfigError::InvalidFormat);
    }
    let mut i: usize = 0;
    while i < 10
        invariant
            0 <= i <= 10,
            s@.len() == 10,
            i > 4 ==> s@[4] == '-',
            i > 7 ==> s@[7] == '-',
            forall|j: int| 0 <= j < i && j != 4 && j != 7 ==> is_digit(#[trigger] s@[j]),
        decreases 10 - i,
    {
        let c = s.get_char(i);
        if i == 4 || i == 7 {
            if c != '-' {
                return Err(ConfigError::InvalidFormat);
            }
        } else if !('0' <= c && c <= '9') {
            return Err(ConfigError::InvalidFormat);
        }
        i = i + 1;
    }
    assert(has_date_shape(s@));
    let year = digit_at(s, 0) * 1000 + digit_at(s, 1) * 100 + digit_at(s, 2) * 10 + digit_at(s, 3);
    let month = digit_at(s, 5) * 10 + digit_at(s, 6);
    let day = digit_at(s, 8) * 10 + digit_at(s, 9);
    match Date::from_ymd(year as i32, month, day) {
        Some(d) => Ok(d),
        None => Err(ConfigError::InvalidFormat),
    }
}

/// Today's date on the local clock, if its year has four digits.
pub fn today() -> (r: Option<Date>)
{
    let (year, month, day) = chrono_local_today();
    Date::from_ymd(year, month, day)
}

proof fn lemma_digit_round_trip(n: int)
    requires
        0 <= n < 10,
    ensures
        is_digit(digit_char(n)),
        digit_value(digit_char(n)) == n,
{
    assert(digit_char(0) == '0');
    assert(digit_char(1) == '1');
    assert(digit_char(2) == '2');
    assert(digit_char(3) == '3');
    assert(digit_char(4) == '4');
    assert(digit_char(5) == '5');
    assert(digit_char(6) == '6');
    assert(digit_char(7) == '7');
    assert(digit_char(8) == '8');
    assert(digit_char(9) == '9');
}

/// Formatting a valid date and reading the text back gives the same year, month and
/// day: `parse(d.format())` is `Ok(d)` for every date `d`.
pub proof fn lemma_parse_format_round_trip(y: int, m: int, d: int)
    requires
        is_valid_ymd(y, m, d),
    ensures
        is_date_text(ymd_text(y, m, d)),
        text_year(ymd_text(y, m, d)) == y,
        text_month(ymd_text(y, m, d)) == m,
        text_day(ymd_text(y, m, d)) == d,
{
    let s = ymd_text(y, m, d);
    lemma_digit_round_trip(y / 1000);
    lemma_digit_round_trip((y / 100) % 10);
    lemma_digit_round_trip((y / 10) % 10);
    lemma_digit_round_trip(y % 10);
    lemma_digit_round_trip(m / 10);
    lemma_digit_round_trip(m % 10);
    lemma_digit_round_trip(d / 10);
    lemma_digit_round_trip(d % 10);
    assert((y / 1000) * 1000 + ((y / 100) % 10) * 100 + ((y / 10) % 10) * 10 + y % 10 == y)
        by (nonlinear_arith)
        requires
            0 <= y <= 9999,
    ;
    assert((m / 10) * 10 + m % 10 == m) by (nonlinear_arith);
    assert((d / 10) * 10 + d % 10 == d) by (nonlinear_arith);
    assert(has_date_shape(s));
}

proof fn lemma_digit_char_of_value(c: char)
    requires
        is_digit(c),
    ensures
        0 <= digit_value(c) < 10,
        digit_char(digit_value(c)) == c,
{
    assert(digit_char(0) == '0');
    assert(digit_char(1) == '1');
    assert(digit_char(2) == '2');
    assert(digit_char(3) == '3');
    assert(digit_char(4) == '4');
    assert(digit_char(5) == '5');
    assert(digit_char(6) == '6');
    assert(digit_char(7) == '7');
    assert(digit_char(8) == '8');
    assert(digit_char(9) == '9');
}

/// Reading a date text and formatting the date again gives back the same text.
pub proof fn lemma_format_parse_round_trip(s: Seq<char>)
    requires
        is_date_text(s),
    ensures
        ymd_text(text_year(s), text_month(s), text_day(s)) == s,
{
    let (a, b, c, d) = (digit_value(s[0]), digit_value(s[1]), digit_value(s[2]), digit_value(s[3]));
    let (e, f) = (digit_value(s[5]), digit_value(s[6]));
    let (g, h) = (digit_value(s[8]), digit_value(s[9]));
    lemma_digit_char_of_value(s[0]);
    lemma_digit_char_of_value(s[1]);
    lemma_digit_char_of_value(s[2]);
    lemma_digit_char_of_value(s[3]);
    lemma_digit_char_of_value(s[5]);
    lemma_digit_char_of_value(s[6]);
    lemma_digit_char_of_value(s[8]);
    lemma_digit_char_of_value(s[9]);
    let y = text_year(s);
    assert(y / 1000 == a && (y / 100) % 10 == b && (y / 10) % 10 == c && y % 10 == d)
        by (nonlinear_arith)
        requires
            y == a * 1000 + b * 100 + c * 10 + d,
            0 <= a < 10,
            0 <= b < 10,
            0 <= c < 10,
            0 <= d < 10,
    ;
    let m = text_month(s);
    assert(m / 10 == e && m % 10 == f) by (nonlinear_arith)
        requires
            m == e * 10 + f,
            0 <= e < 10,
            0 <= f < 10,
    ;
    let dd = text_day(s);
    assert(dd / 10 == g && dd % 10 == h) by (nonlinear_arith)
        requires
            dd == g * 10 + h,
            0 <= g < 10,
            0 <= h < 10,
    ;
    assert(ymd_text(y, m, dd) =~= s);
}

} // verus!

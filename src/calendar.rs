//! Calendar days and the names of the directories that hold them.
use vstd::prelude::*;

verus! {

/// A day of the proleptic Gregorian calendar.
#[derive(Clone, Copy, Debug, PartialEq, Eq, Structural)]
pub struct Day {
    pub year: i32,
    pub month: u32,
    pub day: u32,
}

pub open spec fn is_leap_year(y: int) -> bool {
    (y % 4 == 0 && y % 100 != 0) || y % 400 == 0
}

pub open spec fn month_length(y: int, m: int) -> int {
    if m == 2 {
        if is_leap_year(y) { 29 } else { 28 }
    } else if m == 4 || m == 6 || m == 9 || m == 11 {
        30
    } else {
        31
    }
}

impl Day {
    /// A month and a day that exist in the given year, whatever the year.
    pub open spec fn is_calendar_date(self) -> bool {
        &&& 1 <= self.month <= 12
        &&& 1 <= self.day <= month_length(self.year as int, self.month as int)
    }

    /// A calendar date whose year has four decimal digits.
    pub open spec fn wf(self) -> bool {
        &&& self.is_calendar_date()
        &&& 0 <= self.year <= 9999
    }

    /// The day `year-month-day`, where that is a day of a four-digit year.
    pub fn new(year: i32, month: u32, day: u32) -> (r: Option<Day>)
        ensures
            r is Some <==> (Day { year, month, day }).wf(),
            r matches Some(d) ==> d == (Day { year, month, day }),
    {
        if year < 0 || year > 9999 || month < 1 || month > 12 || day < 1 {
            return None;
        }
        let leap = (year % 4 == 0 && year % 100 != 0) || year % 400 == 0;
        let len: u32 = if month == 2 {
            if leap { 29 } else { 28 }
        } else if month == 4 || month == 6 || month == 9 || month == 11 {
            30
        } else {
            31
        };
        if day > len {
            None
        } else {
            Some(Day { year, month, day })
        }
    }
}

/// The decimal digit that stands for `n`, for `n` in `0..10`.
pub open spec fn digit_char(n: int) -> char {
    if n == 0 { '0' }
    else if n == 1 { '1' }
    else if n == 2 { '2' }
    else if n == 3 { '3' }
    else if n == 4 { '4' }
    else if n == 5 { '5' }
    else if n == 6 { '6' }
    else if n == 7 { '7' }
    else if n == 8 { '8' }
    else { '9' }
}

/// The name of the directory of day `d`: four digits of the year, two of
/// the month and two of the day, zero-padded and joined by hyphens.
pub open spec fn day_name(d: Day) -> Seq<char> {
    let y = d.year as int;
    let m = d.month as int;
    let n = d.day as int;
    seq![
        digit_char(y / 1000), digit_char(y / 100 % 10), digit_char(y / 10 % 10), digit_char(y % 10),
        '-',
        digit_char(m / 10), digit_char(m % 10),
        '-',
        digit_char(n / 10), digit_char(n % 10),
    ]
}

proof fn lemma_digit_char_injective(a: int, b: int)
    requires
        0 <= a < 10,
        0 <= b < 10,
        digit_char(a) == digit_char(b),
    ensures
        a == b,
{
}

/// Two different days never share a directory name: files of different
/// days cannot meet in one day directory.
pub proof fn lemma_day_name_injective(d1: Day, d2: Day)
    requires
        d1.wf(),
        d2.wf(),
        day_name(d1) == day_name(d2),
    ensures
        d1 == d2,
{
    let s1 = day_name(d1);
    let s2 = day_name(d2);
    let (y1, y2) = (d1.year as int, d2.year as int);
    let (m1, m2) = (d1.month as int, d2.month as int);
    let (n1, n2) = (d1.day as int, d2.day as int);
    assert(s1[0] == s2[0] && s1[1] == s2[1] && s1[2] == s2[2] && s1[3] == s2[3]);
    assert(s1[5] == s2[5] && s1[6] == s2[6] && s1[8] == s2[8] && s1[9] == s2[9]);
    lemma_digit_char_injective(y1 / 1000, y2 / 1000);
    lemma_digit_char_injective(y1 / 100 % 10, y2 / 100 % 10);
    lemma_digit_char_injective(y1 / 10 % 10, y2 / 10 % 10);
    lemma_digit_char_injective(y1 % 10, y2 % 10);
    lemma_digit_char_injective(m1 / 10, m2 / 10);
    lemma_digit_char_injective(m1 % 10, m2 % 10);
    lemma_digit_char_injective(n1 / 10, n2 / 10);
    lemma_digit_char_injective(n1 % 10, n2 % 10);
}

/// Relies on chrono's `NaiveDate::from_ymd_opt`, which accepts every
/// calendar date of the years 0 to 9999, and on its `%Y-%m-%d` format,
/// which writes such a year with four digits and month and day with two,
/// zero-padded.
#[verifier::external_body]
fn format_day(d: Day) -> (r: String)
    requires
        d.wf(),
    ensures
        r@ == day_name(d),
{
    let date = chrono::NaiveDate::from_ymd_opt(d.year, d.month, d.day).unwrap();
    date.format("%Y-%m-%d").to_string()
}

/// The name of the directory that holds the files last modified on `d`.
pub fn dir_name(d: Day) -> (r: String)
    requires
        d.wf(),
    ensures
        r@ == day_name(d),
{
    format_day(d)
}

} // verus!

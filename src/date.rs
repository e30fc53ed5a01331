//! Calendar dates and the resolution of a timetable's date from its heading.
use vstd::prelude::*;

use chrono::Datelike;

use crate::text::{
    char_vec_views, chars_eq_str, chars_of, split_chars, split_on, string_views, trim, trim_chars,
};

verus! {

/// A calendar date in the proleptic Gregorian calendar.
#[derive(Clone, Copy, Debug, PartialEq, Eq, Structural)]
pub struct Date {
    pub year: i32,
    pub month: u32,
    pub day: u32,
}

pub open spec fn is_leap_year(year: int) -> bool {
    (year % 4 == 0 && year % 100 != 0) || year % 400 == 0
}

pub open spec fn days_in_month(year: int, month: int) -> int {
    if month == 2 {
        if is_leap_year(year) {
            29
        } else {
            28
        }
    } else if month == 4 || month == 6 || month == 9 || month == 11 {
        30
    } else {
        31
    }
}

/// Whether `year`-`month`-`day` names a day of the years 1 to 9999.
pub open spec fn valid_date(year: int, month: int, day: int) -> bool {
    &&& 1 <= year <= 9999
    &&& 1 <= month <= 12
    &&& 1 <= day <= days_in_month(year, month)
}

impl Date {
    pub open spec fn wf(&self) -> bool {
        valid_date(self.year as int, self.month as int, self.day as int)
    }

    /// The date `year`-`month`-`day`, or `None` where no such day exists.
    pub fn from_ymd(year: i32, month: u32, day: u32) -> (r: Option<Date>)
        ensures
            r is Some <==> valid_date(year as int, month as int, day as int),
            r matches Some(d) ==> d.year == year && d.month == month && d.day == day,
    {
        if year < 1 || year > 9999 || month < 1 || month > 12 || day < 1 {
            return None;
        }
        let leap = (year % 4 == 0 && year % 100 != 0) || year % 400 == 0;
        let days: u32 = if month == 2 {
            if leap {
                29
            } else {
                28
            }
        } else if month == 4 || month == 6 || month == 9 || month == 11 {
            30
        } else {
            31
        };
        if day > days {
            None
        } else {
            Some(Date { year, month, day })
        }
    }
}

/// The ISO 8601 week number (1 to 53) of the week that a date falls in, as
/// chrono counts it.
pub uninterp spec fn iso_week_number(year: i32, month: u32, day: u32) -> u32;

/// Relies on chrono's `NaiveDate::from_ymd_opt` and `IsoWeek::week`: the ISO
/// week number (1 to 53) of a date that exists.
#[verifier::external_body]
fn iso_week_of(year: i32, month: u32, day: u32) -> (r: u32)
    requires
        valid_date(year as int, month as int, day as int),
    ensures
        r == iso_week_number(year, month, day),
        1 <= r <= 53,
{
    chrono::NaiveDate::from_ymd_opt(year, month, day).unwrap().iso_week().week()
}

/// Whether a date falls in a week with an even ISO week number.
pub open spec fn is_even_week(d: Date) -> bool {
    iso_week_number(d.year, d.month, d.day) % 2 == 0
}

impl Date {
    /// Whether the date falls in a week with an even ISO week number.
    pub fn is_week_even(&self) -> (r: bool)
        requires
            self.wf(),
        ensures
            r == is_even_week(*self),
    {
        iso_week_of(self.year, self.month, self.day) % 2 == 0
    }
}

/// The month names of the genitive case, January first.
pub open spec fn month_names() -> Seq<Seq<char>> {
    seq![
        "января"@,
        "февраля"@,
        "марта"@,
        "апреля"@,
        "мая"@,
        "июня"@,
        "июля"@,
        "августа"@,
        "сентября"@,
        "октября"@,
        "ноября"@,
        "декабря"@,
    ]
}

fn month_name(k: usize) -> (r: &'static str)
    requires
        k < 12,
    ensures
        r@ == month_names()[k as int],
{
    match k {
        0 => "января",
        1 => "февраля",
        2 => "марта",
        3 => "апреля",
        4 => "мая",
        5 => "июня",
        6 => "июля",
        7 => "августа",
        8 => "сентября",
        9 => "октября",
        10 => "ноября",
        _ => "декабря",
    }
}

/// The month (1 to 12) that a word names, compared exactly.
pub open spec fn month_number(w: Seq<char>) -> Option<int> {
    if exists|k: int| 0 <= k < 12 && month_names()[k] == w {
        let k = choose|k: int|
            0 <= k < 12 && month_names()[k] == w && forall|m: int|
                0 <= m < k ==> month_names()[m] != w;
        Some(k + 1)
    } else {
        None
    }
}

fn month_of(w: &[char]) -> (r: Option<u32>)
    ensures
        match r {
            Some(m) => month_number(w@) == Some(m as int) && 1 <= m <= 12,
            None => month_number(w@) is None,
        },
{
    let mut k: usize = 0;
    while k < 12
        invariant
            k <= 12,
            forall|m: int| 0 <= m < k ==> month_names()[m] != w@,
        decreases 12 - k,
    {
        if chars_eq_str(w, month_name(k)) {
            assert(month_names()[k as int] == w@);
            let ghost c = choose|j: int| 0 <= j < 12 && month_names()[j] == w@ && forall|m: int|
                0 <= m < j ==> month_names()[m] != w@;
            assert(c == k) by {
                if c < k {
                    assert(month_names()[c] != w@);
                } else if c > k {
                    assert(month_names()[k as int] != w@);
                }
            }
            return Some((k + 1) as u32);
        }
        k = k + 1;
    }
    None
}

/// The value of a string of decimal digits.
pub open spec fn digits_value(s: Seq<char>) -> int
    decreases s.len(),
{
    if s.len() == 0 {
        0
    } else {
        digits_value(s.drop_last()) * 10 + ((s.last() as u32) - ('0' as u32))
    }
}

pub open spec fn all_digits(s: Seq<char>) -> bool {
    forall|i: int| 0 <= i < s.len() ==> '0' <= #[trigger] s[i] <= '9'
}

/// The number that `u32::from_str` reads from `s`: an optional `+`, then
/// at least one decimal digit, with a value that fits.
pub open spec fn parse_u32_text(s: Seq<char>) -> Option<u32> {
    let t = if s.len() > 0 && s[0] == '+' {
        s.drop_first()
    } else {
        s
    };
    if t.len() > 0 && all_digits(t) && digits_value(t) <= u32::MAX {
        Some(digits_value(t) as u32)
    } else {
        None
    }
}

proof fn lemma_digits_monotone(t: Seq<char>, j: int)
    requires
        all_digits(t),
        0 <= j <= t.len(),
    ensures
        0 <= digits_value(t.take(j)) <= digits_value(t),
    decreases t.len(),
{
    if j < t.len() {
        let d = t.drop_last();
        assert(all_digits(d)) by {
            assert forall|i: int| 0 <= i < d.len() implies '0' <= #[trigger] d[i] <= '9' by {
                assert(d[i] == t[i]);
            }
        }
        lemma_digits_monotone(d, j);
        lemma_digits_monotone(d, d.len() as int);
        assert(d.take(j) =~= t.take(j));
        assert(d.take(d.len() as int) =~= d);
        assert('0' <= t.last() <= '9');
    } else {
        assert(t.take(j) =~= t);
        if t.len() > 0 {
            let d = t.drop_last();
            assert(all_digits(d)) by {
                assert forall|i: int| 0 <= i < d.len() implies '0' <= #[trigger] d[i] <= '9' by {
                    assert(d[i] == t[i]);
                }
            }
            lemma_digits_monotone(d, d.len() as int);
            assert(d.take(d.len() as int) =~= d);
            assert('0' <= t.last() <= '9');
        }
    }
}

/// Reads a number as `u32::from_str` does.
pub fn parse_u32(s: &[char]) -> (r: Option<u32>)
    ensures
        r == parse_u32_text(s@),
{
    let start: usize = if s.len() > 0 && s[0] == '+' {
        1
    } else {
        0
    };
    let ghost t = if s@.len() > 0 && s@[0] == '+' {
        s@.drop_first()
    } else {
        s@
    };
    assert(t =~= s@.skip(start as int));
    if start >= s.len() {
        return None;
    }
    let mut v: u64 = 0;
    let mut i: usize = start;
    while i < s.len()
        invariant
            start <= i <= s@.len(),
            t == s@.skip(start as int),
            t == (if s@.len() > 0 && s@[0] == '+' {
                s@.drop_first()
            } else {
                s@
            }),
            forall|k: int| 0 <= k < i - start ==> '0' <= #[trigger] t[k] <= '9',
            v as int == digits_value(t.take(i - start)),
            v <= u32::MAX,
        decreases s.len() - i,
    {
        let c = s[i];
        if !('0' <= c && c <= '9') {
            assert(!all_digits(t)) by {
                assert(t[i - start] == c);
            }
            assert(parse_u32_text(s@) is None);
            return None;
        }
        assert(t.take(i - start + 1).drop_last() =~= t.take(i - start));
        assert(t.take(i - start + 1).last() == c);
        let next: u64 = v * 10 + ((c as u32) - ('0' as u32)) as u64;
        assert(next as int == digits_value(t.take(i - start + 1)));
        i = i + 1;
        if next > 4294967295 {
            proof {
                if all_digits(t) {
                    lemma_digits_monotone(t, i - start);
                }
            }
            assert(parse_u32_text(s@) is None);
            return None;
        }
        v = next;
    }
    assert(t.take(i - start) =~= t);
    Some(v as u32)
}

/// Whether word `i` is a day number of at least one and the next word names a month.
pub open spec fn is_day_month(words: Seq<Seq<char>>, i: int) -> bool {
    &&& 0 <= i
    &&& i + 1 < words.len()
    &&& parse_u32_text(trim(words[i])) matches Some(d) && d >= 1
    &&& month_number(words[i + 1]) is Some
}

/// The first `i` at or after `from` where a day number and a month name meet.
pub open spec fn first_day_month(words: Seq<Seq<char>>, from: int) -> Option<int>
    decreases words.len() - from,
{
    if from < 0 || from + 1 >= words.len() {
        None
    } else if is_day_month(words, from) {
        Some(from)
    } else {
        first_day_month(words, from + 1)
    }
}

/// The date that a heading names in `year`: the first day number, among the
/// words between single spaces, that a month name follows; `None` where there
/// is no such pair or no such day in that year.
pub open spec fn heading_date(cell: Seq<char>, year: i32) -> Option<Date> {
    let words = split_on(cell, ' ');
    match first_day_month(words, 0) {
        None => None,
        Some(i) => {
            let day = parse_u32_text(trim(words[i]))->0;
            let month = month_number(words[i + 1])->0;
            if valid_date(year as int, month, day as int) {
                Some(Date { year, month: month as u32, day })
            } else {
                None
            }
        },
    }
}

/// A heading whose first day-and-month pair is day `d` of month `m` names
/// that date where it exists in `year`; a heading without such a pair names
/// none.
pub proof fn lemma_heading_date(cell: Seq<char>, year: i32)
    ensures
        ({
            let words = split_on(cell, ' ');
            match first_day_month(words, 0) {
                None => heading_date(cell, year) is None,
                Some(i) => {
                    let d = parse_u32_text(trim(words[i]))->0;
                    let m = month_number(words[i + 1])->0;
                    &&& d >= 1
                    &&& 1 <= m <= 12 ==> (heading_date(cell, year) matches Some(date) ==> date.day == d
                        && date.month == m && date.year == year)
                    &&& valid_date(year as int, m, d as int) ==> heading_date(cell, year) is Some
                }
            }
        }),
{
    let words = split_on(cell, ' ');
    if let Some(i) = first_day_month(words, 0) {
        lemma_first_day_month(words, 0);
    }
}

proof fn lemma_first_day_month(words: Seq<Seq<char>>, from: int)
    ensures
        first_day_month(words, from) matches Some(i) ==> is_day_month(words, i),
    decreases words.len() - from,
{
    if !(from < 0 || from + 1 >= words.len()) && !is_day_month(words, from) {
        lemma_first_day_month(words, from + 1);
    }
}

/// The date that the heading row of a timetable names in `year`: read from
/// its first cell, `None` where the row is empty or names no date.
pub open spec fn row_date(row: Seq<Seq<char>>, year: i32) -> Option<Date> {
    if row.len() == 0 {
        None
    } else {
        heading_date(row[0], year)
    }
}

/// Reads the date that the heading row names, in `year`.
pub fn parse_date(row: &Vec<String>, year: i32) -> (r: Option<Date>)
    ensures
        r == row_date(string_views(row@), year),
        r matches Some(d) ==> d.wf(),
{
    if row.len() == 0 {
        return None;
    }
    assert(string_views(row@)[0] == row@[0]@);
    let cs = chars_of(row[0].as_str());
    let words = split_chars(cs.as_slice(), ' ');
    let ghost wv = char_vec_views(words@);
    let mut i: usize = 0;
    while i + 1 < words.len()
        invariant
            wv == char_vec_views(words@),
            row.len() > 0,
            wv == split_on(row@[0]@, ' '),
            words.len() >= 1,
            i < words.len(),
            first_day_month(wv, 0) == first_day_month(wv, i as int),
        decreases words.len() - i,
    {
        assert(wv[i as int] == words@[i as int]@);
        assert(wv[i + 1] == words@[i + 1]@);
        let day = parse_u32(trim_chars(words[i].as_slice()).as_slice());
        let month = month_of(words[i + 1].as_slice());
        match (day, month) {
            (Some(d), Some(m)) => {
                if d >= 1 {
                    assert(is_day_month(wv, i as int));
                    assert(first_day_month(wv, i as int) == Some(i as int));
                    assert(string_views(row@)[0] == row@[0]@);
                    let r = Date::from_ymd(year, m, d);
                    assert(r == heading_date(row@[0]@, year));
                    return r;
                }
            },
            _ => {},
        }
        i = i + 1;
    }
    None
}

} // verus!

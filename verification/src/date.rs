//! Calendar dates in the proleptic Gregorian calendar.
//!
//! A `Date` holds year, month and day as plain integers.  The module proves
//! the arithmetic the fare finder needs: stepping a date forward by days,
//! comparing dates, computing the weekday, and converting between dates and
//! their `YYYY-MM-DD` text form.

use vstd::prelude::*;

verus! {

/// A calendar date (proleptic Gregorian).  Day 1 of year 1 is a Monday.
#[derive(Clone, Copy, PartialEq, Eq, Structural, Debug)]
pub struct Date {
    pub year: u32,
    pub month: u32,
    pub day: u32,
}

pub open spec fn is_leap_year(y: int) -> bool {
    y % 4 == 0 && (y % 100 != 0 || y % 400 == 0)
}

pub open spec fn days_in_month(y: int, m: int) -> int {
    if m == 2 {
        if is_leap_year(y) {
            29
        } else {
            28
        }
    } else if m == 4 || m == 6 || m == 9 || m == 11 {
        30
    } else {
        31
    }
}

/// The date names a real day: month and day are in range for its year.
pub open spec fn valid_date(d: Date) -> bool {
    &&& 1 <= d.year
    &&& 1 <= d.month <= 12
    &&& 1 <= d.day <= days_in_month(d.year as int, d.month as int)
}

pub fn is_leap_year_exec(y: u32) -> (r: bool)
    ensures
        r == is_leap_year(y as int),
{
    y % 4 == 0 && (y % 100 != 0 || y % 400 == 0)
}

pub fn days_in_month_exec(y: u32, m: u32) -> (r: u32)
    requires
        1 <= m <= 12,
    ensures
        r == days_in_month(y as int, m as int),
{
    if m == 2 {
        if is_leap_year_exec(y) {
            29
        } else {
            28
        }
    } else if m == 4 || m == 6 || m == 9 || m == 11 {
        30
    } else {
        31
    }
}

/// The day after `d`, rolling over months and years.
pub open spec fn next_day_spec(d: Date) -> Date {
    if d.day < days_in_month(d.year as int, d.month as int) {
        Date { year: d.year, month: d.month, day: (d.day + 1) as u32 }
    } else if d.month < 12 {
        Date { year: d.year, month: (d.month + 1) as u32, day: 1 }
    } else {
        Date { year: (d.year + 1) as u32, month: 1, day: 1 }
    }
}

pub fn next_day(d: Date) -> (r: Date)
    requires
        valid_date(d),
        d.year < 100_000,
    ensures
        r == next_day_spec(d),
        valid_date(r),
        d.year <= r.year <= d.year + 1,
{
    let dim = days_in_month_exec(d.year, d.month);
    if d.day < dim {
        Date { year: d.year, month: d.month, day: d.day + 1 }
    } else if d.month < 12 {
        Date { year: d.year, month: d.month + 1, day: 1 }
    } else {
        Date { year: d.year + 1, month: 1, day: 1 }
    }
}

/// `d` stepped forward by `n` days.
pub open spec fn add_days_spec(d: Date, n: nat) -> Date
    decreases n,
{
    if n == 0 {
        d
    } else {
        next_day_spec(add_days_spec(d, (n - 1) as nat))
    }
}

pub proof fn lemma_add_days_valid(d: Date, n: nat)
    requires
        valid_date(d),
        d.year + n < 0xFFFF_FFFF,
    ensures
        valid_date(add_days_spec(d, n)),
        d.year <= add_days_spec(d, n).year <= d.year + n,
        date_ord(add_days_spec(d, n)) >= date_ord(d) + n,
    decreases n,
{
    if n > 0 {
        lemma_add_days_valid(d, (n - 1) as nat);
        let prev = add_days_spec(d, (n - 1) as nat);
        lemma_next_day_increases(prev);
        lemma_date_lt_ord(prev, next_day_spec(prev));
    }
}

/// Adding days distributes over a split of the count.
pub proof fn lemma_add_days_split(d: Date, m: nat, n: nat)
    ensures
        add_days_spec(d, m + n) == add_days_spec(add_days_spec(d, m), n),
    decreases n,
{
    if n > 0 {
        lemma_add_days_split(d, m, (n - 1) as nat);
        assert(m + n - 1 == m + ((n - 1) as nat));
    }
}

pub fn add_days(d: Date, n: u32) -> (r: Date)
    requires
        valid_date(d),
        d.year + n < 100_000,
    ensures
        r == add_days_spec(d, n as nat),
        valid_date(r),
        r.year <= d.year + n,
{
    let mut cur = d;
    let mut i: u32 = 0;
    while i < n
        invariant
            i <= n,
            cur == add_days_spec(d, i as nat),
            valid_date(cur),
            cur.year <= d.year + i,
            d.year + n < 100_000,
        decreases n - i,
    {
        cur = next_day(cur);
        i = i + 1;
    }
    cur
}

/// Strict lexicographic order on (year, month, day): the calendar order.
pub open spec fn date_lt(a: Date, b: Date) -> bool {
    ||| a.year < b.year
    ||| (a.year == b.year && a.month < b.month)
    ||| (a.year == b.year && a.month == b.month && a.day < b.day)
}

/// A linear stand-in for the calendar order, used to compare and to bound
/// loops: strictly monotone with respect to `date_lt` on valid dates.
pub open spec fn date_ord(d: Date) -> int {
    d.year * 372 + d.month * 31 + d.day
}

pub proof fn lemma_date_lt_ord(a: Date, b: Date)
    requires
        valid_date(a),
        valid_date(b),
    ensures
        date_lt(a, b) <==> date_ord(a) < date_ord(b),
{
}

pub fn date_lt_exec(a: &Date, b: &Date) -> (r: bool)
    ensures
        r == date_lt(*a, *b),
{
    if a.year != b.year {
        a.year < b.year
    } else if a.month != b.month {
        a.month < b.month
    } else {
        a.day < b.day
    }
}

pub proof fn lemma_next_day_increases(d: Date)
    requires
        valid_date(d),
        d.year < 0xFFFF_FFFF,
    ensures
        date_lt(d, next_day_spec(d)),
{
}

/// Adding more days gives a strictly later date.
pub proof fn lemma_add_days_strict_mono(d: Date, m: nat, n: nat)
    requires
        valid_date(d),
        d.year + n < 0xFFFF_FFFF,
        m < n,
    ensures
        date_lt(add_days_spec(d, m), add_days_spec(d, n)),
    decreases n,
{
    lemma_add_days_valid(d, m);
    lemma_add_days_valid(d, (n - 1) as nat);
    lemma_next_day_increases(add_days_spec(d, (n - 1) as nat));
    if m < n - 1 {
        lemma_add_days_strict_mono(d, m, (n - 1) as nat);
        lemma_add_days_valid(d, n);
        lemma_date_lt_ord(add_days_spec(d, m), add_days_spec(d, (n - 1) as nat));
        lemma_date_lt_ord(add_days_spec(d, (n - 1) as nat), add_days_spec(d, n));
        lemma_date_lt_ord(add_days_spec(d, m), add_days_spec(d, n));
    }
}

/// Days of the months before month `m` within year `y`.
pub open spec fn days_before_month(y: int, m: int) -> int {
    let feb: int = if is_leap_year(y) {
        29
    } else {
        28
    };
    if m == 1 {
        0
    } else if m == 2 {
        31
    } else if m == 3 {
        31 + feb
    } else if m == 4 {
        62 + feb
    } else if m == 5 {
        92 + feb
    } else if m == 6 {
        123 + feb
    } else if m == 7 {
        153 + feb
    } else if m == 8 {
        184 + feb
    } else if m == 9 {
        215 + feb
    } else if m == 10 {
        245 + feb
    } else if m == 11 {
        276 + feb
    } else {
        306 + feb
    }
}

/// One-based count of days from the calendar's first day, 0001-01-01.
pub open spec fn day_number(d: Date) -> int {
    let y: int = d.year as int;
    (y - 1) * 365 + (y - 1) / 4 - (y - 1) / 100 + (y - 1) / 400 + days_before_month(
        y,
        d.month as int,
    ) + d.day
}

/// Weekday index of a date: 0 is Monday through 6 is Sunday.
/// Day number 1, 0001-01-01, is a Monday in the proleptic Gregorian calendar.
pub open spec fn weekday_index(d: Date) -> int {
    (day_number(d) - 1) % 7
}

fn days_before_month_exec(y: u32, m: u32) -> (r: u32)
    requires
        1 <= m <= 12,
    ensures
        r == days_before_month(y as int, m as int),
{
    let feb: u32 = if is_leap_year_exec(y) {
        29
    } else {
        28
    };
    if m == 1 {
        0
    } else if m == 2 {
        31
    } else if m == 3 {
        31 + feb
    } else if m == 4 {
        62 + feb
    } else if m == 5 {
        92 + feb
    } else if m == 6 {
        123 + feb
    } else if m == 7 {
        153 + feb
    } else if m == 8 {
        184 + feb
    } else if m == 9 {
        215 + feb
    } else if m == 10 {
        245 + feb
    } else if m == 11 {
        276 + feb
    } else {
        306 + feb
    }
}

/// Weekday of a date, 0 for Monday through 6 for Sunday.
pub fn weekday(d: Date) -> (r: u8)
    requires
        valid_date(d),
        d.year < 100_000,
    ensures
        r as int == weekday_index(d),
        r < 7,
{
    let y: u32 = d.year - 1;
    assert(y / 100 <= y / 4) by (nonlinear_arith);
    let n: u32 = y * 365 + y / 4 - y / 100 + y / 400 + days_before_month_exec(d.year, d.month)
        + d.day;
    ((n - 1) % 7) as u8
}

pub open spec fn is_digit(c: char) -> bool {
    '0' <= c && c <= '9'
}

pub open spec fn digit_val(c: char) -> int {
    c as int - '0' as int
}

/// The text has the shape `YYYY-MM-DD`: ten characters, digits and dashes in
/// their places.
pub open spec fn date_str_wf(s: Seq<char>) -> bool {
    &&& s.len() == 10
    &&& is_digit(s[0]) && is_digit(s[1]) && is_digit(s[2]) && is_digit(s[3])
    &&& s[4] == '-'
    &&& is_digit(s[5]) && is_digit(s[6])
    &&& s[7] == '-'
    &&& is_digit(s[8]) && is_digit(s[9])
}

pub open spec fn year_of_str(s: Seq<char>) -> int {
    digit_val(s[0]) * 1000 + digit_val(s[1]) * 100 + digit_val(s[2]) * 10 + digit_val(s[3])
}

pub open spec fn month_of_str(s: Seq<char>) -> int {
    digit_val(s[5]) * 10 + digit_val(s[6])
}

pub open spec fn day_of_str(s: Seq<char>) -> int {
    digit_val(s[8]) * 10 + digit_val(s[9])
}

/// What parsing a `YYYY-MM-DD` string yields: the named date if the text is
/// well-formed and names a real day of years 1 through 9999, nothing else.
pub open spec fn parse_date_spec(s: Seq<char>) -> Option<Date> {
    if date_str_wf(s) {
        let d = Date {
            year: year_of_str(s) as u32,
            month: month_of_str(s) as u32,
            day: day_of_str(s) as u32,
        };
        if valid_date(d) {
            Some(d)
        } else {
            None
        }
    } else {
        None
    }
}

fn read_digit(s: &str, i: usize) -> (r: Option<u32>)
    requires
        i < s@.len(),
    ensures
        match r {
            Some(v) => is_digit(s@[i as int]) && v == digit_val(s@[i as int]) && v <= 9,
            None => !is_digit(s@[i as int]),
        },
{
    let c = s.get_char(i);
    if '0' <= c && c <= '9' {
        Some(c as u32 - '0' as u32)
    } else {
        None
    }
}

/// Parse a `YYYY-MM-DD` date string; `None` on any malformed or impossible
/// date.
pub fn parse_date(s: &str) -> (r: Option<Date>)
    ensures
        r == parse_date_spec(s@),
{
    if s.unicode_len() != 10 {
        return None;
    }
    if s.get_char(4) != '-' || s.get_char(7) != '-' {
        return None;
    }
    let d0 = read_digit(s, 0);
    let d1 = read_digit(s, 1);
    let d2 = read_digit(s, 2);
    let d3 = read_digit(s, 3);
    let d5 = read_digit(s, 5);
    let d6 = read_digit(s, 6);
    let d8 = read_digit(s, 8);
    let d9 = read_digit(s, 9);
    match (d0, d1, d2, d3, d5, d6, d8, d9) {
        (
            Some(v0),
            Some(v1),
            Some(v2),
            Some(v3),
            Some(v5),
            Some(v6),
            Some(v8),
            Some(v9),
        ) => {
            let date = Date {
                year: v0 * 1000 + v1 * 100 + v2 * 10 + v3,
                month: v5 * 10 + v6,
                day: v8 * 10 + v9,
            };
            if date.year >= 1 && date.month >= 1 && date.month <= 12 && date.day >= 1 && date.day
                <= days_in_month_exec(date.year, date.month) {
                Some(date)
            } else {
                None
            }
        },
        _ => None,
    }
}

pub open spec fn digit_char(v: int) -> char {
    if v == 0 {
        '0'
    } else if v == 1 {
        '1'
    } else if v == 2 {
        '2'
    } else if v == 3 {
        '3'
    } else if v == 4 {
        '4'
    } else if v == 5 {
        '5'
    } else if v == 6 {
        '6'
    } else if v == 7 {
        '7'
    } else if v == 8 {
        '8'
    } else {
        '9'
    }
}

/// The `YYYY-MM-DD` text of a date.
pub open spec fn format_date_spec(d: Date) -> Seq<char> {
    seq![
        digit_char(d.year as int / 1000),
        digit_char((d.year as int / 100) % 10),
        digit_char((d.year as int / 10) % 10),
        digit_char(d.year as int % 10),
        '-',
        digit_char(d.month as int / 10),
        digit_char(d.month as int % 10),
        '-',
        digit_char(d.day as int / 10),
        digit_char(d.day as int % 10),
    ]
}

fn digit_str(v: u32) -> (r: &'static str)
    requires
        v <= 9,
    ensures
        r@ == seq![digit_char(v as int)],
{
    proof {
        reveal_strlit("0");
        reveal_strlit("1");
        reveal_strlit("2");
        reveal_strlit("3");
        reveal_strlit("4");
        reveal_strlit("5");
        reveal_strlit("6");
        reveal_strlit("7");
        reveal_strlit("8");
        reveal_strlit("9");
    }
    let r = match v {
        0 => "0",
        1 => "1",
        2 => "2",
        3 => "3",
        4 => "4",
        5 => "5",
        6 => "6",
        7 => "7",
        8 => "8",
        _ => "9",
    };
    proof {
        assert(r@ =~= seq![digit_char(v as int)]);
    }
    r
}

/// Render a date of years 1 through 9999 as `YYYY-MM-DD`.
pub fn format_date(d: &Date) -> (r: String)
    requires
        valid_date(*d),
        d.year <= 9999,
    ensures
        r@ == format_date_spec(*d),
{
    proof {
        reveal_strlit("-");
    }
    let mut out = String::new();
    out.append(digit_str(d.year / 1000));
    out.append(digit_str((d.year / 100) % 10));
    out.append(digit_str((d.year / 10) % 10));
    out.append(digit_str(d.year % 10));
    out.append("-");
    out.append(digit_str(d.month / 10));
    out.append(digit_str(d.month % 10));
    out.append("-");
    out.append(digit_str(d.day / 10));
    out.append(digit_str(d.day % 10));
    proof {
        assert(out@ =~= format_date_spec(*d));
    }
    out
}

} // verus!

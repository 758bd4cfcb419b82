//! Expansion of a date range and two target weekdays into the ordered list
//! of (outbound, return) date pairs to query, one per week in range.

use vstd::prelude::*;
use crate::date::{
    add_days, add_days_spec, date_lt, date_lt_exec, format_date, format_date_spec,
    lemma_add_days_split, lemma_add_days_strict_mono, lemma_add_days_valid, lemma_date_lt_ord,
    parse_date, parse_date_spec, valid_date, weekday, weekday_index, year_of_str, Date,
};

verus! {

/// One candidate week: fly out on `outbound`, back on `return_date`.
#[derive(Clone, Copy, PartialEq, Eq, Structural, Debug)]
pub struct DatePair {
    pub outbound: Date,
    pub return_date: Date,
}

/// Why an expansion request was rejected before any fetching.
#[derive(Clone, Copy, PartialEq, Eq, Structural, Debug)]
pub enum ExpandError {
    /// A boundary date does not parse as a `YYYY-MM-DD` calendar date.
    InvalidDateFormat,
    /// A weekday string is not an English weekday name.
    InvalidWeekdayName,
}

/// Case-insensitive match of one character against a lowercase letter.
pub open spec fn ci_eq_char(c: char, lower: char) -> bool {
    c == lower || c as u32 + 32 == lower as u32
}

/// Case-insensitive equality against an all-lowercase word.
pub open spec fn ci_eq(s: Seq<char>, lower: Seq<char>) -> bool {
    s.len() == lower.len() && forall|i: int| 0 <= i < s.len() ==> ci_eq_char(s[i], lower[i])
}

/// The weekday index a name denotes: case-insensitive English names,
/// 0 for Monday through 6 for Sunday, nothing for any other string.
pub open spec fn weekday_from_name(s: Seq<char>) -> Option<u8> {
    if ci_eq(s, "monday"@) {
        Some(0u8)
    } else if ci_eq(s, "tuesday"@) {
        Some(1u8)
    } else if ci_eq(s, "wednesday"@) {
        Some(2u8)
    } else if ci_eq(s, "thursday"@) {
        Some(3u8)
    } else if ci_eq(s, "friday"@) {
        Some(4u8)
    } else if ci_eq(s, "saturday"@) {
        Some(5u8)
    } else if ci_eq(s, "sunday"@) {
        Some(6u8)
    } else {
        None
    }
}

fn ci_eq_exec(s: &str, lower: &str) -> (r: bool)
    ensures
        r == ci_eq(s@, lower@),
{
    let n = s.unicode_len();
    if n != lower.unicode_len() {
        return false;
    }
    let mut i: usize = 0;
    while i < n
        invariant
            i <= n,
            n == s@.len() == lower@.len(),
            forall|j: int| 0 <= j < i ==> ci_eq_char(s@[j], lower@[j]),
        decreases n - i,
    {
        let c = s.get_char(i);
        let l = lower.get_char(i);
        if !(c == l || (c as u32) + 32 == l as u32) {
            return false;
        }
        i = i + 1;
    }
    true
}

/// Parse a case-insensitive English weekday name into its index,
/// 0 for Monday through 6 for Sunday.
pub fn parse_weekday(s: &str) -> (r: Option<u8>)
    ensures
        r == weekday_from_name(s@),
        r is Some ==> r->0 < 7,
{
    if ci_eq_exec(s, "monday") {
        Some(0)
    } else if ci_eq_exec(s, "tuesday") {
        Some(1)
    } else if ci_eq_exec(s, "wednesday") {
        Some(2)
    } else if ci_eq_exec(s, "thursday") {
        Some(3)
    } else if ci_eq_exec(s, "friday") {
        Some(4)
    } else if ci_eq_exec(s, "saturday") {
        Some(5)
    } else if ci_eq_exec(s, "sunday") {
        Some(6)
    } else {
        None
    }
}

/// Days from a date on weekday `from` to the next date on weekday `to`
/// (zero when the weekdays are equal).
pub open spec fn wd_offset(from: int, to: int) -> int {
    (to - from + 7) % 7
}

/// Days from the range start to the first candidate outbound date.
pub open spec fn first_outbound_offset(start: Date, dfrom: int) -> int {
    wd_offset(weekday_index(start), dfrom)
}

/// Days from the range start to the first candidate return date: the first
/// date on the return weekday, pushed one week out if it would precede the
/// first outbound date.
pub open spec fn first_return_offset(start: Date, dfrom: int, dto: int) -> int {
    let a = first_outbound_offset(start, dfrom);
    let b0 = wd_offset(weekday_index(start), dto);
    if b0 < a {
        b0 + 7
    } else {
        b0
    }
}

/// Days-granularity upper bound on how many steps remain before `cur`
/// reaches `end`; zero once it has.
spec fn steps_left(cur: Date, end: Date) -> int {
    if date_lt(cur, end) {
        crate::date::date_ord(end) - crate::date::date_ord(cur)
    } else {
        0
    }
}

/// Exactly the pairs the expansion emits: the i-th pair lies i weeks past
/// the first one, every emitted return date is before the range end, and the
/// next return date past the sequence is not.
pub open spec fn expand_post(start: Date, end: Date, dfrom: int, dto: int, s: Seq<DatePair>) -> bool {
    let a = first_outbound_offset(start, dfrom);
    let b = first_return_offset(start, dfrom, dto);
    &&& forall|i: int|
        0 <= i < s.len() ==> (#[trigger] s[i]).outbound == add_days_spec(start, (a + 7 * i) as nat)
    &&& forall|i: int|
        0 <= i < s.len() ==> (#[trigger] s[i]).return_date == add_days_spec(
            start,
            (b + 7 * i) as nat,
        )
    &&& forall|i: int| 0 <= i < s.len() ==> date_lt((#[trigger] s[i]).return_date, end)
    &&& !date_lt(add_days_spec(start, (b + 7 * s.len()) as nat), end)
}

/// Expand a date range into one (outbound, return) pair per week.
///
/// The first outbound date is the first date on weekday `dfrom` at or after
/// `start`; the first return date is the first date on weekday `dto` at or
/// after `start`, moved one week later if it would precede the outbound
/// date.  Pairs step forward a week at a time while the return date is
/// strictly before `end`.  Every emitted pair has its return date strictly
/// after its outbound date unless the two weekdays are equal, in which case
/// the two dates coincide.
pub fn expand(start: Date, end: Date, dfrom: u8, dto: u8) -> (r: Vec<DatePair>)
    requires
        valid_date(start),
        valid_date(end),
        start.year <= 9999,
        end.year <= 9999,
        dfrom < 7,
        dto < 7,
    ensures
        expand_post(start, end, dfrom as int, dto as int, r@),
        first_return_offset(start, dfrom as int, dto as int) + 7 * r@.len() <= 3_800_000,
        dfrom != dto ==> forall|i: int|
            0 <= i < r@.len() ==> date_lt((#[trigger] r@[i]).outbound, r@[i].return_date),
        dfrom == dto ==> forall|i: int|
            0 <= i < r@.len() ==> (#[trigger] r@[i]).return_date == r@[i].outbound,
{
    let ghost a_s = first_outbound_offset(start, dfrom as int);
    let ghost b_s = first_return_offset(start, dfrom as int, dto as int);
    let wd = weekday(start);
    let a: u32 = ((dfrom as u32) + 7 - (wd as u32)) % 7;
    let b0: u32 = ((dto as u32) + 7 - (wd as u32)) % 7;
    assert(a == first_outbound_offset(start, dfrom as int));
    assert(b0 == wd_offset(weekday_index(start), dto as int));
    let mut cur_out = add_days(start, a);
    let mut cur_ret = add_days(start, b0);
    if date_lt_exec(&cur_ret, &cur_out) {
        proof {
            if b0 >= a {
                if b0 == a {
                    assert(cur_ret == cur_out);
                } else {
                    lemma_add_days_strict_mono(start, a as nat, b0 as nat);
                    lemma_add_days_valid(start, a as nat);
                    lemma_add_days_valid(start, b0 as nat);
                    lemma_date_lt_ord(cur_out, cur_ret);
                    lemma_date_lt_ord(cur_ret, cur_out);
                }
                assert(false);
            }
        }
        cur_ret = add_days(cur_ret, 7);
        proof {
            lemma_add_days_split(start, b0 as nat, 7);
            assert(b_s == b0 + 7);
            assert(cur_ret == add_days_spec(start, b_s as nat));
        }
    } else {
        proof {
            if b0 < a {
                lemma_add_days_strict_mono(start, b0 as nat, a as nat);
                assert(false);
            }
            assert(b_s == b0);
        }
    }
    proof {
        assert(a_s <= b_s);
        lemma_add_days_valid(start, b_s as nat);
    }
    let mut r: Vec<DatePair> = Vec::new();
    while date_lt_exec(&cur_ret, &end)
        invariant
            valid_date(start),
            valid_date(end),
            start.year <= 9999,
            end.year <= 9999,
            dfrom < 7,
            dto < 7,
            a_s == first_outbound_offset(start, dfrom as int),
            b_s == first_return_offset(start, dfrom as int, dto as int),
            0 <= a_s <= b_s <= 13,
            cur_out == add_days_spec(start, (a_s + 7 * r@.len()) as nat),
            cur_ret == add_days_spec(start, (b_s + 7 * r@.len()) as nat),
            valid_date(cur_out),
            valid_date(cur_ret),
            cur_ret.year <= 10_014,
            cur_out.year <= 10_014,
            b_s + 7 * r@.len() <= crate::date::date_ord(cur_ret),
            b_s + 7 * r@.len() <= 3_800_000,
            forall|i: int|
                0 <= i < r@.len() ==> (#[trigger] r@[i]).outbound == add_days_spec(
                    start,
                    (a_s + 7 * i) as nat,
                ),
            forall|i: int|
                0 <= i < r@.len() ==> (#[trigger] r@[i]).return_date == add_days_spec(
                    start,
                    (b_s + 7 * i) as nat,
                ),
            forall|i: int| 0 <= i < r@.len() ==> date_lt((#[trigger] r@[i]).return_date, end),
        decreases steps_left(cur_ret, end),
    {
        r.push(DatePair { outbound: cur_out, return_date: cur_ret });
        proof {
            lemma_date_lt_ord(cur_ret, end);
            lemma_add_days_split(start, (a_s + 7 * (r@.len() - 1)) as nat, 7);
            lemma_add_days_split(start, (b_s + 7 * (r@.len() - 1)) as nat, 7);
            lemma_add_days_valid(start, (b_s + 7 * (r@.len() - 1)) as nat);
            lemma_add_days_valid(start, (b_s + 7 * r@.len()) as nat);
            lemma_add_days_strict_mono(
                start,
                (b_s + 7 * (r@.len() - 1)) as nat,
                (b_s + 7 * r@.len()) as nat,
            );
            if a_s < b_s {
                lemma_add_days_strict_mono(
                    start,
                    (a_s + 7 * (r@.len() - 1)) as nat,
                    (b_s + 7 * (r@.len() - 1)) as nat,
                );
            }
        }
        cur_out = add_days(cur_out, 7);
        cur_ret = add_days(cur_ret, 7);
        proof {
            lemma_date_lt_ord(
                add_days_spec(start, (b_s + 7 * (r@.len() - 1)) as nat),
                cur_ret,
            );
        }
    }
    proof {
        if dfrom != dto {
            assert(a_s != b_s) by {
                let w = weekday_index(start);
                assert(wd_offset(w, dfrom as int) != wd_offset(w, dto as int));
            };
            assert forall|i: int| 0 <= i < r@.len() implies date_lt(
                (#[trigger] r@[i]).outbound,
                r@[i].return_date,
            ) by {
                assert(b_s + 7 * i <= b_s + 7 * r@.len() <= 3_800_000);
                lemma_add_days_strict_mono(start, (a_s + 7 * i) as nat, (b_s + 7 * i) as nat);
            };
        } else {
            assert(a_s == b_s);
        }
    }
    r
}

/// The string-level expansion result: the `YYYY-MM-DD` texts of exactly the
/// date pairs that `expand_post` describes.
pub open spec fn combos_post(
    start: Date,
    end: Date,
    dfrom: int,
    dto: int,
    v: Seq<(String, String)>,
) -> bool {
    let a = first_outbound_offset(start, dfrom);
    let b = first_return_offset(start, dfrom, dto);
    &&& forall|i: int|
        0 <= i < v.len() ==> (#[trigger] v[i]).0@ == format_date_spec(
            add_days_spec(start, (a + 7 * i) as nat),
        )
    &&& forall|i: int|
        0 <= i < v.len() ==> (#[trigger] v[i]).1@ == format_date_spec(
            add_days_spec(start, (b + 7 * i) as nat),
        )
    &&& forall|i: int|
        0 <= i < v.len() ==> date_lt(#[trigger] add_days_spec(start, (b + 7 * i) as nat), end)
    &&& !date_lt(add_days_spec(start, (b + 7 * v.len()) as nat), end)
}

/// Expand two `YYYY-MM-DD` boundary dates and two weekday names into the
/// weekly (outbound, return) date pairs, as text.
///
/// Fails with `InvalidDateFormat` if either boundary date does not parse,
/// otherwise with `InvalidWeekdayName` if either weekday name is not an
/// English weekday; otherwise returns exactly the pairs of the expansion,
/// possibly none.
pub fn get_weekday_combinations(
    start_date_str: &str,
    end_date_str: &str,
    start_weekday_str: &str,
    end_weekday_str: &str,
) -> (r: Result<Vec<(String, String)>, ExpandError>)
    ensures
        r is Err ==> (r == Err::<Vec<(String, String)>, ExpandError>(ExpandError::InvalidDateFormat)
            <==> (parse_date_spec(start_date_str@) is None || parse_date_spec(
            end_date_str@,
        ) is None)),
        r == Err::<Vec<(String, String)>, ExpandError>(ExpandError::InvalidWeekdayName) ==> (
        parse_date_spec(start_date_str@) is Some && parse_date_spec(end_date_str@) is Some && (
        weekday_from_name(start_weekday_str@) is None || weekday_from_name(
            end_weekday_str@,
        ) is None)),
        r is Ok <==> (parse_date_spec(start_date_str@) is Some && parse_date_spec(
            end_date_str@,
        ) is Some && weekday_from_name(start_weekday_str@) is Some && weekday_from_name(
            end_weekday_str@,
        ) is Some),
        r matches Ok(v) ==> combos_post(
            parse_date_spec(start_date_str@)->Some_0,
            parse_date_spec(end_date_str@)->Some_0,
            weekday_from_name(start_weekday_str@)->Some_0 as int,
            weekday_from_name(end_weekday_str@)->Some_0 as int,
            v@,
        ),
{
    let start = match parse_date(start_date_str) {
        Some(d) => d,
        None => { return Err(ExpandError::InvalidDateFormat) },
    };
    let end = match parse_date(end_date_str) {
        Some(d) => d,
        None => { return Err(ExpandError::InvalidDateFormat) },
    };
    let dfrom = match parse_weekday(start_weekday_str) {
        Some(w) => w,
        None => { return Err(ExpandError::InvalidWeekdayName) },
    };
    let dto = match parse_weekday(end_weekday_str) {
        Some(w) => w,
        None => { return Err(ExpandError::InvalidWeekdayName) },
    };
    assert(start.year <= 9999 && end.year <= 9999) by {
        assert(year_of_str(start_date_str@) <= 9999);
        assert(year_of_str(end_date_str@) <= 9999);
    };
    Ok(format_pairs(start, end, dfrom, dto))
}

/// Expand parsed boundaries and render each emitted pair as text.
fn format_pairs(start: Date, end: Date, dfrom: u8, dto: u8) -> (v: Vec<(String, String)>)
    requires
        valid_date(start),
        valid_date(end),
        start.year <= 9999,
        end.year <= 9999,
        dfrom < 7,
        dto < 7,
    ensures
        combos_post(start, end, dfrom as int, dto as int, v@),
{
    let pairs = expand(start, end, dfrom, dto);
    let mut v: Vec<(String, String)> = Vec::new();
    let mut i: usize = 0;
    while i < pairs.len()
        invariant
            i <= pairs@.len(),
            v@.len() == i,
            valid_date(start),
            valid_date(end),
            start.year <= 9999,
            end.year <= 9999,
            dfrom < 7,
            dto < 7,
            expand_post(start, end, dfrom as int, dto as int, pairs@),
            first_return_offset(start, dfrom as int, dto as int) + 7 * pairs@.len()
                <= 3_800_000,
            forall|j: int|
                0 <= j < i ==> (#[trigger] v@[j]).0@ == format_date_spec(pairs@[j].outbound),
            forall|j: int|
                0 <= j < i ==> (#[trigger] v@[j]).1@ == format_date_spec(pairs@[j].return_date),
        decreases pairs@.len() - i,
    {
        let p = &pairs[i];
        proof {
            let a = first_outbound_offset(start, dfrom as int);
            let b = first_return_offset(start, dfrom as int, dto as int);
            assert(pairs@[i as int].outbound == add_days_spec(start, (a + 7 * i) as nat));
            assert(pairs@[i as int].return_date == add_days_spec(start, (b + 7 * i) as nat));
            assert(date_lt(pairs@[i as int].return_date, end));
            lemma_le_end_bounds(start, end, a, b, i as int);
        }
        let out_s = format_date(&p.outbound);
        let ret_s = format_date(&p.return_date);
        v.push((out_s, ret_s));
        i = i + 1;
    }
    proof {
        let a = first_outbound_offset(start, dfrom as int);
        let b = first_return_offset(start, dfrom as int, dto as int);
        assert forall|j: int| 0 <= j < v@.len() implies (#[trigger] v@[j]).0@ == format_date_spec(
            add_days_spec(start, (a + 7 * j) as nat),
        ) by {
            assert(v@[j].0@ == format_date_spec(pairs@[j].outbound));
        };
        assert forall|j: int| 0 <= j < v@.len() implies (#[trigger] v@[j]).1@ == format_date_spec(
            add_days_spec(start, (b + 7 * j) as nat),
        ) by {
            assert(v@[j].1@ == format_date_spec(pairs@[j].return_date));
        };
        assert forall|j: int| 0 <= j < v@.len() implies date_lt(
            #[trigger] add_days_spec(start, (b + 7 * j) as nat),
            end,
        ) by {
            assert(pairs@[j].return_date == add_days_spec(start, (b + 7 * j) as nat));
            assert(date_lt(pairs@[j].return_date, end));
        };
    }
    v
}

/// An emitted pair's dates are valid and fall in the years the formatter
/// accepts: they lie no later than a week past the range end.
proof fn lemma_le_end_bounds(start: Date, end: Date, a: int, b: int, i: int)
    requires
        valid_date(start),
        valid_date(end),
        start.year <= 9999,
        end.year <= 9999,
        0 <= a <= b <= 13,
        b - a <= 7,
        0 <= i,
        b + 7 * i <= 3_800_000,
        date_lt(add_days_spec(start, (b + 7 * i) as nat), end),
    ensures
        valid_date(add_days_spec(start, (a + 7 * i) as nat)),
        valid_date(add_days_spec(start, (b + 7 * i) as nat)),
        add_days_spec(start, (a + 7 * i) as nat).year <= 9999,
        add_days_spec(start, (b + 7 * i) as nat).year <= 9999,
{
    lemma_add_days_valid(start, (a + 7 * i) as nat);
    lemma_add_days_valid(start, (b + 7 * i) as nat);
    let ret = add_days_spec(start, (b + 7 * i) as nat);
    assert(ret.year <= end.year);
    if a == b {
    } else {
        lemma_add_days_strict_mono(start, (a + 7 * i) as nat, (b + 7 * i) as nat);
        lemma_date_lt_ord(add_days_spec(start, (a + 7 * i) as nat), ret);
    }
}

/// Any two sequences that meet the expansion contract for the same inputs
/// are the same sequence: the expansion is a pure function of its inputs.
pub proof fn lemma_expand_unique(
    start: Date,
    end: Date,
    dfrom: int,
    dto: int,
    s1: Seq<DatePair>,
    s2: Seq<DatePair>,
)
    requires
        valid_date(start),
        valid_date(end),
        start.year <= 9999,
        end.year <= 9999,
        0 <= dfrom < 7,
        0 <= dto < 7,
        expand_post(start, end, dfrom, dto, s1),
        expand_post(start, end, dfrom, dto, s2),
    ensures
        s1 == s2,
{
    let b = first_return_offset(start, dfrom, dto);
    if s1.len() < s2.len() {
        let i = s1.len() as int;
        assert(date_lt(s2[i].return_date, end));
        assert(s2[i].return_date == add_days_spec(start, (b + 7 * i) as nat));
        assert(!date_lt(add_days_spec(start, (b + 7 * s1.len()) as nat), end));
        assert(false);
    } else if s2.len() < s1.len() {
        let i = s2.len() as int;
        assert(date_lt(s1[i].return_date, end));
        assert(s1[i].return_date == add_days_spec(start, (b + 7 * i) as nat));
        assert(!date_lt(add_days_spec(start, (b + 7 * s2.len()) as nat), end));
        assert(false);
    }
    assert forall|i: int| 0 <= i < s1.len() implies s1[i] == s2[i] by {
        assert(s1[i].outbound == s2[i].outbound);
        assert(s1[i].return_date == s2[i].return_date);
    };
    assert(s1 =~= s2);
}

} // verus!


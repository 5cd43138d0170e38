//! Calendar dates as plain year/month/day values, with the sortable
//! `YYYY-MM-DD` text form used by the year store and the long
//! `MonthName day, year` form used by the source's date lines.

use crate::text::{chars_to_string, str_chars};
use vstd::prelude::*;

verus! {

/// A Gregorian calendar date held as plain numbers.
#[derive(Clone, Copy, Debug, PartialEq, Eq, Structural)]
pub struct Date {
    pub year: i32,
    pub month: u32,
    pub day: u32,
}

/// True when `year` is a leap year in the Gregorian calendar.
pub open spec fn leap_spec(year: int) -> bool {
    (year % 4 == 0 && year % 100 != 0) || year % 400 == 0
}

/// Number of days in `month` of `year`.
pub open spec fn days_in_month_spec(year: int, month: int) -> int {
    if month == 2 {
        if leap_spec(year) {
            29
        } else {
            28
        }
    } else if month == 4 || month == 6 || month == 9 || month == 11 {
        30
    } else {
        31
    }
}

/// The supported range of years and a well-formed month/day.
pub open spec fn valid_date(d: Date) -> bool {
    &&& 1900 <= d.year <= 2100
    &&& 1 <= d.month <= 12
    &&& 1 <= d.day <= days_in_month_spec(d.year as int, d.month as int)
}

/// True when `year` is a leap year.
pub fn is_leap_year(year: i32) -> (r: bool)
    ensures
        r == leap_spec(year as int),
{
    (year % 4 == 0 && year % 100 != 0) || year % 400 == 0
}

/// Number of days in `month` of `year`.
pub fn days_in_month(year: i32, month: u32) -> (r: u32)
    requires
        1 <= month <= 12,
    ensures
        r == days_in_month_spec(year as int, month as int),
        28 <= r <= 31,
{
    if month == 2 {
        if is_leap_year(year) {
            29
        } else {
            28
        }
    } else if month == 4 || month == 6 || month == 9 || month == 11 {
        30
    } else {
        31
    }
}

/// The decimal digit character for `n` in 0..=9 (`'0'` otherwise).
pub open spec fn digit_char(n: int) -> char {
    if n == 0 {
        '0'
    } else if n == 1 {
        '1'
    } else if n == 2 {
        '2'
    } else if n == 3 {
        '3'
    } else if n == 4 {
        '4'
    } else if n == 5 {
        '5'
    } else if n == 6 {
        '6'
    } else if n == 7 {
        '7'
    } else if n == 8 {
        '8'
    } else if n == 9 {
        '9'
    } else {
        '0'
    }
}

/// The value of a decimal digit character, or -1 for any other character.
pub open spec fn digit_val(c: char) -> int {
    if c == '0' {
        0
    } else if c == '1' {
        1
    } else if c == '2' {
        2
    } else if c == '3' {
        3
    } else if c == '4' {
        4
    } else if c == '5' {
        5
    } else if c == '6' {
        6
    } else if c == '7' {
        7
    } else if c == '8' {
        8
    } else if c == '9' {
        9
    } else {
        -1
    }
}

/// True when `c` is a decimal digit.
pub open spec fn is_digit(c: char) -> bool {
    digit_val(c) >= 0
}

/// Value of a digit character, executable form.
pub fn digit_val_exec(c: char) -> (r: i32)
    ensures
        r == digit_val(c),
{
    match c {
        '0' => 0,
        '1' => 1,
        '2' => 2,
        '3' => 3,
        '4' => 4,
        '5' => 5,
        '6' => 6,
        '7' => 7,
        '8' => 8,
        '9' => 9,
        _ => -1,
    }
}

/// Digit character for `n` in 0..=9, executable form.
pub fn digit_char_exec(n: u32) -> (r: char)
    requires
        n <= 9,
    ensures
        r == digit_char(n as int),
{
    match n {
        0 => '0',
        1 => '1',
        2 => '2',
        3 => '3',
        4 => '4',
        5 => '5',
        6 => '6',
        7 => '7',
        8 => '8',
        _ => '9',
    }
}

/// Four decimal digits for `y` in 0..=9999, most significant first.
pub open spec fn four_digits(y: int) -> Seq<char> {
    seq![
        digit_char(y / 1000),
        digit_char((y / 100) % 10),
        digit_char((y / 10) % 10),
        digit_char(y % 10),
    ]
}

/// Two decimal digits for `n` in 0..=99, most significant first.
pub open spec fn two_digits(n: int) -> Seq<char> {
    seq![digit_char(n / 10), digit_char(n % 10)]
}

/// The sortable `YYYY-MM-DD` form of `d`.
pub open spec fn format_sortable_spec(d: Date) -> Seq<char> {
    four_digits(d.year as int) + seq!['-'] + two_digits(d.month as int) + seq!['-'] + two_digits(
        d.day as int,
    )
}

/// What a ten-character `YYYY-MM-DD` string denotes, if it denotes a
/// real calendar date at all.
pub open spec fn parse_sortable_spec(s: Seq<char>) -> Option<Date> {
    if s.len() == 10 && is_digit(s[0]) && is_digit(s[1]) && is_digit(s[2]) && is_digit(s[3])
        && s[4] == '-' && is_digit(s[5]) && is_digit(s[6]) && s[7] == '-' && is_digit(s[8])
        && is_digit(s[9]) {
        let y = ((digit_val(s[0]) * 10 + digit_val(s[1])) * 10 + digit_val(s[2])) * 10 + digit_val(
            s[3],
        );
        let m = digit_val(s[5]) * 10 + digit_val(s[6]);
        let dd = digit_val(s[8]) * 10 + digit_val(s[9]);
        if 1 <= m <= 12 && 1 <= dd <= days_in_month_spec(y, m) {
            Some(Date { year: y as i32, month: m as u32, day: dd as u32 })
        } else {
            None
        }
    } else {
        None
    }
}

/// Digit characters recover their value.
pub proof fn lemma_digit_roundtrip(n: int)
    requires
        0 <= n <= 9,
    ensures
        digit_val(digit_char(n)) == n,
{
}

/// Formatting a date in 0..=9999 and reading the digits back recovers
/// the year, month and day fields.
proof fn lemma_four_digits_value(y: int)
    requires
        0 <= y <= 9999,
    ensures
        ({
            let s = four_digits(y);
            ((digit_val(s[0]) * 10 + digit_val(s[1])) * 10 + digit_val(s[2])) * 10 + digit_val(s[3])
                == y
        }),
{
    let q1 = y / 10;
    let q2 = q1 / 10;
    let q3 = q2 / 10;
    vstd::arithmetic::div_mod::lemma_fundamental_div_mod(y, 10);
    vstd::arithmetic::div_mod::lemma_fundamental_div_mod(q1, 10);
    vstd::arithmetic::div_mod::lemma_fundamental_div_mod(q2, 10);
    assert(q2 == y / 100) by (nonlinear_arith)
        requires q1 == y / 10, q2 == q1 / 10;
    assert(q3 == y / 1000) by (nonlinear_arith)
        requires q2 == y / 100, q3 == q2 / 10;
    lemma_digit_roundtrip(q3);
    lemma_digit_roundtrip(q2 % 10);
    lemma_digit_roundtrip(q1 % 10);
    lemma_digit_roundtrip(y % 10);
}

proof fn lemma_two_digits_value(n: int)
    requires
        0 <= n <= 99,
    ensures
        ({
            let s = two_digits(n);
            digit_val(s[0]) * 10 + digit_val(s[1]) == n
        }),
{
    vstd::arithmetic::div_mod::lemma_fundamental_div_mod(n, 10);
    lemma_digit_roundtrip(n / 10);
    lemma_digit_roundtrip(n % 10);
}

/// For every valid date, the sortable text form round-trips: parsing
/// what `format_sortable_spec` produced yields the same date back.
pub proof fn lemma_sortable_roundtrip(d: Date)
    requires
        valid_date(d),
    ensures
        parse_sortable_spec(format_sortable_spec(d)) == Some(d),
{
    let s = format_sortable_spec(d);
    assert(s.len() == 10);
    lemma_four_digits_value(d.year as int);
    lemma_two_digits_value(d.month as int);
    lemma_two_digits_value(d.day as int);
    assert(s[0] == four_digits(d.year as int)[0]);
    assert(s[1] == four_digits(d.year as int)[1]);
    assert(s[2] == four_digits(d.year as int)[2]);
    assert(s[3] == four_digits(d.year as int)[3]);
    assert(s[4] == '-');
    assert(s[5] == two_digits(d.month as int)[0]);
    assert(s[6] == two_digits(d.month as int)[1]);
    assert(s[7] == '-');
    assert(s[8] == two_digits(d.day as int)[0]);
    assert(s[9] == two_digits(d.day as int)[1]);
}

/// The sortable `YYYY-MM-DD` text for `d`.
pub fn format_sortable(d: Date) -> (r: String)
    requires
        0 <= d.year <= 9999,
        d.month <= 99,
        d.day <= 99,
    ensures
        r@ == format_sortable_spec(d),
{
    let y = d.year as u32;
    let mut v: Vec<char> = Vec::new();
    v.push(digit_char_exec(y / 1000));
    v.push(digit_char_exec((y / 100) % 10));
    v.push(digit_char_exec((y / 10) % 10));
    v.push(digit_char_exec(y % 10));
    v.push('-');
    v.push(digit_char_exec(d.month / 10));
    v.push(digit_char_exec(d.month % 10));
    v.push('-');
    v.push(digit_char_exec(d.day / 10));
    v.push(digit_char_exec(d.day % 10));
    proof {
        assert(v@ =~= format_sortable_spec(d));
    }
    chars_to_string(&v)
}

/// Parses a `YYYY-MM-DD` string back into a date, accepting exactly the
/// strings that denote a real calendar date.
pub fn parse_sortable(s: &str) -> (r: Option<Date>)
    ensures
        r == parse_sortable_spec(s@),
{
    let v = str_chars(s);
    if v.len() != 10 {
        return None;
    }
    let d0 = digit_val_exec(v[0]);
    let d1 = digit_val_exec(v[1]);
    let d2 = digit_val_exec(v[2]);
    let d3 = digit_val_exec(v[3]);
    let d5 = digit_val_exec(v[5]);
    let d6 = digit_val_exec(v[6]);
    let d8 = digit_val_exec(v[8]);
    let d9 = digit_val_exec(v[9]);
    if d0 < 0 || d1 < 0 || d2 < 0 || d3 < 0 || v[4] != '-' || d5 < 0 || d6 < 0 || v[7] != '-'
        || d8 < 0 || d9 < 0 {
        return None;
    }
    let y = ((d0 * 10 + d1) * 10 + d2) * 10 + d3;
    let m = d5 * 10 + d6;
    let dd = d8 * 10 + d9;
    if 1 <= m && m <= 12 && 1 <= dd && dd <= days_in_month(y, m as u32) as i32 {
        Some(Date { year: y, month: m as u32, day: dd as u32 })
    } else {
        None
    }
}

/// The English name of month `m` (1..=12), as the source writes it.
pub open spec fn month_name_spec(m: int) -> Seq<char> {
    if m == 1 {
        seq!['J', 'a', 'n', 'u', 'a', 'r', 'y']
    } else if m == 2 {
        seq!['F', 'e', 'b', 'r', 'u', 'a', 'r', 'y']
    } else if m == 3 {
        seq!['M', 'a', 'r', 'c', 'h']
    } else if m == 4 {
        seq!['A', 'p', 'r', 'i', 'l']
    } else if m == 5 {
        seq!['M', 'a', 'y']
    } else if m == 6 {
        seq!['J', 'u', 'n', 'e']
    } else if m == 7 {
        seq!['J', 'u', 'l', 'y']
    } else if m == 8 {
        seq!['A', 'u', 'g', 'u', 's', 't']
    } else if m == 9 {
        seq!['S', 'e', 'p', 't', 'e', 'm', 'b', 'e', 'r']
    } else if m == 10 {
        seq!['O', 'c', 't', 'o', 'b', 'e', 'r']
    } else if m == 11 {
        seq!['N', 'o', 'v', 'e', 'm', 'b', 'e', 'r']
    } else {
        seq!['D', 'e', 'c', 'e', 'm', 'b', 'e', 'r']
    }
}

/// The month whose name is a prefix of `s`, tried in calendar order, or
/// 0 when none matches. No month name is a prefix of another, so at most
/// one can match.
pub open spec fn month_of_prefix(s: Seq<char>) -> int {
    if crate::text::starts_with_spec(s, month_name_spec(1)) {
        1
    } else if crate::text::starts_with_spec(s, month_name_spec(2)) {
        2
    } else if crate::text::starts_with_spec(s, month_name_spec(3)) {
        3
    } else if crate::text::starts_with_spec(s, month_name_spec(4)) {
        4
    } else if crate::text::starts_with_spec(s, month_name_spec(5)) {
        5
    } else if crate::text::starts_with_spec(s, month_name_spec(6)) {
        6
    } else if crate::text::starts_with_spec(s, month_name_spec(7)) {
        7
    } else if crate::text::starts_with_spec(s, month_name_spec(8)) {
        8
    } else if crate::text::starts_with_spec(s, month_name_spec(9)) {
        9
    } else if crate::text::starts_with_spec(s, month_name_spec(10)) {
        10
    } else if crate::text::starts_with_spec(s, month_name_spec(11)) {
        11
    } else if crate::text::starts_with_spec(s, month_name_spec(12)) {
        12
    } else {
        0
    }
}

/// What a `MonthName day, year` date line denotes: the month name, one
/// space, a one- or two-digit day, a comma and a space, then exactly
/// four digits of year, with the day valid for that month and year.
pub open spec fn parse_date_spec(s: Seq<char>) -> Option<Date> {
    let m = month_of_prefix(s);
    if m == 0 {
        None
    } else {
        let t = s.skip(month_name_spec(m).len() as int);
        if t.len() >= 2 && t[0] == ' ' && is_digit(t[1]) {
            let two = t.len() >= 3 && is_digit(t[2]);
            let dd = if two {
                digit_val(t[1]) * 10 + digit_val(t[2])
            } else {
                digit_val(t[1])
            };
            let u = if two {
                t.skip(3)
            } else {
                t.skip(2)
            };
            if u.len() == 6 && u[0] == ',' && u[1] == ' ' && is_digit(u[2]) && is_digit(u[3])
                && is_digit(u[4]) && is_digit(u[5]) {
                let y = ((digit_val(u[2]) * 10 + digit_val(u[3])) * 10 + digit_val(u[4])) * 10
                    + digit_val(u[5]);
                if 1 <= dd <= days_in_month_spec(y, m) {
                    Some(Date { year: y as i32, month: m as u32, day: dd as u32 })
                } else {
                    None
                }
            } else {
                None
            }
        } else {
            None
        }
    }
}

/// Name of month `m` as a character vector.
pub fn month_name_chars(m: u32) -> (r: Vec<char>)
    requires
        1 <= m <= 12,
    ensures
        r@ == month_name_spec(m as int),
{
    let s: &str = match m {
        1 => "January",
        2 => "February",
        3 => "March",
        4 => "April",
        5 => "May",
        6 => "June",
        7 => "July",
        8 => "August",
        9 => "September",
        10 => "October",
        11 => "November",
        _ => "December",
    };
    proof {
        reveal_strlit("January");
        reveal_strlit("February");
        reveal_strlit("March");
        reveal_strlit("April");
        reveal_strlit("May");
        reveal_strlit("June");
        reveal_strlit("July");
        reveal_strlit("August");
        reveal_strlit("September");
        reveal_strlit("October");
        reveal_strlit("November");
        reveal_strlit("December");
        assert(s@ =~= month_name_spec(m as int));
    }
    str_chars(s)
}

/// Parses a date written as `MonthName day, year` (for example
/// `January 1, 2024`), the form the source uses in its date lines.
pub fn parse_date(s: &str) -> (r: Option<Date>)
    ensures
        r == parse_date_spec(s@),
{
    let v = str_chars(s);
    parse_date_chars(&v)
}

fn month_prefix_of(v: &Vec<char>) -> (r: u32)
    ensures
        r == month_of_prefix(v@),
        r <= 12,
{
    let mut m: u32 = 1;
    while m <= 12
        invariant
            1 <= m <= 13,
            forall|k: int|
                1 <= k < m ==> !crate::text::starts_with_spec(v@, month_name_spec(k)),
        decreases 13 - m,
    {
        let name = month_name_chars(m);
        if crate::text::matches_at_exec(v, 0, &name) {
            return m;
        }
        m = m + 1;
    }
    0
}

/// Parses a `MonthName day, year` date held as characters.
pub fn parse_date_chars(v: &Vec<char>) -> (r: Option<Date>)
    ensures
        r == parse_date_spec(v@),
{
    let m = month_prefix_of(v);
    if m == 0 {
        return None;
    }
    let name = month_name_chars(m);
    let ghost t = v@.skip(name@.len() as int);
    let base = name.len();
    if v.len() < base + 2 || v[base] != ' ' {
        return None;
    }
    let d1 = digit_val_exec(v[base + 1]);
    if d1 < 0 {
        return None;
    }
    let two = v.len() >= base + 3 && digit_val_exec(v[base + 2]) >= 0;
    let dd: i32 = if two {
        d1 * 10 + digit_val_exec(v[base + 2])
    } else {
        d1
    };
    let rest = if two {
        base + 3
    } else {
        base + 2
    };
    let ghost u = v@.skip(rest as int);
    proof {
        assert(forall|k: int| 0 <= k < t.len() ==> t[k] == v@[base + k]);
        assert(forall|k: int| 0 <= k < u.len() ==> u[k] == v@[rest + k]);
        assert(u =~= if two { t.skip(3) } else { t.skip(2) });
    }
    if v.len() != rest + 6 {
        return None;
    }
    if v[rest] != ',' || v[rest + 1] != ' ' {
        return None;
    }
    let y3 = digit_val_exec(v[rest + 2]);
    let y2 = digit_val_exec(v[rest + 3]);
    let y1 = digit_val_exec(v[rest + 4]);
    let y0 = digit_val_exec(v[rest + 5]);
    if y3 < 0 || y2 < 0 || y1 < 0 || y0 < 0 {
        return None;
    }
    let y = ((y3 * 10 + y2) * 10 + y1) * 10 + y0;
    if 1 <= dd && dd <= days_in_month(y, m) as i32 {
        Some(Date { year: y, month: m, day: dd as u32 })
    } else {
        None
    }
}

} // verus!


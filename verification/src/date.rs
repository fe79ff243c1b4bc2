use vstd::prelude::*;
use vstd::arithmetic::div_mod::{
    lemma_fundamental_div_mod, lemma_fundamental_div_mod_converse,
    lemma_fundamental_div_mod_converse_mod, lemma_mod_bound,
};
use crate::text::{digit_char, digit_char_x, digit_val, digit_val_x, is_digit, is_digit_x};

verus! {

/// A day-of-week symbol, with no calendar date attached.
#[derive(Clone, Copy, Debug, PartialEq, Eq, Structural)]
pub enum Weekday {
    Mon,
    Tue,
    Wed,
    Thu,
    Fri,
    Sat,
    Sun,
}

/// A concrete calendar date in the proleptic Gregorian calendar.
#[derive(Clone, Copy, Debug, PartialEq, Eq, Structural)]
pub struct Date {
    pub year: u32,
    pub month: u32,
    pub day: u32,
}

/// Index of a weekday in ISO order: Monday is 0, Sunday is 6.
pub open spec fn weekday_idx(w: Weekday) -> int {
    match w {
        Weekday::Mon => 0,
        Weekday::Tue => 1,
        Weekday::Wed => 2,
        Weekday::Thu => 3,
        Weekday::Fri => 4,
        Weekday::Sat => 5,
        Weekday::Sun => 6,
    }
}

pub open spec fn is_leap_year(y: int) -> bool {
    (y % 4 == 0 && y % 100 != 0) || y % 400 == 0
}

pub open spec fn days_in_month(y: int, m: int) -> int {
    if m == 2 {
        if is_leap_year(y) {
            29
        } else {
            28
        }
    } else if m == 4 || m == 6 || m == 9 || m == 11 {
        30
    } else {
        31
    }
}

/// Dates the library accepts at its boundaries: four-digit years.
pub open spec fn valid_date(d: Date) -> bool {
    &&& 1 <= d.year <= 9999
    &&& 1 <= d.month <= 12
    &&& 1 <= d.day <= days_in_month(d.year as int, d.month as int)
}

/// Resolving a weekday near the top of the year range can step a few days
/// past 9999-12-31, so internal arithmetic admits year 10000 as well.
pub open spec fn valid_date_ext(d: Date) -> bool {
    &&& 1 <= d.year <= 10000
    &&& 1 <= d.month <= 12
    &&& 1 <= d.day <= days_in_month(d.year as int, d.month as int)
}

/// Number of leap years in the range [1, y-1].
pub open spec fn leaps_before(y: int) -> int {
    (y - 1) / 4 - (y - 1) / 100 + (y - 1) / 400
}

/// Days in the years [1, y-1].
pub open spec fn days_before_year(y: int) -> int {
    (y - 1) * 365 + leaps_before(y)
}

/// Days in the months [1, m-1] of year y.
pub open spec fn days_before_month(y: int, m: int) -> int
    decreases m,
{
    if m <= 1 {
        0
    } else {
        days_before_month(y, m - 1) + days_in_month(y, m - 1)
    }
}

/// Days since 0001-01-01, which is day 0 (and a Monday).
pub open spec fn day_number(d: Date) -> int {
    days_before_year(d.year as int) + days_before_month(d.year as int, d.month as int) + d.day - 1
}

/// ISO weekday index of a date: Monday is 0, Sunday is 6.
pub open spec fn date_weekday_idx(d: Date) -> int {
    day_number(d) % 7
}

/// The calendar successor of a date.
pub open spec fn next_day(d: Date) -> Date {
    if d.day < days_in_month(d.year as int, d.month as int) {
        Date { year: d.year, month: d.month, day: (d.day + 1) as u32 }
    } else if d.month < 12 {
        Date { year: d.year, month: (d.month + 1) as u32, day: 1 }
    } else {
        Date { year: (d.year + 1) as u32, month: 1, day: 1 }
    }
}

/// Stepping the dividend by one raises the quotient exactly at multiples.
proof fn lemma_div_step(y: int, d: int)
    requires
        1 <= y,
        1 <= d,
    ensures
        y / d == (y - 1) / d + if y % d == 0 {
            1int
        } else {
            0int
        },
{
    let q = (y - 1) / d;
    let r = (y - 1) % d;
    lemma_fundamental_div_mod(y - 1, d);
    lemma_mod_bound(y - 1, d);
    if r + 1 == d {
        assert(y == (q + 1) * d + 0) by (nonlinear_arith)
            requires
                y - 1 == d * q + r,
                r + 1 == d,
        ;
        lemma_fundamental_div_mod_converse(y, d, q + 1, 0);
    } else {
        assert(y == q * d + (r + 1)) by (nonlinear_arith)
            requires
                y - 1 == d * q + r,
        ;
        lemma_fundamental_div_mod_converse(y, d, q, r + 1);
    }
}

/// A multiple of 400 is a multiple of 100 and of 4; a multiple of 100 is one of 4.
proof fn lemma_gregorian_divisibility(y: int)
    ensures
        y % 400 == 0 ==> y % 100 == 0 && y % 4 == 0,
        y % 100 == 0 ==> y % 4 == 0,
{
    if y % 400 == 0 {
        lemma_fundamental_div_mod(y, 400);
        let k = y / 400;
        assert(y == (4 * k) * 100 + 0) by (nonlinear_arith)
            requires
                y == 400 * k,
        ;
        lemma_fundamental_div_mod_converse_mod(y, 100, 4 * k, 0);
    }
    if y % 100 == 0 {
        lemma_fundamental_div_mod(y, 100);
        let k = y / 100;
        assert(y == (25 * k) * 4 + 0) by (nonlinear_arith)
            requires
                y == 100 * k,
        ;
        lemma_fundamental_div_mod_converse_mod(y, 4, 25 * k, 0);
    }
}

/// Moving from year y to year y + 1 adds exactly the length of year y.
proof fn lemma_days_before_year_step(y: int)
    requires
        1 <= y,
    ensures
        days_before_year(y + 1) == days_before_year(y) + 365 + if is_leap_year(y) {
            1int
        } else {
            0int
        },
{
    lemma_div_step(y, 4);
    lemma_div_step(y, 100);
    lemma_div_step(y, 400);
    lemma_gregorian_divisibility(y);
}

/// The months of year y sum to the year's length.
proof fn lemma_days_in_year(y: int)
    ensures
        days_before_month(y, 13) == 365 + if is_leap_year(y) {
            1int
        } else {
            0int
        },
{
    reveal_with_fuel(days_before_month, 13);
}

/// The calendar successor has the next day number, and stays in range.
pub proof fn lemma_next_day_number(d: Date)
    requires
        valid_date_ext(d),
        !(d.year == 10000 && d.month == 12 && d.day == 31),
    ensures
        valid_date_ext(next_day(d)),
        day_number(next_day(d)) == day_number(d) + 1,
{
    let y = d.year as int;
    let m = d.month as int;
    if d.day < days_in_month(y, m) {
    } else if d.month < 12 {
        assert(days_before_month(y, m + 1) == days_before_month(y, m) + days_in_month(y, m));
    } else {
        assert(days_before_month(y, 13) == days_before_month(y, 12) + 31);
        lemma_days_in_year(y);
        lemma_days_before_year_step(y);
    }
}

pub fn days_in_month_x(year: u32, month: u32) -> (r: u32)
    requires
        1 <= month <= 12,
    ensures
        r == days_in_month(year as int, month as int),
{
    if month == 2 {
        let leap: bool = (year % 4 == 0 && year % 100 != 0) || year % 400 == 0;
        if leap {
            29
        } else {
            28
        }
    } else if month == 4 || month == 6 || month == 9 || month == 11 {
        30
    } else {
        31
    }
}

pub fn day_number_x(d: &Date) -> (n: u32)
    requires
        valid_date_ext(*d),
    ensures
        n as int == day_number(*d),
{
    let y: u32 = d.year;
    let leaps: u32 = (y - 1) / 4 - (y - 1) / 100 + (y - 1) / 400;
    proof {
        assert((y - 1) / 100 <= (y - 1) / 4) by {
            vstd::arithmetic::div_mod::lemma_div_is_ordered_by_denominator(y - 1 as int, 4, 100);
        }
    }
    let before_year: u32 = (y - 1) * 365 + leaps;
    let mut before_month: u32 = 0;
    let mut m: u32 = 1;
    while m < d.month
        invariant
            1 <= m <= d.month,
            valid_date_ext(*d),
            before_month == days_before_month(d.year as int, m as int),
            before_month <= 31 * m,
        decreases d.month - m,
    {
        before_month = before_month + days_in_month_x(d.year, m);
        m = m + 1;
    }
    before_year + before_month + d.day - 1
}

pub fn next_day_x(d: &Date) -> (r: Date)
    requires
        valid_date_ext(*d),
        !(d.year == 10000 && d.month == 12 && d.day == 31),
    ensures
        r == next_day(*d),
        valid_date_ext(r),
        day_number(r) == day_number(*d) + 1,
{
    proof {
        lemma_next_day_number(*d);
    }
    if d.day < days_in_month_x(d.year, d.month) {
        Date { year: d.year, month: d.month, day: d.day + 1 }
    } else if d.month < 12 {
        Date { year: d.year, month: d.month + 1, day: 1 }
    } else {
        Date { year: d.year + 1, month: 1, day: 1 }
    }
}

/// Steps a date forward by up to six days.
pub fn add_days_x(d: &Date, k: u32) -> (r: Date)
    requires
        valid_date(*d),
        k <= 6,
    ensures
        valid_date_ext(r),
        day_number(r) == day_number(*d) + k,
{
    let mut cur: Date = *d;
    let mut i: u32 = 0;
    while i < k
        invariant
            i <= k <= 6,
            valid_date_ext(cur),
            day_number(cur) == day_number(*d) + i,
            cur.year <= 9999 || (cur.year == 10000 && cur.month == 1 && cur.day <= 1 + i),
        decreases k - i,
    {
        cur = next_day_x(&cur);
        i = i + 1;
    }
    cur
}

/// Four fixed decimal digits, for years up to 9999.
pub open spec fn pad4(n: int) -> Seq<char> {
    seq![
        digit_char(n / 1000),
        digit_char((n % 1000) / 100),
        digit_char((n % 1000 % 100) / 10),
        digit_char(n % 1000 % 100 % 10),
    ]
}

/// Two fixed decimal digits, for values up to 99.
pub open spec fn pad2(n: int) -> Seq<char> {
    seq![digit_char(n / 10), digit_char(n % 10)]
}

/// The ISO rendering YYYY-MM-DD of a date.
pub open spec fn iso_date_seq(d: Date) -> Seq<char> {
    pad4(d.year as int) + seq!['-'] + pad2(d.month as int) + seq!['-'] + pad2(d.day as int)
}

pub fn pad4_x(n: u32) -> (v: Vec<char>)
    requires
        n <= 9999,
    ensures
        v@ == pad4(n as int),
{
    let r: u32 = n % 1000;
    let r2: u32 = r % 100;
    vec![
        digit_char_x(n / 1000),
        digit_char_x(r / 100),
        digit_char_x(r2 / 10),
        digit_char_x(r2 % 10),
    ]
}

pub fn pad2_x(n: u32) -> (v: Vec<char>)
    requires
        n <= 99,
    ensures
        v@ == pad2(n as int),
{
    vec![digit_char_x(n / 10), digit_char_x(n % 10)]
}

pub fn iso_date_chars(d: &Date) -> (v: Vec<char>)
    requires
        valid_date(*d),
    ensures
        v@ == iso_date_seq(*d),
{
    let mut v = pad4_x(d.year);
    v.push('-');
    let mut m = pad2_x(d.month);
    let mut dd = pad2_x(d.day);
    v.append(&mut m);
    proof {
        assert(v@ =~= pad4(d.year as int) + seq!['-'] + pad2(d.month as int));
    }
    v.push('-');
    v.append(&mut dd);
    proof {
        assert(v@ =~= iso_date_seq(*d));
    }
    v
}

/// Strict parse of the fixed-width ISO form YYYY-MM-DD, including a calendar
/// validity check.
pub open spec fn parse_iso_date(s: Seq<char>) -> Option<Date> {
    if s.len() == 10 && is_digit(s[0]) && is_digit(s[1]) && is_digit(s[2]) && is_digit(s[3])
        && s[4] == '-' && is_digit(s[5]) && is_digit(s[6]) && s[7] == '-' && is_digit(s[8])
        && is_digit(s[9]) {
        let y = digit_val(s[0]) * 1000 + digit_val(s[1]) * 100 + digit_val(s[2]) * 10 + digit_val(
            s[3],
        );
        let m = digit_val(s[5]) * 10 + digit_val(s[6]);
        let d = digit_val(s[8]) * 10 + digit_val(s[9]);
        let dt = Date { year: y as u32, month: m as u32, day: d as u32 };
        if valid_date(dt) {
            Some(dt)
        } else {
            None
        }
    } else {
        None
    }
}

pub fn parse_iso_date_x(v: &Vec<char>) -> (r: Option<Date>)
    ensures
        r == parse_iso_date(v@),
{
    if v.len() != 10 {
        return None;
    }
    if !(is_digit_x(v[0]) && is_digit_x(v[1]) && is_digit_x(v[2]) && is_digit_x(v[3]) && v[4] == '-'
        && is_digit_x(v[5]) && is_digit_x(v[6]) && v[7] == '-' && is_digit_x(v[8]) && is_digit_x(
        v[9],
    )) {
        return None;
    }
    let y: u32 = digit_val_x(v[0]) * 1000 + digit_val_x(v[1]) * 100 + digit_val_x(v[2]) * 10
        + digit_val_x(v[3]);
    let m: u32 = digit_val_x(v[5]) * 10 + digit_val_x(v[6]);
    let d: u32 = digit_val_x(v[8]) * 10 + digit_val_x(v[9]);
    let dt = Date { year: y, month: m, day: d };
    if dt.year < 1 || dt.month < 1 || dt.month > 12 || dt.day < 1 {
        return None;
    }
    if dt.day > days_in_month_x(dt.year, dt.month) {
        return None;
    }
    Some(dt)
}

/// A digit character carries exactly its digit value.
proof fn lemma_digit_round(k: int)
    requires
        0 <= k <= 9,
    ensures
        digit_val(digit_char(k)) == k,
        is_digit(digit_char(k)),
{
}

/// Printing a valid date and parsing it back is the identity.
#[verifier::rlimit(60)]
pub proof fn lemma_iso_date_round_trip(d: Date)
    requires
        valid_date(d),
    ensures
        parse_iso_date(iso_date_seq(d)) == Some(d),
{
    let s = iso_date_seq(d);
    let y = d.year as int;
    lemma_fundamental_div_mod(y, 1000);
    lemma_fundamental_div_mod(y % 1000, 100);
    lemma_fundamental_div_mod(y % 1000 % 100, 10);
    lemma_mod_bound(y, 1000);
    lemma_mod_bound(y % 1000, 100);
    lemma_mod_bound(y % 1000 % 100, 10);
    let m = d.month as int;
    let dd = d.day as int;
    lemma_fundamental_div_mod(m, 10);
    lemma_fundamental_div_mod(dd, 10);
    lemma_mod_bound(m, 10);
    lemma_mod_bound(dd, 10);
    assert(s[0] == digit_char(y / 1000));
    assert(s[1] == digit_char((y % 1000) / 100));
    assert(s[2] == digit_char((y % 1000 % 100) / 10));
    assert(s[3] == digit_char(y % 1000 % 100 % 10));
    assert(s[4] == '-');
    assert(s[5] == digit_char(m / 10));
    assert(s[6] == digit_char(m % 10));
    assert(s[7] == '-');
    assert(s[8] == digit_char(dd / 10));
    assert(s[9] == digit_char(dd % 10));
    lemma_digit_round(y / 1000);
    lemma_digit_round((y % 1000) / 100);
    lemma_digit_round((y % 1000 % 100) / 10);
    lemma_digit_round(y % 1000 % 100 % 10);
    lemma_digit_round(m / 10);
    lemma_digit_round(m % 10);
    lemma_digit_round(dd / 10);
    lemma_digit_round(dd % 10);
    assert(digit_val(s[0]) * 1000 + digit_val(s[1]) * 100 + digit_val(s[2]) * 10 + digit_val(s[3])
        == y);
    assert(digit_val(s[5]) * 10 + digit_val(s[6]) == m);
    assert(digit_val(s[8]) * 10 + digit_val(s[9]) == dd);
}

/// Short display name of a weekday.
pub open spec fn weekday_short_name(w: Weekday) -> Seq<char> {
    match w {
        Weekday::Mon => seq!['M', 'o', 'n'],
        Weekday::Tue => seq!['T', 'u', 'e'],
        Weekday::Wed => seq!['W', 'e', 'd'],
        Weekday::Thu => seq!['T', 'h', 'u'],
        Weekday::Fri => seq!['F', 'r', 'i'],
        Weekday::Sat => seq!['S', 'a', 't'],
        Weekday::Sun => seq!['S', 'u', 'n'],
    }
}

pub fn weekday_short_name_chars(w: &Weekday) -> (v: Vec<char>)
    ensures
        v@ == weekday_short_name(*w),
{
    match w {
        Weekday::Mon => vec!['M', 'o', 'n'],
        Weekday::Tue => vec!['T', 'u', 'e'],
        Weekday::Wed => vec!['W', 'e', 'd'],
        Weekday::Thu => vec!['T', 'h', 'u'],
        Weekday::Fri => vec!['F', 'r', 'i'],
        Weekday::Sat => vec!['S', 'a', 't'],
        Weekday::Sun => vec!['S', 'u', 'n'],
    }
}

pub fn weekday_index_x(w: &Weekday) -> (i: u32)
    ensures
        i as int == weekday_idx(*w),
{
    match w {
        Weekday::Mon => 0,
        Weekday::Tue => 1,
        Weekday::Wed => 2,
        Weekday::Thu => 3,
        Weekday::Fri => 4,
        Weekday::Sat => 5,
        Weekday::Sun => 6,
    }
}

} // verus!

//! Proleptic Gregorian calendar dates.
//!
//! A `Date` holds year, month and day as plain integers.  Day counting,
//! weekdays and stepping by days follow the Gregorian leap-year rule; the
//! year range is the one `chrono::NaiveDate` supports.

use vstd::prelude::*;
use crate::filters::{decimal, digit_char, pad2, push_decimal, push_pad2, digit};
use crate::text::push_char;

verus! {

/// Smallest and largest year a date may carry.
pub const MIN_YEAR: i32 = -262143;
pub const MAX_YEAR: i32 = 262142;

/// A calendar date (proleptic Gregorian).
#[derive(Debug, Clone, Copy, PartialEq, Eq, Structural)]
pub struct Date {
    pub year: i32,
    pub month: u32,
    pub day: u32,
}

pub open spec fn is_leap_year(y: int) -> bool {
    (y % 4 == 0 && y % 100 != 0) || y % 400 == 0
}

pub open spec fn days_in_month(y: int, m: int) -> int {
    if m == 2 {
        if is_leap_year(y) { 29 } else { 28 }
    } else if m == 4 || m == 6 || m == 9 || m == 11 {
        30
    } else {
        31
    }
}

/// A real calendar day inside the supported year range.
pub open spec fn valid_ymd(y: int, m: int, d: int) -> bool {
    &&& MIN_YEAR <= y <= MAX_YEAR
    &&& 1 <= m <= 12
    &&& 1 <= d <= days_in_month(y, m)
}

impl Date {
    pub open spec fn valid(self) -> bool {
        valid_ymd(self.year as int, self.month as int, self.day as int)
    }

    /// Days since 1970-01-01 (negative before it).
    pub open spec fn day_number(self) -> int {
        ymd_day_number(self.year as int, self.month as int, self.day as int)
    }

    /// 0 for Monday through 6 for Sunday.
    pub open spec fn weekday_index(self) -> int {
        (self.day_number() + 3) % 7
    }
}

/// Days since 1970-01-01 of a year, month and day (month 1..=12).
pub open spec fn ymd_day_number(y: int, m: int, d: int) -> int {
    let yy = if m <= 2 { y - 1 } else { y };
    let mp = if m > 2 { m - 3 } else { m + 9 };
    365 * yy + yy / 4 - yy / 100 + yy / 400 + (153 * mp + 2) / 5 + d - 1 - 719468
}

/// The day after `d` (structurally).
pub open spec fn next_day_spec(d: Date) -> Date {
    if (d.day as int) < days_in_month(d.year as int, d.month as int) {
        Date { year: d.year, month: d.month, day: (d.day + 1) as u32 }
    } else if d.month < 12 {
        Date { year: d.year, month: (d.month + 1) as u32, day: 1 }
    } else {
        Date { year: (d.year + 1) as i32, month: 1, day: 1 }
    }
}

/// The day before `d` (structurally).
pub open spec fn prev_day_spec(d: Date) -> Date {
    if d.day > 1 {
        Date { year: d.year, month: d.month, day: (d.day - 1) as u32 }
    } else if d.month > 1 {
        Date {
            year: d.year,
            month: (d.month - 1) as u32,
            day: days_in_month(d.year as int, d.month - 1) as u32,
        }
    } else {
        Date { year: (d.year - 1) as i32, month: 12, day: 31 }
    }
}

/// The first and last representable dates.
pub open spec fn is_last_date(d: Date) -> bool {
    d.year == MAX_YEAR && d.month == 12 && d.day == 31
}

pub open spec fn is_first_date(d: Date) -> bool {
    d.year == MIN_YEAR && d.month == 1 && d.day == 1
}

proof fn lemma_leap_steps(y: int)
    ensures
        y / 4 - (y - 1) / 4 == (if y % 4 == 0 { 1int } else { 0 }),
        y / 100 - (y - 1) / 100 == (if y % 100 == 0 { 1int } else { 0 }),
        y / 400 - (y - 1) / 400 == (if y % 400 == 0 { 1int } else { 0 }),
{
}

/// Stepping forward one day adds one to the day number.
pub proof fn lemma_next_day(d: Date)
    requires
        d.valid(),
        !is_last_date(d),
    ensures
        next_day_spec(d).valid(),
        next_day_spec(d).day_number() == d.day_number() + 1,
{
    let n = next_day_spec(d);
    let y = d.year as int;
    let m = d.month as int;
    if (d.day as int) < days_in_month(y, m) {
    } else if m < 12 {
        if m == 2 {
            lemma_leap_steps(y);
        }
        assert(n.day_number() == d.day_number() + 1) by {
            if m == 1 {} else if m == 2 {} else if m == 3 {} else if m == 4 {} else if m == 5 {}
            else if m == 6 {} else if m == 7 {} else if m == 8 {} else if m == 9 {} else if m == 10 {}
            else {}
        }
    } else {
        assert(y < MAX_YEAR);
    }
}

/// Stepping back then forward returns the same day, and vice versa.
pub proof fn lemma_prev_next(d: Date)
    ensures
        d.valid() && !is_first_date(d) ==> prev_day_spec(d).valid() && next_day_spec(prev_day_spec(d)) == d,
        d.valid() && !is_last_date(d) ==> next_day_spec(d).valid() && prev_day_spec(next_day_spec(d)) == d,
{
}

/// Stepping back one day subtracts one from the day number.
pub proof fn lemma_prev_day(d: Date)
    requires
        d.valid(),
        !is_first_date(d),
    ensures
        prev_day_spec(d).valid(),
        prev_day_spec(d).day_number() == d.day_number() - 1,
{
    lemma_prev_next(d);
    let p = prev_day_spec(d);
    lemma_next_day(p);
}

/// Day numbers order dates the same way as (year, month, day).
pub open spec fn ymd_before(a: Date, b: Date) -> bool {
    a.year < b.year || (a.year == b.year && (a.month < b.month || (a.month == b.month && a.day < b.day)))
}

/// The day number of `d`, computed.
pub fn day_number(d: Date) -> (res: i64)
    requires
        d.valid(),
    ensures
        res as int == d.day_number(),
{
    let m = d.month as i64;
    let y = d.year as i64;
    let yy = if m <= 2 { y - 1 } else { y };
    let mp = if m > 2 { m - 3 } else { m + 9 };
    // Shift by 1000 full 400-year cycles so every division sees a non-negative value.
    let ys = yy + 400000;
    let days = 365 * ys + ys / 4 - ys / 100 + ys / 400 + (153 * mp + 2) / 5 + d.day as i64 - 1 - 719468
        - 146097000;
    assert(ys / 4 == yy / 4 + 100000);
    assert(ys / 100 == yy / 100 + 4000);
    assert(ys / 400 == yy / 400 + 1000);
    days
}

/// 0 for Monday through 6 for Sunday.
pub fn weekday_from_monday(d: Date) -> (res: u32)
    requires
        d.valid(),
    ensures
        res as int == d.weekday_index(),
        res < 7,
{
    let n = day_number(d);
    let r = (n + 3 + 7 * 100000000) % 7;
    assert((n + 3 + 7 * 100000000) % 7 == (n + 3) % 7);
    r as u32
}

/// Whether `y` is a leap year.
#[verifier::spinoff_prover]
pub fn is_leap(y: i32) -> (res: bool)
    ensures
        res == is_leap_year(y as int),
{
    // Shifting by a multiple of 400 keeps every remainder and makes it non-negative.
    let s: i64 = y as i64 + 4000000000;
    assert(s % 4 == (y as int) % 4) by (nonlinear_arith)
        requires
            s == y + 4000000000,
    ;
    assert(s % 100 == (y as int) % 100) by (nonlinear_arith)
        requires
            s == y + 4000000000,
    ;
    assert(s % 400 == (y as int) % 400) by (nonlinear_arith)
        requires
            s == y + 4000000000,
    ;
    (s % 4 == 0 && s % 100 != 0) || s % 400 == 0
}

pub fn days_in_month_of(y: i32, m: u32) -> (res: u32)
    requires
        1 <= m <= 12,
    ensures
        res as int == days_in_month(y as int, m as int),
{
    if m == 2 {
        if is_leap(y) {
            29
        } else {
            28
        }
    } else if m == 4 || m == 6 || m == 9 || m == 11 {
        30
    } else {
        31
    }
}

/// Whether (y, m, d) is a date of the supported range.
pub fn is_valid_ymd(y: i32, m: u32, d: u32) -> (res: bool)
    ensures
        res == valid_ymd(y as int, m as int, d as int),
{
    MIN_YEAR <= y && y <= MAX_YEAR && 1 <= m && m <= 12 && 1 <= d && d <= days_in_month_of(y, m)
}

/// The day after `d`.
pub fn next_day(d: Date) -> (res: Date)
    requires
        d.valid(),
        !is_last_date(d),
    ensures
        res == next_day_spec(d),
        res.valid(),
        res.day_number() == d.day_number() + 1,
{
    proof {
        lemma_next_day(d);
    }
    if d.day < days_in_month_of(d.year, d.month) {
        Date { year: d.year, month: d.month, day: d.day + 1 }
    } else if d.month < 12 {
        Date { year: d.year, month: d.month + 1, day: 1 }
    } else {
        Date { year: d.year + 1, month: 1, day: 1 }
    }
}

/// The day before `d`.
pub fn prev_day(d: Date) -> (res: Date)
    requires
        d.valid(),
        !is_first_date(d),
    ensures
        res == prev_day_spec(d),
        res.valid(),
        res.day_number() == d.day_number() - 1,
{
    proof {
        lemma_prev_day(d);
    }
    if d.day > 1 {
        Date { year: d.year, month: d.month, day: d.day - 1 }
    } else if d.month > 1 {
        Date { year: d.year, month: d.month - 1, day: days_in_month_of(d.year, d.month - 1) }
    } else {
        Date { year: d.year - 1, month: 12, day: 31 }
    }
}


proof fn lemma_same_month(y: int, m: int, d1: int, d2: int)
    ensures
        ymd_day_number(y, m, d2) == ymd_day_number(y, m, d1) + (d2 - d1),
{
}

/// The first of the next month is `days_in_month` after the first of this one.
proof fn lemma_month_step(y: int, m: int)
    requires
        MIN_YEAR <= y <= MAX_YEAR,
        1 <= m <= 12,
    ensures
        m < 12 ==> ymd_day_number(y, m + 1, 1) == ymd_day_number(y, m, 1) + days_in_month(y, m),
        m == 12 ==> ymd_day_number(y + 1, 1, 1) == ymd_day_number(y, m, 1) + days_in_month(y, m),
{
    let last = Date { year: y as i32, month: m as u32, day: days_in_month(y, m) as u32 };
    if !(y == MAX_YEAR && m == 12) {
        lemma_next_day(last);
    } else {
        lemma_leap_steps(y + 1);
    }
    lemma_same_month(y, m, 1, days_in_month(y, m));
}

proof fn lemma_month_starts_increase(y: int, m1: int, m2: int)
    requires
        MIN_YEAR <= y <= MAX_YEAR,
        1 <= m1 <= m2 <= 12,
    ensures
        ymd_day_number(y, m1, 1) + (m2 - m1) * 28 <= ymd_day_number(y, m2, 1),
    decreases m2 - m1,
{
    if m1 < m2 {
        lemma_month_step(y, m1);
        lemma_month_starts_increase(y, m1 + 1, m2);
    }
}

proof fn lemma_year_starts_increase(y1: int, y2: int)
    requires
        MIN_YEAR <= y1 <= y2 <= MAX_YEAR + 1,
    ensures
        ymd_day_number(y1, 1, 1) + (y2 - y1) * 300 <= ymd_day_number(y2, 1, 1),
    decreases y2 - y1,
{
    if y1 < y2 {
        lemma_month_starts_increase(y1, 1, 12);
        lemma_month_step(y1, 12);
        lemma_year_starts_increase(y1 + 1, y2);
    }
}

/// Earlier dates have smaller day numbers.
pub proof fn lemma_before_smaller(a: Date, b: Date)
    requires
        a.valid(),
        b.valid(),
        ymd_before(a, b),
    ensures
        a.day_number() < b.day_number(),
{
    let (ay, am, ad) = (a.year as int, a.month as int, a.day as int);
    let (by, bm, bd) = (b.year as int, b.month as int, b.day as int);
    lemma_same_month(ay, am, 1, ad);
    lemma_same_month(by, bm, 1, bd);
    if ay == by {
        if am < bm {
            lemma_month_step(ay, am);
            lemma_month_starts_increase(ay, am + 1, bm);
        }
    } else {
        lemma_month_starts_increase(ay, am, 12);
        lemma_month_step(ay, 12);
        lemma_year_starts_increase(ay + 1, by);
        lemma_month_starts_increase(by, 1, bm);
    }
}

/// Two valid dates with the same day number are the same date.
pub proof fn lemma_day_number_injective(a: Date, b: Date)
    requires
        a.valid(),
        b.valid(),
        a.day_number() == b.day_number(),
    ensures
        a == b,
{
    if ymd_before(a, b) {
        lemma_before_smaller(a, b);
    } else if ymd_before(b, a) {
        lemma_before_smaller(b, a);
    }
}

/// Valid dates are ordered by day number exactly as by (year, month, day).
pub proof fn lemma_order_by_day_number(a: Date, b: Date)
    requires
        a.valid(),
        b.valid(),
    ensures
        ymd_before(a, b) <==> a.day_number() < b.day_number(),
        a == b <==> a.day_number() == b.day_number(),
{
    if ymd_before(a, b) {
        lemma_before_smaller(a, b);
    } else if ymd_before(b, a) {
        lemma_before_smaller(b, a);
    } else {
        assert(a == b);
    }
}

pub open spec fn first_date() -> Date {
    Date { year: MIN_YEAR, month: 1, day: 1 }
}

pub open spec fn last_date() -> Date {
    Date { year: MAX_YEAR, month: 12, day: 31 }
}

/// The date `n` days after `d` exists.
pub open spec fn shift_in_range(d: Date, n: int) -> bool {
    first_date().day_number() <= d.day_number() + n <= last_date().day_number()
}

/// Whether `a` comes strictly before `b`.
pub fn date_before(a: Date, b: Date) -> (res: bool)
    ensures
        res == ymd_before(a, b),
{
    a.year < b.year || (a.year == b.year && (a.month < b.month || (a.month == b.month && a.day < b.day)))
}

/// The date `n` days after `d` (before it for negative `n`).
pub fn add_days(d: Date, n: i64) -> (res: Date)
    requires
        d.valid(),
        shift_in_range(d, n as int),
    ensures
        res.valid(),
        res.day_number() == d.day_number() + n,
{
    let mut cur = d;
    let mut k: i64 = 0;
    if n >= 0 {
        while k < n
            invariant
                0 <= k <= n,
                cur.valid(),
                cur.day_number() == d.day_number() + k,
                shift_in_range(d, n as int),
            decreases n - k,
        {
            if is_last_date_exec(cur) {
                proof {
                    assert(cur == last_date());
                }
            }
            cur = next_day(cur);
            k += 1;
        }
    } else {
        while k > n
            invariant
                n <= k <= 0,
                cur.valid(),
                cur.day_number() == d.day_number() + k,
                shift_in_range(d, n as int),
            decreases k - n,
        {
            if is_first_date_exec(cur) {
                proof {
                    assert(cur == first_date());
                }
            }
            cur = prev_day(cur);
            k -= 1;
        }
    }
    cur
}

fn is_last_date_exec(d: Date) -> (res: bool)
    ensures
        res == is_last_date(d),
{
    d.year == MAX_YEAR && d.month == 12 && d.day == 31
}

fn is_first_date_exec(d: Date) -> (res: bool)
    ensures
        res == is_first_date(d),
{
    d.year == MIN_YEAR && d.month == 1 && d.day == 1
}

/// Signed number of days from `a` to `b`.
pub fn days_between(a: Date, b: Date) -> (res: i64)
    requires
        a.valid(),
        b.valid(),
    ensures
        res as int == b.day_number() - a.day_number(),
{
    proof {
        lemma_day_number_bounds(a);
        lemma_day_number_bounds(b);
    }
    day_number(b) - day_number(a)
}

/// Every valid date lies between the first and last representable one.
pub proof fn lemma_day_number_bounds(d: Date)
    requires
        d.valid(),
    ensures
        first_date().day_number() <= d.day_number() <= last_date().day_number(),
        -100000000 < d.day_number() < 100000000,
{
    if ymd_before(first_date(), d) {
        lemma_before_smaller(first_date(), d);
    }
    if ymd_before(d, last_date()) {
        lemma_before_smaller(d, last_date());
    }
}

// ---------------------------------------------------------------------------
// Text forms
// ---------------------------------------------------------------------------

pub open spec fn pad4(n: nat) -> Seq<char> {
    seq![digit_char((n / 1000) as int), digit_char(((n / 100) % 10) as int)] + pad2(n % 100)
}

/// The year as `%Y` writes it: four digits for 0..=9999, otherwise a sign
/// and at least four digits.
pub open spec fn year_text(y: int) -> Seq<char> {
    if 0 <= y < 10000 {
        pad4(y as nat)
    } else {
        let a: nat = (if y < 0 { -y } else { y }) as nat;
        (if y < 0 { "-"@ } else { "+"@ }) + (if a < 10000 { pad4(a) } else { decimal(a) })
    }
}

/// `YYYY-MM-DD`.
pub open spec fn iso_text(d: Date) -> Seq<char> {
    year_text(d.year as int) + seq!['-'] + pad2(d.month as nat) + seq!['-'] + pad2(d.day as nat)
}

pub(crate) fn push_pad4(out: &mut String, n: u64)
    requires
        n < 10000,
    ensures
        final(out)@ == old(out)@ + pad4(n as nat),
{
    push_char(out, digit(n / 1000));
    push_char(out, digit((n / 100) % 10));
    push_pad2(out, n % 100);
}

pub(crate) fn push_year(out: &mut String, y: i32)
    ensures
        final(out)@ == old(out)@ + year_text(y as int),
{
    if 0 <= y && y < 10000 {
        push_pad4(out, y as u64);
    } else {
        let a: u64 = if y < 0 { (-(y as i64)) as u64 } else { y as u64 };
        if y < 0 {
            push_char(out, '-');
        } else {
            push_char(out, '+');
        }
        if a < 10000 {
            push_pad4(out, a);
        } else {
            push_decimal(out, a);
        }
        proof {
            reveal_strlit("-");
            reveal_strlit("+");
        }
    }
}

/// Appends `iso_text(d)`.
pub(crate) fn push_iso(out: &mut String, d: Date)
    requires
        d.valid(),
    ensures
        final(out)@ == old(out)@ + iso_text(d),
{
    push_year(out, d.year);
    push_char(out, '-');
    push_pad2(out, d.month as u64);
    push_char(out, '-');
    push_pad2(out, d.day as u64);
}

/// The date as `YYYY-MM-DD`.
pub fn iso_string(d: Date) -> (res: String)
    requires
        d.valid(),
    ensures
        res@ == iso_text(d),
{
    let mut out = String::new();
    push_iso(&mut out, d);
    out
}

/// What `NaiveDate::parse_from_str(s, fmt)` yields, as plain fields.
pub uninterp spec fn parsed_date(s: Seq<char>, fmt: Seq<char>) -> Option<Date>;

/// `chrono::NaiveDate::parse_from_str`. The result is named, not
/// restated; chrono's dates are always real calendar days, which the
/// second clause records.
#[verifier::external_body]
pub(crate) fn parse_date(s: &str, fmt: &str) -> (res: Option<Date>)
    ensures
        res == parsed_date(s@, fmt@),
        res matches Some(d) ==> d.valid(),
{
    match chrono::NaiveDate::parse_from_str(s, fmt) {
        Ok(d) => Some(Date { year: chrono::Datelike::year(&d), month: chrono::Datelike::month(&d), day: chrono::Datelike::day(&d) }),
        Err(_) => None,
    }
}

/// What `NaiveDate::parse_from_str(s, "%Y-%m-%d")` yields.
#[verifier::opaque]
pub open spec fn parsed_iso_date(s: Seq<char>) -> Option<Date> {
    parsed_date(s, "%Y-%m-%d"@)
}

/// Parses a `YYYY-MM-DD` date.
pub(crate) fn parse_iso_date(s: &str) -> (res: Option<Date>)
    ensures
        res == parsed_iso_date(s@),
        res matches Some(d) ==> d.valid(),
{
    proof {
        reveal(parsed_iso_date);
    }
    parse_date(s, "%Y-%m-%d")
}

} // verus!

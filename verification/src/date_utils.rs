//! Date ranges for filtering: presets (this week, last month, ...),
//! detection of the period a range covers, and prev/next navigation.
//!
//! Every computation takes the current day as an argument; the functions
//! that read the machine's clock return `None` when the day they read lies
//! outside the years these computations support.

use vstd::prelude::*;
use crate::calendar::{
    add_days, day_number, days_in_month, days_in_month_of, iso_string, iso_text, lemma_day_number_bounds,
    lemma_before_smaller, lemma_day_number_injective, is_valid_ymd, parse_iso_date, parsed_iso_date, shift_in_range, weekday_from_monday, Date,
};
use crate::filters::{decimal, push_decimal};
use crate::calendar::{push_year, year_text, first_date, last_date, ymd_before, MIN_YEAR, MAX_YEAR};
use crate::text::{lemma_texts_differ, push_char};

verus! {

/// The kinds of period a date range can cover.
#[derive(Debug, Clone, Copy, PartialEq, Eq, Structural)]
pub enum PeriodType {
    Week,
    Month,
    Quarter,
    Year,
    All,
    Custom,
}

#[derive(Debug, Clone, Copy, PartialEq, Eq, Structural)]
pub enum DatePreset {
    ThisWeek,
    ThisMonth,
    ThisQuarter,
    ThisYear,
    LastWeek,
    LastMonth,
    LastQuarter,
    LastYear,
    All,
}

impl DatePreset {
    pub open spec fn key_text(self) -> Seq<char> {
        match self {
            DatePreset::ThisWeek => "this_week"@,
            DatePreset::ThisMonth => "this_month"@,
            DatePreset::ThisQuarter => "this_quarter"@,
            DatePreset::ThisYear => "this_year"@,
            DatePreset::LastWeek => "last_week"@,
            DatePreset::LastMonth => "last_month"@,
            DatePreset::LastQuarter => "last_quarter"@,
            DatePreset::LastYear => "last_year"@,
            DatePreset::All => "all"@,
        }
    }

    pub open spec fn label_text(self) -> Seq<char> {
        match self {
            DatePreset::ThisWeek => "This Week"@,
            DatePreset::ThisMonth => "This Month"@,
            DatePreset::ThisQuarter => "This Quarter"@,
            DatePreset::ThisYear => "This Year"@,
            DatePreset::LastWeek => "Last Week"@,
            DatePreset::LastMonth => "Last Month"@,
            DatePreset::LastQuarter => "Last Quarter"@,
            DatePreset::LastYear => "Last Year"@,
            DatePreset::All => "All"@,
        }
    }

    pub fn as_str(&self) -> (res: &'static str)
        ensures
            res@ == self.key_text(),
    {
        match self {
            DatePreset::ThisWeek => "this_week",
            DatePreset::ThisMonth => "this_month",
            DatePreset::ThisQuarter => "this_quarter",
            DatePreset::ThisYear => "this_year",
            DatePreset::LastWeek => "last_week",
            DatePreset::LastMonth => "last_month",
            DatePreset::LastQuarter => "last_quarter",
            DatePreset::LastYear => "last_year",
            DatePreset::All => "all",
        }
    }

    pub fn label(&self) -> (res: &'static str)
        ensures
            res@ == self.label_text(),
    {
        match self {
            DatePreset::ThisWeek => "This Week",
            DatePreset::ThisMonth => "This Month",
            DatePreset::ThisQuarter => "This Quarter",
            DatePreset::ThisYear => "This Year",
            DatePreset::LastWeek => "Last Week",
            DatePreset::LastMonth => "Last Month",
            DatePreset::LastQuarter => "Last Quarter",
            DatePreset::LastYear => "Last Year",
            DatePreset::All => "All",
        }
    }

    /// Every preset, in the order they are offered.
    pub open spec fn all_presets() -> Seq<DatePreset> {
        seq![
            DatePreset::ThisWeek,
            DatePreset::ThisMonth,
            DatePreset::ThisQuarter,
            DatePreset::ThisYear,
            DatePreset::LastWeek,
            DatePreset::LastMonth,
            DatePreset::LastQuarter,
            DatePreset::LastYear,
            DatePreset::All,
        ]
    }

    pub fn all() -> (res: Vec<DatePreset>)
        ensures
            res@ == Self::all_presets(),
    {
        let v = vec![
            DatePreset::ThisWeek,
            DatePreset::ThisMonth,
            DatePreset::ThisQuarter,
            DatePreset::ThisYear,
            DatePreset::LastWeek,
            DatePreset::LastMonth,
            DatePreset::LastQuarter,
            DatePreset::LastYear,
            DatePreset::All,
        ];
        assert(v@ =~= Self::all_presets());
        v
    }

    /// The preset whose key is `s`.
    pub open spec fn parsed(s: Seq<char>) -> Option<DatePreset> {
        if s == "this_week"@ {
            Some(DatePreset::ThisWeek)
        } else if s == "this_month"@ {
            Some(DatePreset::ThisMonth)
        } else if s == "this_quarter"@ {
            Some(DatePreset::ThisQuarter)
        } else if s == "this_year"@ {
            Some(DatePreset::ThisYear)
        } else if s == "last_week"@ {
            Some(DatePreset::LastWeek)
        } else if s == "last_month"@ {
            Some(DatePreset::LastMonth)
        } else if s == "last_quarter"@ {
            Some(DatePreset::LastQuarter)
        } else if s == "last_year"@ {
            Some(DatePreset::LastYear)
        } else if s == "all"@ {
            Some(DatePreset::All)
        } else {
            None
        }
    }

    /// Parses a preset key such as `"last_month"`.
    pub fn parse(s: &str) -> (res: Option<DatePreset>)
        ensures
            res == Self::parsed(s@),
    {
        let t = s.to_owned();
        if t == String::from_str("this_week") {
            Some(DatePreset::ThisWeek)
        } else if t == String::from_str("this_month") {
            Some(DatePreset::ThisMonth)
        } else if t == String::from_str("this_quarter") {
            Some(DatePreset::ThisQuarter)
        } else if t == String::from_str("this_year") {
            Some(DatePreset::ThisYear)
        } else if t == String::from_str("last_week") {
            Some(DatePreset::LastWeek)
        } else if t == String::from_str("last_month") {
            Some(DatePreset::LastMonth)
        } else if t == String::from_str("last_quarter") {
            Some(DatePreset::LastQuarter)
        } else if t == String::from_str("last_year") {
            Some(DatePreset::LastYear)
        } else if t == String::from_str("all") {
            Some(DatePreset::All)
        } else {
            None
        }
    }
}

/// The span of years the range computations work in: chrono's, without
/// its first and last year (whose neighbouring periods leave its range).
pub open spec fn in_years(d: Date) -> bool {
    d.valid() && MIN_YEAR < d.year < MAX_YEAR
}

pub open spec fn ymd(y: int, m: int, d: int) -> Date {
    Date { year: y as i32, month: m as u32, day: d as u32 }
}

/// The last day of month `m` of year `y`.
pub open spec fn month_last(y: int, m: int) -> Date {
    ymd(y, m, days_in_month(y, m))
}

/// The first month of the quarter holding month `m`.
pub open spec fn quarter_first(m: int) -> int {
    ((m - 1) / 3) * 3 + 1
}

/// `from`..`to` is the week (Monday to Sunday) holding day number `n`.
pub open spec fn is_week_of(from: Date, to: Date, anchor: Date, back: int) -> bool {
    &&& from.valid()
    &&& to.valid()
    &&& from.day_number() == anchor.day_number() - back - anchor.weekday_index()
    &&& to.day_number() == from.day_number() + 6
}

/// `from`..`to` is the range that preset `p` selects on day `today`.
pub open spec fn preset_range(p: DatePreset, today: Date, from: Date, to: Date) -> bool {
    let y = today.year as int;
    let m = today.month as int;
    let qm = quarter_first(m);
    match p {
        DatePreset::ThisWeek => is_week_of(from, to, today, 0),
        DatePreset::LastWeek => is_week_of(from, to, today, 7),
        DatePreset::ThisMonth => from == ymd(y, m, 1) && to == month_last(y, m),
        DatePreset::LastMonth => if m == 1 {
            from == ymd(y - 1, 12, 1) && to == month_last(y - 1, 12)
        } else {
            from == ymd(y, m - 1, 1) && to == month_last(y, m - 1)
        },
        DatePreset::ThisQuarter => from == ymd(y, qm, 1) && to == month_last(y, qm + 2),
        DatePreset::LastQuarter => if qm == 1 {
            from == ymd(y - 1, 10, 1) && to == month_last(y - 1, 12)
        } else {
            from == ymd(y, qm - 3, 1) && to == month_last(y, qm - 1)
        },
        DatePreset::ThisYear => from == ymd(y, 1, 1) && to == ymd(y, 12, 31),
        DatePreset::LastYear => from == ymd(y - 1, 1, 1) && to == ymd(y - 1, 12, 31),
        DatePreset::All => from == ymd(1970, 1, 1) && to == ymd(2099, 12, 31),
    }
}

/// The first preset, in offering order, that selects exactly `from`..`to`
/// on day `today`.
pub open spec fn preset_of(from: Date, to: Date, today: Date) -> Option<DatePreset> {
    if preset_range(DatePreset::ThisWeek, today, from, to) {
        Some(DatePreset::ThisWeek)
    } else if preset_range(DatePreset::ThisMonth, today, from, to) {
        Some(DatePreset::ThisMonth)
    } else if preset_range(DatePreset::ThisQuarter, today, from, to) {
        Some(DatePreset::ThisQuarter)
    } else if preset_range(DatePreset::ThisYear, today, from, to) {
        Some(DatePreset::ThisYear)
    } else if preset_range(DatePreset::LastWeek, today, from, to) {
        Some(DatePreset::LastWeek)
    } else if preset_range(DatePreset::LastMonth, today, from, to) {
        Some(DatePreset::LastMonth)
    } else if preset_range(DatePreset::LastQuarter, today, from, to) {
        Some(DatePreset::LastQuarter)
    } else if preset_range(DatePreset::LastYear, today, from, to) {
        Some(DatePreset::LastYear)
    } else if preset_range(DatePreset::All, today, from, to) {
        Some(DatePreset::All)
    } else {
        None
    }
}

#[derive(Debug, Clone, Copy, PartialEq, Eq, Structural)]
pub struct DateRange {
    pub from: Date,
    pub to: Date,
    pub preset: Option<DatePreset>,
}

/// The period a range covers: a whole week (Monday to Sunday), month,
/// quarter or year, everything, or something else.
pub open spec fn period_of(r: DateRange) -> PeriodType {
    let f = r.from;
    let t = r.to;
    let y = f.year as int;
    let m = f.month as int;
    if r.preset == Some(DatePreset::All) {
        PeriodType::All
    } else if f.weekday_index() == 0 && t.valid() && t.day_number() == f.day_number() + 6 {
        PeriodType::Week
    } else if f.day == 1 && t == month_last(y, m) {
        PeriodType::Month
    } else if f.day == 1 && f.month as int == quarter_first(m) && t == month_last(y, m + 2) {
        PeriodType::Quarter
    } else if f.day == 1 && f.month == 1 && t == ymd(y, 12, 31) {
        PeriodType::Year
    } else {
        PeriodType::Custom
    }
}

/// The month `k` months after (`k` < 0: before) the month of `d`, as its
/// first day.
pub open spec fn months_later(d: Date, k: int) -> Date {
    let total = d.year * 12 + d.month - 1 + k;
    ymd(total / 12, total % 12 + 1, 1)
}

/// The range one period after (`dir` = 1) or before (`dir` = -1)
/// `from`..`to`, as day numbers or dates.
pub open spec fn shifted(from: Date, to: Date, period: PeriodType, dir: int, nf: Date, nt: Date) -> bool {
    match period {
        PeriodType::Week => nf.valid() && nt.valid() && nf.day_number() == from.day_number() + 7 * dir
            && nt.day_number() == to.day_number() + 7 * dir,
        PeriodType::Month => {
            let s = months_later(from, dir);
            nf == s && nt == month_last(s.year as int, s.month as int)
        },
        PeriodType::Quarter => {
            let s = months_later(from, 3 * dir);
            nf == s && nt == month_last(s.year as int, quarter_first(s.month as int) + 2)
        },
        PeriodType::Year => nf == ymd(from.year + dir, 1, 1) && nt == ymd(from.year + dir, 12, 31),
        PeriodType::All => nf == from && nt == to,
        PeriodType::Custom => {
            let len = to.day_number() - from.day_number() + 1;
            let shift = if dir > 0 { len } else { -len };
            nf.valid() && nt.valid() && nf.day_number() == from.day_number() + shift && nt.day_number()
                == to.day_number() + shift
        },
    }
}

// ---------------------------------------------------------------------------
// Period boundaries
// ---------------------------------------------------------------------------

/// Dates within the supported years lie at least a year inside chrono's
/// range.
proof fn lemma_years_bound(d: Date)
    requires
        in_years(d),
    ensures
        first_date().day_number() + 365 <= d.day_number() <= last_date().day_number() - 365,
{
    let lo = Date { year: (MIN_YEAR + 1) as i32, month: 1, day: 1 };
    let hi = Date { year: (MAX_YEAR - 1) as i32, month: 12, day: 31 };
    assert(lo.day_number() == first_date().day_number() + 365);
    assert(hi.day_number() == last_date().day_number() - 365);
    if lo != d {
        assert(ymd_before(lo, d));
        lemma_before_smaller(lo, d);
    }
    if hi != d {
        assert(ymd_before(d, hi));
        lemma_before_smaller(d, hi);
    }
}

fn shift_days(d: Date, n: i64) -> (res: Date)
    requires
        d.valid(),
        shift_in_range(d, n as int),
    ensures
        res.valid(),
        res.day_number() == d.day_number() + n,
{
    add_days(d, n)
}

fn week_start(d: Date) -> (res: Date)
    requires
        d.valid(),
        first_date().day_number() + 6 <= d.day_number(),
    ensures
        res.valid(),
        res.day_number() == d.day_number() - d.weekday_index(),
{
    let w = weekday_from_monday(d);
    proof {
        lemma_day_number_bounds(d);
    }
    shift_days(d, -(w as i64))
}

proof fn lemma_weekday_shift(n: int, k: int)
    ensures
        (n + 7 * k + 3) % 7 == (n + 3) % 7,
{
    assert((n + 7 * k + 3) % 7 == (n + 3) % 7) by (nonlinear_arith);
}

fn month_end(y: i32, m: u32) -> (res: Date)
    requires
        1 <= m <= 12,
    ensures
        res == month_last(y as int, m as int),
{
    Date { year: y, month: m, day: days_in_month_of(y, m) }
}

/// The first day of the month `k` months after the month of `d`.
fn shift_months(d: Date, k: i32) -> (res: Date)
    requires
        d.valid(),
        -12 <= k <= 12,
    ensures
        res == months_later(d, k as int),
        d.year - 1 <= res.year <= d.year + 1,
        1 <= res.month <= 12,
        res.day == 1,
{
    let total: i64 = d.year as i64 * 12 + d.month as i64 - 1 + k as i64;
    let shifted: i64 = total + 12 * 300000;
    let ny: i64 = shifted / 12 - 300000;
    let nm: i64 = shifted % 12 + 1;
    assert(ny == total / 12) by {
        assert(shifted / 12 == total / 12 + 300000);
    }
    assert(nm == total % 12 + 1) by {
        assert(shifted % 12 == total % 12);
    }
    Date { year: ny as i32, month: nm as u32, day: 1 }
}

fn quarter_first_exec(m: u32) -> (res: u32)
    requires
        1 <= m <= 12,
    ensures
        res as int == quarter_first(m as int),
        1 <= res <= 10,
{
    ((m - 1) / 3) * 3 + 1
}

/// The month name as `%B` writes it.
pub open spec fn month_name(m: int) -> Seq<char> {
    if m == 1 { "January"@ } else if m == 2 { "February"@ } else if m == 3 { "March"@ } else if m == 4 {
        "April"@
    } else if m == 5 { "May"@ } else if m == 6 { "June"@ } else if m == 7 { "July"@ } else if m == 8 {
        "August"@
    } else if m == 9 { "September"@ } else if m == 10 { "October"@ } else if m == 11 { "November"@ } else {
        "December"@
    }
}

/// The month abbreviation as `%b` writes it.
pub open spec fn month_abbr(m: int) -> Seq<char> {
    if m == 1 { "Jan"@ } else if m == 2 { "Feb"@ } else if m == 3 { "Mar"@ } else if m == 4 { "Apr"@ } else if m
        == 5 { "May"@ } else if m == 6 { "Jun"@ } else if m == 7 { "Jul"@ } else if m == 8 { "Aug"@ } else if m
        == 9 { "Sep"@ } else if m == 10 { "Oct"@ } else if m == 11 { "Nov"@ } else { "Dec"@ }
}

pub(crate) fn month_name_exec(m: u32) -> (res: &'static str)
    ensures
        res@ == month_name(m as int),
{
    if m == 1 { "January" } else if m == 2 { "February" } else if m == 3 { "March" } else if m == 4 {
        "April"
    } else if m == 5 { "May" } else if m == 6 { "June" } else if m == 7 { "July" } else if m == 8 {
        "August"
    } else if m == 9 { "September" } else if m == 10 { "October" } else if m == 11 { "November" } else {
        "December"
    }
}

fn month_abbr_exec(m: u32) -> (res: &'static str)
    ensures
        res@ == month_abbr(m as int),
{
    if m == 1 { "Jan" } else if m == 2 { "Feb" } else if m == 3 { "Mar" } else if m == 4 { "Apr" } else if m
        == 5 { "May" } else if m == 6 { "Jun" } else if m == 7 { "Jul" } else if m == 8 { "Aug" } else if m
        == 9 { "Sep" } else if m == 10 { "Oct" } else if m == 11 { "Nov" } else { "Dec" }
}

/// `%b %-d`: month abbreviation and unpadded day.
pub open spec fn short_text(d: Date) -> Seq<char> {
    month_abbr(d.month as int) + " "@ + decimal(d.day as nat)
}

/// An integer as `Display` writes it.
pub open spec fn int_text(y: int) -> Seq<char> {
    if y < 0 {
        "-"@ + decimal((-y) as nat)
    } else {
        decimal(y as nat)
    }
}

/// The label of a range, e.g. "January 2026", "Q1 2026", "2025",
/// "Jan 27 – Feb 2, 2026" or "Jan 1 – Mar 15, 2026".
pub open spec fn label_of(r: DateRange) -> Seq<char> {
    let f = r.from;
    let t = r.to;
    let dash = " – "@;
    let sep = ", "@;
    match period_of(r) {
        PeriodType::Week => if f.year == t.year {
            if f.month == t.month {
                short_text(f) + dash + decimal(t.day as nat) + sep + year_text(t.year as int)
            } else {
                short_text(f) + dash + short_text(t) + sep + year_text(t.year as int)
            }
        } else {
            short_text(f) + sep + year_text(f.year as int) + dash + short_text(t) + sep + year_text(t.year as int)
        },
        PeriodType::Month => month_name(f.month as int) + " "@ + year_text(f.year as int),
        PeriodType::Quarter => "Q"@ + decimal(((f.month - 1) / 3 + 1) as nat) + " "@ + int_text(f.year as int),
        PeriodType::Year => year_text(f.year as int),
        PeriodType::All => "All Time"@,
        PeriodType::Custom => if f.year == t.year {
            short_text(f) + dash + short_text(t) + sep + year_text(t.year as int)
        } else {
            short_text(f) + sep + year_text(f.year as int) + dash + short_text(t) + sep + year_text(t.year as int)
        },
    }
}

fn push_str(out: &mut String, s: &str)
    ensures
        final(out)@ == old(out)@ + s@,
{
    out.append(s);
}

fn push_short(out: &mut String, d: Date)
    ensures
        final(out)@ == old(out)@ + short_text(d),
{
    push_str(out, month_abbr_exec(d.month));
    push_char(out, ' ');
    push_decimal(out, d.day as u64);
    proof {
        reveal_strlit(" ");
    }
    assert(final(out)@ =~= old(out)@ + short_text(d));
}

fn push_int(out: &mut String, y: i32)
    ensures
        final(out)@ == old(out)@ + int_text(y as int),
{
    if y < 0 {
        push_char(out, '-');
        push_decimal(out, (-(y as i64)) as u64);
        proof {
            reveal_strlit("-");
        }
        assert(final(out)@ =~= old(out)@ + int_text(y as int));
    } else {
        push_decimal(out, y as u64);
    }
}

/// Reads today's date from the machine's clock in its local time zone
/// (`chrono::Local::now().date_naive()`). Nothing is promised of the day
/// returned beyond its being a real calendar day.
#[verifier::external_body]
fn local_today() -> (res: Date)
    ensures
        res.valid(),
{
    let d = chrono::Local::now().date_naive();
    Date { year: chrono::Datelike::year(&d), month: chrono::Datelike::month(&d), day: chrono::Datelike::day(&d) }
}

fn in_years_exec(d: Date) -> (res: bool)
    requires
        d.valid(),
    ensures
        res == in_years(d),
{
    MIN_YEAR < d.year && d.year < MAX_YEAR
}

impl DateRange {
    /// The range that `preset` selects on day `today`.
    pub fn from_preset_on(preset: DatePreset, today: Date) -> (res: DateRange)
        requires
            in_years(today),
        ensures
            res.preset == Some(preset),
            preset_range(preset, today, res.from, res.to),
            res.from.valid(),
            res.to.valid(),
    {
        proof {
            lemma_years_bound(today);
        }
        let y = today.year;
        let m = today.month;
        let (from, to) = match preset {
            DatePreset::ThisWeek => {
                let s = week_start(today);
                (s, shift_days(s, 6))
            },
            DatePreset::LastWeek => {
                let lw = shift_days(today, -7);
                proof {
                    lemma_weekday_shift(today.day_number(), -1);
                }
                let s = week_start(lw);
                (s, shift_days(s, 6))
            },
            DatePreset::ThisMonth => (Date { year: y, month: m, day: 1 }, month_end(y, m)),
            DatePreset::LastMonth => {
                if m == 1 {
                    (Date { year: y - 1, month: 12, day: 1 }, month_end(y - 1, 12))
                } else {
                    (Date { year: y, month: m - 1, day: 1 }, month_end(y, m - 1))
                }
            },
            DatePreset::ThisQuarter => {
                let qm = quarter_first_exec(m);
                (Date { year: y, month: qm, day: 1 }, month_end(y, qm + 2))
            },
            DatePreset::LastQuarter => {
                let qm = quarter_first_exec(m);
                if qm == 1 {
                    (Date { year: y - 1, month: 10, day: 1 }, month_end(y - 1, 12))
                } else {
                    (Date { year: y, month: qm - 3, day: 1 }, month_end(y, qm - 1))
                }
            },
            DatePreset::ThisYear => (Date { year: y, month: 1, day: 1 }, Date { year: y, month: 12, day: 31 }),
            DatePreset::LastYear => (
                Date { year: y - 1, month: 1, day: 1 },
                Date { year: y - 1, month: 12, day: 31 },
            ),
            DatePreset::All => (Date { year: 1970, month: 1, day: 1 }, Date { year: 2099, month: 12, day: 31 }),
        };
        DateRange { from, to, preset: Some(preset) }
    }
}

/// The date a `YYYY-MM-DD` text names, or `fallback` when it names none.
pub open spec fn or_parsed(s: Seq<char>, fallback: Date) -> Date {
    match parsed_iso_date(s) {
        Some(d) => d,
        None => fallback,
    }
}

/// A preset's range is the only pair of dates it selects.
proof fn lemma_preset_range_unique(p: DatePreset, today: Date, f1: Date, t1: Date, f2: Date, t2: Date)
    requires
        preset_range(p, today, f1, t1),
        preset_range(p, today, f2, t2),
    ensures
        f1 == f2,
        t1 == t2,
{
    match p {
        DatePreset::ThisWeek | DatePreset::LastWeek => {
            lemma_day_number_injective(f1, f2);
            lemma_day_number_injective(t1, t2);
        },
        _ => {},
    }
}

fn same_range(p: DatePreset, today: Date, from: Date, to: Date) -> (res: bool)
    requires
        in_years(today),
    ensures
        res == preset_range(p, today, from, to),
{
    let r = DateRange::from_preset_on(p, today);
    let res = r.from == from && r.to == to;
    proof {
        if preset_range(p, today, from, to) {
            lemma_preset_range_unique(p, today, r.from, r.to, from, to);
        }
    }
    res
}

/// The preset, if any, whose range on day `today` is exactly `from`..`to`.
pub fn detect_preset(from: Date, to: Date, today: Date) -> (res: Option<DatePreset>)
    requires
        in_years(today),
    ensures
        res == preset_of(from, to, today),
{
    if same_range(DatePreset::ThisWeek, today, from, to) {
        Some(DatePreset::ThisWeek)
    } else if same_range(DatePreset::ThisMonth, today, from, to) {
        Some(DatePreset::ThisMonth)
    } else if same_range(DatePreset::ThisQuarter, today, from, to) {
        Some(DatePreset::ThisQuarter)
    } else if same_range(DatePreset::ThisYear, today, from, to) {
        Some(DatePreset::ThisYear)
    } else if same_range(DatePreset::LastWeek, today, from, to) {
        Some(DatePreset::LastWeek)
    } else if same_range(DatePreset::LastMonth, today, from, to) {
        Some(DatePreset::LastMonth)
    } else if same_range(DatePreset::LastQuarter, today, from, to) {
        Some(DatePreset::LastQuarter)
    } else if same_range(DatePreset::LastYear, today, from, to) {
        Some(DatePreset::LastYear)
    } else if same_range(DatePreset::All, today, from, to) {
        Some(DatePreset::All)
    } else {
        None
    }
}

/// The number of days a custom range `from`..`to` moves by: its length,
/// forward (`dir` > 0) or back.
pub open spec fn custom_shift(from: Date, to: Date, dir: int) -> int {
    let len = to.day_number() - from.day_number() + 1;
    if dir > 0 {
        len
    } else {
        -len
    }
}

/// Whether moving `from`..`to` one period stays within chrono's dates: a
/// custom range moved by its own length may leave them (where chrono's
/// date arithmetic overflows); whole weeks, months, quarters and years
/// of the supported years never do.
pub open spec fn shift_fits(from: Date, to: Date, period: PeriodType, dir: int) -> bool {
    period == PeriodType::Custom ==> shift_in_range(from, custom_shift(from, to, dir)) && shift_in_range(
        to,
        custom_shift(from, to, dir),
    )
}

fn shift_fits_exec(from: Date, to: Date, period: PeriodType, dir: i32) -> (res: bool)
    requires
        from.valid(),
        to.valid(),
        dir == 1 || dir == -1,
    ensures
        res == shift_fits(from, to, period, dir as int),
{
    match period {
        PeriodType::Custom => {
            proof {
                lemma_day_number_bounds(from);
                lemma_day_number_bounds(to);
            }
            let len = day_number(to) - day_number(from) + 1;
            let shift = if dir > 0 { len } else { -len };
            let lo = day_number(Date { year: MIN_YEAR, month: 1, day: 1 });
            let hi = day_number(Date { year: MAX_YEAR, month: 12, day: 31 });
            let f = day_number(from) + shift;
            let t = day_number(to) + shift;
            lo <= f && f <= hi && lo <= t && t <= hi
        },
        _ => true,
    }
}

/// Moves `from`..`to` one period forward (`dir` = 1) or back (`dir` = -1).
pub fn shift_by_period(from: Date, to: Date, period: PeriodType, dir: i32) -> (res: (Date, Date))
    requires
        in_years(from),
        in_years(to),
        dir == 1 || dir == -1,
        shift_fits(from, to, period, dir as int),
    ensures
        shifted(from, to, period, dir as int, res.0, res.1),
        res.0.valid(),
        res.1.valid(),
{
    proof {
        lemma_years_bound(from);
        lemma_years_bound(to);
    }
    match period {
        PeriodType::Week => {
            let k: i64 = 7 * dir as i64;
            (shift_days(from, k), shift_days(to, k))
        },
        PeriodType::Month => {
            let s = shift_months(from, dir);
            (s, month_end(s.year, s.month))
        },
        PeriodType::Quarter => {
            let s = shift_months(from, 3 * dir);
            let qm = quarter_first_exec(s.month);
            (s, month_end(s.year, qm + 2))
        },
        PeriodType::Year => {
            let y = from.year + dir;
            (Date { year: y, month: 1, day: 1 }, Date { year: y, month: 12, day: 31 })
        },
        PeriodType::All => (from, to),
        PeriodType::Custom => {
            let len = day_number(to) - day_number(from) + 1;
            let shift = if dir > 0 { len } else { -len };
            (shift_days(from, shift), shift_days(to, shift))
        },
    }
}

impl DateRange {
    /// The range `from`..`to`, with the preset that selects it on `today`.
    pub fn from_dates_on(from: Date, to: Date, today: Date) -> (res: DateRange)
        requires
            in_years(today),
        ensures
            res.from == from,
            res.to == to,
            res.preset == preset_of(from, to, today),
    {
        DateRange { from, to, preset: detect_preset(from, to, today) }
    }

    /// The period this range covers.
    pub fn detect_period_type(&self) -> (res: PeriodType)
        requires
            self.from.valid(),
            self.to.valid(),
        ensures
            res == period_of(*self),
    {
        let f = self.from;
        let t = self.to;
        if self.preset == Some(DatePreset::All) {
            return PeriodType::All;
        }
        proof {
            lemma_day_number_bounds(f);
            lemma_day_number_bounds(t);
        }
        if weekday_from_monday(f) == 0 && day_number(t) == day_number(f) + 6 {
            return PeriodType::Week;
        }
        if f.day == 1 && t == month_end(f.year, f.month) {
            return PeriodType::Month;
        }
        let qm = quarter_first_exec(f.month);
        if f.day == 1 && f.month == qm && f.month <= 10 && t == month_end(f.year, f.month + 2) {
            return PeriodType::Quarter;
        }
        if f.day == 1 && f.month == 1 && t == (Date { year: f.year, month: 12, day: 31 }) {
            return PeriodType::Year;
        }
        PeriodType::Custom
    }

    /// The previous period, judged on day `today`.
    pub fn prev_on(&self, today: Date) -> (res: DateRange)
        requires
            in_years(self.from),
            in_years(self.to),
            in_years(today),
            shift_fits(self.from, self.to, period_of(*self), -1),
        ensures
            shifted(self.from, self.to, period_of(*self), -1, res.from, res.to),
            res.preset == preset_of(res.from, res.to, today),
            res.from.valid(),
            res.to.valid(),
    {
        let period = self.detect_period_type();
        let (f, t) = shift_by_period(self.from, self.to, period, -1);
        DateRange::from_dates_on(f, t, today)
    }

    /// The next period, judged on day `today`.
    pub fn next_on(&self, today: Date) -> (res: DateRange)
        requires
            in_years(self.from),
            in_years(self.to),
            in_years(today),
            shift_fits(self.from, self.to, period_of(*self), 1),
        ensures
            shifted(self.from, self.to, period_of(*self), 1, res.from, res.to),
            res.preset == preset_of(res.from, res.to, today),
            res.from.valid(),
            res.to.valid(),
    {
        let period = self.detect_period_type();
        let (f, t) = shift_by_period(self.from, self.to, period, 1);
        DateRange::from_dates_on(f, t, today)
    }

    /// The range that `preset` selects today, by the machine's clock; `None`
    /// when the clock reads chrono's first or last year. Which day the
    /// clock reads is not known here, so the range is stated as the one the
    /// preset selects on some day within those years.
    pub fn from_preset(preset: DatePreset) -> (res: Option<DateRange>)
        ensures
            res matches Some(r) ==> {
                &&& r.preset == Some(preset)
                &&& r.from.valid()
                &&& r.to.valid()
                &&& exists|today: Date| in_years(today) && #[trigger] preset_range(preset, today, r.from, r.to)
            },
    {
        let today = local_today();
        let res = DateRange::from_preset_checked(preset, today);
        proof {
            if let Some(r) = res {
                assert(in_years(today) && preset_range(preset, today, r.from, r.to));
            }
        }
        res
    }

    /// The range that `preset` selects on day `today`, when `today` is a
    /// calendar day past chrono's first year and before its last; `None`
    /// otherwise.
    pub fn from_preset_checked(preset: DatePreset, today: Date) -> (res: Option<DateRange>)
        ensures
            res is Some <==> in_years(today),
            res matches Some(r) ==> {
                &&& r.preset == Some(preset)
                &&& preset_range(preset, today, r.from, r.to)
                &&& r.from.valid()
                &&& r.to.valid()
            },
    {
        if is_valid_ymd(today.year, today.month, today.day) && in_years_exec(today) {
            Some(DateRange::from_preset_on(preset, today))
        } else {
            None
        }
    }

    /// The start date as `YYYY-MM-DD`.
    pub fn from_str(&self) -> (res: String)
        requires
            self.from.valid(),
        ensures
            res@ == iso_text(self.from),
    {
        iso_string(self.from)
    }

    /// The end date as `YYYY-MM-DD`.
    pub fn to_str(&self) -> (res: String)
        requires
            self.to.valid(),
        ensures
            res@ == iso_text(self.to),
    {
        iso_string(self.to)
    }

    pub fn is_preset(&self, preset: &DatePreset) -> (res: bool)
        ensures
            res == (self.preset == Some(*preset)),
    {
        match self.preset {
            Some(p) => p == *preset,
            None => false,
        }
    }

    /// For the "All" preset, narrow the range to the actual data extent
    /// (`(min_date, max_date)` as `YYYY-MM-DD`); a bound that does not parse
    /// is kept. Other ranges, and a missing extent, are returned unchanged.
    pub fn resolve_all(self, extent: Option<(String, String)>) -> (res: DateRange)
        ensures
            match extent {
                Some(e) => res == (if self.preset == Some(DatePreset::All) {
                    DateRange {
                        from: or_parsed(e.0@, self.from),
                        to: or_parsed(e.1@, self.to),
                        preset: Some(DatePreset::All),
                    }
                } else {
                    self
                }),
                None => res == self,
            },
    {
        if !self.is_preset(&DatePreset::All) {
            return self;
        }
        match extent {
            Some((min_date, max_date)) => {
                let from = match parse_iso_date(min_date.as_str()) {
                    Some(d) => d,
                    None => self.from,
                };
                let to = match parse_iso_date(max_date.as_str()) {
                    Some(d) => d,
                    None => self.to,
                };
                DateRange { from, to, preset: Some(DatePreset::All) }
            },
            None => self,
        }
    }

    /// Query string preserving the range in URLs:
    /// `from_date=YYYY-MM-DD&to_date=YYYY-MM-DD`, then `&preset=X` when set.
    pub fn query_string(&self) -> (res: String)
        requires
            self.from.valid(),
            self.to.valid(),
        ensures
            res@ == "from_date="@ + iso_text(self.from) + "&to_date="@ + iso_text(self.to) + match self.preset {
                Some(p) => "&preset="@ + p.key_text(),
                None => Seq::<char>::empty(),
            },
    {
        let mut qs = String::from_str("from_date=");
        qs.append(self.from_str().as_str());
        qs.append("&to_date=");
        qs.append(self.to_str().as_str());
        let ghost base = qs@;
        if let Some(p) = self.preset {
            qs.append("&preset=");
            qs.append(p.as_str());
        } else {
            assert(qs@ =~= base + Seq::<char>::empty());
        }
        qs
    }

    /// Human-readable label for the current range (see `label_of`).
    pub fn display_label(&self) -> (res: String)
        requires
            self.from.valid(),
            self.to.valid(),
        ensures
            res@ == label_of(*self),
    {
        let f = self.from;
        let t = self.to;
        let mut out = String::new();
        match self.detect_period_type() {
            PeriodType::Week => {
                push_short(&mut out, f);
                if f.year == t.year {
                    push_str(&mut out, " – ");
                    if f.month == t.month {
                        push_decimal(&mut out, t.day as u64);
                    } else {
                        push_short(&mut out, t);
                    }
                } else {
                    push_str(&mut out, ", ");
                    push_year(&mut out, f.year);
                    push_str(&mut out, " – ");
                    push_short(&mut out, t);
                }
                push_str(&mut out, ", ");
                push_year(&mut out, t.year);
            },
            PeriodType::Month => {
                push_str(&mut out, month_name_exec(f.month));
                push_str(&mut out, " ");
                push_year(&mut out, f.year);
            },
            PeriodType::Quarter => {
                push_str(&mut out, "Q");
                push_decimal(&mut out, ((f.month - 1) / 3 + 1) as u64);
                push_str(&mut out, " ");
                push_int(&mut out, f.year);
            },
            PeriodType::Year => {
                push_year(&mut out, f.year);
            },
            PeriodType::All => {
                push_str(&mut out, "All Time");
            },
            PeriodType::Custom => {
                push_short(&mut out, f);
                if f.year != t.year {
                    push_str(&mut out, ", ");
                    push_year(&mut out, f.year);
                }
                push_str(&mut out, " – ");
                push_short(&mut out, t);
                push_str(&mut out, ", ");
                push_year(&mut out, t.year);
            },
        }
        assert(out@ =~= label_of(*self));
        out
    }
}

/// The fallback range: this month.
pub open spec fn is_default_range(b: DateRange, today: Date) -> bool {
    b.preset == Some(DatePreset::ThisMonth) && preset_range(DatePreset::ThisMonth, today, b.from, b.to)
}

/// The range a filter's parameters select before navigation: a preset
/// when one is named and known, else explicit dates when both parse, else
/// this month.
pub open spec fn base_range(
    preset: Option<Seq<char>>,
    from: Option<Seq<char>>,
    to: Option<Seq<char>>,
    today: Date,
    b: DateRange,
) -> bool {
    match preset {
        Some(p) => match DatePreset::parsed(p) {
            Some(pp) => b.preset == Some(pp) && preset_range(pp, today, b.from, b.to),
            None => is_default_range(b, today),
        },
        None => if from is Some && to is Some && parsed_iso_date(from->0) is Some && parsed_iso_date(to->0) is Some {
            let df = parsed_iso_date(from->0)->0;
            let dt = parsed_iso_date(to->0)->0;
            b == (DateRange { from: df, to: dt, preset: preset_of(df, dt, today) })
        } else {
            is_default_range(b, today)
        },
    }
}

/// `res` is `b` moved by the navigation request `nav` ("prev" or "next");
/// ranges outside the supported years, and custom ranges whose move would
/// leave chrono's dates, are not moved.
pub open spec fn navigated(nav: Option<Seq<char>>, b: DateRange, today: Date, res: DateRange) -> bool {
    let dir: int = if nav == Some("prev"@) {
        -1
    } else if nav == Some("next"@) {
        1
    } else {
        0
    };
    if dir != 0 && in_years(b.from) && in_years(b.to) && shift_fits(b.from, b.to, period_of(b), dir) {
        shifted(b.from, b.to, period_of(b), dir, res.from, res.to) && res.preset == preset_of(res.from, res.to, today)
            && res.from.valid() && res.to.valid()
    } else {
        res == b
    }
}

pub open spec fn opt_seq(s: Option<&String>) -> Option<Seq<char>> {
    match s {
        Some(v) => Some(v@),
        None => None,
    }
}

/// The date range that a filter's `preset`, `from_date`, `to_date` and
/// `nav` parameters select on day `today`.
pub fn resolve_date_range(
    preset: Option<&String>,
    from: Option<&String>,
    to: Option<&String>,
    nav: Option<&String>,
    today: Date,
) -> (res: DateRange)
    requires
        in_years(today),
    ensures
        exists|b: DateRange| base_range(opt_seq(preset), opt_seq(from), opt_seq(to), today, b) && navigated(
            opt_seq(nav),
            b,
            today,
            res,
        ),
{
    let base = match preset {
        Some(p) => match DatePreset::parse(p.as_str()) {
            Some(pp) => DateRange::from_preset_on(pp, today),
            None => DateRange::from_preset_on(DatePreset::ThisMonth, today),
        },
        None => {
            let mut b = DateRange::from_preset_on(DatePreset::ThisMonth, today);
            if let (Some(f), Some(t)) = (from, to) {
                if let (Some(df), Some(dt)) = (parse_iso_date(f.as_str()), parse_iso_date(t.as_str())) {
                    b = DateRange::from_dates_on(df, dt, today);
                }
            }
            b
        },
    };
    assert(base_range(opt_seq(preset), opt_seq(from), opt_seq(to), today, base));
    assert(base.from.valid() && base.to.valid());
    let res = match nav {
        Some(n) => {
            let is_prev = n.as_str().to_owned() == String::from_str("prev");
            let is_next = n.as_str().to_owned() == String::from_str("next");
            proof {
                reveal_strlit("prev");
                reveal_strlit("next");
            }
            let dir: i32 = if is_prev { -1 } else { 1 };
            if (is_prev || is_next) && in_years_exec(base.from) && in_years_exec(base.to) && shift_fits_exec(
                base.from,
                base.to,
                base.detect_period_type(),
                dir,
            ) {
                if is_prev {
                    base.prev_on(today)
                } else {
                    base.next_on(today)
                }
            } else {
                base
            }
        },
        None => base,
    };
    assert(navigated(opt_seq(nav), base, today, res));
    res
}

proof fn lemma_month_span(y: int, m: int)
    requires
        1 <= m <= 12,
    ensures
        ymd_day_number_of(month_last(y, m)) - ymd_day_number_of(ymd(y, m, 1)) == days_in_month(y, m) - 1,
{
}

spec fn ymd_day_number_of(d: Date) -> int {
    crate::calendar::ymd_day_number(d.year as int, d.month as int, d.day as int)
}

proof fn lemma_months_roundtrip(d: Date, k: int)
    requires
        d.valid(),
        -12 <= k <= 12,
        d.day == 1,
    ensures
        months_later(months_later(d, k), -k) == d,
{
    let total = d.year * 12 + d.month - 1 + k;
    let ny = total / 12;
    let nm = total % 12 + 1;
    assert(ny * 12 + nm - 1 == total);
    let back = ny * 12 + nm - 1 - k;
    assert(back == d.year * 12 + d.month - 1);
    assert(back / 12 == d.year as int);
    assert(back % 12 == d.month - 1);
}

proof fn lemma_not_all(from: Date, to: Date, today: Date)
    requires
        from.year == to.year,
    ensures
        preset_of(from, to, today) != Some(DatePreset::All),
{
    assert(!preset_range(DatePreset::All, today, from, to));
}

#[verifier::spinoff_prover]
#[verifier::rlimit(60)]
proof fn lemma_roundtrip_week(r: DateRange, dir: int, back: DateRange, fwd: DateRange, today: Date)
    requires
        dir == 1 || dir == -1,
        r.from.valid(),
        r.to.valid(),
        period_of(r) == PeriodType::Week,
        shifted(r.from, r.to, PeriodType::Week, dir, back.from, back.to),
        back.preset == preset_of(back.from, back.to, today),
        shifted(back.from, back.to, period_of(back), -dir, fwd.from, fwd.to),
    ensures
        fwd.from == r.from,
        fwd.to == r.to,
{
    lemma_weekday_shift(r.from.day_number(), dir);
    assert(period_of(back) == PeriodType::Week);
    lemma_day_number_injective(fwd.from, r.from);
    lemma_day_number_injective(fwd.to, r.to);
}

#[verifier::spinoff_prover]
#[verifier::rlimit(60)]
proof fn lemma_roundtrip_month(r: DateRange, dir: int, back: DateRange, fwd: DateRange, today: Date)
    requires
        dir == 1 || dir == -1,
        r.from.valid(),
        r.to.valid(),
        MIN_YEAR < r.from.year < MAX_YEAR,
        period_of(r) == PeriodType::Month,
        shifted(r.from, r.to, PeriodType::Month, dir, back.from, back.to),
        back.preset == preset_of(back.from, back.to, today),
        shifted(back.from, back.to, period_of(back), -dir, fwd.from, fwd.to),
    ensures
        fwd.from == r.from,
        fwd.to == r.to,
{
    let s = months_later(r.from, dir);
    lemma_months_roundtrip(r.from, dir);
    assert(1 <= s.month <= 12);
    assert(back.from == s);
    lemma_not_all(back.from, back.to, today);
    lemma_month_span(s.year as int, s.month as int);
    assert(period_of(back) == PeriodType::Month);
}

proof fn lemma_quarter_is_quarter(back: DateRange, s: Date)
    requires
        back.from == s,
        1 <= s.month <= 12,
        s.day == 1,
        quarter_first(s.month as int) == s.month,
        back.to == month_last(s.year as int, s.month + 2),
        back.preset != Some(DatePreset::All),
    ensures
        period_of(back) == PeriodType::Quarter,
{
    lemma_month_span(s.year as int, s.month as int);
    lemma_month_span(s.year as int, s.month + 2);
    assert(back.to.month != back.from.month);
}

#[verifier::spinoff_prover]
#[verifier::rlimit(60)]
proof fn lemma_roundtrip_quarter(r: DateRange, dir: int, back: DateRange, fwd: DateRange, today: Date)
    requires
        dir == 1 || dir == -1,
        r.from.valid(),
        r.to.valid(),
        MIN_YEAR < r.from.year < MAX_YEAR,
        period_of(r) == PeriodType::Quarter,
        shifted(r.from, r.to, PeriodType::Quarter, dir, back.from, back.to),
        back.preset == preset_of(back.from, back.to, today),
        shifted(back.from, back.to, period_of(back), -dir, fwd.from, fwd.to),
    ensures
        fwd.from == r.from,
        fwd.to == r.to,
{
    let s = months_later(r.from, 3 * dir);
    lemma_months_roundtrip(r.from, 3 * dir);
    assert(1 <= s.month <= 12);
    assert(quarter_first(s.month as int) == s.month);
    assert(back.from == s);
    assert(back.to.year == back.from.year);
    lemma_not_all(back.from, back.to, today);
    lemma_quarter_is_quarter(back, s);
}

#[verifier::spinoff_prover]
#[verifier::rlimit(60)]
proof fn lemma_roundtrip_year(r: DateRange, dir: int, back: DateRange, fwd: DateRange, today: Date)
    requires
        dir == 1 || dir == -1,
        r.from.valid(),
        r.to.valid(),
        MIN_YEAR < r.from.year < MAX_YEAR,
        period_of(r) == PeriodType::Year,
        shifted(r.from, r.to, PeriodType::Year, dir, back.from, back.to),
        back.preset == preset_of(back.from, back.to, today),
        shifted(back.from, back.to, period_of(back), -dir, fwd.from, fwd.to),
    ensures
        fwd.from == r.from,
        fwd.to == r.to,
{
    lemma_not_all(back.from, back.to, today);
    assert(period_of(back) == PeriodType::Year);
}

/// Going back one period and then forward one period returns a whole
/// week, month, quarter or year to where it was.
pub proof fn lemma_prev_then_next(r: DateRange, back: DateRange, fwd: DateRange, today: Date)
    requires
        r.from.valid(),
        r.to.valid(),
        MIN_YEAR < r.from.year < MAX_YEAR,
        MIN_YEAR < r.to.year < MAX_YEAR,
        period_of(r) == PeriodType::Week || period_of(r) == PeriodType::Month || period_of(r)
            == PeriodType::Quarter || period_of(r) == PeriodType::Year,
        shifted(r.from, r.to, period_of(r), -1, back.from, back.to),
        back.preset == preset_of(back.from, back.to, today),
        shifted(back.from, back.to, period_of(back), 1, fwd.from, fwd.to),
    ensures
        fwd.from == r.from,
        fwd.to == r.to,
{
    if period_of(r) == PeriodType::Week {
        lemma_roundtrip_week(r, -1, back, fwd, today);
    } else if period_of(r) == PeriodType::Month {
        lemma_roundtrip_month(r, -1, back, fwd, today);
    } else if period_of(r) == PeriodType::Quarter {
        lemma_roundtrip_quarter(r, -1, back, fwd, today);
    } else {
        lemma_roundtrip_year(r, -1, back, fwd, today);
    }
}

/// Going forward one period and then back one period returns a whole
/// week, month, quarter or year to where it was.
pub proof fn lemma_next_then_prev(r: DateRange, fwd: DateRange, back: DateRange, today: Date)
    requires
        r.from.valid(),
        r.to.valid(),
        MIN_YEAR < r.from.year < MAX_YEAR,
        MIN_YEAR < r.to.year < MAX_YEAR,
        period_of(r) == PeriodType::Week || period_of(r) == PeriodType::Month || period_of(r)
            == PeriodType::Quarter || period_of(r) == PeriodType::Year,
        shifted(r.from, r.to, period_of(r), 1, fwd.from, fwd.to),
        fwd.preset == preset_of(fwd.from, fwd.to, today),
        shifted(fwd.from, fwd.to, period_of(fwd), -1, back.from, back.to),
    ensures
        back.from == r.from,
        back.to == r.to,
{
    if period_of(r) == PeriodType::Week {
        lemma_roundtrip_week(r, 1, fwd, back, today);
    } else if period_of(r) == PeriodType::Month {
        lemma_roundtrip_month(r, 1, fwd, back, today);
    } else if period_of(r) == PeriodType::Quarter {
        lemma_roundtrip_quarter(r, 1, fwd, back, today);
    } else {
        lemma_roundtrip_year(r, 1, fwd, back, today);
    }
}

/// Parsing undoes `as_str`: every preset's key reads back as that preset,
/// so no two presets share a key.
pub proof fn lemma_preset_key_roundtrip(c: DatePreset)
    ensures
        DatePreset::parsed(c.key_text()) == Some(c),
{
    match c {
        DatePreset::ThisWeek => {
            reveal_strlit("this_week");
        },
        DatePreset::ThisMonth => {
            reveal_strlit("this_week");
            reveal_strlit("this_month");
            lemma_texts_differ("this_month"@, "this_week"@, 0);
        },
        DatePreset::ThisQuarter => {
            reveal_strlit("this_week");
            reveal_strlit("this_month");
            reveal_strlit("this_quarter");
            lemma_texts_differ("this_quarter"@, "this_week"@, 0);
            lemma_texts_differ("this_quarter"@, "this_month"@, 0);
        },
        DatePreset::ThisYear => {
            reveal_strlit("this_week");
            reveal_strlit("this_month");
            reveal_strlit("this_quarter");
            reveal_strlit("this_year");
            lemma_texts_differ("this_year"@, "this_week"@, 5);
            lemma_texts_differ("this_year"@, "this_month"@, 0);
            lemma_texts_differ("this_year"@, "this_quarter"@, 0);
        },
        DatePreset::LastWeek => {
            reveal_strlit("this_week");
            reveal_strlit("this_month");
            reveal_strlit("this_quarter");
            reveal_strlit("this_year");
            reveal_strlit("last_week");
            lemma_texts_differ("last_week"@, "this_week"@, 0);
            lemma_texts_differ("last_week"@, "this_month"@, 0);
            lemma_texts_differ("last_week"@, "this_quarter"@, 0);
            lemma_texts_differ("last_week"@, "this_year"@, 0);
        },
        DatePreset::LastMonth => {
            reveal_strlit("this_week");
            reveal_strlit("this_month");
            reveal_strlit("this_quarter");
            reveal_strlit("this_year");
            reveal_strlit("last_week");
            reveal_strlit("last_month");
            lemma_texts_differ("last_month"@, "this_week"@, 0);
            lemma_texts_differ("last_month"@, "this_month"@, 0);
            lemma_texts_differ("last_month"@, "this_quarter"@, 0);
            lemma_texts_differ("last_month"@, "this_year"@, 0);
            lemma_texts_differ("last_month"@, "last_week"@, 0);
        },
        DatePreset::LastQuarter => {
            reveal_strlit("this_week");
            reveal_strlit("this_month");
            reveal_strlit("this_quarter");
            reveal_strlit("this_year");
            reveal_strlit("last_week");
            reveal_strlit("last_month");
            reveal_strlit("last_quarter");
            lemma_texts_differ("last_quarter"@, "this_week"@, 0);
            lemma_texts_differ("last_quarter"@, "this_month"@, 0);
            lemma_texts_differ("last_quarter"@, "this_quarter"@, 0);
            lemma_texts_differ("last_quarter"@, "this_year"@, 0);
            lemma_texts_differ("last_quarter"@, "last_week"@, 0);
            lemma_texts_differ("last_quarter"@, "last_month"@, 0);
        },
        DatePreset::LastYear => {
            reveal_strlit("this_week");
            reveal_strlit("this_month");
            reveal_strlit("this_quarter");
            reveal_strlit("this_year");
            reveal_strlit("last_week");
            reveal_strlit("last_month");
            reveal_strlit("last_quarter");
            reveal_strlit("last_year");
            lemma_texts_differ("last_year"@, "this_week"@, 0);
            lemma_texts_differ("last_year"@, "this_month"@, 0);
            lemma_texts_differ("last_year"@, "this_quarter"@, 0);
            lemma_texts_differ("last_year"@, "this_year"@, 0);
            lemma_texts_differ("last_year"@, "last_week"@, 5);
            lemma_texts_differ("last_year"@, "last_month"@, 0);
            lemma_texts_differ("last_year"@, "last_quarter"@, 0);
        },
        DatePreset::All => {
            reveal_strlit("this_week");
            reveal_strlit("this_month");
            reveal_strlit("this_quarter");
            reveal_strlit("this_year");
            reveal_strlit("last_week");
            reveal_strlit("last_month");
            reveal_strlit("last_quarter");
            reveal_strlit("last_year");
            reveal_strlit("all");
            lemma_texts_differ("all"@, "this_week"@, 0);
            lemma_texts_differ("all"@, "this_month"@, 0);
            lemma_texts_differ("all"@, "this_quarter"@, 0);
            lemma_texts_differ("all"@, "this_year"@, 0);
            lemma_texts_differ("all"@, "last_week"@, 0);
            lemma_texts_differ("all"@, "last_month"@, 0);
            lemma_texts_differ("all"@, "last_quarter"@, 0);
            lemma_texts_differ("all"@, "last_year"@, 0);
        },
    }
}

} // verus!

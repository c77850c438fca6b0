//! Market data: symbol information and the detection of gaps in the
//! price history of a symbol.

use vstd::prelude::*;
use crate::calendar::{
    day_number, iso_string, iso_text, is_first_date, is_last_date, lemma_day_number_bounds, next_day, next_day_spec,
    parse_iso_date, parsed_iso_date, prev_day, prev_day_spec, weekday_from_monday, days_between, Date,
};
use crate::tally::{lex_lt, str_lt};

verus! {

/// Names and listing of a symbol.
#[derive(Debug, Clone)]
pub struct SymbolInfo {
    pub short_name: Option<String>,
    pub long_name: Option<String>,
    pub exchange: Option<String>,
    pub quote_type: Option<String>,
}

impl SymbolInfo {
    /// The long name, else the short name.
    pub fn display_name(&self) -> (res: Option<&String>)
        ensures
            res == (match self.long_name {
                Some(l) => Some(&l),
                None => match self.short_name {
                    Some(s) => Some(&s),
                    None => None,
                },
            }),
    {
        match &self.long_name {
            Some(l) => Some(l),
            None => match &self.short_name {
                Some(s) => Some(s),
                None => None,
            },
        }
    }
}

/// Fewest consecutive missing weekdays that count as a gap; shorter runs
/// are taken for market holidays.
pub const MIN_GAP_WEEKDAYS: i64 = 5;

/// The state of the walk over the days: the open gap's first day, the
/// number of weekdays in it, and the gaps found so far.
pub type GapState = (Option<Date>, int, Seq<(Seq<char>, Seq<char>)>);

/// The day `k` days after `d`.
pub open spec fn nth_day(d: Date, k: nat) -> Date
    decreases k,
{
    if k == 0 {
        d
    } else {
        next_day_spec(nth_day(d, (k - 1) as nat))
    }
}

/// One day of the walk: on a weekday with data an open gap is closed
/// (and kept when long enough); on a weekday without data a gap is opened
/// or extended; weekends change nothing.
pub open spec fn gap_step(st: GapState, d: Date, has_data: bool) -> GapState {
    if d.weekday_index() < 5 {
        if has_data {
            match st.0 {
                Some(gs) => (None, 0, if st.1 >= MIN_GAP_WEEKDAYS {
                    st.2.push((iso_text(gs), iso_text(prev_day_spec(d))))
                } else {
                    st.2
                }),
                None => st,
            }
        } else {
            match st.0 {
                None => (Some(d), 1, st.2),
                Some(g) => (Some(g), st.1 + 1, st.2),
            }
        }
    } else {
        st
    }
}

/// The walk over the first `k` days from `start`.
pub open spec fn gap_walk(start: Date, k: nat, data: Seq<Seq<char>>) -> GapState
    decreases k,
{
    if k == 0 {
        (None, 0, seq![])
    } else {
        let d = nth_day(start, (k - 1) as nat);
        gap_step(gap_walk(start, (k - 1) as nat, data), d, has_text(data, iso_text(d)))
    }
}

/// The date ranges without data, from the first activity to `today`:
/// everything when there is no data at all, else the runs of at least
/// five missing weekdays (from the run's first missing day to the day
/// before data resumes, or to `today`).
pub open spec fn missing_ranges(data: Seq<Seq<char>>, first_activity: Option<Seq<char>>, today: Date) -> Seq<
    (Seq<char>, Seq<char>),
> {
    match first_activity {
        None => seq![],
        Some(f) => if data.len() == 0 {
            seq![(f, iso_text(today))]
        } else {
            match parsed_iso_date(f) {
                None => seq![],
                Some(start) => {
                    let n = today.day_number() - start.day_number() + 1;
                    let st = gap_walk(start, (if n > 0 { n } else { 0 }) as nat, data);
                    st.2 + match st.0 {
                        Some(gs) => if st.1 >= MIN_GAP_WEEKDAYS {
                            seq![(iso_text(gs), iso_text(today))]
                        } else {
                            seq![]
                        },
                        None => seq![],
                    }
                },
            }
        },
    }
}

/// Whether the text is among the texts.
#[verifier::opaque]
pub open spec fn has_text(v: Seq<Seq<char>>, s: Seq<char>) -> bool {
    v.contains(s)
}

fn contains_text(v: &Vec<String>, s: &String) -> (res: bool)
    ensures
        res == has_text(texts(v@), s@),
{
    proof {
        reveal(has_text);
    }
    let mut i: usize = 0;
    while i < v.len()
        invariant
            i <= v@.len(),
            forall|t: int| 0 <= t < i ==> v@[t]@ != s@,
        decreases v@.len() - i,
    {
        if v[i] == *s {
            assert(texts(v@)[i as int] == s@);
            assert(texts(v@).contains(s@));
            assert(has_text(texts(v@), s@)) by {
                reveal(has_text);
            }
            return true;
        }
        i += 1;
    }
    assert forall|t: int| 0 <= t < v@.len() implies texts(v@)[t] != s@ by {
        assert(texts(v@)[t] == v@[t]@);
    }
    false
}

proof fn lemma_nth_day(start: Date, k: nat)
    requires
        start.valid(),
        start.day_number() + k <= crate::calendar::last_date().day_number(),
    ensures
        nth_day(start, k).valid(),
        nth_day(start, k).day_number() == start.day_number() + k,
    decreases k,
{
    if k > 0 {
        lemma_nth_day(start, (k - 1) as nat);
        let p = nth_day(start, (k - 1) as nat);
        assert(!is_last_date(p)) by {
            if is_last_date(p) {
                assert(p == crate::calendar::last_date());
            }
        }
        crate::calendar::lemma_next_day(p);
    }
}

/// Computes `missing_ranges` from the dates that have data (`YYYY-MM-DD`),
/// the first activity date, and today.
#[verifier::rlimit(40)]
pub fn calculate_missing_ranges(data_dates: &Vec<String>, first_activity: Option<&String>, today: Date) -> (res: Vec<
    (String, String),
>)
    requires
        today.valid(),
    ensures
        pairs_view(res@) == missing_ranges(
            texts(data_dates@),
            match first_activity {
                Some(f) => Some(f@),
                None => None,
            },
            today,
        ),
{
    let ghost data = texts(data_dates@);
    let mut out: Vec<(String, String)> = Vec::new();
    let first = match first_activity {
        None => {
            assert(pairs_view(out@) =~= Seq::<(Seq<char>, Seq<char>)>::empty());
            return out;
        },
        Some(f) => f,
    };
    if data_dates.len() == 0 {
        out.push((first.clone(), iso_string(today)));
        assert(pairs_view(out@) =~= seq![(first@, iso_text(today))]);
        return out;
    }
    let start = match parse_iso_date(first.as_str()) {
        None => {
            assert(pairs_view(out@) =~= Seq::<(Seq<char>, Seq<char>)>::empty());
            return out;
        },
        Some(d) => d,
    };
    proof {
        lemma_day_number_bounds(start);
        lemma_day_number_bounds(today);
    }
    let total: i64 = day_number(today) - day_number(start) + 1;
    let n: i64 = if total > 0 { total } else { 0 };
    let mut gap: Option<Date> = None;
    let mut count: i64 = 0;
    let mut cur = start;
    let mut k: i64 = 0;
    assert(pairs_view(out@) =~= Seq::<(Seq<char>, Seq<char>)>::empty());
    while k < n
        invariant
            0 <= k <= n,
            n <= 0 || n == day_number_spec(today) - start.day_number() + 1,
            start.valid(),
            today.valid(),
            data == texts(data_dates@),
            k < n ==> cur == nth_day(start, k as nat),
            cur.valid(),
            k < n ==> cur.day_number() == start.day_number() + k,
            0 <= count <= k,
            gap_walk(start, k as nat, data) == (gap, count as int, pairs_view(out@)),
            match gap {
                Some(g) => g.valid() && start.day_number() <= g.day_number() && (k < n ==> g.day_number()
                    < cur.day_number()),
                None => true,
            },
        decreases n - k,
    {
        let ghost st = gap_walk(start, k as nat, data);
        walk_day(cur, data_dates, &mut gap, &mut count, &mut out, start);
        assert(gap_walk(start, (k + 1) as nat, data) == gap_step(st, cur, has_text(data, iso_text(cur))));
        k += 1;
        if k < n {
            cur = following_day(cur, today);
        }
    }
    let ghost o = pairs_view(out@);
    if let Some(gs) = gap {
        if count >= MIN_GAP_WEEKDAYS {
            out.push((iso_string(gs), iso_string(today)));
            assert(pairs_view(out@) =~= o + seq![(iso_text(gs), iso_text(today))]);
            return out;
        }
    }
    assert(pairs_view(out@) =~= o + Seq::<(Seq<char>, Seq<char>)>::empty());
    out
}

fn following_day(cur: Date, today: Date) -> (res: Date)
    requires
        cur.valid(),
        today.valid(),
        cur.day_number() < today.day_number(),
    ensures
        res == next_day_spec(cur),
        res.valid(),
        res.day_number() == cur.day_number() + 1,
{
    proof {
        lemma_day_number_bounds(today);
        if is_last_date(cur) {
            assert(cur == crate::calendar::last_date());
        }
    }
    next_day(cur)
}

fn walk_day(
    cur: Date,
    data_dates: &Vec<String>,
    gap: &mut Option<Date>,
    count: &mut i64,
    out: &mut Vec<(String, String)>,
    start: Date,
)
    requires
        cur.valid(),
        start.day_number() <= cur.day_number(),
        0 <= *old(count) < i64::MAX,
        match *old(gap) {
            Some(g) => g.valid() && start.day_number() <= g.day_number() < cur.day_number(),
            None => true,
        },
    ensures
        (*final(gap), *final(count) as int, pairs_view(final(out)@)) == gap_step(
            (*old(gap), *old(count) as int, pairs_view(old(out)@)),
            cur,
            has_text(texts(data_dates@), iso_text(cur)),
        ),
        0 <= *final(count) <= *old(count) + 1,
        match *final(gap) {
            Some(g) => g.valid() && start.day_number() <= g.day_number() <= cur.day_number(),
            None => true,
        },
{
    let wd = weekday_from_monday(cur);
    if wd >= 5 {
        return;
    }
    let s = iso_string(cur);
    let has = contains_text(data_dates, &s);
    if has {
        if let Some(gs) = *gap {
            if *count >= MIN_GAP_WEEKDAYS {
                proof {
                    lemma_day_number_bounds(gs);
                    if is_first_date(cur) {
                        assert(cur == crate::calendar::first_date());
                    }
                }
                let before = prev_day(cur);
                let ghost o = pairs_view(out@);
                out.push((iso_string(gs), iso_string(before)));
                assert(pairs_view(out@) =~= o.push((iso_text(gs), iso_text(prev_day_spec(cur)))));
            }
            *gap = None;
            *count = 0;
        }
    } else {
        match *gap {
            None => {
                *gap = Some(cur);
                *count = 1;
            },
            Some(_) => {
                *count = *count + 1;
            },
        }
    }
}

pub open spec fn texts(v: Seq<String>) -> Seq<Seq<char>> {
    v.map_values(|x: String| x@)
}

pub open spec fn pairs_view(v: Seq<(String, String)>) -> Seq<(Seq<char>, Seq<char>)> {
    v.map_values(|p: (String, String)| (p.0@, p.1@))
}

pub open spec fn day_number_spec(d: Date) -> int {
    d.day_number()
}

/// One point of a price chart.
#[derive(Debug, Clone)]
pub struct PriceChartData {
    pub date: String,
    pub price_cents: i64,
}

/// The price chart of a symbol, with the date ranges it has no data for.
#[derive(Debug)]
pub struct PriceChartResponse {
    pub symbol: String,
    pub data: Vec<PriceChartData>,
    pub missing_ranges: Vec<(String, String)>,
}

pub open spec fn chart_view(v: Seq<PriceChartData>) -> Seq<(Seq<char>, i64)> {
    v.map_values(|p: PriceChartData| (p.date@, p.price_cents))
}

pub open spec fn prices_view(v: Seq<(String, i64)>) -> Seq<(Seq<char>, i64)> {
    v.map_values(|p: (String, i64)| (p.0@, p.1))
}

/// The chart of `symbol` from its (date, close price) points, newest
/// first as stored: the points oldest first, and the gaps since the
/// first activity up to `today`.
pub fn symbol_chart(
    symbol: &String,
    prices_newest_first: &Vec<(String, i64)>,
    first_activity: Option<&String>,
    today: Date,
) -> (res: PriceChartResponse)
    requires
        today.valid(),
    ensures
        res.symbol@ == symbol@,
        chart_view(res.data@) == prices_view(prices_newest_first@).reverse(),
        pairs_view(res.missing_ranges@) == missing_ranges(
            prices_view(prices_newest_first@).reverse().map_values(|p: (Seq<char>, i64)| p.0),
            match first_activity {
                Some(f) => Some(f@),
                None => None,
            },
            today,
        ),
{
    let ghost pv = prices_view(prices_newest_first@);
    let n = prices_newest_first.len();
    let mut data: Vec<PriceChartData> = Vec::new();
    let mut dates: Vec<String> = Vec::new();
    let mut k: usize = 0;
    while k < n
        invariant
            n == prices_newest_first@.len(),
            pv == prices_view(prices_newest_first@),
            k <= n,
            chart_view(data@) == pv.reverse().take(k as int),
            texts(dates@) == pv.reverse().take(k as int).map_values(|p: (Seq<char>, i64)| p.0),
        decreases n - k,
    {
        let (d, c) = (&prices_newest_first[n - 1 - k].0, prices_newest_first[n - 1 - k].1);
        let ghost before = chart_view(data@);
        let ghost bd = texts(dates@);
        data.push(PriceChartData { date: d.clone(), price_cents: c });
        dates.push(d.clone());
        assert(pv.reverse()[k as int] == pv[n - 1 - k]);
        assert(chart_view(data@) =~= before.push((d@, c)));
        assert(chart_view(data@) =~= pv.reverse().take(k + 1));
        assert(texts(dates@) =~= bd.push(d@));
        assert(texts(dates@) =~= pv.reverse().take(k + 1).map_values(|p: (Seq<char>, i64)| p.0));
        k += 1;
    }
    assert(pv.reverse().take(n as int) =~= pv.reverse());
    let missing = calculate_missing_ranges(&dates, first_activity, today);
    PriceChartResponse { symbol: symbol.clone(), data, missing_ranges: missing }
}

// ---------------------------------------------------------------------------
// Coverage of the held symbols
// ---------------------------------------------------------------------------

/// How much price history a held symbol has.
#[derive(Debug, Clone)]
pub struct SymbolDataCoverage {
    pub symbol: String,
    pub currency: String,
    pub first_activity_date: String,
    pub last_activity_date: String,
    pub first_data_date: Option<String>,
    pub last_data_date: Option<String>,
    pub data_points: i64,
    pub missing_days: i64,
    pub has_current_price: bool,
}

/// Most days the newest price may lie behind today and still count as
/// current (weekends and holidays).
pub const CURRENT_PRICE_SLACK_DAYS: i64 = 3;

/// Whether the newest price, dated `last`, is current on `today`: dated
/// today or later (as text), or at most three days old.
pub open spec fn price_is_current(last: Option<Seq<char>>, today: Seq<char>) -> bool {
    match last {
        None => false,
        Some(d) => !lex_lt(d, today) || match (parsed_iso_date(d), parsed_iso_date(today)) {
            (Some(l), Some(n)) => n.day_number() - l.day_number() <= CURRENT_PRICE_SLACK_DAYS,
            _ => false,
        },
    }
}

/// `x / 7`, rounded toward zero.
pub open spec fn div7_toward_zero(x: int) -> int {
    if x >= 0 {
        x / 7
    } else {
        -((-x) / 7)
    }
}

/// The trading days expected between the first activity and today (five
/// in every seven days, rounded toward zero); zero when either date does
/// not read.
pub open spec fn expected_trading_days(first_activity: Seq<char>, today: Seq<char>) -> Option<int> {
    match (parsed_iso_date(first_activity), parsed_iso_date(today)) {
        (Some(f), Some(n)) => Some(div7_toward_zero((n.day_number() - f.day_number()) * 5)),
        _ => None,
    }
}

/// The estimated number of missing daily prices.
pub open spec fn missing_days_estimate(first_activity: Seq<char>, data_points: int, today: Seq<char>) -> int {
    match expected_trading_days(first_activity, today) {
        Some(t) => if t - data_points > 0 {
            t - data_points
        } else {
            0
        },
        None => 0,
    }
}

fn within_slack(last: &String, today: &String) -> (res: bool)
    ensures
        res == match (parsed_iso_date(last@), parsed_iso_date(today@)) {
            (Some(l), Some(n)) => n.day_number() - l.day_number() <= CURRENT_PRICE_SLACK_DAYS,
            _ => false,
        },
{
    match (parse_iso_date(last.as_str()), parse_iso_date(today.as_str())) {
        (Some(l), Some(n)) => days_between(l, n) <= CURRENT_PRICE_SLACK_DAYS,
        _ => false,
    }
}

fn expected_days(first_activity: &String, today: &String) -> (res: Option<i64>)
    ensures
        match expected_trading_days(first_activity@, today@) {
            Some(t) => res matches Some(r) && r == t && -200000000 < t < 200000000,
            None => res is None,
        },
{
    match (parse_iso_date(first_activity.as_str()), parse_iso_date(today.as_str())) {
        (Some(f), Some(n)) => {
            proof {
                lemma_day_number_bounds(f);
                lemma_day_number_bounds(n);
            }
            let total = days_between(f, n) * 5;
            assert(total == (n.day_number() - f.day_number()) * 5);
            if total >= 0 {
                Some(total / 7)
            } else {
                Some(-((-total) / 7))
            }
        },
        _ => None,
    }
}

/// The coverage of one held symbol from what the store lists for it: its
/// currency, the dates of its first and last activity, of its first and
/// last price, and the number of prices (a count, so never negative).
/// `today` is the current date as `YYYY-MM-DD`.
pub fn symbol_coverage(
    symbol: String,
    currency: String,
    first_activity_date: String,
    last_activity_date: String,
    first_data_date: Option<String>,
    last_data_date: Option<String>,
    data_points: i64,
    today: &String,
) -> (res: SymbolDataCoverage)
    requires
        data_points >= 0,
    ensures
        res.symbol == symbol,
        res.currency == currency,
        res.first_activity_date == first_activity_date,
        res.last_activity_date == last_activity_date,
        res.first_data_date == first_data_date,
        res.last_data_date == last_data_date,
        res.data_points == data_points,
        res.has_current_price == price_is_current(
            match last_data_date {
                Some(d) => Some(d@),
                None => None,
            },
            today@,
        ),
        res.missing_days == missing_days_estimate(first_activity_date@, data_points as int, today@),
{
    let has_current_price = match &last_data_date {
        Some(d) => !str_lt(d, today) || within_slack(d, today),
        None => false,
    };
    let expected = expected_days(&first_activity_date, today);
    let missing_days = match expected {
        Some(t) => if (t as i128) - (data_points as i128) > 0 {
            t - data_points
        } else {
            0
        },
        None => 0,
    };
    SymbolDataCoverage {
        symbol,
        currency,
        first_activity_date,
        last_activity_date,
        first_data_date,
        last_data_date,
        data_points,
        missing_days,
        has_current_price,
    }
}

} // verus!

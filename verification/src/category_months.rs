//! Spending per month for chosen categories: the bar chart of the
//! analytics page.

use vstd::prelude::*;
use crate::analytics::{all_months_in_range, month_cut_ok, month_of, month_prefix, months_in_range};
use crate::category_tree::{amounts_of, contains_id, find_last, last_with_id, TreeTransaction};
use crate::models::Category;
use crate::numbers::{parse_i64, parsed_i64};
use crate::sorting::{lemma_sorted_len, sort_by_key, stable_sorted};
use crate::tally::{abs_total, ascending, has_key, items_view, lemma_sum_step, sum_for, tally, texts_view};
use crate::text::{chars_of, string_from_chars, trim_chars, trim_ws};

verus! {

// ---------------------------------------------------------------------------
// The chosen category ids
// ---------------------------------------------------------------------------

/// The pieces of `s` between commas (`str::split(',')`).
pub open spec fn split_commas(s: Seq<char>) -> Seq<Seq<char>>
    decreases s.len(),
{
    if s.len() == 0 {
        seq![seq![]]
    } else {
        let r = split_commas(s.drop_last());
        if s.last() == ',' {
            r.push(seq![])
        } else {
            r.update(r.len() - 1, r.last().push(s.last()))
        }
    }
}

/// The pieces that, trimmed, read as an `i64`, read.
pub open spec fn parsed_pieces(ps: Seq<Seq<char>>) -> Seq<i64>
    decreases ps.len(),
{
    if ps.len() == 0 {
        seq![]
    } else {
        let r = parsed_pieces(ps.drop_last());
        match parsed_i64(trim_ws(ps.last())) {
            Some(v) => r.push(v),
            None => r,
        }
    }
}

/// Each value once, where it first occurs.
pub open spec fn distinct(xs: Seq<i64>) -> Seq<i64>
    decreases xs.len(),
{
    if xs.len() == 0 {
        seq![]
    } else {
        let r = distinct(xs.drop_last());
        if r.contains(xs.last()) {
            r
        } else {
            r.push(xs.last())
        }
    }
}

/// The ids in a comma-separated list, each once, in order; pieces that
/// are not integers are skipped.
pub open spec fn listed_ids(s: Seq<char>) -> Seq<i64> {
    distinct(parsed_pieces(split_commas(s)))
}

/// No id is listed twice.
pub proof fn lemma_distinct_unique(xs: Seq<i64>)
    ensures
        distinct(xs).no_duplicates(),
        forall|v: i64| distinct(xs).contains(v) <==> xs.contains(v),
    decreases xs.len(),
{
    if xs.len() > 0 {
        let p = xs.drop_last();
        lemma_distinct_unique(p);
        let r = distinct(p);
        assert forall|v: i64| distinct(xs).contains(v) <==> xs.contains(v) by {
            if xs.contains(v) && v != xs.last() {
                let i = choose|i: int| 0 <= i < xs.len() && xs[i] == v;
                assert(p[i] == v);
            }
            if p.contains(v) {
                let i = choose|i: int| 0 <= i < p.len() && p[i] == v;
                assert(xs[i] == v);
            }
            if !r.contains(xs.last()) {
                if r.push(xs.last()).contains(v) {
                    let i = choose|i: int| 0 <= i < r.push(xs.last()).len() && r.push(xs.last())[i] == v;
                    if i < r.len() {
                        assert(r[i] == v);
                    }
                }
                if v == xs.last() {
                    assert(r.push(xs.last())[r.len() as int] == v);
                }
                if r.contains(v) {
                    let i = choose|i: int| 0 <= i < r.len() && r[i] == v;
                    assert(r.push(xs.last())[i] == v);
                }
            }
            assert(xs[xs.len() - 1] == xs.last());
        }
    }
}

proof fn lemma_split_len(s: Seq<char>)
    ensures
        split_commas(s).len() >= 1,
    decreases s.len(),
{
    if s.len() > 0 {
        lemma_split_len(s.drop_last());
    }
}

proof fn lemma_listed_step(done: Seq<Seq<char>>, piece: Seq<char>)
    ensures
        distinct(parsed_pieces(done.push(piece))) == (match parsed_i64(trim_ws(piece)) {
            Some(v) => if distinct(parsed_pieces(done)).contains(v) {
                distinct(parsed_pieces(done))
            } else {
                distinct(parsed_pieces(done)).push(v)
            },
            None => distinct(parsed_pieces(done)),
        }),
{
    assert(done.push(piece).drop_last() =~= done);
    let x = parsed_pieces(done);
    match parsed_i64(trim_ws(piece)) {
        Some(v) => {
            assert(x.push(v).drop_last() =~= x);
        },
        None => {},
    }
}

/// Adds the id a piece reads as, unless it is there already.
fn add_piece(out: &mut Vec<i64>, piece: &Vec<char>)
    ensures
        final(out)@ == (match parsed_i64(trim_ws(piece@)) {
            Some(v) => if old(out)@.contains(v) {
                old(out)@
            } else {
                old(out)@.push(v)
            },
            None => old(out)@,
        }),
{
    let t = trim_chars(piece);
    let s = string_from_chars(&t);
    match parse_i64(s.as_str()) {
        Some(v) => {
            let mut i: usize = 0;
            while i < out.len()
                invariant
                    i <= out@.len(),
                    out@ == old(out)@,
                    parsed_i64(trim_ws(piece@)) == Some(v),
                    forall|k: int| 0 <= k < i ==> out@[k] != v,
                decreases out@.len() - i,
            {
                if out[i] == v {
                    assert(old(out)@[i as int] == v);
                    return;
                }
                i += 1;
            }
            out.push(v);
        },
        None => {},
    }
}

/// The category ids of a comma-separated list (see `listed_ids`).
pub fn parse_category_ids(s: &str) -> (res: Vec<i64>)
    ensures
        res@ == listed_ids(s@),
        res@.no_duplicates(),
{
    let cs = chars_of(s);
    let mut out: Vec<i64> = Vec::new();
    let mut cur: Vec<char> = Vec::new();
    let ghost mut done: Seq<Seq<char>> = seq![];
    let mut i: usize = 0;
    while i < cs.len()
        invariant
            i <= cs@.len(),
            cs@ == s@,
            split_commas(cs@.take(i as int)) == done.push(cur@),
            out@ == distinct(parsed_pieces(done)),
        decreases cs@.len() - i,
    {
        let ghost pre = cs@.take(i as int);
        assert(cs@.take(i + 1).drop_last() =~= pre);
        assert(cs@.take(i + 1).last() == cs@[i as int]);
        if cs[i] == ',' {
            proof {
                lemma_listed_step(done, cur@);
            }
            add_piece(&mut out, &cur);
            proof {
                assert(done.push(cur@).drop_last() =~= done);
                done = done.push(cur@);
            }
            cur = Vec::new();
            assert(split_commas(cs@.take(i + 1)) =~= done.push(cur@));
        } else {
            let ghost before = cur@;
            cur.push(cs[i]);
            assert(split_commas(cs@.take(i + 1)) =~= done.push(cur@)) by {
                let r = split_commas(pre);
                assert(r == done.push(before));
                assert(r.last() == before);
            }
        }
        i += 1;
    }
    proof {
        lemma_listed_step(done, cur@);
    }
    add_piece(&mut out, &cur);
    assert(cs@.take(cs@.len() as int) =~= cs@);
    assert(done.push(cur@).drop_last() =~= done);
    proof {
        lemma_distinct_unique(parsed_pieces(split_commas(s@)));
    }
    out
}

// ---------------------------------------------------------------------------
// Monthly spending per category
// ---------------------------------------------------------------------------

#[derive(Debug, Clone)]
pub struct MonthlyByCategoryParams {
    pub from_date: Option<String>,
    pub to_date: Option<String>,
    /// Comma-separated category ids.
    pub category_ids: Option<String>,
}

#[derive(Debug, Clone)]
pub struct MonthlyCategorySeries {
    pub category: String,
    pub color: String,
    /// Spending per month, aligned with the response's months.
    pub totals: Vec<i64>,
}

#[derive(Debug)]
pub struct MonthlyByCategoryResponse {
    pub months: Vec<String>,
    pub series: Vec<MonthlyCategorySeries>,
}

/// A series as data.
pub struct SeriesView {
    pub category: Seq<char>,
    pub color: Seq<char>,
    pub totals: Seq<i64>,
}

pub open spec fn series_view(s: MonthlyCategorySeries) -> SeriesView {
    SeriesView { category: s.category@, color: s.color@, totals: s.totals@ }
}

pub open spec fn text_or_empty(o: Option<String>) -> Seq<char> {
    match o {
        Some(s) => s@,
        None => seq![],
    }
}

/// The (month, amount) pairs of the transactions of category `id` whose
/// date has a month.
pub open spec fn cat_month_items(txns: Seq<TreeTransaction>, id: i64) -> Seq<(Seq<char>, i64)>
    decreases txns.len(),
{
    if txns.len() == 0 {
        seq![]
    } else {
        let r = cat_month_items(txns.drop_last(), id);
        let t = txns.last();
        match month_of(t.date@) {
            Some(m) => if t.category_id == Some(id) {
                r.push((m, t.amount_cents))
            } else {
                r
            },
            None => r,
        }
    }
}

/// The same for the transactions of any of `ids`.
pub open spec fn chosen_month_items(txns: Seq<TreeTransaction>, ids: Seq<i64>) -> Seq<(Seq<char>, i64)>
    decreases txns.len(),
{
    if txns.len() == 0 {
        seq![]
    } else {
        let r = chosen_month_items(txns.drop_last(), ids);
        let t = txns.last();
        match (month_of(t.date@), t.category_id) {
            (Some(m), Some(id)) => if ids.contains(id) {
                r.push((m, t.amount_cents))
            } else {
                r
            },
            _ => r,
        }
    }
}

/// The months of the requested range, when both ends are given.
pub open spec fn seed_months(from: Option<String>, to: Option<String>) -> Seq<Seq<char>> {
    match (from, to) {
        (Some(f), Some(t)) => months_in_range(f@, t@),
        _ => seq![],
    }
}

/// A net amount as spending: its negation when negative, else 0.
pub open spec fn spent(x: int) -> int {
    if x < 0 {
        -x
    } else {
        0
    }
}

pub open spec fn month_totals(months: Seq<Seq<char>>, items: Seq<(Seq<char>, i64)>) -> Seq<i64> {
    months.map_values(|m: Seq<char>| spent(sum_for(items, m)) as i64)
}

pub open spec fn seq_sum(s: Seq<i64>) -> int
    decreases s.len(),
{
    if s.len() == 0 {
        0
    } else {
        seq_sum(s.drop_last()) + s.last()
    }
}

/// The series of the chosen ids, in order, that name a category and
/// have spending in some month, each keyed by its total.
pub open spec fn candidates(
    ids: Seq<i64>,
    cats: Seq<Category>,
    txns: Seq<TreeTransaction>,
    months: Seq<Seq<char>>,
) -> Seq<(i64, SeriesView)>
    decreases ids.len(),
{
    if ids.len() == 0 {
        seq![]
    } else {
        let r = candidates(ids.drop_last(), cats, txns, months);
        let id = ids.last();
        match last_with_id(cats, id) {
            Some(ci) => {
                let t = month_totals(months, cat_month_items(txns, id));
                if exists|i: int| 0 <= i < t.len() && t[i] != 0 {
                    r.push((seq_sum(t) as i64, SeriesView { category: cats[ci].name@, color: cats[ci].color@, totals: t }))
                } else {
                    r
                }
            },
            None => r,
        }
    }
}

/// A series holds one total per month, none negative, some positive.
pub open spec fn well_shaped(t: Seq<i64>, months: nat) -> bool {
    &&& t.len() == months
    &&& forall|k: int| 0 <= k < t.len() ==> t[k] >= 0
    &&& exists|k: int| 0 <= k < t.len() && t[k] > 0
}

/// Every net total of a chosen category in a month is an `i64` whose
/// negation is one too.
pub open spec fn month_sums_fit(txns: Seq<TreeTransaction>, ids: Seq<i64>) -> bool {
    forall|id: i64, m: Seq<char>|
        ids.contains(id) ==> i64::MIN < #[trigger] sum_for(cat_month_items(txns, id), m) <= i64::MAX
}

proof fn lemma_candidates_shape(ids: Seq<i64>, cats: Seq<Category>, txns: Seq<TreeTransaction>, months: Seq<Seq<char>>)
    requires
        month_sums_fit(txns, ids),
    ensures
        forall|i: int|
            0 <= i < candidates(ids, cats, txns, months).len() ==> well_shaped(
                (#[trigger] candidates(ids, cats, txns, months)[i]).1.totals,
                months.len(),
            ),
    decreases ids.len(),
{
    if ids.len() > 0 {
        let p = ids.drop_last();
        assert forall|id: i64, m: Seq<char>| p.contains(id) implies i64::MIN < #[trigger] sum_for(
            cat_month_items(txns, id),
            m,
        ) <= i64::MAX by {
            let q = choose|q: int| 0 <= q < p.len() && p[q] == id;
            assert(ids[q] == id);
        }
        lemma_candidates_shape(p, cats, txns, months);
        let id = ids.last();
        let r = candidates(p, cats, txns, months);
        let all = candidates(ids, cats, txns, months);
        let items = cat_month_items(txns, id);
        let t = month_totals(months, items);
        assert(ids.contains(id)) by {
            assert(ids[ids.len() - 1] == id);
        }
        assert forall|k: int| 0 <= k < t.len() implies t[k] >= 0 by {
            assert(i64::MIN < sum_for(items, months[k]) <= i64::MAX);
        }
        assert forall|i: int| 0 <= i < all.len() implies well_shaped((#[trigger] all[i]).1.totals, months.len()) by {
            if i < r.len() {
                assert(all[i] == r[i]);
            } else {
                assert(all[i].1.totals == t);
                let k = choose|k: int| 0 <= k < t.len() && t[k] != 0;
                assert(t[k] > 0);
            }
        }
    }
}

proof fn lemma_chosen_items_len(txns: Seq<TreeTransaction>, ids: Seq<i64>)
    ensures
        chosen_month_items(txns, ids).len() <= txns.len(),
    decreases txns.len(),
{
    if txns.len() > 0 {
        lemma_chosen_items_len(txns.drop_last(), ids);
    }
}

/// The (month, amount) pairs of `txns` in category `id` (`Some(id)`) or
/// in any of `ids` (`None`).
fn month_items(txns: &Vec<TreeTransaction>, one: Option<i64>, ids: &Vec<i64>) -> (res: Vec<(String, i64)>)
    ensures
        items_view(res@) == match one {
            Some(id) => cat_month_items(txns@, id),
            None => chosen_month_items(txns@, ids@),
        },
{
    let ghost want = match one {
        Some(id) => cat_month_items(txns@, id),
        None => chosen_month_items(txns@, ids@),
    };
    let mut out: Vec<(String, i64)> = Vec::new();
    let mut i: usize = 0;
    while i < txns.len()
        invariant
            i <= txns@.len(),
            items_view(out@) == match one {
                Some(id) => cat_month_items(txns@.take(i as int), id),
                None => chosen_month_items(txns@.take(i as int), ids@),
            },
        decreases txns@.len() - i,
    {
        let ghost pre = txns@.take(i as int);
        assert(txns@.take(i + 1).drop_last() =~= pre);
        assert(txns@.take(i + 1).last() == txns@[i as int]);
        let t = &txns[i];
        let wanted = match (one, t.category_id) {
            (Some(id), Some(c)) => c == id,
            (None, Some(c)) => contains_id(ids, c),
            _ => false,
        };
        match month_prefix(&t.date) {
            Some(m) => {
                if wanted {
                    let ghost before = items_view(out@);
                    out.push((m, t.amount_cents));
                    assert(items_view(out@) =~= before.push((m@, t.amount_cents)));
                }
            },
            None => {},
        }
        i += 1;
    }
    assert(txns@.take(txns@.len() as int) =~= txns@);
    out
}

/// The sum of the amounts recorded under `key`.
fn sum_under(items: &Vec<(String, i64)>, key: &String) -> (res: i64)
    requires
        i64::MIN <= sum_for(items_view(items@), key@) <= i64::MAX,
    ensures
        res as int == sum_for(items_view(items@), key@),
{
    let ghost iv = items_view(items@);
    let mut acc: i128 = 0;
    let n = items.len();
    let mut j: usize = 0;
    while j < n
        invariant
            j <= items@.len(),
            n == items@.len(),
            iv == items_view(items@),
            acc as int == sum_for(iv.take(j as int), key@),
        decreases items@.len() - j,
    {
        proof {
            lemma_sum_step(iv, j as int, key@);
            lemma_sum_len_bound(iv.take(j as int), key@);
        }
        if items[j].0 == *key {
            acc = acc + items[j].1 as i128;
        }
        j += 1;
    }
    assert(iv.take(iv.len() as int) =~= iv);
    acc as i64
}

proof fn lemma_sum_len_bound(items: Seq<(Seq<char>, i64)>, k: Seq<char>)
    ensures
        -(items.len() * 0x8000_0000_0000_0000) <= sum_for(items, k) <= items.len() * 0x7fff_ffff_ffff_ffff,
    decreases items.len(),
{
    if items.len() > 0 {
        lemma_sum_len_bound(items.drop_last(), k);
    }
}

/// The same items with every amount 0.
fn zero_amounts(items: &Vec<(String, i64)>) -> (res: Vec<(String, i64)>)
    ensures
        items_view(res@) == items_view(items@).map_values(|p: (Seq<char>, i64)| (p.0, 0i64)),
        abs_total(items_view(res@)) == 0,
{
    let mut out: Vec<(String, i64)> = Vec::new();
    let mut j: usize = 0;
    while j < items.len()
        invariant
            j <= items@.len(),
            items_view(out@) == items_view(items@).take(j as int).map_values(|p: (Seq<char>, i64)| (p.0, 0i64)),
            abs_total(items_view(out@)) == 0,
        decreases items@.len() - j,
    {
        let ghost before = items_view(out@);
        out.push((items[j].0.clone(), 0));
        assert(items_view(out@) =~= before.push((items@[j as int].0@, 0i64)));
        assert(items_view(out@).drop_last() =~= before);
        assert(items_view(out@) =~= items_view(items@).take(j + 1).map_values(|p: (Seq<char>, i64)| (p.0, 0i64)));
        j += 1;
    }
    assert(items_view(items@).take(items@.len() as int) =~= items_view(items@));
    out
}

/// Spending per month of the chosen categories (the month of a date is
/// its first seven bytes, which must end on a character boundary, as they
/// do in `YYYY-MM-DD`): the months of the
/// requested range (when both ends are given) and of the chosen
/// categories' transactions, ascending; and for each chosen category with
/// spending, its net spending per month (0 for months with a net gain),
/// series ordered by their total, largest first. Empty when no id is
/// chosen.
#[verifier::spinoff_prover]
#[verifier::rlimit(30)]
pub fn monthly_by_category(
    params: &MonthlyByCategoryParams,
    txns: &Vec<TreeTransaction>,
    cats: &Vec<Category>,
) -> (res: MonthlyByCategoryResponse)
    requires
        month_sums_fit(txns@, listed_ids(text_or_empty(params.category_ids))),
        txns@.len() <= i64::MAX,
        forall|i: int|
            0 <= i < txns@.len() ==> (#[trigger] txns@[i].category_id matches Some(c) && listed_ids(
                text_or_empty(params.category_ids),
            ).contains(c)) ==> month_cut_ok(txns@[i].date@),
    ensures
        ({
            let ids = listed_ids(text_or_empty(params.category_ids));
            if ids.len() == 0 {
                res.months@.len() == 0 && res.series@.len() == 0
            } else {
                let months = texts_view(res.months@);
                &&& ascending(months)
                &&& forall|k: Seq<char>|
                    #[trigger] months.contains(k) <==> (seed_months(params.from_date, params.to_date).contains(k)
                        || has_key(chosen_month_items(txns@, ids), k))
                &&& res.series@.map_values(|s: MonthlyCategorySeries| series_view(s)) == stable_sorted(
                    candidates(ids, cats@, txns@, months),
                    true,
                ).map_values(|p: (i64, SeriesView)| p.1)
                &&& forall|i: int|
                    0 <= i < res.series@.len() ==> well_shaped((#[trigger] res.series@[i]).totals@, months.len())
            }
        }),
{
    let ids = match &params.category_ids {
        Some(s) => parse_category_ids(s.as_str()),
        None => parse_category_ids(""),
    };
    proof {
        reveal_strlit("");
    }
    assert(ids@ == listed_ids(text_or_empty(params.category_ids)));
    if ids.len() == 0 {
        return MonthlyByCategoryResponse { months: Vec::new(), series: Vec::new() };
    }
    let seeds: Vec<String> = match (&params.from_date, &params.to_date) {
        (Some(f), Some(t)) => all_months_in_range(f.as_str(), t.as_str()),
        _ => Vec::new(),
    };
    assert(texts_view(seeds@) == seed_months(params.from_date, params.to_date));
    let chosen = month_items(txns, None, &ids);
    proof {
        lemma_chosen_items_len(txns@, ids@);
    }
    let zeroed = zero_amounts(&chosen);
    let t = tally(&seeds, &zeroed);
    proof {
        let cv = items_view(chosen@);
        let zv = items_view(zeroed@);
        assert forall|k: Seq<char>| has_key(zv, k) <==> has_key(cv, k) by {
            if has_key(zv, k) {
                let j = choose|j: int| 0 <= j < zv.len() && (#[trigger] zv[j]).0 == k;
                assert(cv[j].0 == k);
            }
            if has_key(cv, k) {
                let j = choose|j: int| 0 <= j < cv.len() && (#[trigger] cv[j]).0 == k;
                assert(zv[j].0 == k);
            }
        }
    }
    let mut months: Vec<String> = Vec::new();
    let mut k: usize = 0;
    while k < t.len()
        invariant
            k <= t@.len(),
            months@.len() == k,
            texts_view(months@) == crate::tally::tally_view(t@).take(k as int).map_values(
                |e: (Seq<char>, i64, i64)| e.0,
            ),
        decreases t@.len() - k,
    {
        let ghost before = texts_view(months@);
        let ghost bm = months@;
        months.push(t[k].0.clone());
        assert forall|q: int| 0 <= q <= k implies #[trigger] texts_view(months@)[q] == crate::tally::tally_view(t@).take(k + 1).map_values(
            |e: (Seq<char>, i64, i64)| e.0,
        )[q] by {
            if q < k {
                assert(months@[q] == bm[q]);
                assert(before[q] == crate::tally::tally_view(t@).take(k as int).map_values(|e: (Seq<char>, i64, i64)| e.0)[q]);
            } else {
                assert(months@[q] == t@[q].0);
            }
        }
        assert(texts_view(months@) =~= crate::tally::tally_view(t@).take(k + 1).map_values(
            |e: (Seq<char>, i64, i64)| e.0,
        ));
        k += 1;
    }
    assert(crate::tally::tally_view(t@).take(t@.len() as int) =~= crate::tally::tally_view(t@));
    let ghost mv = texts_view(months@);

    // one candidate series per chosen category with spending
    let mut cands: Vec<(i64, MonthlyCategorySeries)> = Vec::new();
    let ghost f = |s: MonthlyCategorySeries| series_view(s);
    let mut c: usize = 0;
    while c < ids.len()
        invariant
            c <= ids@.len(),
            mv == texts_view(months@),
            month_sums_fit(txns@, ids@),
            f == (|s: MonthlyCategorySeries| series_view(s)),
            crate::sorting::relabel(cands@, f) == candidates(ids@.take(c as int), cats@, txns@, mv),
        decreases ids@.len() - c,
    {
        let ghost pre = ids@.take(c as int);
        assert(ids@.take(c + 1).drop_last() =~= pre);
        assert(ids@.take(c + 1).last() == ids@[c as int]);
        let id = ids[c];
        match find_last(cats, id) {
            None => {},
            Some(ci) => {
                let items = month_items(txns, Some(id), &ids);
                proof {
                    assert(ids@.contains(id)) by {
                        assert(ids@[c as int] == id);
                    }
                }
                let ghost iv = items_view(items@);
                let mut totals: Vec<i64> = Vec::new();
                let mut any = false;
                let mut sum: i128 = 0;
                let mut m: usize = 0;
                while m < months.len()
                    invariant
                        m <= months@.len(),
                        mv == texts_view(months@),
                        iv == items_view(items@),
                        iv == cat_month_items(txns@, id),
                        ids@.contains(id),
                        month_sums_fit(txns@, ids@),
                        totals@ == month_totals(mv.take(m as int), iv),
                        any ==> totals@.len() > 0 && exists|i: int| 0 <= i < m && totals@[i] != 0,
                        !any ==> forall|i: int| 0 <= i < m ==> totals@[i] == 0,
                        sum == seq_sum(totals@),
                        0 <= sum <= i64::MAX * m,
                    decreases months@.len() - m,
                {
                    proof {
                        assert(i64::MIN < sum_for(cat_month_items(txns@, id), mv[m as int]) <= i64::MAX);
                    }
                    let raw = sum_under(&items, &months[m]);
                    let v: i64 = if raw < 0 {
                        -raw
                    } else {
                        0
                    };
                    let ghost before = totals@;
                    totals.push(v);
                    assert(totals@.drop_last() =~= before);
                    assert(totals@ =~= month_totals(mv.take(m + 1), iv));
                    if v != 0 {
                        any = true;
                        assert(totals@[m as int] != 0);
                    } else {
                        assert forall|i: int| 0 <= i < m + 1 implies totals@[i] == 0 || any by {
                            if i < m {
                                assert(totals@[i] == before[i]);
                            }
                        }
                    }
                    proof {
                        if any && v == 0 {
                            let w = choose|i: int| 0 <= i < m && before[i] != 0;
                            assert(totals@[w] == before[w]);
                        }
                    }
                    assert(m < 0x1_0000_0000_0000_0000);
                    sum = sum + v as i128;
                    m += 1;
                }
                assert(mv.take(mv.len() as int) =~= mv);
                if any {
                    let cat = &cats[ci];
                    let key = #[verifier::truncate] (sum as i64);
                    let ghost before = cands@;
                    cands.push(
                        (key, MonthlyCategorySeries { category: cat.name.clone(), color: cat.color.clone(), totals }),
                    );
                    assert(crate::sorting::relabel(cands@, f) =~= crate::sorting::relabel(before, f).push(
                        (key, series_view(cands@.last().1)),
                    ));
                }
            },
        }
        c += 1;
    }
    assert(ids@.take(ids@.len() as int) =~= ids@);
    let ghost cv = cands@;
    let sorted = sort_by_key(cands, true);
    proof {
        crate::sorting::lemma_sorted_relabel(cv, true, f);
        lemma_sorted_len(cv, true);
    }
    let mut series: Vec<MonthlyCategorySeries> = Vec::new();
    let mut rest = sorted;
    let ghost sv = rest@;
    let mut rev: Vec<MonthlyCategorySeries> = Vec::new();
    while rest.len() > 0
        invariant
            rest@ == sv.take(rest@.len() as int),
            rest@.len() <= sv.len(),
            rev@.len() == sv.len() - rest@.len(),
            forall|t: int| 0 <= t < rev@.len() ==> #[trigger] rev@[t] == sv[sv.len() - 1 - t].1,
        decreases rest@.len(),
    {
        let ghost k = rest@.len();
        let (_, n) = rest.pop().unwrap();
        assert(rest@ =~= sv.take(k - 1));
        rev.push(n);
    }
    while rev.len() > 0
        invariant
            rev@.len() + series@.len() == sv.len(),
            forall|t: int| 0 <= t < rev@.len() ==> #[trigger] rev@[t] == sv[sv.len() - 1 - t].1,
            forall|t: int| 0 <= t < series@.len() ==> #[trigger] series@[t] == sv[t].1,
        decreases rev@.len(),
    {
        let n = rev.pop().unwrap();
        series.push(n);
    }
    proof {
        let want = stable_sorted(candidates(ids@, cats@, txns@, mv), true).map_values(|p: (i64, SeriesView)| p.1);
        assert(crate::sorting::relabel(sv, f) == stable_sorted(candidates(ids@, cats@, txns@, mv), true));
        assert forall|t: int| 0 <= t < series@.len() implies #[trigger] series@.map_values(f)[t] == want[t] by {
            assert(crate::sorting::relabel(sv, f)[t] == (sv[t].0, f(sv[t].1)));
        }
        assert(series@.map_values(f) =~= want);
        let cs = candidates(ids@, cats@, txns@, mv);
        lemma_candidates_shape(ids@, cats@, txns@, mv);
        let p = |q: (i64, SeriesView)| well_shaped(q.1.totals, mv.len());
        assert forall|u: int| 0 <= u < cs.len() implies p(#[trigger] cs[u]) by {}
        crate::sorting::lemma_sorted_all(cs, true, p);
        assert forall|t: int| 0 <= t < series@.len() implies well_shaped((#[trigger] series@[t]).totals@, mv.len()) by {
            assert(series@.map_values(f)[t] == want[t]);
            assert(want[t] == stable_sorted(cs, true)[t].1);
            assert(p(stable_sorted(cs, true)[t]));
        }
    }
    MonthlyByCategoryResponse { months, series }
}

} // verus!

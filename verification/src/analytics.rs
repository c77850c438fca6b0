//! Spending analytics: category subtrees, month ranges, per-month and
//! per-day totals, and per-category monthly series.

use vstd::prelude::*;
use std::collections::HashSet;
use crate::models::Category;
use crate::calendar::{pad4, parse_iso_date, parsed_iso_date, push_pad4, Date};
use crate::filters::{decimal, pad2, pad3, push_decimal, push_pad2, push_pad3};
use crate::text::{chars_of, push_char, string_from_chars};
use crate::tally::{abs_total, count_for, is_tally, items_view, sum_for, tally, tally_view, texts_view};

verus! {

// ---------------------------------------------------------------------------
// Category subtrees
// ---------------------------------------------------------------------------

/// The ids of the categories whose parent is in `s`.
pub open spec fn child_ids(cats: Seq<Category>, s: Set<i64>) -> Set<i64> {
    Set::new(
        |c: i64|
            exists|i: int|
                0 <= i < cats.len() && #[trigger] cats[i].id == c && cats[i].parent_id is Some && s.contains(
                    cats[i].parent_id->0,
                ),
    )
}

/// The ids reachable from `root` by at most `k` parent-to-child steps.
pub open spec fn within(cats: Seq<Category>, root: i64, k: nat) -> Set<i64>
    decreases k,
{
    if k == 0 {
        set![root]
    } else {
        within(cats, root, (k - 1) as nat).union(child_ids(cats, within(cats, root, (k - 1) as nat)))
    }
}

/// A category and all its descendants (every descendant is reachable in
/// as many steps as there are categories).
pub open spec fn subtree(cats: Seq<Category>, root: i64) -> Set<i64> {
    within(cats, root, cats.len())
}

proof fn lemma_within_stable(cats: Seq<Category>, root: i64, r: nat, k: nat)
    requires
        within(cats, root, r + 1) == within(cats, root, r),
        r <= k,
    ensures
        within(cats, root, k) == within(cats, root, r),
    decreases k - r,
{
    if k > r {
        lemma_within_stable(cats, root, r, (k - 1) as nat);
    }
}

fn vec_contains(v: &Vec<i64>, x: i64) -> (res: bool)
    ensures
        res == v@.contains(x),
{
    let mut i: usize = 0;
    while i < v.len()
        invariant
            i <= v@.len(),
            forall|t: int| 0 <= t < i ==> v@[t] != x,
        decreases v@.len() - i,
    {
        if v[i] == x {
            assert(v@[i as int] == x);
            return true;
        }
        i += 1;
    }
    false
}

/// Some category among the first `n` has id `x` and its parent in `s`.
pub open spec fn child_before(cats: Seq<Category>, s: Set<i64>, n: int, x: i64) -> bool {
    exists|j: int| 0 <= j < n && is_child_at(cats, s, j, x)
}

pub open spec fn is_child_at(cats: Seq<Category>, s: Set<i64>, j: int, x: i64) -> bool {
    cats[j].id == x && cats[j].parent_id is Some && s.contains(cats[j].parent_id->0)
}

proof fn lemma_child_before_step(cats: Seq<Category>, s: Set<i64>, n: int, x: i64)
    requires
        0 <= n < cats.len(),
    ensures
        child_before(cats, s, n + 1, x) <==> (child_before(cats, s, n, x) || is_child_at(cats, s, n, x)),
{
    if child_before(cats, s, n + 1, x) {
        let j = choose|j: int| 0 <= j < n + 1 && is_child_at(cats, s, j, x);
        if j < n {
            assert(child_before(cats, s, n, x));
        }
    }
    if child_before(cats, s, n, x) {
        let j = choose|j: int| 0 <= j < n && is_child_at(cats, s, j, x);
        assert(0 <= j < n + 1 && is_child_at(cats, s, j, x));
    }
    if is_child_at(cats, s, n, x) {
        assert(0 <= n < n + 1 && is_child_at(cats, s, n, x));
    }
}

proof fn lemma_child_before_all(cats: Seq<Category>, s: Set<i64>, x: i64)
    ensures
        child_before(cats, s, cats.len() as int, x) <==> child_ids(cats, s).contains(x),
{
    if child_before(cats, s, cats.len() as int, x) {
        let j = choose|j: int| 0 <= j < cats.len() && is_child_at(cats, s, j, x);
        assert(cats[j].id == x);
    }
    if child_ids(cats, s).contains(x) {
        let j = choose|j: int|
            0 <= j < cats.len() && #[trigger] cats[j].id == x && cats[j].parent_id is Some && s.contains(
                cats[j].parent_id->0,
            );
        assert(is_child_at(cats, s, j, x));
    }
}

/// One round: adds the children of the current ids.
fn grow_round(cats: &Vec<Category>, ids: &Vec<i64>, ghost_set: Ghost<Set<i64>>) -> (res: (Vec<i64>, bool))
    requires
        forall|x: i64| ids@.contains(x) <==> ghost_set@.contains(x),
    ensures
        forall|x: i64| res.0@.contains(x) <==> ghost_set@.union(child_ids(cats@, ghost_set@)).contains(x),
        !res.1 ==> ghost_set@.union(child_ids(cats@, ghost_set@)) == ghost_set@,
{
    let ghost s = ghost_set@;
    let mut out: Vec<i64> = Vec::new();
    let mut t: usize = 0;
    while t < ids.len()
        invariant
            t <= ids@.len(),
            out@ == ids@.take(t as int),
        decreases ids@.len() - t,
    {
        out.push(ids[t]);
        assert(ids@.take(t + 1) =~= ids@.take(t as int).push(ids@[t as int]));
        t += 1;
    }
    assert(ids@.take(ids@.len() as int) =~= ids@);
    let mut changed = false;
    let mut i: usize = 0;
    while i < cats.len()
        invariant
            i <= cats@.len(),
            forall|x: i64| ids@.contains(x) <==> s.contains(x),
            forall|x: i64| #[trigger] out@.contains(x) <==> (s.contains(x) || child_before(cats@, s, i as int, x)),
            !changed ==> forall|x: i64| #[trigger] out@.contains(x) ==> s.contains(x),
        decreases cats@.len() - i,
    {
        let c = &cats[i];
        let ghost old_out = out@;
        let mut pushed = false;
        if let Some(p) = c.parent_id {
            if vec_contains(ids, p) && !vec_contains(&out, c.id) {
                out.push(c.id);
                changed = true;
                pushed = true;
            }
        }
        proof {
            assert forall|x: i64| #[trigger] out@.contains(x) <==> (s.contains(x) || child_before(cats@, s, i + 1, x)) by {
                lemma_child_before_step(cats@, s, i as int, x);
                if pushed {
                    assert(out@ == old_out.push(cats@[i as int].id));
                    if x == cats@[i as int].id {
                        assert(out@[old_out.len() as int] == x);
                    }
                    if out@.contains(x) && x != cats@[i as int].id {
                        let k = choose|k: int| 0 <= k < out@.len() && out@[k] == x;
                        assert(old_out[k] == x);
                    }
                    if old_out.contains(x) {
                        let k = choose|k: int| 0 <= k < old_out.len() && old_out[k] == x;
                        assert(out@[k] == x);
                    }
                } else {
                    assert(out@ == old_out);
                    if is_child_at(cats@, s, i as int, x) {
                        assert(old_out.contains(x));
                    }
                }
            }
        }
        i += 1;
    }
    proof {
        let target = s.union(child_ids(cats@, s));
        assert forall|x: i64| out@.contains(x) <==> target.contains(x) by {
            lemma_child_before_all(cats@, s, x);
        }
        if !changed {
            assert(target =~= s);
        }
    }
    (out, changed)
}

/// A category and all its descendants, as a list of ids.
pub(crate) fn subtree_id_list(root_id: i64, cats: &Vec<Category>) -> (res: Vec<i64>)
    ensures
        forall|x: i64| res@.contains(x) <==> subtree(cats@, root_id).contains(x),
{
    let mut ids: Vec<i64> = Vec::new();
    ids.push(root_id);
    let ghost mut r: nat = 0;
    assert(forall|x: i64| ids@.contains(x) <==> within(cats@, root_id, 0).contains(x)) by {
        assert forall|x: i64| ids@.contains(x) <==> within(cats@, root_id, 0).contains(x) by {
            if x == root_id {
                assert(ids@[0] == x);
            }
        }
    }
    let mut rounds: usize = 0;
    while rounds < cats.len()
        invariant
            rounds <= cats@.len(),
            r == rounds as nat,
            forall|x: i64| ids@.contains(x) <==> within(cats@, root_id, r).contains(x),
        decreases cats@.len() - rounds,
    {
        let (next, changed) = grow_round(cats, &ids, Ghost(within(cats@, root_id, r)));
        if !changed {
            proof {
                assert(within(cats@, root_id, r + 1) == within(cats@, root_id, r));
                lemma_within_stable(cats@, root_id, r, cats@.len());
            }
            return ids;
        }
        ids = next;
        rounds += 1;
        proof {
            r = r + 1;
        }
    }
    ids
}

/// The first built-in category named "Transfers", if any.
pub open spec fn transfers_index(cats: Seq<Category>) -> Option<int> {
    if exists|i: int| 0 <= i < cats.len() && cats[i].built_in && cats[i].name@ == "Transfers"@ {
        Some(
            choose|i: int|
                0 <= i < cats.len() && cats[i].built_in && cats[i].name@ == "Transfers"@ && forall|j: int|
                    0 <= j < i ==> !(cats[j].built_in && cats[j].name@ == "Transfers"@),
        )
    } else {
        None
    }
}

/// The Transfers subtree, which analytics leave out, as a list of ids.
pub(crate) fn transfers_excluded_list(cats: &Vec<Category>) -> (res: Vec<i64>)
    ensures
        match transfers_index(cats@) {
            Some(i) => forall|x: i64| res@.contains(x) <==> subtree(cats@, cats@[i].id).contains(x),
            None => res@.len() == 0,
        },
{
    let mut i: usize = 0;
    while i < cats.len()
        invariant
            i <= cats@.len(),
            forall|j: int| 0 <= j < i ==> !(cats@[j].built_in && cats@[j].name@ == "Transfers"@),
        decreases cats@.len() - i,
    {
        if cats[i].built_in && cats[i].name == String::from_str("Transfers") {
            proof {
                assert(cats@[i as int].built_in && cats@[i as int].name@ == "Transfers"@);
                let k = choose|k: int|
                    0 <= k < cats@.len() && cats@[k].built_in && cats@[k].name@ == "Transfers"@ && forall|j: int|
                        0 <= j < k ==> !(cats@[j].built_in && cats@[j].name@ == "Transfers"@);
                if k < i {
                } else if k > i {
                    assert(!(cats@[i as int].built_in && cats@[i as int].name@ == "Transfers"@));
                }
                assert(k == i);
            }
            return subtree_id_list(cats[i].id, cats);
        }
        i += 1;
    }
    Vec::new()
}

/// The ids of `v` as a set.
fn id_set(v: &Vec<i64>) -> (res: HashSet<i64>)
    ensures
        res@ == v@.to_set(),
{
    broadcast use vstd::std_specs::hash::group_hash_axioms;
    let mut out: HashSet<i64> = HashSet::new();
    let mut i: usize = 0;
    while i < v.len()
        invariant
            i <= v@.len(),
            out@ == v@.take(i as int).to_set(),
        decreases v@.len() - i,
    {
        out.insert(v[i]);
        assert(v@.take(i + 1) =~= v@.take(i as int).push(v@[i as int]));
        proof {
            v@.take(i as int).lemma_push_to_set_commute(v@[i as int]);
        }
        i += 1;
    }
    assert(v@.take(v@.len() as int) =~= v@);
    out
}

/// Collect a category and all its descendants into a set of ids.
pub fn collect_subtree_ids(root_id: i64, cats: &Vec<Category>) -> (res: HashSet<i64>)
    ensures
        res@ == subtree(cats@, root_id),
{
    let v = subtree_id_list(root_id, cats);
    let res = id_set(&v);
    assert(res@ =~= subtree(cats@, root_id));
    res
}

/// The Transfers subtree, which analytics leave out: the first built-in
/// category named "Transfers" and all its descendants; empty when there
/// is none.
pub fn transfers_excluded_ids(cats: &Vec<Category>) -> (res: HashSet<i64>)
    ensures
        res@ == match transfers_index(cats@) {
            Some(i) => subtree(cats@, cats@[i].id),
            None => Set::<i64>::empty(),
        },
{
    let v = transfers_excluded_list(cats);
    let res = id_set(&v);
    assert(res@ =~= match transfers_index(cats@) {
        Some(i) => subtree(cats@, cats@[i].id),
        None => Set::<i64>::empty(),
    });
    res
}

// ---------------------------------------------------------------------------
// Months of a date range
// ---------------------------------------------------------------------------

/// A year as `{:04}` writes it: zero padded to four characters, sign
/// included.
pub open spec fn year4_text(y: int) -> Seq<char> {
    if y >= 0 {
        if y < 10000 {
            pad4(y as nat)
        } else {
            decimal(y as nat)
        }
    } else {
        "-"@ + if -y < 1000 {
            pad3((-y) as nat)
        } else {
            decimal((-y) as nat)
        }
    }
}

/// `YYYY-MM` for month index `t` (months since year 0).
pub open spec fn month_key(t: int) -> Seq<char> {
    year4_text(t / 12) + "-"@ + pad2((t % 12 + 1) as nat)
}

/// The month keys from month index `a` to `b`, both included.
pub open spec fn month_keys(a: int, b: int) -> Seq<Seq<char>> {
    Seq::new((if b >= a { b - a + 1 } else { 0 }) as nat, |i: int| month_key(a + i))
}

pub open spec fn month_index(d: Date) -> int {
    d.year * 12 + d.month - 1
}

/// Every month between two `YYYY-MM-DD` dates (inclusive of the months
/// each date falls in); none when either date does not parse.
pub open spec fn months_in_range(from: Seq<char>, to: Seq<char>) -> Seq<Seq<char>> {
    match (parsed_iso_date(from), parsed_iso_date(to)) {
        (Some(f), Some(t)) => month_keys(month_index(f), month_index(t)),
        _ => seq![],
    }
}

fn push_year4(out: &mut String, y: i64)
    requires
        -1_000_000_000 < y < 1_000_000_000,
    ensures
        final(out)@ == old(out)@ + year4_text(y as int),
{
    if y >= 0 {
        if y < 10000 {
            push_pad4(out, y as u64);
        } else {
            push_decimal(out, y as u64);
        }
    } else {
        push_char(out, '-');
        let a = (-y) as u64;
        if a < 1000 {
            push_pad3(out, a);
        } else {
            push_decimal(out, a);
        }
        proof {
            reveal_strlit("-");
        }
        assert(final(out)@ =~= old(out)@ + year4_text(y as int));
    }
}

/// Generate all "YYYY-MM" strings for months between two "YYYY-MM-DD" date
/// strings (inclusive of the months each date falls in).
pub fn all_months_in_range(from_date: &str, to_date: &str) -> (res: Vec<String>)
    ensures
        res@.map_values(|s: String| s@) == months_in_range(from_date@, to_date@),
{
    let (f, t) = match (parse_iso_date(from_date), parse_iso_date(to_date)) {
        (Some(f), Some(t)) => (f, t),
        _ => {
            let v: Vec<String> = Vec::new();
            assert(v@.map_values(|s: String| s@) =~= Seq::<Seq<char>>::empty());
            return v;
        },
    };
    let a: i64 = f.year as i64 * 12 + f.month as i64 - 1;
    let b: i64 = t.year as i64 * 12 + t.month as i64 - 1;
    let ghost keys = month_keys(a as int, b as int);
    let mut out: Vec<String> = Vec::new();
    let mut idx: i64 = a;
    while idx <= b
        invariant
            a <= idx <= b + 1 || (idx == a && a > b),
            -4_000_000 < a < 4_000_000,
            -4_000_000 < b < 4_000_000,
            keys == month_keys(a as int, b as int),
            out@.map_values(|s: String| s@) == keys.take(idx - a),
        decreases b + 1 - idx,
    {
        let y = if idx >= 0 { idx / 12 } else { -((-idx + 11) / 12) };
        let m = idx - y * 12 + 1;
        assert(y == idx / 12 && m == idx % 12 + 1);
        let mut s = String::new();
        push_year4(&mut s, y);
        s.append("-");
        push_pad2(&mut s, m as u64);
        let ghost before = out@.map_values(|s: String| s@);
        out.push(s);
        assert(out@.map_values(|s: String| s@) =~= before.push(month_key(idx as int)));
        assert(keys.take(idx + 1 - a) =~= keys.take(idx - a).push(keys[idx - a]));
        idx += 1;
    }
    assert(keys.take(idx - a) =~= keys);
    out
}

// ---------------------------------------------------------------------------
// Totals per day and per month
// ---------------------------------------------------------------------------

#[derive(Debug, Clone)]
pub struct AnalyticsParams {
    pub from_date: Option<String>,
    pub to_date: Option<String>,
}

/// Spending of one day.
#[derive(Debug, Clone)]
pub struct TimeSeriesPoint {
    pub date: String,
    pub amount_cents: i64,
}

/// Totals of one month.
#[derive(Debug, Clone)]
pub struct MonthlySummary {
    pub month: String,
    pub total_cents: i64,
    pub transaction_count: i64,
    pub average_cents: i64,
}

/// Division rounding toward zero, as `/` does on `i64`.
pub open spec fn trunc_div(a: int, b: int) -> int {
    if a >= 0 {
        a / b
    } else {
        -((-a) / b)
    }
}

/// The totals per day of the given (date, amount) pairs, by ascending date.
pub fn daily_totals(txns: &Vec<(String, i64)>) -> (res: Vec<TimeSeriesPoint>)
    requires
        abs_total(items_view(txns@)) <= i64::MAX,
        txns@.len() <= i64::MAX,
    ensures
        exists|t: Seq<(Seq<char>, i64, i64)>|
            is_tally(Seq::<Seq<char>>::empty(), items_view(txns@), t) && t.len() == res@.len() && forall|i: int|
                0 <= i < t.len() ==> (#[trigger] res@[i]).date@ == t[i].0 && res@[i].amount_cents == t[i].1,
{
    let seeds: Vec<String> = Vec::new();
    let t = tally(&seeds, txns);
    assert(texts_view(seeds@) =~= Seq::<Seq<char>>::empty());
    let mut out: Vec<TimeSeriesPoint> = Vec::new();
    let mut i: usize = 0;
    while i < t.len()
        invariant
            i <= t@.len(),
            out@.len() == i,
            forall|k: int| 0 <= k < i ==> (#[trigger] out@[k]).date@ == tally_view(t@)[k].0 && out@[k].amount_cents
                == tally_view(t@)[k].1,
        decreases t@.len() - i,
    {
        out.push(TimeSeriesPoint { date: t[i].0.clone(), amount_cents: t[i].1 });
        i += 1;
    }
    out
}

/// The number of bytes UTF-8 takes for `c`.
pub open spec fn utf8_width(c: char) -> int {
    if (c as u32) < 0x80 {
        1
    } else if (c as u32) < 0x800 {
        2
    } else if (c as u32) < 0x10000 {
        3
    } else {
        4
    }
}

/// The number of bytes of `s` in UTF-8 (what `str::len` gives).
pub open spec fn utf8_len(s: Seq<char>) -> int
    decreases s.len(),
{
    if s.len() == 0 {
        0
    } else {
        utf8_width(s[0]) + utf8_len(s.drop_first())
    }
}

/// The leading characters of `s` that fit in its first `n` bytes.
pub open spec fn byte_prefix(s: Seq<char>, n: int) -> Seq<char>
    decreases s.len(),
{
    if s.len() > 0 && utf8_width(s[0]) <= n {
        seq![s[0]] + byte_prefix(s.drop_first(), n - utf8_width(s[0]))
    } else {
        seq![]
    }
}

/// The month (`YYYY-MM`) of a `YYYY-MM-DD` date: its first seven bytes,
/// when it has that many.
pub open spec fn month_of(date: Seq<char>) -> Option<Seq<char>> {
    if utf8_len(date) >= 7 {
        Some(byte_prefix(date, 7))
    } else {
        None
    }
}

/// The first seven bytes of `date`, when it has that many, end on a
/// character boundary (so they can be cut off as a month).
pub open spec fn month_cut_ok(date: Seq<char>) -> bool {
    utf8_len(date) >= 7 ==> utf8_len(byte_prefix(date, 7)) == 7
}

proof fn lemma_utf8_len_nonneg(s: Seq<char>)
    ensures
        utf8_len(s) >= 0,
    decreases s.len(),
{
    if s.len() > 0 {
        lemma_utf8_len_nonneg(s.drop_first());
    }
}

fn char_width(c: char) -> (res: usize)
    ensures
        res == utf8_width(c),
{
    let u = c as u32;
    if u < 0x80 {
        1
    } else if u < 0x800 {
        2
    } else if u < 0x10000 {
        3
    } else {
        4
    }
}

/// The month of a date, as `month_of` says.
pub(crate) fn month_prefix(date: &String) -> (res: Option<String>)
    ensures
        match res {
            Some(m) => month_of(date@) == Some(m@),
            None => month_of(date@) is None,
        },
{
    let cs = chars_of(date.as_str());
    let mut total: usize = 0;
    let mut i: usize = 0;
    assert(cs@.skip(0) =~= cs@);
    while i < cs.len() && total < 7
        invariant
            cs@ == date@,
            i <= cs@.len(),
            total <= 10,
            utf8_len(cs@) == total + utf8_len(cs@.skip(i as int)),
        decreases cs@.len() - i,
    {
        assert(cs@.skip(i as int).drop_first() =~= cs@.skip(i + 1));
        total = total + char_width(cs[i]);
        i += 1;
    }
    proof {
        lemma_utf8_len_nonneg(cs@.skip(i as int));
    }
    if total < 7 {
        assert(cs@.skip(i as int).len() == 0);
        return None;
    }
    let mut first: Vec<char> = Vec::new();
    let mut rem: usize = 7;
    let mut j: usize = 0;
    assert(cs@.take(0) + byte_prefix(cs@.skip(0), 7) =~= byte_prefix(cs@, 7));
    while j < cs.len() && char_width(cs[j]) <= rem
        invariant
            cs@ == date@,
            j <= cs@.len(),
            rem <= 7,
            first@ == cs@.take(j as int),
            byte_prefix(cs@, 7) == cs@.take(j as int) + byte_prefix(cs@.skip(j as int), rem as int),
        decreases cs@.len() - j,
    {
        let w = char_width(cs[j]);
        assert(cs@.skip(j as int).drop_first() =~= cs@.skip(j + 1));
        assert(cs@.take(j + 1) =~= cs@.take(j as int).push(cs@[j as int]));
        assert(cs@.take(j as int) + (seq![cs@[j as int]] + byte_prefix(cs@.skip(j + 1), rem - w)) =~= cs@.take(j + 1)
            + byte_prefix(cs@.skip(j + 1), rem - w));
        first.push(cs[j]);
        rem = rem - w;
        j += 1;
    }
    assert(byte_prefix(cs@.skip(j as int), rem as int) =~= Seq::<char>::empty());
    assert(cs@.take(j as int) + Seq::<char>::empty() =~= cs@.take(j as int));
    Some(string_from_chars(&first))
}

/// The (month, amount) pairs of the transactions whose date has a month.
pub open spec fn monthly_items(txns: Seq<(Seq<char>, i64)>) -> Seq<(Seq<char>, i64)>
    decreases txns.len(),
{
    if txns.len() == 0 {
        seq![]
    } else {
        let r = monthly_items(txns.drop_last());
        match month_of(txns.last().0) {
            Some(m) => r.push((m, txns.last().1)),
            None => r,
        }
    }
}

proof fn lemma_monthly_items_bound(txns: Seq<(Seq<char>, i64)>)
    ensures
        abs_total(monthly_items(txns)) <= abs_total(txns),
        monthly_items(txns).len() <= txns.len(),
    decreases txns.len(),
{
    if txns.len() > 0 {
        lemma_monthly_items_bound(txns.drop_last());
        let r = monthly_items(txns.drop_last());
        match month_of(txns.last().0) {
            Some(m) => {
                assert(r.push((m, txns.last().1)).drop_last() =~= r);
            },
            None => {},
        }
    }
}

/// Monthly totals: every seeded month (zero when empty) and every month
/// with transactions, by ascending month, with total, count and the total
/// divided by the count (rounded toward zero; 0 without transactions).
pub fn monthly_summaries(seeds: &Vec<String>, txns: &Vec<(String, i64)>) -> (res: Vec<MonthlySummary>)
    requires
        abs_total(items_view(txns@)) <= i64::MAX,
        txns@.len() <= i64::MAX,
        forall|i: int| 0 <= i < txns@.len() ==> month_cut_ok(#[trigger] txns@[i].0@),
    ensures
        exists|t: Seq<(Seq<char>, i64, i64)>|
            is_tally(texts_view(seeds@), monthly_items(items_view(txns@)), t) && t.len() == res@.len() && forall|
                i: int,
            |
                0 <= i < t.len() ==> {
                    &&& (#[trigger] res@[i]).month@ == t[i].0
                    &&& res@[i].total_cents == t[i].1
                    &&& res@[i].transaction_count == t[i].2
                    &&& res@[i].average_cents == (if t[i].2 > 0 {
                        trunc_div(t[i].1 as int, t[i].2 as int)
                    } else {
                        0
                    })
                },
{
    let ghost tv = items_view(txns@);
    let mut items: Vec<(String, i64)> = Vec::new();
    let mut j: usize = 0;
    while j < txns.len()
        invariant
            j <= txns@.len(),
            tv == items_view(txns@),
            items_view(items@) == monthly_items(tv.take(j as int)),
        decreases txns@.len() - j,
    {
        assert(tv.take(j + 1).drop_last() =~= tv.take(j as int));
        assert(tv.take(j + 1).last() == tv[j as int]);
        match month_prefix(&txns[j].0) {
            Some(m) => {
                let ghost before = items_view(items@);
                items.push((m, txns[j].1));
                assert(items_view(items@) =~= before.push((m@, tv[j as int].1)));
            },
            None => {},
        }
        j += 1;
    }
    assert(tv.take(txns@.len() as int) =~= tv);
    proof {
        lemma_monthly_items_bound(tv);
    }
    let t = tally(seeds, &items);
    let ghost ts = tally_view(t@);
    let mut out: Vec<MonthlySummary> = Vec::new();
    let mut i: usize = 0;
    while i < t.len()
        invariant
            i <= t@.len(),
            ts == tally_view(t@),
            out@.len() == i,
            forall|k: int|
                0 <= k < i ==> {
                    &&& (#[trigger] out@[k]).month@ == ts[k].0
                    &&& out@[k].total_cents == ts[k].1
                    &&& out@[k].transaction_count == ts[k].2
                    &&& out@[k].average_cents == (if ts[k].2 > 0 {
                        trunc_div(ts[k].1 as int, ts[k].2 as int)
                    } else {
                        0
                    })
                },
        decreases t@.len() - i,
    {
        let total = t[i].1;
        let count = t[i].2;
        let avg = if count > 0 {
            if total >= 0 {
                total / count
            } else {
                -((-(total as i128)) / (count as i128)) as i64
            }
        } else {
            0
        };
        out.push(MonthlySummary { month: t[i].0.clone(), total_cents: total, transaction_count: count, average_cents: avg });
        i += 1;
    }
    out
}

} // verus!

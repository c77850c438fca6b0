//! Detection of recurring expenses (subscriptions, memberships, rent).
//!
//! Expense rows are grouped by counterparty (IBAN, else payee, else a
//! normalized description), groups whose keys share a long common prefix
//! are merged, and a group counts as recurring when at least three of its
//! payments have about the same amount and a regular spacing in days.

use vstd::prelude::*;
use vstd::string::*;
use vstd::utf8::{char_is_scalar, encode_scalar, encode_utf8};
use crate::calendar::{days_between, day_number, iso_string, iso_text, parse_iso_date, parsed_iso_date, Date};
use crate::filters::{format_money_neutral, neutral_text};
use crate::sorting::{
    keys_ordered, lemma_sorted_all, lemma_sorted_len, lemma_sorted_ordered, lemma_sorted_relabel, relabel,
    sort_by_key, stable_sorted,
};
use crate::text::{
    chars_of, char_is_alphanumeric, char_is_whitespace, is_alphanumeric_char, is_whitespace_char,
    lowercase_of, string_from_chars, to_lowercase, to_uppercase, trim_chars, trim_end_digits_ws, is_ascii_digit, lemma_trim_end_digits_ws, lemma_trim_start_ws, lemma_trim_end_ws, trim_start_ws, trim_end_ws,
    trim_string, trim_ws, upper_text,
};

verus! {

/// Frequency classification for recurring expenses.
#[derive(Debug, Clone, Copy, PartialEq, Eq, Structural)]
pub enum Frequency {
    Weekly,
    Monthly,
    Quarterly,
    Yearly,
}

impl Frequency {
    pub open spec fn label_text(self) -> Seq<char> {
        match self {
            Frequency::Weekly => "Weekly"@,
            Frequency::Monthly => "Monthly"@,
            Frequency::Quarterly => "Quarterly"@,
            Frequency::Yearly => "Yearly"@,
        }
    }

    pub open spec fn multiplier(self) -> int {
        match self {
            Frequency::Weekly => 52,
            Frequency::Monthly => 12,
            Frequency::Quarterly => 4,
            Frequency::Yearly => 1,
        }
    }

    pub open spec fn order(self) -> int {
        match self {
            Frequency::Weekly => 1,
            Frequency::Monthly => 2,
            Frequency::Quarterly => 3,
            Frequency::Yearly => 4,
        }
    }

    pub fn label(self) -> (res: &'static str)
        ensures
            res@ == self.label_text(),
    {
        match self {
            Frequency::Weekly => "Weekly",
            Frequency::Monthly => "Monthly",
            Frequency::Quarterly => "Quarterly",
            Frequency::Yearly => "Yearly",
        }
    }

    /// How many payments of this frequency fall in a year.
    pub fn annual_multiplier(self) -> (res: i64)
        ensures
            res as int == self.multiplier(),
    {
        match self {
            Frequency::Weekly => 52,
            Frequency::Monthly => 12,
            Frequency::Quarterly => 4,
            Frequency::Yearly => 1,
        }
    }

    /// Sort order for display (1=weekly, 2=monthly, 3=quarterly, 4=yearly).
    pub fn sort_order(self) -> (res: u8)
        ensures
            res as int == self.order(),
    {
        match self {
            Frequency::Weekly => 1,
            Frequency::Monthly => 2,
            Frequency::Quarterly => 3,
            Frequency::Yearly => 4,
        }
    }
}

/// The frequency bucket of a median interval in days.
pub open spec fn interval_class(days: int) -> Option<Frequency> {
    if 5 <= days <= 9 {
        Some(Frequency::Weekly)
    } else if 28 <= days <= 35 {
        Some(Frequency::Monthly)
    } else if 85 <= days <= 100 {
        Some(Frequency::Quarterly)
    } else if 350 <= days <= 380 {
        Some(Frequency::Yearly)
    } else {
        None
    }
}

/// Classify a median day-interval into a frequency bucket.
pub fn classify_interval(median_days: i64) -> (res: Option<Frequency>)
    ensures
        res == interval_class(median_days as int),
{
    if 5 <= median_days && median_days <= 9 {
        Some(Frequency::Weekly)
    } else if 28 <= median_days && median_days <= 35 {
        Some(Frequency::Monthly)
    } else if 85 <= median_days && median_days <= 100 {
        Some(Frequency::Quarterly)
    } else if 350 <= median_days && median_days <= 380 {
        Some(Frequency::Yearly)
    } else {
        None
    }
}

// ---------------------------------------------------------------------------
// Normalization and grouping keys
// ---------------------------------------------------------------------------

pub open spec fn keeps_char(c: char) -> bool {
    is_alphanumeric_char(c) || is_whitespace_char(c)
}

/// Lower-cased, only letters, digits and white space kept, trimmed, and
/// trailing digits and white space (invoice numbers, dates) removed.
pub open spec fn normalized(desc: Seq<char>) -> Seq<char> {
    let kept = lowercase_of(desc).filter(|c: char| keeps_char(c));
    trim_end_digits_ws(trim_ws(kept))
}

/// A normalized description holds only letters, digits and white space,
/// starts with neither white space nor ends with white space or a digit.
pub proof fn lemma_normalized_shape(desc: Seq<char>)
    ensures
        forall|i: int| 0 <= i < normalized(desc).len() ==> keeps_char(#[trigger] normalized(desc)[i]),
        normalized(desc).len() > 0 ==> !is_whitespace_char(normalized(desc)[0]),
        normalized(desc).len() > 0 ==> !is_ascii_digit(normalized(desc).last())
            && !is_whitespace_char(normalized(desc).last()),
{
    let kept = lowercase_of(desc).filter(|c: char| keeps_char(c));
    let a = trim_start_ws(kept);
    let b = trim_end_ws(a);
    let n = trim_end_digits_ws(b);
    lemma_trim_start_ws(kept);
    lemma_trim_end_ws(a);
    lemma_trim_end_digits_ws(b);
    let k1 = choose|k: int| 0 <= k <= kept.len() && #[trigger] kept.skip(k) == a;
    let k2 = choose|k: int| 0 <= k <= a.len() && #[trigger] a.take(k) == b;
    let k3 = choose|k: int| 0 <= k <= b.len() && #[trigger] b.take(k) == n;
    assert(n == normalized(desc));
    assert forall|i: int| 0 <= i < n.len() implies keeps_char(#[trigger] n[i]) by {
        assert(n[i] == kept[i + k1]);
        lowercase_of(desc).lemma_filter_pred(|c: char| keeps_char(c), i + k1);
    }
    if n.len() > 0 {
        assert(n[0] == a[0]);
    }
}

fn filter_kept(v: &Vec<char>) -> (res: Vec<char>)
    ensures
        res@ == v@.filter(|c: char| keeps_char(c)),
{
    let mut out: Vec<char> = Vec::new();
    let mut i: usize = 0;
    while i < v.len()
        invariant
            i <= v@.len(),
            out@ == v@.take(i as int).filter(|c: char| keeps_char(c)),
        decreases v.len() - i,
    {
        let c = v[i];
        proof {
            reveal_with_fuel(Seq::filter, 1);
            assert(v@.take(i + 1).drop_last() =~= v@.take(i as int));
        }
        if char_is_alphanumeric(c) || char_is_whitespace(c) {
            out.push(c);
        }
        i += 1;
    }
    assert(v@.take(v@.len() as int) =~= v@);
    out
}

fn trim_end_digits_ws_chars(v: Vec<char>) -> (res: Vec<char>)
    ensures
        res@ == trim_end_digits_ws(v@),
{
    let mut out = v;
    while out.len() > 0 && (('0' <= out[out.len() - 1] && out[out.len() - 1] <= '9') || char_is_whitespace(out[out.len() - 1]))
        invariant
            trim_end_digits_ws(out@) == trim_end_digits_ws(v@),
        decreases out@.len(),
    {
        let ghost before = out@;
        out.pop();
        assert(out@ =~= before.drop_last());
    }
    out
}

/// Normalize a description for grouping: lowercase, strip non-alphanumeric,
/// trim, and remove trailing numbers (invoice numbers, dates).
pub fn normalize_description(desc: &str) -> (res: String)
    ensures
        res@ == normalized(desc@),
        forall|i: int| 0 <= i < res@.len() ==> keeps_char(#[trigger] res@[i]),
        res@.len() > 0 ==> !is_whitespace_char(res@[0]),
        res@.len() > 0 ==> !is_ascii_digit(res@.last()) && !is_whitespace_char(res@.last()),
{
    let lower = to_lowercase(desc);
    let cs = chars_of(lower.as_str());
    let kept = filter_kept(&cs);
    let t1 = trim_chars(&kept);
    let t2 = trim_end_digits_ws_chars(t1);
    proof {
        lemma_normalized_shape(desc@);
    }
    string_from_chars(&t2)
}

/// The grouping key of a transaction: IBAN, else payee, else description.
pub open spec fn grouping_key_text(iban: Option<Seq<char>>, payee: Option<Seq<char>>, desc: Seq<char>) -> Seq<char> {
    if iban is Some && trim_ws(iban->0).len() > 0 {
        "iban:"@ + upper_text(trim_ws(iban->0))
    } else if payee is Some && trim_ws(payee->0).len() > 0 {
        "payee:"@ + normalized(trim_ws(payee->0))
    } else {
        "desc:"@ + normalized(desc)
    }
}

pub open spec fn opt_view(s: Option<String>) -> Option<Seq<char>> {
    match s {
        Some(v) => Some(v@),
        None => None,
    }
}

/// Compute the grouping key for a transaction.
/// Priority: IBAN > payee > normalized description.
pub fn grouping_key(iban: &Option<String>, payee: &Option<String>, description: &str) -> (res: String)
    ensures
        res@ == grouping_key_text(opt_view(*iban), opt_view(*payee), description@),
{
    if let Some(iban) = iban {
        let trimmed = trim_string(iban.as_str());
        if trimmed.as_str().unicode_len() > 0 {
            let upper = to_uppercase(trimmed.as_str());
            let mut key = String::from_str("iban:");
            key.append(upper.as_str());
            return key;
        }
    }
    if let Some(payee) = payee {
        let trimmed = trim_string(payee.as_str());
        if trimmed.as_str().unicode_len() > 0 {
            let norm = normalize_description(trimmed.as_str());
            let mut key = String::from_str("payee:");
            key.append(norm.as_str());
            return key;
        }
    }
    let norm = normalize_description(description);
    let mut key = String::from_str("desc:");
    key.append(norm.as_str());
    key
}

// ---------------------------------------------------------------------------
// Grouping
// ---------------------------------------------------------------------------

/// An expense transaction as loaded for recurring-expense detection.
pub struct ExpenseRow {
    pub date: String,
    pub amount_cents: i64,
    pub description: String,
    pub payee: Option<String>,
    pub counterparty_iban: Option<String>,
}

/// One dated payment inside a group of similar payments.
pub struct GroupEntry {
    pub date: Date,
    pub amount_cents: i64,
    pub display_name: String,
}

impl View for GroupEntry {
    type V = (Date, i64, Seq<char>);

    open spec fn view(&self) -> (Date, i64, Seq<char>) {
        (self.date, self.amount_cents, self.display_name@)
    }
}

pub open spec fn entries_view(v: Seq<GroupEntry>) -> Seq<(Date, i64, Seq<char>)> {
    v.map_values(|e: GroupEntry| e@)
}

pub open spec fn groups_view(g: Seq<(String, Vec<GroupEntry>)>) -> Seq<(Seq<char>, Seq<(Date, i64, Seq<char>)>)> {
    g.map_values(|p: (String, Vec<GroupEntry>)| (p.0@, entries_view(p.1@)))
}

/// The name shown for a row: its payee when that is not blank, else its
/// description.
pub open spec fn display_name_of(r: ExpenseRow) -> Seq<char> {
    if r.payee is Some && trim_ws(r.payee->0@).len() > 0 {
        r.payee->0@
    } else {
        r.description@
    }
}

/// The entry a row contributes: none when its date does not parse.
pub open spec fn row_entry(r: ExpenseRow) -> Option<(Date, i64, Seq<char>)> {
    match parsed_iso_date(r.date@) {
        Some(d) => Some((d, r.amount_cents, display_name_of(r))),
        None => None,
    }
}

pub open spec fn row_key(r: ExpenseRow) -> Seq<char> {
    grouping_key_text(opt_view(r.counterparty_iban), opt_view(r.payee), r.description@)
}

/// Appends `e` to the group keyed `k`, or opens that group at the end.
pub open spec fn add_to_groups(
    gs: Seq<(Seq<char>, Seq<(Date, i64, Seq<char>)>)>,
    k: Seq<char>,
    e: (Date, i64, Seq<char>),
) -> Seq<(Seq<char>, Seq<(Date, i64, Seq<char>)>)>
    decreases gs.len(),
{
    if gs.len() == 0 {
        seq![(k, seq![e])]
    } else if gs[0].0 == k {
        gs.update(0, (k, gs[0].1.push(e)))
    } else {
        seq![gs[0]] + add_to_groups(gs.drop_first(), k, e)
    }
}

/// The rows grouped by key, groups in order of first appearance, entries in
/// row order; rows whose date does not parse are left out.
pub open spec fn grouped(rows: Seq<ExpenseRow>) -> Seq<(Seq<char>, Seq<(Date, i64, Seq<char>)>)>
    decreases rows.len(),
{
    if rows.len() == 0 {
        seq![]
    } else {
        let g = grouped(rows.drop_last());
        match row_entry(rows.last()) {
            Some(e) => add_to_groups(g, row_key(rows.last()), e),
            None => g,
        }
    }
}

proof fn lemma_add_existing(
    gs: Seq<(Seq<char>, Seq<(Date, i64, Seq<char>)>)>,
    k: Seq<char>,
    e: (Date, i64, Seq<char>),
    j: int,
)
    requires
        0 <= j < gs.len(),
        gs[j].0 == k,
        forall|i: int| 0 <= i < j ==> gs[i].0 != k,
    ensures
        add_to_groups(gs, k, e) == gs.update(j, (k, gs[j].1.push(e))),
    decreases gs.len(),
{
    if j > 0 {
        let t = gs.drop_first();
        assert forall|i: int| 0 <= i < j - 1 implies t[i].0 != k by {
            assert(t[i] == gs[i + 1]);
        }
        lemma_add_existing(t, k, e, j - 1);
        assert(seq![gs[0]] + t.update(j - 1, (k, t[j - 1].1.push(e))) =~= gs.update(j, (k, gs[j].1.push(e))));
    }
}

proof fn lemma_add_new(
    gs: Seq<(Seq<char>, Seq<(Date, i64, Seq<char>)>)>,
    k: Seq<char>,
    e: (Date, i64, Seq<char>),
)
    requires
        forall|i: int| 0 <= i < gs.len() ==> gs[i].0 != k,
    ensures
        add_to_groups(gs, k, e) == gs.push((k, seq![e])),
    decreases gs.len(),
{
    if gs.len() > 0 {
        let t = gs.drop_first();
        assert forall|i: int| 0 <= i < t.len() implies t[i].0 != k by {
            assert(t[i] == gs[i + 1]);
        }
        lemma_add_new(t, k, e);
        assert(seq![gs[0]] + t.push((k, seq![e])) =~= gs.push((k, seq![e])));
    }
}

fn clone_entry(e: &GroupEntry) -> (res: GroupEntry)
    ensures
        res@ == e@,
{
    GroupEntry { date: e.date, amount_cents: e.amount_cents, display_name: e.display_name.clone() }
}

fn display_name(row: &ExpenseRow) -> (res: String)
    ensures
        res@ == display_name_of(*row),
{
    if let Some(p) = &row.payee {
        let t = trim_string(p.as_str());
        if t.as_str().unicode_len() > 0 {
            return p.clone();
        }
    }
    row.description.clone()
}

/// Groups rows by their grouping key (see `grouped`).
pub fn group_rows(rows: &Vec<ExpenseRow>) -> (res: Vec<(String, Vec<GroupEntry>)>)
    ensures
        groups_view(res@) == grouped(rows@),
{
    let mut out: Vec<(String, Vec<GroupEntry>)> = Vec::new();
    let mut i: usize = 0;
    while i < rows.len()
        invariant
            i <= rows@.len(),
            groups_view(out@) == grouped(rows@.take(i as int)),
        decreases rows.len() - i,
    {
        let row = &rows[i];
        let ghost pre = rows@.take(i as int);
        assert(rows@.take(i + 1).drop_last() =~= pre);
        assert(rows@.take(i + 1).last() == rows@[i as int]);
        let key = grouping_key(&row.counterparty_iban, &row.payee, row.description.as_str());
        match parse_iso_date(row.date.as_str()) {
            Some(d) => {
                let e = GroupEntry { date: d, amount_cents: row.amount_cents, display_name: display_name(row) };
                let ghost gv = groups_view(out@);
                let mut j: usize = 0;
                while j < out.len() && !(out[j].0 == key)
                    invariant
                        j <= out@.len(),
                        gv == groups_view(out@),
                        forall|t: int| 0 <= t < j ==> gv[t].0 != key@,
                    decreases out@.len() - j,
                {
                    j += 1;
                }
                if j < out.len() {
                    proof {
                        lemma_add_existing(gv, key@, e@, j as int);
                    }
                    let ghost old_out = out@;
                    out[j].1.push(e);
                    assert(groups_view(out@) =~= gv.update(j as int, (key@, gv[j as int].1.push(e@)))) by {
                        assert(entries_view(out@[j as int].1@) =~= gv[j as int].1.push(e@));
                    }
                } else {
                    proof {
                        lemma_add_new(gv, key@, e@);
                    }
                    let mut v: Vec<GroupEntry> = Vec::new();
                    v.push(e);
                    out.push((key, v));
                    assert(groups_view(out@) =~= gv.push((key@, seq![e@]))) by {
                        assert(entries_view(v@) =~= seq![e@]);
                    }
                }
            },
            None => {},
        }
        i += 1;
    }
    assert(rows@.take(rows@.len() as int) =~= rows@);
    out
}

// ---------------------------------------------------------------------------
// Prefix merging
// ---------------------------------------------------------------------------

/// Position of the first ':' in a key, or -1 when there is none.
pub open spec fn colon_index(k: Seq<char>) -> int
    decreases k.len(),
{
    if k.len() == 0 {
        -1
    } else if k[0] == ':' {
        0
    } else {
        let r = colon_index(k.drop_first());
        if r < 0 {
            -1
        } else {
            r + 1
        }
    }
}

/// The kind of a key: the text before its first ':'.
pub open spec fn key_kind(k: Seq<char>) -> Option<Seq<char>> {
    let c = colon_index(k);
    if c < 0 {
        None
    } else {
        Some(k.take(c))
    }
}

/// The raw part of a key: the text after its first ':' (all of it when
/// there is no ':').
pub open spec fn key_raw(k: Seq<char>) -> Seq<char> {
    let c = colon_index(k);
    if c < 0 {
        k
    } else {
        k.skip(c + 1)
    }
}

pub open spec fn is_iban_key(k: Seq<char>) -> bool {
    "iban:"@.is_prefix_of(k)
}

/// `short` absorbs `long`: same kind, and the raw part of `short`, at least
/// five bytes long in UTF-8, starts the raw part of `long`.
pub open spec fn absorbs(short: Seq<char>, long: Seq<char>) -> bool {
    &&& encode_utf8(key_raw(short)).len() >= 5
    &&& key_kind(short) == key_kind(long)
    &&& key_raw(short).is_prefix_of(key_raw(long))
}

/// The key a text group is merged under: the shortest text key among
/// `keys` that absorbs it, or the key itself when none is shorter.
pub open spec fn merge_target(keys: Seq<Seq<char>>, k: Seq<char>) -> Seq<char>
    decreases keys.len(),
{
    if keys.len() == 0 {
        k
    } else {
        let r = merge_target(keys.drop_last(), k);
        let c = keys.last();
        if !is_iban_key(c) && absorbs(c, k) && c.len() < r.len() {
            c
        } else {
            r
        }
    }
}

pub open spec fn group_keys(gs: Seq<(Seq<char>, Seq<(Date, i64, Seq<char>)>)>) -> Seq<Seq<char>> {
    gs.map_values(|g: (Seq<char>, Seq<(Date, i64, Seq<char>)>)| g.0)
}

/// The entries, in group order, of all text groups merged under `t`.
pub open spec fn merged_entries(
    gs: Seq<(Seq<char>, Seq<(Date, i64, Seq<char>)>)>,
    keys: Seq<Seq<char>>,
    t: Seq<char>,
) -> Seq<(Date, i64, Seq<char>)>
    decreases gs.len(),
{
    if gs.len() == 0 {
        seq![]
    } else {
        let r = merged_entries(gs.drop_last(), keys, t);
        let g = gs.last();
        if !is_iban_key(g.0) && merge_target(keys, g.0) == t {
            r + g.1
        } else {
            r
        }
    }
}

/// The merged groups among the first `n`: an IBAN group as it is, a text
/// group that is its own target with everything merged under it.
pub open spec fn merged_upto(gs: Seq<(Seq<char>, Seq<(Date, i64, Seq<char>)>)>, n: nat) -> Seq<
    (Seq<char>, Seq<(Date, i64, Seq<char>)>),
>
    decreases n,
{
    if n == 0 {
        seq![]
    } else {
        let r = merged_upto(gs, (n - 1) as nat);
        let g = gs[n - 1];
        if is_iban_key(g.0) {
            r.push(g)
        } else if merge_target(group_keys(gs), g.0) == g.0 {
            r.push((g.0, merged_entries(gs, group_keys(gs), g.0)))
        } else {
            r
        }
    }
}

/// Groups whose text keys extend a shorter key (same kind, raw part of at
/// least five bytes) are merged under the shorter key; IBAN groups are kept
/// as they are.
pub open spec fn merged(gs: Seq<(Seq<char>, Seq<(Date, i64, Seq<char>)>)>) -> Seq<
    (Seq<char>, Seq<(Date, i64, Seq<char>)>),
> {
    merged_upto(gs, gs.len())
}

proof fn lemma_colon_found(k: Seq<char>, i: int)
    requires
        0 <= i < k.len(),
        k[i] == ':',
        forall|t: int| 0 <= t < i ==> k[t] != ':',
    ensures
        colon_index(k) == i,
    decreases i,
{
    if i > 0 {
        let d = k.drop_first();
        assert forall|t: int| 0 <= t < i - 1 implies d[t] != ':' by {
            assert(d[t] == k[t + 1]);
        }
        lemma_colon_found(d, i - 1);
    }
}

proof fn lemma_colon_absent(k: Seq<char>)
    requires
        forall|t: int| 0 <= t < k.len() ==> k[t] != ':',
    ensures
        colon_index(k) == -1,
    decreases k.len(),
{
    if k.len() > 0 {
        let d = k.drop_first();
        assert forall|t: int| 0 <= t < d.len() implies d[t] != ':' by {
            assert(d[t] == k[t + 1]);
        }
        lemma_colon_absent(d);
    }
}

/// Kind and raw part of a key, as characters.
fn split_key(k: &Vec<char>) -> (res: (Option<Vec<char>>, Vec<char>))
    ensures
        match res.0 {
            Some(kind) => key_kind(k@) == Some(kind@),
            None => key_kind(k@) is None,
        },
        res.1@ == key_raw(k@),
{
    let mut i: usize = 0;
    while i < k.len() && k[i] != ':'
        invariant
            i <= k@.len(),
            forall|t: int| 0 <= t < i ==> k@[t] != ':',
        decreases k@.len() - i,
    {
        i += 1;
    }
    if i < k.len() {
        proof {
            lemma_colon_found(k@, i as int);
        }
        let mut kind: Vec<char> = Vec::new();
        let mut raw: Vec<char> = Vec::new();
        let mut t: usize = 0;
        while t < k.len()
            invariant
                i < k@.len(),
                t <= k@.len(),
                kind@ == k@.take(if t < i { t as int } else { i as int }),
                raw@ == (if t <= i { Seq::<char>::empty() } else { k@.subrange(i + 1, t as int) }),
            decreases k@.len() - t,
        {
            if t < i {
                kind.push(k[t]);
                assert(k@.take(t + 1) =~= k@.take(t as int).push(k@[t as int]));
            } else if t > i {
                raw.push(k[t]);
                assert(k@.subrange(i + 1, t + 1) =~= (if t <= i { Seq::<char>::empty() } else {
                    k@.subrange(i + 1, t as int)
                }).push(k@[t as int]));
            } else {
                assert(k@.subrange(i + 1, i + 1) =~= Seq::<char>::empty());
            }
            t += 1;
        }
        assert(raw@ =~= k@.skip(i + 1));
        (Some(kind), raw)
    } else {
        proof {
            lemma_colon_absent(k@);
        }
        let mut raw: Vec<char> = Vec::new();
        let mut t: usize = 0;
        while t < k.len()
            invariant
                t <= k@.len(),
                raw@ == k@.take(t as int),
            decreases k@.len() - t,
        {
            raw.push(k[t]);
            assert(k@.take(t + 1) =~= k@.take(t as int).push(k@[t as int]));
            t += 1;
        }
        assert(k@.take(k@.len() as int) =~= k@);
        (None, raw)
    }
}

fn chars_prefix(a: &Vec<char>, b: &Vec<char>) -> (res: bool)
    ensures
        res == a@.is_prefix_of(b@),
{
    if a.len() > b.len() {
        return false;
    }
    let mut i: usize = 0;
    while i < a.len()
        invariant
            a@.len() <= b@.len(),
            i <= a@.len(),
            forall|t: int| 0 <= t < i ==> a@[t] == b@[t],
        decreases a@.len() - i,
    {
        if a[i] != b[i] {
            return false;
        }
        i += 1;
    }
    assert(b@.take(a@.len() as int) =~= a@);
    true
}

fn chars_eq(a: &Vec<char>, b: &Vec<char>) -> (res: bool)
    ensures
        res == (a@ == b@),
{
    if a.len() != b.len() {
        return false;
    }
    let p = chars_prefix(a, b);
    proof {
        if p {
            assert(a@ =~= b@.take(a@.len() as int));
            assert(b@.take(b@.len() as int) =~= b@);
        }
    }
    p
}

fn is_iban(k: &Vec<char>) -> (res: bool)
    ensures
        res == is_iban_key(k@),
{
    let p = chars_of("iban:");
    proof {
        reveal_strlit("iban:");
    }
    chars_prefix(&p, k)
}

proof fn lemma_encode_concat(a: Seq<char>, b: Seq<char>)
    ensures
        encode_utf8(a + b) == encode_utf8(a) + encode_utf8(b),
    decreases a.len(),
{
    if a.len() == 0 {
        assert(a + b =~= b);
        assert(encode_utf8(a) =~= Seq::<u8>::empty());
        assert(encode_utf8(a) + encode_utf8(b) =~= encode_utf8(b));
    } else {
        lemma_encode_concat(a.drop_first(), b);
        assert((a + b).drop_first() =~= a.drop_first() + b);
        assert((a + b)[0] == a[0]);
        assert(encode_scalar(a[0] as u32) + (encode_utf8(a.drop_first()) + encode_utf8(b)) =~= (
        encode_scalar(a[0] as u32) + encode_utf8(a.drop_first())) + encode_utf8(b));
    }
}

/// Number of bytes of a character in UTF-8.
fn char_width(c: char) -> (w: usize)
    ensures
        w as int == encode_scalar(c as u32).len(),
        1 <= w <= 4,
{
    proof {
        char_is_scalar(c);
    }
    let v = c as u32;
    if v <= 0x7F {
        1
    } else if v <= 0x7FF {
        2
    } else if v <= 0xFFFF {
        3
    } else {
        4
    }
}

proof fn lemma_encode_one(c: char)
    ensures
        encode_utf8(seq![c]) == encode_scalar(c as u32),
{
    let one = seq![c];
    assert(one.drop_first() =~= Seq::<char>::empty());
    assert(encode_utf8(one.drop_first()) =~= Seq::<u8>::empty());
    assert(encode_scalar(c as u32) + Seq::<u8>::empty() =~= encode_scalar(c as u32));
}

/// Whether the UTF-8 encoding of the characters has at least `n` bytes.
fn utf8_len_at_least(s: &Vec<char>, n: usize) -> (res: bool)
    requires
        n <= 8,
    ensures
        res == (encode_utf8(s@).len() >= n),
{
    let mut acc: usize = 0;
    let mut i: usize = 0;
    while i < s.len() && acc < n
        invariant
            n <= 8,
            i <= s@.len(),
            acc as int == encode_utf8(s@.take(i as int)).len(),
            acc <= n + 4,
        decreases s@.len() - i,
    {
        let w = char_width(s[i]);
        proof {
            lemma_encode_concat(s@.take(i as int), seq![s@[i as int]]);
            assert(s@.take(i as int) + seq![s@[i as int]] =~= s@.take(i + 1));
            lemma_encode_one(s@[i as int]);
        }
        i += 1;
        acc = acc + w;
    }
    proof {
        lemma_encode_concat(s@.take(i as int), s@.skip(i as int));
        assert(s@.take(i as int) + s@.skip(i as int) =~= s@);
        if i == s@.len() {
            assert(s@.skip(i as int) =~= Seq::<char>::empty());
            assert(encode_utf8(s@.skip(i as int)) =~= Seq::<u8>::empty());
        }
    }
    acc >= n
}

fn absorbs_exec(short: &Vec<char>, long: &Vec<char>) -> (res: bool)
    ensures
        res == absorbs(short@, long@),
{
    let (sk, sr) = split_key(short);
    let (lk, lr) = split_key(long);
    if !utf8_len_at_least(&sr, 5) {
        return false;
    }
    let same_kind = match (&sk, &lk) {
        (Some(a), Some(b)) => chars_eq(a, b),
        (None, None) => true,
        _ => false,
    };
    if !same_kind {
        return false;
    }
    chars_prefix(&sr, &lr)
}

fn target_index(keys: &Vec<Vec<char>>, k: usize) -> (res: usize)
    requires
        k < keys@.len(),
    ensures
        res < keys@.len(),
        keys@[res as int]@ == merge_target(keys@.map_values(|v: Vec<char>| v@), keys@[k as int]@),
{
    let ghost kv = keys@.map_values(|v: Vec<char>| v@);
    let mut best: usize = k;
    let mut found = false;
    let mut m: usize = 0;
    while m < keys.len()
        invariant
            k < keys@.len(),
            m <= keys@.len(),
            best < keys@.len(),
            kv == keys@.map_values(|v: Vec<char>| v@),
            keys@[best as int]@ == merge_target(kv.take(m as int), keys@[k as int]@),
        decreases keys@.len() - m,
    {
        assert(kv.take(m + 1).drop_last() =~= kv.take(m as int));
        assert(kv.take(m + 1).last() == keys@[m as int]@);
        let c = &keys[m];
        if !is_iban(c) && absorbs_exec(c, &keys[k]) && c.len() < keys[best].len() {
            best = m;
        }
        m += 1;
    }
    assert(kv.take(keys@.len() as int) =~= kv);
    best
}

fn clone_entries(v: &Vec<GroupEntry>, out: &mut Vec<GroupEntry>)
    ensures
        entries_view(final(out)@) == entries_view(old(out)@) + entries_view(v@),
{
    let ghost start = entries_view(out@);
    let mut i: usize = 0;
    while i < v.len()
        invariant
            i <= v@.len(),
            entries_view(out@) == start + entries_view(v@.take(i as int)),
        decreases v@.len() - i,
    {
        let e = clone_entry(&v[i]);
        let ghost before = out@;
        out.push(e);
        assert(entries_view(out@) =~= entries_view(before).push(v@[i as int]@));
        assert(entries_view(v@.take(i + 1)) =~= entries_view(v@.take(i as int)).push(v@[i as int]@));
        assert(entries_view(out@) =~= start + entries_view(v@.take(i + 1)));
        i += 1;
    }
    assert(v@.take(v@.len() as int) =~= v@);
}

/// Merge groups whose normalized keys share a common prefix.
/// For example, "desc:spotify" and "desc:spotifysweden" get merged under
/// the shorter key.  Only applies to non-IBAN keys with a minimum length.
pub fn merge_prefix_groups(groups: Vec<(String, Vec<GroupEntry>)>) -> (res: Vec<(String, Vec<GroupEntry>)>)
    ensures
        groups_view(res@) == merged(groups_view(groups@)),
{
    let ghost gv = groups_view(groups@);
    let n = groups.len();
    let mut keys: Vec<Vec<char>> = Vec::new();
    let mut i: usize = 0;
    while i < n
        invariant
            n == groups@.len(),
            i <= n,
            gv == groups_view(groups@),
            keys@.len() == i,
            forall|t: int| 0 <= t < i ==> #[trigger] keys@[t]@ == gv[t].0,
        decreases n - i,
    {
        keys.push(chars_of(groups[i].0.as_str()));
        i += 1;
    }
    let ghost kv = keys@.map_values(|v: Vec<char>| v@);
    assert(kv =~= group_keys(gv));
    let mut out: Vec<(String, Vec<GroupEntry>)> = Vec::new();
    let mut g: usize = 0;
    while g < n
        invariant
            n == groups@.len(),
            g <= n,
            gv == groups_view(groups@),
            keys@.len() == n,
            forall|t: int| 0 <= t < n ==> #[trigger] keys@[t]@ == gv[t].0,
            kv == keys@.map_values(|v: Vec<char>| v@),
            kv == group_keys(gv),
            groups_view(out@) == merged_upto(gv, g as nat),
        decreases n - g,
    {
        if is_iban(&keys[g]) {
            let mut v: Vec<GroupEntry> = Vec::new();
            clone_entries(&groups[g].1, &mut v);
            out.push((groups[g].0.clone(), v));
            assert(groups_view(out@) =~= merged_upto(gv, g as nat).push(gv[g as int]));
        } else {
            let tg = target_index(&keys, g);
            if chars_eq(&keys[tg], &keys[g]) {
                let mut v: Vec<GroupEntry> = Vec::new();
                let mut j: usize = 0;
                while j < n
                    invariant
                        n == groups@.len(),
                        g < n,
                        j <= n,
                        gv == groups_view(groups@),
                        keys@.len() == n,
                        forall|t: int| 0 <= t < n ==> #[trigger] keys@[t]@ == gv[t].0,
                        kv == keys@.map_values(|v: Vec<char>| v@),
                        kv == group_keys(gv),
                        entries_view(v@) == merged_entries(gv.take(j as int), kv, gv[g as int].0),
                    decreases n - j,
                {
                    assert(gv.take(j + 1).drop_last() =~= gv.take(j as int));
                    assert(gv.take(j + 1).last() == gv[j as int]);
                    if !is_iban(&keys[j]) {
                        let tj = target_index(&keys, j);
                        if chars_eq(&keys[tj], &keys[g]) {
                            clone_entries(&groups[j].1, &mut v);
                        }
                    }
                    j += 1;
                }
                assert(gv.take(n as int) =~= gv);
                out.push((groups[g].0.clone(), v));
                assert(groups_view(out@) =~= merged_upto(gv, g as nat).push(
                    (gv[g as int].0, merged_entries(gv, kv, gv[g as int].0)),
                ));
            }
        }
        g += 1;
    }
    out
}

// ---------------------------------------------------------------------------
// Median
// ---------------------------------------------------------------------------

/// Integer halving that rounds toward zero, as `/ 2` does on `i64`.
pub open spec fn half_toward_zero(x: int) -> int {
    if x >= 0 { x / 2 } else { -((-x) / 2) }
}

/// The median: the middle element, or the mean of the two middle elements
/// rounded toward zero; 0 for an empty sequence.
pub open spec fn median_of(s: Seq<i64>) -> int {
    let n = s.len() as int;
    if n == 0 {
        0
    } else if n % 2 == 0 {
        half_toward_zero(s[n / 2 - 1] + s[n / 2])
    } else {
        s[n / 2] as int
    }
}

/// Compute the median of a sorted i64 slice.  The two middle elements are
/// added in 128 bits, so the mean never overflows.
pub fn median(sorted: &[i64]) -> (res: i64)
    ensures
        res as int == median_of(sorted@),
{
    let n = sorted.len();
    if n == 0 {
        return 0;
    }
    if n % 2 == 0 {
        let a = sorted[n / 2 - 1] as i128;
        let b = sorted[n / 2] as i128;
        let s = a + b;
        let h: i128 = if s >= 0 { s / 2 } else { -((-s) / 2) };
        assert(i64::MIN <= h <= i64::MAX);
        h as i64
    } else {
        sorted[n / 2]
    }
}

/// The median of a sorted sequence lies between its smallest and largest
/// element.
pub proof fn lemma_median_between(s: Seq<i64>)
    requires
        s.len() > 0,
        forall|i: int, j: int| 0 <= i <= j < s.len() ==> s[i] <= s[j],
    ensures
        s[0] <= median_of(s) <= s[s.len() - 1],
{
    let n = s.len() as int;
    if n % 2 == 0 {
        assert(s[0] <= s[n / 2 - 1] && s[n / 2] <= s[n - 1]);
        assert(s[n / 2 - 1] <= s[n / 2]);
    } else {
        assert(s[0] <= s[n / 2] <= s[n - 1]);
    }
}

// ---------------------------------------------------------------------------
// Summarizing a group
// ---------------------------------------------------------------------------

/// A detected recurring expense ready for display.
pub struct RecurringExpense {
    pub description: String,
    pub frequency_label: String,
    /// Sort order for frequency (1=weekly, 2=monthly, 3=quarterly, 4=yearly).
    pub frequency_sort: u8,
    pub typical_amount_cents: i64,
    pub typical_amount_formatted: String,
    pub last_date: String,
    pub annual_cost_cents: i64,
    pub annual_cost_formatted: String,
    pub total_spent_cents: i64,
    pub total_spent_formatted: String,
    pub occurrence_count: usize,
    /// True when the last occurrence is more than 365 days ago.
    pub inactive: bool,
}

/// The fields of a `RecurringExpense`, strings as character sequences.
pub struct RecurringExpenseView {
    pub description: Seq<char>,
    pub frequency_label: Seq<char>,
    pub frequency_sort: u8,
    pub typical_amount_cents: i64,
    pub typical_amount_formatted: Seq<char>,
    pub last_date: Seq<char>,
    pub annual_cost_cents: i64,
    pub annual_cost_formatted: Seq<char>,
    pub total_spent_cents: i64,
    pub total_spent_formatted: Seq<char>,
    pub occurrence_count: usize,
    pub inactive: bool,
}

impl View for RecurringExpense {
    type V = RecurringExpenseView;

    open spec fn view(&self) -> RecurringExpenseView {
        RecurringExpenseView {
            description: self.description@,
            frequency_label: self.frequency_label@,
            frequency_sort: self.frequency_sort,
            typical_amount_cents: self.typical_amount_cents,
            typical_amount_formatted: self.typical_amount_formatted@,
            last_date: self.last_date@,
            annual_cost_cents: self.annual_cost_cents,
            annual_cost_formatted: self.annual_cost_formatted@,
            total_spent_cents: self.total_spent_cents,
            total_spent_formatted: self.total_spent_formatted@,
            occurrence_count: self.occurrence_count,
            inactive: self.inactive,
        }
    }
}

pub open spec fn abs_int(x: int) -> int {
    if x < 0 {
        -x
    } else {
        x
    }
}

/// Every entry has a real calendar date and an amount whose absolute value
/// is an `i64`.
pub open spec fn entries_ok(es: Seq<(Date, i64, Seq<char>)>) -> bool {
    forall|i: int| 0 <= i < es.len() ==> (#[trigger] es[i]).0.valid() && es[i].1 != i64::MIN
}

pub open spec fn date_keyed(es: Seq<(Date, i64, Seq<char>)>) -> Seq<(i64, (Date, i64, Seq<char>))> {
    es.map_values(|e: (Date, i64, Seq<char>)| (e.0.day_number() as i64, e))
}

/// The entries stably sorted by date.
pub open spec fn by_date(es: Seq<(Date, i64, Seq<char>)>) -> Seq<(Date, i64, Seq<char>)> {
    stable_sorted(date_keyed(es), false).map_values(|p: (i64, (Date, i64, Seq<char>))| p.1)
}

/// The values in ascending order.
pub open spec fn sorted_values(s: Seq<i64>) -> Seq<i64> {
    stable_sorted(self_keyed(s), false).map_values(|p: (i64, i64)| p.1)
}

/// Each value keyed by itself.
pub open spec fn self_keyed(s: Seq<i64>) -> Seq<(i64, i64)> {
    s.map_values(|x: i64| (x, x))
}

pub open spec fn abs_amounts(es: Seq<(Date, i64, Seq<char>)>) -> Seq<i64> {
    es.map_values(|e: (Date, i64, Seq<char>)| abs_int(e.1 as int) as i64)
}

/// The allowed distance from the median amount: 5%, at least 100 cents.
pub open spec fn tolerance(m: int) -> int {
    if m / 20 > 100 {
        m / 20
    } else {
        100
    }
}

pub open spec fn near_median(e: (Date, i64, Seq<char>), m: int) -> bool {
    abs_int(abs_int(e.1 as int) - m) <= tolerance(m)
}

/// The entries within the tolerance of the median amount `m`.
pub open spec fn near_filter(s: Seq<(Date, i64, Seq<char>)>, m: int) -> Seq<(Date, i64, Seq<char>)> {
    s.filter(|e: (Date, i64, Seq<char>)| near_median(e, m))
}

/// Days between consecutive entries.
pub open spec fn intervals(fs: Seq<(Date, i64, Seq<char>)>) -> Seq<i64> {
    Seq::new((fs.len() - 1) as nat, |i: int| (fs[i + 1].0.day_number() - fs[i].0.day_number()) as i64)
}

pub open spec fn total_abs(fs: Seq<(Date, i64, Seq<char>)>) -> int
    decreases fs.len(),
{
    if fs.len() == 0 {
        0
    } else {
        total_abs(fs.drop_last()) + abs_int(fs.last().1 as int)
    }
}

/// What a group of payments amounts to: none when it has fewer than three
/// payments near the median amount, when their median spacing fits no
/// frequency, or when its totals do not fit in an `i64`.
pub open spec fn summary_of(
    es: Seq<(Date, i64, Seq<char>)>,
    currency: Seq<char>,
    locale: Seq<char>,
    today: Date,
) -> Option<RecurringExpenseView> {
    if es.len() < 3 || !entries_ok(es) {
        None
    } else {
        let sorted = by_date(es);
        let m = median_of(sorted_values(abs_amounts(sorted)));
        let fs = near_filter(sorted, m);
        if fs.len() < 3 || fs.len() > usize::MAX {
            None
        } else {
            match interval_class(median_of(sorted_values(intervals(fs)))) {
                None => None,
                Some(f) => {
                    let total = total_abs(fs);
                    let annual = m * f.multiplier();
                    let last = fs.last();
                    if total > i64::MAX || annual > i64::MAX {
                        None
                    } else {
                        Some(
                            RecurringExpenseView {
                                description: last.2,
                                frequency_label: f.label_text(),
                                frequency_sort: f.order() as u8,
                                typical_amount_cents: m as i64,
                                typical_amount_formatted: neutral_text(m, currency, locale),
                                last_date: iso_text(last.0),
                                annual_cost_cents: annual as i64,
                                annual_cost_formatted: neutral_text(annual, currency, locale),
                                total_spent_cents: total as i64,
                                total_spent_formatted: neutral_text(total, currency, locale),
                                occurrence_count: fs.len() as usize,
                                inactive: today.day_number() - last.0.day_number() > 365,
                            },
                        )
                    }
                },
            }
        }
    }
}

fn sort_values(v: Vec<i64>) -> (res: Vec<i64>)
    ensures
        res@ == sorted_values(v@),
        res@.len() == v@.len(),
{
    let ghost vv = v@;
    let mut pairs: Vec<(i64, i64)> = Vec::new();
    let mut i: usize = 0;
    while i < v.len()
        invariant
            vv == v@,
            i <= vv.len(),
            pairs@ == self_keyed(vv.take(i as int)),
        decreases vv.len() - i,
    {
        pairs.push((v[i], v[i]));
        assert(self_keyed(vv.take(i + 1)) =~= self_keyed(vv.take(i as int)).push((vv[i as int], vv[i as int])));
        i += 1;
    }
    assert(vv.take(vv.len() as int) =~= vv);
    let sorted = sort_by_key(pairs, false);
    proof {
        lemma_sorted_len(self_keyed(vv), false);
    }
    let ghost sv = sorted@;
    let mut out: Vec<i64> = Vec::new();
    let mut j: usize = 0;
    while j < sorted.len()
        invariant
            sv == sorted@,
            j <= sv.len(),
            out@ == sv.take(j as int).map_values(|p: (i64, i64)| p.1),
        decreases sv.len() - j,
    {
        out.push(sorted[j].1);
        assert(sv.take(j + 1).map_values(|p: (i64, i64)| p.1) =~= sv.take(j as int).map_values(
            |p: (i64, i64)| p.1,
        ).push(sv[j as int].1));
        j += 1;
    }
    assert(sv.take(sv.len() as int) =~= sv);
    out
}

fn sort_by_date(es: &Vec<GroupEntry>) -> (res: Vec<GroupEntry>)
    requires
        entries_ok(entries_view(es@)),
    ensures
        entries_view(res@) == by_date(entries_view(es@)),
        entries_ok(entries_view(res@)),
{
    let ghost ev = entries_view(es@);
    let ghost f = |e: GroupEntry| e@;
    let mut pairs: Vec<(i64, GroupEntry)> = Vec::new();
    let mut i: usize = 0;
    while i < es.len()
        invariant
            ev == entries_view(es@),
            entries_ok(ev),
            i <= ev.len(),
            f == (|e: GroupEntry| e@),
            relabel(pairs@, f) == date_keyed(ev.take(i as int)),
        decreases ev.len() - i,
    {
        assert(ev[i as int].0.valid());
        let k = day_number(es[i].date);
        let ghost before = pairs@;
        pairs.push((k, clone_entry(&es[i])));
        assert(relabel(pairs@, f) =~= relabel(before, f).push((k, es@[i as int]@)));
        assert(date_keyed(ev.take(i + 1)) =~= date_keyed(ev.take(i as int)).push((k, ev[i as int])));
        i += 1;
    }
    assert(ev.take(ev.len() as int) =~= ev);
    let ghost pv = pairs@;
    let sorted = sort_by_key(pairs, false);
    proof {
        lemma_sorted_relabel(pv, false, f);
        lemma_sorted_len(pv, false);
        lemma_sorted_len(date_keyed(ev), false);
        let p = |q: (i64, (Date, i64, Seq<char>))| q.1.0.valid() && q.1.1 != i64::MIN;
        assert forall|t: int| 0 <= t < date_keyed(ev).len() implies p(#[trigger] date_keyed(ev)[t]) by {
            assert(date_keyed(ev)[t].1 == ev[t]);
        }
        lemma_sorted_all(date_keyed(ev), false, p);
    }
    let ghost sv = sorted@;
    let ghost target = stable_sorted(date_keyed(ev), false);
    assert(relabel(sv, f) == target);
    let mut out: Vec<GroupEntry> = Vec::new();
    let mut j: usize = 0;
    while j < sorted.len()
        invariant
            sv == sorted@,
            f == (|e: GroupEntry| e@),
            relabel(sv, f) == target,
            j <= sv.len(),
            entries_view(out@) == target.take(j as int).map_values(|p: (i64, (Date, i64, Seq<char>))| p.1),
        decreases sv.len() - j,
    {
        let e = clone_entry(&sorted[j].1);
        let ghost before = out@;
        out.push(e);
        assert(relabel(sv, f)[j as int] == (sv[j as int].0, sv[j as int].1@));
        assert(entries_view(out@) =~= entries_view(before).push(e@));
        assert(target.take(j + 1).map_values(|p: (i64, (Date, i64, Seq<char>))| p.1) =~= target.take(
            j as int,
        ).map_values(|p: (i64, (Date, i64, Seq<char>))| p.1).push(target[j as int].1));
        j += 1;
    }
    assert(target.take(sv.len() as int) =~= target);
    assert(entries_ok(entries_view(out@))) by {
        let p = |q: (i64, (Date, i64, Seq<char>))| q.1.0.valid() && q.1.1 != i64::MIN;
        assert forall|t: int| 0 <= t < entries_view(out@).len() implies (#[trigger] entries_view(out@)[t]).0.valid()
            && entries_view(out@)[t].1 != i64::MIN by {
            assert(p(target[t]));
        }
    }
    out
}

fn entries_valid(es: &Vec<GroupEntry>) -> (res: bool)
    ensures
        res == entries_ok(entries_view(es@)),
{
    let mut i: usize = 0;
    while i < es.len()
        invariant
            i <= es@.len(),
            forall|t: int| 0 <= t < i ==> (#[trigger] entries_view(es@)[t]).0.valid() && entries_view(es@)[t].1
                != i64::MIN,
        decreases es@.len() - i,
    {
        let d = es[i].date;
        if !crate::calendar::is_valid_ymd(d.year, d.month, d.day) || es[i].amount_cents == i64::MIN {
            assert(entries_view(es@)[i as int] == es@[i as int]@);
            return false;
        }
        i += 1;
    }
    true
}

fn abs_i64(x: i64) -> (res: i64)
    requires
        x != i64::MIN,
    ensures
        res as int == abs_int(x as int),
{
    if x < 0 {
        -x
    } else {
        x
    }
}

/// Summarizes one group of payments (see `summary_of`).
pub fn summarize_group(entries: &Vec<GroupEntry>, currency: &str, locale: &str, today: Date) -> (res: Option<
    RecurringExpense,
>)
    requires
        today.valid(),
    ensures
        match res {
            Some(r) => summary_of(entries_view(entries@), currency@, locale@, today) == Some(r@),
            None => summary_of(entries_view(entries@), currency@, locale@, today) is None,
        },
{
    let ghost ev = entries_view(entries@);
    if entries.len() < 3 {
        return None;
    }
    if !entries_valid(entries) {
        return None;
    }
    let sorted = sort_by_date(entries);
    let ghost sv = entries_view(sorted@);
    // median absolute amount
    let mut amounts: Vec<i64> = Vec::new();
    let mut i: usize = 0;
    while i < sorted.len()
        invariant
            sv == entries_view(sorted@),
            entries_ok(sv),
            i <= sv.len(),
            amounts@ == abs_amounts(sv.take(i as int)),
        decreases sv.len() - i,
    {
        assert(sv[i as int].1 != i64::MIN);
        let a = abs_i64(sorted[i].amount_cents);
        amounts.push(a);
        assert(abs_amounts(sv.take(i + 1)) =~= abs_amounts(sv.take(i as int)).push(a));
        i += 1;
    }
    assert(sv.take(sv.len() as int) =~= sv);
    let sorted_amounts = sort_values(amounts);
    let m = median(sorted_amounts.as_slice());
    let ghost mm = m as int;
    assert(mm == median_of(sorted_values(abs_amounts(sv))));
    assert(m >= 0) by {
        let sa = sorted_values(abs_amounts(sv));
        assert forall|t: int| 0 <= t < sa.len() implies sa[t] >= 0 by {
            let p = |q: (i64, i64)| q.1 >= 0;
            assert forall|u: int| 0 <= u < self_keyed(abs_amounts(sv)).len() implies p(
                #[trigger] self_keyed(abs_amounts(sv))[u],
            ) by {
                assert(sv[u].1 != i64::MIN);
            }
            lemma_sorted_all(self_keyed(abs_amounts(sv)), false, p);
            assert(p(stable_sorted(self_keyed(abs_amounts(sv)), false)[t]));
        }
        let n = sa.len() as int;
        if n % 2 == 0 {
            assert(sa[n / 2 - 1] >= 0 && sa[n / 2] >= 0);
        } else {
            assert(sa[n / 2] >= 0);
        }
    }
    let tol: i64 = if m / 20 > 100 { m / 20 } else { 100 };
    // payments within the tolerance
    let mut filtered: Vec<GroupEntry> = Vec::new();
    let mut j: usize = 0;
    while j < sorted.len()
        invariant
            sv == entries_view(sorted@),
            entries_ok(sv),
            m >= 0,
            mm == m as int,
            tol as int == tolerance(mm),
            j <= sv.len(),
            entries_view(filtered@) == near_filter(sv.take(j as int), mm),
            entries_ok(entries_view(filtered@)),
        decreases sv.len() - j,
    {
        assert(sv[j as int].1 != i64::MIN);
        let a = abs_i64(sorted[j].amount_cents);
        let d = a - m;
        let dist = if d < 0 { -d } else { d };
        proof {
            reveal_with_fuel(Seq::filter, 1);
            assert(sv.take(j + 1).drop_last() =~= sv.take(j as int));
        }
        if dist <= tol {
            let ghost before = filtered@;
            filtered.push(clone_entry(&sorted[j]));
            assert(entries_view(filtered@) =~= entries_view(before).push(sv[j as int]));
        }
        j += 1;
    }
    assert(sv.take(sv.len() as int) =~= sv);
    let ghost fv = entries_view(filtered@);
    if filtered.len() < 3 {
        return None;
    }
    // spacing between consecutive payments
    let mut gaps: Vec<i64> = Vec::new();
    let mut k: usize = 0;
    while k < filtered.len() - 1
        invariant
            fv == entries_view(filtered@),
            entries_ok(fv),
            fv.len() >= 3,
            k + 1 <= fv.len(),
            gaps@ == intervals(fv).take(k as int),
        decreases fv.len() - k,
    {
        assert(fv[k as int].0.valid() && fv[k + 1].0.valid());
        let g = days_between(filtered[k].date, filtered[k + 1].date);
        gaps.push(g);
        assert(intervals(fv).take(k + 1) =~= intervals(fv).take(k as int).push(g));
        k += 1;
    }
    assert(intervals(fv).take(k as int) =~= intervals(fv));
    let sorted_gaps = sort_values(gaps);
    let mi = median(sorted_gaps.as_slice());
    let freq = match classify_interval(mi) {
        Some(f) => f,
        None => {
            return None;
        },
    };
    // totals
    let mut total: i128 = 0;
    let mut t: usize = 0;
    while t < filtered.len()
        invariant
            fv == entries_view(filtered@),
            entries_ok(fv),
            t <= fv.len(),
            total as int == total_abs(fv.take(t as int)),
            0 <= total <= t * 0x8000_0000_0000_0000,
            fv.len() <= usize::MAX,
        decreases fv.len() - t,
    {
        assert(fv.take(t + 1).drop_last() =~= fv.take(t as int));
        assert(fv[t as int].1 != i64::MIN);
        let a = abs_i64(filtered[t].amount_cents);
        total = total + a as i128;
        t += 1;
    }
    assert(fv.take(fv.len() as int) =~= fv);
    let mult = freq.annual_multiplier();
    assert(1 <= mult <= 52);
    assert(0 <= (m as int) * (mult as int) <= 52 * 0x7fff_ffff_ffff_ffff) by (nonlinear_arith)
        requires
            0 <= m,
            1 <= mult <= 52,
    ;
    let annual: i128 = m as i128 * mult as i128;
    if total > i64::MAX as i128 || annual > i64::MAX as i128 {
        return None;
    }
    let last = &filtered[filtered.len() - 1];
    assert(fv.last().0.valid());
    let last_date = last.date;
    let age = days_between(last_date, today);
    let total64 = total as i64;
    let annual64 = annual as i64;
    let r = RecurringExpense {
        description: last.display_name.clone(),
        frequency_label: String::from_str(freq.label()),
        frequency_sort: freq.sort_order(),
        typical_amount_cents: m,
        typical_amount_formatted: format_money_neutral(m, currency, locale),
        last_date: iso_string(last_date),
        annual_cost_cents: annual64,
        annual_cost_formatted: format_money_neutral(annual64, currency, locale),
        total_spent_cents: total64,
        total_spent_formatted: format_money_neutral(total64, currency, locale),
        occurrence_count: filtered.len(),
        inactive: age > 365,
    };
    Some(r)
}

// ---------------------------------------------------------------------------
// Detection
// ---------------------------------------------------------------------------

/// The summaries of the groups that amount to a recurring expense, in
/// group order.
pub open spec fn summaries(
    gs: Seq<(Seq<char>, Seq<(Date, i64, Seq<char>)>)>,
    currency: Seq<char>,
    locale: Seq<char>,
    today: Date,
) -> Seq<RecurringExpenseView>
    decreases gs.len(),
{
    if gs.len() == 0 {
        seq![]
    } else {
        let r = summaries(gs.drop_last(), currency, locale, today);
        match summary_of(gs.last().1, currency, locale, today) {
            Some(v) => r.push(v),
            None => r,
        }
    }
}

pub open spec fn annual_keyed(s: Seq<RecurringExpenseView>) -> Seq<(i64, RecurringExpenseView)> {
    s.map_values(|v: RecurringExpenseView| (v.annual_cost_cents, v))
}

/// The recurring expenses found in the rows: rows grouped by counterparty,
/// groups merged by key prefix, each group summarized, and the summaries
/// stably sorted by annual cost, highest first.
pub open spec fn detected(rows: Seq<ExpenseRow>, currency: Seq<char>, locale: Seq<char>, today: Date) -> Seq<
    RecurringExpenseView,
> {
    stable_sorted(annual_keyed(summaries(merged(grouped(rows)), currency, locale, today)), true).map_values(
        |p: (i64, RecurringExpenseView)| p.1,
    )
}

/// Detect recurring expenses from raw transaction data.
pub fn detect_recurring_expenses(rows: Vec<ExpenseRow>, currency: &str, locale: &str, today: Date) -> (res: Vec<
    RecurringExpense,
>)
    requires
        today.valid(),
    ensures
        res@.map_values(|r: RecurringExpense| r@) == detected(rows@, currency@, locale@, today),
{
    let groups = group_rows(&rows);
    let all = merge_prefix_groups(groups);
    let ghost gv = groups_view(all@);
    assert(gv == merged(grouped(rows@)));
    let ghost f = |r: RecurringExpense| r@;
    let mut items: Vec<(i64, RecurringExpense)> = Vec::new();
    let mut g: usize = 0;
    while g < all.len()
        invariant
            today.valid(),
            gv == groups_view(all@),
            g <= gv.len(),
            f == (|r: RecurringExpense| r@),
            relabel(items@, f) == annual_keyed(summaries(gv.take(g as int), currency@, locale@, today)),
        decreases gv.len() - g,
    {
        assert(gv.take(g + 1).drop_last() =~= gv.take(g as int));
        assert(gv.take(g + 1).last() == gv[g as int]);
        assert(gv[g as int].1 == entries_view(all@[g as int].1@));
        match summarize_group(&all[g].1, currency, locale, today) {
            Some(r) => {
                let ghost before = items@;
                let key = r.annual_cost_cents;
                items.push((key, r));
                assert(relabel(items@, f) =~= relabel(before, f).push((key, r@)));
                assert(annual_keyed(summaries(gv.take(g + 1), currency@, locale@, today)) =~= annual_keyed(
                    summaries(gv.take(g as int), currency@, locale@, today),
                ).push((key, r@)));
            },
            None => {},
        }
        g += 1;
    }
    assert(gv.take(gv.len() as int) =~= gv);
    let ghost iv = items@;
    let sorted = sort_by_key(items, true);
    proof {
        lemma_sorted_relabel(iv, true, f);
        lemma_sorted_len(iv, true);
    }
    let ghost target = stable_sorted(annual_keyed(summaries(gv, currency@, locale@, today)), true);
    let ghost sv = sorted@;
    assert(relabel(sv, f) == target);
    let mut out: Vec<RecurringExpense> = Vec::new();
    let mut rest = sorted;
    let mut taken: Vec<RecurringExpense> = Vec::new();
    // pop from the back, then restore the order
    while rest.len() > 0
        invariant
            rest@ == sv.take(rest@.len() as int),
            rest@.len() <= sv.len(),
            f == (|r: RecurringExpense| r@),
            taken@.len() == sv.len() - rest@.len(),
            forall|t: int| 0 <= t < taken@.len() ==> #[trigger] taken@[t] == sv[sv.len() - 1 - t].1,
        decreases rest@.len(),
    {
        let ghost k = rest@.len();
        let (_, r) = rest.pop().unwrap();
        assert(rest@ =~= sv.take(k - 1));
        taken.push(r);
    }
    while taken.len() > 0
        invariant
            taken@.len() + out@.len() == sv.len(),
            f == (|r: RecurringExpense| r@),
            forall|t: int| 0 <= t < taken@.len() ==> #[trigger] taken@[t] == sv[sv.len() - 1 - t].1,
            forall|t: int| 0 <= t < out@.len() ==> #[trigger] out@[t] == sv[t].1,
        decreases taken@.len(),
    {
        let r = taken.pop().unwrap();
        out.push(r);
    }
    let ghost lhs = out@.map_values(|r: RecurringExpense| r@);
    let ghost rhs = target.map_values(|p: (i64, RecurringExpenseView)| p.1);
    assert forall|t: int| 0 <= t < lhs.len() implies #[trigger] lhs[t] == rhs[t] by {
        assert(relabel(sv, f)[t] == (sv[t].0, f(sv[t].1)));
    }
    assert(lhs =~= rhs);
    out
}

/// The detected expenses come highest annual cost first.
pub proof fn lemma_detected_by_annual_cost(rows: Seq<ExpenseRow>, currency: Seq<char>, locale: Seq<char>, today: Date)
    ensures
        forall|i: int, j: int|
            0 <= i < j < detected(rows, currency, locale, today).len() ==> (#[trigger] detected(
                rows,
                currency,
                locale,
                today,
            )[i]).annual_cost_cents >= (#[trigger] detected(rows, currency, locale, today)[j]).annual_cost_cents,
{
    let s = annual_keyed(summaries(merged(grouped(rows)), currency, locale, today));
    lemma_sorted_ordered(s, true);
    let st = stable_sorted(s, true);
    assert forall|i: int, j: int| 0 <= i < j < st.len() implies st[i].1.annual_cost_cents >= st[j].1.annual_cost_cents by {
        assert(key_le_desc(st, i, j));
        let p = |q: (i64, RecurringExpenseView)| q.0 == q.1.annual_cost_cents;
        assert forall|t: int| 0 <= t < s.len() implies p(#[trigger] s[t]) by {}
        lemma_sorted_all(s, true, p);
        assert(p(st[i]) && p(st[j]));
    }
}

spec fn key_le_desc(st: Seq<(i64, RecurringExpenseView)>, i: int, j: int) -> bool {
    st[i].0 >= st[j].0
}

/// Every detected expense rests on at least three payments.
pub proof fn lemma_detected_has_three_payments(
    rows: Seq<ExpenseRow>,
    currency: Seq<char>,
    locale: Seq<char>,
    today: Date,
)
    ensures
        forall|i: int|
            0 <= i < detected(rows, currency, locale, today).len() ==> (#[trigger] detected(
                rows,
                currency,
                locale,
                today,
            )[i]).occurrence_count >= 3,
{
    let gs = merged(grouped(rows));
    lemma_summaries_counts(gs, currency, locale, today);
    let s = annual_keyed(summaries(gs, currency, locale, today));
    let p = |q: (i64, RecurringExpenseView)| q.1.occurrence_count >= 3;
    assert forall|t: int| 0 <= t < s.len() implies p(#[trigger] s[t]) by {}
    lemma_sorted_all(s, true, p);
}

proof fn lemma_summaries_counts(
    gs: Seq<(Seq<char>, Seq<(Date, i64, Seq<char>)>)>,
    currency: Seq<char>,
    locale: Seq<char>,
    today: Date,
)
    ensures
        forall|i: int|
            0 <= i < summaries(gs, currency, locale, today).len() ==> (#[trigger] summaries(
                gs,
                currency,
                locale,
                today,
            )[i]).occurrence_count >= 3,
    decreases gs.len(),
{
    if gs.len() > 0 {
        lemma_summaries_counts(gs.drop_last(), currency, locale, today);
        let r = summaries(gs.drop_last(), currency, locale, today);
        match summary_of(gs.last().1, currency, locale, today) {
            Some(v) => {
                assert(v.occurrence_count >= 3);
                assert forall|i: int| 0 <= i < r.push(v).len() implies (#[trigger] r.push(v)[i]).occurrence_count
                    >= 3 by {
                    if i < r.len() {
                        assert(r.push(v)[i] == r[i]);
                    }
                }
            },
            None => {},
        }
    }
}

/// A detected frequency's yearly count spans about a year of its
/// intervals: for every median interval that is classified as `f`, that
/// many intervals cover between 260 and 468 days. So a quarterly payment
/// counts 4 times a year, a monthly one 12 times, a weekly one 52 times
/// and a yearly one once; no other count fits every interval of its class.
pub proof fn lemma_multiplier_spans_a_year(days: int, f: Frequency)
    requires
        interval_class(days) == Some(f),
    ensures
        260 <= f.multiplier() * days <= 468,
{
}

/// Payments at longer intervals come fewer times a year and sort later:
/// of two median intervals in different classes, the longer one's
/// frequency has the smaller yearly count and the larger sort order.
pub proof fn lemma_longer_interval_fewer_payments(d1: int, d2: int, f1: Frequency, f2: Frequency)
    requires
        interval_class(d1) == Some(f1),
        interval_class(d2) == Some(f2),
        f1 != f2,
        d1 < d2,
    ensures
        f1.multiplier() > f2.multiplier(),
        f1.order() < f2.order(),
{
}

} // verus!

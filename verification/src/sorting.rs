//! Stable ordering of items by an integer key.

use vstd::prelude::*;
use crate::tally::{lex_lt, str_lt};

verus! {

/// Whether `a` may stay in front of `b`: keys in order (ascending, or
/// descending when `desc`), equal keys allowed.
pub open spec fn key_le(a: int, b: int, desc: bool) -> bool {
    if desc { a >= b } else { a <= b }
}

/// Inserts `x` in front of the first element it may precede.
pub open spec fn insert_before<T>(x: (i64, T), s: Seq<(i64, T)>, desc: bool) -> Seq<(i64, T)>
    decreases s.len(),
{
    if s.len() == 0 {
        seq![x]
    } else if key_le(x.0 as int, s[0].0 as int, desc) {
        seq![x] + s
    } else {
        seq![s[0]] + insert_before(x, s.drop_first(), desc)
    }
}

/// The stable sort of `s` by key: elements with equal keys keep their
/// original relative order.
pub open spec fn stable_sorted<T>(s: Seq<(i64, T)>, desc: bool) -> Seq<(i64, T)>
    decreases s.len(),
{
    if s.len() == 0 {
        s
    } else {
        insert_before(s[0], stable_sorted(s.drop_first(), desc), desc)
    }
}

proof fn lemma_insert_at<T>(x: (i64, T), s: Seq<(i64, T)>, desc: bool, p: int)
    requires
        0 <= p <= s.len(),
        forall|i: int| 0 <= i < p ==> !key_le(x.0 as int, #[trigger] s[i].0 as int, desc),
        p < s.len() ==> key_le(x.0 as int, s[p].0 as int, desc),
    ensures
        insert_before(x, s, desc) == s.take(p) + seq![x] + s.skip(p),
    decreases s.len(),
{
    if s.len() == 0 {
        assert(s.take(p) + seq![x] + s.skip(p) =~= seq![x]);
    } else if p == 0 {
        assert(s.take(p) + seq![x] + s.skip(p) =~= seq![x] + s);
    } else {
        let t = s.drop_first();
        assert forall|i: int| 0 <= i < p - 1 implies !key_le(x.0 as int, #[trigger] t[i].0 as int, desc) by {
            assert(t[i] == s[i + 1]);
        }
        lemma_insert_at(x, t, desc, p - 1);
        assert(seq![s[0]] + (t.take(p - 1) + seq![x] + t.skip(p - 1)) =~= s.take(p) + seq![x] + s.skip(p));
    }
}

proof fn lemma_insert_len<T>(x: (i64, T), s: Seq<(i64, T)>, desc: bool)
    ensures
        insert_before(x, s, desc).len() == s.len() + 1,
    decreases s.len(),
{
    if s.len() > 0 {
        lemma_insert_len(x, s.drop_first(), desc);
    }
}

pub proof fn lemma_sorted_len<T>(s: Seq<(i64, T)>, desc: bool)
    ensures
        stable_sorted(s, desc).len() == s.len(),
    decreases s.len(),
{
    if s.len() > 0 {
        lemma_sorted_len(s.drop_first(), desc);
        lemma_insert_len(s[0], stable_sorted(s.drop_first(), desc), desc);
    }
}

/// Relabelling the payloads of the items, keys unchanged.
pub open spec fn relabel<T, U>(s: Seq<(i64, T)>, f: spec_fn(T) -> U) -> Seq<(i64, U)> {
    s.map_values(|p: (i64, T)| (p.0, f(p.1)))
}

proof fn lemma_insert_relabel<T, U>(x: (i64, T), s: Seq<(i64, T)>, desc: bool, f: spec_fn(T) -> U)
    ensures
        relabel(insert_before(x, s, desc), f) == insert_before((x.0, f(x.1)), relabel(s, f), desc),
    decreases s.len(),
{
    if s.len() == 0 {
        assert(relabel(seq![x], f) =~= seq![(x.0, f(x.1))]);
    } else if key_le(x.0 as int, s[0].0 as int, desc) {
        assert(relabel(seq![x] + s, f) =~= seq![(x.0, f(x.1))] + relabel(s, f));
    } else {
        lemma_insert_relabel(x, s.drop_first(), desc, f);
        assert(relabel(s, f).drop_first() =~= relabel(s.drop_first(), f));
        assert(relabel(seq![s[0]] + insert_before(x, s.drop_first(), desc), f) =~= seq![
            relabel(s, f)[0],
        ] + relabel(insert_before(x, s.drop_first(), desc), f));
    }
}

/// Sorting commutes with relabelling payloads: the order depends on the
/// keys alone.
pub proof fn lemma_sorted_relabel<T, U>(s: Seq<(i64, T)>, desc: bool, f: spec_fn(T) -> U)
    ensures
        relabel(stable_sorted(s, desc), f) == stable_sorted(relabel(s, f), desc),
    decreases s.len(),
{
    if s.len() > 0 {
        lemma_sorted_relabel(s.drop_first(), desc, f);
        assert(relabel(s, f).drop_first() =~= relabel(s.drop_first(), f));
        lemma_insert_relabel(s[0], stable_sorted(s.drop_first(), desc), desc, f);
    } else {
        assert(relabel(s, f) =~= relabel(s, f));
    }
}

proof fn lemma_insert_all<T>(x: (i64, T), s: Seq<(i64, T)>, desc: bool, p: spec_fn((i64, T)) -> bool)
    requires
        p(x),
        forall|i: int| 0 <= i < s.len() ==> p(#[trigger] s[i]),
    ensures
        forall|i: int| 0 <= i < insert_before(x, s, desc).len() ==> p(#[trigger] insert_before(x, s, desc)[i]),
    decreases s.len(),
{
    if s.len() > 0 && !key_le(x.0 as int, s[0].0 as int, desc) {
        let t = s.drop_first();
        assert forall|i: int| 0 <= i < t.len() implies p(#[trigger] t[i]) by {
            assert(t[i] == s[i + 1]);
        }
        lemma_insert_all(x, t, desc, p);
        let r = insert_before(x, t, desc);
        assert forall|i: int| 0 <= i < (seq![s[0]] + r).len() implies p(#[trigger] (seq![s[0]] + r)[i]) by {
            if i > 0 {
                assert((seq![s[0]] + r)[i] == r[i - 1]);
            }
        }
    } else if s.len() > 0 {
        assert forall|i: int| 0 <= i < (seq![x] + s).len() implies p(#[trigger] (seq![x] + s)[i]) by {
            if i > 0 {
                assert((seq![x] + s)[i] == s[i - 1]);
            }
        }
    }
}

/// A property that holds of every item holds of every item after sorting.
pub proof fn lemma_sorted_all<T>(s: Seq<(i64, T)>, desc: bool, p: spec_fn((i64, T)) -> bool)
    requires
        forall|i: int| 0 <= i < s.len() ==> p(#[trigger] s[i]),
    ensures
        forall|i: int| 0 <= i < stable_sorted(s, desc).len() ==> p(#[trigger] stable_sorted(s, desc)[i]),
    decreases s.len(),
{
    if s.len() > 0 {
        let t = s.drop_first();
        assert forall|i: int| 0 <= i < t.len() implies p(#[trigger] t[i]) by {
            assert(t[i] == s[i + 1]);
        }
        lemma_sorted_all(t, desc, p);
        lemma_insert_all(s[0], stable_sorted(t, desc), desc, p);
    }
}

pub open spec fn keys_ordered<T>(s: Seq<(i64, T)>, desc: bool) -> bool {
    forall|i: int, j: int| 0 <= i < j < s.len() ==> key_le(#[trigger] s[i].0 as int, #[trigger] s[j].0 as int, desc)
}

proof fn lemma_insert_ordered<T>(x: (i64, T), s: Seq<(i64, T)>, desc: bool)
    requires
        keys_ordered(s, desc),
    ensures
        keys_ordered(insert_before(x, s, desc), desc),
    decreases s.len(),
{
    if s.len() == 0 {
    } else if key_le(x.0 as int, s[0].0 as int, desc) {
        let r = seq![x] + s;
        assert forall|i: int, j: int| 0 <= i < j < r.len() implies key_le(#[trigger] r[i].0 as int, #[trigger] r[j].0 as int, desc) by {
            if i == 0 {
                assert(r[j] == s[j - 1]);
                if j > 1 {
                    assert(key_le(s[0].0 as int, s[j - 1].0 as int, desc));
                }
            } else {
                assert(r[i] == s[i - 1] && r[j] == s[j - 1]);
            }
        }
    } else {
        let t = s.drop_first();
        assert forall|i: int, j: int| 0 <= i < j < t.len() implies key_le(#[trigger] t[i].0 as int, #[trigger] t[j].0 as int, desc) by {
            assert(t[i] == s[i + 1] && t[j] == s[j + 1]);
        }
        lemma_insert_ordered(x, t, desc);
        let ins = insert_before(x, t, desc);
        let p = |q: (i64, T)| key_le(s[0].0 as int, q.0 as int, desc);
        assert forall|i: int| 0 <= i < t.len() implies p(#[trigger] t[i]) by {
            assert(t[i] == s[i + 1]);
            assert(key_le(s[0].0 as int, s[i + 1].0 as int, desc));
        }
        lemma_insert_all(x, t, desc, p);
        let r = seq![s[0]] + ins;
        assert forall|i: int, j: int| 0 <= i < j < r.len() implies key_le(#[trigger] r[i].0 as int, #[trigger] r[j].0 as int, desc) by {
            assert(r[j] == ins[j - 1]);
            if i == 0 {
                assert(p(ins[j - 1]));
            } else {
                assert(r[i] == ins[i - 1]);
            }
        }
    }
}

/// The sorted items are in key order.
pub proof fn lemma_sorted_ordered<T>(s: Seq<(i64, T)>, desc: bool)
    ensures
        keys_ordered(stable_sorted(s, desc), desc),
    decreases s.len(),
{
    if s.len() > 0 {
        lemma_sorted_ordered(s.drop_first(), desc);
        lemma_insert_ordered(s[0], stable_sorted(s.drop_first(), desc), desc);
    }
}

fn may_precede(a: i64, b: i64, desc: bool) -> (res: bool)
    ensures
        res == key_le(a as int, b as int, desc),
{
    if desc {
        a >= b
    } else {
        a <= b
    }
}

/// Sorts `items` stably by their keys (ascending, or descending when `desc`).
pub fn sort_by_key<T>(items: Vec<(i64, T)>, desc: bool) -> (res: Vec<(i64, T)>)
    ensures
        res@ == stable_sorted(items@, desc),
{
    let ghost orig = items@;
    let n = items.len();
    let mut rest = items;
    let mut out: Vec<(i64, T)> = Vec::new();
    while rest.len() > 0
        invariant
            rest@ == orig.take(rest@.len() as int),
            rest@.len() <= orig.len(),
            out@ == stable_sorted(orig.skip(rest@.len() as int), desc),
        decreases rest@.len(),
    {
        let ghost k = rest@.len() as int;
        let x = rest.pop().unwrap();
        assert(x == orig[k - 1]);
        assert(orig.skip(k - 1).drop_first() =~= orig.skip(k));
        assert(orig.skip(k - 1)[0] == orig[k - 1]);
        assert(rest@ =~= orig.take(k - 1));
        let mut p: usize = 0;
        let xk = x.0;
        while p < out.len() && !may_precede(xk, out[p].0, desc)
            invariant
                p <= out@.len(),
                forall|i: int| 0 <= i < p ==> !key_le(xk as int, #[trigger] out@[i].0 as int, desc),
            decreases out@.len() - p,
        {
            p += 1;
        }
        proof {
            lemma_insert_at(x, out@, desc, p as int);
        }
        let ghost before = out@;
        out.insert(p, x);
        assert(out@ =~= before.take(p as int) + seq![x] + before.skip(p as int));
    }
    assert(orig.skip(0) =~= orig);
    out
}

/// The payloads of keyed items, in order.
pub fn payloads<K, T>(v: Vec<(K, T)>) -> (res: Vec<T>)
    ensures
        res@ == v@.map_values(|p: (K, T)| p.1),
{
    let ghost sv = v@;
    let mut rest = v;
    let mut rev: Vec<T> = Vec::new();
    while rest.len() > 0
        invariant
            rest@ == sv.take(rest@.len() as int),
            rest@.len() <= sv.len(),
            rev@.len() == sv.len() - rest@.len(),
            forall|t: int| 0 <= t < rev@.len() ==> #[trigger] rev@[t] == sv[sv.len() - 1 - t].1,
        decreases rest@.len(),
    {
        let ghost k = rest@.len();
        let (_, n) = rest.pop().unwrap();
        assert(rest@ =~= sv.take(k - 1));
        rev.push(n);
    }
    let mut out: Vec<T> = Vec::new();
    while rev.len() > 0
        invariant
            rev@.len() + out@.len() == sv.len(),
            forall|t: int| 0 <= t < rev@.len() ==> #[trigger] rev@[t] == sv[sv.len() - 1 - t].1,
            forall|t: int| 0 <= t < out@.len() ==> #[trigger] out@[t] == sv[t].1,
        decreases rev@.len(),
    {
        let n = rev.pop().unwrap();
        out.push(n);
    }
    assert(out@ =~= sv.map_values(|p: (K, T)| p.1));
    out
}

// ---------------------------------------------------------------------------
// Stable ordering by a text key
// ---------------------------------------------------------------------------

/// Whether text `a` may stay in front of `b` (ascending, or descending
/// when `desc`), equal texts allowed.
pub open spec fn text_le(a: Seq<char>, b: Seq<char>, desc: bool) -> bool {
    if desc {
        !lex_lt(a, b)
    } else {
        !lex_lt(b, a)
    }
}

pub open spec fn insert_before_text<T>(x: (Seq<char>, T), s: Seq<(Seq<char>, T)>, desc: bool) -> Seq<(Seq<char>, T)>
    decreases s.len(),
{
    if s.len() == 0 {
        seq![x]
    } else if text_le(x.0, s[0].0, desc) {
        seq![x] + s
    } else {
        seq![s[0]] + insert_before_text(x, s.drop_first(), desc)
    }
}

/// The stable sort of `s` by its text keys.
pub open spec fn text_sorted<T>(s: Seq<(Seq<char>, T)>, desc: bool) -> Seq<(Seq<char>, T)>
    decreases s.len(),
{
    if s.len() == 0 {
        s
    } else {
        insert_before_text(s[0], text_sorted(s.drop_first(), desc), desc)
    }
}

proof fn lemma_text_insert_at<T>(x: (Seq<char>, T), s: Seq<(Seq<char>, T)>, desc: bool, p: int)
    requires
        0 <= p <= s.len(),
        forall|i: int| 0 <= i < p ==> !text_le(x.0, #[trigger] s[i].0, desc),
        p < s.len() ==> text_le(x.0, s[p].0, desc),
    ensures
        insert_before_text(x, s, desc) == s.take(p) + seq![x] + s.skip(p),
    decreases s.len(),
{
    if s.len() == 0 {
        assert(s.take(p) + seq![x] + s.skip(p) =~= seq![x]);
    } else if p == 0 {
        assert(s.take(p) + seq![x] + s.skip(p) =~= seq![x] + s);
    } else {
        let t = s.drop_first();
        assert forall|i: int| 0 <= i < p - 1 implies !text_le(x.0, #[trigger] t[i].0, desc) by {
            assert(t[i] == s[i + 1]);
        }
        lemma_text_insert_at(x, t, desc, p - 1);
        assert(seq![s[0]] + (t.take(p - 1) + seq![x] + t.skip(p - 1)) =~= s.take(p) + seq![x] + s.skip(p));
    }
}

pub open spec fn text_keyed<T>(v: Seq<(String, T)>) -> Seq<(Seq<char>, T)> {
    v.map_values(|p: (String, T)| (p.0@, p.1))
}

fn text_may_precede(a: &String, b: &String, desc: bool) -> (res: bool)
    ensures
        res == text_le(a@, b@, desc),
{
    if desc {
        !str_lt(a, b)
    } else {
        !str_lt(b, a)
    }
}

/// Sorts `items` stably by their text keys (ascending, or descending
/// when `desc`).
pub fn sort_by_text<T>(items: Vec<(String, T)>, desc: bool) -> (res: Vec<(String, T)>)
    ensures
        text_keyed(res@) == text_sorted(text_keyed(items@), desc),
{
    let ghost orig = text_keyed(items@);
    let ghost iv = items@;
    let mut rest = items;
    let mut out: Vec<(String, T)> = Vec::new();
    assert(orig.skip(orig.len() as int) =~= Seq::<(Seq<char>, T)>::empty());
    assert(text_keyed(out@) =~= Seq::<(Seq<char>, T)>::empty());
    while rest.len() > 0
        invariant
            orig == text_keyed(iv),
            rest@ == iv.take(rest@.len() as int),
            rest@.len() <= iv.len(),
            text_keyed(out@) == text_sorted(orig.skip(rest@.len() as int), desc),
        decreases rest@.len(),
    {
        let ghost k = rest@.len() as int;
        let x = rest.pop().unwrap();
        assert(x == iv[k - 1]);
        assert(orig.skip(k - 1).drop_first() =~= orig.skip(k));
        assert(orig.skip(k - 1)[0] == (x.0@, x.1));
        assert(rest@ =~= iv.take(k - 1));
        let mut p: usize = 0;
        while p < out.len() && !text_may_precede(&x.0, &out[p].0, desc)
            invariant
                p <= out@.len(),
                forall|i: int| 0 <= i < p ==> !text_le(x.0@, #[trigger] text_keyed(out@)[i].0, desc),
            decreases out@.len() - p,
        {
            assert(text_keyed(out@)[p as int].0 == out@[p as int].0@);
            p += 1;
        }
        let ghost before = text_keyed(out@);
        proof {
            if p < out@.len() {
                assert(before[p as int].0 == out@[p as int].0@);
            }
            lemma_text_insert_at((x.0@, x.1), before, desc, p as int);
        }
        let ghost bo = out@;
        out.insert(p, x);
        assert(out@ =~= bo.take(p as int) + seq![x] + bo.skip(p as int));
        assert(text_keyed(out@) =~= before.take(p as int) + seq![(x.0@, x.1)] + before.skip(p as int));
    }
    assert(orig.skip(0) =~= orig);
    out
}

} // verus!

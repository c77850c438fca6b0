//! Totals per text key (a month, a day), kept in ascending key order.

use vstd::prelude::*;
use crate::text::chars_of;

verus! {

/// Lexicographic order of character sequences (the order of `str`).
pub open spec fn lex_lt(a: Seq<char>, b: Seq<char>) -> bool
    decreases a.len(),
{
    if a.len() == 0 {
        b.len() > 0
    } else if b.len() == 0 {
        false
    } else if a[0] != b[0] {
        a[0] < b[0]
    } else {
        lex_lt(a.drop_first(), b.drop_first())
    }
}

pub proof fn lemma_lex_total(a: Seq<char>, b: Seq<char>)
    ensures
        lex_lt(a, b) || lex_lt(b, a) || a == b,
        !(lex_lt(a, b) && lex_lt(b, a)),
        !lex_lt(a, a),
    decreases a.len(),
{
    if a.len() > 0 && b.len() > 0 {
        if a[0] == b[0] {
            lemma_lex_total(a.drop_first(), b.drop_first());
            if a.drop_first() == b.drop_first() {
                assert(a.len() == b.len());
                assert forall|i: int| 0 <= i < a.len() implies a[i] == b[i] by {
                    if i > 0 {
                        assert(a[i] == a.drop_first()[i - 1]);
                        assert(b[i] == b.drop_first()[i - 1]);
                    }
                }
                assert(a =~= b);
            }
        }
    } else if a.len() == 0 && b.len() == 0 {
        assert(a =~= b);
    }
    if a.len() > 0 {
        lemma_lex_total(a.drop_first(), a.drop_first());
    }
}

pub proof fn lemma_lex_trans(a: Seq<char>, b: Seq<char>, c: Seq<char>)
    requires
        lex_lt(a, b),
        lex_lt(b, c),
    ensures
        lex_lt(a, c),
    decreases a.len(),
{
    if a.len() > 0 && b.len() > 0 && c.len() > 0 {
        if a[0] == b[0] && b[0] == c[0] {
            lemma_lex_trans(a.drop_first(), b.drop_first(), c.drop_first());
        }
    }
}

/// The keys are in strictly ascending order.
pub open spec fn ascending(keys: Seq<Seq<char>>) -> bool {
    forall|i: int, j: int| 0 <= i < j < keys.len() ==> lex_lt(#[trigger] keys[i], #[trigger] keys[j])
}

/// The sum of the amounts recorded under `k`.
pub open spec fn sum_for(items: Seq<(Seq<char>, i64)>, k: Seq<char>) -> int
    decreases items.len(),
{
    if items.len() == 0 {
        0
    } else {
        sum_for(items.drop_last(), k) + if items.last().0 == k {
            items.last().1 as int
        } else {
            0
        }
    }
}

/// How many amounts are recorded under `k`.
pub open spec fn count_for(items: Seq<(Seq<char>, i64)>, k: Seq<char>) -> int
    decreases items.len(),
{
    if items.len() == 0 {
        0
    } else {
        count_for(items.drop_last(), k) + if items.last().0 == k {
            1int
        } else {
            0
        }
    }
}

/// The sum of the absolute amounts.
pub open spec fn abs_total(items: Seq<(Seq<char>, i64)>) -> int
    decreases items.len(),
{
    if items.len() == 0 {
        0
    } else {
        abs_total(items.drop_last()) + if items.last().1 < 0 {
            -(items.last().1 as int)
        } else {
            items.last().1 as int
        }
    }
}

pub open spec fn has_key(items: Seq<(Seq<char>, i64)>, k: Seq<char>) -> bool {
    exists|j: int| 0 <= j < items.len() && (#[trigger] items[j]).0 == k
}

/// A tally of `items` (with `seeds` as keys too): ascending unique keys,
/// each with the sum and the count of its amounts.
pub open spec fn is_tally(
    seeds: Seq<Seq<char>>,
    items: Seq<(Seq<char>, i64)>,
    res: Seq<(Seq<char>, i64, i64)>,
) -> bool {
    let keys = res.map_values(|e: (Seq<char>, i64, i64)| e.0);
    &&& ascending(keys)
    &&& forall|k: Seq<char>| keys.contains(k) <==> (seeds.contains(k) || has_key(items, k))
    &&& forall|i: int|
        0 <= i < res.len() ==> (#[trigger] res[i]).1 == sum_for(items, res[i].0) && res[i].2 == count_for(
            items,
            res[i].0,
        )
}

pub open spec fn items_view(v: Seq<(String, i64)>) -> Seq<(Seq<char>, i64)> {
    v.map_values(|p: (String, i64)| (p.0@, p.1))
}

pub open spec fn tally_view(v: Seq<(String, i64, i64)>) -> Seq<(Seq<char>, i64, i64)> {
    v.map_values(|p: (String, i64, i64)| (p.0@, p.1, p.2))
}

pub open spec fn texts_view(v: Seq<String>) -> Seq<Seq<char>> {
    v.map_values(|s: String| s@)
}

/// Whether `a` sorts before `b`.
pub fn str_lt(a: &String, b: &String) -> (res: bool)
    ensures
        res == lex_lt(a@, b@),
{
    let x = chars_of(a.as_str());
    let y = chars_of(b.as_str());
    let mut i: usize = 0;
    assert(x@.skip(0) =~= x@);
    assert(y@.skip(0) =~= y@);
    while i < x.len() && i < y.len() && x[i] == y[i]
        invariant
            x@ == a@,
            y@ == b@,
            i <= x@.len(),
            i <= y@.len(),
            lex_lt(x@, y@) == lex_lt(x@.skip(i as int), y@.skip(i as int)),
        decreases x@.len() - i,
    {
        assert(x@.skip(i as int).drop_first() =~= x@.skip(i + 1));
        assert(y@.skip(i as int).drop_first() =~= y@.skip(i + 1));
        i += 1;
    }
    if i == x.len() {
        return i < y.len();
    }
    if i == y.len() {
        return false;
    }
    x[i] < y[i]
}

pub(crate) proof fn lemma_sum_step(items: Seq<(Seq<char>, i64)>, n: int, k: Seq<char>)
    requires
        0 <= n < items.len(),
    ensures
        sum_for(items.take(n + 1), k) == sum_for(items.take(n), k) + if items[n].0 == k {
            items[n].1 as int
        } else {
            0
        },
        count_for(items.take(n + 1), k) == count_for(items.take(n), k) + if items[n].0 == k {
            1int
        } else {
            0
        },
        abs_total(items.take(n + 1)) == abs_total(items.take(n)) + if items[n].1 < 0 {
            -(items[n].1 as int)
        } else {
            items[n].1 as int
        },
{
    assert(items.take(n + 1).drop_last() =~= items.take(n));
}

pub(crate) proof fn lemma_sum_bound(items: Seq<(Seq<char>, i64)>, k: Seq<char>)
    ensures
        -abs_total(items) <= sum_for(items, k) <= abs_total(items),
        0 <= count_for(items, k) <= items.len(),
        abs_total(items) >= 0,
    decreases items.len(),
{
    if items.len() > 0 {
        lemma_sum_bound(items.drop_last(), k);
    }
}

pub(crate) proof fn lemma_abs_prefix(items: Seq<(Seq<char>, i64)>, n: int)
    requires
        0 <= n <= items.len(),
    ensures
        abs_total(items.take(n)) <= abs_total(items),
    decreases items.len() - n,
{
    if n < items.len() {
        lemma_abs_prefix(items, n + 1);
        lemma_sum_step(items, n, seq![]);
    } else {
        assert(items.take(n) =~= items);
    }
}

/// Finds where `key` belongs among ascending keys: the first entry whose
/// key is not below it.
fn find_slot(list: &Vec<(String, i64, i64)>, key: &String) -> (res: usize)
    requires
        ascending(tally_view(list@).map_values(|e: (Seq<char>, i64, i64)| e.0)),
    ensures
        res <= list@.len(),
        forall|t: int| 0 <= t < res ==> lex_lt(#[trigger] list@[t].0@, key@),
        res < list@.len() ==> !lex_lt(list@[res as int].0@, key@),
{
    let mut p: usize = 0;
    while p < list.len() && str_lt(&list[p].0, key)
        invariant
            p <= list@.len(),
            forall|t: int| 0 <= t < p ==> lex_lt(#[trigger] list@[t].0@, key@),
        decreases list@.len() - p,
    {
        p += 1;
    }
    p
}

pub open spec fn keys_of(list: Seq<(Seq<char>, i64, i64)>) -> Seq<Seq<char>> {
    list.map_values(|e: (Seq<char>, i64, i64)| e.0)
}

proof fn lemma_absent_zero(items: Seq<(Seq<char>, i64)>, k: Seq<char>)
    requires
        !has_key(items, k),
    ensures
        sum_for(items, k) == 0,
        count_for(items, k) == 0,
    decreases items.len(),
{
    if items.len() > 0 {
        let d = items.drop_last();
        assert(!has_key(d, k)) by {
            if has_key(d, k) {
                let j = choose|j: int| 0 <= j < d.len() && (#[trigger] d[j]).0 == k;
                assert(items[j] == d[j]);
            }
        }
        lemma_absent_zero(d, k);
        assert(items.last() == items[items.len() - 1]);
    }
}

proof fn lemma_has_key_step(items: Seq<(Seq<char>, i64)>, n: int, k: Seq<char>)
    requires
        0 <= n < items.len(),
    ensures
        has_key(items.take(n + 1), k) <==> (has_key(items.take(n), k) || items[n].0 == k),
{
    let a = items.take(n);
    let b = items.take(n + 1);
    if has_key(b, k) {
        let j = choose|j: int| 0 <= j < b.len() && (#[trigger] b[j]).0 == k;
        if j < n {
            assert(a[j] == b[j]);
        }
    }
    if has_key(a, k) {
        let j = choose|j: int| 0 <= j < a.len() && (#[trigger] a[j]).0 == k;
        assert(b[j] == a[j]);
    }
    if items[n].0 == k {
        assert(b[n] == items[n]);
    }
}

/// Adds `amount` (and `inc` to the count) under `key`, keeping the keys
/// ascending and unique.
fn upsert(list: &mut Vec<(String, i64, i64)>, key: &String, amount: i64, inc: i64)
    requires
        ascending(keys_of(tally_view(old(list)@))),
        forall|i: int|
            0 <= i < old(list)@.len() && (#[trigger] old(list)@[i]).0@ == key@ ==> i64::MIN <= old(list)@[i].1
                + amount <= i64::MAX && i64::MIN <= old(list)@[i].2 + inc <= i64::MAX,
    ensures
        ascending(keys_of(tally_view(final(list)@))),
        forall|k: Seq<char>|
            keys_of(tally_view(final(list)@)).contains(k) <==> (keys_of(tally_view(old(list)@)).contains(k) || k
                == key@),
        forall|i: int|
            0 <= i < final(list)@.len() ==> {
                let e = #[trigger] final(list)@[i];
                if e.0@ == key@ {
                    if keys_of(tally_view(old(list)@)).contains(key@) {
                        exists|j: int|
                            0 <= j < old(list)@.len() && old(list)@[j].0@ == key@ && e.1 == old(list)@[j].1
                                + amount && e.2 == old(list)@[j].2 + inc
                    } else {
                        e.1 == amount && e.2 == inc
                    }
                } else {
                    exists|j: int| 0 <= j < old(list)@.len() && old(list)@[j].0@ == e.0@ && e.1 == old(list)@[j].1 && e.2 == old(list)@[j].2
                }
            },
{
    let ghost ol = old(list)@;
    let ghost ok = keys_of(tally_view(ol));
    let p = find_slot(list, key);
    let mut found = false;
    if p < list.len() {
        found = list[p].0 == *key;
    }
    if found {
        let (k, v, c) = list.remove(p);
        assert(ol[p as int].0@ == key@);
        assert((k, v, c) == ol[p as int]);
        assert(0 <= p < old(list)@.len() && (old(list)@[p as int]).0@ == key@);
        list.insert(p, (k, v + amount, c + inc));
        let ghost nl = list@;
        assert(keys_of(tally_view(nl)) =~= ok);
        assert(ok[p as int] == key@);
        assert(ok.contains(key@));
        proof {
            assert forall|i: int| 0 <= i < nl.len() implies {
                let e = #[trigger] nl[i];
                if e.0@ == key@ {
                    if ok.contains(key@) {
                        exists|j: int|
                            0 <= j < ol.len() && ol[j].0@ == key@ && e.1 == ol[j].1 + amount && e.2 == ol[j].2
                                + inc
                    } else {
                        e.1 == amount && e.2 == inc
                    }
                } else {
                    exists|j: int| 0 <= j < ol.len() && ol[j].0@ == e.0@ && e.1 == ol[j].1 && e.2 == ol[j].2
                }
            } by {
                assert(ok[p as int] == key@);
                if i == p {
                } else {
                    assert(nl[i] == ol[i]);
                    if nl[i].0@ == key@ {
                        assert(ok[i] == ok[p as int]);
                        if i < p {
                            assert(lex_lt(ok[i], ok[p as int]));
                        } else {
                            assert(lex_lt(ok[p as int], ok[i]));
                        }
                        lemma_lex_total(key@, key@);
                    }
                }
            }
        }
    } else {
        let ghost k0 = key@;
        proof {
            if ok.contains(k0) {
                let q = choose|q: int| 0 <= q < ok.len() && ok[q] == k0;
                if q < p {
                    assert(lex_lt(ol[q].0@, k0));
                    lemma_lex_total(k0, k0);
                } else if q == p {
                } else {
                    assert(lex_lt(ok[p as int], ok[q]));
                    lemma_lex_total(ok[p as int], k0);
                    if lex_lt(k0, ok[p as int]) {
                        lemma_lex_trans(k0, ok[p as int], ok[q]);
                        lemma_lex_total(k0, k0);
                    }
                }
            }
        }
        list.insert(p, (key.clone(), amount, inc));
        let ghost nl = list@;
        let ghost nk = keys_of(tally_view(nl));
        assert(nk =~= ok.insert(p as int, k0));
        proof {
            assert forall|i: int, j: int| 0 <= i < j < nk.len() implies lex_lt(#[trigger] nk[i], #[trigger] nk[j]) by {
                if j < p {
                    assert(nk[i] == ok[i] && nk[j] == ok[j]);
                } else if j == p {
                    assert(nk[i] == ok[i]);
                } else if i == p {
                    assert(nk[j] == ok[j - 1]);
                    if j - 1 == p {
                        lemma_lex_total(ok[p as int], k0);
                    } else {
                        assert(lex_lt(ok[p as int], ok[j - 1]));
                        lemma_lex_total(ok[p as int], k0);
                        lemma_lex_trans(k0, ok[p as int], ok[j - 1]);
                    }
                } else if i < p {
                    assert(nk[i] == ok[i] && nk[j] == ok[j - 1]);
                    assert(lex_lt(ok[i], k0));
                    if j - 1 > i {
                    }
                    lemma_lex_total(ok[p as int], k0);
                    if j - 1 == p {
                        lemma_lex_trans(ok[i], k0, ok[p as int]);
                    } else {
                        lemma_lex_trans(ok[i], k0, ok[p as int]);
                        lemma_lex_trans(ok[i], ok[p as int], ok[j - 1]);
                    }
                } else {
                    assert(nk[i] == ok[i - 1] && nk[j] == ok[j - 1]);
                }
            }
            assert forall|k: Seq<char>| nk.contains(k) <==> (ok.contains(k) || k == k0) by {
                if nk.contains(k) {
                    let q = choose|q: int| 0 <= q < nk.len() && nk[q] == k;
                    if q < p {
                        assert(ok[q] == k);
                    } else if q > p {
                        assert(ok[q - 1] == k);
                    }
                }
                if ok.contains(k) {
                    let q = choose|q: int| 0 <= q < ok.len() && ok[q] == k;
                    if q < p {
                        assert(nk[q] == k);
                    } else {
                        assert(nk[q + 1] == k);
                    }
                }
                if k == k0 {
                    assert(nk[p as int] == k);
                }
            }
            assert forall|i: int| 0 <= i < nl.len() implies {
                let e = #[trigger] nl[i];
                if e.0@ == key@ {
                    if ok.contains(key@) {
                        exists|j: int|
                            0 <= j < ol.len() && ol[j].0@ == key@ && e.1 == ol[j].1 + amount && e.2 == ol[j].2
                                + inc
                    } else {
                        e.1 == amount && e.2 == inc
                    }
                } else {
                    exists|j: int| 0 <= j < ol.len() && ol[j].0@ == e.0@ && e.1 == ol[j].1 && e.2 == ol[j].2
                }
            } by {
                if i < p {
                    assert(nl[i] == ol[i]);
                    if nl[i].0@ == key@ {
                        assert(lex_lt(ol[i].0@, k0));
                        lemma_lex_total(k0, k0);
                    }
                } else if i > p {
                    assert(nl[i] == ol[i - 1]);
                    if nl[i].0@ == key@ {
                        assert(ok[i - 1] == k0);
                        assert(ok.contains(k0));
                    }
                }
            }
        }
    }
}

/// Totals per key: `seeds` are keys even without amounts; each item adds
/// its amount (and one to the count) under its key. Keys come out in
/// ascending order.
pub fn tally(seeds: &Vec<String>, items: &Vec<(String, i64)>) -> (res: Vec<(String, i64, i64)>)
    requires
        abs_total(items_view(items@)) <= i64::MAX,
        items@.len() <= i64::MAX,
    ensures
        is_tally(texts_view(seeds@), items_view(items@), tally_view(res@)),
{
    let ghost sv = texts_view(seeds@);
    let ghost iv = items_view(items@);
    let mut list: Vec<(String, i64, i64)> = Vec::new();
    let mut s: usize = 0;
    while s < seeds.len()
        invariant
            s <= seeds@.len(),
            sv == texts_view(seeds@),
            ascending(keys_of(tally_view(list@))),
            forall|k: Seq<char>| #[trigger] keys_of(tally_view(list@)).contains(k) <==> sv.take(s as int).contains(k),
            forall|i: int| 0 <= i < list@.len() ==> (#[trigger] list@[i]).1 == 0 && list@[i].2 == 0,
        decreases seeds@.len() - s,
    {
        let ghost ol = list@;
        upsert(&mut list, &seeds[s], 0, 0);
        proof {
            assert forall|k: Seq<char>| sv.take(s + 1).contains(k) <==> (sv.take(s as int).contains(k) || k
                == seeds@[s as int]@) by {
                if sv.take(s + 1).contains(k) {
                    let q = choose|q: int| 0 <= q < s + 1 && #[trigger] sv.take(s + 1)[q] == k;
                    if q < s {
                        assert(sv.take(s as int)[q] == k);
                    }
                }
                if sv.take(s as int).contains(k) {
                    let q = choose|q: int| 0 <= q < s && #[trigger] sv.take(s as int)[q] == k;
                    assert(sv.take(s + 1)[q] == k);
                }
                if k == seeds@[s as int]@ {
                    assert(sv.take(s + 1)[s as int] == k);
                }
            }
            assert forall|i: int| 0 <= i < list@.len() implies (#[trigger] list@[i]).1 == 0 && list@[i].2 == 0 by {
                let e = list@[i];
                if e.0@ == seeds@[s as int]@ {
                    if keys_of(tally_view(ol)).contains(seeds@[s as int]@) {
                        let j = choose|j: int|
                            0 <= j < ol.len() && ol[j].0@ == seeds@[s as int]@ && e.1 == ol[j].1 + 0 && e.2
                                == ol[j].2 + 0;
                        assert(ol[j].1 == 0);
                    }
                } else {
                    let j = choose|j: int| 0 <= j < ol.len() && ol[j].0@ == e.0@ && e.1 == ol[j].1 && e.2 == ol[j].2;
                    assert(ol[j].1 == 0);
                }
            }
        }
        s += 1;
    }
    assert(sv.take(seeds@.len() as int) =~= sv);
    proof {
        assert forall|i: int| 0 <= i < list@.len() implies (#[trigger] list@[i]).1 == sum_for(iv.take(0), list@[i].0@)
            && list@[i].2 == count_for(iv.take(0), list@[i].0@) by {
            assert(iv.take(0) =~= Seq::<(Seq<char>, i64)>::empty());
        }
        assert forall|k: Seq<char>| #[trigger] keys_of(tally_view(list@)).contains(k) <==> (sv.contains(k) || has_key(
            iv.take(0),
            k,
        )) by {
            assert(iv.take(0) =~= Seq::<(Seq<char>, i64)>::empty());
        }
    }
    let mut j: usize = 0;
    while j < items.len()
        invariant
            j <= items@.len(),
            items@.len() <= i64::MAX,
            sv == texts_view(seeds@),
            iv == items_view(items@),
            abs_total(iv) <= i64::MAX,
            ascending(keys_of(tally_view(list@))),
            forall|k: Seq<char>|
                #[trigger] keys_of(tally_view(list@)).contains(k) <==> (sv.contains(k) || has_key(
                    iv.take(j as int),
                    k,
                )),
            forall|i: int|
                0 <= i < list@.len() ==> (#[trigger] list@[i]).1 == sum_for(iv.take(j as int), list@[i].0@)
                    && list@[i].2 == count_for(iv.take(j as int), list@[i].0@),
        decreases items@.len() - j,
    {
        let ghost ol = list@;
        let ghost key = items@[j as int].0@;
        let ghost a = items@[j as int].1;
        proof {
            assert(iv[j as int] == (key, a));
            lemma_abs_prefix(iv, j + 1);
            lemma_sum_bound(iv.take(j + 1), key);
            lemma_sum_step(iv, j as int, key);
            assert forall|i: int| 0 <= i < ol.len() && (#[trigger] ol[i]).0@ == key implies i64::MIN <= ol[i].1 + a
                <= i64::MAX && i64::MIN <= ol[i].2 + 1 <= i64::MAX by {
                lemma_sum_bound(iv.take(j as int), key);
            }
        }
        upsert(&mut list, &items[j].0, items[j].1, 1);
        proof {
            let nl = list@;
            assert forall|k: Seq<char>| #[trigger] keys_of(tally_view(nl)).contains(k) <==> (sv.contains(k) || has_key(
                iv.take(j + 1),
                k,
            )) by {
                lemma_has_key_step(iv, j as int, k);
                assert(keys_of(tally_view(ol)).contains(k) <==> (sv.contains(k) || has_key(iv.take(j as int), k)));
            }
            assert forall|i: int| 0 <= i < nl.len() implies (#[trigger] nl[i]).1 == sum_for(iv.take(j + 1), nl[i].0@)
                && nl[i].2 == count_for(iv.take(j + 1), nl[i].0@) by {
                let e = nl[i];
                lemma_sum_step(iv, j as int, e.0@);
                if e.0@ == key {
                    if keys_of(tally_view(ol)).contains(key) {
                        let q = choose|q: int|
                            0 <= q < ol.len() && ol[q].0@ == key && e.1 == ol[q].1 + a && e.2 == ol[q].2 + 1;
                        assert(ol[q].1 == sum_for(iv.take(j as int), ol[q].0@));
                    } else {
                        assert(keys_of(tally_view(ol)).contains(key) <==> (sv.contains(key) || has_key(
                            iv.take(j as int),
                            key,
                        )));
                        assert(!has_key(iv.take(j as int), key));
                        lemma_absent_zero(iv.take(j as int), key);
                    }
                } else {
                    let q = choose|q: int| 0 <= q < ol.len() && ol[q].0@ == e.0@ && e.1 == ol[q].1 && e.2 == ol[q].2;
                    assert(ol[q].1 == sum_for(iv.take(j as int), ol[q].0@));
                }
            }
        }
        j += 1;
    }
    assert(iv.take(items@.len() as int) =~= iv);
    list
}

} // verus!

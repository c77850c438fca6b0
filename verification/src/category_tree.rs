//! The spending tree of the analytics page: categories with their own
//! spending and their subcategories, largest first.

use vstd::prelude::*;
use crate::models::Category;
use crate::analytics::{subtree, transfers_excluded_list, transfers_index};
use crate::sorting::{lemma_sorted_len, lemma_sorted_relabel, relabel, sort_by_key, stable_sorted};
use crate::tally::{lemma_lex_total, lemma_lex_trans, lex_lt, str_lt, texts_view};

verus! {

#[derive(Debug)]
pub struct CategoryTreeNode {
    pub name: String,
    pub color: String,
    pub amount_cents: Option<i64>,
    pub children: Vec<CategoryTreeNode>,
}

/// A tree node as data.
pub struct TreeView {
    pub name: Seq<char>,
    pub color: Seq<char>,
    pub amount: Option<i64>,
    pub children: Seq<TreeView>,
}

pub open spec fn node_view(n: CategoryTreeNode) -> TreeView
    decreases n, 1int,
{
    TreeView { name: n.name@, color: n.color@, amount: n.amount_cents, children: nodes_view(n.children@) }
}

pub open spec fn nodes_view(s: Seq<CategoryTreeNode>) -> Seq<TreeView>
    decreases s, 0int,
{
    if s.len() == 0 {
        seq![]
    } else {
        nodes_view(s.subrange(0, s.len() - 1)).push(node_view(s[s.len() - 1]))
    }
}

/// The total of a tree: its own amount and its children's totals.
pub open spec fn tree_total(v: TreeView) -> int
    decreases v, 1int,
{
    (match v.amount {
        Some(a) => a as int,
        None => 0,
    }) + trees_total(v.children)
}

pub open spec fn trees_total(s: Seq<TreeView>) -> int
    decreases s, 0int,
{
    if s.len() == 0 {
        0
    } else {
        trees_total(s.subrange(0, s.len() - 1)) + tree_total(s[s.len() - 1])
    }
}

/// Every total in the tree is an `i64`.
pub open spec fn fits(v: TreeView) -> bool
    decreases v, 1int,
{
    i64::MIN <= tree_total(v) <= i64::MAX && all_fit(v.children)
}

pub open spec fn all_fit(s: Seq<TreeView>) -> bool
    decreases s, 0int,
{
    s.len() == 0 || (all_fit(s.subrange(0, s.len() - 1)) && fits(s[s.len() - 1]))
}

/// Where a category's data is looked up: the last category with that id.
pub open spec fn last_with_id(cats: Seq<Category>, id: i64) -> Option<int>
    decreases cats.len(),
{
    if cats.len() == 0 {
        None
    } else if cats[cats.len() - 1].id == id {
        Some(cats.len() - 1)
    } else {
        last_with_id(cats.subrange(0, cats.len() - 1), id)
    }
}

/// The ids of the categories, not excluded, whose parent is `id`, in order.
pub open spec fn kid_ids(cats: Seq<Category>, excluded: Set<i64>, id: i64) -> Seq<i64>
    decreases cats.len(),
{
    if cats.len() == 0 {
        seq![]
    } else {
        let r = kid_ids(cats.subrange(0, cats.len() - 1), excluded, id);
        let c = cats[cats.len() - 1];
        if !excluded.contains(c.id) && c.parent_id == Some(id) {
            r.push(c.id)
        } else {
            r
        }
    }
}

/// The spending recorded for a category (0 when none).
pub open spec fn spend_of(spending: Seq<(i64, i64)>, id: i64) -> i64
    decreases spending.len(),
{
    if spending.len() == 0 {
        0
    } else if spending[0].0 == id {
        spending[0].1
    } else {
        spend_of(spending.drop_first(), id)
    }
}

pub open spec fn leaf(name: Seq<char>, color: Seq<char>, amount: i64) -> TreeView {
    TreeView { name, color, amount: Some(amount), children: seq![] }
}

/// Children ordered by total, largest first (stably).
pub open spec fn by_total_desc(kids: Seq<TreeView>) -> Seq<TreeView> {
    stable_sorted(kids.map_values(|k: TreeView| (tree_total(k) as i64, k)), true).map_values(
        |p: (i64, TreeView)| p.1,
    )
}

/// The tree of category `id`: its subcategories' trees ordered by total,
/// plus an "Other <name>" leaf for its own spending when it has both; a
/// leaf when it has only its own spending; nothing when it has neither.
/// Recursion stops after `fuel` levels.
pub open spec fn subtree_of(
    cats: Seq<Category>,
    excluded: Set<i64>,
    spending: Seq<(i64, i64)>,
    id: i64,
    fuel: nat,
) -> Option<TreeView>
    decreases fuel, 0int, 0int,
{
    if fuel == 0 {
        None
    } else {
        match last_with_id(cats, id) {
            None => None,
            Some(ci) => {
                let cat = cats[ci];
                let kids = by_total_desc(
                    subtrees_of(cats, excluded, spending, kid_ids(cats, excluded, id), (fuel - 1) as nat),
                );
                let direct = spend_of(spending, id);
                if kids.len() > 0 && direct > 0 {
                    Some(
                        TreeView {
                            name: cat.name@,
                            color: cat.color@,
                            amount: None,
                            children: kids.push(leaf("Other "@ + cat.name@, cat.color@, direct)),
                        },
                    )
                } else if kids.len() > 0 {
                    Some(TreeView { name: cat.name@, color: cat.color@, amount: None, children: kids })
                } else if direct > 0 {
                    Some(leaf(cat.name@, cat.color@, direct))
                } else {
                    None
                }
            },
        }
    }
}

/// The trees of the ids that have one, in order.
pub open spec fn subtrees_of(
    cats: Seq<Category>,
    excluded: Set<i64>,
    spending: Seq<(i64, i64)>,
    ids: Seq<i64>,
    fuel: nat,
) -> Seq<TreeView>
    decreases fuel, 1int, ids.len(),
{
    if ids.len() == 0 {
        seq![]
    } else {
        let r = subtrees_of(cats, excluded, spending, ids.subrange(0, ids.len() - 1), fuel);
        match subtree_of(cats, excluded, spending, ids[ids.len() - 1], fuel) {
            Some(t) => r.push(t),
            None => r,
        }
    }
}

pub(crate) proof fn lemma_node_view_children(n: CategoryTreeNode)
    ensures
        node_view(n).children == nodes_view(n.children@),
        node_view(n).amount == n.amount_cents,
{
}

pub proof fn lemma_nodes_view(s: Seq<CategoryTreeNode>)
    ensures
        nodes_view(s).len() == s.len(),
        forall|i: int| 0 <= i < s.len() ==> #[trigger] nodes_view(s)[i] == node_view(s[i]),
    decreases s.len(),
{
    if s.len() > 0 {
        let p = s.subrange(0, s.len() - 1);
        lemma_nodes_view(p);
        assert forall|i: int| 0 <= i < s.len() implies #[trigger] nodes_view(s)[i] == node_view(s[i]) by {
            if i < s.len() - 1 {
                assert(p[i] == s[i]);
            }
        }
    }
}

pub(crate) proof fn lemma_all_fit(s: Seq<TreeView>)
    ensures
        all_fit(s) <==> forall|i: int| 0 <= i < s.len() ==> fits(#[trigger] s[i]),
    decreases s.len(),
{
    if s.len() > 0 {
        let p = s.subrange(0, s.len() - 1);
        lemma_all_fit(p);
        if forall|i: int| 0 <= i < s.len() ==> fits(#[trigger] s[i]) {
            assert forall|i: int| 0 <= i < p.len() implies fits(#[trigger] p[i]) by {
                assert(p[i] == s[i]);
            }
        }
        if all_fit(s) {
            assert forall|i: int| 0 <= i < s.len() implies fits(#[trigger] s[i]) by {
                if i < s.len() - 1 {
                    assert(p[i] == s[i]);
                }
            }
        }
    }
}

pub(crate) proof fn lemma_trees_total_step(s: Seq<TreeView>, i: int)
    requires
        0 <= i < s.len(),
    ensures
        trees_total(s.subrange(0, i + 1)) == trees_total(s.subrange(0, i)) + tree_total(s[i]),
{
    let q = s.subrange(0, i + 1);
    assert(q.subrange(0, q.len() - 1) =~= s.subrange(0, i));
    assert(q[q.len() - 1] == s[i]);
}

/// The total of a node when every total in it is an `i64`; `None` when
/// one is not.
pub fn checked_total(node: &CategoryTreeNode) -> (res: Option<i64>)
    ensures
        match res {
            Some(t) => fits(node_view(*node)) && t as int == tree_total(node_view(*node)),
            None => !fits(node_view(*node)),
        },
    decreases *node,
{
    let ghost v = node_view(*node);
    let ghost kids = nodes_view(node.children@);
    proof {
        lemma_nodes_view(node.children@);
        lemma_all_fit(kids);
        lemma_node_view_children(*node);
    }
    let mut sum: i128 = 0;
    let mut i: usize = 0;
    while i < node.children.len()
        invariant
            i <= node.children@.len(),
            kids == nodes_view(node.children@),
            v == node_view(*node),
            v.children == kids,
            v.amount == node.amount_cents,
            kids.len() == node.children@.len(),
            forall|k: int| 0 <= k < kids.len() ==> #[trigger] kids[k] == node_view(node.children@[k]),
            forall|k: int| 0 <= k < i ==> fits(#[trigger] kids[k]),
            sum as int == trees_total(kids.subrange(0, i as int)),
            -0x8000_0000_0000_0000 * i <= sum <= 0x7fff_ffff_ffff_ffff * i,
        decreases node.children@.len() - i,
    {
        match checked_total(&node.children[i]) {
            None => {
                proof {
                    lemma_all_fit(kids);
                    assert(!fits(kids[i as int]));
                    assert(!all_fit(kids));
                    assert(!fits(v));
                }
                return None;
            },
            Some(t) => {
                proof {
                    lemma_trees_total_step(kids, i as int);
                }
                assert(i < 0x1_0000_0000_0000_0000);
                sum = sum + t as i128;
            },
        }
        i += 1;
    }
    assert(kids.subrange(0, kids.len() as int) =~= kids);
    let own: i128 = match node.amount_cents {
        Some(a) => a as i128,
        None => 0,
    };
    let total = own + sum;
    if total < i64::MIN as i128 || total > i64::MAX as i128 {
        return None;
    }
    proof {
        lemma_all_fit(kids);
    }
    Some(total as i64)
}

/// The total of a node: its own amount and its children's totals.
pub fn tree_node_total(node: &CategoryTreeNode) -> (res: i64)
    requires
        fits(node_view(*node)),
    ensures
        res as int == tree_total(node_view(*node)),
{
    match checked_total(node) {
        Some(t) => t,
        None => 0,
    }
}

/// Some subtree (this one or one below it) has a total outside `i64`.
pub open spec fn subtree_overflows(
    cats: Seq<Category>,
    excluded: Set<i64>,
    spending: Seq<(i64, i64)>,
    id: i64,
    fuel: nat,
) -> bool
    decreases fuel, 0int, 0int,
{
    if fuel == 0 {
        false
    } else {
        match last_with_id(cats, id) {
            None => false,
            Some(_) => subtrees_overflow(cats, excluded, spending, kid_ids(cats, excluded, id), (fuel - 1) as nat)
                || match subtree_of(cats, excluded, spending, id, fuel) {
                Some(v) => !(i64::MIN <= tree_total(v) <= i64::MAX),
                None => false,
            },
        }
    }
}

pub open spec fn subtrees_overflow(
    cats: Seq<Category>,
    excluded: Set<i64>,
    spending: Seq<(i64, i64)>,
    ids: Seq<i64>,
    fuel: nat,
) -> bool
    decreases fuel, 1int, ids.len(),
{
    ids.len() > 0 && (subtrees_overflow(cats, excluded, spending, ids.subrange(0, ids.len() - 1), fuel)
        || subtree_overflows(cats, excluded, spending, ids[ids.len() - 1], fuel))
}

pub(crate) fn find_last(cats: &Vec<Category>, id: i64) -> (res: Option<usize>)
    ensures
        match res {
            Some(i) => i < cats@.len() && last_with_id(cats@, id) == Some(i as int),
            None => last_with_id(cats@, id) is None,
        },
{
    let mut n: usize = cats.len();
    assert(cats@.subrange(0, n as int) =~= cats@);
    while n > 0
        invariant
            n <= cats@.len(),
            last_with_id(cats@, id) == last_with_id(cats@.subrange(0, n as int), id),
        decreases n,
    {
        let ghost p = cats@.subrange(0, n as int);
        assert(p.subrange(0, p.len() - 1) =~= cats@.subrange(0, n - 1));
        if cats[n - 1].id == id {
            return Some(n - 1);
        }
        n -= 1;
    }
    None
}

pub(crate) fn contains_id(v: &Vec<i64>, x: i64) -> (res: bool)
    ensures
        res == v@.contains(x),
{
    let mut i: usize = 0;
    while i < v.len()
        invariant
            i <= v@.len(),
            forall|t: int| 0 <= t < i ==> v@[t] != x,
        decreases v@.len() - i,
    {
        if v[i] == x {
            assert(v@[i as int] == x);
            return true;
        }
        i += 1;
    }
    false
}

pub(crate) fn collect_kids(cats: &Vec<Category>, excluded: &Vec<i64>, id: i64) -> (res: Vec<i64>)
    ensures
        res@ == kid_ids(cats@, excluded@.to_set(), id),
{
    let mut out: Vec<i64> = Vec::new();
    let mut i: usize = 0;
    while i < cats.len()
        invariant
            i <= cats@.len(),
            out@ == kid_ids(cats@.subrange(0, i as int), excluded@.to_set(), id),
        decreases cats@.len() - i,
    {
        let ghost q = cats@.subrange(0, i + 1);
        assert(q.subrange(0, q.len() - 1) =~= cats@.subrange(0, i as int));
        let c = &cats[i];
        if !contains_id(excluded, c.id) && c.parent_id == Some(id) {
            out.push(c.id);
        }
        i += 1;
    }
    assert(cats@.subrange(0, cats@.len() as int) =~= cats@);
    out
}

pub(crate) fn lookup_spend(spending: &Vec<(i64, i64)>, id: i64) -> (res: i64)
    ensures
        res == spend_of(spending@, id),
{
    let mut i: usize = 0;
    assert(spending@.subrange(0, spending@.len() as int) =~= spending@);
    while i < spending.len()
        invariant
            i <= spending@.len(),
            spend_of(spending@, id) == spend_of(spending@.subrange(i as int, spending@.len() as int), id),
        decreases spending@.len() - i,
    {
        let ghost r = spending@.subrange(i as int, spending@.len() as int);
        assert(r.drop_first() =~= spending@.subrange(i + 1, spending@.len() as int));
        if spending[i].0 == id {
            return spending[i].1;
        }
        i += 1;
    }
    assert(spending@.subrange(i as int, spending@.len() as int).len() == 0);
    0
}

proof fn lemma_overflow_grows(
    cats: Seq<Category>,
    excluded: Set<i64>,
    spending: Seq<(i64, i64)>,
    ids: Seq<i64>,
    j: int,
    fuel: nat,
)
    requires
        0 <= j <= ids.len(),
        subtrees_overflow(cats, excluded, spending, ids.subrange(0, j), fuel),
    ensures
        subtrees_overflow(cats, excluded, spending, ids.subrange(0, ids.len() as int), fuel),
    decreases ids.len() - j,
{
    if j < ids.len() {
        lemma_subtrees_step(cats, excluded, spending, ids, j, fuel);
        lemma_overflow_grows(cats, excluded, spending, ids, j + 1, fuel);
    }
}

pub open spec fn total_keyed(s: Seq<TreeView>) -> Seq<(i64, TreeView)> {
    s.map_values(|t: TreeView| (tree_total(t) as i64, t))
}

pub(crate) proof fn lemma_nodes_view_push(s: Seq<CategoryTreeNode>, x: CategoryTreeNode)
    ensures
        nodes_view(s.push(x)) == nodes_view(s).push(node_view(x)),
{
    assert(s.push(x).subrange(0, s.len() as int) =~= s);
}

/// Sorts subtrees by total, largest first.
pub(crate) fn sort_subtrees(pairs: Vec<(i64, CategoryTreeNode)>, Ghost(trees): Ghost<Seq<TreeView>>) -> (res: Vec<CategoryTreeNode>)
    requires
        relabel(pairs@, |n: CategoryTreeNode| node_view(n)) == total_keyed(trees),
    ensures
        nodes_view(res@) == by_total_desc(trees),
{
    let ghost f = |n: CategoryTreeNode| node_view(n);
    let ghost pv = pairs@;
    let sorted = sort_by_key(pairs, true);
    proof {
        lemma_sorted_relabel(pv, true, f);
        lemma_sorted_len(pv, true);
    }
    let ghost target = stable_sorted(total_keyed(trees), true);
    let ghost sv = sorted@;
    assert(relabel(sv, f) == target);
    let mut rest = sorted;
    let mut rev: Vec<CategoryTreeNode> = Vec::new();
    while rest.len() > 0
        invariant
            rest@ == sv.take(rest@.len() as int),
            rest@.len() <= sv.len(),
            rev@.len() == sv.len() - rest@.len(),
            forall|t: int| 0 <= t < rev@.len() ==> #[trigger] rev@[t] == sv[sv.len() - 1 - t].1,
        decreases rest@.len(),
    {
        let ghost k = rest@.len();
        let (_, n) = rest.pop().unwrap();
        assert(rest@ =~= sv.take(k - 1));
        rev.push(n);
    }
    let mut out: Vec<CategoryTreeNode> = Vec::new();
    while rev.len() > 0
        invariant
            rev@.len() + out@.len() == sv.len(),
            forall|t: int| 0 <= t < rev@.len() ==> #[trigger] rev@[t] == sv[sv.len() - 1 - t].1,
            forall|t: int| 0 <= t < out@.len() ==> #[trigger] out@[t] == sv[t].1,
        decreases rev@.len(),
    {
        let n = rev.pop().unwrap();
        out.push(n);
    }
    proof {
        lemma_nodes_view(out@);
        let want = by_total_desc(trees);
        assert forall|t: int| 0 <= t < out@.len() implies #[trigger] nodes_view(out@)[t] == want[t] by {
            assert(relabel(sv, f)[t] == (sv[t].0, f(sv[t].1)));
        }
        assert(nodes_view(out@) =~= want);
    }
    out
}

proof fn lemma_subtrees_step(
    cats: Seq<Category>,
    excluded: Set<i64>,
    spending: Seq<(i64, i64)>,
    ids: Seq<i64>,
    k: int,
    fuel: nat,
)
    requires
        0 <= k < ids.len(),
    ensures
        subtrees_of(cats, excluded, spending, ids.subrange(0, k + 1), fuel) == (match subtree_of(
            cats,
            excluded,
            spending,
            ids[k],
            fuel,
        ) {
            Some(t) => subtrees_of(cats, excluded, spending, ids.subrange(0, k), fuel).push(t),
            None => subtrees_of(cats, excluded, spending, ids.subrange(0, k), fuel),
        }),
        subtrees_overflow(cats, excluded, spending, ids.subrange(0, k + 1), fuel) == (subtrees_overflow(
            cats,
            excluded,
            spending,
            ids.subrange(0, k),
            fuel,
        ) || subtree_overflows(cats, excluded, spending, ids[k], fuel)),
{
    let q = ids.subrange(0, k + 1);
    assert(q.subrange(0, q.len() - 1) =~= ids.subrange(0, k));
    assert(q[q.len() - 1] == ids[k]);
}

/// Builds the tree of category `cat_id` (see `subtree_of`); `Err` when a
/// total in it does not fit in an `i64`.
pub fn build_subtree(
    cat_id: i64,
    cats: &Vec<Category>,
    excluded: &Vec<i64>,
    spending: &Vec<(i64, i64)>,
    fuel: usize,
) -> (res: Result<Option<CategoryTreeNode>, ()>)
    ensures
        match res {
            Ok(Some(n)) => !subtree_overflows(cats@, excluded@.to_set(), spending@, cat_id, fuel as nat) && subtree_of(
                cats@,
                excluded@.to_set(),
                spending@,
                cat_id,
                fuel as nat,
            ) == Some(node_view(n)) && fits(node_view(n)),
            Ok(None) => !subtree_overflows(cats@, excluded@.to_set(), spending@, cat_id, fuel as nat) && subtree_of(
                cats@,
                excluded@.to_set(),
                spending@,
                cat_id,
                fuel as nat,
            ) is None,
            Err(_) => subtree_overflows(cats@, excluded@.to_set(), spending@, cat_id, fuel as nat),
        },
    decreases fuel,
{
    if fuel == 0 {
        return Ok(None);
    }
    let ci = match find_last(cats, cat_id) {
        None => {
            return Ok(None);
        },
        Some(i) => i,
    };
    let kid_list = collect_kids(cats, excluded, cat_id);
    let ghost f = |n: CategoryTreeNode| node_view(n);
    let ghost sub = (fuel - 1) as nat;
    let mut pairs: Vec<(i64, CategoryTreeNode)> = Vec::new();
    let mut k: usize = 0;
    while k < kid_list.len()
        invariant
            fuel >= 1,
            sub == (fuel - 1) as nat,
            kid_list@ == kid_ids(cats@, excluded@.to_set(), cat_id),
            ci < cats@.len(),
            last_with_id(cats@, cat_id) == Some(ci as int),
            k <= kid_list@.len(),
            f == (|n: CategoryTreeNode| node_view(n)),
            relabel(pairs@, f) == total_keyed(subtrees_of(cats@, excluded@.to_set(), spending@, kid_list@.subrange(0, k as int), sub)),
            forall|t: int| 0 <= t < subtrees_of(cats@, excluded@.to_set(), spending@, kid_list@.subrange(0, k as int), sub).len()
                ==> fits(#[trigger] subtrees_of(cats@, excluded@.to_set(), spending@, kid_list@.subrange(0, k as int), sub)[t]),
            !subtrees_overflow(cats@, excluded@.to_set(), spending@, kid_list@.subrange(0, k as int), sub),
        decreases kid_list@.len() - k,
    {
        proof {
            lemma_subtrees_step(cats@, excluded@.to_set(), spending@, kid_list@, k as int, sub);
        }
        let ghost prev = subtrees_of(cats@, excluded@.to_set(), spending@, kid_list@.subrange(0, k as int), sub);
        match build_subtree(kid_list[k], cats, excluded, spending, fuel - 1) {
            Err(_) => {
                proof {
                    assert(subtrees_overflow(cats@, excluded@.to_set(), spending@, kid_list@.subrange(0, k + 1), sub));
                    assert(kid_list@.subrange(0, k + 1).len() > 0);
                    lemma_overflow_grows(cats@, excluded@.to_set(), spending@, kid_list@, (k + 1) as int, sub);
                    assert(kid_list@.subrange(0, kid_list@.len() as int) =~= kid_list@);
                    assert(subtrees_overflow(cats@, excluded@.to_set(), spending@, kid_list@, sub));
                    assert(kid_list@ == kid_ids(cats@, excluded@.to_set(), cat_id));
                    assert(last_with_id(cats@, cat_id) == Some(ci as int));
                    assert(sub == (fuel as nat - 1) as nat);
                    assert(subtree_overflows(cats@, excluded@.to_set(), spending@, cat_id, fuel as nat));
                }
                return Err(());
            },
            Ok(None) => {},
            Ok(Some(n)) => {
                let t = tree_node_total(&n);
                let ghost before = pairs@;
                pairs.push((t, n));
                proof {
                    assert(relabel(pairs@, f) =~= relabel(before, f).push((t, node_view(n))));
                    let nxt = prev.push(node_view(n));
                    assert(total_keyed(nxt) =~= total_keyed(prev).push((tree_total(node_view(n)) as i64, node_view(n))));
                    assert forall|u: int| 0 <= u < nxt.len() implies fits(#[trigger] nxt[u]) by {
                        if u < prev.len() {
                            assert(nxt[u] == prev[u]);
                        }
                    }
                }
            },
        }
        k += 1;
    }
    assert(kid_list@.subrange(0, kid_list@.len() as int) =~= kid_list@);
    let ghost trees = subtrees_of(cats@, excluded@.to_set(), spending@, kid_list@, sub);
    let kids = sort_subtrees(pairs, Ghost(trees));
    proof {
        lemma_nodes_view(kids@);
        let p = |q: (i64, TreeView)| fits(q.1);
        assert forall|u: int| 0 <= u < total_keyed(trees).len() implies p(#[trigger] total_keyed(trees)[u]) by {
            assert(total_keyed(trees)[u].1 == trees[u]);
        }
        crate::sorting::lemma_sorted_all(total_keyed(trees), true, p);
        lemma_sorted_len(total_keyed(trees), true);
    }
    let ghost kview = nodes_view(kids@);
    assert forall|u: int| 0 <= u < kview.len() implies fits(#[trigger] kview[u]) by {
        let sorted = stable_sorted(total_keyed(trees), true);
        assert(kview[u] == sorted[u].1);
        assert(fits(sorted[u].1));
    }
    let direct = lookup_spend(spending, cat_id);
    let cat = &cats[ci];
    let node = if kids.len() > 0 && direct > 0 {
        let mut other = String::from_str("Other ");
        other.append(cat.name.as_str());
        let l = CategoryTreeNode { name: other, color: cat.color.clone(), amount_cents: Some(direct), children: Vec::new() };
        let mut ks = kids;
        let ghost before = ks@;
        let ghost lg = l;
        ks.push(l);
        proof {
            lemma_nodes_view_push(before, lg);
        }
        CategoryTreeNode { name: cat.name.clone(), color: cat.color.clone(), amount_cents: None, children: ks }
    } else if kids.len() > 0 {
        CategoryTreeNode { name: cat.name.clone(), color: cat.color.clone(), amount_cents: None, children: kids }
    } else if direct > 0 {
        CategoryTreeNode { name: cat.name.clone(), color: cat.color.clone(), amount_cents: Some(direct), children: Vec::new() }
    } else {
        return Ok(None);
    };
    proof {
        lemma_node_view_children(node);
        assert(subtree_of(cats@, excluded@.to_set(), spending@, cat_id, fuel as nat) == Some(node_view(node)));
        let kv = node_view(node).children;
        assert forall|u: int| 0 <= u < kv.len() implies fits(#[trigger] kv[u]) by {
            if u < kview.len() {
                assert(kv[u] == kview[u]);
            } else {
                assert(kv[u] == leaf(("Other "@ + cats@[ci as int].name@), cats@[ci as int].color@, direct));
                assert(leaf(("Other "@ + cats@[ci as int].name@), cats@[ci as int].color@, direct).children.len() == 0);
            }
        }
        lemma_all_fit(kv);
        assert(!subtrees_overflow(cats@, excluded@.to_set(), spending@, kid_ids(cats@, excluded@.to_set(), cat_id), sub));
    }
    match checked_total(&node) {
        None => Err(()),
        Some(_) => Ok(Some(node)),
    }
}

// ---------------------------------------------------------------------------
// Sums per category
// ---------------------------------------------------------------------------

/// The sum of the amounts recorded under category `k` (`None`: no
/// category).
pub open spec fn sum_cat(items: Seq<(Option<i64>, i64)>, k: Option<i64>) -> int
    decreases items.len(),
{
    if items.len() == 0 {
        0
    } else {
        sum_cat(items.drop_last(), k) + if items.last().0 == k {
            items.last().1 as int
        } else {
            0
        }
    }
}

/// The categories in order of first appearance.
pub open spec fn first_keys(items: Seq<(Option<i64>, i64)>) -> Seq<Option<i64>>
    decreases items.len(),
{
    if items.len() == 0 {
        seq![]
    } else {
        let r = first_keys(items.drop_last());
        if r.contains(items.last().0) {
            r
        } else {
            r.push(items.last().0)
        }
    }
}

/// The sum of the absolute amounts.
pub open spec fn abs_sum(items: Seq<(Option<i64>, i64)>) -> int
    decreases items.len(),
{
    if items.len() == 0 {
        0
    } else {
        abs_sum(items.drop_last()) + if items.last().1 < 0 {
            -(items.last().1 as int)
        } else {
            items.last().1 as int
        }
    }
}

pub(crate) proof fn lemma_sum_cat_bound(items: Seq<(Option<i64>, i64)>, k: Option<i64>)
    ensures
        -abs_sum(items) <= sum_cat(items, k) <= abs_sum(items),
        abs_sum(items) >= 0,
    decreases items.len(),
{
    if items.len() > 0 {
        lemma_sum_cat_bound(items.drop_last(), k);
    }
}

proof fn lemma_abs_sum_prefix(items: Seq<(Option<i64>, i64)>, n: int)
    requires
        0 <= n <= items.len(),
    ensures
        abs_sum(items.take(n)) <= abs_sum(items),
    decreases items.len() - n,
{
    if n < items.len() {
        lemma_abs_sum_prefix(items, n + 1);
        assert(items.take(n + 1).drop_last() =~= items.take(n));
    } else {
        assert(items.take(n) =~= items);
    }
}

proof fn lemma_first_keys_contains(items: Seq<(Option<i64>, i64)>, k: Option<i64>)
    ensures
        first_keys(items).contains(k) <==> exists|j: int| 0 <= j < items.len() && #[trigger] items[j].0 == k,
        first_keys(items).no_duplicates(),
    decreases items.len(),
{
    if items.len() > 0 {
        let d = items.drop_last();
        lemma_first_keys_contains(d, k);
        lemma_first_keys_contains(d, items.last().0);
        let r = first_keys(d);
        let last = items.last().0;
        assert(items[items.len() - 1].0 == last);
        if r.contains(k) {
            let j = choose|j: int| 0 <= j < d.len() && #[trigger] d[j].0 == k;
            assert(items[j] == d[j]);
            assert(first_keys(items).contains(k)) by {
                if !r.contains(last) {
                    let q = choose|q: int| 0 <= q < r.len() && r[q] == k;
                    assert(r.push(last)[q] == k);
                }
            }
        } else if k == last {
            assert(first_keys(items) == r.push(last));
            assert(r.push(last)[r.len() as int] == k);
        } else {
            assert forall|j: int| 0 <= j < items.len() implies #[trigger] items[j].0 != k by {
                if j < items.len() - 1 {
                    assert(items[j] == d[j]);
                }
            }
            if !r.contains(last) {
                assert(!r.push(last).contains(k)) by {
                    if r.push(last).contains(k) {
                        let q = choose|q: int| 0 <= q < r.push(last).len() && r.push(last)[q] == k;
                        if q < r.len() {
                            assert(r[q] == k);
                        }
                    }
                }
            }
        }
        if !r.contains(items.last().0) {
            assert forall|a: int, b: int| 0 <= a < b < r.push(items.last().0).len() implies r.push(items.last().0)[a]
                != r.push(items.last().0)[b] by {
                if b == r.len() {
                    assert(r.push(items.last().0)[a] == r[a]);
                }
            }
        }
    }
}

pub open spec fn sums_view(items: Seq<(Option<i64>, i64)>) -> Seq<(Option<i64>, int)> {
    first_keys(items).map_values(|k: Option<i64>| (k, sum_cat(items, k)))
}

/// The sum of the amounts per category, categories in order of first
/// appearance, as wide integers.
fn wide_totals(items: &Vec<(Option<i64>, i64)>) -> (res: Vec<(Option<i64>, i128)>)
    ensures
        res@.len() == first_keys(items@).len(),
        forall|i: int|
            0 <= i < res@.len() ==> (#[trigger] res@[i]).0 == first_keys(items@)[i] && res@[i].1 as int == sum_cat(
                items@,
                res@[i].0,
            ),
{
    let mut out: Vec<(Option<i64>, i128)> = Vec::new();
    let n = items.len();
    let mut j: usize = 0;
    while j < items.len()
        invariant
            j <= items@.len(),
            n == items@.len(),
            out@.len() == first_keys(items@.take(j as int)).len(),
            forall|i: int|
                0 <= i < out@.len() ==> (#[trigger] out@[i]).0 == first_keys(items@.take(j as int))[i] && out@[i].1 as int
                    == sum_cat(items@.take(j as int), out@[i].0),
        decreases items@.len() - j,
    {
        let ghost pre = items@.take(j as int);
        let ghost nxt = items@.take(j + 1);
        assert(nxt.drop_last() =~= pre);
        assert(nxt.last() == items@[j as int]);
        let (k, a) = items[j];
        proof {
            lemma_first_keys_contains(pre, k);
        }
        let mut p: usize = 0;
        while p < out.len() && out[p].0 != k
            invariant
                p <= out@.len(),
                forall|t: int| 0 <= t < p ==> (#[trigger] out@[t]).0 != k,
            decreases out@.len() - p,
        {
            p += 1;
        }
        if p < out.len() {
            proof {
                lemma_sum_cat_len_bound(pre, k);
                assert(first_keys(pre)[p as int] == k);
                assert(first_keys(pre).contains(k));
            }
            let (kk, v) = out[p];
            out.set(p, (kk, v + a as i128));
            proof {
                assert(first_keys(nxt) == first_keys(pre));
                assert forall|i: int| 0 <= i < out@.len() implies (#[trigger] out@[i]).0 == first_keys(nxt)[i]
                    && out@[i].1 as int == sum_cat(nxt, out@[i].0) by {
                    if i != p {
                        lemma_first_keys_contains(pre, out@[i].0);
                        let fk = first_keys(pre);
                        assert(fk[i] != fk[p as int]);
                    }
                }
            }
        } else {
            proof {
                assert(!first_keys(pre).contains(k)) by {
                    if first_keys(pre).contains(k) {
                        let q = choose|q: int| 0 <= q < first_keys(pre).len() && first_keys(pre)[q] == k;
                        assert(out@[q].0 == k);
                    }
                }
                assert(first_keys(nxt) == first_keys(pre).push(k));
                lemma_sum_absent(pre, k);
            }
            out.push((k, a as i128));
        }
        j += 1;
    }
    assert(items@.take(items@.len() as int) =~= items@);
    out
}

/// Every category's net total is an `i64` whose negation is one too.
pub open spec fn sums_fit(items: Seq<(Option<i64>, i64)>) -> bool {
    forall|k: Option<i64>| i64::MIN < #[trigger] sum_cat(items, k) <= i64::MAX
}

proof fn lemma_sum_cat_len_bound(items: Seq<(Option<i64>, i64)>, k: Option<i64>)
    ensures
        -(items.len() * 0x8000_0000_0000_0000) <= sum_cat(items, k) <= items.len() * 0x7fff_ffff_ffff_ffff,
    decreases items.len(),
{
    if items.len() > 0 {
        lemma_sum_cat_len_bound(items.drop_last(), k);
    }
}

/// The sum of the amounts per category, categories in order of first
/// appearance; `None` when some sum does not fit `sums_fit`.
pub fn totals_by_category(items: &Vec<(Option<i64>, i64)>) -> (res: Option<Vec<(Option<i64>, i64)>>)
    ensures
        res is Some <==> sums_fit(items@),
        res matches Some(v) ==> {
            &&& v@.len() == first_keys(items@).len()
            &&& forall|i: int|
                0 <= i < v@.len() ==> (#[trigger] v@[i]).0 == first_keys(items@)[i] && v@[i].1 as int == sum_cat(
                    items@,
                    v@[i].0,
                )
        },
{
    let wide = wide_totals(items);
    let mut out: Vec<(Option<i64>, i64)> = Vec::new();
    let mut i: usize = 0;
    while i < wide.len()
        invariant
            i <= wide@.len(),
            wide@.len() == first_keys(items@).len(),
            forall|q: int|
                0 <= q < wide@.len() ==> (#[trigger] wide@[q]).0 == first_keys(items@)[q] && wide@[q].1 as int
                    == sum_cat(items@, wide@[q].0),
            out@.len() == i,
            forall|q: int| 0 <= q < i ==> (#[trigger] out@[q]).0 == wide@[q].0 && out@[q].1 as int == wide@[q].1 as int,
            forall|q: int| 0 <= q < i ==> i64::MIN < #[trigger] wide@[q].1 <= i64::MAX,
        decreases wide@.len() - i,
    {
        let (k, t) = wide[i];
        if t <= i64::MIN as i128 || t > i64::MAX as i128 {
            proof {
                assert(!(i64::MIN < sum_cat(items@, k) <= i64::MAX));
            }
            return None;
        }
        out.push((k, t as i64));
        i += 1;
    }
    proof {
        assert forall|k: Option<i64>| i64::MIN < #[trigger] sum_cat(items@, k) <= i64::MAX by {
            if first_keys(items@).contains(k) {
                let q = choose|q: int| 0 <= q < first_keys(items@).len() && first_keys(items@)[q] == k;
                assert(wide@[q].0 == k);
            } else {
                lemma_sum_absent(items@, k);
            }
        }
    }
    Some(out)
}

pub(crate) proof fn lemma_sum_absent(items: Seq<(Option<i64>, i64)>, k: Option<i64>)
    requires
        !first_keys(items).contains(k),
    ensures
        sum_cat(items, k) == 0,
{
    lemma_first_keys_contains(items, k);
    lemma_sum_absent_rec(items, k);
}

proof fn lemma_sum_absent_rec(items: Seq<(Option<i64>, i64)>, k: Option<i64>)
    requires
        forall|j: int| 0 <= j < items.len() ==> #[trigger] items[j].0 != k,
    ensures
        sum_cat(items, k) == 0,
    decreases items.len(),
{
    if items.len() > 0 {
        let d = items.drop_last();
        assert forall|j: int| 0 <= j < d.len() implies #[trigger] d[j].0 != k by {
            assert(d[j] == items[j]);
        }
        lemma_sum_absent_rec(d, k);
        assert(items.last() == items[items.len() - 1]);
    }
}

// ---------------------------------------------------------------------------
// Order and sign of the trees
// ---------------------------------------------------------------------------

/// Trees ordered by `by_total_desc` come largest first, when every total
/// is an `i64`; they are the same trees, so what holds of every one of
/// them still does.
pub proof fn lemma_by_total_desc(kids: Seq<TreeView>, p: spec_fn(TreeView) -> bool)
    requires
        forall|i: int| 0 <= i < kids.len() ==> i64::MIN <= tree_total(#[trigger] kids[i]) <= i64::MAX,
        forall|i: int| 0 <= i < kids.len() ==> p(#[trigger] kids[i]),
    ensures
        by_total_desc(kids).len() == kids.len(),
        forall|i: int, j: int|
            0 <= i < j < kids.len() ==> tree_total(#[trigger] by_total_desc(kids)[i]) >= tree_total(
                #[trigger] by_total_desc(kids)[j],
            ),
        forall|i: int| 0 <= i < kids.len() ==> p(#[trigger] by_total_desc(kids)[i]),
{
    let keyed = kids.map_values(|k: TreeView| (tree_total(k) as i64, k));
    let q = |e: (i64, TreeView)| e.0 as int == tree_total(e.1) && p(e.1);
    assert forall|u: int| 0 <= u < keyed.len() implies q(#[trigger] keyed[u]) by {
        assert(keyed[u].1 == kids[u]);
    }
    crate::sorting::lemma_sorted_all(keyed, true, q);
    crate::sorting::lemma_sorted_ordered(keyed, true);
    lemma_sorted_len(keyed, true);
    let sorted = stable_sorted(keyed, true);
    let s = by_total_desc(kids);
    assert forall|i: int, j: int| 0 <= i < j < kids.len() implies tree_total(#[trigger] s[i]) >= tree_total(
        #[trigger] s[j],
    ) by {
        assert(s[i] == sorted[i].1);
        assert(s[j] == sorted[j].1);
        assert(q(sorted[i]));
        assert(q(sorted[j]));
    }
    assert forall|i: int| 0 <= i < kids.len() implies p(#[trigger] s[i]) by {
        assert(s[i] == sorted[i].1);
        assert(q(sorted[i]));
    }
}

proof fn lemma_trees_total_positive(s: Seq<TreeView>)
    requires
        forall|i: int| 0 <= i < s.len() ==> tree_total(#[trigger] s[i]) > 0,
    ensures
        trees_total(s) >= 0,
        s.len() > 0 ==> trees_total(s) > 0,
    decreases s.len(),
{
    if s.len() > 0 {
        let p = s.subrange(0, s.len() - 1);
        assert forall|i: int| 0 <= i < p.len() implies tree_total(#[trigger] p[i]) > 0 by {
            assert(p[i] == s[i]);
        }
        lemma_trees_total_positive(p);
    }
}

/// Every tree of spending has a positive total.
pub proof fn lemma_subtree_positive(
    cats: Seq<Category>,
    excluded: Set<i64>,
    spending: Seq<(i64, i64)>,
    id: i64,
    fuel: nat,
)
    ensures
        subtree_of(cats, excluded, spending, id, fuel) matches Some(v) ==> tree_total(v) > 0,
    decreases fuel, 0int, 0int,
{
    if fuel > 0 {
        if let Some(ci) = last_with_id(cats, id) {
            let raw = subtrees_of(cats, excluded, spending, kid_ids(cats, excluded, id), (fuel - 1) as nat);
            lemma_subtrees_positive(cats, excluded, spending, kid_ids(cats, excluded, id), (fuel - 1) as nat);
            let keyed = raw.map_values(|k: TreeView| (tree_total(k) as i64, k));
            let q = |e: (i64, TreeView)| tree_total(e.1) > 0;
            assert forall|u: int| 0 <= u < keyed.len() implies q(#[trigger] keyed[u]) by {
                assert(keyed[u].1 == raw[u]);
            }
            crate::sorting::lemma_sorted_all(keyed, true, q);
            lemma_sorted_len(keyed, true);
            let kids = by_total_desc(raw);
            assert forall|u: int| 0 <= u < kids.len() implies tree_total(#[trigger] kids[u]) > 0 by {
                assert(kids[u] == stable_sorted(keyed, true)[u].1);
                assert(q(stable_sorted(keyed, true)[u]));
            }
            lemma_trees_total_positive(kids);
            let direct = spend_of(spending, id);
            let cat = cats[ci];
            if kids.len() > 0 && direct > 0 {
                let l = leaf("Other "@ + cat.name@, cat.color@, direct);
                let ch = kids.push(l);
                assert(ch.subrange(0, ch.len() - 1) =~= kids);
                assert(ch[ch.len() - 1] == l);
                assert(trees_total(l.children) == 0);
                assert(tree_total(l) == direct as int);
                assert(trees_total(ch) == trees_total(kids) + tree_total(l));
                let v = TreeView { name: cat.name@, color: cat.color@, amount: None, children: ch };
                assert(tree_total(v) == trees_total(ch));
                assert(subtree_of(cats, excluded, spending, id, fuel) == Some(v));
            } else if kids.len() > 0 {
                let v = TreeView { name: cat.name@, color: cat.color@, amount: None, children: kids };
                assert(tree_total(v) == trees_total(kids));
                assert(subtree_of(cats, excluded, spending, id, fuel) == Some(v));
            } else if direct > 0 {
                let v = leaf(cat.name@, cat.color@, direct);
                assert(trees_total(v.children) == 0);
                assert(tree_total(v) == direct as int);
                assert(subtree_of(cats, excluded, spending, id, fuel) == Some(v));
            }
        }
    }
}

pub proof fn lemma_subtrees_positive(
    cats: Seq<Category>,
    excluded: Set<i64>,
    spending: Seq<(i64, i64)>,
    ids: Seq<i64>,
    fuel: nat,
)
    ensures
        forall|i: int|
            0 <= i < subtrees_of(cats, excluded, spending, ids, fuel).len() ==> tree_total(
                #[trigger] subtrees_of(cats, excluded, spending, ids, fuel)[i],
            ) > 0,
    decreases fuel, 1int, ids.len(),
{
    if ids.len() > 0 {
        let p = ids.subrange(0, ids.len() - 1);
        lemma_subtrees_positive(cats, excluded, spending, p, fuel);
        lemma_subtree_positive(cats, excluded, spending, ids[ids.len() - 1], fuel);
        let r = subtrees_of(cats, excluded, spending, p, fuel);
        let all = subtrees_of(cats, excluded, spending, ids, fuel);
        assert forall|i: int| 0 <= i < all.len() implies tree_total(#[trigger] all[i]) > 0 by {
            if i < r.len() {
                assert(all[i] == r[i]);
            }
        }
    }
}

// ---------------------------------------------------------------------------
// Earliest and latest date
// ---------------------------------------------------------------------------

/// `d` is one of `ds` and none of `ds` sorts before it.
pub open spec fn is_earliest(ds: Seq<Seq<char>>, d: Seq<char>) -> bool {
    ds.contains(d) && forall|i: int| 0 <= i < ds.len() ==> !lex_lt(#[trigger] ds[i], d)
}

/// `d` is one of `ds` and none of `ds` sorts after it.
pub open spec fn is_latest(ds: Seq<Seq<char>>, d: Seq<char>) -> bool {
    ds.contains(d) && forall|i: int| 0 <= i < ds.len() ==> !lex_lt(d, #[trigger] ds[i])
}

/// The earliest and the latest of `dates`, in text order; `None` for
/// both when there are none.
pub fn date_bounds(dates: &Vec<String>) -> (res: (Option<String>, Option<String>))
    ensures
        match res.0 {
            Some(d) => is_earliest(texts_view(dates@), d@),
            None => dates@.len() == 0,
        },
        match res.1 {
            Some(d) => is_latest(texts_view(dates@), d@),
            None => dates@.len() == 0,
        },
{
    if dates.len() == 0 {
        return (None, None);
    }
    let ghost ds = texts_view(dates@);
    let mut lo: usize = 0;
    let mut hi: usize = 0;
    let mut i: usize = 1;
    proof {
        lemma_lex_total(ds[0], ds[0]);
    }
    while i < dates.len()
        invariant
            ds == texts_view(dates@),
            1 <= i <= dates@.len(),
            lo < i,
            hi < i,
            forall|j: int| 0 <= j < i ==> !lex_lt(#[trigger] ds[j], ds[lo as int]),
            forall|j: int| 0 <= j < i ==> !lex_lt(ds[hi as int], #[trigger] ds[j]),
        decreases dates@.len() - i,
    {
        let ghost di = ds[i as int];
        assert(di == dates@[i as int]@);
        assert(ds[lo as int] == dates@[lo as int]@);
        assert(ds[hi as int] == dates@[hi as int]@);
        proof {
            lemma_lex_total(di, di);
        }
        if str_lt(&dates[i], &dates[lo]) {
            assert forall|j: int| 0 <= j <= i implies !lex_lt(#[trigger] ds[j], di) by {
                if j < i && lex_lt(ds[j], di) {
                    lemma_lex_trans(ds[j], di, ds[lo as int]);
                }
            }
            lo = i;
        } else {
            proof {
                lemma_lex_total(di, ds[lo as int]);
            }
        }
        if str_lt(&dates[hi], &dates[i]) {
            assert forall|j: int| 0 <= j <= i implies !lex_lt(di, #[trigger] ds[j]) by {
                if j < i && lex_lt(di, ds[j]) {
                    lemma_lex_trans(ds[hi as int], di, ds[j]);
                }
            }
            hi = i;
        }
        i += 1;
    }
    let a = dates[lo].clone();
    let b = dates[hi].clone();
    assert(ds[lo as int] == a@);
    assert(ds[hi as int] == b@);
    (Some(a), Some(b))
}

// ---------------------------------------------------------------------------
// The whole tree
// ---------------------------------------------------------------------------

/// A transaction as the spending tree reads it.
#[derive(Debug, Clone)]
pub struct TreeTransaction {
    pub date: String,
    pub category_id: Option<i64>,
    pub amount_cents: i64,
}

#[derive(Debug)]
pub struct CategoryTreeResponse {
    pub categories: Vec<CategoryTreeNode>,
    /// Earliest transaction date (YYYY-MM-DD).
    pub from_date: Option<String>,
    /// Latest transaction date (YYYY-MM-DD).
    pub to_date: Option<String>,
}

pub open spec fn amounts_of(txns: Seq<TreeTransaction>) -> Seq<(Option<i64>, i64)> {
    txns.map_values(|t: TreeTransaction| (t.category_id, t.amount_cents))
}

pub open spec fn dates_of(txns: Seq<TreeTransaction>) -> Seq<Seq<char>> {
    txns.map_values(|t: TreeTransaction| t.date@)
}

/// The categories analytics leave out: the Transfers subtree.
pub open spec fn excluded_set(cats: Seq<Category>) -> Set<i64> {
    match transfers_index(cats) {
        Some(i) => subtree(cats, cats[i].id),
        None => Set::empty(),
    }
}

/// Spending per category: the categories, outside `excluded`, whose net
/// amount is negative, with that amount negated.
pub open spec fn spending_list(sums: Seq<(Option<i64>, int)>, excluded: Set<i64>) -> Seq<(i64, i64)>
    decreases sums.len(),
{
    if sums.len() == 0 {
        seq![]
    } else {
        let r = spending_list(sums.drop_last(), excluded);
        let t = sums.last().1;
        match sums.last().0 {
            Some(id) => if t < 0 && !excluded.contains(id) {
                r.push((id, (-t) as i64))
            } else {
                r
            },
            None => r,
        }
    }
}

/// The ids of the top-level categories outside `excluded`, in order.
pub open spec fn top_ids(cats: Seq<Category>, excluded: Set<i64>) -> Seq<i64>
    decreases cats.len(),
{
    if cats.len() == 0 {
        seq![]
    } else {
        let r = top_ids(cats.subrange(0, cats.len() - 1), excluded);
        let c = cats[cats.len() - 1];
        if !excluded.contains(c.id) && c.parent_id is None {
            r.push(c.id)
        } else {
            r
        }
    }
}

pub open spec fn ascending_ids(ids: Seq<i64>) -> Seq<i64> {
    stable_sorted(ids.map_values(|x: i64| (x, x)), false).map_values(|p: (i64, i64)| p.1)
}

/// Net spending without a category, as a positive amount (0 when the
/// net is not negative).
pub open spec fn uncategorized_spend(items: Seq<(Option<i64>, i64)>) -> int {
    let s = sum_cat(items, None);
    if s < 0 {
        -s
    } else {
        0
    }
}

pub open spec fn tree_spending(cats: Seq<Category>, txns: Seq<TreeTransaction>) -> Seq<(i64, i64)> {
    spending_list(sums_view(amounts_of(txns)), excluded_set(cats))
}

pub open spec fn tree_roots(cats: Seq<Category>) -> Seq<i64> {
    ascending_ids(top_ids(cats, excluded_set(cats)))
}

/// The top-level trees, before ordering: those of the top-level
/// categories, by id, then "Uncategorized" when there is such spending.
/// Categories nest at most as deep as there are categories.
pub open spec fn top_trees(cats: Seq<Category>, txns: Seq<TreeTransaction>) -> Seq<TreeView> {
    let tops = subtrees_of(cats, excluded_set(cats), tree_spending(cats, txns), tree_roots(cats), cats.len());
    let unc = uncategorized_spend(amounts_of(txns));
    if unc > 0 {
        tops.push(leaf("Uncategorized"@, "#6b7280"@, unc as i64))
    } else {
        tops
    }
}

/// Some total of the tree does not fit in an `i64`.
pub open spec fn forest_overflows(cats: Seq<Category>, txns: Seq<TreeTransaction>) -> bool {
    subtrees_overflow(cats, excluded_set(cats), tree_spending(cats, txns), tree_roots(cats), cats.len())
}

/// The amounts (with their categories) and the dates of `txns`.
pub(crate) fn split_transactions(txns: &Vec<TreeTransaction>) -> (res: (Vec<(Option<i64>, i64)>, Vec<String>))
    ensures
        res.0@ == amounts_of(txns@),
        texts_view(res.1@) == dates_of(txns@),
{
    let mut items: Vec<(Option<i64>, i64)> = Vec::new();
    let mut dates: Vec<String> = Vec::new();
    let mut i: usize = 0;
    while i < txns.len()
        invariant
            i <= txns@.len(),
            items@ == amounts_of(txns@).take(i as int),
            dates@.len() == i,
            texts_view(dates@) == dates_of(txns@).take(i as int),
        decreases txns@.len() - i,
    {
        let t = &txns[i];
        items.push((t.category_id, t.amount_cents));
        let ghost before = dates@;
        dates.push(t.date.clone());
        assert forall|q: int| 0 <= q <= i implies #[trigger] texts_view(dates@)[q] == dates_of(txns@).take(i + 1)[q] by {
            if q < i {
                assert(dates@[q] == before[q]);
                assert(texts_view(before)[q] == dates_of(txns@).take(i as int)[q]);
            } else {
                assert(dates@[q] == txns@[q].date);
            }
        }
        assert(texts_view(dates@) =~= dates_of(txns@).take(i + 1));
        assert(items@ =~= amounts_of(txns@).take(i + 1));
        i += 1;
    }
    assert(items@ =~= amounts_of(txns@));
    assert(texts_view(dates@) =~= dates_of(txns@));
    (items, dates)
}

/// The top-level categories outside `excl`, by id.
pub(crate) fn root_ids(cats: &Vec<Category>, excl: &Vec<i64>) -> (res: Vec<i64>)
    ensures
        res@ == ascending_ids(top_ids(cats@, excl@.to_set())),
{
    let ghost ex = excl@.to_set();
    let mut roots: Vec<(i64, i64)> = Vec::new();
    let mut c: usize = 0;
    while c < cats.len()
        invariant
            c <= cats@.len(),
            excl@.to_set() == ex,
            roots@ == top_ids(cats@.subrange(0, c as int), ex).map_values(|x: i64| (x, x)),
        decreases cats@.len() - c,
    {
        let ghost q = cats@.subrange(0, c + 1);
        assert(q.subrange(0, q.len() - 1) =~= cats@.subrange(0, c as int));
        let cat = &cats[c];
        if !contains_id(&excl, cat.id) && cat.parent_id.is_none() {
            roots.push((cat.id, cat.id));
        }
        assert(roots@ =~= top_ids(q, ex).map_values(|x: i64| (x, x)));
        c += 1;
    }
    assert(cats@.subrange(0, cats@.len() as int) =~= cats@);
    let ghost rv = roots@;
    let sorted = sort_by_key(roots, false);
    proof {
        lemma_sorted_len(rv, false);
    }
    let mut ids: Vec<i64> = Vec::new();
    let mut r: usize = 0;
    while r < sorted.len()
        invariant
            r <= sorted@.len(),
            ids@ == sorted@.take(r as int).map_values(|p: (i64, i64)| p.1),
        decreases sorted@.len() - r,
    {
        ids.push(sorted[r].1);
        assert(ids@ =~= sorted@.take(r + 1).map_values(|p: (i64, i64)| p.1));
        r += 1;
    }
    assert(sorted@.take(sorted@.len() as int) =~= sorted@);
    ids
}

/// The spending tree of `txns`: spending (net-negative amounts, made
/// positive) per category outside the Transfers subtree, nested under
/// the parent categories, largest first at every level, with an
/// "Uncategorized" leaf; and the earliest and latest transaction dates.
/// `None` when a total does not fit in an `i64` (a category's net total,
/// or a tree's).
#[verifier::spinoff_prover]
#[verifier::rlimit(30)]
pub fn spending_by_category_tree(txns: &Vec<TreeTransaction>, cats: &Vec<Category>) -> (res: Option<
    CategoryTreeResponse,
>)
    ensures
        res is Some <==> sums_fit(amounts_of(txns@)) && !forest_overflows(cats@, txns@),
        match res {
            Some(r) => {
                &&& nodes_view(r.categories@) == by_total_desc(top_trees(cats@, txns@))
                &&& forall|i: int, j: int|
                    0 <= i < j < r.categories@.len() ==> tree_total(node_view(#[trigger] r.categories@[i]))
                        >= tree_total(node_view(#[trigger] r.categories@[j]))
                &&& forall|i: int| 0 <= i < r.categories@.len() ==> tree_total(node_view(#[trigger] r.categories@[i])) > 0
                &&& match r.from_date {
                    Some(d) => is_earliest(dates_of(txns@), d@),
                    None => txns@.len() == 0,
                }
                &&& match r.to_date {
                    Some(d) => is_latest(dates_of(txns@), d@),
                    None => txns@.len() == 0,
                }
            },
            None => true,
        },
{
    let (items, dates) = split_transactions(txns);
    let (from_date, to_date) = date_bounds(&dates);

    // the excluded subtree
    let excl = transfers_excluded_list(cats);
    let ghost ex = excluded_set(cats@);
    assert(excl@.to_set() =~= ex);

    // spending per category
    let sums = match totals_by_category(&items) {
        Some(v) => v,
        None => return None,
    };
    let ghost sv = sums_view(items@);
    let mut spending: Vec<(i64, i64)> = Vec::new();
    let mut unc_sum: i64 = 0;
    let mut j: usize = 0;
    while j < sums.len()
        invariant
            items@ == amounts_of(txns@),
            sums_fit(items@),
            ex == excluded_set(cats@),
            excl@.to_set() == ex,
            sv == sums_view(items@),
            sums@.len() == first_keys(items@).len(),
            forall|q: int|
                0 <= q < sums@.len() ==> (#[trigger] sums@[q]).0 == first_keys(items@)[q] && sums@[q].1 as int
                    == sum_cat(items@, sums@[q].0),
            j <= sums@.len(),
            spending@ == spending_list(sv.take(j as int), ex),
            (exists|q: int| 0 <= q < j && (#[trigger] sums@[q]).0 is None) ==> unc_sum == sum_cat(items@, None),
            !(exists|q: int| 0 <= q < j && (#[trigger] sums@[q]).0 is None) ==> unc_sum == 0,
        decreases sums@.len() - j,
    {
        let (k, t) = sums[j];
        proof {
            assert(i64::MIN < sum_cat(items@, k));
            assert(sv[j as int] == (k, t as int));
            assert(sv.take(j + 1).drop_last() =~= sv.take(j as int));
        }
        match k {
            Some(id) => {
                if t < 0 && !contains_id(&excl, id) {
                    spending.push((id, -t));
                }
            },
            None => {
                unc_sum = t;
            },
        }
        j += 1;
    }
    assert(sv.take(sv.len() as int) =~= sv);
    proof {
        if !(exists|q: int| 0 <= q < sums@.len() && (#[trigger] sums@[q]).0 is None) {
            assert(!first_keys(items@).contains(None)) by {
                if first_keys(items@).contains(None) {
                    let q = choose|q: int| 0 <= q < first_keys(items@).len() && first_keys(items@)[q] == None::<i64>;
                    assert(sums@[q].0 is None);
                }
            }
            lemma_sum_absent(items@, None);
        }
        assert(i64::MIN < sum_cat(items@, None));
    }
    let unc: i64 = if unc_sum < 0 {
        -unc_sum
    } else {
        0
    };
    assert(unc as int == uncategorized_spend(amounts_of(txns@)));

    let ids = root_ids(cats, &excl);
    assert(ids@ == tree_roots(cats@));

    // the trees
    let ghost f = |n: CategoryTreeNode| node_view(n);
    let ghost spend = spending@;
    let ghost fuel = cats@.len();
    assert(spend == tree_spending(cats@, txns@));
    let mut pairs: Vec<(i64, CategoryTreeNode)> = Vec::new();
    let mut k: usize = 0;
    while k < ids.len()
        invariant
            excl@.to_set() == ex,
            ex == excluded_set(cats@),
            spending@ == spend,
            spend == tree_spending(cats@, txns@),
            ids@ == tree_roots(cats@),
            fuel == cats@.len(),
            k <= ids@.len(),
            f == (|n: CategoryTreeNode| node_view(n)),
            relabel(pairs@, f) == total_keyed(subtrees_of(cats@, ex, spend, ids@.subrange(0, k as int), fuel)),
            forall|t: int| 0 <= t < subtrees_of(cats@, ex, spend, ids@.subrange(0, k as int), fuel).len()
                ==> fits(#[trigger] subtrees_of(cats@, ex, spend, ids@.subrange(0, k as int), fuel)[t]),
            !subtrees_overflow(cats@, ex, spend, ids@.subrange(0, k as int), fuel),
        decreases ids@.len() - k,
    {
        proof {
            lemma_subtrees_step(cats@, ex, spend, ids@, k as int, fuel);
        }
        let ghost prev = subtrees_of(cats@, ex, spend, ids@.subrange(0, k as int), fuel);
        match build_subtree(ids[k], cats, &excl, &spending, cats.len()) {
            Err(_) => {
                proof {
                    lemma_overflow_grows(cats@, ex, spend, ids@, (k + 1) as int, fuel);
                    assert(ids@.subrange(0, ids@.len() as int) =~= ids@);
                }
                return None;
            },
            Ok(None) => {},
            Ok(Some(n)) => {
                let t = tree_node_total(&n);
                let ghost before = pairs@;
                pairs.push((t, n));
                proof {
                    assert(relabel(pairs@, f) =~= relabel(before, f).push((t, node_view(n))));
                    let nxt = prev.push(node_view(n));
                    assert(total_keyed(nxt) =~= total_keyed(prev).push((tree_total(node_view(n)) as i64, node_view(n))));
                    assert forall|u: int| 0 <= u < nxt.len() implies fits(#[trigger] nxt[u]) by {
                        if u < prev.len() {
                            assert(nxt[u] == prev[u]);
                        }
                    }
                }
            },
        }
        k += 1;
    }
    assert(ids@.subrange(0, ids@.len() as int) =~= ids@);
    let ghost tops = subtrees_of(cats@, ex, spend, ids@, fuel);
    let ghost all = top_trees(cats@, txns@);
    if unc > 0 {
        let l = CategoryTreeNode {
            name: String::from_str("Uncategorized"),
            color: String::from_str("#6b7280"),
            amount_cents: Some(unc),
            children: Vec::new(),
        };
        let ghost before = pairs@;
        proof {
            assert(nodes_view(l.children@) =~= Seq::<TreeView>::empty());
            assert(node_view(l) == leaf("Uncategorized"@, "#6b7280"@, unc));
            assert(tree_total(node_view(l)) == unc);
        }
        pairs.push((unc, l));
        assert(relabel(pairs@, f) =~= relabel(before, f).push((unc, node_view(l))));
        assert(total_keyed(all) =~= total_keyed(tops).push((unc, node_view(l))));
    }
    proof {
        lemma_subtrees_positive(cats@, ex, spend, ids@, fuel);
        assert forall|i: int| 0 <= i < all.len() implies i64::MIN <= tree_total(#[trigger] all[i]) <= i64::MAX
            && tree_total(all[i]) > 0 by {
            if i < tops.len() {
                assert(all[i] == tops[i]);
            } else {
                assert(trees_total(all[i].children) == 0);
            }
        }
        lemma_by_total_desc(all, |t: TreeView| tree_total(t) > 0);
    }
    let categories = sort_subtrees(pairs, Ghost(all));
    proof {
        lemma_nodes_view(categories@);
        let sv = by_total_desc(all);
        assert forall|i: int, j: int| 0 <= i < j < categories@.len() implies tree_total(
            node_view(#[trigger] categories@[i]),
        ) >= tree_total(node_view(#[trigger] categories@[j])) by {
            assert(node_view(categories@[i]) == sv[i]);
            assert(node_view(categories@[j]) == sv[j]);
        }
        assert forall|i: int| 0 <= i < categories@.len() implies tree_total(node_view(#[trigger] categories@[i])) > 0 by {
            assert(node_view(categories@[i]) == sv[i]);
        }
    }
    assert(nodes_view(categories@) == by_total_desc(top_trees(cats@, txns@)));
    assert(texts_view(dates@) == dates_of(txns@));
    assert(texts_view(dates@).len() == dates@.len());
    assert(dates_of(txns@).len() == txns@.len());
    Some(CategoryTreeResponse { categories, from_date, to_date })
}

} // verus!

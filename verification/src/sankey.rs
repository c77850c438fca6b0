//! The money-flow diagram of the analytics page: income categories flow
//! into a budget node, and the budget flows out into expense categories.

use vstd::prelude::*;
use crate::category_tree::{
    amounts_of, date_bounds, dates_of, excluded_set, first_keys, is_earliest, is_latest, lemma_sum_absent,
    root_ids, sums_fit, split_transactions, totals_by_category, sum_cat, sums_view, tree_roots,
    TreeTransaction, by_total_desc, checked_total, collect_kids, find_last, fits, kid_ids, last_with_id, lemma_all_fit,
    lemma_node_view_children, lemma_nodes_view, lookup_spend, node_view, nodes_view, sort_subtrees, spend_of,
    total_keyed, tree_node_total, tree_total, CategoryTreeNode, TreeView,
};
use crate::analytics::transfers_excluded_list;
use crate::models::Category;
use crate::sorting::{lemma_sorted_all, lemma_sorted_len, relabel, stable_sorted};
use crate::tally::texts_view;

verus! {

// ---------------------------------------------------------------------------
// Flow trees
// ---------------------------------------------------------------------------

/// The flow tree of category `id`: its own amount and the flow trees of
/// its subcategories, largest first; nothing when its total is zero.
/// Recursion stops after `fuel` levels.
pub open spec fn flow_of(
    cats: Seq<Category>,
    excluded: Set<i64>,
    amounts: Seq<(i64, i64)>,
    id: i64,
    fuel: nat,
) -> Option<TreeView>
    decreases fuel, 0int, 0int,
{
    if fuel == 0 {
        None
    } else {
        match last_with_id(cats, id) {
            None => None,
            Some(ci) => {
                let v = TreeView {
                    name: cats[ci].name@,
                    color: cats[ci].color@,
                    amount: Some(spend_of(amounts, id)),
                    children: by_total_desc(
                        flows_of(cats, excluded, amounts, kid_ids(cats, excluded, id), (fuel - 1) as nat),
                    ),
                };
                if tree_total(v) == 0 {
                    None
                } else {
                    Some(v)
                }
            },
        }
    }
}

/// The flow trees of the ids that have one, in order.
pub open spec fn flows_of(
    cats: Seq<Category>,
    excluded: Set<i64>,
    amounts: Seq<(i64, i64)>,
    ids: Seq<i64>,
    fuel: nat,
) -> Seq<TreeView>
    decreases fuel, 1int, ids.len(),
{
    if ids.len() == 0 {
        seq![]
    } else {
        let r = flows_of(cats, excluded, amounts, ids.subrange(0, ids.len() - 1), fuel);
        match flow_of(cats, excluded, amounts, ids[ids.len() - 1], fuel) {
            Some(t) => r.push(t),
            None => r,
        }
    }
}

/// Some total in the flow tree of `id` (or in one of its subtrees) does
/// not fit in an `i64`.
pub open spec fn flow_bad(
    cats: Seq<Category>,
    excluded: Set<i64>,
    amounts: Seq<(i64, i64)>,
    id: i64,
    fuel: nat,
) -> bool
    decreases fuel, 0int, 0int,
{
    if fuel == 0 {
        false
    } else {
        match last_with_id(cats, id) {
            None => false,
            Some(ci) => {
                let kids = flows_of(cats, excluded, amounts, kid_ids(cats, excluded, id), (fuel - 1) as nat);
                let v = TreeView {
                    name: cats[ci].name@,
                    color: cats[ci].color@,
                    amount: Some(spend_of(amounts, id)),
                    children: by_total_desc(kids),
                };
                flows_bad(cats, excluded, amounts, kid_ids(cats, excluded, id), (fuel - 1) as nat) || !(i64::MIN
                    <= tree_total(v) <= i64::MAX)
            },
        }
    }
}

pub open spec fn flows_bad(
    cats: Seq<Category>,
    excluded: Set<i64>,
    amounts: Seq<(i64, i64)>,
    ids: Seq<i64>,
    fuel: nat,
) -> bool
    decreases fuel, 1int, ids.len(),
{
    ids.len() > 0 && (flows_bad(cats, excluded, amounts, ids.subrange(0, ids.len() - 1), fuel) || flow_bad(
        cats,
        excluded,
        amounts,
        ids[ids.len() - 1],
        fuel,
    ))
}

proof fn lemma_flows_step(
    cats: Seq<Category>,
    excluded: Set<i64>,
    amounts: Seq<(i64, i64)>,
    ids: Seq<i64>,
    k: int,
    fuel: nat,
)
    requires
        0 <= k < ids.len(),
    ensures
        flows_of(cats, excluded, amounts, ids.subrange(0, k + 1), fuel) == (match flow_of(
            cats,
            excluded,
            amounts,
            ids[k],
            fuel,
        ) {
            Some(t) => flows_of(cats, excluded, amounts, ids.subrange(0, k), fuel).push(t),
            None => flows_of(cats, excluded, amounts, ids.subrange(0, k), fuel),
        }),
        flows_bad(cats, excluded, amounts, ids.subrange(0, k + 1), fuel) == (flows_bad(
            cats,
            excluded,
            amounts,
            ids.subrange(0, k),
            fuel,
        ) || flow_bad(cats, excluded, amounts, ids[k], fuel)),
{
    let q = ids.subrange(0, k + 1);
    assert(q.subrange(0, q.len() - 1) =~= ids.subrange(0, k));
    assert(q[q.len() - 1] == ids[k]);
}

proof fn lemma_flows_bad_grows(
    cats: Seq<Category>,
    excluded: Set<i64>,
    amounts: Seq<(i64, i64)>,
    ids: Seq<i64>,
    j: int,
    fuel: nat,
)
    requires
        0 <= j <= ids.len(),
        flows_bad(cats, excluded, amounts, ids.subrange(0, j), fuel),
    ensures
        flows_bad(cats, excluded, amounts, ids, fuel),
    decreases ids.len() - j,
{
    if j < ids.len() {
        lemma_flows_step(cats, excluded, amounts, ids, j, fuel);
        lemma_flows_bad_grows(cats, excluded, amounts, ids, j + 1, fuel);
    } else {
        assert(ids.subrange(0, j) =~= ids);
    }
}

/// Builds the flow trees of `ids` (see `flows_of`), each with its total,
/// in order; `Err` when a total does not fit in an `i64`.
pub fn build_flows(
    ids: &Vec<i64>,
    cats: &Vec<Category>,
    excluded: &Vec<i64>,
    amounts: &Vec<(i64, i64)>,
    fuel: usize,
) -> (res: Result<Vec<(i64, CategoryTreeNode)>, ()>)
    ensures
        match res {
            Ok(pairs) => {
                &&& !flows_bad(cats@, excluded@.to_set(), amounts@, ids@, fuel as nat)
                &&& relabel(pairs@, |n: CategoryTreeNode| node_view(n)) == total_keyed(
                    flows_of(cats@, excluded@.to_set(), amounts@, ids@, fuel as nat),
                )
                &&& forall|t: int|
                    0 <= t < flows_of(cats@, excluded@.to_set(), amounts@, ids@, fuel as nat).len() ==> fits(
                        #[trigger] flows_of(cats@, excluded@.to_set(), amounts@, ids@, fuel as nat)[t],
                    )
            },
            Err(_) => flows_bad(cats@, excluded@.to_set(), amounts@, ids@, fuel as nat),
        },
    decreases fuel, 1int,
{
    let ghost ex = excluded@.to_set();
    let ghost f = |n: CategoryTreeNode| node_view(n);
    let mut pairs: Vec<(i64, CategoryTreeNode)> = Vec::new();
    let mut k: usize = 0;
    while k < ids.len()
        invariant
            ex == excluded@.to_set(),
            k <= ids@.len(),
            f == (|n: CategoryTreeNode| node_view(n)),
            relabel(pairs@, f) == total_keyed(flows_of(cats@, ex, amounts@, ids@.subrange(0, k as int), fuel as nat)),
            forall|t: int| 0 <= t < flows_of(cats@, ex, amounts@, ids@.subrange(0, k as int), fuel as nat).len()
                ==> fits(#[trigger] flows_of(cats@, ex, amounts@, ids@.subrange(0, k as int), fuel as nat)[t]),
            !flows_bad(cats@, ex, amounts@, ids@.subrange(0, k as int), fuel as nat),
        decreases ids@.len() - k,
    {
        proof {
            lemma_flows_step(cats@, ex, amounts@, ids@, k as int, fuel as nat);
        }
        let ghost prev = flows_of(cats@, ex, amounts@, ids@.subrange(0, k as int), fuel as nat);
        match build_flow(ids[k], cats, excluded, amounts, fuel) {
            Err(_) => {
                proof {
                    lemma_flows_bad_grows(cats@, ex, amounts@, ids@, (k + 1) as int, fuel as nat);
                }
                return Err(());
            },
            Ok(None) => {},
            Ok(Some(n)) => {
                let t = tree_node_total(&n);
                let ghost before = pairs@;
                pairs.push((t, n));
                proof {
                    assert(relabel(pairs@, f) =~= relabel(before, f).push((t, node_view(n))));
                    let nxt = prev.push(node_view(n));
                    assert(total_keyed(nxt) =~= total_keyed(prev).push((tree_total(node_view(n)) as i64, node_view(n))));
                    assert forall|u: int| 0 <= u < nxt.len() implies fits(#[trigger] nxt[u]) by {
                        if u < prev.len() {
                            assert(nxt[u] == prev[u]);
                        }
                    }
                }
            },
        }
        k += 1;
    }
    assert(ids@.subrange(0, ids@.len() as int) =~= ids@);
    Ok(pairs)
}

/// Builds the flow tree of category `cat_id` (see `flow_of`); `Err` when
/// a total in it does not fit in an `i64`.
pub fn build_flow(
    cat_id: i64,
    cats: &Vec<Category>,
    excluded: &Vec<i64>,
    amounts: &Vec<(i64, i64)>,
    fuel: usize,
) -> (res: Result<Option<CategoryTreeNode>, ()>)
    ensures
        match res {
            Ok(Some(n)) => !flow_bad(cats@, excluded@.to_set(), amounts@, cat_id, fuel as nat) && flow_of(
                cats@,
                excluded@.to_set(),
                amounts@,
                cat_id,
                fuel as nat,
            ) == Some(node_view(n)) && fits(node_view(n)),
            Ok(None) => !flow_bad(cats@, excluded@.to_set(), amounts@, cat_id, fuel as nat) && flow_of(
                cats@,
                excluded@.to_set(),
                amounts@,
                cat_id,
                fuel as nat,
            ) is None,
            Err(_) => flow_bad(cats@, excluded@.to_set(), amounts@, cat_id, fuel as nat),
        },
    decreases fuel, 0int,
{
    if fuel == 0 {
        return Ok(None);
    }
    let ci = match find_last(cats, cat_id) {
        None => {
            return Ok(None);
        },
        Some(i) => i,
    };
    let ghost ex = excluded@.to_set();
    let kid_list = collect_kids(cats, excluded, cat_id);
    let pairs = match build_flows(&kid_list, cats, excluded, amounts, fuel - 1) {
        Err(_) => {
            return Err(());
        },
        Ok(p) => p,
    };
    let ghost trees = flows_of(cats@, ex, amounts@, kid_list@, (fuel - 1) as nat);
    let kids = sort_subtrees(pairs, Ghost(trees));
    proof {
        lemma_nodes_view(kids@);
        let p = |q: (i64, TreeView)| fits(q.1);
        assert forall|u: int| 0 <= u < total_keyed(trees).len() implies p(#[trigger] total_keyed(trees)[u]) by {
            assert(total_keyed(trees)[u].1 == trees[u]);
        }
        lemma_sorted_all(total_keyed(trees), true, p);
        lemma_sorted_len(total_keyed(trees), true);
    }
    let ghost kview = nodes_view(kids@);
    assert forall|u: int| 0 <= u < kview.len() implies fits(#[trigger] kview[u]) by {
        let sorted = stable_sorted(total_keyed(trees), true);
        assert(kview[u] == sorted[u].1);
        assert(fits(sorted[u].1));
    }
    let direct = lookup_spend(amounts, cat_id);
    let cat = &cats[ci];
    let node = CategoryTreeNode {
        name: cat.name.clone(),
        color: cat.color.clone(),
        amount_cents: Some(direct),
        children: kids,
    };
    proof {
        lemma_node_view_children(node);
        lemma_all_fit(kview);
    }
    match checked_total(&node) {
        None => Err(()),
        Some(t) => {
            if t == 0 {
                Ok(None)
            } else {
                Ok(Some(node))
            }
        },
    }
}

// ---------------------------------------------------------------------------
// Depths
// ---------------------------------------------------------------------------

/// How many levels lie below the root of a tree.
pub open spec fn tree_depth(v: TreeView) -> int
    decreases v, 1int,
{
    kids_depth(v.children)
}

/// One more than the deepest of `s` (0 when empty).
pub open spec fn kids_depth(s: Seq<TreeView>) -> int
    decreases s, 0int,
{
    if s.len() == 0 {
        0
    } else {
        let a = kids_depth(s.subrange(0, s.len() - 1));
        let b = tree_depth(s[s.len() - 1]) + 1;
        if a >= b {
            a
        } else {
            b
        }
    }
}

/// The depth of the deepest tree of `s` (0 when empty).
pub open spec fn forest_depth(s: Seq<TreeView>) -> int
    decreases s.len(),
{
    if s.len() == 0 {
        0
    } else {
        let a = forest_depth(s.drop_last());
        let b = tree_depth(s.last());
        if a >= b {
            a
        } else {
            b
        }
    }
}

proof fn lemma_kids_depth_bound(s: Seq<TreeView>, b: int)
    requires
        forall|i: int| 0 <= i < s.len() ==> tree_depth(#[trigger] s[i]) < b,
        b >= 0,
    ensures
        0 <= kids_depth(s) <= b,
    decreases s.len(),
{
    if s.len() > 0 {
        let p = s.subrange(0, s.len() - 1);
        assert forall|i: int| 0 <= i < p.len() implies tree_depth(#[trigger] p[i]) < b by {
            assert(p[i] == s[i]);
        }
        lemma_kids_depth_bound(p, b);
    }
}

proof fn lemma_kids_depth_each(s: Seq<TreeView>)
    ensures
        kids_depth(s) >= 0,
        forall|i: int| 0 <= i < s.len() ==> tree_depth(#[trigger] s[i]) < kids_depth(s),
    decreases s.len(),
{
    if s.len() > 0 {
        let p = s.subrange(0, s.len() - 1);
        lemma_kids_depth_each(p);
        assert forall|i: int| 0 <= i < s.len() implies tree_depth(#[trigger] s[i]) < kids_depth(s) by {
            if i < s.len() - 1 {
                assert(p[i] == s[i]);
            }
        }
    }
}

proof fn lemma_depth_nonneg(v: TreeView)
    ensures
        tree_depth(v) >= 0,
{
    lemma_kids_depth_each(v.children);
}

proof fn lemma_forest_depth_each(s: Seq<TreeView>)
    ensures
        forest_depth(s) >= 0,
        forall|i: int| 0 <= i < s.len() ==> tree_depth(#[trigger] s[i]) <= forest_depth(s),
    decreases s.len(),
{
    if s.len() > 0 {
        let p = s.drop_last();
        lemma_forest_depth_each(p);
        assert forall|i: int| 0 <= i < s.len() implies tree_depth(#[trigger] s[i]) <= forest_depth(s) by {
            if i < s.len() - 1 {
                assert(p[i] == s[i]);
            }
        }
    }
}

proof fn lemma_forest_depth_bound(s: Seq<TreeView>, b: int)
    requires
        forall|i: int| 0 <= i < s.len() ==> tree_depth(#[trigger] s[i]) < b,
        b >= 1,
    ensures
        forest_depth(s) < b,
    decreases s.len(),
{
    if s.len() > 0 {
        let p = s.drop_last();
        assert forall|i: int| 0 <= i < p.len() implies tree_depth(#[trigger] p[i]) < b by {
            assert(p[i] == s[i]);
        }
        lemma_forest_depth_bound(p, b);
    }
}

/// A flow tree built with `fuel` levels is less than `fuel` deep.
proof fn lemma_flow_depth(cats: Seq<Category>, excluded: Set<i64>, amounts: Seq<(i64, i64)>, id: i64, fuel: nat)
    ensures
        flow_of(cats, excluded, amounts, id, fuel) matches Some(v) ==> tree_depth(v) < fuel,
    decreases fuel, 0int, 0int,
{
    if fuel > 0 {
        if let Some(ci) = last_with_id(cats, id) {
            let kids = flows_of(cats, excluded, amounts, kid_ids(cats, excluded, id), (fuel - 1) as nat);
            lemma_flows_depth(cats, excluded, amounts, kid_ids(cats, excluded, id), (fuel - 1) as nat);
            let keyed = kids.map_values(|k: TreeView| (tree_total(k) as i64, k));
            let p = |q: (i64, TreeView)| tree_depth(q.1) < fuel - 1;
            assert forall|u: int| 0 <= u < keyed.len() implies p(#[trigger] keyed[u]) by {
                assert(keyed[u].1 == kids[u]);
            }
            lemma_sorted_all(keyed, true, p);
            lemma_sorted_len(keyed, true);
            let sorted = by_total_desc(kids);
            assert forall|u: int| 0 <= u < sorted.len() implies tree_depth(#[trigger] sorted[u]) < fuel - 1 by {
                assert(sorted[u] == stable_sorted(keyed, true)[u].1);
                assert(p(stable_sorted(keyed, true)[u]));
            }
            lemma_kids_depth_bound(sorted, fuel - 1);
        }
    }
}

proof fn lemma_flows_depth(cats: Seq<Category>, excluded: Set<i64>, amounts: Seq<(i64, i64)>, ids: Seq<i64>, fuel: nat)
    ensures
        forall|i: int|
            0 <= i < flows_of(cats, excluded, amounts, ids, fuel).len() ==> tree_depth(
                #[trigger] flows_of(cats, excluded, amounts, ids, fuel)[i],
            ) < fuel,
    decreases fuel, 1int, ids.len(),
{
    if ids.len() > 0 {
        let p = ids.subrange(0, ids.len() - 1);
        lemma_flows_depth(cats, excluded, amounts, p, fuel);
        lemma_flow_depth(cats, excluded, amounts, ids[ids.len() - 1], fuel);
        let r = flows_of(cats, excluded, amounts, p, fuel);
        let all = flows_of(cats, excluded, amounts, ids, fuel);
        assert forall|i: int| 0 <= i < all.len() implies tree_depth(#[trigger] all[i]) < fuel by {
            if i < r.len() {
                assert(all[i] == r[i]);
            }
        }
    }
}

/// How many levels lie below the root of `node`.
pub fn node_depth(node: &CategoryTreeNode) -> (res: u32)
    requires
        tree_depth(node_view(*node)) <= u32::MAX,
    ensures
        res as int == tree_depth(node_view(*node)),
    decreases *node,
{
    let ghost kids = nodes_view(node.children@);
    proof {
        lemma_nodes_view(node.children@);
        lemma_node_view_children(*node);
        lemma_kids_depth_each(kids);
    }
    let mut best: u32 = 0;
    let mut i: usize = 0;
    while i < node.children.len()
        invariant
            i <= node.children@.len(),
            kids == nodes_view(node.children@),
            kids.len() == node.children@.len(),
            forall|k: int| 0 <= k < kids.len() ==> #[trigger] kids[k] == node_view(node.children@[k]),
            forall|k: int| 0 <= k < kids.len() ==> tree_depth(#[trigger] kids[k]) < kids_depth(kids),
            kids_depth(kids) == tree_depth(node_view(*node)),
            kids_depth(kids) <= u32::MAX,
            best as int == kids_depth(kids.subrange(0, i as int)),
        decreases node.children@.len() - i,
    {
        let ghost q = kids.subrange(0, i + 1);
        assert(q.subrange(0, q.len() - 1) =~= kids.subrange(0, i as int));
        assert(q[q.len() - 1] == kids[i as int]);
        assert(tree_depth(kids[i as int]) < kids_depth(kids));
        let d = node_depth(&node.children[i]) + 1;
        if d > best {
            best = d;
        }
        i += 1;
    }
    assert(kids.subrange(0, kids.len() as int) =~= kids);
    best
}

// ---------------------------------------------------------------------------
// Diagram nodes and links
// ---------------------------------------------------------------------------

/// A column of the diagram holds the nodes of one `depth`.
#[derive(Debug, Clone)]
pub struct SankeyNode {
    pub name: String,
    pub color: Option<String>,
    pub depth: u32,
}

/// A flow from `source` to `target`, in cents.
#[derive(Debug, Clone)]
pub struct SankeyLink {
    pub source: String,
    pub target: String,
    pub value_cents: i64,
}

#[derive(Debug)]
pub struct SankeyResponse {
    pub nodes: Vec<SankeyNode>,
    pub links: Vec<SankeyLink>,
    /// Earliest transaction date (YYYY-MM-DD).
    pub from_date: Option<String>,
    /// Latest transaction date (YYYY-MM-DD).
    pub to_date: Option<String>,
}

/// A diagram node as data.
pub struct NodeView {
    pub name: Seq<char>,
    pub color: Option<Seq<char>>,
    pub depth: int,
}

/// A diagram link as data.
pub struct LinkView {
    pub source: Seq<char>,
    pub target: Seq<char>,
    pub value: int,
}

pub open spec fn node_v(n: SankeyNode) -> NodeView {
    NodeView {
        name: n.name@,
        color: match n.color {
            Some(c) => Some(c@),
            None => None,
        },
        depth: n.depth as int,
    }
}

pub open spec fn nodes_v(s: Seq<SankeyNode>) -> Seq<NodeView> {
    s.map_values(|n: SankeyNode| node_v(n))
}

pub open spec fn link_v(l: SankeyLink) -> LinkView {
    LinkView { source: l.source@, target: l.target@, value: l.value_cents as int }
}

pub open spec fn links_v(s: Seq<SankeyLink>) -> Seq<LinkView> {
    s.map_values(|l: SankeyLink| link_v(l))
}

pub open spec fn req(name: Seq<char>, color: Seq<char>, depth: int) -> NodeView {
    NodeView { name, color: Some(color), depth }
}

pub open spec fn link(source: Seq<char>, target: Seq<char>, value: int) -> LinkView {
    LinkView { source, target, value }
}

pub open spec fn has_node(ns: Seq<NodeView>, name: Seq<char>) -> bool {
    exists|i: int| 0 <= i < ns.len() && (#[trigger] ns[i]).name == name
}

/// A node is added unless one of that name is there already.
pub open spec fn add_node(ns: Seq<NodeView>, r: NodeView) -> Seq<NodeView> {
    if has_node(ns, r.name) {
        ns
    } else {
        ns.push(r)
    }
}

pub open spec fn add_nodes(ns: Seq<NodeView>, rs: Seq<NodeView>) -> Seq<NodeView>
    decreases rs.len(),
{
    if rs.len() == 0 {
        ns
    } else {
        add_node(add_nodes(ns, rs.drop_last()), rs.last())
    }
}

pub proof fn lemma_add_nodes_concat(ns: Seq<NodeView>, a: Seq<NodeView>, b: Seq<NodeView>)
    ensures
        add_nodes(ns, a + b) == add_nodes(add_nodes(ns, a), b),
    decreases b.len(),
{
    if b.len() == 0 {
        assert(a + b =~= a);
    } else {
        lemma_add_nodes_concat(ns, a, b.drop_last());
        assert((a + b).drop_last() =~= a + b.drop_last());
        assert((a + b).last() == b.last());
    }
}

/// The amount a tree holds itself.
pub open spec fn own(v: TreeView) -> int {
    match v.amount {
        Some(a) => a as int,
        None => 0,
    }
}

pub open spec fn other_name(n: Seq<char>) -> Seq<char> {
    "Other "@ + n
}

/// A tree with subtrees shows its own amount as an "Other" node.
pub open spec fn shows_other(v: TreeView) -> bool {
    v.children.len() > 0 && own(v) > 0
}

/// The names the diagram shows for a tree.
pub open spec fn tree_has_name(v: TreeView, n: Seq<char>) -> bool
    decreases v, 1int,
{
    v.name == n || kids_have_name(v.children, n) || (shows_other(v) && other_name(v.name) == n)
}

pub open spec fn kids_have_name(s: Seq<TreeView>, n: Seq<char>) -> bool
    decreases s, 0int,
{
    s.len() > 0 && (kids_have_name(s.subrange(0, s.len() - 1), n) || tree_has_name(s[s.len() - 1], n))
}

/// An income name that also shows on the expense side is marked, so
/// that no flow runs in a circle.
pub open spec fn in_name(n: Seq<char>, inc: Seq<TreeView>, exp: Seq<TreeView>) -> Seq<char> {
    if kids_have_name(inc, n) && kids_have_name(exp, n) {
        n + " (In)"@
    } else {
        n
    }
}

/// Nodes of an income tree at `d` levels below its root: columns count
/// down from `maxd` at the roots.
pub open spec fn income_reqs(v: TreeView, d: int, maxd: int, inc: Seq<TreeView>, exp: Seq<TreeView>) -> Seq<NodeView>
    decreases v, 1int,
{
    seq![req(in_name(v.name, inc, exp), v.color, maxd - d)] + income_kids_reqs(v.children, d + 1, maxd, inc, exp) + if shows_other(v) {
        seq![req(in_name(other_name(v.name), inc, exp), v.color, maxd - (d + 1))]
    } else {
        seq![]
    }
}

pub open spec fn income_kids_reqs(s: Seq<TreeView>, d: int, maxd: int, inc: Seq<TreeView>, exp: Seq<TreeView>) -> Seq<NodeView>
    decreases s, 0int,
{
    if s.len() == 0 {
        seq![]
    } else {
        income_kids_reqs(s.subrange(0, s.len() - 1), d, maxd, inc, exp) + income_reqs(s[s.len() - 1], d, maxd, inc, exp)
    }
}

/// Links of an income tree: each subtree flows into its parent, and so
/// does the parent's own amount.
pub open spec fn income_links(v: TreeView, inc: Seq<TreeView>, exp: Seq<TreeView>) -> Seq<LinkView>
    decreases v, 1int,
{
    income_kids_links(v.children, in_name(v.name, inc, exp), inc, exp) + if shows_other(v) {
        seq![link(in_name(other_name(v.name), inc, exp), in_name(v.name, inc, exp), own(v))]
    } else {
        seq![]
    }
}

pub open spec fn income_kids_links(s: Seq<TreeView>, parent: Seq<char>, inc: Seq<TreeView>, exp: Seq<TreeView>) -> Seq<LinkView>
    decreases s, 0int,
{
    if s.len() == 0 {
        seq![]
    } else {
        let c = s[s.len() - 1];
        income_kids_links(s.subrange(0, s.len() - 1), parent, inc, exp) + income_links(c, inc, exp) + seq![
            link(in_name(c.name, inc, exp), parent, tree_total(c)),
        ]
    }
}

/// Nodes of an expense tree at `d` levels below its root: columns count
/// up from `base` at the roots.
pub open spec fn expense_reqs(v: TreeView, d: int, base: int) -> Seq<NodeView>
    decreases v, 1int,
{
    seq![req(v.name, v.color, base + d)] + expense_kids_reqs(v.children, d + 1, base) + if shows_other(v) {
        seq![req(other_name(v.name), v.color, base + d + 1)]
    } else {
        seq![]
    }
}

pub open spec fn expense_kids_reqs(s: Seq<TreeView>, d: int, base: int) -> Seq<NodeView>
    decreases s, 0int,
{
    if s.len() == 0 {
        seq![]
    } else {
        expense_kids_reqs(s.subrange(0, s.len() - 1), d, base) + expense_reqs(s[s.len() - 1], d, base)
    }
}

/// Links of an expense tree: each parent flows into its subtrees and
/// into its own amount.
pub open spec fn expense_links(v: TreeView) -> Seq<LinkView>
    decreases v, 1int,
{
    expense_kids_links(v.children, v.name) + if shows_other(v) {
        seq![link(v.name, other_name(v.name), own(v))]
    } else {
        seq![]
    }
}

pub open spec fn expense_kids_links(s: Seq<TreeView>, parent: Seq<char>) -> Seq<LinkView>
    decreases s, 0int,
{
    if s.len() == 0 {
        seq![]
    } else {
        let c = s[s.len() - 1];
        expense_kids_links(s.subrange(0, s.len() - 1), parent) + expense_links(c) + seq![
            link(parent, c.name, tree_total(c)),
        ]
    }
}

/// Adds a node unless one of that name is there already.
fn ensure_node(nodes: &mut Vec<SankeyNode>, name: String, color: &String, depth: u32)
    ensures
        nodes_v(final(nodes)@) == add_node(nodes_v(old(nodes)@), req(name@, color@, depth as int)),
{
    let ghost before = nodes_v(nodes@);
    let mut i: usize = 0;
    while i < nodes.len()
        invariant
            i <= nodes@.len(),
            before == nodes_v(nodes@),
            forall|k: int| 0 <= k < i ==> (#[trigger] nodes@[k]).name@ != name@,
        decreases nodes@.len() - i,
    {
        if nodes[i].name == name {
            assert(before[i as int].name == name@);
            return;
        }
        i += 1;
    }
    assert(!has_node(before, name@)) by {
        if has_node(before, name@) {
            let k = choose|k: int| 0 <= k < before.len() && (#[trigger] before[k]).name == name@;
            assert(nodes@[k].name@ == before[k].name);
        }
    }
    nodes.push(SankeyNode { name, color: Some(color.clone()), depth });
    assert(nodes_v(nodes@) =~= before.push(req(name@, color@, depth as int)));
}

/// Whether the diagram shows `name` for `node`.
fn tree_has(node: &CategoryTreeNode, name: &String) -> (res: bool)
    ensures
        res == tree_has_name(node_view(*node), name@),
    decreases *node,
{
    let ghost kids = nodes_view(node.children@);
    proof {
        lemma_nodes_view(node.children@);
        lemma_node_view_children(*node);
    }
    if node.name == *name {
        return true;
    }
    let mut found = false;
    let mut i: usize = 0;
    while i < node.children.len()
        invariant
            i <= node.children@.len(),
            kids == nodes_view(node.children@),
            kids.len() == node.children@.len(),
            forall|k: int| 0 <= k < kids.len() ==> #[trigger] kids[k] == node_view(node.children@[k]),
            found == kids_have_name(kids.subrange(0, i as int), name@),
        decreases node.children@.len() - i,
    {
        let ghost q = kids.subrange(0, i + 1);
        assert(q.subrange(0, q.len() - 1) =~= kids.subrange(0, i as int));
        assert(q[q.len() - 1] == kids[i as int]);
        if !found {
            found = tree_has(&node.children[i], name);
        }
        i += 1;
    }
    assert(kids.subrange(0, kids.len() as int) =~= kids);
    if found {
        return true;
    }
    let direct: i64 = match node.amount_cents {
        Some(a) => a,
        None => 0,
    };
    if node.children.len() > 0 && direct > 0 {
        let mut o = String::from_str("Other ");
        o.append(node.name.as_str());
        return o == *name;
    }
    false
}

/// Whether the diagram shows `name` for one of `trees`.
fn forest_has(trees: &Vec<CategoryTreeNode>, name: &String) -> (res: bool)
    ensures
        res == kids_have_name(nodes_view(trees@), name@),
{
    let ghost ts = nodes_view(trees@);
    proof {
        lemma_nodes_view(trees@);
    }
    let mut found = false;
    let mut i: usize = 0;
    while i < trees.len()
        invariant
            i <= trees@.len(),
            ts == nodes_view(trees@),
            ts.len() == trees@.len(),
            forall|k: int| 0 <= k < ts.len() ==> #[trigger] ts[k] == node_view(trees@[k]),
            found == kids_have_name(ts.subrange(0, i as int), name@),
        decreases trees@.len() - i,
    {
        let ghost q = ts.subrange(0, i + 1);
        assert(q.subrange(0, q.len() - 1) =~= ts.subrange(0, i as int));
        assert(q[q.len() - 1] == ts[i as int]);
        if !found {
            found = tree_has(&trees[i], name);
        }
        i += 1;
    }
    assert(ts.subrange(0, ts.len() as int) =~= ts);
    found
}

/// The name an income node shows (see `in_name`).
fn income_name(name: &String, inc: &Vec<CategoryTreeNode>, exp: &Vec<CategoryTreeNode>) -> (res: String)
    ensures
        res@ == in_name(name@, nodes_view(inc@), nodes_view(exp@)),
{
    if forest_has(inc, name) && forest_has(exp, name) {
        let mut s = name.clone();
        s.append(" (In)");
        s
    } else {
        name.clone()
    }
}

/// Adds the nodes and links of an income tree whose root is `td` levels
/// down (see `income_reqs`, `income_links`).
fn emit_income(
    node: &CategoryTreeNode,
    td: u32,
    maxd: u32,
    nodes: &mut Vec<SankeyNode>,
    links: &mut Vec<SankeyLink>,
    inc: &Vec<CategoryTreeNode>,
    exp: &Vec<CategoryTreeNode>,
)
    requires
        fits(node_view(*node)),
        td + tree_depth(node_view(*node)) <= maxd,
    ensures
        nodes_v(final(nodes)@) == add_nodes(
            nodes_v(old(nodes)@),
            income_reqs(node_view(*node), td as int, maxd as int, nodes_view(inc@), nodes_view(exp@)),
        ),
        links_v(final(links)@) == links_v(old(links)@) + income_links(node_view(*node), nodes_view(inc@), nodes_view(exp@)),
    decreases *node,
{
    let ghost v = node_view(*node);
    let ghost iv = nodes_view(inc@);
    let ghost ev = nodes_view(exp@);
    let ghost kids = nodes_view(node.children@);
    let ghost n0 = nodes_v(nodes@);
    let ghost l0 = links_v(links@);
    proof {
        lemma_nodes_view(node.children@);
        lemma_node_view_children(*node);
        lemma_kids_depth_each(kids);
        lemma_all_fit(kids);
    }
    let name = income_name(&node.name, inc, exp);
    let ghost first = seq![req(in_name(v.name, iv, ev), v.color, maxd - td)];
    ensure_node(nodes, name.clone(), &node.color, maxd - td);
    assert(nodes_v(nodes@) == add_nodes(n0, first)) by {
        assert(first.drop_last() =~= Seq::<NodeView>::empty());
        assert(add_nodes(n0, first.drop_last()) == n0);
        assert(first.last() == req(in_name(v.name, iv, ev), v.color, maxd - td));
    }
    let mut i: usize = 0;
    while i < node.children.len()
        invariant
            v == node_view(*node),
            kids == nodes_view(node.children@),
            v.children == kids,
            iv == nodes_view(inc@),
            ev == nodes_view(exp@),
            name@ == in_name(v.name, iv, ev),
            first == seq![req(in_name(v.name, iv, ev), v.color, maxd - td)],
            kids.len() == node.children@.len(),
            forall|k: int| 0 <= k < kids.len() ==> #[trigger] kids[k] == node_view(node.children@[k]),
            forall|k: int| 0 <= k < kids.len() ==> tree_depth(#[trigger] kids[k]) < kids_depth(kids),
            forall|k: int| 0 <= k < kids.len() ==> fits(#[trigger] kids[k]),
            kids_depth(kids) == tree_depth(v),
            td + tree_depth(v) <= maxd,
            i <= node.children@.len(),
            nodes_v(nodes@) == add_nodes(n0, first + income_kids_reqs(kids.subrange(0, i as int), td + 1, maxd as int, iv, ev)),
            links_v(links@) == l0 + income_kids_links(kids.subrange(0, i as int), name@, iv, ev),
        decreases node.children@.len() - i,
    {
        let ghost q = kids.subrange(0, i + 1);
        assert(q.subrange(0, q.len() - 1) =~= kids.subrange(0, i as int));
        assert(q[q.len() - 1] == kids[i as int]);
        let ghost c = kids[i as int];
        assert(tree_depth(c) < kids_depth(kids));
        proof {
            lemma_depth_nonneg(c);
        }
        let child = &node.children[i];
        let ghost pre_reqs = income_kids_reqs(kids.subrange(0, i as int), td + 1, maxd as int, iv, ev);
        let ghost pre_nodes = nodes_v(nodes@);
        let ghost pre_links = links_v(links@);
        emit_income(child, td + 1, maxd, nodes, links, inc, exp);
        proof {
            lemma_add_nodes_concat(n0, first + pre_reqs, income_reqs(c, td + 1, maxd as int, iv, ev));
            assert(first + pre_reqs + income_reqs(c, td + 1, maxd as int, iv, ev) =~= first
                + income_kids_reqs(q, td + 1, maxd as int, iv, ev));
        }
        let cname = income_name(&child.name, inc, exp);
        let value = tree_node_total(child);
        let ghost mid = links@;
        links.push(SankeyLink { source: cname, target: name.clone(), value_cents: value });
        assert(links_v(links@) =~= links_v(mid).push(link(in_name(c.name, iv, ev), name@, tree_total(c))));
        assert(links_v(links@) =~= l0 + income_kids_links(q, name@, iv, ev));
        i += 1;
    }
    assert(kids.subrange(0, kids.len() as int) =~= kids);
    let direct: i64 = match node.amount_cents {
        Some(a) => a,
        None => 0,
    };
    if node.children.len() > 0 && direct > 0 {
        let mut o = String::from_str("Other ");
        o.append(node.name.as_str());
        let other = income_name(&o, inc, exp);
        proof {
            lemma_depth_nonneg(kids[0]);
            assert(tree_depth(kids[0]) < kids_depth(kids));
        }
        let ghost last = seq![req(in_name(other_name(v.name), iv, ev), v.color, maxd - (td + 1))];
        let ghost mid_nodes = first + income_kids_reqs(kids, td + 1, maxd as int, iv, ev);
        ensure_node(nodes, other.clone(), &node.color, maxd - (td + 1));
        proof {
            assert(last.drop_last() =~= Seq::<NodeView>::empty());
            assert(add_nodes(add_nodes(n0, mid_nodes), last.drop_last()) == add_nodes(n0, mid_nodes));
            lemma_add_nodes_concat(n0, mid_nodes, last);
            assert(mid_nodes + last =~= income_reqs(v, td as int, maxd as int, iv, ev));
        }
        let ghost mid = links@;
        links.push(SankeyLink { source: other, target: name, value_cents: direct });
        assert(links_v(links@) =~= links_v(mid).push(link(in_name(other_name(v.name), iv, ev), in_name(v.name, iv, ev), own(v))));
        assert(links_v(links@) =~= l0 + income_links(v, iv, ev));
    } else {
        assert(first + income_kids_reqs(kids, td + 1, maxd as int, iv, ev) =~= income_reqs(v, td as int, maxd as int, iv, ev));
        assert(income_kids_links(kids, name@, iv, ev) =~= income_links(v, iv, ev));
    }
}

/// Adds the nodes and links of an expense tree whose root is `td` levels
/// down (see `expense_reqs`, `expense_links`).
fn emit_expense(node: &CategoryTreeNode, td: u32, base: u32, nodes: &mut Vec<SankeyNode>, links: &mut Vec<SankeyLink>)
    requires
        fits(node_view(*node)),
        base + td + tree_depth(node_view(*node)) <= u32::MAX,
    ensures
        nodes_v(final(nodes)@) == add_nodes(nodes_v(old(nodes)@), expense_reqs(node_view(*node), td as int, base as int)),
        links_v(final(links)@) == links_v(old(links)@) + expense_links(node_view(*node)),
    decreases *node,
{
    let ghost v = node_view(*node);
    let ghost kids = nodes_view(node.children@);
    let ghost n0 = nodes_v(nodes@);
    let ghost l0 = links_v(links@);
    proof {
        lemma_nodes_view(node.children@);
        lemma_node_view_children(*node);
        lemma_kids_depth_each(kids);
        lemma_all_fit(kids);
        lemma_depth_nonneg(v);
    }
    let ghost first = seq![req(v.name, v.color, base + td)];
    ensure_node(nodes, node.name.clone(), &node.color, base + td);
    assert(nodes_v(nodes@) == add_nodes(n0, first)) by {
        assert(first.drop_last() =~= Seq::<NodeView>::empty());
        assert(add_nodes(n0, first.drop_last()) == n0);
    }
    let mut i: usize = 0;
    while i < node.children.len()
        invariant
            v == node_view(*node),
            kids == nodes_view(node.children@),
            v.children == kids,
            first == seq![req(v.name, v.color, base + td)],
            kids.len() == node.children@.len(),
            forall|k: int| 0 <= k < kids.len() ==> #[trigger] kids[k] == node_view(node.children@[k]),
            forall|k: int| 0 <= k < kids.len() ==> tree_depth(#[trigger] kids[k]) < kids_depth(kids),
            forall|k: int| 0 <= k < kids.len() ==> fits(#[trigger] kids[k]),
            kids_depth(kids) == tree_depth(v),
            base + td + tree_depth(v) <= u32::MAX,
            i <= node.children@.len(),
            nodes_v(nodes@) == add_nodes(n0, first + expense_kids_reqs(kids.subrange(0, i as int), td + 1, base as int)),
            links_v(links@) == l0 + expense_kids_links(kids.subrange(0, i as int), v.name),
        decreases node.children@.len() - i,
    {
        let ghost q = kids.subrange(0, i + 1);
        assert(q.subrange(0, q.len() - 1) =~= kids.subrange(0, i as int));
        assert(q[q.len() - 1] == kids[i as int]);
        let ghost c = kids[i as int];
        assert(tree_depth(c) < kids_depth(kids));
        proof {
            lemma_depth_nonneg(c);
        }
        let child = &node.children[i];
        let ghost pre_reqs = expense_kids_reqs(kids.subrange(0, i as int), td + 1, base as int);
        emit_expense(child, td + 1, base, nodes, links);
        proof {
            lemma_add_nodes_concat(n0, first + pre_reqs, expense_reqs(c, td + 1, base as int));
            assert(first + pre_reqs + expense_reqs(c, td + 1, base as int) =~= first + expense_kids_reqs(q, td + 1, base as int));
        }
        let value = tree_node_total(child);
        let ghost mid = links@;
        links.push(SankeyLink { source: node.name.clone(), target: child.name.clone(), value_cents: value });
        assert(links_v(links@) =~= links_v(mid).push(link(v.name, c.name, tree_total(c))));
        assert(links_v(links@) =~= l0 + expense_kids_links(q, v.name));
        i += 1;
    }
    assert(kids.subrange(0, kids.len() as int) =~= kids);
    let direct: i64 = match node.amount_cents {
        Some(a) => a,
        None => 0,
    };
    if node.children.len() > 0 && direct > 0 {
        let mut o = String::from_str("Other ");
        o.append(node.name.as_str());
        proof {
            lemma_depth_nonneg(kids[0]);
            assert(tree_depth(kids[0]) < kids_depth(kids));
        }
        let ghost last = seq![req(other_name(v.name), v.color, base + td + 1)];
        let ghost mid_nodes = first + expense_kids_reqs(kids, td + 1, base as int);
        ensure_node(nodes, o.clone(), &node.color, base + td + 1);
        proof {
            assert(last.drop_last() =~= Seq::<NodeView>::empty());
            assert(add_nodes(add_nodes(n0, mid_nodes), last.drop_last()) == add_nodes(n0, mid_nodes));
            lemma_add_nodes_concat(n0, mid_nodes, last);
            assert(mid_nodes + last =~= expense_reqs(v, td as int, base as int));
        }
        let ghost mid = links@;
        links.push(SankeyLink { source: node.name.clone(), target: o, value_cents: direct });
        assert(links_v(links@) =~= links_v(mid).push(link(v.name, other_name(v.name), own(v))));
        assert(links_v(links@) =~= l0 + expense_links(v));
    } else {
        assert(first + expense_kids_reqs(kids, td + 1, base as int) =~= expense_reqs(v, td as int, base as int));
        assert(expense_kids_links(kids, v.name) =~= expense_links(v));
    }
}

// ---------------------------------------------------------------------------
// Amounts per side
// ---------------------------------------------------------------------------

/// The categories a side of the diagram shows, with their amounts: those
/// that exist, lie outside `excluded`, and whose net total is positive
/// (income) or negative (expense), made positive.
pub open spec fn side_amounts(
    sums: Seq<(Option<i64>, int)>,
    cats: Seq<Category>,
    excluded: Set<i64>,
    income: bool,
) -> Seq<(i64, i64)>
    decreases sums.len(),
{
    if sums.len() == 0 {
        seq![]
    } else {
        let r = side_amounts(sums.drop_last(), cats, excluded, income);
        let t = sums.last().1;
        match sums.last().0 {
            Some(id) => if last_with_id(cats, id) is Some && !excluded.contains(id) && (if income {
                t > 0
            } else {
                t < 0
            }) {
                r.push((id, (if income {
                    t
                } else {
                    -t
                }) as i64))
            } else {
                r
            },
            None => r,
        }
    }
}

/// Net income without a category (0 unless positive).
pub open spec fn unc_income(items: Seq<(Option<i64>, i64)>) -> int {
    if sum_cat(items, None) > 0 {
        sum_cat(items, None)
    } else {
        0
    }
}

/// Net spending without a category, made positive (0 unless negative).
pub open spec fn unc_expense(items: Seq<(Option<i64>, i64)>) -> int {
    if sum_cat(items, None) < 0 {
        -sum_cat(items, None)
    } else {
        0
    }
}

/// Splits the net totals per category into the two sides of the diagram.
fn flow_lists(items: &Vec<(Option<i64>, i64)>, cats: &Vec<Category>, excl: &Vec<i64>) -> (res: (
    Vec<(i64, i64)>,
    Vec<(i64, i64)>,
    i64,
    i64,
))
    requires
        sums_fit(items@),
    ensures
        res.0@ == side_amounts(sums_view(items@), cats@, excl@.to_set(), true),
        res.1@ == side_amounts(sums_view(items@), cats@, excl@.to_set(), false),
        res.2 as int == unc_income(items@),
        res.3 as int == unc_expense(items@),
{
    let sums = match totals_by_category(items) {
        Some(v) => v,
        None => {
            proof {
                assert(false);
            }
            Vec::new()
        },
    };
    let ghost sv = sums_view(items@);
    let ghost ex = excl@.to_set();
    let mut income: Vec<(i64, i64)> = Vec::new();
    let mut expense: Vec<(i64, i64)> = Vec::new();
    let mut unc_sum: i64 = 0;
    let mut j: usize = 0;
    while j < sums.len()
        invariant
            sums_fit(items@),
            ex == excl@.to_set(),
            sv == sums_view(items@),
            sums@.len() == first_keys(items@).len(),
            forall|q: int|
                0 <= q < sums@.len() ==> (#[trigger] sums@[q]).0 == first_keys(items@)[q] && sums@[q].1 as int
                    == sum_cat(items@, sums@[q].0),
            j <= sums@.len(),
            income@ == side_amounts(sv.take(j as int), cats@, ex, true),
            expense@ == side_amounts(sv.take(j as int), cats@, ex, false),
            (exists|q: int| 0 <= q < j && (#[trigger] sums@[q]).0 is None) ==> unc_sum == sum_cat(items@, None),
            !(exists|q: int| 0 <= q < j && (#[trigger] sums@[q]).0 is None) ==> unc_sum == 0,
        decreases sums@.len() - j,
    {
        let (k, t) = sums[j];
        proof {
            assert(i64::MIN < sum_cat(items@, k));
            assert(sv[j as int] == (k, t as int));
            assert(sv.take(j + 1).drop_last() =~= sv.take(j as int));
        }
        match k {
            Some(id) => {
                if t != 0 && find_last(cats, id).is_some() && !crate::category_tree::contains_id(excl, id) {
                    if t > 0 {
                        income.push((id, t));
                    } else {
                        expense.push((id, -t));
                    }
                }
            },
            None => {
                unc_sum = t;
            },
        }
        j += 1;
    }
    assert(sv.take(sv.len() as int) =~= sv);
    proof {
        if !(exists|q: int| 0 <= q < sums@.len() && (#[trigger] sums@[q]).0 is None) {
            assert(!first_keys(items@).contains(None)) by {
                if first_keys(items@).contains(None) {
                    let q = choose|q: int| 0 <= q < first_keys(items@).len() && first_keys(items@)[q] == None::<i64>;
                    assert(sums@[q].0 is None);
                }
            }
            lemma_sum_absent(items@, None);
        }
        assert(i64::MIN < sum_cat(items@, None));
    }
    let unc_in: i64 = if unc_sum > 0 {
        unc_sum
    } else {
        0
    };
    let unc_ex: i64 = if unc_sum < 0 {
        -unc_sum
    } else {
        0
    };
    (income, expense, unc_in, unc_ex)
}

// ---------------------------------------------------------------------------
// The two sides
// ---------------------------------------------------------------------------

/// The flow trees of the top-level categories, largest first.
fn build_side(roots: &Vec<i64>, cats: &Vec<Category>, excl: &Vec<i64>, amounts: &Vec<(i64, i64)>) -> (res: Result<
    Vec<CategoryTreeNode>,
    (),
>)
    ensures
        match res {
            Ok(ts) => {
                &&& !flows_bad(cats@, excl@.to_set(), amounts@, roots@, cats@.len())
                &&& nodes_view(ts@) == by_total_desc(flows_of(cats@, excl@.to_set(), amounts@, roots@, cats@.len()))
                &&& forall|i: int| 0 <= i < ts@.len() ==> fits(#[trigger] nodes_view(ts@)[i])
                &&& forall|i: int| 0 <= i < ts@.len() ==> tree_depth(#[trigger] nodes_view(ts@)[i]) < cats@.len()
            },
            Err(_) => flows_bad(cats@, excl@.to_set(), amounts@, roots@, cats@.len()),
        },
{
    let pairs = match build_flows(roots, cats, excl, amounts, cats.len()) {
        Err(_) => {
            return Err(());
        },
        Ok(p) => p,
    };
    let ghost trees = flows_of(cats@, excl@.to_set(), amounts@, roots@, cats@.len());
    let ts = sort_subtrees(pairs, Ghost(trees));
    proof {
        lemma_nodes_view(ts@);
        lemma_flows_depth(cats@, excl@.to_set(), amounts@, roots@, cats@.len());
        let keyed = total_keyed(trees);
        let p = |q: (i64, TreeView)| fits(q.1) && tree_depth(q.1) < cats@.len();
        assert forall|u: int| 0 <= u < keyed.len() implies p(#[trigger] keyed[u]) by {
            assert(keyed[u].1 == trees[u]);
        }
        lemma_sorted_all(keyed, true, p);
        lemma_sorted_len(keyed, true);
        let tv = nodes_view(ts@);
        assert forall|u: int| 0 <= u < ts@.len() implies fits(#[trigger] tv[u]) && tree_depth(tv[u]) < cats@.len() by {
            assert(tv[u] == stable_sorted(keyed, true)[u].1);
            assert(p(stable_sorted(keyed, true)[u]));
        }
    }
    Ok(ts)
}

/// The depth of the deepest of `trees`.
fn forest_max_depth(trees: &Vec<CategoryTreeNode>, Ghost(bound): Ghost<int>) -> (res: u32)
    requires
        bound <= u32::MAX,
        forall|i: int| 0 <= i < trees@.len() ==> tree_depth(#[trigger] nodes_view(trees@)[i]) < bound,
    ensures
        res as int == forest_depth(nodes_view(trees@)),
{
    let ghost tv = nodes_view(trees@);
    proof {
        lemma_nodes_view(trees@);
    }
    let mut best: u32 = 0;
    let mut i: usize = 0;
    while i < trees.len()
        invariant
            bound <= u32::MAX,
            tv == nodes_view(trees@),
            tv.len() == trees@.len(),
            forall|k: int| 0 <= k < tv.len() ==> #[trigger] tv[k] == node_view(trees@[k]),
            forall|i: int| 0 <= i < trees@.len() ==> tree_depth(#[trigger] tv[i]) < bound,
            i <= trees@.len(),
            best as int == forest_depth(tv.take(i as int)),
        decreases trees@.len() - i,
    {
        assert(tv.take(i + 1).drop_last() =~= tv.take(i as int));
        assert(tv.take(i + 1).last() == tv[i as int]);
        proof {
            lemma_depth_nonneg(tv[i as int]);
        }
        let d = node_depth(&trees[i]);
        if d > best {
            best = d;
        }
        i += 1;
    }
    assert(tv.take(tv.len() as int) =~= tv);
    best
}

/// The nodes of the income trees, roots in column `maxd`.
pub open spec fn income_forest_reqs(s: Seq<TreeView>, maxd: int, inc: Seq<TreeView>, exp: Seq<TreeView>) -> Seq<NodeView>
    decreases s.len(),
{
    if s.len() == 0 {
        seq![]
    } else {
        income_forest_reqs(s.drop_last(), maxd, inc, exp) + income_reqs(s.last(), 0, maxd, inc, exp)
    }
}

/// The links of the income trees, each root flowing into the budget.
pub open spec fn income_forest_links(s: Seq<TreeView>, inc: Seq<TreeView>, exp: Seq<TreeView>) -> Seq<LinkView>
    decreases s.len(),
{
    if s.len() == 0 {
        seq![]
    } else {
        income_forest_links(s.drop_last(), inc, exp) + income_links(s.last(), inc, exp) + seq![
            link(in_name(s.last().name, inc, exp), "Budget"@, tree_total(s.last())),
        ]
    }
}

/// The nodes of the expense trees, roots in column `base`.
pub open spec fn expense_forest_reqs(s: Seq<TreeView>, base: int) -> Seq<NodeView>
    decreases s.len(),
{
    if s.len() == 0 {
        seq![]
    } else {
        expense_forest_reqs(s.drop_last(), base) + expense_reqs(s.last(), 0, base)
    }
}

/// The links of the expense trees, the budget flowing into each root.
pub open spec fn expense_forest_links(s: Seq<TreeView>) -> Seq<LinkView>
    decreases s.len(),
{
    if s.len() == 0 {
        seq![]
    } else {
        expense_forest_links(s.drop_last()) + seq![link("Budget"@, s.last().name, tree_total(s.last()))]
            + expense_links(s.last())
    }
}

fn emit_income_forest(
    inc: &Vec<CategoryTreeNode>,
    maxd: u32,
    nodes: &mut Vec<SankeyNode>,
    links: &mut Vec<SankeyLink>,
    exp: &Vec<CategoryTreeNode>,
)
    requires
        forall|i: int| 0 <= i < inc@.len() ==> fits(#[trigger] nodes_view(inc@)[i]),
        forall|i: int| 0 <= i < inc@.len() ==> tree_depth(#[trigger] nodes_view(inc@)[i]) <= maxd,
    ensures
        nodes_v(final(nodes)@) == add_nodes(
            nodes_v(old(nodes)@),
            income_forest_reqs(nodes_view(inc@), maxd as int, nodes_view(inc@), nodes_view(exp@)),
        ),
        links_v(final(links)@) == links_v(old(links)@) + income_forest_links(
            nodes_view(inc@),
            nodes_view(inc@),
            nodes_view(exp@),
        ),
{
    let ghost iv = nodes_view(inc@);
    let ghost ev = nodes_view(exp@);
    let ghost n0 = nodes_v(nodes@);
    let ghost l0 = links_v(links@);
    proof {
        lemma_nodes_view(inc@);
    }
    let budget = String::from_str("Budget");
    let mut i: usize = 0;
    while i < inc.len()
        invariant
            iv == nodes_view(inc@),
            ev == nodes_view(exp@),
            iv.len() == inc@.len(),
            forall|k: int| 0 <= k < iv.len() ==> #[trigger] iv[k] == node_view(inc@[k]),
            forall|i: int| 0 <= i < inc@.len() ==> fits(#[trigger] iv[i]),
            forall|i: int| 0 <= i < inc@.len() ==> tree_depth(#[trigger] iv[i]) <= maxd,
            budget@ == "Budget"@,
            i <= inc@.len(),
            nodes_v(nodes@) == add_nodes(n0, income_forest_reqs(iv.take(i as int), maxd as int, iv, ev)),
            links_v(links@) == l0 + income_forest_links(iv.take(i as int), iv, ev),
        decreases inc@.len() - i,
    {
        let ghost q = iv.take(i + 1);
        assert(q.drop_last() =~= iv.take(i as int));
        assert(q.last() == iv[i as int]);
        let ghost t = iv[i as int];
        emit_income(&inc[i], 0, maxd, nodes, links, inc, exp);
        proof {
            lemma_add_nodes_concat(n0, income_forest_reqs(iv.take(i as int), maxd as int, iv, ev), income_reqs(t, 0, maxd as int, iv, ev));
        }
        let root = income_name(&inc[i].name, inc, exp);
        let value = tree_node_total(&inc[i]);
        let ghost mid = links@;
        links.push(SankeyLink { source: root, target: budget.clone(), value_cents: value });
        assert(links_v(links@) =~= links_v(mid).push(link(in_name(t.name, iv, ev), "Budget"@, tree_total(t))));
        assert(links_v(links@) =~= l0 + income_forest_links(q, iv, ev));
        i += 1;
    }
    assert(iv.take(iv.len() as int) =~= iv);
}

fn emit_expense_forest(exp: &Vec<CategoryTreeNode>, base: u32, nodes: &mut Vec<SankeyNode>, links: &mut Vec<SankeyLink>)
    requires
        forall|i: int| 0 <= i < exp@.len() ==> fits(#[trigger] nodes_view(exp@)[i]),
        forall|i: int| 0 <= i < exp@.len() ==> base + tree_depth(#[trigger] nodes_view(exp@)[i]) <= u32::MAX,
    ensures
        nodes_v(final(nodes)@) == add_nodes(nodes_v(old(nodes)@), expense_forest_reqs(nodes_view(exp@), base as int)),
        links_v(final(links)@) == links_v(old(links)@) + expense_forest_links(nodes_view(exp@)),
{
    let ghost ev = nodes_view(exp@);
    let ghost n0 = nodes_v(nodes@);
    let ghost l0 = links_v(links@);
    proof {
        lemma_nodes_view(exp@);
    }
    let budget = String::from_str("Budget");
    let mut i: usize = 0;
    while i < exp.len()
        invariant
            ev == nodes_view(exp@),
            ev.len() == exp@.len(),
            forall|k: int| 0 <= k < ev.len() ==> #[trigger] ev[k] == node_view(exp@[k]),
            forall|i: int| 0 <= i < exp@.len() ==> fits(#[trigger] ev[i]),
            forall|i: int| 0 <= i < exp@.len() ==> base + tree_depth(#[trigger] ev[i]) <= u32::MAX,
            budget@ == "Budget"@,
            i <= exp@.len(),
            nodes_v(nodes@) == add_nodes(n0, expense_forest_reqs(ev.take(i as int), base as int)),
            links_v(links@) == l0 + expense_forest_links(ev.take(i as int)),
        decreases exp@.len() - i,
    {
        let ghost q = ev.take(i + 1);
        assert(q.drop_last() =~= ev.take(i as int));
        assert(q.last() == ev[i as int]);
        let ghost t = ev[i as int];
        let value = tree_node_total(&exp[i]);
        let ghost mid = links@;
        links.push(SankeyLink { source: budget.clone(), target: exp[i].name.clone(), value_cents: value });
        assert(links_v(links@) =~= links_v(mid).push(link("Budget"@, t.name, tree_total(t))));
        let ghost mid2 = links_v(links@);
        emit_expense(&exp[i], 0, base, nodes, links);
        proof {
            lemma_add_nodes_concat(n0, expense_forest_reqs(ev.take(i as int), base as int), expense_reqs(t, 0, base as int));
        }
        assert(links_v(links@) =~= l0 + expense_forest_links(q));
        i += 1;
    }
    assert(ev.take(ev.len() as int) =~= ev);
}

// ---------------------------------------------------------------------------
// The diagram
// ---------------------------------------------------------------------------

pub open spec fn flow_amounts(cats: Seq<Category>, txns: Seq<TreeTransaction>, income: bool) -> Seq<(i64, i64)> {
    side_amounts(sums_view(amounts_of(txns)), cats, excluded_set(cats), income)
}

/// Nothing to show: no category and no uncategorized net amount.
pub open spec fn no_flow(cats: Seq<Category>, txns: Seq<TreeTransaction>) -> bool {
    &&& flow_amounts(cats, txns, true).len() == 0
    &&& flow_amounts(cats, txns, false).len() == 0
    &&& unc_income(amounts_of(txns)) == 0
    &&& unc_expense(amounts_of(txns)) == 0
}

/// The flow trees of one side, largest first.
pub open spec fn side_trees(cats: Seq<Category>, txns: Seq<TreeTransaction>, income: bool) -> Seq<TreeView> {
    by_total_desc(flows_of(cats, excluded_set(cats), flow_amounts(cats, txns, income), tree_roots(cats), cats.len()))
}

/// A total on one side does not fit in an `i64`.
pub open spec fn side_bad(cats: Seq<Category>, txns: Seq<TreeTransaction>, income: bool) -> bool {
    flows_bad(cats, excluded_set(cats), flow_amounts(cats, txns, income), tree_roots(cats), cats.len())
}

/// The nodes in the order the diagram asks for them, up to the expense
/// trees: income trees (leaves in column 0, roots in column `maxd`),
/// uncategorized income, the budget, then the expense trees.
pub open spec fn main_reqs(inc: Seq<TreeView>, exp: Seq<TreeView>, unc_in: int) -> Seq<NodeView> {
    let maxd = forest_depth(inc);
    income_forest_reqs(inc, maxd, inc, exp) + (if unc_in > 0 {
        seq![req("Uncategorized"@, "#6b7280"@, maxd)]
    } else {
        seq![]
    }) + seq![req("Budget"@, "#3b82f6"@, maxd + 1)] + expense_forest_reqs(exp, maxd + 2)
}

/// Uncategorized spending is named apart from an "Uncategorized" node
/// already shown.
pub open spec fn unc_expense_name(shown: Seq<NodeView>) -> Seq<char> {
    if has_node(shown, "Uncategorized"@) {
        "Uncategorized Expenses"@
    } else {
        "Uncategorized"@
    }
}

pub open spec fn diagram_nodes(inc: Seq<TreeView>, exp: Seq<TreeView>, unc_in: int, unc_ex: int) -> Seq<NodeView> {
    let shown = add_nodes(seq![], main_reqs(inc, exp, unc_in));
    if unc_ex > 0 {
        add_node(shown, req(unc_expense_name(shown), "#6b7280"@, forest_depth(inc) + 2))
    } else {
        shown
    }
}

pub open spec fn diagram_links(inc: Seq<TreeView>, exp: Seq<TreeView>, unc_in: int, unc_ex: int) -> Seq<LinkView> {
    let shown = add_nodes(seq![], main_reqs(inc, exp, unc_in));
    income_forest_links(inc, inc, exp) + (if unc_in > 0 {
        seq![link("Uncategorized"@, "Budget"@, unc_in)]
    } else {
        seq![]
    }) + expense_forest_links(exp) + (if unc_ex > 0 {
        seq![link("Budget"@, unc_expense_name(shown), unc_ex)]
    } else {
        seq![]
    })
}

/// Whether a node of that name is there.
fn has_node_named(nodes: &Vec<SankeyNode>, name: &String) -> (res: bool)
    ensures
        res == has_node(nodes_v(nodes@), name@),
{
    let mut i: usize = 0;
    while i < nodes.len()
        invariant
            i <= nodes@.len(),
            forall|k: int| 0 <= k < i ==> (#[trigger] nodes@[k]).name@ != name@,
        decreases nodes@.len() - i,
    {
        if nodes[i].name == *name {
            assert(nodes_v(nodes@)[i as int].name == name@);
            return true;
        }
        i += 1;
    }
    assert(!has_node(nodes_v(nodes@), name@)) by {
        if has_node(nodes_v(nodes@), name@) {
            let k = choose|k: int| 0 <= k < nodes_v(nodes@).len() && (#[trigger] nodes_v(nodes@)[k]).name == name@;
            assert(nodes@[k].name@ == nodes_v(nodes@)[k].name);
        }
    }
    false
}

/// The flow diagram of `txns`: net income per category (outside the
/// Transfers subtree) flows through the category tree into a budget
/// node, which flows out through the expense categories; amounts in
/// cents, with the earliest and latest transaction dates. Empty when
/// there is nothing to show; `None` when a total does not fit in an
/// `i64`.
#[verifier::spinoff_prover]
#[verifier::rlimit(40)]
pub fn flow_sankey(txns: &Vec<TreeTransaction>, cats: &Vec<Category>) -> (res: Option<SankeyResponse>)
    requires
        cats@.len() < 0x4000_0000,
    ensures
        res is Some <==> sums_fit(amounts_of(txns@)) && (no_flow(cats@, txns@) || !(side_bad(cats@, txns@, true)
            || side_bad(cats@, txns@, false))),
        res matches Some(r) ==> links_within(links_v(r.links@), req_names(nodes_v(r.nodes@))),
        res matches Some(r) ==> names_unique(nodes_v(r.nodes@)),
        match res {
            Some(r) => if no_flow(cats@, txns@) {
                &&& r.nodes@.len() == 0
                &&& r.links@.len() == 0
                &&& r.from_date is None
                &&& r.to_date is None
            } else {
                let inc = side_trees(cats@, txns@, true);
                let exp = side_trees(cats@, txns@, false);
                let items = amounts_of(txns@);
                &&& nodes_v(r.nodes@) == diagram_nodes(inc, exp, unc_income(items), unc_expense(items))
                &&& links_v(r.links@) == diagram_links(inc, exp, unc_income(items), unc_expense(items))
                &&& match r.from_date {
                    Some(d) => is_earliest(dates_of(txns@), d@),
                    None => txns@.len() == 0,
                }
                &&& match r.to_date {
                    Some(d) => is_latest(dates_of(txns@), d@),
                    None => txns@.len() == 0,
                }
            },
            None => true,
        },
{
    let (items, dates) = split_transactions(txns);
    let excl = transfers_excluded_list(cats);
    let ghost ex = excluded_set(cats@);
    assert(excl@.to_set() =~= ex);
    if totals_by_category(&items).is_none() {
        return None;
    }
    let (income, expense, unc_in, unc_ex) = flow_lists(&items, cats, &excl);
    if income.len() == 0 && expense.len() == 0 && unc_in == 0 && unc_ex == 0 {
        let r = SankeyResponse { nodes: Vec::new(), links: Vec::new(), from_date: None, to_date: None };
        assert(links_v(r.links@).len() == 0);
        assert(nodes_v(r.nodes@).len() == 0);
        return Some(r);
    }
    let (from_date, to_date) = date_bounds(&dates);
    let roots = root_ids(cats, &excl);
    assert(roots@ == tree_roots(cats@));
    let inc = match build_side(&roots, cats, &excl, &income) {
        Err(_) => {
            return None;
        },
        Ok(t) => t,
    };
    let exp = match build_side(&roots, cats, &excl, &expense) {
        Err(_) => {
            return None;
        },
        Ok(t) => t,
    };
    let ghost iv = nodes_view(inc@);
    let ghost ev = nodes_view(exp@);
    assert(iv == side_trees(cats@, txns@, true));
    assert(ev == side_trees(cats@, txns@, false));
    let maxd = forest_max_depth(&inc, Ghost(cats@.len() as int));
    proof {
        lemma_nodes_view(inc@);
        lemma_nodes_view(exp@);
        lemma_forest_depth_each(iv);
        if iv.len() > 0 {
            lemma_forest_depth_bound(iv, cats@.len() as int);
        }
    }
    let mut nodes: Vec<SankeyNode> = Vec::new();
    let mut links: Vec<SankeyLink> = Vec::new();
    assert(nodes_v(nodes@) =~= Seq::<NodeView>::empty());
    assert(links_v(links@) =~= Seq::<LinkView>::empty());
    assert forall|i: int| 0 <= i < inc@.len() implies tree_depth(#[trigger] nodes_view(inc@)[i]) <= maxd by {
        assert(tree_depth(iv[i]) <= forest_depth(iv));
    }
    emit_income_forest(&inc, maxd, &mut nodes, &mut links, &exp);
    let ghost r1 = income_forest_reqs(iv, maxd as int, iv, ev);
    let ghost u1: Seq<NodeView> = if unc_in > 0 {
        seq![req("Uncategorized"@, "#6b7280"@, maxd as int)]
    } else {
        seq![]
    };
    let ghost l1: Seq<LinkView> = if unc_in > 0 {
        seq![link("Uncategorized"@, "Budget"@, unc_in as int)]
    } else {
        seq![]
    };
    let gray = String::from_str("#6b7280");
    if unc_in > 0 {
        let ghost before = links@;
        ensure_node(&mut nodes, String::from_str("Uncategorized"), &gray, maxd);
        links.push(SankeyLink {
            source: String::from_str("Uncategorized"),
            target: String::from_str("Budget"),
            value_cents: unc_in,
        });
        assert(links_v(links@) =~= links_v(before).push(link("Uncategorized"@, "Budget"@, unc_in as int)));
        proof {
            lemma_add_nodes_concat(seq![], r1, u1);
            assert(u1.drop_last() =~= Seq::<NodeView>::empty());
            assert(add_nodes(add_nodes(seq![], r1), u1.drop_last()) == add_nodes(seq![], r1));
            assert(u1.last() == req("Uncategorized"@, "#6b7280"@, maxd as int));
        }
    } else {
        assert(r1 + u1 =~= r1);
    }
    assert(nodes_v(nodes@) == add_nodes(seq![], r1 + u1));
    assert(links_v(links@) =~= income_forest_links(iv, iv, ev) + l1);
    let ghost b1 = seq![req("Budget"@, "#3b82f6"@, maxd + 1)];
    ensure_node(&mut nodes, String::from_str("Budget"), &String::from_str("#3b82f6"), maxd + 1);
    proof {
        lemma_add_nodes_concat(seq![], r1 + u1, b1);
        assert(b1.drop_last() =~= Seq::<NodeView>::empty());
        assert(add_nodes(add_nodes(seq![], r1 + u1), b1.drop_last()) == add_nodes(seq![], r1 + u1));
    }
    proof {
        assert forall|i: int| 0 <= i < exp@.len() implies maxd + 2 + tree_depth(#[trigger] ev[i]) <= u32::MAX by {
            assert(tree_depth(ev[i]) < cats@.len());
        }
    }
    let ghost before_exp = links_v(links@);
    emit_expense_forest(&exp, maxd + 2, &mut nodes, &mut links);
    let ghost m = r1 + u1 + b1 + expense_forest_reqs(ev, maxd + 2);
    proof {
        lemma_add_nodes_concat(seq![], r1 + u1 + b1, expense_forest_reqs(ev, maxd + 2));
        assert(m =~= main_reqs(iv, ev, unc_in as int));
    }
    assert(nodes_v(nodes@) == add_nodes(seq![], main_reqs(iv, ev, unc_in as int)));
    if unc_ex > 0 {
        let un = String::from_str("Uncategorized");
        let name = if has_node_named(&nodes, &un) {
            String::from_str("Uncategorized Expenses")
        } else {
            un
        };
        ensure_node(&mut nodes, name.clone(), &gray, maxd + 2);
        let ghost before = links@;
        links.push(SankeyLink { source: String::from_str("Budget"), target: name, value_cents: unc_ex });
        assert(links_v(links@) =~= links_v(before).push(
            link("Budget"@, unc_expense_name(add_nodes(seq![], main_reqs(iv, ev, unc_in as int))), unc_ex as int),
        ));
    }
    assert(links_v(links@) =~= diagram_links(iv, ev, unc_in as int, unc_ex as int));
    assert(texts_view(dates@) == dates_of(txns@));
    assert(texts_view(dates@).len() == dates@.len());
    assert(dates_of(txns@).len() == txns@.len());
    proof {
        lemma_links_join_nodes(iv, ev, unc_in as int, unc_ex as int);
        let shown = add_nodes(seq![], main_reqs(iv, ev, unc_in as int));
        lemma_add_nodes_unique(seq![], main_reqs(iv, ev, unc_in as int));
        if unc_ex > 0 {
            let last = req(unc_expense_name(shown), "#6b7280"@, forest_depth(iv) + 2);
            lemma_add_nodes_unique(shown, seq![last]);
            assert(seq![last].drop_last() =~= Seq::<NodeView>::empty());
            assert(add_nodes(shown, seq![last].drop_last()) == shown);
        }
    }
    Some(SankeyResponse { nodes, links, from_date, to_date })
}

// ---------------------------------------------------------------------------
// Every link joins two nodes of the diagram
// ---------------------------------------------------------------------------

/// The names of the nodes asked for.
pub open spec fn req_names(rs: Seq<NodeView>) -> Set<Seq<char>> {
    Set::new(|n: Seq<char>| has_node(rs, n))
}

/// Both ends of every link are among `names`.
pub open spec fn links_within(ls: Seq<LinkView>, names: Set<Seq<char>>) -> bool {
    forall|i: int| 0 <= i < ls.len() ==> names.contains((#[trigger] ls[i]).source) && names.contains(ls[i].target)
}

proof fn lemma_req_names_concat(a: Seq<NodeView>, b: Seq<NodeView>)
    ensures
        req_names(a + b) == req_names(a).union(req_names(b)),
{
    assert forall|n: Seq<char>| has_node(a + b, n) <==> has_node(a, n) || has_node(b, n) by {
        if has_node(a + b, n) {
            let i = choose|i: int| 0 <= i < (a + b).len() && (#[trigger] (a + b)[i]).name == n;
            if i < a.len() {
                assert(a[i] == (a + b)[i]);
            } else {
                assert(b[i - a.len()] == (a + b)[i]);
            }
        }
        if has_node(a, n) {
            let i = choose|i: int| 0 <= i < a.len() && (#[trigger] a[i]).name == n;
            assert((a + b)[i] == a[i]);
        }
        if has_node(b, n) {
            let i = choose|i: int| 0 <= i < b.len() && (#[trigger] b[i]).name == n;
            assert((a + b)[a.len() + i] == b[i]);
        }
    }
    assert(req_names(a + b) =~= req_names(a).union(req_names(b)));
}

proof fn lemma_req_names_single(r: NodeView)
    ensures
        req_names(seq![r]) == set![r.name],
{
    assert forall|n: Seq<char>| has_node(seq![r], n) <==> n == r.name by {
        if n == r.name {
            assert(seq![r][0] == r);
        }
    }
    assert(req_names(seq![r]) =~= set![r.name]);
}

proof fn lemma_links_concat(a: Seq<LinkView>, b: Seq<LinkView>, names: Set<Seq<char>>)
    requires
        links_within(a, names),
        links_within(b, names),
    ensures
        links_within(a + b, names),
{
    assert forall|i: int| 0 <= i < (a + b).len() implies names.contains((#[trigger] (a + b)[i]).source) && names.contains(
        (a + b)[i].target,
    ) by {
        if i < a.len() {
            assert((a + b)[i] == a[i]);
        } else {
            assert((a + b)[i] == b[i - a.len()]);
        }
    }
}

proof fn lemma_links_widen(ls: Seq<LinkView>, s: Set<Seq<char>>, t: Set<Seq<char>>)
    requires
        links_within(ls, s),
        s.subset_of(t),
    ensures
        links_within(ls, t),
{
    assert forall|i: int| 0 <= i < ls.len() implies t.contains((#[trigger] ls[i]).source) && t.contains(ls[i].target) by {
        assert(s.contains(ls[i].source));
        assert(s.contains(ls[i].target));
    }
}

proof fn lemma_one_link(l: LinkView, names: Set<Seq<char>>)
    requires
        names.contains(l.source),
        names.contains(l.target),
    ensures
        links_within(seq![l], names),
{
    assert forall|i: int| 0 <= i < seq![l].len() implies names.contains((#[trigger] seq![l][i]).source) && names.contains(
        seq![l][i].target,
    ) by {
        assert(seq![l][i] == l);
    }
}

proof fn lemma_income_joined(v: TreeView, d: int, maxd: int, inc: Seq<TreeView>, exp: Seq<TreeView>)
    ensures
        links_within(income_links(v, inc, exp), req_names(income_reqs(v, d, maxd, inc, exp))),
        req_names(income_reqs(v, d, maxd, inc, exp)).contains(in_name(v.name, inc, exp)),
    decreases v, 1int,
{
    let me = in_name(v.name, inc, exp);
    let first = seq![req(me, v.color, maxd - d)];
    let kr = income_kids_reqs(v.children, d + 1, maxd, inc, exp);
    let tail: Seq<NodeView> = if shows_other(v) {
        seq![req(in_name(other_name(v.name), inc, exp), v.color, maxd - (d + 1))]
    } else {
        seq![]
    };
    let all = income_reqs(v, d, maxd, inc, exp);
    assert(all == first + kr + tail);
    lemma_req_names_concat(first + kr, tail);
    lemma_req_names_concat(first, kr);
    lemma_req_names_single(first[0]);
    assert(first =~= seq![first[0]]);
    let names = req_names(all);
    assert(names.contains(me));
    lemma_income_kids_joined(v.children, d + 1, maxd, me, inc, exp);
    let kl = income_kids_links(v.children, me, inc, exp);
    lemma_links_widen(kl, req_names(kr).insert(me), names);
    let ol: Seq<LinkView> = if shows_other(v) {
        seq![link(in_name(other_name(v.name), inc, exp), me, own(v))]
    } else {
        seq![]
    };
    if shows_other(v) {
        lemma_req_names_single(tail[0]);
        assert(tail =~= seq![tail[0]]);
        lemma_one_link(ol[0], names);
        assert(ol =~= seq![ol[0]]);
    }
    lemma_links_concat(kl, ol, names);
    assert(income_links(v, inc, exp) == kl + ol);
}

proof fn lemma_income_kids_joined(
    s: Seq<TreeView>,
    d: int,
    maxd: int,
    parent: Seq<char>,
    inc: Seq<TreeView>,
    exp: Seq<TreeView>,
)
    ensures
        links_within(income_kids_links(s, parent, inc, exp), req_names(income_kids_reqs(s, d, maxd, inc, exp)).insert(parent)),
    decreases s, 0int,
{
    if s.len() > 0 {
        let p = s.subrange(0, s.len() - 1);
        let c = s[s.len() - 1];
        lemma_income_kids_joined(p, d, maxd, parent, inc, exp);
        lemma_income_joined(c, d, maxd, inc, exp);
        let pr = income_kids_reqs(p, d, maxd, inc, exp);
        let cr = income_reqs(c, d, maxd, inc, exp);
        lemma_req_names_concat(pr, cr);
        let names = req_names(income_kids_reqs(s, d, maxd, inc, exp)).insert(parent);
        assert(req_names(pr).insert(parent).subset_of(names));
        assert(req_names(cr).subset_of(names));
        let pl = income_kids_links(p, parent, inc, exp);
        let cl = income_links(c, inc, exp);
        let up = seq![link(in_name(c.name, inc, exp), parent, tree_total(c))];
        lemma_links_widen(pl, req_names(pr).insert(parent), names);
        lemma_links_widen(cl, req_names(cr), names);
        lemma_one_link(up[0], names);
        assert(up =~= seq![up[0]]);
        lemma_links_concat(pl, cl, names);
        lemma_links_concat(pl + cl, up, names);
    } else {
        assert(income_kids_links(s, parent, inc, exp).len() == 0);
    }
}

proof fn lemma_expense_joined(v: TreeView, d: int, base: int)
    ensures
        links_within(expense_links(v), req_names(expense_reqs(v, d, base))),
        req_names(expense_reqs(v, d, base)).contains(v.name),
    decreases v, 1int,
{
    let first = seq![req(v.name, v.color, base + d)];
    let kr = expense_kids_reqs(v.children, d + 1, base);
    let tail: Seq<NodeView> = if shows_other(v) {
        seq![req(other_name(v.name), v.color, base + d + 1)]
    } else {
        seq![]
    };
    let all = expense_reqs(v, d, base);
    assert(all == first + kr + tail);
    lemma_req_names_concat(first + kr, tail);
    lemma_req_names_concat(first, kr);
    lemma_req_names_single(first[0]);
    assert(first =~= seq![first[0]]);
    let names = req_names(all);
    lemma_expense_kids_joined(v.children, d + 1, base, v.name);
    let kl = expense_kids_links(v.children, v.name);
    lemma_links_widen(kl, req_names(kr).insert(v.name), names);
    let ol: Seq<LinkView> = if shows_other(v) {
        seq![link(v.name, other_name(v.name), own(v))]
    } else {
        seq![]
    };
    if shows_other(v) {
        lemma_req_names_single(tail[0]);
        assert(tail =~= seq![tail[0]]);
        lemma_one_link(ol[0], names);
        assert(ol =~= seq![ol[0]]);
    }
    lemma_links_concat(kl, ol, names);
    assert(expense_links(v) == kl + ol);
}

proof fn lemma_expense_kids_joined(s: Seq<TreeView>, d: int, base: int, parent: Seq<char>)
    ensures
        links_within(expense_kids_links(s, parent), req_names(expense_kids_reqs(s, d, base)).insert(parent)),
    decreases s, 0int,
{
    if s.len() > 0 {
        let p = s.subrange(0, s.len() - 1);
        let c = s[s.len() - 1];
        lemma_expense_kids_joined(p, d, base, parent);
        lemma_expense_joined(c, d, base);
        let pr = expense_kids_reqs(p, d, base);
        let cr = expense_reqs(c, d, base);
        lemma_req_names_concat(pr, cr);
        let names = req_names(expense_kids_reqs(s, d, base)).insert(parent);
        assert(req_names(pr).insert(parent).subset_of(names));
        assert(req_names(cr).subset_of(names));
        let pl = expense_kids_links(p, parent);
        let cl = expense_links(c);
        let down = seq![link(parent, c.name, tree_total(c))];
        lemma_links_widen(pl, req_names(pr).insert(parent), names);
        lemma_links_widen(cl, req_names(cr), names);
        lemma_one_link(down[0], names);
        assert(down =~= seq![down[0]]);
        lemma_links_concat(pl, cl, names);
        lemma_links_concat(pl + cl, down, names);
    } else {
        assert(expense_kids_links(s, parent).len() == 0);
    }
}

proof fn lemma_income_forest_joined(s: Seq<TreeView>, maxd: int, inc: Seq<TreeView>, exp: Seq<TreeView>)
    ensures
        links_within(
            income_forest_links(s, inc, exp),
            req_names(income_forest_reqs(s, maxd, inc, exp)).insert("Budget"@),
        ),
    decreases s.len(),
{
    if s.len() > 0 {
        let p = s.drop_last();
        let t = s.last();
        lemma_income_forest_joined(p, maxd, inc, exp);
        lemma_income_joined(t, 0, maxd, inc, exp);
        let pr = income_forest_reqs(p, maxd, inc, exp);
        let tr = income_reqs(t, 0, maxd, inc, exp);
        lemma_req_names_concat(pr, tr);
        let names = req_names(income_forest_reqs(s, maxd, inc, exp)).insert("Budget"@);
        let pl = income_forest_links(p, inc, exp);
        let tl = income_links(t, inc, exp);
        let up = seq![link(in_name(t.name, inc, exp), "Budget"@, tree_total(t))];
        lemma_links_widen(pl, req_names(pr).insert("Budget"@), names);
        lemma_links_widen(tl, req_names(tr), names);
        lemma_one_link(up[0], names);
        assert(up =~= seq![up[0]]);
        lemma_links_concat(pl, tl, names);
        lemma_links_concat(pl + tl, up, names);
    } else {
        assert(income_forest_links(s, inc, exp).len() == 0);
    }
}

proof fn lemma_expense_forest_joined(s: Seq<TreeView>, base: int)
    ensures
        links_within(expense_forest_links(s), req_names(expense_forest_reqs(s, base)).insert("Budget"@)),
    decreases s.len(),
{
    if s.len() > 0 {
        let p = s.drop_last();
        let t = s.last();
        lemma_expense_forest_joined(p, base);
        lemma_expense_joined(t, 0, base);
        let pr = expense_forest_reqs(p, base);
        let tr = expense_reqs(t, 0, base);
        lemma_req_names_concat(pr, tr);
        let names = req_names(expense_forest_reqs(s, base)).insert("Budget"@);
        let pl = expense_forest_links(p);
        let tl = expense_links(t);
        let down = seq![link("Budget"@, t.name, tree_total(t))];
        lemma_links_widen(pl, req_names(pr).insert("Budget"@), names);
        lemma_links_widen(tl, req_names(tr), names);
        lemma_one_link(down[0], names);
        assert(down =~= seq![down[0]]);
        lemma_links_concat(pl, down, names);
        lemma_links_concat(pl + down, tl, names);
    } else {
        assert(expense_forest_links(s).len() == 0);
    }
}

proof fn lemma_add_node_names(ns: Seq<NodeView>, r: NodeView)
    ensures
        req_names(add_node(ns, r)) == req_names(ns).insert(r.name),
{
    if has_node(ns, r.name) {
        assert(req_names(ns).contains(r.name));
        assert(req_names(ns).insert(r.name) =~= req_names(ns));
    } else {
        lemma_req_names_concat(ns, seq![r]);
        lemma_req_names_single(r);
        assert(ns.push(r) =~= ns + seq![r]);
        assert(req_names(ns).union(set![r.name]) =~= req_names(ns).insert(r.name));
    }
}

proof fn lemma_add_nodes_names(ns: Seq<NodeView>, rs: Seq<NodeView>)
    ensures
        req_names(add_nodes(ns, rs)) == req_names(ns).union(req_names(rs)),
    decreases rs.len(),
{
    if rs.len() == 0 {
        assert(req_names(rs) =~= Set::<Seq<char>>::empty());
        assert(req_names(ns).union(req_names(rs)) =~= req_names(ns));
    } else {
        let p = rs.drop_last();
        lemma_add_nodes_names(ns, p);
        lemma_add_node_names(add_nodes(ns, p), rs.last());
        lemma_req_names_concat(p, seq![rs.last()]);
        lemma_req_names_single(rs.last());
        assert(p + seq![rs.last()] =~= rs);
        assert(req_names(ns).union(req_names(p)).insert(rs.last().name) =~= req_names(ns).union(req_names(rs)));
    }
}

/// Every link of the diagram starts and ends at one of its nodes.
pub proof fn lemma_links_join_nodes(inc: Seq<TreeView>, exp: Seq<TreeView>, unc_in: int, unc_ex: int)
    ensures
        links_within(diagram_links(inc, exp, unc_in, unc_ex), req_names(diagram_nodes(inc, exp, unc_in, unc_ex))),
{
    let maxd = forest_depth(inc);
    let r1 = income_forest_reqs(inc, maxd, inc, exp);
    let u1: Seq<NodeView> = if unc_in > 0 {
        seq![req("Uncategorized"@, "#6b7280"@, maxd)]
    } else {
        seq![]
    };
    let b1 = seq![req("Budget"@, "#3b82f6"@, maxd + 1)];
    let r2 = expense_forest_reqs(exp, maxd + 2);
    let m = main_reqs(inc, exp, unc_in);
    assert(m == r1 + u1 + b1 + r2);
    lemma_req_names_concat(r1 + u1 + b1, r2);
    lemma_req_names_concat(r1 + u1, b1);
    lemma_req_names_concat(r1, u1);
    lemma_req_names_single(b1[0]);
    assert(b1 =~= seq![b1[0]]);
    let shown = add_nodes(seq![], m);
    lemma_add_nodes_names(seq![], m);
    assert(req_names(Seq::<NodeView>::empty()) =~= Set::<Seq<char>>::empty());
    assert(req_names(shown) =~= req_names(m));
    let uname = unc_expense_name(shown);
    let dn = diagram_nodes(inc, exp, unc_in, unc_ex);
    let names = req_names(dn);
    if unc_ex > 0 {
        lemma_add_node_names(shown, req(uname, "#6b7280"@, maxd + 2));
    }
    assert(req_names(m).subset_of(names));
    assert(names.contains("Budget"@));
    lemma_income_forest_joined(inc, maxd, inc, exp);
    lemma_expense_forest_joined(exp, maxd + 2);
    let l1 = income_forest_links(inc, inc, exp);
    let l2 = expense_forest_links(exp);
    lemma_links_widen(l1, req_names(r1).insert("Budget"@), names);
    lemma_links_widen(l2, req_names(r2).insert("Budget"@), names);
    let lu1: Seq<LinkView> = if unc_in > 0 {
        seq![link("Uncategorized"@, "Budget"@, unc_in)]
    } else {
        seq![]
    };
    let lu2: Seq<LinkView> = if unc_ex > 0 {
        seq![link("Budget"@, uname, unc_ex)]
    } else {
        seq![]
    };
    if unc_in > 0 {
        lemma_req_names_single(u1[0]);
        assert(u1 =~= seq![u1[0]]);
        lemma_one_link(lu1[0], names);
        assert(lu1 =~= seq![lu1[0]]);
    }
    if unc_ex > 0 {
        lemma_one_link(lu2[0], names);
        assert(lu2 =~= seq![lu2[0]]);
    }
    lemma_links_concat(l1, lu1, names);
    lemma_links_concat(l1 + lu1, l2, names);
    lemma_links_concat(l1 + lu1 + l2, lu2, names);
    assert(diagram_links(inc, exp, unc_in, unc_ex) == l1 + lu1 + l2 + lu2);
}

/// No two nodes share a name.
pub open spec fn names_unique(ns: Seq<NodeView>) -> bool {
    forall|i: int, j: int| 0 <= i < j < ns.len() ==> (#[trigger] ns[i]).name != (#[trigger] ns[j]).name
}

/// Adding nodes by name never shows a name twice.
pub proof fn lemma_add_nodes_unique(ns: Seq<NodeView>, rs: Seq<NodeView>)
    requires
        names_unique(ns),
    ensures
        names_unique(add_nodes(ns, rs)),
    decreases rs.len(),
{
    if rs.len() > 0 {
        lemma_add_nodes_unique(ns, rs.drop_last());
        let b = add_nodes(ns, rs.drop_last());
        let r = rs.last();
        if !has_node(b, r.name) {
            let c = b.push(r);
            assert forall|i: int, j: int| 0 <= i < j < c.len() implies (#[trigger] c[i]).name != (#[trigger] c[j]).name by {
                if j == b.len() {
                    assert(c[i] == b[i]);
                    assert(c[j] == r);
                } else {
                    assert(c[i] == b[i] && c[j] == b[j]);
                }
            }
        }
    }
}

} // verus!

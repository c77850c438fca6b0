//! Net worth: how the money is spread over the accounts, for the
//! sunburst chart, and the series of the net-worth chart.

use vstd::prelude::*;

verus! {

/// The colors given to accounts in turn.
pub open spec fn palette_text(i: int) -> Seq<char> {
    if i == 0 {
        "#3b82f6"@
    } else if i == 1 {
        "#22c55e"@
    } else if i == 2 {
        "#f59e0b"@
    } else if i == 3 {
        "#ef4444"@
    } else if i == 4 {
        "#8b5cf6"@
    } else if i == 5 {
        "#06b6d4"@
    } else if i == 6 {
        "#f97316"@
    } else if i == 7 {
        "#ec4899"@
    } else if i == 8 {
        "#14b8a6"@
    } else {
        "#6366f1"@
    }
}

/// The color of the `i`-th account: the palette, repeated.
pub fn palette_color(i: usize) -> (res: &'static str)
    ensures
        res@ == palette_text((i % 10) as int),
{
    let k = i % 10;
    if k == 0 {
        "#3b82f6"
    } else if k == 1 {
        "#22c55e"
    } else if k == 2 {
        "#f59e0b"
    } else if k == 3 {
        "#ef4444"
    } else if k == 4 {
        "#8b5cf6"
    } else if k == 5 {
        "#06b6d4"
    } else if k == 6 {
        "#f97316"
    } else if k == 7 {
        "#ec4899"
    } else if k == 8 {
        "#14b8a6"
    } else {
        "#6366f1"
    }
}

/// A node of the allocation chart: an account with its positions, or a
/// leaf with an amount.
#[derive(Debug)]
pub struct AllocationNode {
    pub name: String,
    pub color: String,
    pub amount_cents: Option<i64>,
    pub children: Vec<AllocationNode>,
}

/// What an account holds: a cash balance, or the value of each position
/// (by symbol).
#[derive(Debug, Clone)]
pub enum Holdings {
    Cash(i64),
    Securities(Vec<(String, i64)>),
}

#[derive(Debug, Clone)]
pub struct AccountHoldings {
    pub name: String,
    pub holdings: Holdings,
}

/// A chart node as data.
pub struct AllocView {
    pub name: Seq<char>,
    pub color: Seq<char>,
    pub amount: Option<i64>,
    pub children: Seq<AllocView>,
}

pub open spec fn alloc_view(n: AllocationNode) -> AllocView
    decreases n, 1int,
{
    AllocView { name: n.name@, color: n.color@, amount: n.amount_cents, children: allocs_view(n.children@) }
}

pub open spec fn allocs_view(s: Seq<AllocationNode>) -> Seq<AllocView>
    decreases s, 0int,
{
    if s.len() == 0 {
        seq![]
    } else {
        allocs_view(s.subrange(0, s.len() - 1)).push(alloc_view(s[s.len() - 1]))
    }
}

pub open spec fn alloc_leaf(name: Seq<char>, color: Seq<char>, amount: i64) -> AllocView {
    AllocView { name, color, amount: Some(amount), children: seq![] }
}

/// The positions worth more than zero, as leaves.
pub open spec fn position_leaves(ps: Seq<(String, i64)>, color: Seq<char>) -> Seq<AllocView>
    decreases ps.len(),
{
    if ps.len() == 0 {
        seq![]
    } else {
        let r = position_leaves(ps.drop_last(), color);
        if ps.last().1 > 0 {
            r.push(alloc_leaf(ps.last().0@, color, ps.last().1))
        } else {
            r
        }
    }
}

/// The node of the `i`-th account: a cash account with a positive balance
/// is a leaf; a securities account with positions of positive value holds
/// them; other accounts are left out.
pub open spec fn account_node(a: AccountHoldings, i: int) -> Option<AllocView> {
    let color = palette_text(i % 10);
    match a.holdings {
        Holdings::Cash(b) => if b > 0 {
            Some(alloc_leaf(a.name@, color, b))
        } else {
            None
        },
        Holdings::Securities(ps) => {
            let kids = position_leaves(ps@, color);
            if kids.len() > 0 {
                Some(AllocView { name: a.name@, color, amount: None, children: kids })
            } else {
                None
            }
        },
    }
}

pub open spec fn allocation(accts: Seq<AccountHoldings>) -> Seq<AllocView>
    decreases accts.len(),
{
    if accts.len() == 0 {
        seq![]
    } else {
        let r = allocation(accts.drop_last());
        match account_node(accts.last(), accts.len() - 1) {
            Some(v) => r.push(v),
            None => r,
        }
    }
}

proof fn lemma_allocs_view_push(s: Seq<AllocationNode>, x: AllocationNode)
    ensures
        allocs_view(s.push(x)) == allocs_view(s).push(alloc_view(x)),
{
    assert(s.push(x).subrange(0, s.len() as int) =~= s);
}

fn leaves(ps: &Vec<(String, i64)>, color: &str) -> (res: Vec<AllocationNode>)
    ensures
        allocs_view(res@) == position_leaves(ps@, color@),
{
    let mut out: Vec<AllocationNode> = Vec::new();
    let mut i: usize = 0;
    assert(allocs_view(out@) =~= Seq::<AllocView>::empty());
    while i < ps.len()
        invariant
            i <= ps@.len(),
            allocs_view(out@) == position_leaves(ps@.take(i as int), color@),
        decreases ps@.len() - i,
    {
        assert(ps@.take(i + 1).drop_last() =~= ps@.take(i as int));
        assert(ps@.take(i + 1).last() == ps@[i as int]);
        if ps[i].1 > 0 {
            let leaf = AllocationNode {
                name: ps[i].0.clone(),
                color: color.to_string(),
                amount_cents: Some(ps[i].1),
                children: Vec::new(),
            };
            proof {
                lemma_allocs_view_push(out@, leaf);
                assert(allocs_view(leaf.children@) =~= Seq::<AllocView>::empty());
            }
            out.push(leaf);
        }
        i += 1;
    }
    assert(ps@.take(ps@.len() as int) =~= ps@);
    out
}

/// The allocation chart of the accounts (see `allocation`); each account
/// takes the next palette color, shown or not.
pub fn account_allocation(accounts: &Vec<AccountHoldings>) -> (res: Vec<AllocationNode>)
    ensures
        allocs_view(res@) == allocation(accounts@),
{
    let mut nodes: Vec<AllocationNode> = Vec::new();
    let mut i: usize = 0;
    assert(allocs_view(nodes@) =~= Seq::<AllocView>::empty());
    while i < accounts.len()
        invariant
            i <= accounts@.len(),
            allocs_view(nodes@) == allocation(accounts@.take(i as int)),
        decreases accounts@.len() - i,
    {
        assert(accounts@.take(i + 1).drop_last() =~= accounts@.take(i as int));
        assert(accounts@.take(i + 1).last() == accounts@[i as int]);
        let color = palette_color(i);
        let a = &accounts[i];
        match &a.holdings {
            Holdings::Cash(b) => {
                if *b > 0 {
                    let leaf = AllocationNode {
                        name: a.name.clone(),
                        color: color.to_string(),
                        amount_cents: Some(*b),
                        children: Vec::new(),
                    };
                    proof {
                        lemma_allocs_view_push(nodes@, leaf);
                        assert(allocs_view(leaf.children@) =~= Seq::<AllocView>::empty());
                    }
                    nodes.push(leaf);
                }
            },
            Holdings::Securities(ps) => {
                let kids = leaves(ps, color);
                if kids.len() > 0 {
                    let node = AllocationNode { name: a.name.clone(), color: color.to_string(), amount_cents: None, children: kids };
                    proof {
                        lemma_allocs_view_push(nodes@, node);
                    }
                    nodes.push(node);
                }
            },
        }
        i += 1;
    }
    assert(accounts@.take(accounts@.len() as int) =~= accounts@);
    nodes
}


// ---------------------------------------------------------------------------
// The net-worth chart
// ---------------------------------------------------------------------------

/// One day of the net-worth history.
#[derive(Debug, Clone)]
pub struct NetWorthDataPoint {
    pub date: String,
    pub net_worth_cents: i64,
    pub transaction_component_cents: i64,
    pub portfolio_component_cents: i64,
}

/// The series of the net-worth chart.
#[derive(Debug, Clone)]
pub struct NetWorthChartResponse {
    pub labels: Vec<String>,
    pub net_worth: Vec<i64>,
    pub transaction_component: Vec<i64>,
    pub portfolio_component: Vec<i64>,
}

/// The largest integer a JavaScript number holds exactly, 2^53 - 1.
pub const MAX_SAFE_INTEGER: i64 = 9_007_199_254_740_991;

/// `v` limited to -MAX_SAFE_INTEGER..=MAX_SAFE_INTEGER.
pub open spec fn clamp_safe(v: i64) -> int {
    if v < -MAX_SAFE_INTEGER {
        -MAX_SAFE_INTEGER
    } else if v > MAX_SAFE_INTEGER {
        MAX_SAFE_INTEGER as int
    } else {
        v as int
    }
}

fn clamp_safe_exec(v: i64) -> (res: i64)
    ensures
        res == clamp_safe(v),
{
    if v < -MAX_SAFE_INTEGER {
        -MAX_SAFE_INTEGER
    } else if v > MAX_SAFE_INTEGER {
        MAX_SAFE_INTEGER
    } else {
        v
    }
}

impl NetWorthChartResponse {
    /// The chart series of the points to display (already thinned to the
    /// chart's size), in order: their dates as labels, and each amount
    /// limited to the range a JavaScript number holds exactly.
    pub fn from_display_points(points: &Vec<NetWorthDataPoint>) -> (res: NetWorthChartResponse)
        ensures
            res.labels@.len() == points@.len(),
            res.net_worth@.len() == points@.len(),
            res.transaction_component@.len() == points@.len(),
            res.portfolio_component@.len() == points@.len(),
            forall|i: int|
                0 <= i < points@.len() ==> {
                    &&& (#[trigger] res.labels@[i])@ == points@[i].date@
                    &&& res.net_worth@[i] == clamp_safe(points@[i].net_worth_cents)
                    &&& res.transaction_component@[i] == clamp_safe(points@[i].transaction_component_cents)
                    &&& res.portfolio_component@[i] == clamp_safe(points@[i].portfolio_component_cents)
                },
    {
        let mut labels: Vec<String> = Vec::new();
        let mut net_worth: Vec<i64> = Vec::new();
        let mut transaction_component: Vec<i64> = Vec::new();
        let mut portfolio_component: Vec<i64> = Vec::new();
        let mut i: usize = 0;
        while i < points.len()
            invariant
                i <= points@.len(),
                labels@.len() == i,
                net_worth@.len() == i,
                transaction_component@.len() == i,
                portfolio_component@.len() == i,
                forall|j: int|
                    0 <= j < i ==> {
                        &&& (#[trigger] labels@[j])@ == points@[j].date@
                        &&& net_worth@[j] == clamp_safe(points@[j].net_worth_cents)
                        &&& transaction_component@[j] == clamp_safe(points@[j].transaction_component_cents)
                        &&& portfolio_component@[j] == clamp_safe(points@[j].portfolio_component_cents)
                    },
            decreases points@.len() - i,
        {
            let p = &points[i];
            labels.push(p.date.clone());
            net_worth.push(clamp_safe_exec(p.net_worth_cents));
            transaction_component.push(clamp_safe_exec(p.transaction_component_cents));
            portfolio_component.push(clamp_safe_exec(p.portfolio_component_cents));
            i += 1;
        }
        NetWorthChartResponse { labels, net_worth, transaction_component, portfolio_component }
    }
}

} // verus!

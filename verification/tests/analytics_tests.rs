use solvency::analytics::{all_months_in_range, collect_subtree_ids, daily_totals, monthly_summaries, transfers_excluded_ids};
use solvency::category_months::{monthly_by_category, parse_category_ids, MonthlyByCategoryParams};
use solvency::category_tree::{date_bounds, spending_by_category_tree, totals_by_category, tree_node_total, CategoryTreeNode, TreeTransaction};
use solvency::models::Category;
use solvency::sankey::flow_sankey;

fn cat(id: i64, name: &str, parent_id: Option<i64>, color: &str, built_in: bool) -> Category {
    Category {
        id,
        name: name.to_string(),
        parent_id,
        color: color.to_string(),
        icon: String::new(),
        built_in,
    }
}

fn categories() -> Vec<Category> {
    vec![
        cat(1, "Food", None, "#f00", false),
        cat(2, "Groceries", Some(1), "#f11", false),
        cat(3, "Restaurants", Some(1), "#f22", false),
        cat(4, "Rent", None, "#0f0", false),
        cat(5, "Transfers", None, "#00f", true),
        cat(6, "Savings", Some(5), "#00e", false),
        cat(7, "Salary", None, "#ff0", false),
    ]
}

fn txn(date: &str, category_id: Option<i64>, amount_cents: i64) -> TreeTransaction {
    TreeTransaction { date: date.to_string(), category_id, amount_cents }
}

fn transactions() -> Vec<TreeTransaction> {
    vec![
        txn("2024-01-05", Some(2), -5000),
        txn("2024-01-20", Some(3), -2000),
        txn("2024-02-03", Some(1), -1000),
        txn("2024-02-01", Some(4), -80000),
        txn("2024-02-11", Some(5), -10000),
        txn("2024-03-01", Some(6), -300),
        txn("2024-01-31", Some(7), 300000),
        txn("2024-03-15", None, -700),
        txn("2024-01-02", None, 200),
    ]
}

fn names(nodes: &[CategoryTreeNode]) -> Vec<String> {
    nodes.iter().map(|n| n.name.clone()).collect()
}

#[test]
fn subtree_and_transfers_exclusion() {
    let cats = categories();
    let food = collect_subtree_ids(1, &cats);
    assert_eq!(food, std::collections::HashSet::from([1, 2, 3]));
    let excluded = transfers_excluded_ids(&cats);
    assert_eq!(excluded, std::collections::HashSet::from([5, 6]));
    let no_transfers = vec![cat(1, "Food", None, "#f00", false)];
    assert!(transfers_excluded_ids(&no_transfers).is_empty());
}

#[test]
fn months_between_dates() {
    assert_eq!(
        all_months_in_range("2024-11-15", "2025-02-01"),
        vec!["2024-11", "2024-12", "2025-01", "2025-02"]
    );
    assert_eq!(all_months_in_range("2024-03-01", "2024-03-31"), vec!["2024-03"]);
    assert!(all_months_in_range("2024-05-01", "2024-03-01").is_empty());
    assert!(all_months_in_range("garbage", "2024-03-01").is_empty());
}

#[test]
fn daily_and_monthly_totals() {
    let day = vec![
        ("2024-01-02".to_string(), -100),
        ("2024-01-01".to_string(), 50),
        ("2024-01-02".to_string(), -20),
    ];
    let points = daily_totals(&day);
    assert_eq!(points.len(), 2);
    assert_eq!(points[0].date, "2024-01-01");
    assert_eq!(points[0].amount_cents, 50);
    assert_eq!(points[1].date, "2024-01-02");
    assert_eq!(points[1].amount_cents, -120);

    let seeds = vec!["2024-01".to_string(), "2024-02".to_string()];
    let txns = vec![
        ("2024-01-10".to_string(), -300),
        ("2024-01-20".to_string(), -101),
        ("2024-03-01".to_string(), 50),
        ("bad".to_string(), 7),
    ];
    let months = monthly_summaries(&seeds, &txns);
    assert_eq!(months.len(), 3);
    assert_eq!(months[0].month, "2024-01");
    assert_eq!(months[0].total_cents, -401);
    assert_eq!(months[0].transaction_count, 2);
    assert_eq!(months[0].average_cents, -200);
    assert_eq!(months[1].month, "2024-02");
    assert_eq!(months[1].total_cents, 0);
    assert_eq!(months[1].transaction_count, 0);
    assert_eq!(months[1].average_cents, 0);
    assert_eq!(months[2].month, "2024-03");
    assert_eq!(months[2].average_cents, 50);
}

#[test]
fn sums_per_category_in_first_appearance_order() {
    let items = vec![(Some(3), -5), (None, 4), (Some(3), 2), (Some(1), 7), (None, -1)];
    assert_eq!(totals_by_category(&items), Some(vec![(Some(3), -3), (None, 3), (Some(1), 7)]));
}

#[test]
fn category_sums_that_do_not_fit_are_refused() {
    let fits = vec![(Some(1), i64::MAX), (Some(2), i64::MIN + 1), (Some(1), -5), (Some(1), 5)];
    assert_eq!(totals_by_category(&fits), Some(vec![(Some(1), i64::MAX), (Some(2), i64::MIN + 1)]));
    assert_eq!(totals_by_category(&vec![(Some(1), i64::MAX), (Some(1), 1)]), None);
    assert_eq!(totals_by_category(&vec![(None, i64::MIN)]), None);
}

#[test]
fn large_totals_in_separate_categories() {
    let cats = vec![cat(1, "Rent", None, "#f00", false), cat(2, "Salary", None, "#0f0", false)];
    let txns = vec![
        txn("2024-01-01", Some(1), -(i64::MAX - 1)),
        txn("2024-01-02", Some(2), i64::MAX - 1),
    ];
    let tree = spending_by_category_tree(&txns, &cats).unwrap();
    assert_eq!(tree.categories.len(), 1);
    assert_eq!(tree_node_total(&tree.categories[0]), i64::MAX - 1);
    let flow = flow_sankey(&txns, &cats).unwrap();
    assert!(flow.links.iter().any(|l| l.value_cents == i64::MAX - 1));
    let too_much = vec![txn("2024-01-01", Some(1), i64::MIN + 1), txn("2024-01-02", Some(1), -1)];
    assert!(spending_by_category_tree(&too_much, &cats).is_none());
    assert!(flow_sankey(&too_much, &cats).is_none());
}

#[test]
fn earliest_and_latest_dates() {
    let dates = vec!["2024-03-01".to_string(), "2024-01-15".to_string(), "2024-02-01".to_string()];
    assert_eq!(
        date_bounds(&dates),
        (Some("2024-01-15".to_string()), Some("2024-03-01".to_string()))
    );
    assert_eq!(date_bounds(&Vec::new()), (None, None));
}

#[test]
fn spending_tree_nests_and_orders() {
    let res = spending_by_category_tree(&transactions(), &categories()).unwrap();
    assert_eq!(names(&res.categories), vec!["Rent", "Food", "Uncategorized"]);
    let rent = &res.categories[0];
    assert_eq!(rent.amount_cents, Some(80000));
    assert!(rent.children.is_empty());
    let food = &res.categories[1];
    assert_eq!(food.amount_cents, None);
    assert_eq!(food.color, "#f00");
    assert_eq!(names(&food.children), vec!["Groceries", "Restaurants", "Other Food"]);
    assert_eq!(food.children[2].amount_cents, Some(1000));
    assert_eq!(food.children[2].color, "#f00");
    assert_eq!(tree_node_total(food), 8000);
    let unc = &res.categories[2];
    assert_eq!(unc.amount_cents, Some(500));
    assert_eq!(unc.color, "#6b7280");
    assert_eq!(res.from_date.as_deref(), Some("2024-01-02"));
    assert_eq!(res.to_date.as_deref(), Some("2024-03-15"));
}

#[test]
fn spending_tree_of_nothing_is_empty() {
    let res = spending_by_category_tree(&Vec::new(), &categories()).unwrap();
    assert!(res.categories.is_empty());
    assert_eq!(res.from_date, None);
    assert_eq!(res.to_date, None);
    // income only: nothing is spending
    let res = spending_by_category_tree(&vec![txn("2024-01-01", Some(7), 100)], &categories()).unwrap();
    assert!(res.categories.is_empty());
    assert_eq!(res.from_date.as_deref(), Some("2024-01-01"));
}

#[test]
fn flow_diagram_layout() {
    let res = flow_sankey(&transactions(), &categories()).unwrap();
    let nodes: Vec<(String, u32)> = res.nodes.iter().map(|n| (n.name.clone(), n.depth)).collect();
    assert_eq!(
        nodes,
        vec![
            ("Salary".to_string(), 0),
            ("Budget".to_string(), 1),
            ("Rent".to_string(), 2),
            ("Food".to_string(), 2),
            ("Groceries".to_string(), 3),
            ("Restaurants".to_string(), 3),
            ("Other Food".to_string(), 3),
            ("Uncategorized".to_string(), 2),
        ]
    );
    assert_eq!(res.nodes[1].color.as_deref(), Some("#3b82f6"));
    assert_eq!(res.nodes[7].color.as_deref(), Some("#6b7280"));
    let links: Vec<(String, String, i64)> =
        res.links.iter().map(|l| (l.source.clone(), l.target.clone(), l.value_cents)).collect();
    let l = |a: &str, b: &str, v: i64| (a.to_string(), b.to_string(), v);
    assert_eq!(
        links,
        vec![
            l("Salary", "Budget", 300000),
            l("Budget", "Rent", 80000),
            l("Budget", "Food", 8000),
            l("Food", "Groceries", 5000),
            l("Food", "Restaurants", 2000),
            l("Food", "Other Food", 1000),
            l("Budget", "Uncategorized", 500),
        ]
    );
    assert_eq!(res.from_date.as_deref(), Some("2024-01-02"));
    assert_eq!(res.to_date.as_deref(), Some("2024-03-15"));
}

#[test]
fn flow_diagram_income_tree_and_shared_names() {
    let cats = vec![
        cat(1, "Work", None, "#111", false),
        cat(2, "Salary", Some(1), "#222", false),
        cat(3, "Gifts", None, "#333", false),
        cat(4, "Gifts", None, "#444", false),
    ];
    let txns = vec![
        txn("2024-01-01", Some(2), 1000),
        txn("2024-01-02", Some(1), 300),
        txn("2024-01-03", Some(3), 50),
        txn("2024-01-04", Some(4), -20),
    ];
    let res = flow_sankey(&txns, &cats).unwrap();
    let nodes: Vec<(String, u32)> = res.nodes.iter().map(|n| (n.name.clone(), n.depth)).collect();
    assert_eq!(
        nodes,
        vec![
            ("Work".to_string(), 1),
            ("Salary".to_string(), 0),
            ("Other Work".to_string(), 0),
            ("Gifts (In)".to_string(), 1),
            ("Budget".to_string(), 2),
            ("Gifts".to_string(), 3),
        ]
    );
    let links: Vec<(String, String, i64)> =
        res.links.iter().map(|l| (l.source.clone(), l.target.clone(), l.value_cents)).collect();
    let l = |a: &str, b: &str, v: i64| (a.to_string(), b.to_string(), v);
    assert_eq!(
        links,
        vec![
            l("Salary", "Work", 1000),
            l("Other Work", "Work", 300),
            l("Work", "Budget", 1300),
            l("Gifts (In)", "Budget", 50),
            l("Budget", "Gifts", 20),
        ]
    );
}

#[test]
fn flow_diagram_uncategorized_names() {
    let cats = vec![cat(1, "Uncategorized", None, "#999", false)];
    let txns = vec![txn("2024-01-01", Some(1), 100), txn("2024-01-02", None, -50)];
    let res = flow_sankey(&txns, &cats).unwrap();
    let names: Vec<String> = res.nodes.iter().map(|n| n.name.clone()).collect();
    assert_eq!(names, vec!["Uncategorized", "Budget", "Uncategorized Expenses"]);
    assert_eq!(res.links[1].target, "Uncategorized Expenses");
    assert_eq!(res.links[1].value_cents, 50);

    let res = flow_sankey(&vec![txn("2024-01-01", None, 70)], &cats).unwrap();
    let names: Vec<String> = res.nodes.iter().map(|n| n.name.clone()).collect();
    assert_eq!(names, vec!["Uncategorized", "Budget"]);
    assert_eq!(res.links[0].source, "Uncategorized");
    assert_eq!(res.links[0].value_cents, 70);
}

#[test]
fn flow_diagram_of_nothing_is_empty() {
    let res = flow_sankey(&vec![txn("2024-01-01", Some(5), -100)], &categories()).unwrap();
    assert!(res.nodes.is_empty());
    assert!(res.links.is_empty());
    assert_eq!(res.from_date, None);
    assert_eq!(res.to_date, None);
}

#[test]
fn category_id_lists() {
    assert_eq!(parse_category_ids(" 3, x,3 ,-7,"), vec![3, -7]);
    assert_eq!(parse_category_ids(""), Vec::<i64>::new());
    assert_eq!(parse_category_ids("12"), vec![12]);
}

#[test]
fn monthly_spending_per_chosen_category() {
    let params = MonthlyByCategoryParams {
        from_date: Some("2024-01-01".to_string()),
        to_date: Some("2024-02-28".to_string()),
        category_ids: Some("2, 4,x,2,99,7".to_string()),
    };
    let txns = vec![
        txn("2024-01-05", Some(2), -5000),
        txn("2024-03-02", Some(2), -1000),
        txn("2024-03-10", Some(2), 200),
        txn("2024-02-01", Some(4), -80000),
        txn("2024-02-02", Some(3), -999),
        txn("2024-02-03", Some(7), 5000),
    ];
    let res = monthly_by_category(&params, &txns, &categories());
    assert_eq!(res.months, vec!["2024-01", "2024-02", "2024-03"]);
    assert_eq!(res.series.len(), 2);
    assert_eq!(res.series[0].category, "Rent");
    assert_eq!(res.series[0].color, "#0f0");
    assert_eq!(res.series[0].totals, vec![0, 80000, 0]);
    assert_eq!(res.series[1].category, "Groceries");
    assert_eq!(res.series[1].totals, vec![5000, 0, 800]);
}

#[test]
fn monthly_spending_without_ids_is_empty() {
    let params = MonthlyByCategoryParams { from_date: None, to_date: None, category_ids: Some(" ,x".to_string()) };
    let res = monthly_by_category(&params, &transactions(), &categories());
    assert!(res.months.is_empty());
    assert!(res.series.is_empty());
    let params = MonthlyByCategoryParams { from_date: None, to_date: None, category_ids: None };
    assert!(monthly_by_category(&params, &transactions(), &categories()).months.is_empty());
}

#[test]
fn months_are_the_first_seven_bytes() {
    let txns = vec![("2024é-01-05".to_string(), 100), ("2024-0".to_string(), 5), ("2024-02".to_string(), 9)];
    let months = monthly_summaries(&Vec::new(), &txns);
    assert_eq!(months.len(), 2);
    assert_eq!(months[0].month, "2024-02");
    assert_eq!(months[0].total_cents, 9);
    assert_eq!(months[1].month, "2024é-");
    assert_eq!(months[1].total_cents, 100);
}

#[test]
fn monthly_spending_with_large_amounts_in_separate_months() {
    let params = MonthlyByCategoryParams { from_date: None, to_date: None, category_ids: Some("2,4".to_string()) };
    let half = i64::MAX / 2 - 1;
    let txns = vec![
        txn("2024-01-05", Some(2), -half),
        txn("2024-02-05", Some(2), -half),
        txn("2024-02-06", Some(4), -half),
        txn("2024-03-01", Some(9), i64::MIN + 1),
    ];
    let res = monthly_by_category(&params, &txns, &categories());
    assert_eq!(res.months, vec!["2024-01", "2024-02"]);
    assert_eq!(res.series.len(), 2);
    assert_eq!(res.series[0].totals, vec![half, half]);
    assert_eq!(res.series[1].totals, vec![0, half]);
}

use solvency::calendar::Date;
use solvency::market_data::{symbol_chart, symbol_coverage};
use solvency::net_worth::{account_allocation, palette_color, AccountHoldings, Holdings, NetWorthChartResponse, NetWorthDataPoint};
use solvency::trading_positions::{sort_closed_positions, ClosedPositionSortColumn};

#[test]
fn price_chart_runs_oldest_first_with_gaps() {
    let today = Date { year: 2024, month: 1, day: 12 };
    let prices = vec![
        ("2024-01-12".to_string(), 130),
        ("2024-01-11".to_string(), 120),
        ("2024-01-02".to_string(), 100),
    ];
    let first = "2024-01-01".to_string();
    let chart = symbol_chart(&"ACME".to_string(), &prices, Some(&first), today);
    assert_eq!(chart.symbol, "ACME");
    let points: Vec<(String, i64)> = chart.data.iter().map(|p| (p.date.clone(), p.price_cents)).collect();
    assert_eq!(
        points,
        vec![("2024-01-02".to_string(), 100), ("2024-01-11".to_string(), 120), ("2024-01-12".to_string(), 130)]
    );
    // 2024-01-03 .. 2024-01-10 holds six missing weekdays.
    assert_eq!(chart.missing_ranges, vec![("2024-01-03".to_string(), "2024-01-10".to_string())]);

    let empty = symbol_chart(&"NONE".to_string(), &Vec::new(), Some(&first), today);
    assert!(empty.data.is_empty());
    assert_eq!(empty.missing_ranges, vec![("2024-01-01".to_string(), "2024-01-12".to_string())]);
    assert!(symbol_chart(&"X".to_string(), &prices, None, today).missing_ranges.is_empty());
}

#[test]
fn allocation_of_accounts() {
    let accounts = vec![
        AccountHoldings { name: "Checking".to_string(), holdings: Holdings::Cash(120_00) },
        AccountHoldings { name: "Overdrawn".to_string(), holdings: Holdings::Cash(-5) },
        AccountHoldings {
            name: "Broker".to_string(),
            holdings: Holdings::Securities(vec![("ACME".to_string(), 500), ("GONE".to_string(), 0)]),
        },
        AccountHoldings { name: "Empty broker".to_string(), holdings: Holdings::Securities(vec![]) },
    ];
    let nodes = account_allocation(&accounts);
    assert_eq!(nodes.len(), 2);
    assert_eq!(nodes[0].name, "Checking");
    assert_eq!(nodes[0].color, "#3b82f6");
    assert_eq!(nodes[0].amount_cents, Some(12000));
    assert!(nodes[0].children.is_empty());
    assert_eq!(nodes[1].name, "Broker");
    assert_eq!(nodes[1].color, "#f59e0b");
    assert_eq!(nodes[1].amount_cents, None);
    assert_eq!(nodes[1].children.len(), 1);
    assert_eq!(nodes[1].children[0].name, "ACME");
    assert_eq!(nodes[1].children[0].color, "#f59e0b");
    assert_eq!(nodes[1].children[0].amount_cents, Some(500));
    assert_eq!(palette_color(10), "#3b82f6");
    assert_eq!(palette_color(19), "#6366f1");
}

fn closed(symbol: &str, cost: i64, proceeds: i64, first: &str) -> solvency::trading_positions::ClosedPosition {
    solvency::trading_positions::ClosedPosition {
        symbol: symbol.to_string(),
        total_cost_cents: cost,
        total_proceeds_cents: proceeds,
        realized_gain_loss_cents: proceeds - cost,
        currency: "EUR".to_string(),
        first_activity_date: first.to_string(),
        last_activity_date: "2024-12-31".to_string(),
    }
}

#[test]
fn closed_positions_sort_by_column() {
    let ps = || {
        vec![
            closed("MSFT", 100, 150, "2023-05-01"),
            closed("AAPL", 300, 200, "2021-01-01"),
            closed("BAYN", 100, 90, "2022-03-01"),
        ]
    };
    let syms = |v: Vec<solvency::trading_positions::ClosedPosition>| v.into_iter().map(|p| p.symbol).collect::<Vec<_>>();
    assert_eq!(syms(sort_closed_positions(ps(), ClosedPositionSortColumn::Symbol, false)), vec!["AAPL", "BAYN", "MSFT"]);
    assert_eq!(syms(sort_closed_positions(ps(), ClosedPositionSortColumn::Symbol, true)), vec!["MSFT", "BAYN", "AAPL"]);
    // equal costs keep their order in both directions
    assert_eq!(syms(sort_closed_positions(ps(), ClosedPositionSortColumn::TotalCost, false)), vec!["MSFT", "BAYN", "AAPL"]);
    assert_eq!(syms(sort_closed_positions(ps(), ClosedPositionSortColumn::TotalCost, true)), vec!["AAPL", "MSFT", "BAYN"]);
    assert_eq!(syms(sort_closed_positions(ps(), ClosedPositionSortColumn::GainLoss, true)), vec!["MSFT", "BAYN", "AAPL"]);
    assert_eq!(syms(sort_closed_positions(ps(), ClosedPositionSortColumn::Proceeds, false)), vec!["BAYN", "MSFT", "AAPL"]);
    assert_eq!(syms(sort_closed_positions(ps(), ClosedPositionSortColumn::Period, false)), vec!["AAPL", "BAYN", "MSFT"]);
}

fn coverage(first: &str, last: Option<&str>, points: i64, today: &str) -> (i64, bool) {
    let c = symbol_coverage(
        "VWCE.DE".to_string(),
        "EUR".to_string(),
        first.to_string(),
        "2024-01-10".to_string(),
        Some(first.to_string()),
        last.map(|s| s.to_string()),
        points,
        &today.to_string(),
    );
    assert_eq!(c.symbol, "VWCE.DE");
    assert_eq!(c.data_points, points);
    (c.missing_days, c.has_current_price)
}

#[test]
fn coverage_estimates_missing_weekdays() {
    // 14 days since the first activity: 10 expected trading days.
    assert_eq!(coverage("2024-01-01", Some("2024-01-12"), 4, "2024-01-15"), (6, true));
    assert_eq!(coverage("2024-01-01", Some("2024-01-12"), 12, "2024-01-15"), (0, true));
    // 20 days: 100 / 7 rounds down to 14.
    assert_eq!(coverage("2024-01-01", None, 0, "2024-01-21"), (14, false));
}

#[test]
fn coverage_current_price_window() {
    assert_eq!(coverage("2024-01-01", Some("2024-01-11"), 0, "2024-01-15").1, false);
    assert_eq!(coverage("2024-01-01", Some("2024-01-15"), 0, "2024-01-15").1, true);
    assert_eq!(coverage("2024-01-01", Some("2024-02-01"), 0, "2024-01-15").1, true);
    assert_eq!(coverage("2024-01-01", Some("garbage"), 0, "2024-01-15").1, true);
    assert_eq!(coverage("2024-01-01", Some("2023-13-01"), 0, "2024-01-15").1, false);
}

#[test]
fn coverage_unreadable_or_future_first_activity() {
    assert_eq!(coverage("not a date", None, 0, "2024-01-15").0, 0);
    assert_eq!(coverage("2024-02-01", None, 0, "2024-01-15").0, 0);
}

#[test]
fn net_worth_chart_clamps_to_safe_integers() {
    let points = vec![
        NetWorthDataPoint {
            date: "2024-01-01".to_string(),
            net_worth_cents: 12345,
            transaction_component_cents: i64::MAX,
            portfolio_component_cents: i64::MIN,
        },
        NetWorthDataPoint {
            date: "2024-01-02".to_string(),
            net_worth_cents: 9_007_199_254_740_991,
            transaction_component_cents: -9_007_199_254_740_992,
            portfolio_component_cents: 0,
        },
    ];
    let c = NetWorthChartResponse::from_display_points(&points);
    assert_eq!(c.labels, vec!["2024-01-01".to_string(), "2024-01-02".to_string()]);
    assert_eq!(c.net_worth, vec![12345, 9_007_199_254_740_991]);
    assert_eq!(c.transaction_component, vec![9_007_199_254_740_991, -9_007_199_254_740_991]);
    assert_eq!(c.portfolio_component, vec![-9_007_199_254_740_991, 0]);
}

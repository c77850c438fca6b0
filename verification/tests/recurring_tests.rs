use solvency::calendar::Date;
use solvency::recurring_expenses::{
    classify_interval, detect_recurring_expenses, group_rows, grouping_key, median, merge_prefix_groups,
    normalize_description, summarize_group, ExpenseRow, Frequency, GroupEntry,
};

fn today() -> Date {
    Date { year: 2024, month: 12, day: 1 }
}

fn row(date: &str, amount_cents: i64, description: &str) -> ExpenseRow {
    ExpenseRow {
        date: date.to_string(),
        amount_cents,
        description: description.to_string(),
        payee: None,
        counterparty_iban: None,
    }
}

fn entry(year: i32, month: u32, day: u32, amount_cents: i64) -> GroupEntry {
    GroupEntry { date: Date { year, month, day }, amount_cents, display_name: "test".to_string() }
}

#[test]
fn test_normalize_description() {
    assert_eq!(normalize_description("Spotify AB"), "spotify ab");
    assert_eq!(normalize_description("NETFLIX.COM 12345"), "netflixcom");
    assert_eq!(normalize_description("  Hello World  "), "hello world");
}

#[test]
fn trailing_numbers_after_any_white_space_are_removed() {
    assert_eq!(normalize_description("ab 1\t2"), "ab");
    assert_eq!(normalize_description("Rent 2024\n03"), "rent");
    assert_eq!(normalize_description("Gym 42\u{a0}"), "gym");
    assert_eq!(normalize_description("12345"), "");
    assert_eq!(normalize_description("Café 7"), "café");
}

#[test]
fn test_classify_interval() {
    assert_eq!(classify_interval(7), Some(Frequency::Weekly));
    assert_eq!(classify_interval(30), Some(Frequency::Monthly));
    assert_eq!(classify_interval(91), Some(Frequency::Quarterly));
    assert_eq!(classify_interval(365), Some(Frequency::Yearly));
    assert_eq!(classify_interval(15), None);
    assert_eq!(classify_interval(200), None);
}

#[test]
fn test_median() {
    assert_eq!(median(&[1, 2, 3]), 2);
    assert_eq!(median(&[1, 2, 3, 4]), 2);
    assert_eq!(median(&[10, 20, 30, 40, 50]), 30);
    assert_eq!(median(&[]), 0);
}

#[test]
fn test_grouping_key_prefers_iban() {
    let key = grouping_key(
        &Some("DE89370400440532013000".to_string()),
        &Some("Payee".to_string()),
        "Description",
    );
    assert!(key.starts_with("iban:"));
}

#[test]
fn test_grouping_key_falls_back_to_payee() {
    let key = grouping_key(&None, &Some("Netflix".to_string()), "NETFLIX.COM");
    assert!(key.starts_with("payee:"));
}

#[test]
fn test_grouping_key_falls_back_to_description() {
    let key = grouping_key(&None, &None, "NETFLIX.COM");
    assert!(key.starts_with("desc:"));
}

#[test]
fn test_detect_monthly_subscription() {
    let rows: Vec<ExpenseRow> =
        (0..6).map(|i| row(&format!("2024-{:02}-15", i + 1), -999, "Spotify AB")).collect();
    let results = detect_recurring_expenses(rows, "EUR", "en-US", today());
    assert_eq!(results.len(), 1);
    assert_eq!(results[0].frequency_label, "Monthly");
    assert_eq!(results[0].occurrence_count, 6);
    assert!(!results[0].inactive);
}

#[test]
fn test_inactive_subscription() {
    let rows: Vec<ExpenseRow> =
        (0..6).map(|i| row(&format!("2023-{:02}-15", i + 1), -999, "Old Service")).collect();
    let results = detect_recurring_expenses(rows, "EUR", "en-US", today());
    assert_eq!(results.len(), 1);
    assert!(results[0].inactive);
}

#[test]
fn test_too_few_occurrences_not_detected() {
    let rows = vec![row("2024-01-15", -999, "One-off"), row("2024-02-15", -999, "One-off")];
    let results = detect_recurring_expenses(rows, "EUR", "en-US", today());
    assert!(results.is_empty());
}

#[test]
fn test_irregular_intervals_not_detected() {
    let rows = vec![
        row("2024-01-01", -500, "Random"),
        row("2024-01-15", -500, "Random"),
        row("2024-01-22", -500, "Random"),
    ];
    let results = detect_recurring_expenses(rows, "EUR", "en-US", today());
    assert!(results.is_empty());
}

#[test]
fn test_prefix_merge_groups() {
    let groups = vec![
        ("desc:spotify".to_string(), vec![entry(2024, 1, 1, -999), entry(2024, 2, 1, -999)]),
        ("desc:spotifysweden".to_string(), vec![entry(2024, 3, 1, -999), entry(2024, 4, 1, -999)]),
    ];
    let merged = merge_prefix_groups(groups);
    assert_eq!(merged.len(), 1);
    assert_eq!(merged[0].1.len(), 4);
}

#[test]
fn test_summary_fields() {
    let rows: Vec<ExpenseRow> =
        (0..6).map(|i| row(&format!("2024-{:02}-15", i + 1), -999, "Spotify AB")).collect();
    let results = detect_recurring_expenses(rows, "EUR", "en-US", today());
    let r = &results[0];
    assert_eq!(r.description, "Spotify AB");
    assert_eq!(r.frequency_sort, 2);
    assert_eq!(r.typical_amount_cents, 999);
    assert_eq!(r.typical_amount_formatted, "€9.99");
    assert_eq!(r.last_date, "2024-06-15");
    assert_eq!(r.annual_cost_cents, 11988);
    assert_eq!(r.annual_cost_formatted, "€119.88");
    assert_eq!(r.total_spent_cents, 5994);
    assert_eq!(r.total_spent_formatted, "€59.94");
}

#[test]
fn test_results_sorted_by_annual_cost() {
    let mut rows: Vec<ExpenseRow> = Vec::new();
    for i in 0..4 {
        rows.push(row(&format!("2024-{:02}-03", i + 1), -500, "Cheap Stream"));
        rows.push(row(&format!("2024-{:02}-05", i + 1), -5000, "Gym Membership"));
    }
    let results = detect_recurring_expenses(rows, "EUR", "de-DE", today());
    assert_eq!(results.len(), 2);
    assert_eq!(results[0].description, "Gym Membership");
    assert_eq!(results[1].description, "Cheap Stream");
    assert!(results[0].annual_cost_cents >= results[1].annual_cost_cents);
}

#[test]
fn test_unparsable_dates_are_ignored() {
    let rows = vec![
        row("2024-01-10", -700, "Cloud"),
        row("not a date", -700, "Cloud"),
        row("2024-02-10", -700, "Cloud"),
        row("2024-03-10", -700, "Cloud"),
    ];
    let groups = group_rows(&rows);
    assert_eq!(groups.len(), 1);
    assert_eq!(groups[0].0, "desc:cloud");
    assert_eq!(groups[0].1.len(), 3);
}

#[test]
fn test_outlier_amount_is_filtered() {
    let entries = vec![
        entry(2024, 1, 10, -1000),
        entry(2024, 2, 10, -1000),
        entry(2024, 3, 10, -5000),
        entry(2024, 4, 10, -1000),
        entry(2024, 5, 10, -1000),
    ];
    let r = summarize_group(&entries, "USD", "en-US", today()).unwrap();
    assert_eq!(r.occurrence_count, 4);
    assert_eq!(r.total_spent_cents, 4000);
    assert_eq!(r.frequency_label, "Monthly");
}

#[test]
fn test_gap_in_kept_payments_breaks_the_rhythm() {
    let entries = vec![
        entry(2024, 1, 10, -1000),
        entry(2024, 2, 10, -1000),
        entry(2024, 3, 10, -5000),
        entry(2024, 4, 10, -1000),
    ];
    assert!(summarize_group(&entries, "USD", "en-US", today()).is_none());
}

#[test]
fn test_iban_groups_never_merge() {
    let groups = vec![
        ("iban:DE12345".to_string(), vec![entry(2024, 1, 1, -100)]),
        ("iban:DE123456".to_string(), vec![entry(2024, 2, 1, -100)]),
        ("payee:netflix".to_string(), vec![entry(2024, 3, 1, -100)]),
        ("desc:netflixcom".to_string(), vec![entry(2024, 4, 1, -100)]),
    ];
    let merged = merge_prefix_groups(groups);
    assert_eq!(merged.len(), 4);
}

#[test]
fn test_short_keys_do_not_absorb() {
    let groups = vec![
        ("desc:spot".to_string(), vec![entry(2024, 1, 1, -100)]),
        ("desc:spotify".to_string(), vec![entry(2024, 2, 1, -100)]),
        ("desc:spotifyab".to_string(), vec![entry(2024, 3, 1, -100)]),
    ];
    let merged = merge_prefix_groups(groups);
    assert_eq!(merged.len(), 2);
    assert_eq!(merged[0].0, "desc:spot");
    assert_eq!(merged[1].0, "desc:spotify");
    assert_eq!(merged[1].1.len(), 2);
}

#[test]
fn test_weekly_payee_grouping() {
    let mut rows = Vec::new();
    for d in [1u32, 8, 15, 22, 29] {
        rows.push(ExpenseRow {
            date: format!("2024-11-{:02}", d),
            amount_cents: -1250,
            description: format!("CARD {}", d),
            payee: Some("Bakery".to_string()),
            counterparty_iban: None,
        });
    }
    let results = detect_recurring_expenses(rows, "USD", "en-US", today());
    assert_eq!(results.len(), 1);
    assert_eq!(results[0].frequency_label, "Weekly");
    assert_eq!(results[0].description, "Bakery");
    assert_eq!(results[0].annual_cost_cents, 1250 * 52);
}

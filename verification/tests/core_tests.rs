use solvency::cache::{AppCache, Slot};
use solvency::calendar::Date;
use solvency::config::{auth_mode_from, database_path_from, port_from, AuthConfigError, AuthMode, Config};
use solvency::error::{
    default_message, error_html, error_page_message, error_page_middleware, fallback_message, html_escape, status_title,
    AppError,
};
use solvency::manage::{
    category_step, preview_categories, preview_rules, preview_tags, count_skipped, unresolved_parent_message,
    CategoryImport, CategoryStep, ImportPreviewStatus, RuleImport, TagImport,
};
use solvency::market_data::{calculate_missing_ranges, SymbolInfo};
use solvency::models::{RuleActionType, Settings, TagStyle, TradingActivityType};
use solvency::numbers::{optional_i64_field, parse_i64, parse_int, parse_u16};
use solvency::queries::{build_bulk_filter, build_filter_where, SqlParam, TransactionFilter};
use solvency::trading_activities::TradingActivityFilterParams;
use solvency::trading_positions::{gain_loss_color, PositionSortColumn};
use solvency::transactions::{TransactionFilterParams, TransactionSortColumn};
use solvency::expenses::ExpenseFilterParams;

fn settings() -> Settings {
    Settings {
        currency: "EUR".to_string(),
        locale: "de-DE".to_string(),
        theme: "dark".to_string(),
        page_size: 25,
        is_authenticated: false,
    }
}

#[test]
fn cache_serves_current_generation_only() {
    let mut cache = AppCache::new();
    assert!(cache.cached_settings().is_none());
    cache.store_settings(settings());
    assert_eq!(cache.cached_settings().unwrap().currency, "EUR");
    cache.invalidate();
    assert_eq!(cache.gen(), 1);
    assert!(cache.cached_settings().is_none());
    let mut slot: Slot<i64> = Slot::new();
    slot.set(7, 42);
    assert_eq!(slot.get(7), Some(&42));
    assert_eq!(slot.get(8), None);
}

#[test]
fn config_values() {
    let c = Config::from_values(
        Some("DANGEROUSLY_ALLOW_UNAUTHENTICATED_USERS"),
        None,
        Some("8080"),
        Some("sqlite://data/x.db"),
        None,
        None,
    )
    .unwrap();
    assert_eq!(c.address(), "0.0.0.0:8080");
    assert_eq!(c.database_path, "data/x.db");
    assert_eq!(c.migrations_path, "migrations");
    assert!(matches!(c.auth_mode, AuthMode::Unauthenticated));
    assert_eq!(port_from(Some("nope")), 7070);
    assert_eq!(port_from(Some("70000")), 7070);
    assert_eq!(database_path_from(Some("sqlite:db.sqlite")), "db.sqlite");
    assert_eq!(database_path_from(None), "data/solvency.db");
    assert!(matches!(auth_mode_from(Some("$argon2id$v=19$abc")), Ok(AuthMode::Password(_))));
    assert!(matches!(auth_mode_from(Some("")), Err(AuthConfigError::Empty)));
    assert!(matches!(auth_mode_from(Some("plain")), Err(AuthConfigError::Invalid(_))));
    assert!(matches!(auth_mode_from(None), Err(AuthConfigError::Missing)));
}

#[test]
fn numbers_parse_like_std() {
    assert_eq!(parse_u16("+65535"), Some(65535));
    assert_eq!(parse_u16("65536"), None);
    assert_eq!(parse_u16(""), None);
    assert_eq!(parse_i64("-9223372036854775808"), Some(i64::MIN));
    assert_eq!(parse_i64("9223372036854775808"), None);
    assert_eq!(parse_i64(" 1"), None);
    assert_eq!(parse_i64("-"), None);
    assert_eq!(parse_i64("042"), Some(42));
}

#[test]
fn error_rendering() {
    assert_eq!(html_escape("<a href=\"x\">Tom & 'Jerry'</a>"), "&lt;a href=&quot;x&quot;&gt;Tom &amp; &#x27;Jerry&#x27;&lt;/a&gt;");
    let (code, msg) = AppError::Database("disk I/O".to_string()).status_and_message();
    assert_eq!((code, msg.as_str()), (500, "Database error"));
    let (code, msg) = AppError::NotFound("no such thing".to_string()).status_and_message();
    assert_eq!((code, msg.as_str()), (404, "no such thing"));
    assert!(error_html("a<b").contains("<p class=\"text-red-700 dark:text-red-200\">a&lt;b</p>"));
    assert_eq!(status_title(405), "Method Not Allowed");
    assert_eq!(default_message(418), "An unexpected error occurred (418).");
    assert_eq!(default_message(404), "The page you're looking for doesn't exist.");
}

#[test]
fn manage_import_preview() {
    let existing = vec!["Food".to_string()];
    let cats = vec![
        CategoryImport { name: "Food".into(), parent_name: None, color: "#fff".into(), icon: "x".into() },
        CategoryImport { name: "Snacks".into(), parent_name: Some("Food".into()), color: "#fff".into(), icon: "x".into() },
        CategoryImport { name: "Toys".into(), parent_name: Some("Kids".into()), color: "#000".into(), icon: "y".into() },
    ];
    let items = preview_categories(&existing, &cats);
    assert_eq!(items[0].status, ImportPreviewStatus::Skipped);
    assert_eq!(items[0].reason, "already exists");
    assert_eq!(items[1].status, ImportPreviewStatus::Valid);
    assert_eq!(items[2].reason, "parent \"Kids\" not found");
    assert_eq!(items[1].cells, vec!["Snacks", "Food", "#fff", "x"]);
    assert_eq!(count_skipped(&items), 2);
    let tags = vec![TagImport { name: "trip".into(), color: "red".into(), style: TagStyle::Outline }];
    let t = preview_tags(&vec![], &tags);
    assert!(!t[0].is_skipped());
    assert_eq!(t[0].cells[2], "Outline");
    let rules = vec![
        RuleImport { name: "r1".into(), pattern: "x".into(), action_type: RuleActionType::AssignTag, action_value: "nope".into() },
        RuleImport { name: "r2".into(), pattern: "y".into(), action_type: RuleActionType::AssignCategory, action_value: "Food".into() },
    ];
    let r = preview_rules(&vec![], &existing, &vec![], &rules);
    assert_eq!(r[0].reason, "tag \"nope\" not found");
    assert_eq!(r[1].status, ImportPreviewStatus::Valid);
    assert_eq!(r[1].cells[2], "Assign Category");
    assert_eq!(category_step(&existing, &cats[1]), CategoryStep::Create);
    assert_eq!(category_step(&existing, &cats[2]), CategoryStep::Defer);
    assert_eq!(category_step(&existing, &cats[0]), CategoryStep::Skip);
    assert_eq!(unresolved_parent_message(&cats[2]), "category \"Toys\": parent \"Kids\" not found");
}

#[test]
fn filter_where_clause() {
    let f = TransactionFilter {
        search: Some("coffee".into()),
        category_id: Some(3),
        category_ids: vec![4, 5],
        tag_id: Some(9),
        from_date: Some("2024-01-01".into()),
        to_date: None,
        limit: None,
        offset: None,
        sort_sql: None,
        uncategorized_only: false,
    };
    let (sql, params) = build_filter_where(&f);
    assert_eq!(
        sql,
        " AND e.description LIKE ? AND e.category_id IN (?,?) AND e.date >= ? AND EXISTS(SELECT 1 FROM transaction_tags et WHERE et.transaction_id = e.id AND et.tag_id = ?)"
    );
    assert_eq!(params.len(), 5);
    assert!(matches!(&params[0], SqlParam::Text(s) if s == "%coffee%"));
    assert!(matches!(&params[2], SqlParam::Int(5)));
    let b = build_bulk_filter(&None, Some(0), None, &None, &None);
    assert!(b.uncategorized_only);
    assert_eq!(b.category_id, None);
    let (sql2, p2) = build_filter_where(&b);
    assert_eq!(sql2, " AND e.category_id IS NULL");
    assert!(p2.is_empty());
}

#[test]
fn list_parameters() {
    let p = TransactionFilterParams {
        search: Some("café & co".into()),
        category_id: Some(-2),
        tag_id: None,
        from_date: None,
        to_date: None,
        page: None,
        preset: None,
        nav: None,
        sort: Some("amount".into()),
        dir: Some("desc".into()),
    };
    assert_eq!(p.base_query_string(), "search=caf%C3%A9%20%26%20co&category_id=-2");
    assert_eq!(p.full_query_string(), "search=caf%C3%A9%20%26%20co&category_id=-2&sort=amount&dir=desc");
    assert!(p.matches_category(&-2));
    assert!(!p.is_uncategorized());
    let e = ExpenseFilterParams {
        search: Some(String::new()),
        category_id: None,
        tag_id: Some(4),
        from_date: None,
        to_date: None,
        page: None,
        preset: None,
        nav: None,
        sort: None,
        dir: None,
    };
    assert_eq!(e.full_query_string(), "tag_id=4");
    let t = TradingActivityFilterParams {
        symbol: Some("BRK.B".into()),
        activity_type: Some("BUY".into()),
        from_date: Some(String::new()),
        to_date: Some("2024-12-31".into()),
        page: None,
    };
    assert_eq!(t.base_query_string(), "symbol=BRK.B&activity_type=BUY&to_date=2024-12-31");
    assert!(t.matches_symbol("BRK.B"));
    assert!(t.matches_activity_type(&TradingActivityType::Buy));
    assert!(!t.matches_activity_type(&TradingActivityType::Sell));
    assert_eq!(TransactionSortColumn::from_str("AMOUNT"), Some(TransactionSortColumn::Amount));
    assert_eq!(TransactionSortColumn::Counterparty.sql_expression(), "e.payee");
    assert_eq!(PositionSortColumn::from_str("GainLoss"), Some(PositionSortColumn::GainLoss));
    assert_eq!(gain_loss_color(-1), "text-red-600 dark:text-red-400");
}

#[test]
fn symbol_display_name() {
    let s = SymbolInfo { short_name: Some("APPL".into()), long_name: None, exchange: None, quote_type: None };
    assert_eq!(s.display_name().map(|x| x.as_str()), Some("APPL"));
    let l = SymbolInfo { short_name: Some("APPL".into()), long_name: Some("Apple Inc.".into()), exchange: None, quote_type: None };
    assert_eq!(l.display_name().map(|x| x.as_str()), Some("Apple Inc."));
}

#[test]
fn missing_market_data_ranges() {
    let today = Date { year: 2024, month: 1, day: 31 };
    let first = "2024-01-01".to_string();
    // data on Jan 1-5 and Jan 22-26: a gap of ten weekdays from Jan 8, then three more at the end
    let mut data = Vec::new();
    for d in [1, 2, 3, 4, 5, 22, 23, 24, 25, 26] {
        data.push(format!("2024-01-{:02}", d));
    }
    let gaps = calculate_missing_ranges(&data, Some(&first), today);
    assert_eq!(gaps, vec![("2024-01-08".to_string(), "2024-01-21".to_string())]);
    let none: Vec<String> = Vec::new();
    let all = calculate_missing_ranges(&none, Some(&first), today);
    assert_eq!(all, vec![("2024-01-01".to_string(), "2024-01-31".to_string())]);
    assert!(calculate_missing_ranges(&data, None, today).is_empty());
}

#[test]
fn loaded_settings_carry_the_auth_mode() {
    let mut cache = AppCache::new();
    let served = cache.accept_settings(settings(), &AuthMode::Password("$argon2id$x".to_string()));
    assert!(served.is_authenticated);
    assert_eq!(served.locale, "de-DE");
    assert!(cache.cached_settings().unwrap().is_authenticated);
    let served = cache.accept_settings(settings(), &AuthMode::Unauthenticated);
    assert!(!served.is_authenticated);
    assert!(!cache.cached_settings().unwrap().is_authenticated);
}

#[test]
fn error_pages_replace_failed_page_responses() {
    assert!(error_page_middleware(404, false, "/transactions"));
    assert!(error_page_middleware(500, false, "/"));
    assert!(!error_page_middleware(200, false, "/"));
    assert!(!error_page_middleware(302, false, "/"));
    assert!(!error_page_middleware(404, true, "/transactions"));
    assert!(!error_page_middleware(500, false, "/api/flow"));
    assert!(!error_page_middleware(503, false, "/health"));
    assert_eq!(error_page_message(Some("boom"), 500), "boom");
    assert_eq!(error_page_message(None, 404), "The page you're looking for doesn't exist.");
    assert_eq!(error_page_message(None, 418), "An unexpected error occurred (418).");
    assert_eq!(fallback_message(), "The page you're looking for doesn't exist.");
}

#[test]
fn optional_integer_form_fields() {
    assert_eq!(optional_i64_field(None), Ok(None));
    assert_eq!(optional_i64_field(Some("")), Ok(None));
    assert_eq!(optional_i64_field(Some("42")), Ok(Some(42)));
    assert_eq!(optional_i64_field(Some("-7")), Ok(Some(-7)));
    assert_eq!(optional_i64_field(Some("x")), Err(()));
    assert_eq!(optional_i64_field(Some(" 1")), Err(()));
}

#[test]
fn integer_fields_with_fallback() {
    assert_eq!(parse_int(Some(" 42 "), 7), 42);
    assert_eq!(parse_int(Some("-3"), 7), -3);
    assert_eq!(parse_int(Some("4.5"), 7), 7);
    assert_eq!(parse_int(Some(""), 7), 7);
    assert_eq!(parse_int(None, 7), 7);
}

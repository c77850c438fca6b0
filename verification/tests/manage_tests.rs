use solvency::categories::check_circular_parent;
use solvency::error::AppError;
use solvency::manage::{
    account_import_message, accounts_to_create, export_categories, export_rules, export_tags, import_summary_message,
    preview_accounts, resolve_rule_action, AccountImport, CategoryImport, CategoryImportAction, CategoryImportRun,
    category_target_names, check_export_type, default_color, default_icon, preview_totals, tag_target_names, TagImport,
    ImportPreviewStatus, RuleImport,
};
use solvency::models::{Category, RuleActionType, Tag, TagStyle};
use solvency::rules::Rule;
use solvency::calendar::Date;
use solvency::spending::{parse_month_range, SpendingFilterParams};
use solvency::transactions::non_empty;

fn cat(id: i64, parent_id: Option<i64>) -> Category {
    Category {
        id,
        name: format!("c{}", id),
        parent_id,
        color: "#000".to_string(),
        icon: String::new(),
        built_in: false,
    }
}

fn account(name: &str, t: &str) -> AccountImport {
    AccountImport { name: name.to_string(), account_type: t.to_string() }
}

#[test]
fn month_ranges() {
    let (from, to, label) = parse_month_range("2024-02").unwrap();
    assert_eq!(from, "2024-02-01");
    assert_eq!(to, "2024-02-29");
    assert_eq!(label, "February 2024");
    let (from, to, label) = parse_month_range("2023-12").unwrap();
    assert_eq!((from.as_str(), to.as_str(), label.as_str()), ("2023-12-01", "2023-12-31", "December 2023"));
    match parse_month_range("sometime") {
        Err(AppError::Validation(m)) => assert_eq!(m, "Invalid month format: sometime"),
        _ => panic!("expected a validation error"),
    }
}

#[test]
fn month_ranges_from_chart_labels() {
    let expected = ("2024-02-01".to_string(), "2024-02-29".to_string(), "February 2024".to_string());
    assert_eq!(parse_month_range("Feb 2024").unwrap(), expected);
    assert_eq!(parse_month_range("February 2024").unwrap(), expected);
    assert_eq!(
        parse_month_range("Dec 2023").unwrap(),
        ("2023-12-01".to_string(), "2023-12-31".to_string(), "December 2023".to_string())
    );
    assert!(matches!(parse_month_range("Febr 2024"), Err(AppError::Validation(_))));
    assert!(matches!(parse_month_range("foo"), Err(AppError::Validation(_))));
}

#[test]
fn circular_parents_are_refused() {
    // 1 <- 2 <- 3 (3's parent is 2, 2's parent is 1)
    let cats = vec![cat(1, None), cat(2, Some(1)), cat(3, Some(2)), cat(4, None)];
    assert!(check_circular_parent(&cats, 1, None).is_ok());
    assert!(check_circular_parent(&cats, 1, Some(4)).is_ok());
    assert!(check_circular_parent(&cats, 3, Some(1)).is_ok());
    match check_circular_parent(&cats, 1, Some(3)) {
        Err(AppError::Validation(m)) => assert_eq!(m, "Cannot set parent: would create a circular reference"),
        _ => panic!("expected a validation error"),
    }
    assert!(check_circular_parent(&cats, 2, Some(2)).is_err());
    assert!(check_circular_parent(&cats, 4, Some(99)).is_ok());
}

#[test]
fn account_import_preview_and_creation() {
    let existing = vec!["Checking".to_string()];
    let items = vec![account("Checking", "cash"), account("Broker", "securities"), account("Broker", "securities")];
    let preview = preview_accounts(&existing, &items);
    assert_eq!(preview.len(), 3);
    assert_eq!(preview[0].status, ImportPreviewStatus::Skipped);
    assert_eq!(preview[0].reason, "already exists");
    assert_eq!(preview[0].cells, vec!["Checking".to_string(), "cash".to_string()]);
    assert_eq!(preview[1].status, ImportPreviewStatus::Valid);
    assert_eq!(preview[1].reason, "");
    let created = accounts_to_create(&existing, &items);
    let names: Vec<&str> = created.iter().map(|a| a.name.as_str()).collect();
    assert_eq!(names, vec!["Broker", "Broker"]);
    assert_eq!(account_import_message(2), "Successfully imported 2 accounts");
}

#[test]
fn imported_rules_resolve_names() {
    let cats = vec![("Food".to_string(), 3), ("Rent".to_string(), 4), ("Food".to_string(), 9)];
    let tags = vec![("online".to_string(), -2)];
    let rule = |name: &str, t: RuleActionType, v: &str| RuleImport {
        name: name.to_string(),
        pattern: "x".to_string(),
        action_type: t,
        action_value: v.to_string(),
    };
    assert_eq!(resolve_rule_action(&rule("r1", RuleActionType::AssignCategory, "Food"), &cats, &tags), Ok("9".to_string()));
    assert_eq!(resolve_rule_action(&rule("r2", RuleActionType::AssignTag, "online"), &cats, &tags), Ok("-2".to_string()));
    assert_eq!(
        resolve_rule_action(&rule("r3", RuleActionType::AssignCategory, "Travel"), &cats, &tags),
        Err("rule \"r3\": category \"Travel\" not found".to_string())
    );
    assert_eq!(
        resolve_rule_action(&rule("r4", RuleActionType::AssignTag, "Food"), &cats, &tags),
        Err("rule \"r4\": tag \"Food\" not found".to_string())
    );
}

#[test]
fn import_summaries() {
    assert_eq!(import_summary_message(2, 1, 0, 0), "Imported 2 categories, 1 tags, 0 rules");
    assert_eq!(import_summary_message(0, 0, 3, 2), "Imported 0 categories, 0 tags, 3 rules (2 errors)");
}

fn named(id: i64, name: &str, parent_id: Option<i64>, built_in: bool) -> Category {
    Category {
        id,
        name: name.to_string(),
        parent_id,
        color: "#123".to_string(),
        icon: "tag".to_string(),
        built_in,
    }
}

#[test]
fn export_names_parents_and_targets() {
    let cats = vec![
        named(1, "Food", None, false),
        named(2, "Groceries", Some(1), false),
        named(5, "Transfers", None, true),
        named(6, "Savings", Some(5), false),
        named(7, "Orphan", Some(99), false),
    ];
    let out = export_categories(&cats);
    let rows: Vec<(String, Option<String>)> = out.iter().map(|c| (c.name.clone(), c.parent_name.clone())).collect();
    assert_eq!(
        rows,
        vec![
            ("Food".to_string(), None),
            ("Groceries".to_string(), Some("Food".to_string())),
            ("Savings".to_string(), Some("Transfers".to_string())),
            ("Orphan".to_string(), None),
        ]
    );
    assert_eq!(out[0].icon, "tag");

    let tags = vec![Tag { id: 3, name: "online".to_string(), color: "#abc".to_string(), style: TagStyle::Outline }];
    let exported_tags = export_tags(&tags);
    assert_eq!(exported_tags.len(), 1);
    assert_eq!(exported_tags[0].name, "online");
    assert_eq!(exported_tags[0].style, TagStyle::Outline);

    let rule = |name: &str, t: RuleActionType, v: &str| Rule {
        id: 0,
        name: name.to_string(),
        pattern: "p".to_string(),
        action_type: t,
        action_value: v.to_string(),
    };
    let rules = vec![
        rule("r1", RuleActionType::AssignCategory, "2"),
        rule("r2", RuleActionType::AssignTag, "3"),
        rule("r3", RuleActionType::AssignCategory, "x"),
        rule("r4", RuleActionType::AssignCategory, "02"),
        rule("r5", RuleActionType::AssignTag, "2"),
    ];
    let values: Vec<String> = export_rules(&rules, &cats, &tags).into_iter().map(|r| r.action_value).collect();
    assert_eq!(values, vec!["Groceries", "online", "x", "02", "2"]);
}

#[test]
fn spending_page_date_range() {
    let today = Date { year: 2024, month: 3, day: 15 };
    let p = SpendingFilterParams {
        from_date: Some("2024-01-05".to_string()),
        to_date: Some("2024-02-10".to_string()),
        preset: None,
        tab: None,
    };
    let r = p.resolve_date_range(today);
    assert_eq!(r.from, Date { year: 2024, month: 1, day: 5 });
    assert_eq!(r.to, Date { year: 2024, month: 2, day: 10 });
    let p = SpendingFilterParams { preset: Some("bogus".to_string()), ..Default::default() };
    let r = p.resolve_date_range(today);
    assert_eq!(r.from, Date { year: 2024, month: 3, day: 1 });
    assert_eq!(r.to, Date { year: 2024, month: 3, day: 31 });
}

#[test]
fn blank_text_fields_are_none() {
    assert_eq!(non_empty(&None), None);
    assert_eq!(non_empty(&Some("   ".to_string())), None);
    assert_eq!(non_empty(&Some("  DE89 3704 ".to_string())), Some("DE89 3704".to_string()));
}

fn imported(name: &str, parent: Option<&str>) -> CategoryImport {
    CategoryImport {
        name: name.to_string(),
        parent_name: parent.map(|p| p.to_string()),
        color: "#111".to_string(),
        icon: "tag".to_string(),
    }
}

#[test]
fn categories_are_created_parents_first_in_passes() {
    let items = vec![
        imported("Child", Some("Mid")),
        imported("Mid", Some("Food")),
        imported("Orphan", Some("Nope")),
        imported("Food", None),
        imported("Loose", None),
    ];
    let mut run = CategoryImportRun::start(vec![("Food".to_string(), 1)], items);
    let mut created: Vec<(String, Option<i64>)> = Vec::new();
    let mut next_id = 10;
    loop {
        match run.next_action() {
            CategoryImportAction::Create { item, parent_id } => {
                created.push((item.name.clone(), parent_id));
                if item.name == "Loose" {
                    run.record(Err("disk full".to_string()));
                } else {
                    run.record(Ok(next_id));
                    next_id += 1;
                }
            }
            CategoryImportAction::Done => break,
        }
    }
    assert_eq!(
        created,
        vec![
            ("Mid".to_string(), Some(1)),
            ("Loose".to_string(), None),
            ("Child".to_string(), Some(10)),
        ]
    );
    assert_eq!(run.known.len() - run.existing, 2);
    assert_eq!(
        run.errors,
        vec![
            "category \"Loose\": disk full".to_string(),
            "category \"Orphan\": parent \"Nope\" not found".to_string(),
        ]
    );
    assert!(matches!(run.next_action(), CategoryImportAction::Done));
}

#[test]
fn category_handed_out_again_until_reported() {
    let mut run = CategoryImportRun::start(Vec::new(), vec![imported("A", None), imported("B", Some("A"))]);
    match run.next_action() {
        CategoryImportAction::Create { item, parent_id } => assert_eq!((item.name.as_str(), parent_id), ("A", None)),
        CategoryImportAction::Done => panic!("expected a creation"),
    }
    match run.next_action() {
        CategoryImportAction::Create { item, .. } => assert_eq!(item.name, "A"),
        CategoryImportAction::Done => panic!("expected the same creation"),
    }
    run.record(Ok(7));
    match run.next_action() {
        CategoryImportAction::Create { item, parent_id } => assert_eq!((item.name.as_str(), parent_id), ("B", Some(7))),
        CategoryImportAction::Done => panic!("expected a creation"),
    }
}

#[test]
fn export_type_is_checked() {
    assert!(check_export_type("solvency-manage-export").is_ok());
    match check_export_type("other-export") {
        Err(AppError::Validation(m)) => {
            assert_eq!(m, "Invalid export file: expected type \"solvency-manage-export\"")
        }
        _ => panic!("expected a validation error"),
    }
}

#[test]
fn rule_targets_join_existing_and_file_names() {
    let names = category_target_names(&vec!["Food".to_string()], &vec![imported("Travel", None)]);
    assert_eq!(names, vec!["Food".to_string(), "Travel".to_string()]);
    let tags = tag_target_names(
        &Vec::new(),
        &vec![TagImport { name: "work".to_string(), color: "#fff".to_string(), style: TagStyle::Solid }],
    );
    assert_eq!(tags, vec!["work".to_string()]);
}

#[test]
fn preview_totals_count_ok_and_skipped() {
    let existing = vec!["Cash".to_string()];
    let accounts = preview_accounts(&existing, &vec![account("Cash", "cash"), account("Bank", "checking")]);
    let none = Vec::new();
    let t = preview_totals(&accounts, &none, &accounts);
    assert_eq!((t.category_ok, t.category_skip), (1, 1));
    assert_eq!((t.tag_ok, t.tag_skip), (0, 0));
    assert_eq!((t.rule_ok, t.rule_skip), (1, 1));
    assert_eq!(t.total_ok, 2);
}

#[test]
fn import_defaults() {
    assert_eq!(default_color(), "#6b7280");
    assert_eq!(default_icon(), "folder");
}

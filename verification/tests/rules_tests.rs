use solvency::ai_categorization::{
    batch_bounds, batch_error_message, decide_batch, request_params, AiResultStatus, Progress, ResultDecision,
    SuggestionKey, BATCH_SIZE, CategorizationRun, RunStep,
};
use solvency::models::RuleActionType;
use solvency::error::AppError;
use solvency::rules::{apply_rules, compile_rules, match_transactions, Rule};

fn rule(id: i64, pattern: &str, action_type: RuleActionType, value: &str) -> Rule {
    Rule {
        id,
        name: format!("rule {}", id),
        pattern: pattern.to_string(),
        action_type,
        action_value: value.to_string(),
    }
}

#[test]
fn rules_compile_only_when_usable() {
    let rules = vec![
        rule(1, "coffee|cafe", RuleActionType::AssignCategory, "3"),
        rule(2, "([", RuleActionType::AssignCategory, "4"),
        rule(3, "amazon", RuleActionType::AssignTag, "9"),
        rule(4, "rent", RuleActionType::AssignCategory, "three"),
        rule(5, "ebay", RuleActionType::AssignTag, "10"),
        rule(6, "bakery", RuleActionType::AssignCategory, "5"),
    ];
    let tags = vec![None, None, Some("online".to_string()), None, None, None];
    let compiled = compile_rules(&rules, &tags);
    assert_eq!(compiled.len(), 3);
    assert_eq!(compiled[0].category_id, Some(3));
    assert_eq!(compiled[1].tag_name.as_deref(), Some("online"));
    assert_eq!(compiled[2].category_id, Some(5));
}

#[test]
fn rules_apply_case_insensitively_first_category_wins() {
    let rules = vec![
        rule(1, "coffee|cafe", RuleActionType::AssignCategory, "3"),
        rule(2, "amazon", RuleActionType::AssignTag, "9"),
        rule(3, "central", RuleActionType::AssignCategory, "8"),
        rule(4, "amazon", RuleActionType::AssignTag, "9"),
    ];
    let tags = vec![None, Some("online".to_string()), None, Some("online".to_string())];
    let compiled = compile_rules(&rules, &tags);
    assert_eq!(apply_rules(&compiled, "CAFE Central", &Vec::new()), (Some(3), Vec::new()));
    assert_eq!(apply_rules(&compiled, "Bank Central", &Vec::new()), (Some(8), Vec::new()));
    assert_eq!(
        apply_rules(&compiled, "AMAZON marketplace", &Vec::new()),
        (None, vec!["online".to_string()])
    );
    assert_eq!(apply_rules(&compiled, "amazon", &vec!["online".to_string()]), (None, Vec::new()));
    assert_eq!(apply_rules(&compiled, "nothing", &Vec::new()), (None, Vec::new()));
}

#[test]
fn batch_decisions() {
    let suggestions = vec![
        SuggestionKey { transaction_id: 1, has_category: true },
        SuggestionKey { transaction_id: 3, has_category: false },
        SuggestionKey { transaction_id: 1, has_category: false },
    ];
    let d = decide_batch(&vec![1, 2, 3], &suggestions);
    assert_eq!(
        d,
        vec![
            ResultDecision { transaction_id: 1, suggestion: Some(0), status: AiResultStatus::Pending },
            ResultDecision { transaction_id: 2, suggestion: None, status: AiResultStatus::Skipped },
            ResultDecision { transaction_id: 3, suggestion: Some(1), status: AiResultStatus::Skipped },
        ]
    );
    let mut p = Progress::new();
    p.record_batch(&d);
    assert_eq!(p, Progress { processed: 3, categorized: 1, skipped: 2, errors: 0 });
    p.record_failed_batch(4);
    assert_eq!(p, Progress { processed: 7, categorized: 1, skipped: 2, errors: 4 });
}

#[test]
fn batches_and_messages() {
    assert_eq!(BATCH_SIZE, 5);
    assert_eq!(batch_bounds(12, BATCH_SIZE), vec![(0, 5), (5, 10), (10, 12)]);
    assert_eq!(batch_bounds(10, 5), vec![(0, 5), (5, 10)]);
    assert!(batch_bounds(0, 5).is_empty());
    assert_eq!(
        batch_error_message(Some(4), Some(8), "timeout"),
        "Batch error (transactions 4-8): timeout"
    );
    assert_eq!(batch_error_message(None, None, "x"), "Batch error (transactions 0-0): x");
    assert_eq!(request_params(5, "llama3"), "batch_size=5, model=llama3");
}

#[test]
fn rule_preview_matches_descriptions() {
    let ds = vec!["Coffee shop".to_string(), "Bakery".to_string(), "TEA house".to_string()];
    match match_transactions("coffee|tea", &ds) {
        Ok(v) => assert_eq!(v, vec![0, 2]),
        Err(_) => panic!("pattern should compile"),
    }
    match match_transactions("(", &ds) {
        Err(AppError::Validation(m)) => assert!(m.starts_with("Invalid regex pattern: regex parse error")),
        _ => panic!("expected a validation error"),
    }
}

#[test]
fn categorization_run_goes_batch_by_batch() {
    let mut run = CategorizationRun::start(vec![1, 2, 3, 4, 5, 6, 7]);
    assert_eq!(run.next_step(), RunStep::Request { start: 0, end: 5 });
    let suggestions = vec![
        SuggestionKey { transaction_id: 2, has_category: false },
        SuggestionKey { transaction_id: 1, has_category: true },
    ];
    let decisions = run.answered(&suggestions);
    let statuses: Vec<AiResultStatus> = decisions.iter().map(|d| d.status).collect();
    assert_eq!(
        statuses,
        vec![
            AiResultStatus::Pending,
            AiResultStatus::Skipped,
            AiResultStatus::Skipped,
            AiResultStatus::Skipped,
            AiResultStatus::Skipped,
        ]
    );
    assert_eq!(decisions[0].suggestion, Some(1));
    assert_eq!(decisions[2].suggestion, None);
    assert_eq!(run.progress, Progress { processed: 5, categorized: 1, skipped: 4, errors: 0 });
    assert_eq!(run.next_step(), RunStep::Request { start: 5, end: 7 });
    run.failed("timeout");
    assert_eq!(run.errors, vec!["Batch error (transactions 6-7): timeout".to_string()]);
    assert_eq!(run.progress, Progress { processed: 7, categorized: 1, skipped: 4, errors: 2 });
    assert_eq!(run.next_step(), RunStep::Finish);
}

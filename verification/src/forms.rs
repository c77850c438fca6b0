//! Form payloads and query parameters of the web pages, as plain data.

use vstd::prelude::*;

verus! {

/// The login form.
#[derive(Debug)]
pub struct LoginFormData {
    pub password: String,
}

/// The account form; `active` is "on" when the checkbox is ticked.
#[derive(Debug)]
pub struct AccountFormData {
    pub name: String,
    pub account_type: String,
    pub active: String,
}

impl AccountFormData {
    /// Whether the "active" checkbox was ticked.
    pub fn is_active(&self) -> (res: bool)
        ensures
            res == (self.active@ == "on"@),
    {
        self.active == String::from_str("on")
    }
}

/// Settings of the AI categorization provider.
#[derive(Debug)]
pub struct SettingsForm {
    pub provider: String,
    pub base_url: String,
    pub api_key: String,
    pub model: String,
}

/// Starts an AI categorization run.
#[derive(Debug)]
pub struct StartForm {
    pub include_categorized: bool,
}

/// A page number in a paginated list.
#[derive(Debug)]
pub struct PageQuery {
    pub page: Option<i64>,
}

/// Progress of a background job, polled by the page.
#[derive(Debug)]
pub struct StatusResponse {
    pub status: String,
    pub total_rows: i64,
    pub processed_rows: i64,
    pub error_count: i64,
    pub progress_percent: i64,
}

/// Date filter of the analytics page.
#[derive(Debug)]
pub struct AnalyticsFilterParams {
    pub from_date: Option<String>,
    pub to_date: Option<String>,
    pub preset: Option<String>,
}

/// Asks for API errors logged after an id.
#[derive(Debug)]
pub struct PollQuery {
    pub since_id: i64,
}

/// One failed API call, as shown in notifications.
#[derive(Debug)]
pub struct ApiLogSummary {
    pub id: i64,
    pub symbol: Option<String>,
    pub action: String,
    pub error_message: String,
}

/// API errors logged since the last poll.
#[derive(Debug)]
pub struct PollResponse {
    pub new_errors: Vec<ApiLogSummary>,
    pub latest_id: i64,
}

/// The category form.
#[derive(Debug)]
pub struct CategoryFormData {
    pub name: String,
    pub parent_id: Option<i64>,
    pub color: Option<String>,
    pub icon: Option<String>,
}

/// Opens the new-category form, optionally as a copy of another.
#[derive(Debug)]
pub struct NewFormQuery {
    pub clone_from: Option<i64>,
}

/// Sets the category of an imported row.
#[derive(Debug)]
pub struct CategoryForm {
    pub category_id: Option<i64>,
}

#[derive(Debug)]
pub struct NetWorthParams {
    pub tab: Option<String>,
}

#[derive(Debug)]
pub struct TopTransactionsParams {
    pub from_date: String,
    pub to_date: String,
}

#[derive(Debug)]
pub struct RetirementPageParams {
    pub id: Option<String>,
}

/// The rule form.
#[derive(Debug)]
pub struct RuleFormData {
    pub name: String,
    pub pattern: String,
    pub action_type: String,
    pub action_value: String,
}

#[derive(Debug)]
pub struct PreviewQuery {
    pub scope: Option<String>,
}

#[derive(Debug)]
pub struct ApplyFormData {
    pub scope: String,
}

/// The settings form.
#[derive(Debug)]
pub struct SettingsFormData {
    pub theme: String,
    pub currency: String,
    pub date_format: String,
    pub page_size: String,
    pub locale: String,
}

#[derive(Debug)]
pub struct ThemeFormData {
    pub theme: String,
}

#[derive(Debug)]
pub struct SpendingFilterParams {
    pub from_date: Option<String>,
    pub to_date: Option<String>,
    pub preset: Option<String>,
    pub tab: Option<String>,
}

#[derive(Debug)]
pub struct MonthlyTransactionsParams {
    pub month: String,
    pub category_ids: Option<String>,
}

/// The tag form.
#[derive(Debug)]
pub struct TagFormData {
    pub name: String,
    pub color: Option<String>,
    pub style: Option<String>,
}

#[derive(Debug)]
pub struct TagSearchParams {
    pub q: Option<String>,
}

#[derive(Debug)]
pub struct ManageQuery {
    pub tab: Option<String>,
}

} // verus!

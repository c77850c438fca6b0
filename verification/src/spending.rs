//! The month selected on the spending page.

use vstd::prelude::*;
use crate::calendar::{days_in_month, days_in_month_of, iso_string, iso_text, parse_date, parsed_date, push_year, year_text, Date};
use crate::date_utils::{base_range, in_years, month_name, month_name_exec, resolve_date_range, DateRange};
use crate::query::opt_text;
use crate::error::AppError;

verus! {

/// The query parameters of the spending page.
#[derive(Debug, Clone, Default)]
pub struct SpendingFilterParams {
    pub from_date: Option<String>,
    pub to_date: Option<String>,
    pub preset: Option<String>,
    pub tab: Option<String>,
}

impl SpendingFilterParams {
    /// The date range these parameters select on day `today`: the preset's
    /// when one is named (this month when it is unknown), else the given
    /// dates when both parse, else this month.
    pub fn resolve_date_range(&self, today: Date) -> (res: DateRange)
        requires
            in_years(today),
        ensures
            base_range(opt_text(self.preset), opt_text(self.from_date), opt_text(self.to_date), today, res),
    {
        resolve_date_range(self.preset.as_ref(), self.from_date.as_ref(), self.to_date.as_ref(), None, today)
    }
}

/// The first day of a month written `YYYY-MM` (read as `YYYY-MM-01`), or
/// as "Jan 2024" or "January 2024" (read as day 1 of that month, "1 Jan
/// 2024"), in that order of attempts.
pub open spec fn month_start_of(month: Seq<char>) -> Option<Date> {
    match parsed_date(month + "-01"@, "%Y-%m-%d"@) {
        Some(d) => Some(d),
        None => match parsed_date("1 "@ + month, "%d %b %Y"@) {
            Some(d) => Some(d),
            None => parsed_date("1 "@ + month, "%d %B %Y"@),
        },
    }
}

/// The last day of the month of `d`.
pub open spec fn month_end_of(d: Date) -> Date {
    Date { year: d.year, month: d.month, day: days_in_month(d.year as int, d.month as int) as u32 }
}

/// A month as `%B %Y` writes it ("January 2024").
pub open spec fn month_label(d: Date) -> Seq<char> {
    month_name(d.month as int) + " "@ + year_text(d.year as int)
}

/// The first and last day (`YYYY-MM-DD`) of the month that `month` names,
/// and its label; a validation error when it names none.
pub fn parse_month_range(month: &str) -> (res: Result<(String, String, String), AppError>)
    ensures
        match month_start_of(month@) {
            Some(d) => res matches Ok((a, b, c)) && a@ == iso_text(d) && b@ == iso_text(month_end_of(d)) && c@
                == month_label(d),
            None => res matches Err(AppError::Validation(m)) && m@ == "Invalid month format: "@ + month@,
        },
{
    let mut iso = String::from_str(month);
    iso.append("-01");
    let mut day_one = String::from_str("1 ");
    day_one.append(month);
    let first = match parse_date(iso.as_str(), "%Y-%m-%d") {
        Some(d) => d,
        None => match parse_date(day_one.as_str(), "%d %b %Y") {
            Some(d) => d,
            None => match parse_date(day_one.as_str(), "%d %B %Y") {
                Some(d) => d,
                None => {
                    let mut m = String::from_str("Invalid month format: ");
                    m.append(month);
                    return Err(AppError::Validation(m));
                },
            },
        },
    };
    let last = Date { year: first.year, month: first.month, day: days_in_month_of(first.year, first.month) };
    let mut label = String::from_str(month_name_exec(first.month));
    label.append(" ");
    push_year(&mut label, first.year);
    Ok((iso_string(first), iso_string(last), label))
}

} // verus!

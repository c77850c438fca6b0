//! Expense list parameters: filters and sorting.

use vstd::prelude::*;
use crate::date_utils::{base_range, in_years, navigated, resolve_date_range, DateRange};
use crate::calendar::Date;
use crate::query::{filter_query, filter_query_string, opt_text, sorted_query, sorted_query_string};
use crate::text::{lemma_texts_differ, lower_text, to_lowercase};

verus! {

/// Sortable columns for the expenses table.
#[derive(Debug, Clone, Copy, PartialEq, Eq, Structural)]
pub enum ExpenseSortColumn {
    Date,
    Description,
    Counterparty,
    Category,
    Amount,
}

/// The column named by `s`, in any letter case.
pub open spec fn expense_sort_column_named(s: Seq<char>) -> Option<ExpenseSortColumn> {
    let l = lower_text(s);
    if l == "date"@ {
        Some(ExpenseSortColumn::Date)
    } else if l == "description"@ {
        Some(ExpenseSortColumn::Description)
    } else if l == "counterparty"@ {
        Some(ExpenseSortColumn::Counterparty)
    } else if l == "category"@ {
        Some(ExpenseSortColumn::Category)
    } else if l == "amount"@ {
        Some(ExpenseSortColumn::Amount)
    } else {
        None
    }
}

impl ExpenseSortColumn {
    pub fn from_str(s: &str) -> (res: Option<ExpenseSortColumn>)
        ensures
            res == expense_sort_column_named(s@),
    {
        let l = to_lowercase(s);
        if l == String::from_str("date") {
            Some(ExpenseSortColumn::Date)
        } else if l == String::from_str("description") {
            Some(ExpenseSortColumn::Description)
        } else if l == String::from_str("counterparty") {
            Some(ExpenseSortColumn::Counterparty)
        } else if l == String::from_str("category") {
            Some(ExpenseSortColumn::Category)
        } else if l == String::from_str("amount") {
            Some(ExpenseSortColumn::Amount)
        } else {
            None
        }
    }

    pub open spec fn name_text(self) -> Seq<char> {
        match self {
            ExpenseSortColumn::Date => "date"@,
            ExpenseSortColumn::Description => "description"@,
            ExpenseSortColumn::Counterparty => "counterparty"@,
            ExpenseSortColumn::Category => "category"@,
            ExpenseSortColumn::Amount => "amount"@,
        }
    }

    pub fn as_str(&self) -> (res: &'static str)
        ensures
            res@ == self.name_text(),
    {
        match self {
            ExpenseSortColumn::Date => "date",
            ExpenseSortColumn::Description => "description",
            ExpenseSortColumn::Counterparty => "counterparty",
            ExpenseSortColumn::Category => "category",
            ExpenseSortColumn::Amount => "amount",
        }
    }

    pub open spec fn sql_text(self) -> Seq<char> {
        match self {
            ExpenseSortColumn::Date => "e.date"@,
            ExpenseSortColumn::Description => "e.description"@,
            ExpenseSortColumn::Counterparty => "e.payee"@,
            ExpenseSortColumn::Category => "c.name"@,
            ExpenseSortColumn::Amount => "e.amount_cents"@,
        }
    }

    /// The SQL expression the column sorts by.
    pub fn sql_expression(&self) -> (res: &'static str)
        ensures
            res@ == self.sql_text(),
    {
        match self {
            ExpenseSortColumn::Date => "e.date",
            ExpenseSortColumn::Description => "e.description",
            ExpenseSortColumn::Counterparty => "e.payee",
            ExpenseSortColumn::Category => "c.name",
            ExpenseSortColumn::Amount => "e.amount_cents",
        }
    }
}

/// Query parameters of the expenses list.
#[derive(Debug, Clone)]
pub struct ExpenseFilterParams {
    pub search: Option<String>,
    pub category_id: Option<i64>,
    pub tag_id: Option<i64>,
    pub from_date: Option<String>,
    pub to_date: Option<String>,
    pub page: Option<i64>,
    pub preset: Option<String>,
    /// "prev" or "next".
    pub nav: Option<String>,
    pub sort: Option<String>,
    pub dir: Option<String>,
}

impl ExpenseFilterParams {
    pub fn matches_category(&self, id: &i64) -> (res: bool)
        ensures
            res == (self.category_id == Some(*id)),
    {
        match self.category_id {
            Some(c) => c == *id,
            None => false,
        }
    }

    /// Filter query string (search, category_id, tag_id).
    pub fn base_query_string(&self) -> (res: String)
        ensures
            res@ == filter_query(opt_text(self.search), self.category_id, self.tag_id),
    {
        filter_query_string(&self.search, self.category_id, self.tag_id)
    }

    /// Full query string including sort parameters.
    pub fn full_query_string(&self) -> (res: String)
        ensures
            res@ == sorted_query(
                filter_query(opt_text(self.search), self.category_id, self.tag_id),
                opt_text(self.sort),
                opt_text(self.dir),
            ),
    {
        sorted_query_string(self.base_query_string(), &self.sort, &self.dir)
    }

    /// The date range these parameters select on day `today`.
    pub fn resolve_date_range(&self, today: Date) -> (res: DateRange)
        requires
            in_years(today),
        ensures
            exists|b: DateRange|
                base_range(opt_text(self.preset), opt_text(self.from_date), opt_text(self.to_date), today, b)
                    && navigated(opt_text(self.nav), b, today, res),
    {
        resolve_date_range(self.preset.as_ref(), self.from_date.as_ref(), self.to_date.as_ref(), self.nav.as_ref(), today)
    }
}

#[derive(Debug)]
pub struct ExpenseFormData {
    pub date: String,
    pub amount: String,
    pub currency: String,
    pub description: String,
    pub category_id: Option<i64>,
    pub notes: Option<String>,
    pub tag_ids: Vec<i64>,
}

/// `from_str` undoes `as_str`: every column's name reads back as that
/// column.
pub proof fn lemma_expense_column_roundtrip(c: ExpenseSortColumn)
    ensures
        expense_sort_column_named(c.name_text()) == Some(c),
{
    match c {
        ExpenseSortColumn::Date => {
            reveal_strlit("date");
            assert(lower_text("date"@) =~= "date"@);
        },
        ExpenseSortColumn::Description => {
            reveal_strlit("date");
            reveal_strlit("description");
            assert(lower_text("description"@) =~= "description"@);
            lemma_texts_differ("description"@, "date"@, 0);
        },
        ExpenseSortColumn::Counterparty => {
            reveal_strlit("date");
            reveal_strlit("description");
            reveal_strlit("counterparty");
            assert(lower_text("counterparty"@) =~= "counterparty"@);
            lemma_texts_differ("counterparty"@, "date"@, 0);
            lemma_texts_differ("counterparty"@, "description"@, 0);
        },
        ExpenseSortColumn::Category => {
            reveal_strlit("date");
            reveal_strlit("description");
            reveal_strlit("counterparty");
            reveal_strlit("category");
            assert(lower_text("category"@) =~= "category"@);
            lemma_texts_differ("category"@, "date"@, 0);
            lemma_texts_differ("category"@, "description"@, 0);
            lemma_texts_differ("category"@, "counterparty"@, 0);
        },
        ExpenseSortColumn::Amount => {
            reveal_strlit("date");
            reveal_strlit("description");
            reveal_strlit("counterparty");
            reveal_strlit("category");
            reveal_strlit("amount");
            assert(lower_text("amount"@) =~= "amount"@);
            lemma_texts_differ("amount"@, "date"@, 0);
            lemma_texts_differ("amount"@, "description"@, 0);
            lemma_texts_differ("amount"@, "counterparty"@, 0);
            lemma_texts_differ("amount"@, "category"@, 0);
        },
    }
}

} // verus!

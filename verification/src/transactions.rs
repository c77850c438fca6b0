//! Transaction list parameters: filters, sorting and bulk forms.

use vstd::prelude::*;
use crate::date_utils::{base_range, in_years, navigated, resolve_date_range, DateRange};
use crate::calendar::Date;
use crate::query::{filter_query, filter_query_string, opt_text, sorted_query, sorted_query_string};
use crate::text::{lemma_texts_differ, lower_text, to_lowercase};

verus! {

/// Sortable columns for the transactions table.
#[derive(Debug, Clone, Copy, PartialEq, Eq, Structural)]
pub enum TransactionSortColumn {
    Date,
    Description,
    Counterparty,
    Category,
    Amount,
}

/// The column named by `s`, in any letter case.
pub open spec fn sort_column_named(s: Seq<char>) -> Option<TransactionSortColumn> {
    let l = lower_text(s);
    if l == "date"@ {
        Some(TransactionSortColumn::Date)
    } else if l == "description"@ {
        Some(TransactionSortColumn::Description)
    } else if l == "counterparty"@ {
        Some(TransactionSortColumn::Counterparty)
    } else if l == "category"@ {
        Some(TransactionSortColumn::Category)
    } else if l == "amount"@ {
        Some(TransactionSortColumn::Amount)
    } else {
        None
    }
}

impl TransactionSortColumn {
    pub fn from_str(s: &str) -> (res: Option<TransactionSortColumn>)
        ensures
            res == sort_column_named(s@),
    {
        let l = to_lowercase(s);
        if l == String::from_str("date") {
            Some(TransactionSortColumn::Date)
        } else if l == String::from_str("description") {
            Some(TransactionSortColumn::Description)
        } else if l == String::from_str("counterparty") {
            Some(TransactionSortColumn::Counterparty)
        } else if l == String::from_str("category") {
            Some(TransactionSortColumn::Category)
        } else if l == String::from_str("amount") {
            Some(TransactionSortColumn::Amount)
        } else {
            None
        }
    }

    pub open spec fn name_text(self) -> Seq<char> {
        match self {
            TransactionSortColumn::Date => "date"@,
            TransactionSortColumn::Description => "description"@,
            TransactionSortColumn::Counterparty => "counterparty"@,
            TransactionSortColumn::Category => "category"@,
            TransactionSortColumn::Amount => "amount"@,
        }
    }

    pub fn as_str(&self) -> (res: &'static str)
        ensures
            res@ == self.name_text(),
    {
        match self {
            TransactionSortColumn::Date => "date",
            TransactionSortColumn::Description => "description",
            TransactionSortColumn::Counterparty => "counterparty",
            TransactionSortColumn::Category => "category",
            TransactionSortColumn::Amount => "amount",
        }
    }

    pub open spec fn sql_text(self) -> Seq<char> {
        match self {
            TransactionSortColumn::Date => "e.date"@,
            TransactionSortColumn::Description => "e.description"@,
            TransactionSortColumn::Counterparty => "e.payee"@,
            TransactionSortColumn::Category => "c.name"@,
            TransactionSortColumn::Amount => "e.amount_cents"@,
        }
    }

    /// The SQL expression the column sorts by.
    pub fn sql_expression(&self) -> (res: &'static str)
        ensures
            res@ == self.sql_text(),
    {
        match self {
            TransactionSortColumn::Date => "e.date",
            TransactionSortColumn::Description => "e.description",
            TransactionSortColumn::Counterparty => "e.payee",
            TransactionSortColumn::Category => "c.name",
            TransactionSortColumn::Amount => "e.amount_cents",
        }
    }
}

/// Query parameters of the transactions list.
#[derive(Debug, Clone)]
pub struct TransactionFilterParams {
    pub search: Option<String>,
    pub category_id: Option<i64>,
    pub tag_id: Option<i64>,
    pub from_date: Option<String>,
    pub to_date: Option<String>,
    pub page: Option<i64>,
    pub preset: Option<String>,
    /// "prev" or "next".
    pub nav: Option<String>,
    pub sort: Option<String>,
    pub dir: Option<String>,
}

impl TransactionFilterParams {
    /// Category id 0 stands for "no category".
    pub fn is_uncategorized(&self) -> (res: bool)
        ensures
            res == (self.category_id == Some(0i64)),
    {
        match self.category_id {
            Some(c) => c == 0,
            None => false,
        }
    }

    pub fn matches_category(&self, id: &i64) -> (res: bool)
        ensures
            res == (self.category_id == Some(*id)),
    {
        match self.category_id {
            Some(c) => c == *id,
            None => false,
        }
    }

    /// Filter query string (search, category_id, tag_id).
    pub fn base_query_string(&self) -> (res: String)
        ensures
            res@ == filter_query(opt_text(self.search), self.category_id, self.tag_id),
    {
        filter_query_string(&self.search, self.category_id, self.tag_id)
    }

    /// Full query string including sort parameters.
    pub fn full_query_string(&self) -> (res: String)
        ensures
            res@ == sorted_query(
                filter_query(opt_text(self.search), self.category_id, self.tag_id),
                opt_text(self.sort),
                opt_text(self.dir),
            ),
    {
        sorted_query_string(self.base_query_string(), &self.sort, &self.dir)
    }

    /// The date range's query followed by the filter query, to keep the
    /// page's state in sort links.
    pub fn preserve_query_string(&self, date_range: &DateRange) -> (res: String)
        requires
            date_range.from.valid(),
            date_range.to.valid(),
        ensures
            ({
                let base = filter_query(opt_text(self.search), self.category_id, self.tag_id);
                let qs = date_range_query(*date_range);
                res@ == if base.len() > 0 {
                    qs + "&"@ + base
                } else {
                    qs
                }
            }),
    {
        let mut qs = date_range.query_string();
        let base = self.base_query_string();
        if base.as_str().unicode_len() > 0 {
            qs.append("&");
            qs.append(base.as_str());
        }
        qs
    }

    /// The date range these parameters select on day `today`.
    pub fn resolve_date_range(&self, today: Date) -> (res: DateRange)
        requires
            in_years(today),
        ensures
            exists|b: DateRange|
                base_range(opt_text(self.preset), opt_text(self.from_date), opt_text(self.to_date), today, b)
                    && navigated(opt_text(self.nav), b, today, res),
    {
        resolve_date_range(self.preset.as_ref(), self.from_date.as_ref(), self.to_date.as_ref(), self.nav.as_ref(), today)
    }
}

/// What `DateRange::query_string` yields.
pub open spec fn date_range_query(r: DateRange) -> Seq<char> {
    "from_date="@ + crate::calendar::iso_text(r.from) + "&to_date="@ + crate::calendar::iso_text(r.to) + match r.preset {
        Some(p) => "&preset="@ + p.key_text(),
        None => Seq::<char>::empty(),
    }
}

#[derive(Debug)]
pub struct TransactionFormData {
    pub date: String,
    pub amount: String,
    pub currency: String,
    pub description: String,
    pub category_id: Option<i64>,
    pub account_id: Option<i64>,
    pub notes: Option<String>,
    pub tag_ids: Vec<i64>,
    pub value_date: Option<String>,
    pub payer: Option<String>,
    pub payee: Option<String>,
    pub reference: Option<String>,
    pub transaction_type: Option<String>,
    pub counterparty_iban: Option<String>,
    pub creditor_id: Option<String>,
    pub mandate_reference: Option<String>,
    pub customer_reference: Option<String>,
}

/// Set the category of all filtered transactions (0 clears it).
#[derive(Debug)]
pub struct BulkCategoryForm {
    pub set_category_id: Option<i64>,
    pub search: Option<String>,
    pub category_id: Option<i64>,
    pub tag_id: Option<i64>,
    pub from_date: Option<String>,
    pub to_date: Option<String>,
}

/// Add a tag to all filtered transactions.
#[derive(Debug)]
pub struct BulkTagForm {
    pub set_tag_id: Option<i64>,
    pub search: Option<String>,
    pub category_id: Option<i64>,
    pub tag_id: Option<i64>,
    pub from_date: Option<String>,
    pub to_date: Option<String>,
}

/// Set the account of all filtered transactions (0 clears it).
#[derive(Debug)]
pub struct BulkAccountForm {
    pub set_account_id: Option<i64>,
    pub search: Option<String>,
    pub category_id: Option<i64>,
    pub tag_id: Option<i64>,
    pub from_date: Option<String>,
    pub to_date: Option<String>,
}

/// An optional text field, trimmed; `None` when absent or blank.
pub fn non_empty(s: &Option<String>) -> (res: Option<String>)
    ensures
        match s {
            Some(v) => if crate::text::trim_ws(v@).len() > 0 {
                res matches Some(r) && r@ == crate::text::trim_ws(v@)
            } else {
                res is None
            },
            None => res is None,
        },
{
    match s {
        Some(v) => {
            let t = crate::text::trim_string(v.as_str());
            if t.unicode_len() > 0 {
                Some(t)
            } else {
                None
            }
        },
        None => None,
    }
}

/// `from_str` undoes `as_str`: every column's name reads back as that
/// column.
pub proof fn lemma_transaction_column_roundtrip(c: TransactionSortColumn)
    ensures
        sort_column_named(c.name_text()) == Some(c),
{
    match c {
        TransactionSortColumn::Date => {
            reveal_strlit("date");
            assert(lower_text("date"@) =~= "date"@);
        },
        TransactionSortColumn::Description => {
            reveal_strlit("date");
            reveal_strlit("description");
            assert(lower_text("description"@) =~= "description"@);
            lemma_texts_differ("description"@, "date"@, 0);
        },
        TransactionSortColumn::Counterparty => {
            reveal_strlit("date");
            reveal_strlit("description");
            reveal_strlit("counterparty");
            assert(lower_text("counterparty"@) =~= "counterparty"@);
            lemma_texts_differ("counterparty"@, "date"@, 0);
            lemma_texts_differ("counterparty"@, "description"@, 0);
        },
        TransactionSortColumn::Category => {
            reveal_strlit("date");
            reveal_strlit("description");
            reveal_strlit("counterparty");
            reveal_strlit("category");
            assert(lower_text("category"@) =~= "category"@);
            lemma_texts_differ("category"@, "date"@, 0);
            lemma_texts_differ("category"@, "description"@, 0);
            lemma_texts_differ("category"@, "counterparty"@, 0);
        },
        TransactionSortColumn::Amount => {
            reveal_strlit("date");
            reveal_strlit("description");
            reveal_strlit("counterparty");
            reveal_strlit("category");
            reveal_strlit("amount");
            assert(lower_text("amount"@) =~= "amount"@);
            lemma_texts_differ("amount"@, "date"@, 0);
            lemma_texts_differ("amount"@, "description"@, 0);
            lemma_texts_differ("amount"@, "counterparty"@, 0);
            lemma_texts_differ("amount"@, "category"@, 0);
        },
    }
}

} // verus!

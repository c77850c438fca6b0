//! Filters of the list queries and the SQL conditions they become.

use vstd::prelude::*;
use crate::models::TradingActivityType;

verus! {

/// Filter of the transaction list.
#[derive(Debug, Clone)]
pub struct TransactionFilter {
    pub search: Option<String>,
    pub category_id: Option<i64>,
    /// Several category ids (OR); takes precedence over `category_id`
    /// when not empty.
    pub category_ids: Vec<i64>,
    pub tag_id: Option<i64>,
    pub from_date: Option<String>,
    pub to_date: Option<String>,
    pub limit: Option<i64>,
    pub offset: Option<i64>,
    /// SQL ORDER BY expression.
    pub sort_sql: Option<String>,
    /// Only transactions without a category.
    pub uncategorized_only: bool,
}

/// Filter of the expense list.
#[derive(Debug, Clone)]
pub struct ExpenseFilter {
    pub search: Option<String>,
    pub category_id: Option<i64>,
    pub tag_id: Option<i64>,
    pub from_date: Option<String>,
    pub to_date: Option<String>,
    pub limit: Option<i64>,
    pub offset: Option<i64>,
    pub sort_sql: Option<String>,
}

/// Filter of the trading activity list.
#[derive(Debug, Clone)]
pub struct TradingActivityFilter {
    pub symbol: Option<String>,
    pub activity_type: Option<TradingActivityType>,
    pub from_date: Option<String>,
    pub to_date: Option<String>,
    pub limit: Option<i64>,
    pub offset: Option<i64>,
    pub sort_sql: Option<String>,
}

/// Transactions summed per category.
#[derive(Debug, Clone)]
pub struct CategorySum {
    pub category_id: Option<i64>,
    pub category_name: String,
    pub category_color: String,
    pub total_cents: i64,
    pub count: i64,
}

/// Transactions summed per month (`YYYY-MM`).
#[derive(Debug, Clone)]
pub struct MonthSum {
    pub month: String,
    pub total_cents: i64,
    pub count: i64,
}

/// Sums per category id, with the dates of the first and last transaction.
#[derive(Debug, Clone)]
pub struct CategoryIdSumsWithDates {
    pub sums: Vec<(Option<i64>, i64)>,
    pub min_date: Option<String>,
    pub max_date: Option<String>,
}

/// A value bound to a `?` of an SQL statement.
#[derive(Debug, Clone)]
pub enum SqlParam {
    Text(String),
    Int(i64),
}

/// A bound value, strings as character sequences.
pub enum SqlValue {
    Text(Seq<char>),
    Int(i64),
}

impl View for SqlParam {
    type V = SqlValue;

    open spec fn view(&self) -> SqlValue {
        match self {
            SqlParam::Text(s) => SqlValue::Text(s@),
            SqlParam::Int(i) => SqlValue::Int(*i),
        }
    }
}

pub open spec fn params_view(v: Seq<SqlParam>) -> Seq<SqlValue> {
    v.map_values(|p: SqlParam| p@)
}

/// `n` question marks separated by commas.
pub open spec fn placeholders(n: nat) -> Seq<char>
    decreases n,
{
    if n == 0 {
        seq![]
    } else if n == 1 {
        "?"@
    } else {
        placeholders((n - 1) as nat) + ",?"@
    }
}

pub open spec fn opt_cond(b: bool, s: Seq<char>) -> Seq<char> {
    if b {
        s
    } else {
        seq![]
    }
}

/// The conditions (each starting with " AND ") for a transaction filter.
pub open spec fn filter_sql(f: TransactionFilter) -> Seq<char> {
    opt_cond(f.search is Some, " AND e.description LIKE ?"@) + (if f.category_ids@.len() > 0 {
        " AND e.category_id IN ("@ + placeholders(f.category_ids@.len()) + ")"@
    } else {
        opt_cond(f.category_id is Some, " AND e.category_id = ?"@)
    }) + opt_cond(f.from_date is Some, " AND e.date >= ?"@) + opt_cond(f.to_date is Some, " AND e.date <= ?"@)
        + opt_cond(
        f.tag_id is Some,
        " AND EXISTS(SELECT 1 FROM transaction_tags et WHERE et.transaction_id = e.id AND et.tag_id = ?)"@,
    ) + opt_cond(f.uncategorized_only, " AND e.category_id IS NULL"@)
}

/// The values bound to the conditions' placeholders, in order.
pub open spec fn filter_params(f: TransactionFilter) -> Seq<SqlValue> {
    (match f.search {
        Some(s) => seq![SqlValue::Text("%"@ + s@ + "%"@)],
        None => seq![],
    }) + (if f.category_ids@.len() > 0 {
        f.category_ids@.map_values(|i: i64| SqlValue::Int(i))
    } else {
        match f.category_id {
            Some(c) => seq![SqlValue::Int(c)],
            None => seq![],
        }
    }) + (match f.from_date {
        Some(d) => seq![SqlValue::Text(d@)],
        None => seq![],
    }) + (match f.to_date {
        Some(d) => seq![SqlValue::Text(d@)],
        None => seq![],
    }) + (match f.tag_id {
        Some(t) => seq![SqlValue::Int(t)],
        None => seq![],
    })
}

fn text_param(v: &Option<String>) -> (res: Vec<SqlParam>)
    ensures
        params_view(res@) == (match *v {
            Some(d) => seq![SqlValue::Text(d@)],
            None => Seq::<SqlValue>::empty(),
        }),
{
    let mut out: Vec<SqlParam> = Vec::new();
    if let Some(d) = v {
        out.push(SqlParam::Text(d.clone()));
    }
    assert(params_view(out@) =~= (match *v {
        Some(d) => seq![SqlValue::Text(d@)],
        None => Seq::<SqlValue>::empty(),
    }));
    out
}

fn int_param(v: Option<i64>) -> (res: Vec<SqlParam>)
    ensures
        params_view(res@) == (match v {
            Some(t) => seq![SqlValue::Int(t)],
            None => Seq::<SqlValue>::empty(),
        }),
{
    let mut out: Vec<SqlParam> = Vec::new();
    if let Some(t) = v {
        out.push(SqlParam::Int(t));
    }
    assert(params_view(out@) =~= (match v {
        Some(t) => seq![SqlValue::Int(t)],
        None => Seq::<SqlValue>::empty(),
    }));
    out
}

fn search_param(v: &Option<String>) -> (res: Vec<SqlParam>)
    ensures
        params_view(res@) == (match *v {
            Some(s) => seq![SqlValue::Text("%"@ + s@ + "%"@)],
            None => Seq::<SqlValue>::empty(),
        }),
{
    let mut out: Vec<SqlParam> = Vec::new();
    if let Some(search) = v {
        let mut pat = String::from_str("%");
        pat.append(search.as_str());
        pat.append("%");
        out.push(SqlParam::Text(pat));
    }
    assert(params_view(out@) =~= (match *v {
        Some(s) => seq![SqlValue::Text("%"@ + s@ + "%"@)],
        None => Seq::<SqlValue>::empty(),
    }));
    out
}

fn category_clause(filter: &TransactionFilter) -> (res: (String, Vec<SqlParam>))
    ensures
        res.0@ == (if filter.category_ids@.len() > 0 {
            " AND e.category_id IN ("@ + placeholders(filter.category_ids@.len()) + ")"@
        } else {
            opt_cond(filter.category_id is Some, " AND e.category_id = ?"@)
        }),
        params_view(res.1@) == (if filter.category_ids@.len() > 0 {
            filter.category_ids@.map_values(|i: i64| SqlValue::Int(i))
        } else {
            match filter.category_id {
                Some(c) => seq![SqlValue::Int(c)],
                None => seq![],
            }
        }),
{
    let mut sql = String::new();
    let mut params: Vec<SqlParam> = Vec::new();
    if filter.category_ids.len() > 0 {
        sql.append(" AND e.category_id IN (");
        let ghost s1 = sql@;
        let mut i: usize = 0;
        while i < filter.category_ids.len()
            invariant
                i <= filter.category_ids@.len(),
                filter.category_ids@.len() > 0,
                sql@ == s1 + placeholders(i as nat),
                params_view(params@) == filter.category_ids@.take(i as int).map_values(|v: i64| SqlValue::Int(v)),
            decreases filter.category_ids@.len() - i,
        {
            if i > 0 {
                sql.append(",?");
            } else {
                sql.append("?");
            }
            let ghost before = params_view(params@);
            params.push(SqlParam::Int(filter.category_ids[i]));
            assert(params_view(params@) =~= before.push(SqlValue::Int(filter.category_ids@[i as int])));
            assert(filter.category_ids@.take(i + 1).map_values(|v: i64| SqlValue::Int(v)) =~= filter.category_ids@.take(
                i as int,
            ).map_values(|v: i64| SqlValue::Int(v)).push(SqlValue::Int(filter.category_ids@[i as int])));
            i += 1;
        }
        assert(filter.category_ids@.take(i as int) =~= filter.category_ids@);
        sql.append(")");
    } else {
        if let Some(c) = filter.category_id {
            sql.append(" AND e.category_id = ?");
        }
        params = int_param(filter.category_id);
    }
    (sql, params)
}

fn cond(sql: &mut String, b: bool, text: &str)
    ensures
        final(sql)@ == old(sql)@ + opt_cond(b, text@),
{
    if b {
        sql.append(text);
    } else {
        assert(old(sql)@ + opt_cond(b, text@) =~= old(sql)@);
    }
}

/// The WHERE conditions of a transaction filter (to follow "WHERE 1=1")
/// and the values of their placeholders.
pub fn build_filter_where(filter: &TransactionFilter) -> (res: (String, Vec<SqlParam>))
    ensures
        res.0@ == filter_sql(*filter),
        params_view(res.1@) == filter_params(*filter),
{
    let mut sql = String::new();
    cond(&mut sql, filter.search.is_some(), " AND e.description LIKE ?");
    let (csql, cparams) = category_clause(filter);
    sql.append(csql.as_str());
    cond(&mut sql, filter.from_date.is_some(), " AND e.date >= ?");
    cond(&mut sql, filter.to_date.is_some(), " AND e.date <= ?");
    cond(
        &mut sql,
        filter.tag_id.is_some(),
        " AND EXISTS(SELECT 1 FROM transaction_tags et WHERE et.transaction_id = e.id AND et.tag_id = ?)",
    );
    cond(&mut sql, filter.uncategorized_only, " AND e.category_id IS NULL");
    assert(sql@ =~= filter_sql(*filter));
    let mut params = search_param(&filter.search);
    let ghost a = params_view(params@);
    let mut c2 = cparams;
    let ghost b = params_view(c2@);
    params.append(&mut c2);
    assert(params_view(params@) =~= a + b);
    let mut c3 = text_param(&filter.from_date);
    let ghost c = params_view(c3@);
    params.append(&mut c3);
    assert(params_view(params@) =~= a + b + c);
    let mut c4 = text_param(&filter.to_date);
    let ghost d = params_view(c4@);
    params.append(&mut c4);
    assert(params_view(params@) =~= a + b + c + d);
    let mut c5 = int_param(filter.tag_id);
    let ghost e = params_view(c5@);
    params.append(&mut c5);
    assert(params_view(params@) =~= a + b + c + d + e);
    (sql, params)
}

/// The transaction filter of a bulk action: category id 0 selects the
/// transactions without a category.
pub open spec fn bulk_filter_ok(
    search: Option<String>,
    category_id: Option<i64>,
    tag_id: Option<i64>,
    from_date: Option<String>,
    to_date: Option<String>,
    f: TransactionFilter,
) -> bool {
    &&& f.search == search
    &&& f.uncategorized_only == (category_id == Some(0i64))
    &&& f.category_id == (if category_id == Some(0i64) { None } else { category_id })
    &&& f.category_ids@.len() == 0
    &&& f.tag_id == tag_id
    &&& f.from_date == from_date
    &&& f.to_date == to_date
    &&& f.limit is None
    &&& f.offset is None
    &&& f.sort_sql is None
}

fn clone_opt(s: &Option<String>) -> (res: Option<String>)
    ensures
        res == *s,
{
    match s {
        Some(v) => Some(v.clone()),
        None => None,
    }
}

pub fn build_bulk_filter(
    search: &Option<String>,
    category_id: Option<i64>,
    tag_id: Option<i64>,
    from_date: &Option<String>,
    to_date: &Option<String>,
) -> (res: TransactionFilter)
    ensures
        bulk_filter_ok(*search, category_id, tag_id, *from_date, *to_date, res),
{
    let uncategorized_only = match category_id {
        Some(c) => c == 0,
        None => false,
    };
    TransactionFilter {
        search: clone_opt(search),
        category_id: if uncategorized_only {
            None
        } else {
            category_id
        },
        category_ids: Vec::new(),
        tag_id,
        from_date: clone_opt(from_date),
        to_date: clone_opt(to_date),
        limit: None,
        offset: None,
        sort_sql: None,
        uncategorized_only,
    }
}

} // verus!

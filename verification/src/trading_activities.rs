//! Trading activity list parameters.

use vstd::prelude::*;
use crate::models::TradingActivityType;
use crate::query::{encoded_part, joined, opt_text, push_encoded_part, push_raw_part, raw_nonempty_part, views, join_amp};

verus! {

#[derive(Debug, Clone)]
pub struct TradingActivityFilterParams {
    pub symbol: Option<String>,
    pub activity_type: Option<String>,
    pub from_date: Option<String>,
    pub to_date: Option<String>,
    pub page: Option<i64>,
}

impl TradingActivityFilterParams {
    pub fn matches_symbol(&self, sym: &str) -> (res: bool)
        ensures
            res == (opt_text(self.symbol) == Some(sym@)),
    {
        match &self.symbol {
            Some(s) => *s == sym.to_owned(),
            None => false,
        }
    }

    pub fn matches_activity_type(&self, at: &TradingActivityType) -> (res: bool)
        ensures
            res == (opt_text(self.activity_type) == Some(at.name_text())),
    {
        match &self.activity_type {
            Some(s) => *s == at.as_str().to_owned(),
            None => false,
        }
    }

    /// Query string of the filters: symbol (encoded), activity type and
    /// dates, each when present and not empty.
    pub fn base_query_string(&self) -> (res: String)
        ensures
            res@ == joined(
                encoded_part("symbol"@, opt_text(self.symbol)) + raw_nonempty_part(
                    "activity_type"@,
                    opt_text(self.activity_type),
                ) + raw_nonempty_part("from_date"@, opt_text(self.from_date)) + raw_nonempty_part(
                    "to_date"@,
                    opt_text(self.to_date),
                ),
            ),
    {
        let mut parts: Vec<String> = Vec::new();
        assert(views(parts@) =~= Seq::<Seq<char>>::empty());
        push_encoded_part(&mut parts, "symbol", &self.symbol);
        push_raw_part(&mut parts, "activity_type", &self.activity_type, true);
        push_raw_part(&mut parts, "from_date", &self.from_date, true);
        push_raw_part(&mut parts, "to_date", &self.to_date, true);
        assert(views(parts@) =~= encoded_part("symbol"@, opt_text(self.symbol)) + raw_nonempty_part(
            "activity_type"@,
            opt_text(self.activity_type),
        ) + raw_nonempty_part("from_date"@, opt_text(self.from_date)) + raw_nonempty_part(
            "to_date"@,
            opt_text(self.to_date),
        ));
        join_amp(&parts)
    }
}

#[derive(Debug)]
pub struct TradingActivityFormData {
    pub date: String,
    pub symbol: String,
    pub quantity: Option<String>,
    pub activity_type: String,
    pub unit_price: Option<String>,
    pub currency: String,
    pub fee: Option<String>,
    pub notes: Option<String>,
}

} // verus!

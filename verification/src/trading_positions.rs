//! Trading positions: sortable columns and symbol information.

use vstd::prelude::*;
use crate::sorting::{payloads, sort_by_key, sort_by_text, stable_sorted, text_keyed, text_sorted};
use crate::text::{lemma_texts_differ, lower_text, to_lowercase};

verus! {

/// Sortable columns for the positions table.
#[derive(Debug, Clone, Copy, PartialEq, Eq, Structural)]
pub enum PositionSortColumn {
    Symbol,
    Quantity,
    Price,
    AvgCost,
    TotalCost,
    Value,
    GainLoss,
}

impl PositionSortColumn {
    pub open spec fn name_text(self) -> Seq<char> {
        match self {
            PositionSortColumn::Symbol => "symbol"@,
            PositionSortColumn::Quantity => "quantity"@,
            PositionSortColumn::Price => "price"@,
            PositionSortColumn::AvgCost => "avgcost"@,
            PositionSortColumn::TotalCost => "totalcost"@,
            PositionSortColumn::Value => "value"@,
            PositionSortColumn::GainLoss => "gainloss"@,
        }
    }

    /// The column named by `s`, in any letter case.
    pub open spec fn named(s: Seq<char>) -> Option<PositionSortColumn> {
        let l = lower_text(s);
        if l == "symbol"@ {
            Some(PositionSortColumn::Symbol)
        } else if l == "quantity"@ {
            Some(PositionSortColumn::Quantity)
        } else if l == "price"@ {
            Some(PositionSortColumn::Price)
        } else if l == "avgcost"@ {
            Some(PositionSortColumn::AvgCost)
        } else if l == "totalcost"@ {
            Some(PositionSortColumn::TotalCost)
        } else if l == "value"@ {
            Some(PositionSortColumn::Value)
        } else if l == "gainloss"@ {
            Some(PositionSortColumn::GainLoss)
        } else {
            None
        }
    }

    pub fn from_str(s: &str) -> (res: Option<PositionSortColumn>)
        ensures
            res == Self::named(s@),
    {
        let l = to_lowercase(s);
        if l == String::from_str("symbol") {
            Some(PositionSortColumn::Symbol)
        } else if l == String::from_str("quantity") {
            Some(PositionSortColumn::Quantity)
        } else if l == String::from_str("price") {
            Some(PositionSortColumn::Price)
        } else if l == String::from_str("avgcost") {
            Some(PositionSortColumn::AvgCost)
        } else if l == String::from_str("totalcost") {
            Some(PositionSortColumn::TotalCost)
        } else if l == String::from_str("value") {
            Some(PositionSortColumn::Value)
        } else if l == String::from_str("gainloss") {
            Some(PositionSortColumn::GainLoss)
        } else {
            None
        }
    }

    pub fn as_str(&self) -> (res: &'static str)
        ensures
            res@ == self.name_text(),
    {
        match self {
            PositionSortColumn::Symbol => "symbol",
            PositionSortColumn::Quantity => "quantity",
            PositionSortColumn::Price => "price",
            PositionSortColumn::AvgCost => "avgcost",
            PositionSortColumn::TotalCost => "totalcost",
            PositionSortColumn::Value => "value",
            PositionSortColumn::GainLoss => "gainloss",
        }
    }
}

/// Sortable columns for the closed positions table.
#[derive(Debug, Clone, Copy, PartialEq, Eq, Structural)]
pub enum ClosedPositionSortColumn {
    Symbol,
    TotalCost,
    Proceeds,
    GainLoss,
    Period,
}

impl ClosedPositionSortColumn {
    pub open spec fn name_text(self) -> Seq<char> {
        match self {
            ClosedPositionSortColumn::Symbol => "symbol"@,
            ClosedPositionSortColumn::TotalCost => "totalcost"@,
            ClosedPositionSortColumn::Proceeds => "proceeds"@,
            ClosedPositionSortColumn::GainLoss => "gainloss"@,
            ClosedPositionSortColumn::Period => "period"@,
        }
    }

    /// The column named by `s`, in any letter case.
    pub open spec fn named(s: Seq<char>) -> Option<ClosedPositionSortColumn> {
        let l = lower_text(s);
        if l == "symbol"@ {
            Some(ClosedPositionSortColumn::Symbol)
        } else if l == "totalcost"@ {
            Some(ClosedPositionSortColumn::TotalCost)
        } else if l == "proceeds"@ {
            Some(ClosedPositionSortColumn::Proceeds)
        } else if l == "gainloss"@ {
            Some(ClosedPositionSortColumn::GainLoss)
        } else if l == "period"@ {
            Some(ClosedPositionSortColumn::Period)
        } else {
            None
        }
    }

    pub fn from_str(s: &str) -> (res: Option<ClosedPositionSortColumn>)
        ensures
            res == Self::named(s@),
    {
        let l = to_lowercase(s);
        if l == String::from_str("symbol") {
            Some(ClosedPositionSortColumn::Symbol)
        } else if l == String::from_str("totalcost") {
            Some(ClosedPositionSortColumn::TotalCost)
        } else if l == String::from_str("proceeds") {
            Some(ClosedPositionSortColumn::Proceeds)
        } else if l == String::from_str("gainloss") {
            Some(ClosedPositionSortColumn::GainLoss)
        } else if l == String::from_str("period") {
            Some(ClosedPositionSortColumn::Period)
        } else {
            None
        }
    }

    pub fn as_str(&self) -> (res: &'static str)
        ensures
            res@ == self.name_text(),
    {
        match self {
            ClosedPositionSortColumn::Symbol => "symbol",
            ClosedPositionSortColumn::TotalCost => "totalcost",
            ClosedPositionSortColumn::Proceeds => "proceeds",
            ClosedPositionSortColumn::GainLoss => "gainloss",
            ClosedPositionSortColumn::Period => "period",
        }
    }
}

#[derive(Debug, Clone)]
pub struct PositionFilterParams {
    pub sort: Option<String>,
    pub dir: Option<String>,
}

/// Names and listing of a traded symbol.
#[derive(Debug, Clone)]
pub struct SymbolInfo {
    pub short_name: Option<String>,
    pub long_name: Option<String>,
    pub exchange: Option<String>,
    pub quote_type: Option<String>,
}

impl SymbolInfo {
    /// The long name, else the short name.
    pub fn display_name(&self) -> (res: Option<&String>)
        ensures
            res == (match self.long_name {
                Some(l) => Some(&l),
                None => match self.short_name {
                    Some(s) => Some(&s),
                    None => None,
                },
            }),
    {
        match &self.long_name {
            Some(l) => Some(l),
            None => match &self.short_name {
                Some(s) => Some(s),
                None => None,
            },
        }
    }
}

/// Text color class for a gain (green), a loss (red) or neither.
pub open spec fn gain_loss_class(cents: i64) -> Seq<char> {
    if cents > 0 {
        "text-green-600 dark:text-green-400"@
    } else if cents < 0 {
        "text-red-600 dark:text-red-400"@
    } else {
        "text-neutral-600 dark:text-neutral-400"@
    }
}

pub fn gain_loss_color(cents: i64) -> (res: &'static str)
    ensures
        res@ == gain_loss_class(cents),
{
    if cents > 0 {
        "text-green-600 dark:text-green-400"
    } else if cents < 0 {
        "text-red-600 dark:text-red-400"
    } else {
        "text-neutral-600 dark:text-neutral-400"
    }
}

/// A position that was sold off entirely.
#[derive(Debug, Clone)]
pub struct ClosedPosition {
    pub symbol: String,
    pub total_cost_cents: i64,
    pub total_proceeds_cents: i64,
    /// Proceeds less cost, plus dividends, less fees and taxes.
    pub realized_gain_loss_cents: i64,
    pub currency: String,
    pub first_activity_date: String,
    pub last_activity_date: String,
}

/// The closed positions ordered stably by a column (ascending, or
/// descending when `desc`): texts in text order, amounts by value.
pub open spec fn closed_sorted(ps: Seq<ClosedPosition>, col: ClosedPositionSortColumn, desc: bool) -> Seq<ClosedPosition> {
    match col {
        ClosedPositionSortColumn::Symbol => text_sorted(ps.map_values(|p: ClosedPosition| (p.symbol@, p)), desc).map_values(
            |q: (Seq<char>, ClosedPosition)| q.1,
        ),
        ClosedPositionSortColumn::Period => text_sorted(
            ps.map_values(|p: ClosedPosition| (p.first_activity_date@, p)),
            desc,
        ).map_values(|q: (Seq<char>, ClosedPosition)| q.1),
        ClosedPositionSortColumn::TotalCost => stable_sorted(ps.map_values(|p: ClosedPosition| (p.total_cost_cents, p)), desc).map_values(
            |q: (i64, ClosedPosition)| q.1,
        ),
        ClosedPositionSortColumn::Proceeds => stable_sorted(
            ps.map_values(|p: ClosedPosition| (p.total_proceeds_cents, p)),
            desc,
        ).map_values(|q: (i64, ClosedPosition)| q.1),
        ClosedPositionSortColumn::GainLoss => stable_sorted(
            ps.map_values(|p: ClosedPosition| (p.realized_gain_loss_cents, p)),
            desc,
        ).map_values(|q: (i64, ClosedPosition)| q.1),
    }
}

/// Orders closed positions by a column (see `closed_sorted`).
pub fn sort_closed_positions(positions: Vec<ClosedPosition>, column: ClosedPositionSortColumn, desc: bool) -> (res: Vec<
    ClosedPosition,
>)
    ensures
        res@ == closed_sorted(positions@, column, desc),
{
    let ghost pv = positions@;
    let n = positions.len();
    let mut rest = positions;
    let mut rev: Vec<ClosedPosition> = Vec::new();
    while rest.len() > 0
        invariant
            rest@ == pv.take(rest@.len() as int),
            rest@.len() <= pv.len(),
            rev@.len() == pv.len() - rest@.len(),
            forall|t: int| 0 <= t < rev@.len() ==> #[trigger] rev@[t] == pv[pv.len() - 1 - t],
        decreases rest@.len(),
    {
        let ghost k = rest@.len();
        let p = rest.pop().unwrap();
        assert(rest@ =~= pv.take(k - 1));
        rev.push(p);
    }
    match column {
        ClosedPositionSortColumn::Symbol | ClosedPositionSortColumn::Period => {
            let by_symbol = match column {
                ClosedPositionSortColumn::Symbol => true,
                _ => false,
            };
            let ghost f = |p: ClosedPosition| (if by_symbol { p.symbol@ } else { p.first_activity_date@ }, p);
            let mut keyed: Vec<(String, ClosedPosition)> = Vec::new();
            while rev.len() > 0
                invariant
                    rev@.len() + keyed@.len() == pv.len(),
                    f == (|p: ClosedPosition| (if by_symbol { p.symbol@ } else { p.first_activity_date@ }, p)),
                    forall|t: int| 0 <= t < rev@.len() ==> #[trigger] rev@[t] == pv[pv.len() - 1 - t],
                    forall|t: int| 0 <= t < keyed@.len() ==> (#[trigger] keyed@[t]).1 == pv[t] && keyed@[t].0@ == f(pv[t]).0,
                decreases rev@.len(),
            {
                let p = rev.pop().unwrap();
                let key = if by_symbol {
                    p.symbol.clone()
                } else {
                    p.first_activity_date.clone()
                };
                keyed.push((key, p));
            }
            assert(text_keyed(keyed@) =~= pv.map_values(f));
            let sorted = sort_by_text(keyed, desc);
            let ghost sv = sorted@;
            let out = payloads(sorted);
            proof {
                assert(text_keyed(sv).map_values(|q: (Seq<char>, ClosedPosition)| q.1) =~= sv.map_values(
                    |q: (String, ClosedPosition)| q.1,
                ));
                if by_symbol {
                    assert(pv.map_values(f) =~= pv.map_values(|p: ClosedPosition| (p.symbol@, p)));
                } else {
                    assert(pv.map_values(f) =~= pv.map_values(|p: ClosedPosition| (p.first_activity_date@, p)));
                }
            }
            out
        },
        _ => {
            let ghost g = |p: ClosedPosition|
                match column {
                    ClosedPositionSortColumn::TotalCost => p.total_cost_cents,
                    ClosedPositionSortColumn::Proceeds => p.total_proceeds_cents,
                    _ => p.realized_gain_loss_cents,
                };
            let mut keyed: Vec<(i64, ClosedPosition)> = Vec::new();
            while rev.len() > 0
                invariant
                    rev@.len() + keyed@.len() == pv.len(),
                    g == (|p: ClosedPosition|
                        match column {
                            ClosedPositionSortColumn::TotalCost => p.total_cost_cents,
                            ClosedPositionSortColumn::Proceeds => p.total_proceeds_cents,
                            _ => p.realized_gain_loss_cents,
                        }),
                    forall|t: int| 0 <= t < rev@.len() ==> #[trigger] rev@[t] == pv[pv.len() - 1 - t],
                    forall|t: int| 0 <= t < keyed@.len() ==> #[trigger] keyed@[t] == (g(pv[t]), pv[t]),
                decreases rev@.len(),
            {
                let p = rev.pop().unwrap();
                let key = match column {
                    ClosedPositionSortColumn::TotalCost => p.total_cost_cents,
                    ClosedPositionSortColumn::Proceeds => p.total_proceeds_cents,
                    _ => p.realized_gain_loss_cents,
                };
                keyed.push((key, p));
            }
            assert(keyed@ =~= pv.map_values(|p: ClosedPosition| (g(p), p)));
            let sorted = sort_by_key(keyed, desc);
            let out = payloads(sorted);
            proof {
                match column {
                    ClosedPositionSortColumn::TotalCost => {
                        assert(pv.map_values(|p: ClosedPosition| (g(p), p)) =~= pv.map_values(
                            |p: ClosedPosition| (p.total_cost_cents, p),
                        ));
                    },
                    ClosedPositionSortColumn::Proceeds => {
                        assert(pv.map_values(|p: ClosedPosition| (g(p), p)) =~= pv.map_values(
                            |p: ClosedPosition| (p.total_proceeds_cents, p),
                        ));
                    },
                    _ => {
                        assert(pv.map_values(|p: ClosedPosition| (g(p), p)) =~= pv.map_values(
                            |p: ClosedPosition| (p.realized_gain_loss_cents, p),
                        ));
                    },
                }
            }
            out
        },
    }
}

/// `from_str` undoes `as_str`: every column's name reads back as that
/// column, so no two columns share a name.
pub proof fn lemma_position_column_roundtrip(c: PositionSortColumn)
    ensures
        PositionSortColumn::named(c.name_text()) == Some(c),
{
    match c {
        PositionSortColumn::Symbol => {
            reveal_strlit("symbol");
            assert(lower_text("symbol"@) =~= "symbol"@);
        },
        PositionSortColumn::Quantity => {
            reveal_strlit("symbol");
            reveal_strlit("quantity");
            assert(lower_text("quantity"@) =~= "quantity"@);
            lemma_texts_differ("quantity"@, "symbol"@, 0);
        },
        PositionSortColumn::Price => {
            reveal_strlit("symbol");
            reveal_strlit("quantity");
            reveal_strlit("price");
            assert(lower_text("price"@) =~= "price"@);
            lemma_texts_differ("price"@, "symbol"@, 0);
            lemma_texts_differ("price"@, "quantity"@, 0);
        },
        PositionSortColumn::AvgCost => {
            reveal_strlit("symbol");
            reveal_strlit("quantity");
            reveal_strlit("price");
            reveal_strlit("avgcost");
            assert(lower_text("avgcost"@) =~= "avgcost"@);
            lemma_texts_differ("avgcost"@, "symbol"@, 0);
            lemma_texts_differ("avgcost"@, "quantity"@, 0);
            lemma_texts_differ("avgcost"@, "price"@, 0);
        },
        PositionSortColumn::TotalCost => {
            reveal_strlit("symbol");
            reveal_strlit("quantity");
            reveal_strlit("price");
            reveal_strlit("avgcost");
            reveal_strlit("totalcost");
            assert(lower_text("totalcost"@) =~= "totalcost"@);
            lemma_texts_differ("totalcost"@, "symbol"@, 0);
            lemma_texts_differ("totalcost"@, "quantity"@, 0);
            lemma_texts_differ("totalcost"@, "price"@, 0);
            lemma_texts_differ("totalcost"@, "avgcost"@, 0);
        },
        PositionSortColumn::Value => {
            reveal_strlit("symbol");
            reveal_strlit("quantity");
            reveal_strlit("price");
            reveal_strlit("avgcost");
            reveal_strlit("totalcost");
            reveal_strlit("value");
            assert(lower_text("value"@) =~= "value"@);
            lemma_texts_differ("value"@, "symbol"@, 0);
            lemma_texts_differ("value"@, "quantity"@, 0);
            lemma_texts_differ("value"@, "price"@, 0);
            lemma_texts_differ("value"@, "avgcost"@, 0);
            lemma_texts_differ("value"@, "totalcost"@, 0);
        },
        PositionSortColumn::GainLoss => {
            reveal_strlit("symbol");
            reveal_strlit("quantity");
            reveal_strlit("price");
            reveal_strlit("avgcost");
            reveal_strlit("totalcost");
            reveal_strlit("value");
            reveal_strlit("gainloss");
            assert(lower_text("gainloss"@) =~= "gainloss"@);
            lemma_texts_differ("gainloss"@, "symbol"@, 0);
            lemma_texts_differ("gainloss"@, "quantity"@, 0);
            lemma_texts_differ("gainloss"@, "price"@, 0);
            lemma_texts_differ("gainloss"@, "avgcost"@, 0);
            lemma_texts_differ("gainloss"@, "totalcost"@, 0);
            lemma_texts_differ("gainloss"@, "value"@, 0);
        },
    }
}

/// `from_str` undoes `as_str` for the closed positions table too.
pub proof fn lemma_closed_position_column_roundtrip(c: ClosedPositionSortColumn)
    ensures
        ClosedPositionSortColumn::named(c.name_text()) == Some(c),
{
    match c {
        ClosedPositionSortColumn::Symbol => {
            reveal_strlit("symbol");
            assert(lower_text("symbol"@) =~= "symbol"@);
        },
        ClosedPositionSortColumn::TotalCost => {
            reveal_strlit("symbol");
            reveal_strlit("totalcost");
            assert(lower_text("totalcost"@) =~= "totalcost"@);
            lemma_texts_differ("totalcost"@, "symbol"@, 0);
        },
        ClosedPositionSortColumn::Proceeds => {
            reveal_strlit("symbol");
            reveal_strlit("totalcost");
            reveal_strlit("proceeds");
            assert(lower_text("proceeds"@) =~= "proceeds"@);
            lemma_texts_differ("proceeds"@, "symbol"@, 0);
            lemma_texts_differ("proceeds"@, "totalcost"@, 0);
        },
        ClosedPositionSortColumn::GainLoss => {
            reveal_strlit("symbol");
            reveal_strlit("totalcost");
            reveal_strlit("proceeds");
            reveal_strlit("gainloss");
            assert(lower_text("gainloss"@) =~= "gainloss"@);
            lemma_texts_differ("gainloss"@, "symbol"@, 0);
            lemma_texts_differ("gainloss"@, "totalcost"@, 0);
            lemma_texts_differ("gainloss"@, "proceeds"@, 0);
        },
        ClosedPositionSortColumn::Period => {
            reveal_strlit("symbol");
            reveal_strlit("totalcost");
            reveal_strlit("proceeds");
            reveal_strlit("gainloss");
            reveal_strlit("period");
            assert(lower_text("period"@) =~= "period"@);
            lemma_texts_differ("period"@, "symbol"@, 0);
            lemma_texts_differ("period"@, "totalcost"@, 0);
            lemma_texts_differ("period"@, "proceeds"@, 0);
            lemma_texts_differ("period"@, "gainloss"@, 0);
        },
    }
}

} // verus!

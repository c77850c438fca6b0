//! The records the library works on, as plain data.

use vstd::prelude::*;

verus! {

/// Application settings as stored.
#[derive(Debug, Clone)]
pub struct Settings {
    pub currency: String,
    pub locale: String,
    pub theme: String,
    pub page_size: i64,
    pub is_authenticated: bool,
}

/// A spending category; `parent_id` links it into a tree.
#[derive(Debug, Clone)]
pub struct Category {
    pub id: i64,
    pub name: String,
    pub parent_id: Option<i64>,
    pub color: String,
    pub icon: String,
    pub built_in: bool,
}

/// A category with its path from the root ("Food > Groceries").
#[derive(Debug, Clone)]
pub struct CategoryWithPath {
    pub category: Category,
    pub path: String,
}

/// How a tag is drawn.
#[derive(Debug, Clone, Copy, PartialEq, Eq, Structural)]
pub enum TagStyle {
    Solid,
    Outline,
    Striped,
}

impl TagStyle {
    pub open spec fn label_text(self) -> Seq<char> {
        match self {
            TagStyle::Solid => "Solid"@,
            TagStyle::Outline => "Outline"@,
            TagStyle::Striped => "Striped"@,
        }
    }

    pub fn label(&self) -> (res: &'static str)
        ensures
            res@ == self.label_text(),
    {
        match self {
            TagStyle::Solid => "Solid",
            TagStyle::Outline => "Outline",
            TagStyle::Striped => "Striped",
        }
    }
}

#[derive(Debug, Clone)]
pub struct Tag {
    pub id: i64,
    pub name: String,
    pub color: String,
    pub style: TagStyle,
}

/// What a rule does with a matching transaction.
#[derive(Debug, Clone, Copy, PartialEq, Eq, Structural)]
pub enum RuleActionType {
    AssignCategory,
    AssignTag,
}

#[derive(Debug, Clone)]
pub struct Account {
    pub id: i64,
    pub name: String,
    pub account_type: String,
    pub currency: String,
}

/// Kinds of trading activity.
#[derive(Debug, Clone, Copy, PartialEq, Eq, Structural)]
pub enum TradingActivityType {
    Buy,
    Sell,
    Dividend,
    AddHolding,
    RemoveHolding,
    TransferIn,
    TransferOut,
    Fee,
    Tax,
    Split,
}

impl TradingActivityType {
    /// The name stored in the database.
    pub open spec fn name_text(self) -> Seq<char> {
        match self {
            TradingActivityType::Buy => "BUY"@,
            TradingActivityType::Sell => "SELL"@,
            TradingActivityType::Dividend => "DIVIDEND"@,
            TradingActivityType::AddHolding => "ADD_HOLDING"@,
            TradingActivityType::RemoveHolding => "REMOVE_HOLDING"@,
            TradingActivityType::TransferIn => "TRANSFER_IN"@,
            TradingActivityType::TransferOut => "TRANSFER_OUT"@,
            TradingActivityType::Fee => "FEE"@,
            TradingActivityType::Tax => "TAX"@,
            TradingActivityType::Split => "SPLIT"@,
        }
    }

    pub fn as_str(&self) -> (res: &'static str)
        ensures
            res@ == self.name_text(),
    {
        match self {
            TradingActivityType::Buy => "BUY",
            TradingActivityType::Sell => "SELL",
            TradingActivityType::Dividend => "DIVIDEND",
            TradingActivityType::AddHolding => "ADD_HOLDING",
            TradingActivityType::RemoveHolding => "REMOVE_HOLDING",
            TradingActivityType::TransferIn => "TRANSFER_IN",
            TradingActivityType::TransferOut => "TRANSFER_OUT",
            TradingActivityType::Fee => "FEE",
            TradingActivityType::Tax => "TAX",
            TradingActivityType::Split => "SPLIT",
        }
    }
}

} // verus!

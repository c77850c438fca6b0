//! Personal-finance core: money formatting, recurring-expense detection,
//! calendar ranges, spending analytics and the small rules that the web
//! layer applies to forms and filters.

pub mod ai_categorization;
pub mod analytics;
pub mod auth;
pub mod cache;
pub mod calendar;
pub mod categories;
pub mod category_months;
pub mod category_tree;
pub mod config;
pub mod date_utils;
pub mod error;
pub mod expenses;
pub mod filters;
pub mod forms;
pub mod manage;
pub mod market_data;
pub mod models;
pub mod net_worth;
pub mod numbers;
pub mod queries;
pub mod query;
pub mod recurring_expenses;
pub mod sankey;
pub mod rules;
pub mod sorting;
pub mod spending;
pub mod tally;
pub mod text;
pub mod trading_activities;
pub mod trading_positions;
pub mod transactions;

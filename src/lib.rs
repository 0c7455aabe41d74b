//! A personal-finance ledger: accounts, payees, categories and transactions,
//! with month-range queries, joined transaction rows and find-or-create payees.
pub mod text;
pub mod dates;
pub mod models;
pub mod order;
pub mod table;
pub mod ledger;
pub mod query;

//! Rows of the ledger's tables and of the joined transaction view.
use vstd::prelude::*;

verus! {

/// A ledger entry: an amount in cents on an account on a date.
#[derive(Debug)]
pub struct Transaction {
    pub id: i32,
    pub account: i32,
    pub date: String,
    pub payee: Option<i32>,
    pub category: Option<i32>,
    pub memo: Option<String>,
    pub amount_cents: i64,
    pub cleared: i32,
}

/// An account; `name` is unique and `balance_cents` is in minor units.
#[derive(Debug)]
pub struct Account {
    pub id: i32,
    pub name: String,
    pub type_: String,
    pub currency: String,
    pub balance_cents: i64,
    pub created_at: String,
    pub is_closed: i32,
}

/// A counterparty, created on first use by name.
#[derive(Debug)]
pub struct Payee {
    pub id: i32,
    pub name: String,
}

/// A spending category.
#[derive(Debug)]
pub struct Category {
    pub id: i32,
    pub name: String,
}

/// A transaction joined with the names of its account, payee and category.
#[derive(Debug)]
pub struct TxnFull {
    pub id: i32,
    pub date: String,
    pub account: String,
    pub payee: Option<String>,
    pub category: Option<String>,
    pub memo: Option<String>,
    pub amount_cents: i64,
}

/// A copy of optional text.
pub fn copy_opt_text(o: &Option<String>) -> (r: Option<String>)
    ensures
        r == *o,
{
    match o {
        Some(s) => Some(s.clone()),
        None => None,
    }
}

impl Transaction {
    /// A field-for-field copy.
    pub fn copied(&self) -> (r: Transaction)
        ensures
            r == *self,
    {
        Transaction {
            id: self.id,
            account: self.account,
            date: self.date.clone(),
            payee: self.payee,
            category: self.category,
            memo: copy_opt_text(&self.memo),
            amount_cents: self.amount_cents,
            cleared: self.cleared,
        }
    }
}

impl Account {
    /// A field-for-field copy.
    pub fn copied(&self) -> (r: Account)
        ensures
            r == *self,
    {
        Account {
            id: self.id,
            name: self.name.clone(),
            type_: self.type_.clone(),
            currency: self.currency.clone(),
            balance_cents: self.balance_cents,
            created_at: self.created_at.clone(),
            is_closed: self.is_closed,
        }
    }
}

impl Category {
    /// A field-for-field copy.
    pub fn copied(&self) -> (r: Category)
        ensures
            r == *self,
    {
        Category { id: self.id, name: self.name.clone() }
    }
}

} // verus!

use ledger::dates::{first_day, month_range};
use ledger::ledger::{should_retry, Ledger, LedgerError, MAX_ATTEMPTS};
use ledger::models::{Account, Category, Payee, Transaction};
use ledger::query::{in_range, RECENT_LIMIT};
use ledger::text::{compare_text, same_text};

fn account(id: i32, name: &str) -> Account {
    Account {
        id,
        name: name.to_string(),
        type_: "asset".to_string(),
        currency: "USD".to_string(),
        balance_cents: 0,
        created_at: "2024-01-01".to_string(),
        is_closed: 0,
    }
}

fn txn(id: i32, account: i32, date: &str, payee: Option<i32>, category: Option<i32>, amount: i64) -> Transaction {
    Transaction {
        id,
        account,
        date: date.to_string(),
        payee,
        category,
        memo: None,
        amount_cents: amount,
        cleared: 0,
    }
}

fn sample() -> Ledger {
    let mut l = Ledger::new();
    l.accounts.push(account(1, "Checking"));
    l.accounts.push(account(2, "Savings"));
    l.payees.push(Payee { id: 1, name: "Grocer".to_string() });
    l.categories.push(Category { id: 1, name: "Food".to_string() });
    l.categories.push(Category { id: 2, name: "Bills".to_string() });
    l
}

fn payees_named(l: &Ledger, name: &str) -> usize {
    l.payees.iter().filter(|p| p.name == name).count()
}

#[test]
fn december_rolls_over_to_next_year() {
    let (start, end) = month_range(2024, 12);
    assert_eq!(start, "2024-12-01");
    assert_eq!(end, "2025-01-01");
}

#[test]
fn month_range_within_year() {
    let (start, end) = month_range(2024, 3);
    assert_eq!(start, "2024-03-01");
    assert_eq!(end, "2024-04-01");
}

#[test]
fn month_range_pads_year_and_month() {
    let (start, end) = month_range(5, 9);
    assert_eq!(start, "0005-09-01");
    assert_eq!(end, "0005-10-01");
}

#[test]
fn last_year_december_end_has_five_digits() {
    let (start, end) = month_range(9999, 12);
    assert_eq!(start, "9999-12-01");
    assert_eq!(end, "10000-01-01");
}

#[test]
fn first_day_text() {
    assert_eq!(first_day(2023, 11), "2023-11-01");
    assert_eq!(first_day(812, 2), "0812-02-01");
}

#[test]
fn month_range_holds_first_and_last_day_only() {
    let (start, end) = month_range(2024, 2);
    assert!(in_range("2024-02-01", &start, &end, true));
    assert!(in_range("2024-02-29", &start, &end, true));
    assert!(!in_range("2024-03-01", &start, &end, true));
    assert!(!in_range("2024-01-31", &start, &end, true));
    let (start, end) = month_range(2024, 12);
    assert!(in_range("2024-12-31", &start, &end, true));
    assert!(!in_range("2025-01-01", &start, &end, true));
    assert!(!in_range("2024-11-30", &start, &end, true));
}

#[test]
fn text_comparison() {
    assert!(compare_text("2024-03-01", "2024-03-02") < 0);
    assert!(compare_text("b", "a") > 0);
    assert!(compare_text("abc", "abc") == 0);
    assert!(compare_text("ab", "abc") < 0);
    assert!(compare_text("", "a") < 0);
    assert!(same_text("Checking", "Checking"));
    assert!(!same_text("Checking", "checking"));
}

#[test]
fn empty_month_gives_empty_list() {
    let mut l = sample();
    l.transactions.push(txn(1, 1, "2024-02-29", Some(1), None, -500));
    l.transactions.push(txn(2, 1, "2024-04-01", Some(1), None, -700));
    l.transactions.push(txn(3, 2, "2024-03-10", Some(1), None, 900));
    assert!(l.list_txns_by_month_full("Checking", 2024, 3).is_empty());
    assert!(l.list_txns_by_month(Some(1), 2024, 3).is_empty());
}

#[test]
fn month_full_rows_filtered_and_latest_first() {
    let mut l = sample();
    l.transactions.push(txn(1, 1, "2024-03-05", Some(1), Some(1), -500));
    l.transactions.push(txn(2, 1, "2024-03-31", None, None, -700));
    l.transactions.push(txn(3, 1, "2024-03-05", Some(1), Some(2), -100));
    l.transactions.push(txn(4, 1, "2024-04-01", Some(1), None, -900));
    l.transactions.push(txn(5, 2, "2024-03-06", Some(1), None, 300));
    l.transactions.push(txn(6, 1, "2024-03-01", None, Some(1), 50));
    let rows = l.list_txns_by_month_full("Checking", 2024, 3);
    let ids: Vec<i32> = rows.iter().map(|r| r.id).collect();
    assert_eq!(ids, vec![2, 1, 3, 6]);
    assert!(rows.iter().all(|r| r.account == "Checking"));
    assert_eq!(rows[1].payee.as_deref(), Some("Grocer"));
    assert_eq!(rows[1].category.as_deref(), Some("Food"));
    assert_eq!(rows[2].category.as_deref(), Some("Bills"));
}

#[test]
fn absent_payee_and_category_give_no_names() {
    let mut l = sample();
    l.transactions.push(txn(1, 2, "2024-05-02", None, None, 1200));
    let rows = l.list_txns_by_month_full("Savings", 2024, 5);
    assert_eq!(rows.len(), 1);
    assert_eq!(rows[0].payee, None);
    assert_eq!(rows[0].category, None);
    assert_eq!(rows[0].account, "Savings");
    assert_eq!(rows[0].amount_cents, 1200);
    let row = l.full_row_of(&l.transactions[0]);
    assert_eq!(row.payee, None);
    assert_eq!(row.category, None);
}

#[test]
fn month_transactions_earliest_first_with_id_tie_break() {
    let mut l = sample();
    l.transactions.push(txn(7, 1, "2024-03-20", None, None, 1));
    l.transactions.push(txn(3, 1, "2024-03-02", None, None, 2));
    l.transactions.push(txn(5, 1, "2024-03-20", None, None, 3));
    l.transactions.push(txn(4, 1, "2024-02-20", None, None, 4));
    l.transactions.push(txn(1, 2, "2024-03-01", None, None, 5));
    let ids: Vec<i32> = l.list_txns_by_month(Some(1), 2024, 3).iter().map(|t| t.id).collect();
    assert_eq!(ids, vec![3, 5, 7]);
}

#[test]
fn account_transactions_in_date_order() {
    let mut l = sample();
    l.transactions.push(txn(1, 1, "2024-05-01", None, None, 1));
    l.transactions.push(txn(2, 1, "2023-12-31", None, None, 2));
    l.transactions.push(txn(3, 2, "2020-01-01", None, None, 3));
    l.transactions.push(txn(4, 1, "2024-05-01", None, None, 4));
    let ids: Vec<i32> = l.get_txns(Some(1)).iter().map(|t| t.id).collect();
    assert_eq!(ids, vec![2, 1, 4]);
}

#[test]
fn recent_list_is_capped_and_latest_first() {
    let mut l = sample();
    for i in 0..105 {
        let day = i % 28 + 1;
        let month = i % 12 + 1;
        let date = format!("2024-{:02}-{:02}", month, day);
        l.transactions.push(txn(i + 1, 1, &date, None, None, i as i64));
    }
    let rows = l.list_txns(2024);
    assert_eq!(rows.len(), RECENT_LIMIT);
    for w in rows.windows(2) {
        assert!(w[0].date > w[1].date || (w[0].date == w[1].date && w[0].id < w[1].id));
    }
    assert_eq!(rows[0].date, "2024-12-28");
    assert_eq!(rows[0].id, 84);
    let mut all: Vec<(String, i32)> = l.transactions.iter().map(|t| (t.date.clone(), t.id)).collect();
    all.sort_by(|a, b| b.0.cmp(&a.0).then(a.1.cmp(&b.1)));
    let expected: Vec<i32> = all.iter().take(RECENT_LIMIT).map(|p| p.1).collect();
    let got: Vec<i32> = rows.iter().map(|r| r.id).collect();
    assert_eq!(got, expected);
}

#[test]
fn recent_list_of_few_holds_all() {
    let mut l = sample();
    l.transactions.push(txn(1, 1, "2024-01-01", None, None, 1));
    l.transactions.push(txn(2, 2, "2024-06-01", None, None, 2));
    let ids: Vec<i32> = l.list_txns(2024).iter().map(|r| r.id).collect();
    assert_eq!(ids, vec![2, 1]);
}

#[test]
fn accounts_and_categories_by_name() {
    let mut l = sample();
    l.accounts.push(account(3, "Brokerage"));
    let names: Vec<String> = l.list_accounts().into_iter().map(|a| a.name).collect();
    assert_eq!(names, vec!["Brokerage", "Checking", "Savings"]);
    let names: Vec<String> = l.list_categories().into_iter().map(|c| c.name).collect();
    assert_eq!(names, vec!["Bills", "Food"]);
}

#[test]
fn new_payee_created_once_over_two_transactions() {
    let mut l = sample();
    let r1 = l.create_txn_by_name(
        "Checking".to_string(),
        "2024-03-04".to_string(),
        "Bakery".to_string(),
        Some(1),
        Some("bread".to_string()),
        -450,
    );
    assert_eq!(r1, Ok(()));
    let r2 = l.create_txn_by_name(
        "Savings".to_string(),
        "2024-03-05".to_string(),
        "Bakery".to_string(),
        None,
        None,
        -300,
    );
    assert_eq!(r2, Ok(()));
    assert_eq!(payees_named(&l, "Bakery"), 1);
    assert_eq!(l.payees.len(), 2);
    assert_eq!(l.transactions.len(), 2);
    assert_eq!(l.transactions[0].payee, l.transactions[1].payee);
    assert_eq!(l.transactions[0].payee, Some(2));
    assert_eq!(l.transactions[0].account, 1);
    assert_eq!(l.transactions[1].account, 2);
    assert_eq!(l.transactions[0].memo.as_deref(), Some("bread"));
    assert_eq!(l.transactions[0].cleared, 0);
    assert_ne!(l.transactions[0].id, l.transactions[1].id);
}

#[test]
fn existing_payee_is_reused() {
    let mut l = sample();
    assert_eq!(l.find_or_create_payee("Grocer"), Ok(1));
    assert_eq!(l.find_or_create_payee("Grocer"), Ok(1));
    assert_eq!(l.payees.len(), 1);
    let r = l.create_txn_by_name(
        "Checking".to_string(),
        "2024-03-04".to_string(),
        "Grocer".to_string(),
        None,
        None,
        -1,
    );
    assert_eq!(r, Ok(()));
    assert_eq!(l.payees.len(), 1);
    assert_eq!(l.transactions[0].payee, Some(1));
}

#[test]
fn new_payee_gets_fresh_id() {
    let mut l = sample();
    l.payees.push(Payee { id: 40, name: "Landlord".to_string() });
    assert_eq!(l.find_or_create_payee("Cafe"), Ok(41));
    assert_eq!(l.find_or_create_payee("Cafe"), Ok(41));
    assert_eq!(payees_named(&l, "Cafe"), 1);
}

#[test]
fn unknown_account_is_not_found_and_changes_nothing() {
    let mut l = sample();
    let r = l.create_txn_by_name(
        "Brokerage".to_string(),
        "2024-03-04".to_string(),
        "Broker".to_string(),
        None,
        None,
        -100,
    );
    assert_eq!(r, Err(LedgerError::NotFound));
    assert!(l.transactions.is_empty());
    assert_eq!(l.payees.len(), 1);
}

#[test]
fn unknown_category_is_store_error() {
    let mut l = sample();
    let r = l.create_txn_by_name(
        "Checking".to_string(),
        "2024-03-04".to_string(),
        "Newcomer".to_string(),
        Some(99),
        None,
        -100,
    );
    assert_eq!(r, Err(LedgerError::Store));
    assert!(l.transactions.is_empty());
    assert_eq!(payees_named(&l, "Newcomer"), 0);
}

#[test]
fn exhausted_payee_ids_are_store_error() {
    let mut l = sample();
    l.payees.push(Payee { id: i32::MAX, name: "Last".to_string() });
    assert_eq!(l.find_or_create_payee("Another"), Err(LedgerError::Store));
    assert_eq!(l.find_or_create_payee("Last"), Ok(i32::MAX));
    assert_eq!(l.payees.len(), 2);
}

#[test]
fn create_by_id_checks_references() {
    let mut l = sample();
    assert_eq!(l.create_txn(1, "2024-07-01".to_string(), 1, 2500), Ok(()));
    assert_eq!(l.transactions.len(), 1);
    assert_eq!(l.transactions[0].payee, Some(1));
    assert_eq!(l.transactions[0].category, None);
    assert_eq!(l.transactions[0].amount_cents, 2500);
    assert_eq!(l.create_txn(9, "2024-07-01".to_string(), 1, 1), Err(LedgerError::Store));
    assert_eq!(l.create_txn(1, "2024-07-01".to_string(), 9, 1), Err(LedgerError::Store));
    assert_eq!(l.transactions.len(), 1);
}

#[test]
fn exhausted_transaction_ids_are_store_error() {
    let mut l = sample();
    l.transactions.push(txn(i32::MAX, 1, "2024-01-01", None, None, 0));
    assert_eq!(l.create_txn(1, "2024-07-01".to_string(), 1, 1), Err(LedgerError::Store));
    assert_eq!(l.transactions.len(), 1);
}

#[test]
fn lookups_by_name_and_id() {
    let l = sample();
    assert_eq!(l.find_account("Savings"), Some(1));
    assert_eq!(l.find_account("Nope"), None);
    assert_eq!(l.find_payee("Grocer"), Some(0));
    assert!(l.has_account_id(2));
    assert!(!l.has_payee_id(2));
    assert!(l.has_category_id(2));
    assert_eq!(l.account_name_of(2), "Savings");
    assert_eq!(l.payee_name_of(Some(1)).as_deref(), Some("Grocer"));
    assert_eq!(l.category_name_of(None), None);
}

#[test]
fn well_formedness_is_checked() {
    let mut l = sample();
    assert!(l.is_well_formed());
    l.transactions.push(txn(1, 1, "2024-01-01", Some(1), Some(2), 1));
    assert!(l.is_well_formed());
    l.transactions.push(txn(2, 3, "2024-01-01", None, None, 1));
    assert!(!l.is_well_formed());
    let mut l = sample();
    l.transactions.push(txn(1, 1, "2024-01-01", Some(5), None, 1));
    assert!(!l.is_well_formed());
    let mut l = sample();
    l.transactions.push(txn(1, 1, "2024-01-01", None, Some(5), 1));
    assert!(!l.is_well_formed());
    let mut l = sample();
    l.payees.push(Payee { id: 2, name: "Grocer".to_string() });
    assert!(!l.is_well_formed());
    let mut l = sample();
    l.accounts.push(account(1, "Other"));
    assert!(!l.is_well_formed());
    let mut l = sample();
    l.transactions.push(txn(1, 1, "2024-01-01", None, None, 1));
    l.transactions.push(txn(1, 2, "2024-01-02", None, None, 1));
    assert!(!l.is_well_formed());
}

#[test]
fn conflict_is_retried_once() {
    assert_eq!(MAX_ATTEMPTS, 2);
    assert!(should_retry(LedgerError::Conflict, 1));
    assert!(!should_retry(LedgerError::Conflict, 2));
    assert!(!should_retry(LedgerError::Store, 1));
    assert!(!should_retry(LedgerError::NotFound, 1));
    assert!(!should_retry(LedgerError::PoolUnavailable, 1));
}

#[test]
fn month_and_account_filters_without_account() {
    let mut l = sample();
    l.transactions.push(txn(1, 1, "2024-03-20", None, None, 1));
    l.transactions.push(txn(2, 2, "2024-03-02", None, None, 2));
    l.transactions.push(txn(3, 1, "2024-04-01", None, None, 3));
    let ids: Vec<i32> = l.list_txns_by_month(None, 2024, 3).iter().map(|t| t.id).collect();
    assert_eq!(ids, vec![2, 1]);
    let ids: Vec<i32> = l.get_txns(None).iter().map(|t| t.id).collect();
    assert_eq!(ids, vec![2, 1, 3]);
    let ids: Vec<i32> = l.get_txns(Some(2)).iter().map(|t| t.id).collect();
    assert_eq!(ids, vec![2]);
}

#[test]
fn december_of_last_year_is_listed() {
    let mut l = sample();
    l.transactions.push(txn(1, 1, "9999-12-31", None, None, 10));
    l.transactions.push(txn(2, 1, "9999-12-01", None, None, 20));
    l.transactions.push(txn(3, 1, "9999-11-30", None, None, 30));
    let ids: Vec<i32> = l.list_txns_by_month(Some(1), 9999, 12).iter().map(|t| t.id).collect();
    assert_eq!(ids, vec![2, 1]);
    let rows = l.list_txns_by_month_full("Checking", 9999, 12);
    let ids: Vec<i32> = rows.iter().map(|r| r.id).collect();
    assert_eq!(ids, vec![1, 2]);
    assert_eq!(rows[0].payee, None);
    assert_eq!(rows[0].category, None);
    let (start, end) = month_range(9999, 12);
    assert!(in_range("9999-12-31", &start, &end, false));
    assert!(!in_range("9999-12-31", &start, &end, true));
    assert!(!in_range("9999-11-30", &start, &end, false));
}

#[test]
fn years_without_dates_give_empty_lists() {
    let mut l = sample();
    l.transactions.push(txn(1, 1, "2024-03-05", None, None, 10));
    assert!(l.list_txns_by_month(None, -1, 3).is_empty());
    assert!(l.list_txns_by_month(Some(1), 10000, 3).is_empty());
    assert!(l.list_txns_by_month_full("Checking", 12024, 3).is_empty());
    assert_eq!(l.list_txns_by_month_full("Checking", 2024, 3).len(), 1);
}

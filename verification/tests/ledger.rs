//! Exercises the ledger through its public operations on concrete values.

use bank_ledger::actions::LedgerError;
use bank_ledger::models::Accounts;

fn store_with(name: &str) -> Accounts {
    let mut s = Accounts::new();
    assert!(s.create_account(name.to_string()));
    s
}

#[test]
fn new_store_is_empty() {
    let s = Accounts::new();
    assert!(!s.contains("alice"));
    assert_eq!(s.account_balance("alice"), None);
}

#[test]
fn create_account_starts_empty() {
    let s = store_with("alice");
    assert!(s.contains("alice"));
    assert_eq!(s.account_balance("alice"), Some((0, 0)));
}

#[test]
fn create_account_existing_name_is_a_no_op() {
    let mut s = store_with("alice");
    assert_eq!(s.deposit(75, "alice"), Ok(()));
    assert!(!s.create_account("alice".to_string()));
    assert_eq!(s.account_balance("alice"), Some((75, 0)));
}

#[test]
fn deposit_without_debt_credits_balance() {
    let mut s = store_with("alice");
    assert_eq!(s.deposit(40, "alice"), Ok(()));
    assert_eq!(s.deposit(2, "alice"), Ok(()));
    assert_eq!(s.account_balance("alice"), Some((42, 0)));
}

#[test]
fn deposit_exactly_the_debt_clears_it_and_leaves_balance() {
    let mut s = store_with("alice");
    assert_eq!(s.loan(300, "alice"), Ok(()));
    assert_eq!(s.deposit(300, "alice"), Ok(()));
    assert_eq!(s.account_balance("alice"), Some((300, 0)));
}

#[test]
fn deposit_below_the_debt_only_reduces_it() {
    let mut s = store_with("alice");
    assert_eq!(s.loan(300, "alice"), Ok(()));
    assert_eq!(s.deposit(100, "alice"), Ok(()));
    assert_eq!(s.account_balance("alice"), Some((300, 200)));
}

#[test]
fn deposit_above_the_debt_credits_the_leftover() {
    let mut s = store_with("alice");
    assert_eq!(s.loan(300, "alice"), Ok(()));
    assert_eq!(s.deposit(450, "alice"), Ok(()));
    assert_eq!(s.account_balance("alice"), Some((450, 0)));
}

#[test]
fn deposit_rejects_a_non_positive_amount() {
    let mut s = store_with("alice");
    assert_eq!(s.deposit(0, "alice"), Err(LedgerError::InvalidAmount));
    assert_eq!(s.deposit(-3, "alice"), Err(LedgerError::InvalidAmount));
    assert_eq!(s.account_balance("alice"), Some((0, 0)));
}

#[test]
fn deposit_into_a_missing_account_creates_nothing() {
    let mut s = store_with("alice");
    assert_eq!(s.deposit(10, "bob"), Err(LedgerError::AccountNotFound));
    assert!(!s.contains("bob"));
    assert_eq!(s.account_balance("alice"), Some((0, 0)));
}

#[test]
fn withdraw_takes_from_the_balance_alone() {
    let mut s = store_with("alice");
    assert_eq!(s.loan(500, "alice"), Ok(()));
    assert_eq!(s.withdraw(120, "alice"), Ok(()));
    assert_eq!(s.account_balance("alice"), Some((380, 500)));
}

#[test]
fn withdraw_the_whole_balance_leaves_zero() {
    let mut s = store_with("alice");
    assert_eq!(s.deposit(90, "alice"), Ok(()));
    assert_eq!(s.withdraw(90, "alice"), Ok(()));
    assert_eq!(s.account_balance("alice"), Some((0, 0)));
}

#[test]
fn withdraw_rejects_a_negative_amount() {
    let mut s = store_with("alice");
    assert_eq!(s.withdraw(-5, "alice"), Err(LedgerError::InvalidAmount));
    assert_eq!(s.account_balance("alice"), Some((0, 0)));
}

#[test]
fn withdraw_beyond_the_balance_fails() {
    let mut s = store_with("alice");
    assert_eq!(s.deposit(50, "alice"), Ok(()));
    assert_eq!(s.withdraw(51, "alice"), Err(LedgerError::InsufficientBalance));
    assert_eq!(s.account_balance("alice"), Some((50, 0)));
}

#[test]
fn withdraw_from_a_missing_account_fails() {
    let mut s = Accounts::new();
    assert_eq!(s.withdraw(5, "bob"), Err(LedgerError::AccountNotFound));
}

#[test]
fn loan_credits_balance_and_debt_equally() {
    let mut s = store_with("alice");
    assert_eq!(s.loan(250, "alice"), Ok(()));
    assert_eq!(s.account_balance("alice"), Some((250, 250)));
}

#[test]
fn loan_up_to_the_ceiling_is_granted() {
    let mut s = store_with("alice");
    assert_eq!(s.loan(1000, "alice"), Ok(()));
    assert_eq!(s.account_balance("alice"), Some((1000, 1000)));
}

#[test]
fn loan_beyond_the_ceiling_fails() {
    let mut s = store_with("alice");
    assert_eq!(s.loan(1001, "alice"), Err(LedgerError::LoanLimitExceeded));
    assert_eq!(s.account_balance("alice"), Some((0, 0)));
}

#[test]
fn loan_rejects_a_non_positive_amount() {
    let mut s = store_with("alice");
    assert_eq!(s.loan(0, "alice"), Err(LedgerError::InvalidAmount));
    assert_eq!(s.loan(-10, "alice"), Err(LedgerError::InvalidAmount));
    assert_eq!(s.account_balance("alice"), Some((0, 0)));
}

#[test]
fn loan_to_a_missing_account_fails() {
    let mut s = Accounts::new();
    assert_eq!(s.loan(10, "bob"), Err(LedgerError::AccountNotFound));
}

#[test]
fn accounts_are_independent() {
    let mut s = store_with("alice");
    assert!(s.create_account("bob".to_string()));
    assert_eq!(s.loan(700, "alice"), Ok(()));
    assert_eq!(s.deposit(30, "bob"), Ok(()));
    assert_eq!(s.account_balance("alice"), Some((700, 700)));
    assert_eq!(s.account_balance("bob"), Some((30, 0)));
}

#[test]
fn a_session_keeps_the_debt_first_rule() {
    let mut s = store_with("alice");
    assert_eq!(s.loan(200, "alice"), Ok(()));
    assert_eq!(s.account_balance("alice"), Some((200, 200)));
    assert_eq!(s.deposit(50, "alice"), Ok(()));
    assert_eq!(s.account_balance("alice"), Some((200, 150)));
    assert_eq!(s.withdraw(100, "alice"), Ok(()));
    assert_eq!(s.account_balance("alice"), Some((100, 150)));
    assert_eq!(s.loan(900, "alice"), Err(LedgerError::LoanLimitExceeded));
    assert_eq!(s.account_balance("alice"), Some((100, 150)));
}

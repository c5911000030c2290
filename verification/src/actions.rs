//! The ledger's transactional rules.
//!
//! Each operation is a single atomic transition on one account's pair of
//! balance and debt. The spec functions here state each transition's effect
//! on the abstract map; the methods carry them out and are proved against
//! them.

use crate::models::{Account, Accounts, AccountView, LOAN_CEILING};
use vstd::prelude::*;

verus! {

/// Why a ledger operation was refused.
#[derive(Clone, Copy, Debug, PartialEq, Eq, Structural)]
pub enum LedgerError {
    /// The amount was zero or negative where a positive amount is required.
    InvalidAmount,
    /// The named account has no record.
    AccountNotFound,
    /// The withdrawal would drive the balance negative.
    InsufficientBalance,
    /// The loan would push the debt above the ceiling.
    LoanLimitExceeded,
}

/// The debt-first deposit rule: the amount retires debt before any surplus
/// reaches the balance.
pub open spec fn deposit_outcome(a: AccountView, amount: int) -> AccountView {
    if a.debt > 0 {
        if amount >= a.debt {
            AccountView { balance: a.balance + (amount - a.debt), debt: 0 }
        } else {
            AccountView { balance: a.balance, debt: a.debt - amount }
        }
    } else {
        AccountView { balance: a.balance + amount, debt: a.debt }
    }
}

/// A withdrawal takes from the balance alone.
pub open spec fn withdraw_outcome(a: AccountView, amount: int) -> AccountView {
    AccountView { balance: a.balance - amount, debt: a.debt }
}

/// A loan credits the balance and records an equal liability.
pub open spec fn loan_outcome(a: AccountView, amount: int) -> AccountView {
    AccountView { balance: a.balance + amount, debt: a.debt + amount }
}

/// Creation inserts a fresh empty account, or leaves the map alone when the
/// name is already taken.
pub open spec fn create_outcome(
    m: Map<Seq<char>, AccountView>,
    name: Seq<char>,
) -> Map<Seq<char>, AccountView> {
    if m.contains_key(name) {
        m
    } else {
        m.insert(name, AccountView { balance: 0, debt: 0 })
    }
}

/// Whether a loan of this amount is admissible against this account.
pub open spec fn loan_allowed(a: AccountView, amount: int) -> bool {
    a.debt + amount <= LOAN_CEILING
}

/// Every account of a store that satisfies the invariant — as every store
/// handed back by a ledger operation does — holds a non-negative balance
/// and a non-negative debt within the ceiling.
pub proof fn lemma_inv_nonnegative(s: Accounts, name: Seq<char>)
    requires
        s.inv(),
        s@.contains_key(name),
    ensures
        s@[name].balance >= 0,
        0 <= s@[name].debt <= LOAN_CEILING,
{
    let i = s.index_of(name);
    assert(s.list@[i].valid());
}

/// Depositing exactly the outstanding debt clears the debt and leaves the
/// balance unchanged.
pub proof fn lemma_deposit_settles_debt(a: AccountView, amount: int)
    requires
        a.debt > 0,
        amount == a.debt,
    ensures
        deposit_outcome(a, amount).debt == 0,
        deposit_outcome(a, amount).balance == a.balance,
{
}

/// Depositing less than the outstanding debt reduces the debt by exactly
/// the amount and leaves the balance unchanged.
pub proof fn lemma_deposit_partial_debt(a: AccountView, amount: int)
    requires
        0 < amount < a.debt,
    ensures
        deposit_outcome(a, amount).debt == a.debt - amount,
        deposit_outcome(a, amount).balance == a.balance,
{
}

/// Depositing more than the outstanding debt clears the debt and credits
/// the balance with what is left over.
pub proof fn lemma_deposit_clears_debt(a: AccountView, amount: int)
    requires
        amount > a.debt,
        a.debt >= 0,
    ensures
        deposit_outcome(a, amount).debt == 0,
        deposit_outcome(a, amount).balance == a.balance + (amount - a.debt),
{
}

/// A withdrawal takes exactly the amount from the balance and leaves the
/// debt unchanged.
pub proof fn lemma_withdraw_effect(a: AccountView, amount: int)
    ensures
        withdraw_outcome(a, amount).balance == a.balance - amount,
        withdraw_outcome(a, amount).debt == a.debt,
{
}

/// A loan grows the balance and the debt by exactly the amount.
pub proof fn lemma_loan_effect(a: AccountView, amount: int)
    ensures
        loan_outcome(a, amount).balance == a.balance + amount,
        loan_outcome(a, amount).debt == a.debt + amount,
{
}

/// Creation is idempotent in effect: asking twice for the same name leaves
/// the store exactly as the first call produced it.
pub proof fn lemma_create_idempotent(m: Map<Seq<char>, AccountView>, name: Seq<char>)
    ensures
        create_outcome(create_outcome(m, name), name) == create_outcome(m, name),
{
    assert(create_outcome(m, name).contains_key(name));
}

impl Accounts {
    /// Opens a fresh account with nothing in it, unless the name is already
    /// taken; then the store is left exactly as it was. Returns whether an
    /// account was created.
    pub fn create_account(&mut self, name: String) -> (created: bool)
        requires
            old(self).inv(),
        ensures
            final(self).inv(),
            created == !old(self)@.contains_key(name@),
            final(self)@ == create_outcome(old(self)@, name@),
            !created ==> *final(self) == *old(self),
    {
        if self.find(name.as_str()).is_some() {
            return false;
        }
        let account = Account { name, balance: 0, debt: 0 };
        let ghost acc = account;
        let ghost pre = *self;
        self.list.push(account);
        proof {
            Accounts::lemma_push_view(pre, *self, acc);
            assert forall|k: int| 0 <= k < self.list@.len() implies (
            #[trigger] self.list@[k]).valid() by {
                if k < pre.list@.len() {
                    assert(self.list@[k] == pre.list@[k]);
                } else {
                    assert(self.list@[k] == acc);
                }
            }
        }
        true
    }

    /// Credits the account with a positive amount, retiring debt first: the
    /// amount pays the debt down, and only what is left over after the debt
    /// reaches zero is added to the balance.
    pub fn deposit(&mut self, amount: i64, name: &str) -> (r: Result<(), LedgerError>)
        requires
            old(self).inv(),
            amount > 0 && old(self)@.contains_key(name@) ==> old(self)@[name@].balance + amount
                <= i64::MAX,
        ensures
            final(self).inv(),
            amount <= 0 ==> r == Err::<(), LedgerError>(LedgerError::InvalidAmount) && *final(self)
                == *old(self),
            amount > 0 && !old(self)@.contains_key(name@) ==> r == Err::<(), LedgerError>(
                LedgerError::AccountNotFound,
            ) && *final(self) == *old(self),
            amount > 0 && old(self)@.contains_key(name@) ==> r == Ok::<(), LedgerError>(())
                && final(self)@ == old(self)@.insert(
                name@,
                deposit_outcome(old(self)@[name@], amount as int),
            ),
    {
        if amount <= 0 {
            return Err(LedgerError::InvalidAmount);
        }
        let i = match self.find(name) {
            Some(i) => i,
            None => {
                return Err(LedgerError::AccountNotFound);
            },
        };
        let old_balance = self.list[i].balance;
        let old_debt = self.list[i].debt;
        let new_balance: i64;
        let new_debt: i64;
        if old_debt > 0 {
            if amount >= old_debt {
                new_balance = old_balance + (amount - old_debt);
                new_debt = 0;
            } else {
                new_balance = old_balance;
                new_debt = old_debt - amount;
            }
        } else {
            new_balance = old_balance + amount;
            new_debt = old_debt;
        }
        let account = Account {
            name: self.list[i].name.clone(),
            balance: new_balance,
            debt: new_debt,
        };
        let ghost acc = account;
        let ghost pre = *self;
        self.list.set(i, account);
        proof {
            Accounts::lemma_update_view(pre, *self, i as int, acc);
            assert forall|k: int| 0 <= k < self.list@.len() implies (
            #[trigger] self.list@[k]).valid() by {
                if k != i as int {
                    assert(self.list@[k] == pre.list@[k]);
                }
            }
        }
        Ok(())
    }

    /// Debits the account by a positive amount no greater than its balance;
    /// the debt is untouched.
    pub fn withdraw(&mut self, amount: i64, name: &str) -> (r: Result<(), LedgerError>)
        requires
            old(self).inv(),
        ensures
            final(self).inv(),
            amount <= 0 ==> r == Err::<(), LedgerError>(LedgerError::InvalidAmount) && *final(self)
                == *old(self),
            amount > 0 && !old(self)@.contains_key(name@) ==> r == Err::<(), LedgerError>(
                LedgerError::AccountNotFound,
            ) && *final(self) == *old(self),
            amount > 0 && old(self)@.contains_key(name@) && amount > old(self)@[name@].balance ==> r
                == Err::<(), LedgerError>(LedgerError::InsufficientBalance) && *final(self) == *old(
                self,
            ),
            amount > 0 && old(self)@.contains_key(name@) && amount <= old(self)@[name@].balance
                ==> r == Ok::<(), LedgerError>(()) && final(self)@ == old(self)@.insert(
                name@,
                withdraw_outcome(old(self)@[name@], amount as int),
            ),
    {
        if amount <= 0 {
            return Err(LedgerError::InvalidAmount);
        }
        let i = match self.find(name) {
            Some(i) => i,
            None => {
                return Err(LedgerError::AccountNotFound);
            },
        };
        if amount > self.list[i].balance {
            return Err(LedgerError::InsufficientBalance);
        }
        let account = Account {
            name: self.list[i].name.clone(),
            balance: self.list[i].balance - amount,
            debt: self.list[i].debt,
        };
        let ghost acc = account;
        let ghost pre = *self;
        self.list.set(i, account);
        proof {
            Accounts::lemma_update_view(pre, *self, i as int, acc);
            assert forall|k: int| 0 <= k < self.list@.len() implies (
            #[trigger] self.list@[k]).valid() by {
                if k != i as int {
                    assert(self.list@[k] == pre.list@[k]);
                }
            }
        }
        Ok(())
    }

    /// Grants a positive loan as long as the account's total debt stays
    /// within the ceiling: the balance and the debt both grow by the amount.
    pub fn loan(&mut self, amount: i64, name: &str) -> (r: Result<(), LedgerError>)
        requires
            old(self).inv(),
            old(self)@.contains_key(name@) && amount > 0 && loan_allowed(
                old(self)@[name@],
                amount as int,
            ) ==> old(self)@[name@].balance + amount <= i64::MAX,
        ensures
            final(self).inv(),
            amount <= 0 ==> r == Err::<(), LedgerError>(LedgerError::InvalidAmount) && *final(self)
                == *old(self),
            amount > 0 && !old(self)@.contains_key(name@) ==> r == Err::<(), LedgerError>(
                LedgerError::AccountNotFound,
            ) && *final(self) == *old(self),
            amount > 0 && old(self)@.contains_key(name@) && !loan_allowed(
                old(self)@[name@],
                amount as int,
            ) ==> r == Err::<(), LedgerError>(LedgerError::LoanLimitExceeded) && *final(self)
                == *old(self),
            amount > 0 && old(self)@.contains_key(name@) && loan_allowed(
                old(self)@[name@],
                amount as int,
            ) ==> r == Ok::<(), LedgerError>(()) && final(self)@ == old(self)@.insert(
                name@,
                loan_outcome(old(self)@[name@], amount as int),
            ),
    {
        if amount <= 0 {
            return Err(LedgerError::InvalidAmount);
        }
        let i = match self.find(name) {
            Some(i) => i,
            None => {
                return Err(LedgerError::AccountNotFound);
            },
        };
        if amount > LOAN_CEILING - self.list[i].debt {
            return Err(LedgerError::LoanLimitExceeded);
        }
        let account = Account {
            name: self.list[i].name.clone(),
            balance: self.list[i].balance + amount,
            debt: self.list[i].debt + amount,
        };
        let ghost acc = account;
        let ghost pre = *self;
        self.list.set(i, account);
        proof {
            Accounts::lemma_update_view(pre, *self, i as int, acc);
            assert forall|k: int| 0 <= k < self.list@.len() implies (
            #[trigger] self.list@[k]).valid() by {
                if k != i as int {
                    assert(self.list@[k] == pre.list@[k]);
                }
            }
        }
        Ok(())
    }

    /// Reads the account's balance and debt as one snapshot, or reports
    /// that no account carries the name.
    pub fn account_balance(&self, name: &str) -> (r: Option<(i64, i64)>)
        requires
            self.inv(),
        ensures
            match r {
                Some(p) => {
                    &&& self@.contains_key(name@)
                    &&& p.0 == self@[name@].balance
                    &&& p.1 == self@[name@].debt
                },
                None => !self@.contains_key(name@),
            },
    {
        match self.find(name) {
            Some(i) => Some((self.list[i].balance, self.list[i].debt)),
            None => None,
        }
    }
}

} // verus!

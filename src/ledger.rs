//! The ledger's tables and the operations that read and extend them: lookups
//! by name, find-or-create payees and the insertion of transactions.
use vstd::prelude::*;
use crate::models::{Account, Category, Payee, Transaction};
use crate::table::{ids_distinct, names_distinct, next_id, position_of_id, position_of_name};

verus! {

/// The kinds of failure of a ledger operation.
#[derive(Debug, Clone, Copy, PartialEq, Eq, Structural)]
pub enum LedgerError {
    /// No connection to the store could be had.
    PoolUnavailable,
    /// A row looked up by name does not exist.
    NotFound,
    /// A uniqueness constraint was broken by a concurrent insertion.
    Conflict,
    /// Any other failure of the store, such as a broken foreign key.
    Store,
}

/// The tables of the ledger.
#[derive(Debug)]
pub struct Ledger {
    pub accounts: Vec<Account>,
    pub payees: Vec<Payee>,
    pub categories: Vec<Category>,
    pub transactions: Vec<Transaction>,
}

pub open spec fn has_account(s: Seq<Account>, id: i32) -> bool {
    exists|k: int| 0 <= k < s.len() && (#[trigger] s[k]).id == id
}

pub open spec fn has_payee(s: Seq<Payee>, id: i32) -> bool {
    exists|k: int| 0 <= k < s.len() && (#[trigger] s[k]).id == id
}

pub open spec fn has_category(s: Seq<Category>, id: i32) -> bool {
    exists|k: int| 0 <= k < s.len() && (#[trigger] s[k]).id == id
}

pub open spec fn has_account_named(s: Seq<Account>, name: Seq<char>) -> bool {
    exists|k: int| 0 <= k < s.len() && (#[trigger] s[k]).name@ == name
}

pub open spec fn has_payee_named(s: Seq<Payee>, name: Seq<char>) -> bool {
    exists|k: int| 0 <= k < s.len() && (#[trigger] s[k]).name@ == name
}

/// The place of the account named `name`.
pub open spec fn account_named(s: Seq<Account>, name: Seq<char>) -> int {
    choose|k: int| 0 <= k < s.len() && (#[trigger] s[k]).name@ == name
}

/// The place of the payee named `name`.
pub open spec fn payee_named(s: Seq<Payee>, name: Seq<char>) -> int {
    choose|k: int| 0 <= k < s.len() && (#[trigger] s[k]).name@ == name
}

/// The place of the account with id `id`.
pub open spec fn account_with_id(s: Seq<Account>, id: i32) -> int {
    choose|k: int| 0 <= k < s.len() && (#[trigger] s[k]).id == id
}

/// The place of the payee with id `id`.
pub open spec fn payee_with_id(s: Seq<Payee>, id: i32) -> int {
    choose|k: int| 0 <= k < s.len() && (#[trigger] s[k]).id == id
}

/// The place of the category with id `id`.
pub open spec fn category_with_id(s: Seq<Category>, id: i32) -> int {
    choose|k: int| 0 <= k < s.len() && (#[trigger] s[k]).id == id
}

/// Every transaction id is below `id`.
pub open spec fn txn_id_fresh(s: Seq<Transaction>, id: i32) -> bool {
    forall|k: int| 0 <= k < s.len() ==> (#[trigger] s[k]).id < id
}

/// Every payee id is below `id`.
pub open spec fn payee_id_fresh(s: Seq<Payee>, id: i32) -> bool {
    forall|k: int| 0 <= k < s.len() ==> (#[trigger] s[k]).id < id
}

/// The transaction appended to `before` to give `after`, with a fresh id.
pub open spec fn txn_appended(
    before: Seq<Transaction>,
    after: Seq<Transaction>,
    account: i32,
    date: Seq<char>,
    payee: Option<i32>,
    category: Option<i32>,
    memo: Option<String>,
    amount_cents: i64,
) -> bool {
    &&& after.len() == before.len() + 1
    &&& after.drop_last() == before
    &&& txn_id_fresh(before, after.last().id)
    &&& after.last().account == account
    &&& after.last().date@ == date
    &&& after.last().payee == payee
    &&& after.last().category == category
    &&& after.last().memo == memo
    &&& after.last().amount_cents == amount_cents
    &&& after.last().cleared == 0
}

/// The payees after resolving `name`: unchanged when a payee has that name,
/// else one payee of that name and a fresh id appended.
pub open spec fn payee_resolved(before: Seq<Payee>, after: Seq<Payee>, name: Seq<char>) -> bool {
    if has_payee_named(before, name) {
        after == before
    } else {
        &&& after.len() == before.len() + 1
        &&& after.drop_last() == before
        &&& after.last().name@ == name
        &&& payee_id_fresh(before, after.last().id)
    }
}

/// What creating a transaction by account and payee name does to the ledger.
pub open spec fn created_by_name(
    before: Ledger,
    after: Ledger,
    account_name: Seq<char>,
    date: Seq<char>,
    payee_name: Seq<char>,
    category: Option<i32>,
    memo: Option<String>,
    amount_cents: i64,
) -> bool {
    &&& after.accounts@ == before.accounts@
    &&& after.categories@ == before.categories@
    &&& payee_resolved(before.payees@, after.payees@, payee_name)
    &&& txn_appended(
        before.transactions@,
        after.transactions@,
        before.accounts@[account_named(before.accounts@, account_name)].id,
        date,
        Some(after.payees@[payee_named(after.payees@, payee_name)].id),
        category,
        memo,
        amount_cents,
    )
}

/// How many times an operation that meets a conflict is tried in all.
pub const MAX_ATTEMPTS: u32 = 2;

/// Whether an operation that failed with `e` after `attempts` tries is tried
/// again: only a conflict is, and only while tries are left.
pub fn should_retry(e: LedgerError, attempts: u32) -> (r: bool)
    ensures
        r == (e == LedgerError::Conflict && attempts < MAX_ATTEMPTS),
{
    e == LedgerError::Conflict && attempts < MAX_ATTEMPTS
}

/// The two ledgers hold the same rows.
pub open spec fn same_tables(a: Ledger, b: Ledger) -> bool {
    &&& a.accounts@ == b.accounts@
    &&& a.payees@ == b.payees@
    &&& a.categories@ == b.categories@
    &&& a.transactions@ == b.transactions@
}

/// Some payee holds the largest id, so no fresh one can be made.
pub open spec fn payee_ids_exhausted(s: Seq<Payee>) -> bool {
    exists|k: int| 0 <= k < s.len() && (#[trigger] s[k]).id == i32::MAX
}

/// Some transaction holds the largest id, so no fresh one can be made.
pub open spec fn txn_ids_exhausted(s: Seq<Transaction>) -> bool {
    exists|k: int| 0 <= k < s.len() && (#[trigger] s[k]).id == i32::MAX
}

/// The category reference is absent or names an existing category.
pub open spec fn category_ok(s: Seq<Category>, category: Option<i32>) -> bool {
    category matches Some(c) ==> has_category(s, c)
}

impl Ledger {
    /// Ids and names are unique in each table and every reference of a
    /// transaction names an existing row.
    pub open spec fn wf(&self) -> bool {
        &&& forall|i: int, j: int|
            0 <= i < j < self.accounts@.len() ==> (#[trigger] self.accounts@[i]).id
                != (#[trigger] self.accounts@[j]).id && self.accounts@[i].name@
                != self.accounts@[j].name@
        &&& forall|i: int, j: int|
            0 <= i < j < self.payees@.len() ==> (#[trigger] self.payees@[i]).id
                != (#[trigger] self.payees@[j]).id && self.payees@[i].name@
                != self.payees@[j].name@
        &&& forall|i: int, j: int|
            0 <= i < j < self.categories@.len() ==> (#[trigger] self.categories@[i]).id
                != (#[trigger] self.categories@[j]).id && self.categories@[i].name@
                != self.categories@[j].name@
        &&& forall|i: int, j: int|
            0 <= i < j < self.transactions@.len() ==> (#[trigger] self.transactions@[i]).id
                != (#[trigger] self.transactions@[j]).id
        &&& forall|i: int|
            0 <= i < self.transactions@.len() ==> self.txn_refs_ok(#[trigger] self.transactions@[i])
    }

    /// The account of `t` exists, and its payee and category where it has them.
    pub open spec fn txn_refs_ok(&self, t: Transaction) -> bool {
        &&& has_account(self.accounts@, t.account)
        &&& (t.payee matches Some(p) ==> has_payee(self.payees@, p))
        &&& (t.category matches Some(c) ==> has_category(self.categories@, c))
    }

    /// An empty ledger.
    pub fn new() -> (r: Ledger)
        ensures
            r.wf(),
            r.accounts@.len() == 0,
            r.payees@.len() == 0,
            r.categories@.len() == 0,
            r.transactions@.len() == 0,
    {
        Ledger {
            accounts: Vec::new(),
            payees: Vec::new(),
            categories: Vec::new(),
            transactions: Vec::new(),
        }
    }

    /// The place of the account named `name`, if there is one.
    pub fn find_account(&self, name: &str) -> (r: Option<usize>)
        ensures
            r matches Some(k) ==> k < self.accounts@.len() && self.accounts@[k as int].name@
                == name@,
            r is None <==> !has_account_named(self.accounts@, name@),
    {
        position_of_name(&self.accounts, name)
    }

    /// The place of the payee named `name`, if there is one.
    pub fn find_payee(&self, name: &str) -> (r: Option<usize>)
        ensures
            r matches Some(k) ==> k < self.payees@.len() && self.payees@[k as int].name@ == name@,
            r is None <==> !has_payee_named(self.payees@, name@),
    {
        position_of_name(&self.payees, name)
    }

    /// Whether an account has id `id`.
    pub fn has_account_id(&self, id: i32) -> (r: bool)
        ensures
            r == has_account(self.accounts@, id),
    {
        position_of_id(&self.accounts, id).is_some()
    }

    /// Whether a payee has id `id`.
    pub fn has_payee_id(&self, id: i32) -> (r: bool)
        ensures
            r == has_payee(self.payees@, id),
    {
        position_of_id(&self.payees, id).is_some()
    }

    /// Whether a category has id `id`.
    pub fn has_category_id(&self, id: i32) -> (r: bool)
        ensures
            r == has_category(self.categories@, id),
    {
        position_of_id(&self.categories, id).is_some()
    }

    /// One more than the largest payee id (at least 1), unless that would
    /// overflow.
    fn fresh_payee_id(&self) -> (r: Option<i32>)
        ensures
            r matches Some(id) ==> payee_id_fresh(self.payees@, id),
            r is None <==> payee_ids_exhausted(self.payees@),
    {
        next_id(&self.payees)
    }

    /// One more than the largest transaction id (at least 1), unless that
    /// would overflow.
    fn fresh_txn_id(&self) -> (r: Option<i32>)
        ensures
            r matches Some(id) ==> txn_id_fresh(self.transactions@, id),
            r is None <==> txn_ids_exhausted(self.transactions@),
    {
        next_id(&self.transactions)
    }

    /// The id of the payee named `name`, created with a fresh id when no payee
    /// has that name. An existing name leaves the ledger as it is.
    pub fn find_or_create_payee(&mut self, name: &str) -> (r: Result<i32, LedgerError>)
        requires
            old(self).wf(),
        ensures
            final(self).wf(),
            final(self).accounts@ == old(self).accounts@,
            final(self).categories@ == old(self).categories@,
            final(self).transactions@ == old(self).transactions@,
            has_payee_named(old(self).payees@, name@) ==> r == Ok::<i32, LedgerError>(
                old(self).payees@[payee_named(old(self).payees@, name@)].id,
            ),
            r is Err <==> !has_payee_named(old(self).payees@, name@) && payee_ids_exhausted(
                old(self).payees@,
            ),
            r is Err ==> r == Err::<i32, LedgerError>(LedgerError::Store) && final(self).payees@
                == old(self).payees@,
            r is Ok ==> payee_resolved(old(self).payees@, final(self).payees@, name@),
            r matches Ok(id) ==> final(self).payees@[payee_named(final(self).payees@, name@)].id
                == id && has_payee_named(final(self).payees@, name@),
    {
        match self.find_payee(name) {
            Some(k) => {
                let ghost c = payee_named(self.payees@, name@);
                assert(has_payee_named(self.payees@, name@));
                assert(self.payees@[c].name@ == name@);
                assert(c == k as int) by {
                    if c < k {
                        assert(self.payees@[c].name@ != self.payees@[k as int].name@);
                    } else if c > k {
                        assert(self.payees@[k as int].name@ != self.payees@[c].name@);
                    }
                }
                Ok(self.payees[k].id)
            },
            None => {
                let id = match self.fresh_payee_id() {
                    Some(id) => id,
                    None => {
                        return Err(LedgerError::Store);
                    },
                };
                let ghost before = self.payees@;
                let ghost l0 = *self;
                self.payees.push(Payee { id, name: name.to_string() });
                proof {
                    assert(self.payees@.drop_last() =~= before);
                    let last = before.len() as int;
                    assert(self.payees@[last].name@ == name@);
                    assert forall|i: int, j: int|
                        0 <= i < j < self.payees@.len() implies (#[trigger] self.payees@[i]).id
                        != (#[trigger] self.payees@[j]).id && self.payees@[i].name@
                        != self.payees@[j].name@ by {
                        if j == last {
                            assert(self.payees@[i] == before[i]);
                        } else {
                            assert(self.payees@[i] == before[i]);
                            assert(self.payees@[j] == before[j]);
                        }
                    }
                    assert forall|i: int| 0 <= i < self.transactions@.len() implies self.txn_refs_ok(
                        #[trigger] self.transactions@[i],
                    ) by {
                        assert(l0.txn_refs_ok(self.transactions@[i]));
                        if let Some(p) = self.transactions@[i].payee {
                            let w = choose|k: int| 0 <= k < before.len()
                                && (#[trigger] before[k]).id == p;
                            assert(self.payees@[w] == before[w]);
                        }
                    }
                    let c = payee_named(self.payees@, name@);
                    assert(has_payee_named(self.payees@, name@));
                    assert(c == last) by {
                        if c < last {
                            assert(self.payees@[c] == before[c]);
                        }
                    }
                }
                Ok(id)
            },
        }
    }

    /// Adds `t`, whose id is fresh and whose references hold, at the end.
    fn push_txn(&mut self, t: Transaction)
        requires
            old(self).wf(),
            txn_id_fresh(old(self).transactions@, t.id),
            old(self).txn_refs_ok(t),
        ensures
            final(self).wf(),
            final(self).accounts@ == old(self).accounts@,
            final(self).payees@ == old(self).payees@,
            final(self).categories@ == old(self).categories@,
            final(self).transactions@ == old(self).transactions@.push(t),
    {
        let ghost before = self.transactions@;
        self.transactions.push(t);
        proof {
            assert forall|i: int, j: int|
                0 <= i < j < self.transactions@.len() implies (#[trigger] self.transactions@[i]).id
                != (#[trigger] self.transactions@[j]).id by {
                assert(self.transactions@[i] == before[i]);
                if j < before.len() {
                    assert(self.transactions@[j] == before[j]);
                }
            }
            assert forall|i: int| 0 <= i < self.transactions@.len() implies self.txn_refs_ok(
                #[trigger] self.transactions@[i],
            ) by {
                if i < before.len() {
                    assert(self.transactions@[i] == before[i]);
                }
            }
        }
    }

    /// Records a transaction on the account with id `account_id` and the payee
    /// with id `payee_id`, with no category or memo and not cleared. Fails with
    /// `Store` when either does not exist or no fresh id is left, and then
    /// leaves the ledger as it is.
    pub fn create_txn(&mut self, account_id: i32, date: String, payee_id: i32, amount_cents: i64) -> (r:
        Result<(), LedgerError>)
        requires
            old(self).wf(),
        ensures
            final(self).wf(),
            r is Ok <==> has_account(old(self).accounts@, account_id) && has_payee(
                old(self).payees@,
                payee_id,
            ) && !txn_ids_exhausted(old(self).transactions@),
            r is Ok ==> final(self).accounts@ == old(self).accounts@ && final(self).payees@ == old(
                self,
            ).payees@ && final(self).categories@ == old(self).categories@ && txn_appended(
                old(self).transactions@,
                final(self).transactions@,
                account_id,
                date@,
                Some(payee_id),
                None,
                None,
                amount_cents,
            ),
            r is Err ==> r == Err::<(), LedgerError>(LedgerError::Store) && same_tables(
                *final(self),
                *old(self),
            ),
    {
        if !self.has_account_id(account_id) || !self.has_payee_id(payee_id) {
            return Err(LedgerError::Store);
        }
        let id = match self.fresh_txn_id() {
            Some(id) => id,
            None => {
                return Err(LedgerError::Store);
            },
        };
        let ghost before = self.transactions@;
        let t = Transaction {
            id,
            account: account_id,
            date,
            payee: Some(payee_id),
            category: None,
            memo: None,
            amount_cents,
            cleared: 0,
        };
        self.push_txn(t);
        assert(self.transactions@.drop_last() =~= before);
        Ok(())
    }

    /// Records a transaction on the account named `account_name` with the payee
    /// named `payee_name`, creating that payee when no payee has the name; the
    /// transaction starts not cleared. Fails with `NotFound` when no account has
    /// the name, and with `Store` when the category does not exist or no fresh
    /// id is left; a failure leaves the ledger as it is.
    pub fn create_txn_by_name(
        &mut self,
        account_name: String,
        date: String,
        payee_name: String,
        category: Option<i32>,
        memo: Option<String>,
        amount_cents: i64,
    ) -> (r: Result<(), LedgerError>)
        requires
            old(self).wf(),
        ensures
            final(self).wf(),
            !has_account_named(old(self).accounts@, account_name@) ==> r == Err::<
                (),
                LedgerError,
            >(LedgerError::NotFound),
            has_account_named(old(self).accounts@, account_name@) ==> (r is Ok <==> category_ok(
                old(self).categories@,
                category,
            ) && !(!has_payee_named(old(self).payees@, payee_name@) && payee_ids_exhausted(
                old(self).payees@,
            )) && !txn_ids_exhausted(old(self).transactions@)),
            has_account_named(old(self).accounts@, account_name@) && r is Err ==> r == Err::<
                (),
                LedgerError,
            >(LedgerError::Store),
            r is Err ==> same_tables(*final(self), *old(self)),
            r is Ok ==> created_by_name(
                *old(self),
                *final(self),
                account_name@,
                date@,
                payee_name@,
                category,
                memo,
                amount_cents,
            ),
    {
        let k = match self.find_account(account_name.as_str()) {
            Some(k) => k,
            None => {
                return Err(LedgerError::NotFound);
            },
        };
        proof {
            let c = account_named(self.accounts@, account_name@);
            assert(has_account_named(self.accounts@, account_name@));
            assert(c == k as int) by {
                if c < k {
                    assert(self.accounts@[c].name@ != self.accounts@[k as int].name@);
                } else if c > k {
                    assert(self.accounts@[k as int].name@ != self.accounts@[c].name@);
                }
            }
        }
        let account_id = self.accounts[k].id;
        if let Some(c) = category {
            if !self.has_category_id(c) {
                return Err(LedgerError::Store);
            }
        }
        let id = match self.fresh_txn_id() {
            Some(id) => id,
            None => {
                return Err(LedgerError::Store);
            },
        };
        let ghost l0 = *self;
        let payee_id = match self.find_or_create_payee(payee_name.as_str()) {
            Ok(p) => p,
            Err(e) => {
                return Err(e);
            },
        };
        let ghost before = self.transactions@;
        let t = Transaction {
            id,
            account: account_id,
            date,
            payee: Some(payee_id),
            category,
            memo,
            amount_cents,
            cleared: 0,
        };
        proof {
            assert(has_account(self.accounts@, account_id) && self.accounts@[k as int].id
                == account_id);
            let w = payee_named(self.payees@, payee_name@);
            assert(self.payees@[w].id == payee_id);
            assert(has_payee(self.payees@, payee_id));
        }
        self.push_txn(t);
        assert(self.transactions@.drop_last() =~= before);
        Ok(())
    }

    /// Whether the ledger is well formed: unique ids and names, and every
    /// reference of a transaction names an existing row.
    pub fn is_well_formed(&self) -> (r: bool)
        ensures
            r == self.wf(),
    {
        if !(ids_distinct(&self.accounts) && names_distinct(&self.accounts) && ids_distinct(
            &self.payees,
        ) && names_distinct(&self.payees) && ids_distinct(&self.categories) && names_distinct(
            &self.categories,
        ) && ids_distinct(&self.transactions)) {
            return false;
        }
        let mut i: usize = 0;
        while i < self.transactions.len()
            invariant
                i <= self.transactions@.len(),
                forall|k: int| 0 <= k < i ==> self.txn_refs_ok(#[trigger] self.transactions@[k]),
            decreases self.transactions@.len() - i,
        {
            let t = &self.transactions[i];
            if !self.has_account_id(t.account) {
                return false;
            }
            if let Some(p) = t.payee {
                if !self.has_payee_id(p) {
                    return false;
                }
            }
            if let Some(c) = t.category {
                if !self.has_category_id(c) {
                    return false;
                }
            }
            i = i + 1;
        }
        true
    }
}

/// Creating two transactions by name, one after the other, with the same payee
/// name that no payee had before, leaves exactly one payee of that name, and
/// both transactions refer to it.
pub proof fn lemma_new_payee_created_once(
    l0: Ledger,
    l1: Ledger,
    l2: Ledger,
    payee_name: Seq<char>,
    account1: Seq<char>,
    date1: Seq<char>,
    category1: Option<i32>,
    memo1: Option<String>,
    amount1: i64,
    account2: Seq<char>,
    date2: Seq<char>,
    category2: Option<i32>,
    memo2: Option<String>,
    amount2: i64,
)
    requires
        l0.wf(),
        l1.wf(),
        l2.wf(),
        !has_payee_named(l0.payees@, payee_name),
        created_by_name(l0, l1, account1, date1, payee_name, category1, memo1, amount1),
        created_by_name(l1, l2, account2, date2, payee_name, category2, memo2, amount2),
    ensures
        l2.payees@.len() == l0.payees@.len() + 1,
        l2.payees@[l0.payees@.len() as int].name@ == payee_name,
        forall|k: int|
            0 <= k < l2.payees@.len() && (#[trigger] l2.payees@[k]).name@ == payee_name ==> k
                == l0.payees@.len(),
        l2.transactions@.len() == l0.transactions@.len() + 2,
        l2.transactions@[l0.transactions@.len() as int].payee == Some(
            l2.payees@[l0.payees@.len() as int].id,
        ),
        l2.transactions@[l0.transactions@.len() + 1 as int].payee == Some(
            l2.payees@[l0.payees@.len() as int].id,
        ),
{
    let n = l0.payees@.len() as int;
    assert(l1.payees@[n] == l1.payees@.last());
    assert(has_payee_named(l1.payees@, payee_name));
    assert(l2.payees@ == l1.payees@);
    let c = payee_named(l1.payees@, payee_name);
    assert(c == n) by {
        if c < n {
            assert(l1.payees@[c] == l1.payees@.drop_last()[c]);
        }
    }
    assert forall|k: int|
        0 <= k < l2.payees@.len() && (#[trigger] l2.payees@[k]).name@ == payee_name implies k
        == n by {
        if k < n {
            assert(l1.payees@[k] == l1.payees@.drop_last()[k]);
        }
    }
    let m = l0.transactions@.len() as int;
    assert(l2.transactions@[m] == l2.transactions@.drop_last()[m]);
}

} // verus!

//! Queries over the ledger: transactions of an account or of a month, joined
//! with the names they refer to, in a fixed order.
use vstd::prelude::*;
use crate::dates::{in_month, is_last_month, month_bounds, month_range};
use crate::ledger::{
    Ledger, account_with_id, category_with_id, has_account, has_category, has_payee,
    payee_with_id,
};
use crate::models::{Account, Category, Transaction, TxnFull, copy_opt_text};
use crate::order::{OrderedRow, ids_unique, insert_ordered, is_ordered, lemma_insert_keeps_ids_unique};
use crate::table::position_of_id;
use crate::text::{compare_text, same_text, text_le, text_lt};

verus! {

broadcast use vstd::seq_lib::group_to_multiset_ensures;

/// The name of the payee that `p` refers to; none where it refers to none.
pub open spec fn payee_name(l: Ledger, p: Option<i32>) -> Option<String> {
    match p {
        Some(id) => if has_payee(l.payees@, id) {
            Some(l.payees@[payee_with_id(l.payees@, id)].name)
        } else {
            None
        },
        None => None,
    }
}

/// The name of the category that `c` refers to; none where it refers to none.
pub open spec fn category_name(l: Ledger, c: Option<i32>) -> Option<String> {
    match c {
        Some(id) => if has_category(l.categories@, id) {
            Some(l.categories@[category_with_id(l.categories@, id)].name)
        } else {
            None
        },
        None => None,
    }
}

/// The joined row of a transaction.
pub open spec fn full_row(l: Ledger, t: Transaction) -> TxnFull {
    TxnFull {
        id: t.id,
        date: t.date,
        account: l.accounts@[account_with_id(l.accounts@, t.account)].name,
        payee: payee_name(l, t.payee),
        category: category_name(l, t.category),
        memo: t.memo,
        amount_cents: t.amount_cents,
    }
}

/// The joined rows of the transactions in `s`, in the order of `s`.
pub open spec fn full_rows(l: Ledger, s: Seq<Transaction>) -> Seq<TxnFull>
    decreases s.len(),
{
    if s.len() == 0 {
        Seq::empty()
    } else {
        full_rows(l, s.drop_last()).push(full_row(l, s.last()))
    }
}

/// The joined rows of the transactions in `s` on the account named
/// `account_name` and dated in the month.
pub open spec fn month_full_rows(
    l: Ledger,
    s: Seq<Transaction>,
    account_name: Seq<char>,
    year: nat,
    month: nat,
) -> Seq<TxnFull>
    decreases s.len(),
{
    if s.len() == 0 {
        Seq::empty()
    } else {
        let rest = month_full_rows(l, s.drop_last(), account_name, year, month);
        let r = full_row(l, s.last());
        if r.account@ == account_name && in_month(s.last().date@, year, month) {
            rest.push(r)
        } else {
            rest
        }
    }
}

/// Whether `t` is on the account `account` names; any account when it names
/// none.
pub open spec fn on_account(t: Transaction, account: Option<i32>) -> bool {
    account matches Some(a) ==> t.account == a
}

/// The transactions in `s` on the account `account` names, or all of them.
pub open spec fn account_txns(s: Seq<Transaction>, account: Option<i32>) -> Seq<Transaction>
    decreases s.len(),
{
    if s.len() == 0 {
        Seq::empty()
    } else {
        let rest = account_txns(s.drop_last(), account);
        if on_account(s.last(), account) {
            rest.push(s.last())
        } else {
            rest
        }
    }
}

/// The transactions in `s` on the account `account` names, or on any, and
/// dated in the month.
pub open spec fn account_month_txns(
    s: Seq<Transaction>,
    account: Option<i32>,
    year: nat,
    month: nat,
) -> Seq<
    Transaction,
>
    decreases s.len(),
{
    if s.len() == 0 {
        Seq::empty()
    } else {
        let rest = account_month_txns(s.drop_last(), account, year, month);
        if on_account(s.last(), account) && in_month(s.last().date@, year, month) {
            rest.push(s.last())
        } else {
            rest
        }
    }
}

/// Whether `date` lies at or after `start` and, where the range is `bounded`,
/// before `end`.
pub fn in_range(date: &str, start: &str, end: &str, bounded: bool) -> (r: bool)
    ensures
        r == (text_le(start@, date@) && (!bounded || text_lt(date@, end@))),
{
    compare_text(start, date) <= 0 && (!bounded || compare_text(date, end) < 0)
}

/// Whether `t` is on the account `account` names; any account when it names
/// none.
pub fn on_account_exec(t: &Transaction, account: Option<i32>) -> (r: bool)
    ensures
        r == on_account(*t, account),
{
    match account {
        Some(a) => t.account == a,
        None => true,
    }
}

/// Some transaction among the first `i` of `s` has id `id`.
pub open spec fn id_among(s: Seq<Transaction>, i: int, id: int) -> bool {
    exists|k: int| 0 <= k < i && s[k].id as int == id
}

/// Every row's id is that of a transaction among the first `i` of `s`.
pub open spec fn ids_among<T: OrderedRow>(rows: Seq<T>, s: Seq<Transaction>, i: int) -> bool {
    forall|j: int| 0 <= j < rows.len() ==> id_among(s, i, (#[trigger] rows[j]).id_key())
}

proof fn lemma_ids_among_grow<T: OrderedRow>(rows: Seq<T>, s: Seq<Transaction>, i: int)
    requires
        ids_among(rows, s, i),
    ensures
        ids_among(rows, s, i + 1),
{
    assert forall|j: int|
        0 <= j < rows.len() implies id_among(s, i + 1, (#[trigger] rows[j]).id_key()) by {
        let k = choose|k: int| 0 <= k < i && s[k].id as int == rows[j].id_key();
        assert(0 <= k < i + 1 && s[k].id as int == rows[j].id_key());
    }
}

proof fn lemma_ids_among_insert<T: OrderedRow>(
    rows: Seq<T>,
    s: Seq<Transaction>,
    i: int,
    p: int,
    x: T,
)
    requires
        0 <= i < s.len(),
        0 <= p <= rows.len(),
        forall|a: int, b: int| 0 <= a < b < s.len() ==> (#[trigger] s[a]).id != (#[trigger] s[b]).id,
        ids_unique(rows),
        ids_among(rows, s, i),
        x.id_key() == s[i].id as int,
    ensures
        ids_unique(rows.insert(p, x)),
        ids_among(rows.insert(p, x), s, i + 1),
{
    assert forall|k: int| 0 <= k < rows.len() implies (#[trigger] rows[k]).id_key() != x.id_key() by {
        assert(id_among(s, i, rows[k].id_key()));
        let w = choose|w: int| 0 <= w < i && s[w].id as int == rows[k].id_key();
        assert(s[w].id != s[i].id);
    }
    lemma_insert_keeps_ids_unique(rows, p, x);
    lemma_ids_among_grow(rows, s, i);
    let t = rows.insert(p, x);
    assert forall|j: int| 0 <= j < t.len() implies id_among(s, i + 1, (#[trigger] t[j]).id_key()) by {
        if j < p {
            assert(t[j] == rows[j]);
        } else if j == p {
            assert(0 <= i < i + 1 && s[i].id as int == t[j].id_key());
        } else {
            assert(t[j] == rows[j - 1]);
        }
    }
}

/// The most rows that the list of recent transactions holds.
pub const RECENT_LIMIT: usize = 100;

impl Ledger {
    /// The name of the account with id `id`.
    pub fn account_name_of(&self, id: i32) -> (r: String)
        requires
            self.wf(),
            has_account(self.accounts@, id),
        ensures
            r == self.accounts@[account_with_id(self.accounts@, id)].name,
    {
        let k = position_of_id(&self.accounts, id).unwrap();
        proof {
            let w = account_with_id(self.accounts@, id);
            assert(has_account(self.accounts@, id));
            assert(self.accounts@[w].id == id);
            if w != k {
                assert(self.accounts@[w].id != self.accounts@[k as int].id);
            }
        }
        self.accounts[k].name.clone()
    }

    /// The name of the payee that `p` refers to, if any.
    pub fn payee_name_of(&self, p: Option<i32>) -> (r: Option<String>)
        requires
            self.wf(),
        ensures
            r == payee_name(*self, p),
    {
        if p.is_none() || !self.has_payee_id(p.unwrap()) {
            return None;
        }
        let id = p.unwrap();
        let k = position_of_id(&self.payees, id).unwrap();
        proof {
            let w = payee_with_id(self.payees@, id);
            assert(has_payee(self.payees@, id));
            assert(self.payees@[w].id == id);
            if w != k {
                assert(self.payees@[w].id != self.payees@[k as int].id);
            }
        }
        Some(self.payees[k].name.clone())
    }

    /// The name of the category that `c` refers to, if any.
    pub fn category_name_of(&self, c: Option<i32>) -> (r: Option<String>)
        requires
            self.wf(),
        ensures
            r == category_name(*self, c),
    {
        if c.is_none() || !self.has_category_id(c.unwrap()) {
            return None;
        }
        let id = c.unwrap();
        let k = position_of_id(&self.categories, id).unwrap();
        proof {
            let w = category_with_id(self.categories@, id);
            assert(has_category(self.categories@, id));
            assert(self.categories@[w].id == id);
            if w != k {
                assert(self.categories@[w].id != self.categories@[k as int].id);
            }
        }
        Some(self.categories[k].name.clone())
    }

    /// The joined row of `t`: its account's name, and the names of its payee
    /// and category where it refers to them.
    pub fn full_row_of(&self, t: &Transaction) -> (r: TxnFull)
        requires
            self.wf(),
            self.txn_refs_ok(*t),
        ensures
            r == full_row(*self, *t),
    {
        TxnFull {
            id: t.id,
            date: t.date.clone(),
            account: self.account_name_of(t.account),
            payee: self.payee_name_of(t.payee),
            category: self.category_name_of(t.category),
            memo: copy_opt_text(&t.memo),
            amount_cents: t.amount_cents,
        }
    }

    /// The joined transactions of the account named `account_name` dated in
    /// the month, latest date first and by id among equal dates. No date lies
    /// in a year outside 0 to 9999, so such a year gives no rows.
    pub fn list_txns_by_month_full(&self, account_name: &str, year: i32, month: u32) -> (r: Vec<
        TxnFull,
    >)
        requires
            self.wf(),
            1 <= month <= 12,
        ensures
            is_ordered(r@, true),
            ids_unique(r@),
            !(0 <= year <= 9999) ==> r@.len() == 0,
            0 <= year <= 9999 ==> r@.to_multiset() == month_full_rows(
                *self,
                self.transactions@,
                account_name@,
                year as nat,
                month as nat,
            ).to_multiset(),
    {
        if year < 0 || year > 9999 {
            return Vec::new();
        }
        let (start, end) = month_range(year, month);
        let bounded = !(year == 9999 && month == 12);
        let mut out: Vec<TxnFull> = Vec::new();
        let mut i: usize = 0;
        while i < self.transactions.len()
            invariant
                i <= self.transactions@.len(),
                self.wf(),
                start@ == month_bounds(year as nat, month as nat).0,
                end@ == month_bounds(year as nat, month as nat).1,
                0 <= year <= 9999,
                bounded == !is_last_month(year as nat, month as nat),
                is_ordered(out@, true),
                ids_unique(out@),
                ids_among(out@, self.transactions@, i as int),
                out@.to_multiset() == month_full_rows(
                    *self,
                    self.transactions@.subrange(0, i as int),
                    account_name@,
                    year as nat,
                    month as nat,
                ).to_multiset(),
            decreases self.transactions@.len() - i,
        {
            let t = &self.transactions[i];
            let row = self.full_row_of(t);
            if same_text(row.account.as_str(), account_name) && in_range(
                t.date.as_str(),
                start.as_str(),
                end.as_str(),
                bounded,
            ) {
                let ghost before = out@;
                let ghost x = row;
                let p = insert_ordered(&mut out, row, true);
                proof {
                    lemma_ids_among_insert(before, self.transactions@, i as int, p as int, x);
                }
            } else {
                proof {
                    lemma_ids_among_grow(out@, self.transactions@, i as int);
                }
            }
            assert(self.transactions@.subrange(0, i + 1).drop_last() =~= self.transactions@.subrange(
                0,
                i as int,
            ));
            i = i + 1;
        }
        assert(self.transactions@.subrange(0, i as int) =~= self.transactions@);
        out
    }

    /// The latest joined transactions of the whole ledger, at most
    /// `RECENT_LIMIT` of them, latest date first and by id among equal dates.
    /// `year` is a hint of the caller's scope and filters nothing.
    pub fn list_txns(&self, year: i32) -> (r: Vec<TxnFull>)
        requires
            self.wf(),
        ensures
            ids_unique(r@),
            exists|all: Seq<TxnFull>|
                {
                    &&& is_ordered(all, true)
                    &&& all.to_multiset() == full_rows(*self, self.transactions@).to_multiset()
                    &&& r@ == all.take(
                        if all.len() < RECENT_LIMIT {
                            all.len() as int
                        } else {
                            RECENT_LIMIT as int
                        },
                    )
                },
    {
        let mut out: Vec<TxnFull> = Vec::new();
        let mut i: usize = 0;
        while i < self.transactions.len()
            invariant
                i <= self.transactions@.len(),
                self.wf(),
                is_ordered(out@, true),
                ids_unique(out@),
                ids_among(out@, self.transactions@, i as int),
                out@.to_multiset() == full_rows(
                    *self,
                    self.transactions@.subrange(0, i as int),
                ).to_multiset(),
            decreases self.transactions@.len() - i,
        {
            let row = self.full_row_of(&self.transactions[i]);
            let ghost before = out@;
            let ghost x = row;
            let p = insert_ordered(&mut out, row, true);
            proof {
                lemma_ids_among_insert(before, self.transactions@, i as int, p as int, x);
            }
            assert(self.transactions@.subrange(0, i + 1).drop_last() =~= self.transactions@.subrange(
                0,
                i as int,
            ));
            i = i + 1;
        }
        assert(self.transactions@.subrange(0, i as int) =~= self.transactions@);
        let ghost all = out@;
        out.truncate(RECENT_LIMIT);
        assert(out@ =~= all.take(
            if all.len() < RECENT_LIMIT {
                all.len() as int
            } else {
                RECENT_LIMIT as int
            },
        ));
        assert(ids_unique(out@)) by {
            assert forall|a: int, b: int| 0 <= a < b < out@.len() implies (#[trigger] out@[a]).id_key()
                != (#[trigger] out@[b]).id_key() by {
                assert(out@[a] == all[a] && out@[b] == all[b]);
            }
        }
        out
    }

    /// The transactions dated in the month, of the account with id `account`
    /// where it is given, earliest date first and by id among equal dates. No
    /// date lies in a year outside 0 to 9999, so such a year gives no rows.
    pub fn list_txns_by_month(&self, account: Option<i32>, year: i32, month: u32) -> (r: Vec<
        Transaction,
    >)
        requires
            self.wf(),
            1 <= month <= 12,
        ensures
            is_ordered(r@, false),
            ids_unique(r@),
            !(0 <= year <= 9999) ==> r@.len() == 0,
            0 <= year <= 9999 ==> r@.to_multiset() == account_month_txns(
                self.transactions@,
                account,
                year as nat,
                month as nat,
            ).to_multiset(),
    {
        if year < 0 || year > 9999 {
            return Vec::new();
        }
        let (start, end) = month_range(year, month);
        let bounded = !(year == 9999 && month == 12);
        let mut out: Vec<Transaction> = Vec::new();
        let mut i: usize = 0;
        while i < self.transactions.len()
            invariant
                i <= self.transactions@.len(),
                start@ == month_bounds(year as nat, month as nat).0,
                end@ == month_bounds(year as nat, month as nat).1,
                0 <= year <= 9999,
                bounded == !is_last_month(year as nat, month as nat),
                is_ordered(out@, false),
                self.wf(),
                ids_unique(out@),
                ids_among(out@, self.transactions@, i as int),
                out@.to_multiset() == account_month_txns(
                    self.transactions@.subrange(0, i as int),
                    account,
                    year as nat,
                    month as nat,
                ).to_multiset(),
            decreases self.transactions@.len() - i,
        {
            let t = &self.transactions[i];
            if on_account_exec(t, account) && in_range(
                t.date.as_str(),
                start.as_str(),
                end.as_str(),
                bounded,
            ) {
                let ghost before = out@;
                let c = t.copied();
                let ghost x = c;
                let p = insert_ordered(&mut out, c, false);
                proof {
                    lemma_ids_among_insert(before, self.transactions@, i as int, p as int, x);
                }
            } else {
                proof {
                    lemma_ids_among_grow(out@, self.transactions@, i as int);
                }
            }
            assert(self.transactions@.subrange(0, i + 1).drop_last() =~= self.transactions@.subrange(
                0,
                i as int,
            ));
            i = i + 1;
        }
        assert(self.transactions@.subrange(0, i as int) =~= self.transactions@);
        out
    }

    /// The transactions of the account with id `account` where it is given,
    /// else all, earliest date first and by id among equal dates.
    pub fn get_txns(&self, account: Option<i32>) -> (r: Vec<Transaction>)
        requires
            self.wf(),
        ensures
            is_ordered(r@, false),
            ids_unique(r@),
            r@.to_multiset() == account_txns(self.transactions@, account).to_multiset(),
    {
        let mut out: Vec<Transaction> = Vec::new();
        let mut i: usize = 0;
        while i < self.transactions.len()
            invariant
                i <= self.transactions@.len(),
                is_ordered(out@, false),
                self.wf(),
                ids_unique(out@),
                ids_among(out@, self.transactions@, i as int),
                out@.to_multiset() == account_txns(
                    self.transactions@.subrange(0, i as int),
                    account,
                ).to_multiset(),
            decreases self.transactions@.len() - i,
        {
            let t = &self.transactions[i];
            if on_account_exec(t, account) {
                let ghost before = out@;
                let c = t.copied();
                let ghost x = c;
                let p = insert_ordered(&mut out, c, false);
                proof {
                    lemma_ids_among_insert(before, self.transactions@, i as int, p as int, x);
                }
            } else {
                proof {
                    lemma_ids_among_grow(out@, self.transactions@, i as int);
                }
            }
            assert(self.transactions@.subrange(0, i + 1).drop_last() =~= self.transactions@.subrange(
                0,
                i as int,
            ));
            i = i + 1;
        }
        assert(self.transactions@.subrange(0, i as int) =~= self.transactions@);
        out
    }

    /// All accounts, by name.
    pub fn list_accounts(&self) -> (r: Vec<Account>)
        ensures
            is_ordered(r@, false),
            r@.to_multiset() == self.accounts@.to_multiset(),
    {
        let mut out: Vec<Account> = Vec::new();
        let mut i: usize = 0;
        while i < self.accounts.len()
            invariant
                i <= self.accounts@.len(),
                is_ordered(out@, false),
                out@.to_multiset() == self.accounts@.subrange(0, i as int).to_multiset(),
            decreases self.accounts@.len() - i,
        {
            insert_ordered(&mut out, self.accounts[i].copied(), false);
            assert(self.accounts@.subrange(0, i + 1) =~= self.accounts@.subrange(0, i as int).push(
                self.accounts@[i as int],
            ));
            i = i + 1;
        }
        assert(self.accounts@.subrange(0, i as int) =~= self.accounts@);
        out
    }

    /// All categories, by name.
    pub fn list_categories(&self) -> (r: Vec<Category>)
        ensures
            is_ordered(r@, false),
            r@.to_multiset() == self.categories@.to_multiset(),
    {
        let mut out: Vec<Category> = Vec::new();
        let mut i: usize = 0;
        while i < self.categories.len()
            invariant
                i <= self.categories@.len(),
                is_ordered(out@, false),
                out@.to_multiset() == self.categories@.subrange(0, i as int).to_multiset(),
            decreases self.categories@.len() - i,
        {
            insert_ordered(&mut out, self.categories[i].copied(), false);
            assert(self.categories@.subrange(0, i + 1) =~= self.categories@.subrange(0, i as int).push(
                self.categories@[i as int],
            ));
            i = i + 1;
        }
        assert(self.categories@.subrange(0, i as int) =~= self.categories@);
        out
    }
}

/// A transaction without a payee or a category gives a joined row without that
/// name; one that has them gives the name of the row it refers to.
pub proof fn lemma_full_row_names(l: Ledger, t: Transaction)
    requires
        l.wf(),
        l.txn_refs_ok(t),
    ensures
        t.payee is None ==> full_row(l, t).payee is None,
        t.category is None ==> full_row(l, t).category is None,
        t.payee matches Some(p) ==> full_row(l, t).payee == Some(
            l.payees@[payee_with_id(l.payees@, p)].name,
        ) && l.payees@[payee_with_id(l.payees@, p)].id == p,
        t.category matches Some(c) ==> full_row(l, t).category == Some(
            l.categories@[category_with_id(l.categories@, c)].name,
        ) && l.categories@[category_with_id(l.categories@, c)].id == c,
        full_row(l, t).account == l.accounts@[account_with_id(l.accounts@, t.account)].name,
        l.accounts@[account_with_id(l.accounts@, t.account)].id == t.account,
{
}

} // verus!

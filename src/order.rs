//! Result ordering: by a text key, ascending or descending, then by id
//! ascending, so that rows sharing a key come out in a fixed order.
use vstd::prelude::*;
use crate::text::{
    compare_text, text_lt, lemma_text_lt_asymmetric, lemma_text_lt_irreflexive,
    lemma_text_lt_total, lemma_text_lt_transitive,
};
use crate::models::{Account, Category, Transaction, TxnFull};

verus! {

broadcast use vstd::seq_lib::group_to_multiset_ensures;

/// A row with a text sort key and an id that breaks ties.
pub trait OrderedRow: Sized {
    spec fn text_key(&self) -> Seq<char>;

    spec fn id_key(&self) -> int;

    fn order_text(&self) -> (r: &str)
        ensures
            r@ == self.text_key(),
    ;

    fn order_id(&self) -> (r: i32)
        ensures
            r as int == self.id_key(),
    ;
}

/// `a` may stand before `b`: its key sorts first (last, when `descending`), or
/// the keys are equal and its id is not greater.
pub open spec fn row_le<T: OrderedRow>(a: T, b: T, descending: bool) -> bool {
    if a.text_key() == b.text_key() {
        a.id_key() <= b.id_key()
    } else if descending {
        text_lt(b.text_key(), a.text_key())
    } else {
        text_lt(a.text_key(), b.text_key())
    }
}

/// Every row may stand before every later row.
pub open spec fn is_ordered<T: OrderedRow>(s: Seq<T>, descending: bool) -> bool {
    forall|i: int, j: int| 0 <= i < j < s.len() ==> row_le(#[trigger] s[i], #[trigger] s[j], descending)
}

/// No two rows share an id.
pub open spec fn ids_unique<T: OrderedRow>(s: Seq<T>) -> bool {
    forall|i: int, j: int|
        0 <= i < j < s.len() ==> (#[trigger] s[i]).id_key() != (#[trigger] s[j]).id_key()
}

/// In an ordered sequence whose ids are unique, each row sorts strictly before
/// every later one: by its key, or by a smaller id where the keys are equal.
pub proof fn lemma_ordered_unique_is_strict<T: OrderedRow>(s: Seq<T>, descending: bool)
    requires
        is_ordered(s, descending),
        ids_unique(s),
    ensures
        forall|i: int, j: int|
            0 <= i < j < s.len() ==> if (#[trigger] s[i]).text_key() == (#[trigger] s[j]).text_key() {
                s[i].id_key() < s[j].id_key()
            } else if descending {
                text_lt(s[j].text_key(), s[i].text_key())
            } else {
                text_lt(s[i].text_key(), s[j].text_key())
            },
{
    assert forall|i: int, j: int|
        0 <= i < j < s.len() implies row_le(#[trigger] s[i], #[trigger] s[j], descending)
        && s[i].id_key() != s[j].id_key() by {}
}

/// Putting `x` into a sequence of unique ids that does not hold its id keeps
/// the ids unique.
pub proof fn lemma_insert_keeps_ids_unique<T: OrderedRow>(s: Seq<T>, p: int, x: T)
    requires
        0 <= p <= s.len(),
        ids_unique(s),
        forall|k: int| 0 <= k < s.len() ==> (#[trigger] s[k]).id_key() != x.id_key(),
    ensures
        ids_unique(s.insert(p, x)),
{
    let t = s.insert(p, x);
    assert forall|a: int, b: int| 0 <= a < b < t.len() implies (#[trigger] t[a]).id_key() != (
    #[trigger] t[b]).id_key() by {
        if a < p && b < p {
            assert(t[a] == s[a] && t[b] == s[b]);
        } else if a < p && b == p {
            assert(t[a] == s[a]);
        } else if a < p {
            assert(t[a] == s[a] && t[b] == s[b - 1]);
        } else if a == p {
            assert(t[b] == s[b - 1]);
        } else {
            assert(t[a] == s[a - 1] && t[b] == s[b - 1]);
        }
    }
}

proof fn lemma_row_le_total<T: OrderedRow>(a: T, b: T, descending: bool)
    ensures
        row_le(a, b, descending) || row_le(b, a, descending),
{
    lemma_text_lt_total(a.text_key(), b.text_key());
}

proof fn lemma_row_le_transitive<T: OrderedRow>(a: T, b: T, c: T, descending: bool)
    requires
        row_le(a, b, descending),
        row_le(b, c, descending),
    ensures
        row_le(a, c, descending),
{
    let (ka, kb, kc) = (a.text_key(), b.text_key(), c.text_key());
    lemma_text_lt_irreflexive(ka);
    lemma_text_lt_asymmetric(ka, kc);
    if ka != kb && kb != kc {
        if descending {
            lemma_text_lt_transitive(kc, kb, ka);
        } else {
            lemma_text_lt_transitive(ka, kb, kc);
        }
    }
}

/// Whether `a` may stand before `b`.
pub fn row_le_exec<T: OrderedRow>(a: &T, b: &T, descending: bool) -> (r: bool)
    ensures
        r == row_le(*a, *b, descending),
{
    let c = compare_text(a.order_text(), b.order_text());
    if c == 0 {
        a.order_id() <= b.order_id()
    } else if descending {
        c > 0
    } else {
        c < 0
    }
}

/// Puts `x` into an ordered sequence at its place, after the rows that may
/// stand before it.
pub fn insert_ordered<T: OrderedRow>(rows: &mut Vec<T>, x: T, descending: bool) -> (p: usize)
    requires
        is_ordered(old(rows)@, descending),
    ensures
        p <= old(rows)@.len(),
        final(rows)@ == old(rows)@.insert(p as int, x),
        is_ordered(final(rows)@, descending),
        final(rows)@.to_multiset() == old(rows)@.to_multiset().insert(x),
        final(rows)@.len() == old(rows)@.len() + 1,
{
    let mut i: usize = 0;
    while i < rows.len() && row_le_exec(&rows[i], &x, descending)
        invariant
            i <= rows@.len(),
            rows@ == old(rows)@,
            is_ordered(rows@, descending),
            forall|k: int| 0 <= k < i ==> row_le(#[trigger] rows@[k], x, descending),
        decreases rows@.len() - i,
    {
        i = i + 1;
    }
    proof {
        if i < rows@.len() {
            lemma_row_le_total(rows@[i as int], x, descending);
            assert forall|k: int|
                i <= k < rows@.len() implies row_le(x, #[trigger] rows@[k], descending) by {
                if k > i {
                    lemma_row_le_transitive(x, rows@[i as int], rows@[k], descending);
                }
            }
        }
    }
    let ghost before = rows@;
    rows.insert(i, x);
    proof {
        assert(rows@ == before.insert(i as int, x));
        assert forall|a: int, b: int| 0 <= a < b < rows@.len() implies row_le(
            #[trigger] rows@[a],
            #[trigger] rows@[b],
            descending,
        ) by {
            if a < i && b == i {
            } else if a == i {
            } else if a < i && b < i {
                assert(rows@[a] == before[a]);
                assert(rows@[b] == before[b]);
            } else if a < i {
                assert(rows@[a] == before[a]);
                assert(rows@[b] == before[b - 1]);
                assert(row_le(before[a], x, descending));
                assert(row_le(x, before[b - 1], descending));
                lemma_row_le_transitive(before[a], x, before[b - 1], descending);
            } else {
                assert(rows@[a] == before[a - 1]);
                assert(rows@[b] == before[b - 1]);
            }
        }
    }
    i
}

impl OrderedRow for TxnFull {
    open spec fn text_key(&self) -> Seq<char> {
        self.date@
    }

    open spec fn id_key(&self) -> int {
        self.id as int
    }

    fn order_text(&self) -> (r: &str) {
        self.date.as_str()
    }

    fn order_id(&self) -> (r: i32) {
        self.id
    }
}

impl OrderedRow for Transaction {
    open spec fn text_key(&self) -> Seq<char> {
        self.date@
    }

    open spec fn id_key(&self) -> int {
        self.id as int
    }

    fn order_text(&self) -> (r: &str) {
        self.date.as_str()
    }

    fn order_id(&self) -> (r: i32) {
        self.id
    }
}

impl OrderedRow for Account {
    open spec fn text_key(&self) -> Seq<char> {
        self.name@
    }

    open spec fn id_key(&self) -> int {
        self.id as int
    }

    fn order_text(&self) -> (r: &str) {
        self.name.as_str()
    }

    fn order_id(&self) -> (r: i32) {
        self.id
    }
}

impl OrderedRow for Category {
    open spec fn text_key(&self) -> Seq<char> {
        self.name@
    }

    open spec fn id_key(&self) -> int {
        self.id as int
    }

    fn order_text(&self) -> (r: &str) {
        self.name.as_str()
    }

    fn order_id(&self) -> (r: i32) {
        self.id
    }
}

} // verus!

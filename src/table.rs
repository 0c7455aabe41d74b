//! Searches over a table's rows by id and by name, fresh ids, and tests that
//! ids and names are unique.
use vstd::prelude::*;
use crate::models::{Account, Category, Payee, Transaction};
use crate::text::same_text;

verus! {

/// A row with an id.
pub trait IdRow: Sized {
    spec fn row_id(&self) -> i32;

    fn id_of(&self) -> (r: i32)
        ensures
            r == self.row_id(),
    ;
}

/// A row with an id and a name.
pub trait NamedRow: IdRow {
    spec fn row_name(&self) -> Seq<char>;

    fn name_of(&self) -> (r: &str)
        ensures
            r@ == self.row_name(),
    ;
}

/// The place of the first row with id `id`, if any.
pub fn position_of_id<T: IdRow>(rows: &Vec<T>, id: i32) -> (r: Option<usize>)
    ensures
        r matches Some(k) ==> k < rows@.len() && rows@[k as int].row_id() == id && forall|j: int|
            0 <= j < k ==> (#[trigger] rows@[j]).row_id() != id,
        r is None <==> forall|k: int| 0 <= k < rows@.len() ==> (#[trigger] rows@[k]).row_id() != id,
{
    let mut i: usize = 0;
    while i < rows.len()
        invariant
            i <= rows@.len(),
            forall|k: int| 0 <= k < i ==> (#[trigger] rows@[k]).row_id() != id,
        decreases rows@.len() - i,
    {
        if rows[i].id_of() == id {
            return Some(i);
        }
        i = i + 1;
    }
    None
}

/// The place of the first row named `name`, if any.
pub fn position_of_name<T: NamedRow>(rows: &Vec<T>, name: &str) -> (r: Option<usize>)
    ensures
        r matches Some(k) ==> k < rows@.len() && rows@[k as int].row_name() == name@,
        r is None <==> forall|k: int|
            0 <= k < rows@.len() ==> (#[trigger] rows@[k]).row_name() != name@,
{
    let mut i: usize = 0;
    while i < rows.len()
        invariant
            i <= rows@.len(),
            forall|k: int| 0 <= k < i ==> (#[trigger] rows@[k]).row_name() != name@,
        decreases rows@.len() - i,
    {
        if same_text(rows[i].name_of(), name) {
            return Some(i);
        }
        i = i + 1;
    }
    None
}

/// One more than the largest id (at least 1), unless that would overflow.
pub fn next_id<T: IdRow>(rows: &Vec<T>) -> (r: Option<i32>)
    ensures
        r matches Some(id) ==> forall|k: int|
            0 <= k < rows@.len() ==> (#[trigger] rows@[k]).row_id() < id,
        r is None <==> exists|k: int| 0 <= k < rows@.len() && (#[trigger] rows@[k]).row_id() == i32::MAX,
{
    let mut top: i32 = 0;
    let mut i: usize = 0;
    while i < rows.len()
        invariant
            i <= rows@.len(),
            forall|k: int| 0 <= k < i ==> (#[trigger] rows@[k]).row_id() <= top,
            top == 0 || exists|k: int| 0 <= k < i && (#[trigger] rows@[k]).row_id() == top,
        decreases rows@.len() - i,
    {
        let id = rows[i].id_of();
        if id > top {
            top = id;
        }
        i = i + 1;
    }
    if top == i32::MAX {
        None
    } else {
        Some(top + 1)
    }
}

/// Whether the rows hold pairwise different ids.
pub fn ids_distinct<T: IdRow>(rows: &Vec<T>) -> (r: bool)
    ensures
        r == (forall|i: int, j: int|
            0 <= i < j < rows@.len() ==> (#[trigger] rows@[i]).row_id()
                != (#[trigger] rows@[j]).row_id()),
{
    let n = rows.len();
    let mut i: usize = 0;
    while i < n
        invariant
            n == rows@.len(),
            i <= n,
            forall|a: int, b: int|
                0 <= a < i && a < b < n ==> (#[trigger] rows@[a]).row_id()
                    != (#[trigger] rows@[b]).row_id(),
        decreases n - i,
    {
        let mut j: usize = i + 1;
        while j < n
            invariant
                n == rows@.len(),
                i < j <= n,
                forall|b: int| i < b < j ==> rows@[i as int].row_id() != (#[trigger] rows@[b]).row_id(),
            decreases n - j,
        {
            if rows[i].id_of() == rows[j].id_of() {
                return false;
            }
            j = j + 1;
        }
        i = i + 1;
    }
    true
}

/// Whether the rows hold pairwise different names.
pub fn names_distinct<T: NamedRow>(rows: &Vec<T>) -> (r: bool)
    ensures
        r == (forall|i: int, j: int|
            0 <= i < j < rows@.len() ==> (#[trigger] rows@[i]).row_name()
                != (#[trigger] rows@[j]).row_name()),
{
    let n = rows.len();
    let mut i: usize = 0;
    while i < n
        invariant
            n == rows@.len(),
            i <= n,
            forall|a: int, b: int|
                0 <= a < i && a < b < n ==> (#[trigger] rows@[a]).row_name()
                    != (#[trigger] rows@[b]).row_name(),
        decreases n - i,
    {
        let mut j: usize = i + 1;
        while j < n
            invariant
                n == rows@.len(),
                i < j <= n,
                forall|b: int|
                    i < b < j ==> rows@[i as int].row_name() != (#[trigger] rows@[b]).row_name(),
            decreases n - j,
        {
            if same_text(rows[i].name_of(), rows[j].name_of()) {
                return false;
            }
            j = j + 1;
        }
        i = i + 1;
    }
    true
}

impl IdRow for Account {
    open spec fn row_id(&self) -> i32 {
        self.id
    }

    fn id_of(&self) -> (r: i32) {
        self.id
    }
}

impl NamedRow for Account {
    open spec fn row_name(&self) -> Seq<char> {
        self.name@
    }

    fn name_of(&self) -> (r: &str) {
        self.name.as_str()
    }
}

impl IdRow for Payee {
    open spec fn row_id(&self) -> i32 {
        self.id
    }

    fn id_of(&self) -> (r: i32) {
        self.id
    }
}

impl NamedRow for Payee {
    open spec fn row_name(&self) -> Seq<char> {
        self.name@
    }

    fn name_of(&self) -> (r: &str) {
        self.name.as_str()
    }
}

impl IdRow for Category {
    open spec fn row_id(&self) -> i32 {
        self.id
    }

    fn id_of(&self) -> (r: i32) {
        self.id
    }
}

impl NamedRow for Category {
    open spec fn row_name(&self) -> Seq<char> {
        self.name@
    }

    fn name_of(&self) -> (r: &str) {
        self.name.as_str()
    }
}

impl IdRow for Transaction {
    open spec fn row_id(&self) -> i32 {
        self.id
    }

    fn id_of(&self) -> (r: i32) {
        self.id
    }
}

} // verus!

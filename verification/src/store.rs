//! The relational store, modeled as plain state.
//!
//! Four tables hold the persisted rows; each table assigns ascending integer
//! ids starting at 1. `StoreModel` is the mathematical state every contract
//! speaks about; `Store` is the executable value that carries it.
//!
//! Hard constraints, checked by the operations and kept as the store's
//! invariant: ids are unique (strictly ascending in row order), a log's
//! `hash` is unique, an item's `category_id` and a history's `item_id`
//! reference existing parent rows, and every stored date names a real
//! calendar day.

use vstd::prelude::*;

use crate::category::Category;
use crate::history::History;
use crate::item::Item;
use crate::log::Log;

verus! {

/// The mathematical state of the store.
#[verifier::ext_equal]
pub struct StoreModel {
    pub categories: Seq<Category>,
    pub items: Seq<Item>,
    pub histories: Seq<History>,
    pub logs: Seq<Log>,
    pub next_category_id: int,
    pub next_item_id: int,
    pub next_history_id: int,
    pub next_log_id: int,
}

/// Some category row carries the id.
pub open spec fn category_id_taken(s: Seq<Category>, id: int) -> bool {
    exists|i: int| 0 <= i < s.len() && s[i].id == id
}

/// Some item row carries the id.
pub open spec fn item_id_taken(s: Seq<Item>, id: int) -> bool {
    exists|i: int| 0 <= i < s.len() && s[i].id == id
}

/// Some history row carries the id.
pub open spec fn history_id_taken(s: Seq<History>, id: int) -> bool {
    exists|i: int| 0 <= i < s.len() && s[i].id == id
}

/// Some log row carries the id.
pub open spec fn log_id_taken(s: Seq<Log>, id: int) -> bool {
    exists|i: int| 0 <= i < s.len() && s[i].id == id
}

/// Some log row carries the content fingerprint.
pub open spec fn log_hash_taken(s: Seq<Log>, hash: Seq<char>) -> bool {
    exists|i: int| 0 <= i < s.len() && s[i].hash@ == hash
}

/// Whether the item's (nullable) foreign key points at the category.
pub open spec fn references_category(item: Item, id: int) -> bool {
    item.category_id matches Some(c) && c == id
}

/// Some item row references the category.
pub open spec fn category_referenced(items: Seq<Item>, id: int) -> bool {
    exists|i: int| 0 <= i < items.len() && references_category(#[trigger] items[i], id)
}

/// A nullable foreign key is in order when it is absent or points at an
/// existing category.
pub open spec fn category_fk_ok(categories: Seq<Category>, c: Option<i32>) -> bool {
    match c {
        Some(v) => category_id_taken(categories, v as int),
        None => true,
    }
}

/// Some history row references the item.
pub open spec fn item_referenced(histories: Seq<History>, id: int) -> bool {
    exists|i: int| 0 <= i < histories.len() && histories[i].item_id == id
}

/// Ids lie in `[1, next)` and ascend strictly in row order, so they are
/// unique and the last row is the most recently created one.
pub open spec fn category_ids_ok(s: Seq<Category>, next: int) -> bool {
    &&& forall|i: int| 0 <= i < s.len() ==> 1 <= (#[trigger] s[i]).id < next
    &&& forall|i: int, j: int| 0 <= i < j < s.len() ==> s[i].id < s[j].id
}

pub open spec fn item_ids_ok(s: Seq<Item>, next: int) -> bool {
    &&& forall|i: int| 0 <= i < s.len() ==> 1 <= (#[trigger] s[i]).id < next
    &&& forall|i: int, j: int| 0 <= i < j < s.len() ==> s[i].id < s[j].id
}

pub open spec fn history_ids_ok(s: Seq<History>, next: int) -> bool {
    &&& forall|i: int| 0 <= i < s.len() ==> 1 <= (#[trigger] s[i]).id < next
    &&& forall|i: int, j: int| 0 <= i < j < s.len() ==> s[i].id < s[j].id
}

pub open spec fn log_ids_ok(s: Seq<Log>, next: int) -> bool {
    &&& forall|i: int| 0 <= i < s.len() ==> 1 <= (#[trigger] s[i]).id < next
    &&& forall|i: int, j: int| 0 <= i < j < s.len() ==> s[i].id < s[j].id
}

/// No two log rows share an id; follows from `log_ids_ok`.
pub open spec fn log_ids_distinct(s: Seq<Log>) -> bool {
    forall|i: int, j: int| 0 <= i < j < s.len() ==> s[i].id != s[j].id
}

/// No two category rows share an id; follows from `category_ids_ok`.
pub open spec fn category_ids_distinct(s: Seq<Category>) -> bool {
    forall|i: int, j: int| 0 <= i < j < s.len() ==> s[i].id != s[j].id
}

/// No two item rows share an id; follows from `item_ids_ok`.
pub open spec fn item_ids_distinct(s: Seq<Item>) -> bool {
    forall|i: int, j: int| 0 <= i < j < s.len() ==> s[i].id != s[j].id
}

/// No two history rows share an id; follows from `history_ids_ok`.
pub open spec fn history_ids_distinct(s: Seq<History>) -> bool {
    forall|i: int, j: int| 0 <= i < j < s.len() ==> s[i].id != s[j].id
}

/// No two log rows share a content fingerprint.
pub open spec fn log_hashes_distinct(s: Seq<Log>) -> bool {
    forall|i: int, j: int| 0 <= i < j < s.len() ==> s[i].hash@ != s[j].hash@
}

/// Every item's foreign key, where present, references an existing category.
pub open spec fn items_fk_ok(items: Seq<Item>, categories: Seq<Category>) -> bool {
    forall|i: int|
        0 <= i < items.len() ==> category_fk_ok(categories, (#[trigger] items[i]).category_id)
}

/// Every history references an existing item and carries a real date.
pub open spec fn histories_ok(histories: Seq<History>, items: Seq<Item>) -> bool {
    forall|i: int| 0 <= i < histories.len() ==> item_id_taken(
        items,
        (#[trigger] histories[i]).item_id as int,
    ) && histories[i].purchased_at.wf()
}

/// Every log carries a real date.
pub open spec fn logs_dates_ok(logs: Seq<Log>) -> bool {
    forall|i: int| 0 <= i < logs.len() ==> (#[trigger] logs[i]).purchased_at.wf()
}

/// A taken category id stays taken when a row is appended.
pub proof fn lemma_category_taken_push(s: Seq<Category>, c: Category, id: int)
    requires
        category_id_taken(s, id),
    ensures
        category_id_taken(s.push(c), id),
{
    let w = choose|i: int| 0 <= i < s.len() && s[i].id == id;
    assert(s.push(c)[w] == s[w]);
}

/// A taken category id stays taken when a row is replaced id-for-id.
pub proof fn lemma_category_taken_update(s: Seq<Category>, j: int, c: Category, id: int)
    requires
        0 <= j < s.len(),
        category_id_taken(s, id),
        c.id == s[j].id,
    ensures
        category_id_taken(s.update(j, c), id),
{
    let w = choose|i: int| 0 <= i < s.len() && s[i].id == id;
    if w == j {
        assert(s.update(j, c)[j] == c);
    } else {
        assert(s.update(j, c)[w] == s[w]);
    }
}

/// A taken category id other than the removed row's stays taken.
pub proof fn lemma_category_taken_remove(s: Seq<Category>, j: int, id: int)
    requires
        0 <= j < s.len(),
        category_id_taken(s, id),
        s[j].id != id,
    ensures
        category_id_taken(s.remove(j), id),
{
    let w = choose|i: int| 0 <= i < s.len() && s[i].id == id;
    if w < j {
        assert(s.remove(j)[w] == s[w]);
    } else {
        assert(s.remove(j)[w - 1] == s[w]);
    }
}

/// A taken item id stays taken when a row is appended.
pub proof fn lemma_item_taken_push(s: Seq<Item>, c: Item, id: int)
    requires
        item_id_taken(s, id),
    ensures
        item_id_taken(s.push(c), id),
{
    let w = choose|i: int| 0 <= i < s.len() && s[i].id == id;
    assert(s.push(c)[w] == s[w]);
}

/// A taken item id stays taken when a row is replaced id-for-id.
pub proof fn lemma_item_taken_update(s: Seq<Item>, j: int, c: Item, id: int)
    requires
        0 <= j < s.len(),
        item_id_taken(s, id),
        c.id == s[j].id,
    ensures
        item_id_taken(s.update(j, c), id),
{
    let w = choose|i: int| 0 <= i < s.len() && s[i].id == id;
    if w == j {
        assert(s.update(j, c)[j] == c);
    } else {
        assert(s.update(j, c)[w] == s[w]);
    }
}

/// A taken item id other than the removed row's stays taken.
pub proof fn lemma_item_taken_remove(s: Seq<Item>, j: int, id: int)
    requires
        0 <= j < s.len(),
        item_id_taken(s, id),
        s[j].id != id,
    ensures
        item_id_taken(s.remove(j), id),
{
    let w = choose|i: int| 0 <= i < s.len() && s[i].id == id;
    if w < j {
        assert(s.remove(j)[w] == s[w]);
    } else {
        assert(s.remove(j)[w - 1] == s[w]);
    }
}

impl StoreModel {
    /// The store's invariant: see the module comment.
    pub open spec fn wf(self) -> bool {
        &&& 1 <= self.next_category_id <= i32::MAX
        &&& 1 <= self.next_item_id <= i32::MAX
        &&& 1 <= self.next_history_id <= i32::MAX
        &&& 1 <= self.next_log_id <= i32::MAX
        &&& category_ids_ok(self.categories, self.next_category_id)
        &&& item_ids_ok(self.items, self.next_item_id)
        &&& history_ids_ok(self.histories, self.next_history_id)
        &&& log_ids_ok(self.logs, self.next_log_id)
        &&& log_hashes_distinct(self.logs)
        &&& items_fk_ok(self.items, self.categories)
        &&& histories_ok(self.histories, self.items)
        &&& logs_dates_ok(self.logs)
    }
}

/// The store of an empty, freshly created database.
pub open spec fn empty_store_model() -> StoreModel {
    StoreModel {
        categories: Seq::empty(),
        items: Seq::empty(),
        histories: Seq::empty(),
        logs: Seq::empty(),
        next_category_id: 1,
        next_item_id: 1,
        next_history_id: 1,
        next_log_id: 1,
    }
}

/// The executable store.
pub struct Store {
    pub categories: Vec<Category>,
    pub items: Vec<Item>,
    pub histories: Vec<History>,
    pub logs: Vec<Log>,
    pub next_category_id: i32,
    pub next_item_id: i32,
    pub next_history_id: i32,
    pub next_log_id: i32,
}

impl View for Store {
    type V = StoreModel;

    open spec fn view(&self) -> StoreModel {
        StoreModel {
            categories: self.categories@,
            items: self.items@,
            histories: self.histories@,
            logs: self.logs@,
            next_category_id: self.next_category_id as int,
            next_item_id: self.next_item_id as int,
            next_history_id: self.next_history_id as int,
            next_log_id: self.next_log_id as int,
        }
    }
}

impl Store {
    pub open spec fn wf(self) -> bool {
        self@.wf()
    }

    /// An empty store.
    pub fn new() -> (s: Store)
        ensures
            s@ == empty_store_model(),
            s.wf(),
    {
        let s = Store {
            categories: Vec::new(),
            items: Vec::new(),
            histories: Vec::new(),
            logs: Vec::new(),
            next_category_id: 1,
            next_item_id: 1,
            next_history_id: 1,
            next_log_id: 1,
        };
        proof {
            assert(s@ =~= empty_store_model());
        }
        s
    }
}

fn copy_categories(v: &Vec<Category>) -> (r: Vec<Category>)
    ensures
        r@ == v@,
{
    let mut r: Vec<Category> = Vec::new();
    let mut i: usize = 0;
    while i < v.len()
        invariant
            i <= v.len(),
            r@ =~= v@.subrange(0, i as int),
        decreases v.len() - i,
    {
        r.push(v[i].clone());
        i = i + 1;
    }
    proof {
        assert(r@ =~= v@);
    }
    r
}

fn copy_items(v: &Vec<Item>) -> (r: Vec<Item>)
    ensures
        r@ == v@,
{
    let mut r: Vec<Item> = Vec::new();
    let mut i: usize = 0;
    while i < v.len()
        invariant
            i <= v.len(),
            r@ =~= v@.subrange(0, i as int),
        decreases v.len() - i,
    {
        r.push(v[i].clone());
        i = i + 1;
    }
    proof {
        assert(r@ =~= v@);
    }
    r
}

fn copy_histories(v: &Vec<History>) -> (r: Vec<History>)
    ensures
        r@ == v@,
{
    let mut r: Vec<History> = Vec::new();
    let mut i: usize = 0;
    while i < v.len()
        invariant
            i <= v.len(),
            r@ =~= v@.subrange(0, i as int),
        decreases v.len() - i,
    {
        r.push(v[i].clone());
        i = i + 1;
    }
    proof {
        assert(r@ =~= v@);
    }
    r
}

fn copy_logs(v: &Vec<Log>) -> (r: Vec<Log>)
    ensures
        r@ == v@,
{
    let mut r: Vec<Log> = Vec::new();
    let mut i: usize = 0;
    while i < v.len()
        invariant
            i <= v.len(),
            r@ =~= v@.subrange(0, i as int),
        decreases v.len() - i,
    {
        r.push(v[i].clone());
        i = i + 1;
    }
    proof {
        assert(r@ =~= v@);
    }
    r
}

impl Clone for Store {
    /// A clone carries the same state.
    fn clone(&self) -> (r: Self)
        ensures
            r@ == self@,
    {
        let r = Store {
            categories: copy_categories(&self.categories),
            items: copy_items(&self.items),
            histories: copy_histories(&self.histories),
            logs: copy_logs(&self.logs),
            next_category_id: self.next_category_id,
            next_item_id: self.next_item_id,
            next_history_id: self.next_history_id,
            next_log_id: self.next_log_id,
        };
        proof {
            assert(r@ =~= self@);
        }
        r
    }
}

} // verus!

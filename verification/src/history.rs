//! Purchase histories: the legacy normalized shape for one purchase event,
//! keyed to an item.

use vstd::prelude::*;

use crate::PersistenceError;
use crate::date::Date;
use crate::item::Item;
use crate::store::Store;
use crate::store::StoreModel;
use crate::store::history_id_taken;
use crate::store::item_id_taken;

verus! {

/// A persisted history row; `item_id` references an item.
#[derive(Debug, PartialEq, Eq, Hash)]
pub struct History {
    pub id: i32,
    pub item_id: i32,
    pub price: i32,
    pub purchased_at: Date,
}

/// Creation payload for a history; the store assigns the id.
#[derive(Debug, PartialEq, Eq, Hash)]
pub struct NewHistory {
    pub item_id: i32,
    pub price: i32,
    pub purchased_at: Date,
}

impl Clone for History {
    fn clone(&self) -> (r: Self)
        ensures
            r == *self,
    {
        History {
            id: self.id,
            item_id: self.item_id,
            price: self.price,
            purchased_at: self.purchased_at,
        }
    }
}

impl Clone for NewHistory {
    fn clone(&self) -> (r: Self)
        ensures
            r == *self,
    {
        NewHistory { item_id: self.item_id, price: self.price, purchased_at: self.purchased_at }
    }
}

/// The row index of the history with the id; meaningful only when the id is
/// taken and ids are unique.
pub open spec fn history_row(s: Seq<History>, id: int) -> int {
    choose|i: int| 0 <= i < s.len() && s[i].id == id
}

/// What `create` does: a new row with the next id, unless the referenced
/// item is missing (foreign-key violation).
pub open spec fn spec_create(m: StoreModel, new: NewHistory) -> (StoreModel, Result<
    History,
    PersistenceError,
>) {
    if !item_id_taken(m.items, new.item_id as int) {
        (m, Err(PersistenceError::Constraint))
    } else {
        let history = History {
            id: m.next_history_id as i32,
            item_id: new.item_id,
            price: new.price,
            purchased_at: new.purchased_at,
        };
        (
            StoreModel {
                histories: m.histories.push(history),
                next_history_id: m.next_history_id + 1,
                ..m
            },
            Ok(history),
        )
    }
}

/// What `find` returns: the row with the id, if there is one.
pub open spec fn spec_find(m: StoreModel, id: int) -> Option<History> {
    if history_id_taken(m.histories, id) {
        Some(m.histories[history_row(m.histories, id)])
    } else {
        None
    }
}

/// What `update` does: replaces the row keyed by `edit.id`; a missing row
/// is the non-fatal `None`; a dangling `item_id` is a foreign-key
/// violation.
pub open spec fn spec_update(m: StoreModel, edit: History) -> (StoreModel, Result<
    Option<()>,
    PersistenceError,
>) {
    if !history_id_taken(m.histories, edit.id as int) {
        (m, Ok(None))
    } else if !item_id_taken(m.items, edit.item_id as int) {
        (m, Err(PersistenceError::Constraint))
    } else {
        (
            StoreModel {
                histories: m.histories.update(history_row(m.histories, edit.id as int), edit),
                ..m
            },
            Ok(Some(())),
        )
    }
}

/// What `delete` does: removes the row with the id; a missing row is the
/// non-fatal `None`. A history has no child rows.
pub open spec fn spec_delete(m: StoreModel, id: int) -> (StoreModel, Result<
    Option<()>,
    PersistenceError,
>) {
    if !history_id_taken(m.histories, id) {
        (m, Ok(None))
    } else {
        (StoreModel { histories: m.histories.remove(history_row(m.histories, id)), ..m }, Ok(
            Some(()),
        ))
    }
}

/// Round trip: creating a history and then finding its assigned id returns
/// the created value — the payload's fields under a fresh, non-zero id.
pub proof fn lemma_create_then_find(m: StoreModel, new: NewHistory)
    requires
        m.wf(),
        spec_create(m, new).1 is Ok,
    ensures
        ({
            let m2 = spec_create(m, new).0;
            let created = spec_create(m, new).1.unwrap();
            &&& spec_find(m2, created.id as int) == Some(created)
            &&& created.id != 0
            &&& created.item_id == new.item_id
            &&& created.price == new.price
            &&& created.purchased_at == new.purchased_at
        }),
{
    let m2 = spec_create(m, new).0;
    let created = spec_create(m, new).1.unwrap();
    assert(m2.histories[m.histories.len() as int] == created);
    assert(history_id_taken(m2.histories, created.id as int));
    let w = history_row(m2.histories, created.id as int);
    assert(0 <= w < m2.histories.len() && m2.histories[w].id == created.id);
    if w < m.histories.len() {
        assert(m2.histories[w] == m.histories[w]);
        assert(m.histories[w].id < m.next_history_id);
    }
}

/// Whether some item row carries the id; the foreign-key probe.
fn item_exists(items: &Vec<Item>, id: i32) -> (r: bool)
    ensures
        r == item_id_taken(items@, id as int),
{
    let mut i: usize = 0;
    while i < items.len()
        invariant
            i <= items@.len(),
            forall|j: int| 0 <= j < i ==> (#[trigger] items@[j]).id != id,
        decreases items@.len() - i,
    {
        if items[i].id == id {
            return true;
        }
        i = i + 1;
    }
    false
}

/// The row index holding the id, if any.
fn position_of(histories: &Vec<History>, id: i32) -> (r: Option<usize>)
    requires
        crate::store::history_ids_distinct(histories@),
    ensures
        match r {
            Some(j) => j < histories@.len() && histories@[j as int].id == id && j == history_row(
                histories@,
                id as int,
            ) && history_id_taken(histories@, id as int),
            None => !history_id_taken(histories@, id as int),
        },
{
    let mut i: usize = 0;
    while i < histories.len()
        invariant
            i <= histories@.len(),
            crate::store::history_ids_distinct(histories@),
            forall|j: int| 0 <= j < i ==> (#[trigger] histories@[j]).id != id,
        decreases histories@.len() - i,
    {
        if histories[i].id == id {
            proof {
                let w = history_row(histories@, id as int);
                assert(0 <= w < histories@.len() && histories@[w].id == id);
                if w < i {
                    assert(histories@[w].id != id);
                } else if w > i {
                    assert(histories@[i as int].id != histories@[w].id);
                }
            }
            return Some(i);
        }
        i = i + 1;
    }
    None
}

/// Persists one new history row and hands it back with its assigned id.
/// Fails with `Constraint` iff the referenced item does not exist.
pub fn create(store: &mut Store, new: NewHistory) -> (r: Result<History, PersistenceError>)
    requires
        old(store).wf(),
        new.purchased_at.wf(),
        old(store)@.next_history_id < i32::MAX,
    ensures
        final(store).wf(),
        final(store)@ == spec_create(old(store)@, new).0,
        r == spec_create(old(store)@, new).1,
{
    if !item_exists(&store.items, new.item_id) {
        return Err(PersistenceError::Constraint);
    }
    let id = store.next_history_id;
    store.next_history_id = store.next_history_id + 1;
    let history = History {
        id,
        item_id: new.item_id,
        price: new.price,
        purchased_at: new.purchased_at,
    };
    let handed_back = history.clone();
    store.histories.push(history);
    Ok(handed_back)
}

/// Looks a history up by id; absence is the normal `None`, not an error.
pub fn find(store: &Store, id: i32) -> (r: Option<History>)
    requires
        store.wf(),
    ensures
        r == spec_find(store@, id as int),
{
    match position_of(&store.histories, id) {
        Some(j) => Some(store.histories[j].clone()),
        None => None,
    }
}

/// All persisted history rows, in creation order.
pub fn all(store: &Store) -> (r: Vec<History>)
    ensures
        r@ == store@.histories,
{
    let mut r: Vec<History> = Vec::new();
    let mut i: usize = 0;
    while i < store.histories.len()
        invariant
            i <= store.histories@.len(),
            r@ =~= store.histories@.subrange(0, i as int),
        decreases store.histories@.len() - i,
    {
        r.push(store.histories[i].clone());
        i = i + 1;
    }
    proof {
        assert(r@ =~= store@.histories);
    }
    r
}

/// Replaces the row keyed by `edit.id` with `edit`. `Ok(None)` when no row
/// matched (non-fatal); `Constraint` iff the new `item_id` dangles.
pub fn update(store: &mut Store, edit: History) -> (r: Result<Option<()>, PersistenceError>)
    requires
        old(store).wf(),
        edit.purchased_at.wf(),
    ensures
        final(store).wf(),
        final(store)@ == spec_update(old(store)@, edit).0,
        r == spec_update(old(store)@, edit).1,
{
    let j = match position_of(&store.histories, edit.id) {
        Some(j) => j,
        None => {
            return Ok(None);
        },
    };
    if !item_exists(&store.items, edit.item_id) {
        return Err(PersistenceError::Constraint);
    }
    store.histories.set(j, edit);
    Ok(Some(()))
}

/// Removes the row with the id. `Ok(None)` when no row matched (non-fatal).
/// A history has no child rows, so deletion never hits a constraint.
pub fn delete(store: &mut Store, id: i32) -> (r: Result<Option<()>, PersistenceError>)
    requires
        old(store).wf(),
    ensures
        final(store).wf(),
        final(store)@ == spec_delete(old(store)@, id as int).0,
        r == spec_delete(old(store)@, id as int).1,
        r !is Err,
{
    match position_of(&store.histories, id) {
        Some(j) => {
            store.histories.remove(j);
            Ok(Some(()))
        },
        None => Ok(None),
    }
}

} // verus!

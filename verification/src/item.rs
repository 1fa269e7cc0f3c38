//! Items: the legacy normalized shape for one purchasable thing. `hash` is
//! the content fingerprint of the external record the item was made from.

use vstd::prelude::*;

use crate::PersistenceError;
use crate::category::Category;
use crate::store::Store;
use crate::store::StoreModel;
use crate::store::category_fk_ok;
use crate::store::category_id_taken;
use crate::store::item_id_taken;
use crate::store::item_referenced;

verus! {

/// A persisted item row; `category_id` is a nullable reference to a
/// category.
#[derive(Debug, PartialEq, Eq, Hash)]
pub struct Item {
    pub id: i32,
    pub category_id: Option<i32>,
    pub hash: String,
    pub name: String,
}

/// Creation payload for an item; the store assigns the id.
#[derive(Debug, PartialEq, Eq, Hash)]
pub struct NewItem {
    pub category_id: Option<i32>,
    pub hash: String,
    pub name: String,
}

impl Clone for Item {
    fn clone(&self) -> (r: Self)
        ensures
            r == *self,
    {
        Item {
            id: self.id,
            category_id: self.category_id,
            hash: self.hash.clone(),
            name: self.name.clone(),
        }
    }
}

impl Clone for NewItem {
    fn clone(&self) -> (r: Self)
        ensures
            r == *self,
    {
        NewItem { category_id: self.category_id, hash: self.hash.clone(), name: self.name.clone() }
    }
}

/// The row index of the item with the id; meaningful only when the id is
/// taken and ids are unique.
pub open spec fn item_row(s: Seq<Item>, id: int) -> int {
    choose|i: int| 0 <= i < s.len() && s[i].id == id
}

/// What `create` does: a new row with the next id, unless the payload
/// names a category that is missing (foreign-key violation).
pub open spec fn spec_create(m: StoreModel, new: NewItem) -> (StoreModel, Result<
    Item,
    PersistenceError,
>) {
    if !category_fk_ok(m.categories, new.category_id) {
        (m, Err(PersistenceError::Constraint))
    } else {
        let item = Item {
            id: m.next_item_id as i32,
            category_id: new.category_id,
            hash: new.hash,
            name: new.name,
        };
        (StoreModel { items: m.items.push(item), next_item_id: m.next_item_id + 1, ..m }, Ok(item))
    }
}

/// What `find` returns: the row with the id, if there is one.
pub open spec fn spec_find(m: StoreModel, id: int) -> Option<Item> {
    if item_id_taken(m.items, id) {
        Some(m.items[item_row(m.items, id)])
    } else {
        None
    }
}

/// What `update` does: replaces the row keyed by `edit.id`; a missing row
/// is the non-fatal `None`; a dangling `category_id` is a foreign-key
/// violation.
pub open spec fn spec_update(m: StoreModel, edit: Item) -> (StoreModel, Result<
    Option<()>,
    PersistenceError,
>) {
    if !item_id_taken(m.items, edit.id as int) {
        (m, Ok(None))
    } else if !category_fk_ok(m.categories, edit.category_id) {
        (m, Err(PersistenceError::Constraint))
    } else {
        (StoreModel { items: m.items.update(item_row(m.items, edit.id as int), edit), ..m }, Ok(
            Some(()),
        ))
    }
}

/// What `delete` does: removes the row with the id; a missing row is the
/// non-fatal `None`; a row still referenced by a history cannot go.
pub open spec fn spec_delete(m: StoreModel, id: int) -> (StoreModel, Result<
    Option<()>,
    PersistenceError,
>) {
    if !item_id_taken(m.items, id) {
        (m, Ok(None))
    } else if item_referenced(m.histories, id) {
        (m, Err(PersistenceError::Constraint))
    } else {
        (StoreModel { items: m.items.remove(item_row(m.items, id)), ..m }, Ok(Some(())))
    }
}

/// Round trip: creating an item and then finding its assigned id returns
/// the created value — the payload's fields under a fresh, non-zero id.
pub proof fn lemma_create_then_find(m: StoreModel, new: NewItem)
    requires
        m.wf(),
        spec_create(m, new).1 is Ok,
    ensures
        ({
            let m2 = spec_create(m, new).0;
            let created = spec_create(m, new).1.unwrap();
            &&& spec_find(m2, created.id as int) == Some(created)
            &&& created.id != 0
            &&& created.category_id == new.category_id
            &&& created.hash == new.hash
            &&& created.name == new.name
        }),
{
    let m2 = spec_create(m, new).0;
    let created = spec_create(m, new).1.unwrap();
    assert(m2.items[m.items.len() as int] == created);
    assert(item_id_taken(m2.items, created.id as int));
    let w = item_row(m2.items, created.id as int);
    assert(0 <= w < m2.items.len() && m2.items[w].id == created.id);
    if w < m.items.len() {
        assert(m2.items[w] == m.items[w]);
        assert(m.items[w].id < m.next_item_id);
    }
}

/// Whether the nullable foreign key is in order: absent, or pointing at an
/// existing category row.
pub(crate) fn category_fk_holds(categories: &Vec<Category>, c: Option<i32>) -> (r: bool)
    ensures
        r == category_fk_ok(categories@, c),
{
    match c {
        Some(id) => category_exists(categories, id),
        None => true,
    }
}

/// Whether some category row carries the id; the foreign-key probe.
pub(crate) fn category_exists(categories: &Vec<Category>, id: i32) -> (r: bool)
    ensures
        r == category_id_taken(categories@, id as int),
{
    let mut i: usize = 0;
    while i < categories.len()
        invariant
            i <= categories@.len(),
            forall|j: int| 0 <= j < i ==> (#[trigger] categories@[j]).id != id,
        decreases categories@.len() - i,
    {
        if categories[i].id == id {
            return true;
        }
        i = i + 1;
    }
    false
}

/// The row index holding the id, if any.
fn position_of(items: &Vec<Item>, id: i32) -> (r: Option<usize>)
    requires
        crate::store::item_ids_distinct(items@),
    ensures
        match r {
            Some(j) => j < items@.len() && items@[j as int].id == id && j == item_row(
                items@,
                id as int,
            ) && item_id_taken(items@, id as int),
            None => !item_id_taken(items@, id as int),
        },
{
    let mut i: usize = 0;
    while i < items.len()
        invariant
            i <= items@.len(),
            crate::store::item_ids_distinct(items@),
            forall|j: int| 0 <= j < i ==> (#[trigger] items@[j]).id != id,
        decreases items@.len() - i,
    {
        if items[i].id == id {
            proof {
                let w = item_row(items@, id as int);
                assert(0 <= w < items@.len() && items@[w].id == id);
                if w < i {
                    assert(items@[w].id != id);
                } else if w > i {
                    assert(items@[i as int].id != items@[w].id);
                }
            }
            return Some(i);
        }
        i = i + 1;
    }
    None
}

/// Persists one new item row and hands it back with its assigned id. Fails
/// with `Constraint` iff the payload names a category that does not exist.
pub fn create(store: &mut Store, new: NewItem) -> (r: Result<Item, PersistenceError>)
    requires
        old(store).wf(),
        old(store)@.next_item_id < i32::MAX,
    ensures
        final(store).wf(),
        final(store)@ == spec_create(old(store)@, new).0,
        r == spec_create(old(store)@, new).1,
{
    if !category_fk_holds(&store.categories, new.category_id) {
        return Err(PersistenceError::Constraint);
    }
    let id = store.next_item_id;
    store.next_item_id = store.next_item_id + 1;
    let item = Item { id, category_id: new.category_id, hash: new.hash, name: new.name };
    let handed_back = item.clone();
    store.items.push(item);
    proof {
        assert forall|k: int| 0 <= k < store.histories@.len() implies item_id_taken(
            store.items@,
            (#[trigger] store.histories@[k]).item_id as int,
        ) by {
            crate::store::lemma_item_taken_push(
                old(store).items@,
                handed_back,
                store.histories@[k].item_id as int,
            );
        }
    }
    Ok(handed_back)
}

/// Looks an item up by id; absence is the normal `None`, not an error.
pub fn find(store: &Store, id: i32) -> (r: Option<Item>)
    requires
        store.wf(),
    ensures
        r == spec_find(store@, id as int),
{
    match position_of(&store.items, id) {
        Some(j) => Some(store.items[j].clone()),
        None => None,
    }
}

/// All persisted item rows, in creation order.
pub fn all(store: &Store) -> (r: Vec<Item>)
    ensures
        r@ == store@.items,
{
    let mut r: Vec<Item> = Vec::new();
    let mut i: usize = 0;
    while i < store.items.len()
        invariant
            i <= store.items@.len(),
            r@ =~= store.items@.subrange(0, i as int),
        decreases store.items@.len() - i,
    {
        r.push(store.items[i].clone());
        i = i + 1;
    }
    proof {
        assert(r@ =~= store@.items);
    }
    r
}

/// Replaces the row keyed by `edit.id` with `edit`. `Ok(None)` when no row
/// matched (non-fatal); `Constraint` iff the new `category_id` dangles.
pub fn update(store: &mut Store, edit: Item) -> (r: Result<Option<()>, PersistenceError>)
    requires
        old(store).wf(),
    ensures
        final(store).wf(),
        final(store)@ == spec_update(old(store)@, edit).0,
        r == spec_update(old(store)@, edit).1,
{
    let j = match position_of(&store.items, edit.id) {
        Some(j) => j,
        None => {
            return Ok(None);
        },
    };
    if !category_fk_holds(&store.categories, edit.category_id) {
        return Err(PersistenceError::Constraint);
    }
    let ghost old_items = store.items@;
    store.items.set(j, edit);
    proof {
        assert forall|k: int| 0 <= k < store.histories@.len() implies item_id_taken(
            store.items@,
            (#[trigger] store.histories@[k]).item_id as int,
        ) by {
            crate::store::lemma_item_taken_update(
                old_items,
                j as int,
                edit,
                store.histories@[k].item_id as int,
            );
        }
    }
    Ok(Some(()))
}

/// Removes the row with the id. `Ok(None)` when no row matched (non-fatal);
/// `Constraint` iff a history still references the item.
pub fn delete(store: &mut Store, id: i32) -> (r: Result<Option<()>, PersistenceError>)
    requires
        old(store).wf(),
    ensures
        final(store).wf(),
        final(store)@ == spec_delete(old(store)@, id as int).0,
        r == spec_delete(old(store)@, id as int).1,
{
    let j = match position_of(&store.items, id) {
        Some(j) => j,
        None => {
            return Ok(None);
        },
    };
    let mut i: usize = 0;
    while i < store.histories.len()
        invariant
            store == old(store),
            old(store).wf(),
            i <= store.histories@.len(),
            item_id_taken(store.items@, id as int),
            j == item_row(store.items@, id as int),
            j < store.items@.len(),
            forall|k: int| 0 <= k < i ==> (#[trigger] store.histories@[k]).item_id != id,
        decreases store.histories@.len() - i,
    {
        if store.histories[i].item_id == id {
            return Err(PersistenceError::Constraint);
        }
        i = i + 1;
    }
    let ghost old_items = store.items@;
    store.items.remove(j);
    proof {
        assert forall|k: int| 0 <= k < store.histories@.len() implies item_id_taken(
            store.items@,
            (#[trigger] store.histories@[k]).item_id as int,
        ) by {
            crate::store::lemma_item_taken_remove(
                old_items,
                j as int,
                store.histories@[k].item_id as int,
            );
        }
    }
    Ok(Some(()))
}

/// Returns the most recently created item, seeding the table with an
/// initial item on first use. Fails with `Constraint` iff the table is
/// empty and the given category does not exist.
pub fn test_init(store: &mut Store, category_id: i32) -> (r: Result<Item, PersistenceError>)
    requires
        old(store).wf(),
        old(store)@.next_item_id < i32::MAX,
    ensures
        final(store).wf(),
        match r {
            Ok(it) => if old(store)@.items.len() > 0 {
                &&& it == old(store)@.items.last()
                &&& final(store)@ == old(store)@
            } else {
                &&& it.id == old(store)@.next_item_id
                &&& it.category_id == Some(category_id)
                &&& it.hash@ == "1000"@
                &&& it.name@ == "Initial Item"@
                &&& category_id_taken(old(store)@.categories, category_id as int)
                &&& final(store)@ == (StoreModel {
                    items: old(store)@.items.push(it),
                    next_item_id: old(store)@.next_item_id + 1,
                    ..old(store)@
                })
            },
            Err(e) => {
                &&& e == PersistenceError::Constraint
                &&& old(store)@.items.len() == 0
                &&& !category_id_taken(old(store)@.categories, category_id as int)
                &&& final(store)@ == old(store)@
            },
        },
{
    if store.items.len() == 0 {
        let created = create(
            store,
            NewItem {
                category_id: Some(category_id),
                hash: "1000".to_owned(),
                name: "Initial Item".to_owned(),
            },
        );
        match created {
            Ok(it) => {
                proof {
                    assert(store@ =~= (StoreModel {
                        items: old(store)@.items.push(it),
                        next_item_id: old(store)@.next_item_id + 1,
                        ..old(store)@
                    }));
                }
                Ok(it)
            },
            Err(e) => Err(e),
        }
    } else {
        let last = store.items.len() - 1;
        Ok(store.items[last].clone())
    }
}

} // verus!

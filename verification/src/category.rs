//! Categories: the legacy grouping for items, kept for migration reads.
//! Name uniqueness is a soft invariant, maintained by lookup-or-create
//! rather than by a store constraint.

use vstd::prelude::*;

use crate::PersistenceError;
use crate::store::Store;
use crate::store::StoreModel;
use crate::store::category_id_taken;
use crate::store::category_referenced;

verus! {

/// A persisted category row.
#[derive(Debug, PartialEq, Eq, Hash)]
pub struct Category {
    pub id: i32,
    pub name: String,
}

/// Creation payload for a category; the store assigns the id.
#[derive(Debug, PartialEq, Eq, Hash)]
pub struct NewCategory {
    pub name: String,
}

impl Clone for Category {
    fn clone(&self) -> (r: Self)
        ensures
            r == *self,
    {
        Category { id: self.id, name: self.name.clone() }
    }
}

impl Clone for NewCategory {
    fn clone(&self) -> (r: Self)
        ensures
            r == *self,
    {
        NewCategory { name: self.name.clone() }
    }
}

/// The row index of the category with the id; meaningful only when the id
/// is taken and ids are unique.
pub open spec fn category_row(s: Seq<Category>, id: int) -> int {
    choose|i: int| 0 <= i < s.len() && s[i].id == id
}

/// What `create` does: a new row with the next id. Categories carry no hard
/// constraint, so creation always succeeds.
pub open spec fn spec_create(m: StoreModel, new: NewCategory) -> (StoreModel, Category) {
    let category = Category { id: m.next_category_id as i32, name: new.name };
    (
        StoreModel {
            categories: m.categories.push(category),
            next_category_id: m.next_category_id + 1,
            ..m
        },
        category,
    )
}

/// What `find` returns: the row with the id, if there is one.
pub open spec fn spec_find(m: StoreModel, id: int) -> Option<Category> {
    if category_id_taken(m.categories, id) {
        Some(m.categories[category_row(m.categories, id)])
    } else {
        None
    }
}

/// What `filter` returns: the first row carrying the name, if any.
pub open spec fn spec_filter(s: Seq<Category>, name: Seq<char>) -> Option<Category>
    decreases s.len(),
{
    if s.len() == 0 {
        None
    } else if s[0].name@ == name {
        Some(s[0])
    } else {
        spec_filter(s.skip(1), name)
    }
}

/// What `update` does: replaces the row keyed by `edit.id`; a missing row
/// is the non-fatal `None`.
pub open spec fn spec_update(m: StoreModel, edit: Category) -> (StoreModel, Option<()>) {
    if !category_id_taken(m.categories, edit.id as int) {
        (m, None)
    } else {
        (
            StoreModel {
                categories: m.categories.update(category_row(m.categories, edit.id as int), edit),
                ..m
            },
            Some(()),
        )
    }
}

/// What `delete` does: removes the row with the id; a missing row is the
/// non-fatal `None`; a row still referenced by an item cannot go (children
/// are not cascaded and must be deleted first).
pub open spec fn spec_delete(m: StoreModel, id: int) -> (StoreModel, Result<
    Option<()>,
    PersistenceError,
>) {
    if !category_id_taken(m.categories, id) {
        (m, Ok(None))
    } else if category_referenced(m.items, id) {
        (m, Err(PersistenceError::Constraint))
    } else {
        (
            StoreModel { categories: m.categories.remove(category_row(m.categories, id)), ..m },
            Ok(Some(())),
        )
    }
}


/// Round trip: creating a category and then finding its assigned id returns
/// the created value — the payload's name under a fresh, non-zero id.
pub proof fn lemma_create_then_find(m: StoreModel, new: NewCategory)
    requires
        m.wf(),
    ensures
        ({
            let m2 = spec_create(m, new).0;
            let created = spec_create(m, new).1;
            &&& spec_find(m2, created.id as int) == Some(created)
            &&& created.id != 0
            &&& created.name == new.name
        }),
{
    let m2 = spec_create(m, new).0;
    let created = spec_create(m, new).1;
    assert(m2.categories[m.categories.len() as int] == created);
    assert(category_id_taken(m2.categories, created.id as int));
    let w = category_row(m2.categories, created.id as int);
    assert(0 <= w < m2.categories.len() && m2.categories[w].id == created.id);
    if w < m.categories.len() {
        assert(m2.categories[w] == m.categories[w]);
        assert(m.categories[w].id < m.next_category_id);
    }
}

/// A row that `spec_filter` returns carries the looked-up name.
pub proof fn lemma_spec_filter_name(s: Seq<Category>, name: Seq<char>)
    ensures
        spec_filter(s, name) matches Some(c) ==> c.name@ == name,
    decreases s.len(),
{
    if s.len() > 0 && !(s[0].name@ == name) {
        lemma_spec_filter_name(s.skip(1), name);
    }
}

/// The row index holding the id, if any.
fn position_of(categories: &Vec<Category>, id: i32) -> (r: Option<usize>)
    requires
        crate::store::category_ids_distinct(categories@),
    ensures
        match r {
            Some(j) => j < categories@.len() && categories@[j as int].id == id && j
                == category_row(categories@, id as int) && category_id_taken(
                categories@,
                id as int,
            ),
            None => !category_id_taken(categories@, id as int),
        },
{
    let mut i: usize = 0;
    while i < categories.len()
        invariant
            i <= categories@.len(),
            crate::store::category_ids_distinct(categories@),
            forall|j: int| 0 <= j < i ==> (#[trigger] categories@[j]).id != id,
        decreases categories@.len() - i,
    {
        if categories[i].id == id {
            proof {
                let w = category_row(categories@, id as int);
                assert(0 <= w < categories@.len() && categories@[w].id == id);
                if w < i {
                    assert(categories@[w].id != id);
                } else if w > i {
                    assert(categories@[i as int].id != categories@[w].id);
                }
            }
            return Some(i);
        }
        i = i + 1;
    }
    None
}

/// Persists one new category row and hands it back with its assigned id.
pub fn create(store: &mut Store, new: NewCategory) -> (r: Category)
    requires
        old(store).wf(),
        old(store)@.next_category_id < i32::MAX,
    ensures
        final(store).wf(),
        final(store)@ == spec_create(old(store)@, new).0,
        r == spec_create(old(store)@, new).1,
{
    let id = store.next_category_id;
    store.next_category_id = store.next_category_id + 1;
    let category = Category { id, name: new.name };
    let handed_back = category.clone();
    store.categories.push(category);
    proof {
        assert forall|k: int| 0 <= k < store.items@.len() implies crate::store::category_fk_ok(
            store.categories@,
            (#[trigger] store.items@[k]).category_id,
        ) by {
            match store.items@[k].category_id {
                Some(c) => crate::store::lemma_category_taken_push(
                    old(store).categories@,
                    handed_back,
                    c as int,
                ),
                None => (),
            }
        }
    }
    handed_back
}

/// Looks a category up by id; absence is the normal `None`, not an error.
pub fn find(store: &Store, id: i32) -> (r: Option<Category>)
    requires
        store.wf(),
    ensures
        r == spec_find(store@, id as int),
{
    match position_of(&store.categories, id) {
        Some(j) => Some(store.categories[j].clone()),
        None => None,
    }
}

/// All persisted category rows, in creation order.
pub fn all(store: &Store) -> (r: Vec<Category>)
    ensures
        r@ == store@.categories,
{
    let mut r: Vec<Category> = Vec::new();
    let mut i: usize = 0;
    while i < store.categories.len()
        invariant
            i <= store.categories@.len(),
            r@ =~= store.categories@.subrange(0, i as int),
        decreases store.categories@.len() - i,
    {
        r.push(store.categories[i].clone());
        i = i + 1;
    }
    proof {
        assert(r@ =~= store@.categories);
    }
    r
}

/// The first category carrying the name, if any.
pub fn filter(store: &Store, name: &str) -> (r: Option<Category>)
    ensures
        r == spec_filter(store@.categories, name@),
{
    let wanted: String = name.to_owned();
    let mut i: usize = 0;
    proof {
        assert(store.categories@.skip(0) =~= store.categories@);
    }
    while i < store.categories.len()
        invariant
            i <= store.categories@.len(),
            wanted@ == name@,
            spec_filter(store.categories@, name@) == spec_filter(
                store.categories@.skip(i as int),
                name@,
            ),
        decreases store.categories@.len() - i,
    {
        if store.categories[i].name == wanted {
            proof {
                assert(store.categories@.skip(i as int)[0] == store.categories@[i as int]);
            }
            return Some(store.categories[i].clone());
        }
        proof {
            assert(store.categories@.skip(i as int).skip(1) =~= store.categories@.skip(
                i as int + 1,
            ));
        }
        i = i + 1;
    }
    None
}

/// Replaces the row keyed by `edit.id` with `edit`. `None` when no row
/// matched (already deleted; non-fatal).
pub fn update(store: &mut Store, edit: Category) -> (r: Option<()>)
    requires
        old(store).wf(),
    ensures
        final(store).wf(),
        final(store)@ == spec_update(old(store)@, edit).0,
        r == spec_update(old(store)@, edit).1,
{
    match position_of(&store.categories, edit.id) {
        Some(j) => {
            let ghost old_cats = store.categories@;
            store.categories.set(j, edit);
            proof {
                assert forall|k: int| 0 <= k < store.items@.len() implies crate::store::category_fk_ok(
                    store.categories@,
                    (#[trigger] store.items@[k]).category_id,
                ) by {
                    match store.items@[k].category_id {
                        Some(c) => crate::store::lemma_category_taken_update(
                            old_cats,
                            j as int,
                            edit,
                            c as int,
                        ),
                        None => (),
                    }
                }
            }
            Some(())
        },
        None => None,
    }
}

/// Removes the row with the id. `Ok(None)` when no row matched (non-fatal);
/// `Constraint` iff an item still references the category.
pub fn delete(store: &mut Store, id: i32) -> (r: Result<Option<()>, PersistenceError>)
    requires
        old(store).wf(),
    ensures
        final(store).wf(),
        final(store)@ == spec_delete(old(store)@, id as int).0,
        r == spec_delete(old(store)@, id as int).1,
{
    let j = match position_of(&store.categories, id) {
        Some(j) => j,
        None => {
            return Ok(None);
        },
    };
    let mut i: usize = 0;
    while i < store.items.len()
        invariant
            store == old(store),
            old(store).wf(),
            i <= store.items@.len(),
            category_id_taken(store.categories@, id as int),
            j == category_row(store.categories@, id as int),
            j < store.categories@.len(),
            forall|k: int|
                0 <= k < i ==> !crate::store::references_category(#[trigger] store.items@[k], id as int),
        decreases store.items@.len() - i,
    {
        let hit = match store.items[i].category_id {
            Some(cid) => cid == id,
            None => false,
        };
        if hit {
            return Err(PersistenceError::Constraint);
        }
        i = i + 1;
    }
    let ghost old_cats = store.categories@;
    store.categories.remove(j);
    proof {
        assert forall|k: int| 0 <= k < store.items@.len() implies crate::store::category_fk_ok(
            store.categories@,
            (#[trigger] store.items@[k]).category_id,
        ) by {
            match store.items@[k].category_id {
                Some(c) => crate::store::lemma_category_taken_remove(old_cats, j as int, c as int),
                None => (),
            }
        }
    }
    Ok(Some(()))
}

/// Returns the category named "None Category", creating it on first use.
/// The lookup-or-create step is what keeps the name a soft unique key.
pub fn test_init(store: &mut Store) -> (r: Category)
    requires
        old(store).wf(),
        old(store)@.next_category_id < i32::MAX,
    ensures
        final(store).wf(),
        r.name@ == "None Category"@,
        match spec_filter(old(store)@.categories, "None Category"@) {
            Some(c) => r == c && final(store)@ == old(store)@,
            None => r.id == old(store)@.next_category_id && final(store)@ == (StoreModel {
                categories: old(store)@.categories.push(r),
                next_category_id: old(store)@.next_category_id + 1,
                ..old(store)@
            }),
        },
{
    proof {
        lemma_spec_filter_name(store.categories@, "None Category"@);
    }
    match filter(store, "None Category") {
        Some(c) => c,
        None => {
            let c = create(store, NewCategory { name: "None Category".to_owned() });
            proof {
                assert(store@ =~= (StoreModel {
                    categories: old(store)@.categories.push(c),
                    next_category_id: old(store)@.next_category_id + 1,
                    ..old(store)@
                }));
            }
            c
        },
    }
}

} // verus!

//! Transactional composition: a unit of work is a list of persistence
//! operations, described but not yet executed. Running one against a store
//! is all-or-nothing: the operations are applied in order to a working copy
//! and the copy replaces the store only if every operation succeeded, so a
//! failure in the middle leaves the store exactly as it was.
//!
//! `NotFound` from update and delete is absorbed (a missing row is
//! non-fatal); constraint violations fail the whole unit.

use vstd::prelude::*;

use crate::PersistenceError;
use crate::category;
use crate::category::Category;
use crate::category::NewCategory;
use crate::history;
use crate::history::History;
use crate::history::NewHistory;
use crate::item;
use crate::item::Item;
use crate::item::NewItem;
use crate::log;
use crate::log::Log;
use crate::log::NewLog;
use crate::store::Store;
use crate::store::StoreModel;

verus! {

/// One persistence operation, as a value.
pub enum Op {
    CreateCategory(NewCategory),
    CreateItem(NewItem),
    CreateHistory(NewHistory),
    CreateLog(NewLog),
    UpdateCategory(Category),
    UpdateItem(Item),
    UpdateHistory(History),
    UpdateLog(Log),
    DeleteCategory(i32),
    DeleteItem(i32),
    DeleteHistory(i32),
    DeleteLog(i32),
}

impl Op {
    /// Dates handed to the store must name real calendar days.
    pub open spec fn wf(self) -> bool {
        match self {
            Op::CreateHistory(new) => new.purchased_at.wf(),
            Op::CreateLog(new) => new.purchased_at.wf(),
            Op::UpdateHistory(edit) => edit.purchased_at.wf(),
            Op::UpdateLog(edit) => edit.purchased_at.wf(),
            _ => true,
        }
    }
}

/// How many of the operations create a category row; each one consumes an
/// id of that table.
pub open spec fn creates_category(ops: Seq<Op>) -> nat
    decreases ops.len(),
{
    if ops.len() == 0 {
        0
    } else {
        creates_category(ops.drop_last()) + if ops.last() is CreateCategory {
            1nat
        } else {
            0nat
        }
    }
}

/// How many of the operations create an item row.
pub open spec fn creates_item(ops: Seq<Op>) -> nat
    decreases ops.len(),
{
    if ops.len() == 0 {
        0
    } else {
        creates_item(ops.drop_last()) + if ops.last() is CreateItem {
            1nat
        } else {
            0nat
        }
    }
}

/// How many of the operations create a history row.
pub open spec fn creates_history(ops: Seq<Op>) -> nat
    decreases ops.len(),
{
    if ops.len() == 0 {
        0
    } else {
        creates_history(ops.drop_last()) + if ops.last() is CreateHistory {
            1nat
        } else {
            0nat
        }
    }
}

/// How many of the operations create a log row.
pub open spec fn creates_log(ops: Seq<Op>) -> nat
    decreases ops.len(),
{
    if ops.len() == 0 {
        0
    } else {
        creates_log(ops.drop_last()) + if ops.last() is CreateLog {
            1nat
        } else {
            0nat
        }
    }
}

/// A prefix never creates more rows than the whole list.
pub proof fn lemma_creates_prefix(ops: Seq<Op>, k: int)
    requires
        0 <= k <= ops.len(),
    ensures
        creates_category(ops.subrange(0, k)) <= creates_category(ops),
        creates_item(ops.subrange(0, k)) <= creates_item(ops),
        creates_history(ops.subrange(0, k)) <= creates_history(ops),
        creates_log(ops.subrange(0, k)) <= creates_log(ops),
    decreases ops.len() - k,
{
    if k == ops.len() {
        assert(ops.subrange(0, k) =~= ops);
    } else {
        lemma_creates_prefix(ops, k + 1);
        assert(ops.subrange(0, k + 1).drop_last() =~= ops.subrange(0, k));
        assert(ops.subrange(0, k + 1).last() == ops[k]);
    }
}

/// What one operation does to the store.
pub open spec fn spec_apply(m: StoreModel, op: Op) -> Result<StoreModel, PersistenceError> {
    match op {
        Op::CreateCategory(new) => Ok(category::spec_create(m, new).0),
        Op::CreateItem(new) => {
            let (m2, r) = item::spec_create(m, new);
            match r {
                Ok(_) => Ok(m2),
                Err(e) => Err(e),
            }
        },
        Op::CreateHistory(new) => {
            let (m2, r) = history::spec_create(m, new);
            match r {
                Ok(_) => Ok(m2),
                Err(e) => Err(e),
            }
        },
        Op::CreateLog(new) => {
            let (m2, r) = log::spec_create(m, new);
            match r {
                Ok(_) => Ok(m2),
                Err(e) => Err(e),
            }
        },
        Op::UpdateCategory(edit) => Ok(category::spec_update(m, edit).0),
        Op::UpdateItem(edit) => {
            let (m2, r) = item::spec_update(m, edit);
            match r {
                Ok(_) => Ok(m2),
                Err(e) => Err(e),
            }
        },
        Op::UpdateHistory(edit) => {
            let (m2, r) = history::spec_update(m, edit);
            match r {
                Ok(_) => Ok(m2),
                Err(e) => Err(e),
            }
        },
        Op::UpdateLog(edit) => {
            let (m2, r) = log::spec_update(m, edit);
            match r {
                Ok(_) => Ok(m2),
                Err(e) => Err(e),
            }
        },
        Op::DeleteCategory(id) => {
            let (m2, r) = category::spec_delete(m, id as int);
            match r {
                Ok(_) => Ok(m2),
                Err(e) => Err(e),
            }
        },
        Op::DeleteItem(id) => {
            let (m2, r) = item::spec_delete(m, id as int);
            match r {
                Ok(_) => Ok(m2),
                Err(e) => Err(e),
            }
        },
        Op::DeleteHistory(id) => {
            let (m2, r) = history::spec_delete(m, id as int);
            match r {
                Ok(_) => Ok(m2),
                Err(e) => Err(e),
            }
        },
        Op::DeleteLog(id) => {
            let (m2, r) = log::spec_delete(m, id as int);
            match r {
                Ok(_) => Ok(m2),
                Err(e) => Err(e),
            }
        },
    }
}

/// What a whole unit of work does: the operations in order, short-circuiting
/// on the first failure.
pub open spec fn spec_run(m: StoreModel, ops: Seq<Op>) -> Result<StoreModel, PersistenceError>
    decreases ops.len(),
{
    if ops.len() == 0 {
        Ok(m)
    } else {
        match spec_apply(m, ops[0]) {
            Ok(m2) => spec_run(m2, ops.skip(1)),
            Err(e) => Err(e),
        }
    }
}

/// A composable, not-yet-executed description of persistence work.
pub struct UnitOfWork {
    pub ops: Vec<Op>,
}

impl UnitOfWork {
    pub open spec fn wf(self) -> bool {
        forall|i: int| 0 <= i < self.ops@.len() ==> (#[trigger] self.ops@[i]).wf()
    }

    /// A unit that does nothing.
    pub fn new() -> (u: UnitOfWork)
        ensures
            u.ops@ == Seq::<Op>::empty(),
            u.wf(),
    {
        UnitOfWork { ops: Vec::new() }
    }

    /// Sequences one more operation after the work described so far.
    pub fn enqueue(&mut self, op: Op)
        ensures
            final(self).ops@ == old(self).ops@.push(op),
    {
        self.ops.push(op);
    }
}

/// Applies one operation to the store.
fn apply_op(store: &mut Store, op: &Op) -> (r: Result<(), PersistenceError>)
    requires
        old(store).wf(),
        op.wf(),
        op is CreateCategory ==> old(store)@.next_category_id < i32::MAX,
        op is CreateItem ==> old(store)@.next_item_id < i32::MAX,
        op is CreateHistory ==> old(store)@.next_history_id < i32::MAX,
        op is CreateLog ==> old(store)@.next_log_id < i32::MAX,
    ensures
        final(store).wf(),
        match spec_apply(old(store)@, *op) {
            Ok(m2) => r is Ok && final(store)@ == m2,
            Err(e) => r == Err::<(), PersistenceError>(e) && final(store)@ == old(store)@,
        },
{
    match op {
        Op::CreateCategory(new) => {
            let _ = category::create(store, new.clone());
            Ok(())
        },
        Op::CreateItem(new) => match item::create(store, new.clone()) {
            Ok(_) => Ok(()),
            Err(e) => Err(e),
        },
        Op::CreateHistory(new) => match history::create(store, new.clone()) {
            Ok(_) => Ok(()),
            Err(e) => Err(e),
        },
        Op::CreateLog(new) => match log::create(store, new.clone()) {
            Ok(_) => Ok(()),
            Err(e) => Err(e),
        },
        Op::UpdateCategory(edit) => {
            let _ = category::update(store, edit.clone());
            Ok(())
        },
        Op::UpdateItem(edit) => match item::update(store, edit.clone()) {
            Ok(_) => Ok(()),
            Err(e) => Err(e),
        },
        Op::UpdateHistory(edit) => match history::update(store, edit.clone()) {
            Ok(_) => Ok(()),
            Err(e) => Err(e),
        },
        Op::UpdateLog(edit) => match log::update(store, edit.clone()) {
            Ok(_) => Ok(()),
            Err(e) => Err(e),
        },
        Op::DeleteCategory(id) => match category::delete(store, *id) {
            Ok(_) => Ok(()),
            Err(e) => Err(e),
        },
        Op::DeleteItem(id) => match item::delete(store, *id) {
            Ok(_) => Ok(()),
            Err(e) => Err(e),
        },
        Op::DeleteHistory(id) => match history::delete(store, *id) {
            Ok(_) => Ok(()),
            Err(e) => Err(e),
        },
        Op::DeleteLog(id) => match log::delete(store, *id) {
            Ok(_) => Ok(()),
            Err(e) => Err(e),
        },
    }
}

/// Executes the unit of work as one atomic transaction: either every
/// operation's effect is committed, or the store is left untouched and the
/// first failure is reported.
pub fn run(store: &mut Store, uow: &UnitOfWork) -> (r: Result<(), PersistenceError>)
    requires
        old(store).wf(),
        uow.wf(),
        old(store)@.next_category_id + creates_category(uow.ops@) <= i32::MAX,
        old(store)@.next_item_id + creates_item(uow.ops@) <= i32::MAX,
        old(store)@.next_history_id + creates_history(uow.ops@) <= i32::MAX,
        old(store)@.next_log_id + creates_log(uow.ops@) <= i32::MAX,
    ensures
        final(store).wf(),
        match r {
            Ok(_) => spec_run(old(store)@, uow.ops@) == Ok::<StoreModel, PersistenceError>(
                final(store)@,
            ),
            Err(e) => final(store)@ == old(store)@ && spec_run(old(store)@, uow.ops@) == Err::<
                StoreModel,
                PersistenceError,
            >(e),
        },
{
    let mut work = store.clone();
    let mut i: usize = 0;
    proof {
        assert(uow.ops@.skip(0) =~= uow.ops@);
        assert(uow.ops@.subrange(0, 0) =~= Seq::<Op>::empty());
    }
    while i < uow.ops.len()
        invariant
            store == old(store),
            old(store).wf(),
            uow.wf(),
            work.wf(),
            i <= uow.ops@.len(),
            spec_run(old(store)@, uow.ops@) == spec_run(work@, uow.ops@.skip(i as int)),
            work@.next_category_id == old(store)@.next_category_id + creates_category(
                uow.ops@.subrange(0, i as int),
            ),
            work@.next_item_id == old(store)@.next_item_id + creates_item(
                uow.ops@.subrange(0, i as int),
            ),
            work@.next_history_id == old(store)@.next_history_id + creates_history(
                uow.ops@.subrange(0, i as int),
            ),
            work@.next_log_id == old(store)@.next_log_id + creates_log(
                uow.ops@.subrange(0, i as int),
            ),
            old(store)@.next_category_id + creates_category(uow.ops@) <= i32::MAX,
            old(store)@.next_item_id + creates_item(uow.ops@) <= i32::MAX,
            old(store)@.next_history_id + creates_history(uow.ops@) <= i32::MAX,
            old(store)@.next_log_id + creates_log(uow.ops@) <= i32::MAX,
        decreases uow.ops@.len() - i,
    {
        proof {
            assert(uow.ops@.skip(i as int)[0] == uow.ops@[i as int]);
            assert(uow.ops@.skip(i as int).skip(1) =~= uow.ops@.skip(i as int + 1));
            lemma_creates_prefix(uow.ops@, i as int + 1);
            assert(uow.ops@.subrange(0, i as int + 1).drop_last() =~= uow.ops@.subrange(
                0,
                i as int,
            ));
            assert(uow.ops@.subrange(0, i as int + 1).last() == uow.ops@[i as int]);
        }
        match apply_op(&mut work, &uow.ops[i]) {
            Ok(_) => {},
            Err(e) => {
                return Err(e);
            },
        }
        i = i + 1;
    }
    proof {
        assert(uow.ops@.skip(i as int) =~= Seq::<Op>::empty());
    }
    *store = work;
    Ok(())
}

} // verus!

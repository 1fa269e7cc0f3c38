//! Logs: the denormalized, steady-state shape of one purchase event.
//! `hash` is the content fingerprint of the external record and is the
//! deduplication key the store enforces.

use vstd::prelude::*;

use crate::PersistenceError;
use crate::date::Date;
use crate::store::Store;
use crate::store::StoreModel;
use crate::store::log_hash_taken;
use crate::store::log_id_taken;

verus! {

/// A persisted log row.
#[derive(Debug, PartialEq, Eq, Hash)]
pub struct Log {
    pub id: i32,
    pub hash: String,
    pub name: String,
    pub price: i32,
    pub purchased_at: Date,
}

/// Creation payload for a log; the store assigns the id.
#[derive(Debug, PartialEq, Eq, Hash)]
pub struct NewLog {
    pub hash: String,
    pub name: String,
    pub price: i32,
    pub purchased_at: Date,
}

impl Clone for Log {
    fn clone(&self) -> (r: Self)
        ensures
            r == *self,
    {
        Log {
            id: self.id,
            hash: self.hash.clone(),
            name: self.name.clone(),
            price: self.price,
            purchased_at: self.purchased_at,
        }
    }
}

impl Clone for NewLog {
    fn clone(&self) -> (r: Self)
        ensures
            r == *self,
    {
        NewLog {
            hash: self.hash.clone(),
            name: self.name.clone(),
            price: self.price,
            purchased_at: self.purchased_at,
        }
    }
}

/// The row index of the log with the id; meaningful only when the id is
/// taken and ids are unique.
pub open spec fn log_row(s: Seq<Log>, id: int) -> int {
    choose|i: int| 0 <= i < s.len() && s[i].id == id
}

/// What `create` does to the store: a new row with the next id, holding the
/// payload's fields, unless the content fingerprint is already persisted.
pub open spec fn spec_create(m: StoreModel, new: NewLog) -> (StoreModel, Result<
    Log,
    PersistenceError,
>) {
    if log_hash_taken(m.logs, new.hash@) {
        (m, Err(PersistenceError::Constraint))
    } else {
        let log = Log {
            id: m.next_log_id as i32,
            hash: new.hash,
            name: new.name,
            price: new.price,
            purchased_at: new.purchased_at,
        };
        (StoreModel { logs: m.logs.push(log), next_log_id: m.next_log_id + 1, ..m }, Ok(log))
    }
}

/// What `find` returns: the row with the id, if there is one.
pub open spec fn spec_find(m: StoreModel, id: int) -> Option<Log> {
    if log_id_taken(m.logs, id) {
        Some(m.logs[log_row(m.logs, id)])
    } else {
        None
    }
}

/// What `update` does: replaces the row keyed by `edit.id` wholesale; a
/// missing row is the non-fatal `None`; a fingerprint borrowed from another
/// row is a constraint violation.
pub open spec fn spec_update(m: StoreModel, edit: Log) -> (StoreModel, Result<
    Option<()>,
    PersistenceError,
>) {
    if !log_id_taken(m.logs, edit.id as int) {
        (m, Ok(None))
    } else if exists|i: int|
        0 <= i < m.logs.len() && (#[trigger] m.logs[i]).hash@ == edit.hash@ && m.logs[i].id
            != edit.id {
        (m, Err(PersistenceError::Constraint))
    } else {
        (
            StoreModel { logs: m.logs.update(log_row(m.logs, edit.id as int), edit), ..m },
            Ok(Some(())),
        )
    }
}

/// What `delete` does: removes the row with the id; a missing row is the
/// non-fatal `None`.
pub open spec fn spec_delete(m: StoreModel, id: int) -> (StoreModel, Result<
    Option<()>,
    PersistenceError,
>) {
    if !log_id_taken(m.logs, id) {
        (m, Ok(None))
    } else {
        (StoreModel { logs: m.logs.remove(log_row(m.logs, id)), ..m }, Ok(Some(())))
    }
}

/// Round trip: creating a log and then finding its assigned id returns the
/// created value — the payload's fields under a fresh, non-zero id.
pub proof fn lemma_create_then_find(m: StoreModel, new: NewLog)
    requires
        m.wf(),
        spec_create(m, new).1 is Ok,
    ensures
        ({
            let m2 = spec_create(m, new).0;
            let created = spec_create(m, new).1.unwrap();
            &&& spec_find(m2, created.id as int) == Some(created)
            &&& created.id != 0
            &&& created.hash == new.hash
            &&& created.name == new.name
            &&& created.price == new.price
            &&& created.purchased_at == new.purchased_at
        }),
{
    let m2 = spec_create(m, new).0;
    let created = spec_create(m, new).1.unwrap();
    assert(m2.logs[m.logs.len() as int] == created);
    assert(log_id_taken(m2.logs, created.id as int));
    let w = log_row(m2.logs, created.id as int);
    assert(0 <= w < m2.logs.len() && m2.logs[w].id == created.id);
    if w < m.logs.len() {
        assert(m2.logs[w] == m.logs[w]);
        assert(m.logs[w].id < m.next_log_id);
    }
}

/// Whether some row already carries the content fingerprint.
pub(crate) fn contains_hash(logs: &Vec<Log>, hash: &String) -> (r: bool)
    ensures
        r == log_hash_taken(logs@, hash@),
{
    let mut i: usize = 0;
    while i < logs.len()
        invariant
            i <= logs@.len(),
            forall|j: int| 0 <= j < i ==> (#[trigger] logs@[j]).hash@ != hash@,
        decreases logs@.len() - i,
    {
        if logs[i].hash == *hash {
            return true;
        }
        i = i + 1;
    }
    false
}

/// The row index holding the id, if any.
fn position_of(logs: &Vec<Log>, id: i32) -> (r: Option<usize>)
    requires
        crate::store::log_ids_distinct(logs@),
    ensures
        match r {
            Some(j) => j < logs@.len() && logs@[j as int].id == id && j == log_row(
                logs@,
                id as int,
            ) && log_id_taken(logs@, id as int),
            None => !log_id_taken(logs@, id as int),
        },
{
    let mut i: usize = 0;
    while i < logs.len()
        invariant
            i <= logs@.len(),
            crate::store::log_ids_distinct(logs@),
            forall|j: int| 0 <= j < i ==> (#[trigger] logs@[j]).id != id,
        decreases logs@.len() - i,
    {
        if logs[i].id == id {
            proof {
                let w = log_row(logs@, id as int);
                assert(0 <= w < logs@.len() && logs@[w].id == id);
                if w < i {
                    assert(logs@[w].id != id);
                } else if w > i {
                    assert(logs@[i as int].id != logs@[w].id);
                }
            }
            return Some(i);
        }
        i = i + 1;
    }
    None
}

/// Persists one new log row and hands it back with its assigned id. Fails
/// with `Constraint` iff the payload's fingerprint is already persisted.
pub fn create(store: &mut Store, new: NewLog) -> (r: Result<Log, PersistenceError>)
    requires
        old(store).wf(),
        new.purchased_at.wf(),
        old(store)@.next_log_id < i32::MAX,
    ensures
        final(store).wf(),
        final(store)@ == spec_create(old(store)@, new).0,
        r == spec_create(old(store)@, new).1,
{
    if contains_hash(&store.logs, &new.hash) {
        return Err(PersistenceError::Constraint);
    }
    let id = store.next_log_id;
    store.next_log_id = store.next_log_id + 1;
    let log = Log {
        id,
        hash: new.hash,
        name: new.name,
        price: new.price,
        purchased_at: new.purchased_at,
    };
    let handed_back = log.clone();
    store.logs.push(log);
    Ok(handed_back)
}

/// Looks a log up by id; absence is the normal `None`, not an error.
pub fn find(store: &Store, id: i32) -> (r: Option<Log>)
    requires
        store.wf(),
    ensures
        r == spec_find(store@, id as int),
{
    match position_of(&store.logs, id) {
        Some(j) => Some(store.logs[j].clone()),
        None => None,
    }
}

/// All persisted log rows, in creation order.
pub fn all(store: &Store) -> (r: Vec<Log>)
    ensures
        r@ == store@.logs,
{
    let mut r: Vec<Log> = Vec::new();
    let mut i: usize = 0;
    while i < store.logs.len()
        invariant
            i <= store.logs@.len(),
            r@ =~= store.logs@.subrange(0, i as int),
        decreases store.logs@.len() - i,
    {
        r.push(store.logs[i].clone());
        i = i + 1;
    }
    proof {
        assert(r@ =~= store@.logs);
    }
    r
}

/// Replaces the row keyed by `edit.id` with `edit`. `Ok(None)` when no row
/// matched (already deleted; non-fatal); `Constraint` iff the new
/// fingerprint is carried by a different row.
pub fn update(store: &mut Store, edit: Log) -> (r: Result<Option<()>, PersistenceError>)
    requires
        old(store).wf(),
        edit.purchased_at.wf(),
    ensures
        final(store).wf(),
        final(store)@ == spec_update(old(store)@, edit).0,
        r == spec_update(old(store)@, edit).1,
{
    let j = match position_of(&store.logs, edit.id) {
        Some(j) => j,
        None => {
            return Ok(None);
        },
    };
    let mut i: usize = 0;
    while i < store.logs.len()
        invariant
            store == old(store),
            old(store).wf(),
            log_id_taken(store.logs@, edit.id as int),
            j == log_row(store.logs@, edit.id as int),
            j < store.logs@.len(),
            i <= store.logs@.len(),
            forall|k: int|
                0 <= k < i ==> !((#[trigger] store.logs@[k]).hash@ == edit.hash@
                    && store.logs@[k].id != edit.id),
        decreases store.logs@.len() - i,
    {
        if store.logs[i].hash == edit.hash && store.logs[i].id != edit.id {
            return Err(PersistenceError::Constraint);
        }
        i = i + 1;
    }
    store.logs.set(j, edit);
    Ok(Some(()))
}

/// Removes the row with the id. `Ok(None)` when no row matched (non-fatal).
/// A log has no child rows, so deletion never hits a constraint.
pub fn delete(store: &mut Store, id: i32) -> (r: Result<Option<()>, PersistenceError>)
    requires
        old(store).wf(),
    ensures
        final(store).wf(),
        final(store)@ == spec_delete(old(store)@, id as int).0,
        r == spec_delete(old(store)@, id as int).1,
        r !is Err,
{
    match position_of(&store.logs, id) {
        Some(j) => {
            store.logs.remove(j);
            Ok(Some(()))
        },
        None => Ok(None),
    }
}

} // verus!

//! The sync orchestrator: one cycle resolves the missing date window,
//! fetches it from the external source, maps the raw records to creation
//! payloads, and persists them as one atomic unit of work.
//!
//! Mapping adopts the silent-skip policy: a fetched record whose content
//! fingerprint is already persisted, or repeated earlier in the batch, is
//! skipped rather than reported as a constraint failure. Persisting
//! therefore never violates the store's fingerprint constraint, and a cycle
//! against the in-memory source model always succeeds.

use vstd::prelude::*;

use crate::PersistenceError;
use crate::business::most_recent_of;
use crate::date::Date;
use crate::log;
use crate::log::Log;
use crate::log::NewLog;
use crate::range::Range;
use crate::source::ExternalSource;
use crate::source::RawRecord;
use crate::source::spec_fetch_between;
use crate::store::Store;
use crate::store::StoreModel;
use crate::store::log_hash_taken;
use crate::tx;
use crate::tx::Op;
use crate::tx::UnitOfWork;

verus! {

/// What one finished cycle reports.
#[derive(Clone, Copy, Debug, PartialEq, Eq, Structural)]
pub struct SyncSummary {
    pub fetched_count: usize,
    pub persisted_count: usize,
}

/// How a cycle can fail.
///
/// `InvalidRange` guards the fetch: a window that does not stop before
/// today is rejected before any fetch. `ExternalSource` reports a
/// collaborator that broke its contract (a record outside the requested
/// window). `Persistence` carries a store failure out of the cycle.
#[derive(Clone, Copy, Debug, PartialEq, Eq, Structural)]
pub enum SyncError {
    InvalidRange,
    ExternalSource,
    Persistence(PersistenceError),
}

/// Some record of the batch carries the fingerprint.
pub open spec fn record_hash_in(s: Seq<RawRecord>, h: Seq<char>) -> bool {
    exists|i: int| 0 <= i < s.len() && s[i].hash@ == h
}

/// Some payload of the batch carries the fingerprint.
pub open spec fn new_log_hash_in(s: Seq<NewLog>, h: Seq<char>) -> bool {
    exists|i: int| 0 <= i < s.len() && s[i].hash@ == h
}

/// What mapping does: each fetched record becomes a creation payload
/// carrying `hash`, `name`, `price` and `purchased_at` unchanged, except
/// that a record whose fingerprint is already persisted, or already carried
/// by an earlier record of the batch, is silently skipped.
pub open spec fn spec_map(records: Seq<RawRecord>, logs: Seq<Log>) -> Seq<NewLog>
    decreases records.len(),
{
    if records.len() == 0 {
        Seq::empty()
    } else {
        let rest = spec_map(records.drop_last(), logs);
        let last = records.last();
        if log_hash_taken(logs, last.hash@) || record_hash_in(records.drop_last(), last.hash@) {
            rest
        } else {
            rest.push(
                NewLog {
                    hash: last.hash,
                    name: last.name,
                    price: last.price,
                    purchased_at: last.purchased_at,
                },
            )
        }
    }
}

/// The mapped payloads carry fresh, pairwise distinct fingerprints; each
/// one copies its fields from some record of the batch; a fingerprint that
/// the batch offers and the store lacks is among them; and mapping never
/// yields more payloads than records.
pub proof fn lemma_map_props(records: Seq<RawRecord>, logs: Seq<Log>)
    ensures
        spec_map(records, logs).len() <= records.len(),
        forall|i: int|
            0 <= i < spec_map(records, logs).len() ==> !log_hash_taken(
                logs,
                (#[trigger] spec_map(records, logs)[i]).hash@,
            ),
        forall|i: int, j: int|
            0 <= i < j < spec_map(records, logs).len() ==> spec_map(records, logs)[i].hash@
                != spec_map(records, logs)[j].hash@,
        forall|i: int|
            0 <= i < spec_map(records, logs).len() ==> exists|k: int|
                0 <= k < records.len() && (#[trigger] spec_map(records, logs)[i]) == (NewLog {
                    hash: records[k].hash,
                    name: records[k].name,
                    price: records[k].price,
                    purchased_at: records[k].purchased_at,
                }),
        forall|h: Seq<char>|
            #[trigger] record_hash_in(records, h) && !log_hash_taken(logs, h) ==> new_log_hash_in(
                spec_map(records, logs),
                h,
            ),
    decreases records.len(),
{
    if records.len() > 0 {
        let rest = records.drop_last();
        lemma_map_props(rest, logs);
        let mapped = spec_map(records, logs);
        let mapped_rest = spec_map(rest, logs);
        assert(forall|k: int| 0 <= k < rest.len() ==> rest[k] == records[k]);
        assert forall|i: int| 0 <= i < mapped.len() implies exists|k: int|
            0 <= k < records.len() && (#[trigger] mapped[i]) == (NewLog {
                hash: records[k].hash,
                name: records[k].name,
                price: records[k].price,
                purchased_at: records[k].purchased_at,
            }) by {
            if i < mapped_rest.len() {
                let k = choose|k: int|
                    0 <= k < rest.len() && mapped_rest[i] == (NewLog {
                        hash: rest[k].hash,
                        name: rest[k].name,
                        price: rest[k].price,
                        purchased_at: rest[k].purchased_at,
                    });
                assert(0 <= k < records.len() && mapped[i] == (NewLog {
                    hash: records[k].hash,
                    name: records[k].name,
                    price: records[k].price,
                    purchased_at: records[k].purchased_at,
                }));
            } else {
                assert(mapped[i] == (NewLog {
                    hash: records[records.len() - 1].hash,
                    name: records[records.len() - 1].name,
                    price: records[records.len() - 1].price,
                    purchased_at: records[records.len() - 1].purchased_at,
                }));
            }
        }
        assert forall|h: Seq<char>|
            #[trigger] record_hash_in(records, h) && !log_hash_taken(logs, h) implies
        new_log_hash_in(mapped, h) by {
            let w = choose|i: int| 0 <= i < records.len() && records[i].hash@ == h;
            if w < records.len() - 1 {
                assert(record_hash_in(rest, h));
                let v = choose|i: int| 0 <= i < mapped_rest.len() && mapped_rest[i].hash@ == h;
                assert(mapped[v].hash@ == h);
            } else {
                // the batch's last record carries h
                if record_hash_in(rest, h) {
                    let v = choose|i: int| 0 <= i < mapped_rest.len() && mapped_rest[i].hash@ == h;
                    assert(mapped[v].hash@ == h);
                } else {
                    assert(mapped[mapped.len() - 1].hash@ == h);
                }
            }
        }
    }
}

/// What persisting does: creates every payload in order against the store.
pub open spec fn spec_persist(m: StoreModel, news: Seq<NewLog>) -> StoreModel
    decreases news.len(),
{
    if news.len() == 0 {
        m
    } else {
        spec_persist(log::spec_create(m, news[0]).0, news.skip(1))
    }
}

/// The unit of work that creates every payload.
pub open spec fn ops_of(news: Seq<NewLog>) -> Seq<Op> {
    news.map_values(|n: NewLog| Op::CreateLog(n))
}

/// Persisting payloads with fresh, pairwise distinct fingerprints succeeds
/// as one transaction, and appends exactly one row per payload, in order,
/// with consecutive ids; everything else in the store stays as it was.
pub proof fn lemma_persist(m: StoreModel, news: Seq<NewLog>)
    requires
        m.wf(),
        forall|i: int|
            0 <= i < news.len() ==> !log_hash_taken(m.logs, (#[trigger] news[i]).hash@),
        forall|i: int, j: int| 0 <= i < j < news.len() ==> news[i].hash@ != news[j].hash@,
        forall|i: int| 0 <= i < news.len() ==> (#[trigger] news[i]).purchased_at.wf(),
        m.next_log_id + news.len() <= i32::MAX,
    ensures
        tx::spec_run(m, ops_of(news)) == Ok::<StoreModel, PersistenceError>(spec_persist(m, news)),
        spec_persist(m, news).wf(),
        spec_persist(m, news).logs.len() == m.logs.len() + news.len(),
        forall|i: int|
            0 <= i < m.logs.len() ==> #[trigger] spec_persist(m, news).logs[i] == m.logs[i],
        forall|k: int|
            0 <= k < news.len() ==> {
                let created = #[trigger] spec_persist(m, news).logs[m.logs.len() + k];
                &&& created.hash@ == news[k].hash@
                &&& created.name@ == news[k].name@
                &&& created.price == news[k].price
                &&& created.purchased_at == news[k].purchased_at
                &&& created.id == m.next_log_id + k
            },
        spec_persist(m, news).categories == m.categories,
        spec_persist(m, news).items == m.items,
        spec_persist(m, news).histories == m.histories,
        spec_persist(m, news).next_category_id == m.next_category_id,
        spec_persist(m, news).next_item_id == m.next_item_id,
        spec_persist(m, news).next_history_id == m.next_history_id,
        spec_persist(m, news).next_log_id == m.next_log_id + news.len(),
    decreases news.len(),
{
    if news.len() == 0 {
        assert(ops_of(news) =~= Seq::<Op>::empty());
    } else {
        let first = news[0];
        let (m2, created) = log::spec_create(m, first);
        assert(!log_hash_taken(m.logs, first.hash@));
        assert(m2.logs == m.logs.push(created.unwrap()));
        // the new row keeps the invariant: fresh id, fresh fingerprint
        assert forall|i: int, j: int| 0 <= i < j < m2.logs.len() implies m2.logs[i].hash@
            != m2.logs[j].hash@ by {
            if j == m2.logs.len() - 1 {
                assert(m2.logs[i] == m.logs[i]);
            }
        }
        assert(m2.wf());
        // the remaining payloads stay fresh against the grown table
        assert forall|i: int|
            0 <= i < news.skip(1).len() implies !log_hash_taken(
            m2.logs,
            (#[trigger] news.skip(1)[i]).hash@,
        ) by {
            assert(news.skip(1)[i] == news[i + 1]);
            if log_hash_taken(m2.logs, news[i + 1].hash@) {
                let w = choose|k: int|
                    0 <= k < m2.logs.len() && m2.logs[k].hash@ == news[i + 1].hash@;
                if w < m.logs.len() {
                    assert(m.logs[w].hash@ == news[i + 1].hash@);
                } else {
                    assert(m2.logs[w].hash@ == first.hash@);
                }
            }
        }
        assert(forall|i: int, j: int|
            0 <= i < j < news.skip(1).len() ==> news.skip(1)[i].hash@ != news.skip(1)[j].hash@);
        assert(forall|i: int|
            0 <= i < news.skip(1).len() ==> (#[trigger] news.skip(1)[i]).purchased_at.wf());
        lemma_persist(m2, news.skip(1));
        assert(ops_of(news)[0] == Op::CreateLog(first));
        assert(ops_of(news).skip(1) =~= ops_of(news.skip(1)));
        assert(spec_persist(m, news) == spec_persist(m2, news.skip(1)));
        assert forall|k: int|
            0 <= k < news.len() implies {
            let created_k = #[trigger] spec_persist(m, news).logs[m.logs.len() + k];
            &&& created_k.hash@ == news[k].hash@
            &&& created_k.name@ == news[k].name@
            &&& created_k.price == news[k].price
            &&& created_k.purchased_at == news[k].purchased_at
            &&& created_k.id == m.next_log_id + k
        } by {
            if k == 0 {
                assert(spec_persist(m, news).logs[m.logs.len() as int] == m2.logs[m.logs.len() as int]);
            } else {
                assert(spec_persist(m2, news.skip(1)).logs[m2.logs.len() + (k - 1)]
                    == spec_persist(m, news).logs[m.logs.len() + k]);
                assert(news.skip(1)[k - 1] == news[k]);
            }
        }
    }
}

/// The unit of work of a cycle creates one log per payload and nothing else.
pub proof fn lemma_ops_of_counts(news: Seq<NewLog>)
    ensures
        tx::creates_category(ops_of(news)) == 0,
        tx::creates_item(ops_of(news)) == 0,
        tx::creates_history(ops_of(news)) == 0,
        tx::creates_log(ops_of(news)) == news.len(),
    decreases news.len(),
{
    if news.len() > 0 {
        lemma_ops_of_counts(news.drop_last());
        assert(ops_of(news).drop_last() =~= ops_of(news.drop_last()));
        assert(ops_of(news).last() == Op::CreateLog(news.last()));
    }
}

/// Whether one of the first `upto` records carries the fingerprint.
#[verifier::loop_isolation(false)]
fn hash_in_prefix(records: &Vec<RawRecord>, upto: usize, hash: &String) -> (r: bool)
    requires
        upto <= records@.len(),
    ensures
        r == record_hash_in(records@.subrange(0, upto as int), hash@),
{
    let mut i: usize = 0;
    while i < upto
        invariant
            i <= upto,
            forall|j: int| 0 <= j < i ==> (#[trigger] records@[j]).hash@ != hash@,
        decreases upto - i,
    {
        if records[i].hash == *hash {
            proof {
                assert(records@.subrange(0, upto as int)[i as int] == records@[i as int]);
            }
            return true;
        }
        i = i + 1;
    }
    proof {
        assert(forall|j: int|
            0 <= j < upto ==> (#[trigger] records@.subrange(0, upto as int)[j]) == records@[j]);
    }
    false
}

/// Maps one cycle's fetched records to creation payloads, carrying `hash`,
/// `name`, `price` and `purchased_at` over unchanged and silently skipping
/// any record whose fingerprint is already persisted or repeated within the
/// batch.
#[verifier::loop_isolation(false)]
pub fn map_records(store: &Store, records: &Vec<RawRecord>) -> (r: Vec<NewLog>)
    ensures
        r@ == spec_map(records@, store@.logs),
{
    let mut r: Vec<NewLog> = Vec::new();
    let mut i: usize = 0;
    proof {
        assert(records@.subrange(0, 0) =~= Seq::<RawRecord>::empty());
    }
    while i < records.len()
        invariant
            i <= records@.len(),
            r@ == spec_map(records@.subrange(0, i as int), store@.logs),
        decreases records@.len() - i,
    {
        let rec = &records[i];
        proof {
            assert(records@.subrange(0, i as int + 1).drop_last() =~= records@.subrange(
                0,
                i as int,
            ));
            assert(records@.subrange(0, i as int + 1).last() == records@[i as int]);
        }
        let already_persisted = log::contains_hash(&store.logs, &rec.hash);
        let repeated = hash_in_prefix(records, i, &rec.hash);
        if !already_persisted && !repeated {
            r.push(
                NewLog {
                    hash: rec.hash.clone(),
                    name: rec.name.clone(),
                    price: rec.price,
                    purchased_at: rec.purchased_at,
                },
            );
        }
        i = i + 1;
    }
    proof {
        assert(records@.subrange(0, records@.len() as int) =~= records@);
    }
    r
}

/// Takes one cycle's fetched records and persists the new ones atomically:
/// maps the batch (silent-skip policy), then creates every payload as one
/// unit of work, which provably cannot hit the fingerprint constraint.
/// Fails with `ExternalSource` — leaving the store untouched — iff the
/// collaborator handed back a record dated outside the requested window.
#[verifier::loop_isolation(false)]
pub fn apply_fetched(store: &mut Store, diff_range: &Range, records: &Vec<RawRecord>) -> (r: Result<
    usize,
    SyncError,
>)
    requires
        old(store).wf(),
        diff_range.wf(),
        forall|i: int| 0 <= i < records@.len() ==> (#[trigger] records@[i]).purchased_at.wf(),
        old(store)@.next_log_id + records@.len() <= i32::MAX,
    ensures
        final(store).wf(),
        match r {
            Ok(n) => {
                &&& forall|i: int|
                    0 <= i < records@.len() ==> diff_range.spec_contains(
                        (#[trigger] records@[i]).purchased_at,
                    )
                &&& n == spec_map(records@, old(store)@.logs).len()
                &&& final(store)@ == spec_persist(
                    old(store)@,
                    spec_map(records@, old(store)@.logs),
                )
            },
            Err(e) => {
                &&& e == SyncError::ExternalSource
                &&& final(store)@ == old(store)@
                &&& exists|i: int|
                    0 <= i < records@.len() && !diff_range.spec_contains(
                        (#[trigger] records@[i]).purchased_at,
                    )
            },
        },
{
    let mut i: usize = 0;
    while i < records.len()
        invariant
            store == old(store),
            i <= records@.len(),
            forall|k: int|
                0 <= k < i ==> diff_range.spec_contains((#[trigger] records@[k]).purchased_at),
        decreases records@.len() - i,
    {
        if !diff_range.contains(&records[i].purchased_at) {
            return Err(SyncError::ExternalSource);
        }
        i = i + 1;
    }
    let mapped = map_records(store, records);
    proof {
        lemma_map_props(records@, store@.logs);
        assert forall|k: int| 0 <= k < mapped@.len() implies (
        #[trigger] mapped@[k]).purchased_at.wf() by {
            let w = choose|w: int|
                0 <= w < records@.len() && mapped@[k] == (NewLog {
                    hash: records@[w].hash,
                    name: records@[w].name,
                    price: records@[w].price,
                    purchased_at: records@[w].purchased_at,
                });
            assert(records@[w].purchased_at.wf());
        }
        lemma_persist(store@, mapped@);
    }
    let mut uow = UnitOfWork::new();
    let mut k: usize = 0;
    proof {
        assert(mapped@.subrange(0, 0) =~= Seq::<NewLog>::empty());
        assert(uow.ops@ =~= ops_of(mapped@.subrange(0, 0)));
    }
    while k < mapped.len()
        invariant
            store == old(store),
            k <= mapped@.len(),
            uow.ops@ == ops_of(mapped@.subrange(0, k as int)),
        decreases mapped@.len() - k,
    {
        uow.enqueue(Op::CreateLog(mapped[k].clone()));
        proof {
            assert(uow.ops@ =~= ops_of(mapped@.subrange(0, k as int + 1)));
        }
        k = k + 1;
    }
    proof {
        assert(mapped@.subrange(0, mapped@.len() as int) =~= mapped@);
        lemma_ops_of_counts(mapped@);
        assert forall|j: int| 0 <= j < uow.ops@.len() implies (#[trigger] uow.ops@[j]).wf() by {
            assert(uow.ops@[j] == Op::CreateLog(mapped@[j]));
        }
    }
    let n = mapped.len();
    match tx::run(store, &uow) {
        Ok(_) => Ok(n),
        Err(e) => Err(SyncError::Persistence(e)),
    }
}

/// The window one cycle must fetch, as a pair of day indexes; `None` when
/// the store is already synced through yesterday (or the source's floor
/// lies after yesterday).
pub open spec fn spec_window(logs: Seq<Log>, floor: Date, today: Date) -> Option<(int, int)> {
    let hi = today.day_index() - 1;
    match most_recent_of(logs) {
        Some(m) => if m.purchased_at.day_index() >= hi {
            None
        } else {
            Some((m.purchased_at.day_index() + 1, hi))
        },
        None => if floor.day_index() > hi {
            None
        } else {
            Some((floor.day_index(), hi))
        },
    }
}

/// What one cycle fetches: the feed's records within the resolved window.
pub open spec fn spec_fetched(m: StoreModel, source: ExternalSource, today: Date) -> Seq<
    RawRecord,
> {
    match spec_window(m.logs, source.floor, today) {
        None => Seq::empty(),
        Some(w) => spec_fetch_between(source.records@, w.0, w.1),
    }
}

/// Runs one full synchronization cycle: resolve the missing window, fetch
/// it, map the records, persist the new ones atomically, and report how
/// many records were fetched and how many persisted.
///
/// An empty window is a no-op success — the summary reports zero counts and
/// nothing is fetched. Against the in-memory source model the cycle always
/// succeeds; the range-validity gate and the collaborator-contract check
/// stand in the path all the same, as they must for any source.
pub fn run_sync_cycle(store: &mut Store, source: &ExternalSource, today: Date) -> (r: Result<
    SyncSummary,
    SyncError,
>)
    requires
        old(store).wf(),
        source.wf(),
        today.wf(),
        today.day_index() >= 1,
        old(store)@.next_log_id + source.records@.len() <= i32::MAX,
    ensures
        final(store).wf(),
        r is Ok,
        ({
            let fetched = spec_fetched(old(store)@, *source, today);
            let mapped = spec_map(fetched, old(store)@.logs);
            r matches Ok(s) ==> {
                &&& s.fetched_count == fetched.len()
                &&& s.persisted_count == mapped.len()
                &&& final(store)@ == spec_persist(old(store)@, mapped)
                &&& final(store)@.logs.len() == old(store)@.logs.len() + s.persisted_count
            }
        }),
{
    let floor_date = crate::source::most_formerly_date(source);
    match crate::business::resolve_range(store, floor_date, today) {
        None => {
            proof {
                assert(spec_fetched(store@, *source, today) =~= Seq::<RawRecord>::empty());
                assert(spec_map(Seq::<RawRecord>::empty(), store@.logs) =~= Seq::<
                    NewLog,
                >::empty());
            }
            Ok(SyncSummary { fetched_count: 0, persisted_count: 0 })
        },
        Some(rg) => {
            if !rg.valid_on(&today) {
                // unreachable: the resolved window always ends yesterday
                return Err(SyncError::InvalidRange);
            }
            let fetched = crate::source::difference_log(source, &rg);
            proof {
                crate::source::lemma_fetch_between_props(
                    source.records@,
                    rg.spec_start().day_index(),
                    rg.spec_end().day_index(),
                );
                assert forall|i: int| 0 <= i < fetched@.len() implies (
                #[trigger] fetched@[i]).purchased_at.wf() by {
                    let w = choose|w: int|
                        0 <= w < source.records@.len() && source.records@[w] == fetched@[i];
                    assert(source.records@[w].purchased_at.wf());
                }
            }
            let n_fetched = fetched.len();
            match apply_fetched(store, &rg, &fetched) {
                Ok(n) => {
                    proof {
                        let mapped = spec_map(fetched@, old(store)@.logs);
                        lemma_map_props(fetched@, old(store)@.logs);
                        assert forall|k: int| 0 <= k < mapped.len() implies (
                        #[trigger] mapped[k]).purchased_at.wf() by {
                            let w = choose|w: int|
                                0 <= w < fetched@.len() && mapped[k] == (NewLog {
                                    hash: fetched@[w].hash,
                                    name: fetched@[w].name,
                                    price: fetched@[w].price,
                                    purchased_at: fetched@[w].purchased_at,
                                });
                            assert(fetched@[w].purchased_at.wf());
                        }
                        lemma_persist(old(store)@, mapped);
                    }
                    Ok(SyncSummary { fetched_count: n_fetched, persisted_count: n })
                },
                Err(e) => Err(e),
            }
        },
    }
}

/// Every persisted log, in creation order: the presentation layer's read.
pub fn list_all_persisted(store: &Store) -> (r: Vec<Log>)
    ensures
        r@ == store@.logs,
{
    log::all(store)
}

/// A store already synced through yesterday makes the cycle a no-op: the
/// window is empty, so nothing is fetched, nothing is persisted, and the
/// store is left exactly as it was.
pub proof fn lemma_synced_store_is_a_noop(m: StoreModel, source: ExternalSource, today: Date)
    requires
        m.wf(),
        most_recent_of(m.logs) matches Some(mr) && mr.purchased_at.day_index() >= today.day_index()
            - 1,
    ensures
        spec_window(m.logs, source.floor, today) is None,
        spec_fetched(m, source, today) == Seq::<RawRecord>::empty(),
        spec_map(spec_fetched(m, source, today), m.logs).len() == 0,
        spec_persist(m, spec_map(spec_fetched(m, source, today), m.logs)) == m,
{
    assert(spec_map(Seq::<RawRecord>::empty(), m.logs) =~= Seq::<NewLog>::empty());
}

/// Idempotence: with no upstream change, a second cycle on the same day
/// persists nothing — every record the second fetch can return already has
/// its fingerprint in the store the first cycle left behind.
pub proof fn lemma_sync_idempotent(m: StoreModel, source: ExternalSource, today: Date)
    requires
        m.wf(),
        source.wf(),
        today.wf(),
        today.day_index() >= 1,
        m.next_log_id + source.records@.len() <= i32::MAX,
    ensures
        ({
            let mapped1 = spec_map(spec_fetched(m, source, today), m.logs);
            let m2 = spec_persist(m, mapped1);
            spec_map(spec_fetched(m2, source, today), m2.logs).len() == 0
        }),
{
    let hi = today.day_index() - 1;
    let fetched1 = spec_fetched(m, source, today);
    let mapped1 = spec_map(fetched1, m.logs);
    let m2 = spec_persist(m, mapped1);
    let fetched2 = spec_fetched(m2, source, today);
    let mapped2 = spec_map(fetched2, m2.logs);

    crate::business::lemma_most_recent_of(m.logs);
    lemma_map_props(fetched1, m.logs);

    match spec_window(m.logs, source.floor, today) {
        None => {
            assert(fetched1 =~= Seq::<RawRecord>::empty());
            assert(mapped1 =~= Seq::<NewLog>::empty());
            assert(m2 == m);
            assert(mapped2.len() == 0);
        },
        Some(w1) => {
            let lo1 = w1.0;
            crate::source::lemma_fetch_between_props(source.records@, lo1, hi);
            // every mapped payload's date is well formed, so the first
            // cycle's persist goes through
            assert forall|k: int| 0 <= k < mapped1.len() implies (
            #[trigger] mapped1[k]).purchased_at.wf() by {
                let v = choose|v: int|
                    0 <= v < fetched1.len() && mapped1[k] == (NewLog {
                        hash: fetched1[v].hash,
                        name: fetched1[v].name,
                        price: fetched1[v].price,
                        purchased_at: fetched1[v].purchased_at,
                    });
                assert(source.records@.contains(fetched1[v]));
                let u = choose|u: int|
                    0 <= u < source.records@.len() && source.records@[u] == fetched1[v];
                assert(source.records@[u].purchased_at.wf());
            }
            lemma_persist(m, mapped1);
            crate::business::lemma_most_recent_of(m2.logs);
            match spec_window(m2.logs, source.floor, today) {
                None => {
                    assert(fetched2 =~= Seq::<RawRecord>::empty());
                    assert(mapped2.len() == 0);
                },
                Some(w2) => {
                    let lo2 = w2.0;
                    // the second window never starts earlier than the first
                    if m.logs.len() > 0 {
                        let mr1 = most_recent_of(m.logs).unwrap();
                        let v = choose|v: int| 0 <= v < m.logs.len() && m.logs[v] == mr1;
                        assert(m2.logs[v] == mr1);
                        let mr2 = most_recent_of(m2.logs).unwrap();
                        assert(!crate::business::more_recent(m2.logs[v], mr2));
                        assert(lo1 <= lo2);
                    } else if mapped1.len() == 0 {
                        assert(m2.logs =~= m.logs);
                        assert(m2 == spec_persist(m, Seq::<NewLog>::empty()));
                        assert(lo2 == lo1);
                    } else {
                        // the store held nothing, so the most recent row is
                        // one the first cycle created, dated within [lo1, hi]
                        let mr2 = most_recent_of(m2.logs).unwrap();
                        let u = choose|u: int| 0 <= u < m2.logs.len() && m2.logs[u] == mr2;
                        assert(m2.logs[m.logs.len() + u] == m2.logs[u]);
                        assert(m2.logs[m.logs.len() + u].purchased_at == mapped1[u].purchased_at);
                        let v = choose|v: int|
                            0 <= v < fetched1.len() && mapped1[u] == (NewLog {
                                hash: fetched1[v].hash,
                                name: fetched1[v].name,
                                price: fetched1[v].price,
                                purchased_at: fetched1[v].purchased_at,
                            });
                        assert(lo1 <= fetched1[v].purchased_at.day_index() <= hi);
                        assert(lo1 <= lo2);
                    }
                    crate::source::lemma_fetch_between_props(source.records@, lo2, hi);
                    // every record the second fetch returns already has its
                    // fingerprint persisted
                    assert forall|i: int| 0 <= i < fetched2.len() implies log_hash_taken(
                        m2.logs,
                        (#[trigger] fetched2[i]).hash@,
                    ) by {
                        let rec = fetched2[i];
                        assert(source.records@.contains(rec));
                        let k = choose|k: int|
                            0 <= k < source.records@.len() && source.records@[k] == rec;
                        assert(lo1 <= rec.purchased_at.day_index() <= hi);
                        assert(crate::source::between_pred(lo1, hi)(source.records@[k]));
                        source.records@.lemma_filter_contains(
                            crate::source::between_pred(lo1, hi),
                            k,
                        );
                        assert(fetched1.contains(rec));
                        let f = choose|f: int| 0 <= f < fetched1.len() && fetched1[f] == rec;
                        assert(fetched1[f].hash@ == rec.hash@);
                        assert(record_hash_in(fetched1, rec.hash@));
                        if log_hash_taken(m.logs, rec.hash@) {
                            let v = choose|v: int|
                                0 <= v < m.logs.len() && m.logs[v].hash@ == rec.hash@;
                            assert(m2.logs[v].hash@ == rec.hash@);
                        } else {
                            assert(new_log_hash_in(mapped1, rec.hash@));
                            let u = choose|u: int|
                                0 <= u < mapped1.len() && mapped1[u].hash@ == rec.hash@;
                            assert(m2.logs[m.logs.len() + u].hash@ == rec.hash@);
                        }
                    }
                    if mapped2.len() > 0 {
                        lemma_map_props(fetched2, m2.logs);
                        let k = choose|k: int|
                            0 <= k < fetched2.len() && mapped2[0] == (NewLog {
                                hash: fetched2[k].hash,
                                name: fetched2[k].name,
                                price: fetched2[k].price,
                                purchased_at: fetched2[k].purchased_at,
                            });
                        assert(log_hash_taken(m2.logs, mapped2[0].hash@));
                        assert(!log_hash_taken(m2.logs, mapped2[0].hash@));
                    }
                },
            }
        },
    }
}

} // verus!

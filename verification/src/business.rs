//! The date-range resolver and its two inputs: the most recently persisted
//! record and the clock.
//!
//! One sync cycle must fetch exactly the days not yet covered by the store:
//! from the day after the most recent persisted record (or from the
//! source's oldest available date when the store is empty) through
//! yesterday. The end is never today, because the source's same-day data
//! may still change.

use vstd::prelude::*;

use chrono::Datelike;

use crate::date::Date;
use crate::log::Log;
use crate::range::Range;
use crate::store::Store;

verus! {

/// Relies on `chrono::Local::now` (with `date_naive` and the `Datelike`
/// accessors) for the clock's current local date. chrono documents `month`
/// as always in 1..=12 and `day` as always in 1..=31; nothing more can be
/// promised of a clock reading.
#[verifier::external_body]
fn local_today_ymd() -> (r: (i32, u32, u32))
    ensures
        1 <= r.1 <= 12,
        1 <= r.2 <= 31,
{
    let now = chrono::Local::now().date_naive();
    (now.year(), now.month(), now.day())
}

/// The clock's current date, when it is representable (a four-digit year).
pub fn today() -> (r: Option<Date>)
    ensures
        r matches Some(d) ==> d.wf(),
{
    let (y, m, d) = local_today_ymd();
    if y < 0 || y > 9999 {
        return None;
    }
    Date::new(y as u32, m, d)
}

/// The day before the clock's current date, when it is representable.
pub fn yesterday() -> (r: Option<Date>)
    ensures
        r matches Some(d) ==> d.wf(),
{
    match today() {
        Some(t) => {
            if t.day_number() >= 1 {
                Some(t.prev_day())
            } else {
                None
            }
        },
        None => None,
    }
}

/// Orders two logs the way the store answers "most recent": by purchase
/// date, ties broken by the higher id (the later insertion).
pub open spec fn more_recent(a: Log, b: Log) -> bool {
    ||| a.purchased_at.day_index() > b.purchased_at.day_index()
    ||| (a.purchased_at.day_index() == b.purchased_at.day_index() && a.id > b.id)
}

/// The most recent log of the rows, if any.
pub open spec fn most_recent_of(s: Seq<Log>) -> Option<Log>
    decreases s.len(),
{
    if s.len() == 0 {
        None
    } else {
        match most_recent_of(s.drop_last()) {
            None => Some(s.last()),
            Some(b) => if more_recent(s.last(), b) {
                Some(s.last())
            } else {
                Some(b)
            },
        }
    }
}

/// The most recent log is one of the rows, and no row is more recent.
pub proof fn lemma_most_recent_of(s: Seq<Log>)
    ensures
        most_recent_of(s) is Some <==> s.len() > 0,
        most_recent_of(s) matches Some(m) ==> (exists|i: int| 0 <= i < s.len() && s[i] == m) && (
        forall|i: int| 0 <= i < s.len() ==> !more_recent(#[trigger] s[i], m)),
    decreases s.len(),
{
    if s.len() > 0 {
        let rest = s.drop_last();
        lemma_most_recent_of(rest);
        assert(forall|i: int| 0 <= i < rest.len() ==> rest[i] == s[i]);
        if rest.len() > 0 {
            let b = most_recent_of(rest).unwrap();
            let w = choose|i: int| 0 <= i < rest.len() && rest[i] == b;
            assert(s[w] == b);
        }
    }
}

/// The most recently persisted log: ordered by `purchased_at` descending,
/// ties broken by `id` descending, limited to one.
pub fn most_recently_log(store: &Store) -> (r: Option<Log>)
    requires
        store.wf(),
    ensures
        r == most_recent_of(store@.logs),
{
    let mut best: Option<Log> = None;
    let mut i: usize = 0;
    proof {
        assert(store.logs@.subrange(0, 0) =~= Seq::<Log>::empty());
    }
    while i < store.logs.len()
        invariant
            store.wf(),
            i <= store.logs@.len(),
            best == most_recent_of(store.logs@.subrange(0, i as int)),
        decreases store.logs@.len() - i,
    {
        proof {
            assert(store.logs@.subrange(0, i as int + 1).drop_last() =~= store.logs@.subrange(
                0,
                i as int,
            ));
            assert(store.logs@.subrange(0, i as int + 1).last() == store.logs@[i as int]);
            lemma_most_recent_of(store.logs@.subrange(0, i as int));
        }
        let cur = &store.logs[i];
        let replace = match &best {
            None => true,
            Some(b) => {
                let ci = cur.purchased_at.day_number();
                let bi = b.purchased_at.day_number();
                ci > bi || (ci == bi && cur.id > b.id)
            },
        };
        if replace {
            best = Some(cur.clone());
        }
        i = i + 1;
    }
    proof {
        assert(store.logs@.subrange(0, store.logs@.len() as int) =~= store.logs@);
    }
    best
}

/// Resolves the window one sync cycle must fetch.
///
/// With persisted history, the window runs from the day after the most
/// recent record through yesterday; for an empty store it runs from the
/// source's oldest available date (`floor_date`) through yesterday. `None`
/// signals an empty window — nothing to fetch, a no-op cycle — and is
/// returned exactly when the store is already synced through yesterday (or
/// the floor lies after yesterday). The resolver never re-requests a day
/// already covered by the most recent persisted record.
pub fn resolve_range(store: &Store, floor_date: Date, today: Date) -> (r: Option<Range>)
    requires
        store.wf(),
        floor_date.wf(),
        today.wf(),
        today.day_index() >= 1,
    ensures
        match most_recent_of(store@.logs) {
            Some(m) => {
                &&& (r is None <==> m.purchased_at.day_index() >= today.day_index() - 1)
                &&& (r matches Some(rg) ==> rg.wf() && rg.spec_start().day_index()
                    == m.purchased_at.day_index() + 1 && rg.spec_end().day_index()
                    == today.day_index() - 1)
            },
            None => {
                &&& (r is None <==> floor_date.day_index() > today.day_index() - 1)
                &&& (r matches Some(rg) ==> rg.wf() && rg.spec_start() == floor_date
                    && rg.spec_end().day_index() == today.day_index() - 1)
            },
        },
{
    let yest = today.prev_day();
    match most_recently_log(store) {
        Some(m) => {
            proof {
                lemma_most_recent_of(store@.logs);
                let w = choose|i: int|
                    0 <= i < store@.logs.len() && store@.logs[i] == most_recent_of(
                        store@.logs,
                    ).unwrap();
                assert(store@.logs[w].purchased_at.wf());
                crate::date::lemma_day_index_max(yest);
            }
            if m.purchased_at.before(&yest) {
                let start = m.purchased_at.next_day();
                Some(Range::new(start, yest))
            } else {
                None
            }
        },
        None => {
            if floor_date.on_or_before(&yest) {
                Some(Range::new(floor_date, yest))
            } else {
                None
            }
        },
    }
}

} // verus!

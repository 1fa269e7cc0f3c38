//! The external purchase-history feed, as the synchronization engine sees
//! it: an oldest available date (the floor) and the append-only records,
//! queryable only by date range.
//!
//! A `RawRecord` is what one fetched row carries; fetching a range returns
//! the records whose purchase date falls within it, in feed order.

use vstd::prelude::*;

use crate::date::Date;
use crate::range::Range;

verus! {

/// One raw purchase event as the external source reports it.
#[derive(Debug, PartialEq, Eq, Hash)]
pub struct RawRecord {
    pub hash: String,
    pub name: String,
    pub price: i32,
    pub purchased_at: Date,
}

impl Clone for RawRecord {
    fn clone(&self) -> (r: Self)
        ensures
            r == *self,
    {
        RawRecord {
            hash: self.hash.clone(),
            name: self.name.clone(),
            price: self.price,
            purchased_at: self.purchased_at,
        }
    }
}

/// The external source: its oldest still-available date and its records.
pub struct ExternalSource {
    pub floor: Date,
    pub records: Vec<RawRecord>,
}

impl ExternalSource {
    /// Every reported date names a real calendar day.
    pub open spec fn wf(self) -> bool {
        &&& self.floor.wf()
        &&& forall|i: int|
            0 <= i < self.records@.len() ==> (#[trigger] self.records@[i]).purchased_at.wf()
    }
}

/// Whether a record's purchase date lies in `[lo, hi]` (bounds as day
/// indexes).
pub open spec fn between_pred(lo: int, hi: int) -> spec_fn(RawRecord) -> bool {
    |r: RawRecord| lo <= r.purchased_at.day_index() <= hi
}

/// The records whose purchase date lies in `[lo, hi]`, in feed order.
pub open spec fn spec_fetch_between(s: Seq<RawRecord>, lo: int, hi: int) -> Seq<RawRecord> {
    s.filter(between_pred(lo, hi))
}

/// What fetching guarantees: no more records than the feed holds, every
/// fetched record dated within the window, and every fetched record drawn
/// from the feed.
pub proof fn lemma_fetch_between_props(s: Seq<RawRecord>, lo: int, hi: int)
    ensures
        spec_fetch_between(s, lo, hi).len() <= s.len(),
        forall|i: int|
            0 <= i < spec_fetch_between(s, lo, hi).len() ==> lo <= (#[trigger] spec_fetch_between(
                s,
                lo,
                hi,
            )[i]).purchased_at.day_index() <= hi,
        forall|i: int|
            0 <= i < spec_fetch_between(s, lo, hi).len() ==> s.contains(
                #[trigger] spec_fetch_between(s, lo, hi)[i],
            ),
{
    let pred = between_pred(lo, hi);
    let picked = s.filter(pred);
    s.lemma_filter_len(pred);
    assert forall|i: int| 0 <= i < picked.len() implies lo <= (
    #[trigger] picked[i]).purchased_at.day_index() <= hi by {
        s.lemma_filter_pred(pred, i);
    }
    assert forall|i: int| 0 <= i < picked.len() implies s.contains(#[trigger] picked[i]) by {
        assert(picked.contains(picked[i]));
        s.lemma_filter_contains_rev(pred, picked[i]);
    }
}

/// Records dated in non-decreasing feed order.
pub open spec fn dates_ascending(s: Seq<RawRecord>) -> bool {
    forall|i: int, j: int|
        0 <= i < j < s.len() ==> s[i].purchased_at.day_index() <= s[j].purchased_at.day_index()
}

/// Fetching keeps the feed's order: a feed that ascends by date hands back
/// a range that ascends by date.
pub proof fn lemma_fetch_keeps_order(s: Seq<RawRecord>, lo: int, hi: int)
    requires
        dates_ascending(s),
    ensures
        dates_ascending(spec_fetch_between(s, lo, hi)),
    decreases s.len(),
{
    reveal(Seq::filter);
    let pred = between_pred(lo, hi);
    if s.len() > 0 {
        let rest = s.drop_last();
        assert(forall|i: int| 0 <= i < rest.len() ==> rest[i] == s[i]);
        lemma_fetch_keeps_order(rest, lo, hi);
        let kept = rest.filter(pred);
        if pred(s.last()) {
            assert forall|i: int| 0 <= i < kept.len() implies (
            #[trigger] kept[i]).purchased_at.day_index() <= s.last().purchased_at.day_index() by {
                assert(kept.contains(kept[i]));
                rest.lemma_filter_contains_rev(pred, kept[i]);
                let w = choose|w: int| 0 <= w < rest.len() && rest[w] == kept[i];
                assert(s[w].purchased_at.day_index() <= s[s.len() - 1].purchased_at.day_index());
            }
            assert(s.filter(pred) == kept.push(s.last()));
        }
    }
}

/// The oldest date the source can still return records for.
pub fn most_formerly_date(source: &ExternalSource) -> (r: Date)
    requires
        source.wf(),
    ensures
        r == source.floor,
        r.wf(),
{
    source.floor
}

/// Fetches the records of the range from the source, in feed order.
#[verifier::loop_isolation(false)]
pub fn difference_log(source: &ExternalSource, diff_range: &Range) -> (r: Vec<RawRecord>)
    requires
        source.wf(),
        diff_range.wf(),
    ensures
        r@ == spec_fetch_between(
            source.records@,
            diff_range.spec_start().day_index(),
            diff_range.spec_end().day_index(),
        ),
        dates_ascending(source.records@) ==> dates_ascending(r@),
{
    proof {
        if dates_ascending(source.records@) {
            lemma_fetch_keeps_order(
                source.records@,
                diff_range.spec_start().day_index(),
                diff_range.spec_end().day_index(),
            );
        }
    }
    let ghost pred = between_pred(
        diff_range.spec_start().day_index(),
        diff_range.spec_end().day_index(),
    );
    let mut r: Vec<RawRecord> = Vec::new();
    let mut i: usize = 0;
    proof {
        reveal(Seq::filter);
        assert(source.records@.subrange(0, 0) =~= Seq::<RawRecord>::empty());
        assert(Seq::<RawRecord>::empty().filter(pred) =~= Seq::<RawRecord>::empty());
    }
    while i < source.records.len()
        invariant
            source.wf(),
            diff_range.wf(),
            i <= source.records@.len(),
            r@ == source.records@.subrange(0, i as int).filter(pred),
        decreases source.records@.len() - i,
    {
        let rec = &source.records[i];
        proof {
            reveal(Seq::filter);
            assert(source.records@.subrange(0, i as int + 1).drop_last() =~= source.records@
                .subrange(0, i as int));
            assert(source.records@.subrange(0, i as int + 1).last() == source.records@[i as int]);
            assert(source.records@.subrange(0, i as int + 1).filter(pred) == if pred(
                source.records@[i as int],
            ) {
                source.records@.subrange(0, i as int).filter(pred).push(
                    source.records@[i as int],
                )
            } else {
                source.records@.subrange(0, i as int).filter(pred)
            });
        }
        if diff_range.contains(&rec.purchased_at) {
            r.push(rec.clone());
        }
        i = i + 1;
    }
    proof {
        assert(source.records@.subrange(0, source.records@.len() as int) =~= source.records@);
    }
    r
}

} // verus!

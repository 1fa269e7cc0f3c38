//! The closed date interval handed to the external source, with its
//! validity rule: a range may be fetched only if it stops before today,
//! because the source's data for today may still change.

use vstd::prelude::*;

use crate::date::Date;

verus! {

/// A closed interval of calendar dates; `start <= end` by construction.
#[derive(Clone, Copy, Debug, PartialEq, Eq, Structural)]
pub struct Range {
    start: Date,
    end: Date,
}

impl Range {
    /// The range's first day.
    pub closed spec fn spec_start(self) -> Date {
        self.start
    }

    /// The range's last day.
    pub closed spec fn spec_end(self) -> Date {
        self.end
    }

    pub open spec fn wf(self) -> bool {
        &&& self.spec_start().wf()
        &&& self.spec_end().wf()
        &&& self.spec_start().day_index() <= self.spec_end().day_index()
    }

    /// The date `d` falls within the range.
    pub open spec fn spec_contains(self, d: Date) -> bool {
        self.spec_start().day_index() <= d.day_index() <= self.spec_end().day_index()
    }

    /// Builds the range `[start, end]`; ranges never run backwards.
    pub fn new(start: Date, end: Date) -> (r: Range)
        requires
            start.wf(),
            end.wf(),
            start.day_index() <= end.day_index(),
        ensures
            r.wf(),
            r.spec_start() == start,
            r.spec_end() == end,
    {
        Range { start, end }
    }

    pub fn start(&self) -> (r: Date)
        ensures
            r == self.spec_start(),
    {
        self.start
    }

    pub fn end(&self) -> (r: Date)
        ensures
            r == self.spec_end(),
    {
        self.end
    }

    /// True iff the range's end lies strictly after `date`.
    pub fn end_after(&self, date: &Date) -> (r: bool)
        requires
            self.wf(),
            date.wf(),
        ensures
            r == (self.spec_end().day_index() > date.day_index()),
    {
        date.before(&self.end)
    }

    /// True iff the range may be fetched on `today`: its end lies strictly
    /// before today. A range ending today or later is invalid, because the
    /// source's same-day data may still be incomplete.
    pub fn valid_on(&self, today: &Date) -> (r: bool)
        requires
            self.wf(),
            today.wf(),
        ensures
            r == (self.spec_end().day_index() < today.day_index()),
    {
        self.end.before(today)
    }

    /// True iff the date falls within the range.
    pub fn contains(&self, d: &Date) -> (r: bool)
        requires
            self.wf(),
            d.wf(),
        ensures
            r == self.spec_contains(*d),
    {
        self.start.on_or_before(d) && d.on_or_before(&self.end)
    }
}

} // verus!

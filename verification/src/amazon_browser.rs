//! The guard in front of the external source's browser connection: a
//! connection is only opened for a range that is valid on the day it
//! starts, so no fetch can ever ask the source for today's still-changing
//! data.

use vstd::prelude::*;

use crate::business;
use crate::date::Date;
use crate::range::Range;

verus! {

/// A handle scoped to the range a browser connection was opened for. The
/// engine only guards what may be asked of the connection; driving it is the
/// caller's business.
pub struct AmazonBrowser {
    range: Range,
}

impl AmazonBrowser {
    /// The range the connection was opened for.
    pub closed spec fn spec_range(self) -> Range {
        self.range
    }

    /// Wraps the range a connection is to be opened for.
    pub fn new(range: Range) -> (r: Self)
        ensures
            r.spec_range() == range,
    {
        AmazonBrowser { range }
    }

    /// The range the connection was opened for.
    pub fn range(&self) -> (r: Range)
        ensures
            r == self.spec_range(),
    {
        self.range
    }
}

/// Opens a connection for the range only if the range is valid on `on_day`:
/// its end must lie strictly before that day.
pub fn wakeup_browser_on(range: Range, on_day: Date) -> (r: Option<AmazonBrowser>)
    requires
        range.wf(),
        on_day.wf(),
    ensures
        r is Some <==> range.spec_end().day_index() < on_day.day_index(),
        r matches Some(b) ==> b.spec_range() == range,
{
    if range.valid_on(&on_day) {
        Some(AmazonBrowser::new(range))
    } else {
        None
    }
}

/// Opens a connection for the range only if the range is valid today; `None`
/// also when the clock's date cannot be represented.
pub fn wakeup_browser(range: Range) -> (r: Option<AmazonBrowser>)
    requires
        range.wf(),
    ensures
        r matches Some(b) ==> b.spec_range() == range,
{
    match business::today() {
        Some(t) => wakeup_browser_on(range, t),
        None => None,
    }
}

} // verus!

//! The journal entry and its mathematical view.

use vstd::prelude::*;

verus! {

/// The earliest and the latest instant that chrono's `DateTime` can hold:
/// 00:00:00 on January 1 of the year -262143 and 23:59:59 on December 31 of
/// the year 262142, both UTC.
pub const MIN_INSTANT: i64 = -8_334_601_228_800;

pub const MAX_INSTANT: i64 = 8_210_266_876_799;

/// Whether an instant lies in the range of dates that can be written out.
pub open spec fn representable(timestamp: int) -> bool {
    MIN_INSTANT <= timestamp <= MAX_INSTANT
}

/// One journal note: when it was written and what it says.
///
/// `timestamp` counts whole seconds since the Unix epoch, in absolute time.
/// `message` is kept as typed.
#[derive(Clone, Debug, PartialEq, Eq)]
pub struct Entry {
    pub timestamp: i64,
    pub message: String,
}

/// What an entry is, mathematically: an instant and a text.
pub struct EntryView {
    pub timestamp: int,
    pub message: Seq<char>,
}

impl View for Entry {
    type V = EntryView;

    open spec fn view(&self) -> EntryView {
        EntryView { timestamp: self.timestamp as int, message: self.message@ }
    }
}

/// The views of a sequence of entries, in order.
pub open spec fn views(entries: Seq<Entry>) -> Seq<EntryView> {
    Seq::new(entries.len(), |i: int| entries[i]@)
}

impl Entry {
    /// Makes an entry from an instant and a message.
    pub fn new(timestamp: i64, message: String) -> (r: Entry)
        ensures
            r@ == (EntryView { timestamp: timestamp as int, message: message@ }),
    {
        Entry { timestamp, message }
    }

    /// A copy of this entry.
    pub fn duplicate(&self) -> (r: Entry)
        ensures
            r@ == self@,
    {
        Entry { timestamp: self.timestamp, message: self.message.clone() }
    }
}

} // verus!

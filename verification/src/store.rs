//! The entry collection as it is loaded, extended and handed back to be saved.

use vstd::prelude::*;
use chrono::Utc;
use crate::entry::{representable, views, Entry, EntryView};
use crate::text::{join_words, joined, texts};

verus! {

/// Trusted: reads the clock with chrono's `Utc::now` and hands back its
/// `timestamp()`, the whole seconds since the epoch. The result depends on
/// the time of the call; the contract claims only that it is an instant
/// that chrono's `DateTime` can hold, since it is taken from one.
#[verifier::external_body]
fn current_instant() -> (r: i64)
    ensures
        representable(r as int),
{
    Utc::now().timestamp()
}

/// The entries that a store holds, given what was read from it: the entries
/// that were parsed, or none at all where the content could not be parsed.
pub fn loaded(parsed: Option<Vec<Entry>>) -> (r: Vec<Entry>)
    ensures
        match parsed {
            Some(entries) => r == entries,
            None => r@.len() == 0,
        },
{
    match parsed {
        Some(entries) => entries,
        None => Vec::new(),
    }
}

/// The collection after a note of `words` was taken at `timestamp`: with no
/// words nothing is added; otherwise one entry is appended whose message is
/// the words joined by spaces.
pub open spec fn noted(entries: Seq<EntryView>, timestamp: int, words: Seq<Seq<char>>) -> Seq<
    EntryView,
> {
    if words.len() == 0 {
        entries
    } else {
        entries.push(EntryView { timestamp, message: joined(words) })
    }
}

/// Appends a note taken at `timestamp` to the end of `entries`.
///
/// Returns whether an entry was appended, that is whether there were any
/// words. Entries already in the collection are left as they are.
pub fn append_note(entries: &mut Vec<Entry>, timestamp: i64, words: &Vec<String>) -> (r: bool)
    ensures
        r == (words@.len() > 0),
        views(final(entries)@) == noted(views(old(entries)@), timestamp as int, texts(words@)),
        final(entries)@.len() >= old(entries)@.len(),
        final(entries)@.take(old(entries)@.len() as int) == old(entries)@,
{
    if words.len() == 0 {
        proof {
            assert(entries@.take(entries@.len() as int) =~= entries@);
        }
        return false;
    }
    let ghost before = entries@;
    let entry = Entry { timestamp, message: join_words(words) };
    entries.push(entry);
    proof {
        assert(views(entries@) =~= views(before).push(entry@));
        assert(entries@.take(before.len() as int) =~= before);
    }
    true
}

/// Appends a note taken now.
///
/// The entry's instant is the clock's reading at the time of the call, in
/// whole seconds; everything else is as `append_note` says.
pub fn record(entries: &mut Vec<Entry>, words: &Vec<String>) -> (r: bool)
    ensures
        r == (words@.len() > 0),
        exists|now: i64|
            representable(now as int) && views(final(entries)@) == #[trigger] noted(
                views(old(entries)@),
                now as int,
                texts(words@),
            ),
        final(entries)@.len() >= old(entries)@.len(),
        final(entries)@.take(old(entries)@.len() as int) == old(entries)@,
{
    let now = current_instant();
    append_note(entries, now, words)
}

} // verus!

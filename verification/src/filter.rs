//! Selection of entries by an inclusive range of instants.

use vstd::prelude::*;
use crate::date::{fails_with, parse_date, readable, stands_for, DateError};
use crate::entry::{views, Entry, EntryView};

verus! {

/// Whether `timestamp` lies within the bounds that are given.
/// Both bounds are inclusive; an absent bound does not constrain its side.
pub open spec fn within(timestamp: int, from: Option<i64>, to: Option<i64>) -> bool {
    &&& from matches Some(f) ==> f <= timestamp
    &&& to matches Some(t) ==> timestamp <= t
}

/// The entries of `entries` that lie within the bounds, in their order.
pub open spec fn selected(entries: Seq<EntryView>, from: Option<i64>, to: Option<i64>) -> Seq<
    EntryView,
> {
    entries.filter(|e: EntryView| within(e.timestamp, from, to))
}

/// Decides whether an instant lies within the bounds.
pub fn in_range(timestamp: i64, from: Option<i64>, to: Option<i64>) -> (r: bool)
    ensures
        r == within(timestamp as int, from, to),
{
    let above = match from {
        Some(f) => f <= timestamp,
        None => true,
    };
    let below = match to {
        Some(t) => timestamp <= t,
        None => true,
    };
    above && below
}

/// Keeps exactly the entries whose instant lies within `[from, to]`,
/// in the order in which they stand in `entries`.
pub fn filter(entries: &Vec<Entry>, from: Option<i64>, to: Option<i64>) -> (r: Vec<Entry>)
    ensures
        views(r@) == selected(views(entries@), from, to),
{
    let mut out: Vec<Entry> = Vec::new();
    let mut i: usize = 0;
    proof {
        reveal(Seq::filter);
        assert(views(entries@).take(0) =~= Seq::<EntryView>::empty());
        assert(views(out@) =~= Seq::<EntryView>::empty());
    }
    while i < entries.len()
        invariant
            i <= entries.len(),
            views(out@) == selected(views(entries@).take(i as int), from, to),
        decreases entries.len() - i,
    {
        let e = &entries[i];
        let ghost before = out@;
        proof {
            lemma_selected_step(views(entries@), i as int, from, to);
        }
        if in_range(e.timestamp, from, to) {
            out.push(e.duplicate());
            proof {
                assert(views(out@) =~= views(before).push(e@));
            }
        }
        i = i + 1;
    }
    proof {
        assert(views(entries@).take(entries.len() as int) =~= views(entries@));
    }
    out
}

/// Whether `kept` is what `entries` holds between some instants that stand
/// for the dates given: a bound for each date, and none where none is given.
/// Which instant stands for a date is for the local time zone to say.
pub open spec fn selected_between(
    kept: Seq<EntryView>,
    entries: Seq<EntryView>,
    from: Option<String>,
    to: Option<String>,
) -> bool {
    exists|lower: Option<i64>, upper: Option<i64>|
        stands_for(lower, from) && stands_for(upper, to) && kept == #[trigger] selected(
            entries,
            lower,
            upper,
        )
}

/// The side of a range that a bound limits.
#[derive(Clone, Copy, Debug, PartialEq, Eq, Structural)]
pub enum Bound {
    /// The lower bound, the earliest instant kept.
    From,
    /// The upper bound, the latest instant kept.
    To,
}

/// A bound that gives no instant: which one, and why.
#[derive(Clone, Copy, Debug, PartialEq, Eq, Structural)]
pub struct BoundError {
    pub bound: Bound,
    pub cause: DateError,
}

/// Whether a selection between two dates can fail with `e`: the bound that
/// `e` names fails with its cause, and where that is the upper bound the
/// lower one is written in an accepted format.
pub open spec fn bound_fails(e: BoundError, from: Option<String>, to: Option<String>) -> bool {
    match e.bound {
        Bound::From => fails_with(e.cause, from),
        Bound::To => readable(from) && fails_with(e.cause, to),
    }
}

/// Selects the entries between two typed dates.
///
/// Both bounds are parsed before any entry is looked at, `from` first, so a
/// bound that gives no instant fails the whole selection, whatever the
/// entries are. The error names the first bound that failed. With no bound
/// at all every entry is kept.
pub fn filter_dates(entries: &Vec<Entry>, from: Option<String>, to: Option<String>) -> (r: Result<
    Vec<Entry>,
    BoundError,
>)
    ensures
        match r {
            Ok(kept) => selected_between(views(kept@), views(entries@), from, to),
            Err(e) => bound_fails(e, from, to),
        },
        !readable(from) ==> r == Err::<Vec<Entry>, BoundError>(
            BoundError { bound: Bound::From, cause: DateError::Unrecognized },
        ),
        readable(from) && !readable(to) ==> r is Err,
        (from is None && to is None) ==> (r matches Ok(kept) && views(kept@) == views(entries@)),
{
    let lower = match parse_date(from) {
        Ok(bound) => bound,
        Err(cause) => {
            return Err(BoundError { bound: Bound::From, cause });
        },
    };
    let upper = match parse_date(to) {
        Ok(bound) => bound,
        Err(cause) => {
            return Err(BoundError { bound: Bound::To, cause });
        },
    };
    let kept = filter(entries, lower, upper);
    proof {
        lemma_no_bounds_keep_all(views(entries@));
    }
    Ok(kept)
}

/// Selecting from one more entry either appends that entry or changes nothing.
pub proof fn lemma_selected_step(
    entries: Seq<EntryView>,
    i: int,
    from: Option<i64>,
    to: Option<i64>,
)
    requires
        0 <= i < entries.len(),
    ensures
        selected(entries.take(i + 1), from, to) == if within(entries[i].timestamp, from, to) {
            selected(entries.take(i), from, to).push(entries[i])
        } else {
            selected(entries.take(i), from, to)
        },
{
    reveal(Seq::filter);
    assert(entries.take(i + 1).drop_last() =~= entries.take(i));
}

/// Without bounds every entry is kept.
pub proof fn lemma_no_bounds_keep_all(entries: Seq<EntryView>)
    ensures
        selected(entries, None, None) == entries,
    decreases entries.len(),
{
    reveal(Seq::filter);
    if entries.len() > 0 {
        lemma_no_bounds_keep_all(entries.drop_last());
        assert(entries.drop_last().push(entries.last()) =~= entries);
    }
}

/// Between no dates every entry is kept.
pub proof fn lemma_no_dates_keep_all(kept: Seq<EntryView>, entries: Seq<EntryView>)
    requires
        selected_between(kept, entries, None, None),
    ensures
        kept == entries,
{
    lemma_no_bounds_keep_all(entries);
}

/// Both bounds together are the intersection of the two: applying the upper
/// bound to what the lower bound kept gives the same entries as applying
/// both at once.
pub proof fn lemma_both_bounds_intersect(entries: Seq<EntryView>, from: i64, to: i64)
    ensures
        selected(entries, Some(from), Some(to)) == selected(
            selected(entries, Some(from), None),
            None,
            Some(to),
        ),
    decreases entries.len(),
{
    reveal(Seq::filter);
    if entries.len() > 0 {
        let rest = entries.drop_last();
        let last = entries.last();
        lemma_both_bounds_intersect(rest, from, to);
        if within(last.timestamp, Some(from), None) {
            let kept = selected(rest, Some(from), None);
            assert(kept.push(last).drop_last() =~= kept);
        }
    }
}

/// An entry is selected exactly when it stands in the input and lies within
/// the bounds.
pub proof fn lemma_selected_members(
    entries: Seq<EntryView>,
    from: Option<i64>,
    to: Option<i64>,
    e: EntryView,
)
    ensures
        selected(entries, from, to).contains(e) <==> entries.contains(e) && within(
            e.timestamp,
            from,
            to,
        ),
    decreases entries.len(),
{
    reveal(Seq::filter);
    let pred = |x: EntryView| within(x.timestamp, from, to);
    if entries.len() > 0 {
        let rest = entries.drop_last();
        let last = entries.last();
        lemma_selected_members(rest, from, to, e);
        let kept = selected(rest, from, to);
        if entries.contains(e) {
            let i = choose|i: int| 0 <= i < entries.len() && entries[i] == e;
            if i < entries.len() - 1 {
                assert(rest[i] == e);
            }
        }
        if rest.contains(e) {
            let i = choose|i: int| 0 <= i < rest.len() && rest[i] == e;
            assert(entries[i] == e);
        }
        if pred(last) {
            let out = kept.push(last);
            if kept.contains(e) {
                let i = choose|i: int| 0 <= i < kept.len() && kept[i] == e;
                assert(out[i] == e);
            }
            if out.contains(e) {
                let i = choose|i: int| 0 <= i < out.len() && out[i] == e;
                if i < kept.len() {
                    assert(kept[i] == e);
                }
            }
            assert(out[kept.len() as int] == last);
            assert(entries[entries.len() - 1] == last);
        }
    }
}

} // verus!

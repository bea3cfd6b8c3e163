//! Daily summaries: entries grouped by UTC calendar day and merged.

use vstd::prelude::*;
use chrono::{DateTime, DurationRound, TimeDelta};
use crate::entry::{views, Entry, EntryView};
use crate::text::{merge_messages, merged};

verus! {

/// Seconds in one UTC calendar day.
pub const SECONDS_PER_DAY: i64 = 86_400;

/// The longest span, in days, whose length in nanoseconds fits in an `i64`.
pub const MAX_SPAN_DAYS: i64 = 106_751;

/// The earliest and latest instants whose nanosecond count fits in an `i64`.
pub const MIN_TRUNCATABLE: i64 = -9_223_372_036;

pub const MAX_TRUNCATABLE: i64 = 9_223_372_036;

/// The greatest multiple of `span` that is not after `timestamp`.
pub open spec fn span_start(timestamp: int, span: int) -> int {
    timestamp - timestamp % span
}

/// The first instant of the UTC calendar day that holds `timestamp`.
pub open spec fn day_start(timestamp: int) -> int {
    span_start(timestamp, SECONDS_PER_DAY as int)
}

/// Whether an instant can be truncated: its count of nanoseconds since the
/// epoch must fit in an `i64`, which holds from 1677-09-21 to 2262-04-11.
pub open spec fn day_truncatable(timestamp: int) -> bool {
    MIN_TRUNCATABLE <= timestamp <= MAX_TRUNCATABLE
}

/// What truncating `timestamp` to a span of `days` whole days gives: the
/// start of the span where the instant can be truncated, nothing elsewhere.
pub open spec fn truncation(timestamp: i64, days: i64) -> Option<i64> {
    if day_truncatable(timestamp as int) {
        Some(span_start(timestamp as int, days * SECONDS_PER_DAY) as i64)
    } else {
        None
    }
}

/// Trusted: truncates the instant `timestamp` to a span of `days` whole days
/// with chrono's `DurationRound::duration_trunc`, on the `DateTime<Utc>` that
/// `DateTime::from_timestamp` makes of it.
///
/// The contract claims that chrono rounds down to a multiple of the span,
/// counted from the epoch, and that it does so exactly for the instants whose
/// nanosecond count fits in an `i64`; for every other instant it reports an
/// error, which comes back as `None`.
#[verifier::external_body]
fn truncate_to_days(timestamp: i64, days: i64) -> (r: Option<i64>)
    requires
        0 < days <= MAX_SPAN_DAYS,
    ensures
        r == truncation(timestamp, days),
{
    let at = DateTime::from_timestamp(timestamp, 0)?;
    let start = at.duration_trunc(TimeDelta::try_days(days)?).ok()?;
    Some(start.timestamp())
}

/// The merged note of one UTC calendar day.
///
/// `day` is the first instant of the day; `message` holds the messages of the
/// day's entries, merged in the order in which they were met.
#[derive(Clone, Debug, PartialEq, Eq)]
pub struct DailySummary {
    pub day: i64,
    pub message: String,
}

/// What a daily summary is, mathematically: a day and a text.
pub struct SummaryView {
    pub day: int,
    pub message: Seq<char>,
}

impl View for DailySummary {
    type V = SummaryView;

    open spec fn view(&self) -> SummaryView {
        SummaryView { day: self.day as int, message: self.message@ }
    }
}

/// The views of a sequence of daily summaries, in order.
pub open spec fn summary_views(summaries: Seq<DailySummary>) -> Seq<SummaryView> {
    Seq::new(summaries.len(), |i: int| summaries[i]@)
}

/// The summary that a single entry seeds: its day, and its message as typed.
pub open spec fn seed_of(e: EntryView) -> SummaryView {
    SummaryView { day: day_start(e.timestamp), message: e.message }
}

impl Entry {
    /// Truncates an entry to its UTC calendar day.
    ///
    /// Gives the summary that the entry seeds, or `None` where the entry's
    /// instant cannot be truncated.
    pub fn to_daily(val: &Entry) -> (r: Option<DailySummary>)
        ensures
            match r {
                Some(d) => day_truncatable(val@.timestamp) && d@ == seed_of(val@),
                None => !day_truncatable(val@.timestamp),
            },
    {
        match truncate_to_days(val.timestamp, 1) {
            Some(day) => Some(DailySummary { day, message: val.message.clone() }),
            None => None,
        }
    }
}

impl DailySummary {
    /// Merges another summary's message into this one; the day is kept.
    pub fn merge(&mut self, entry: &DailySummary)
        ensures
            final(self)@ == (SummaryView {
                day: old(self)@.day,
                message: merged(old(self)@.message, entry@.message),
            }),
    {
        let msg = merge_messages(self.message.as_str(), entry.message.as_str());
        self.message = msg;
    }
}

/// Whether some entry of `entries` falls on the UTC day that starts at `day`.
pub open spec fn has_day(entries: Seq<EntryView>, day: int) -> bool {
    exists|i: int|
        #![trigger entries[i]]
        0 <= i < entries.len() && day_start(entries[i].timestamp) == day
}

/// Whether some summary of `out` is the one of `day`.
pub open spec fn lists_day(out: Seq<SummaryView>, day: int) -> bool {
    exists|i: int| #![trigger out[i]] 0 <= i < out.len() && out[i].day == day
}

/// The messages of the entries that fall on `day`, in the order of `entries`.
pub open spec fn messages_on(entries: Seq<EntryView>, day: int) -> Seq<Seq<char>> {
    entries.filter(|e: EntryView| day_start(e.timestamp) == day).map_values(
        |e: EntryView| e.message,
    )
}

/// Messages merged pairwise from the left. The first message seeds the
/// result as it is; each further one is merged into the running text.
pub open spec fn merged_all(messages: Seq<Seq<char>>) -> Seq<char>
    decreases messages.len(),
{
    if messages.len() == 0 {
        Seq::empty()
    } else if messages.len() == 1 {
        messages[0]
    } else {
        merged(merged_all(messages.drop_last()), messages.last())
    }
}

/// The merged message of `day`: the messages that fall on it, merged in order.
pub open spec fn day_message(entries: Seq<EntryView>, day: int) -> Seq<char> {
    merged_all(messages_on(entries, day))
}

/// Whether `out` is the daily digest of `entries`: one summary for each day
/// on which an entry falls and for no other, in strictly ascending order of
/// day, each with the merged message of its day.
pub open spec fn is_digest_of(out: Seq<SummaryView>, entries: Seq<EntryView>) -> bool {
    &&& forall|i: int, j: int|
        #![trigger out[i], out[j]]
        0 <= i < j < out.len() ==> out[i].day < out[j].day
    &&& forall|i: int| #![trigger out[i]] 0 <= i < out.len() ==> has_day(entries, out[i].day)
    &&& forall|j: int|
        #![trigger entries[j]]
        0 <= j < entries.len() ==> lists_day(out, day_start(entries[j].timestamp))
    &&& forall|i: int|
        #![trigger out[i]]
        0 <= i < out.len() ==> out[i].message == day_message(entries, out[i].day)
}

/// Whether every entry's instant can be truncated to its day.
pub open spec fn all_truncatable(entries: Seq<EntryView>) -> bool {
    forall|i: int|
        #![trigger entries[i]]
        0 <= i < entries.len() ==> day_truncatable(entries[i].timestamp)
}

/// One more entry adds its message to the messages of its own day only.
pub proof fn lemma_messages_push(entries: Seq<EntryView>, e: EntryView, day: int)
    ensures
        messages_on(entries.push(e), day) == if day_start(e.timestamp) == day {
            messages_on(entries, day).push(e.message)
        } else {
            messages_on(entries, day)
        },
{
    reveal(Seq::filter);
    let pred = |x: EntryView| day_start(x.timestamp) == day;
    let text = |x: EntryView| x.message;
    assert(entries.push(e).drop_last() =~= entries);
    if pred(e) {
        assert(entries.filter(pred).push(e).map_values(text) =~= entries.filter(pred).map_values(
            text,
        ).push(e.message));
    }
}

/// A day has messages exactly when an entry falls on it.
pub proof fn lemma_has_day_messages(entries: Seq<EntryView>, day: int)
    ensures
        has_day(entries, day) <==> messages_on(entries, day).len() > 0,
    decreases entries.len(),
{
    if entries.len() == 0 {
        reveal(Seq::filter);
    } else {
        let rest = entries.drop_last();
        let last = entries.last();
        assert(rest.push(last) =~= entries);
        lemma_has_day_messages(rest, day);
        lemma_messages_push(rest, last, day);
        lemma_has_day_push(rest, last, day);
    }
}

/// After one more entry, the days with entries are those from before and
/// the day of the new entry.
pub proof fn lemma_has_day_push(entries: Seq<EntryView>, e: EntryView, day: int)
    ensures
        has_day(entries.push(e), day) <==> has_day(entries, day) || day_start(e.timestamp) == day,
{
    let more = entries.push(e);
    if has_day(entries, day) {
        let i = choose|i: int|
            #![trigger entries[i]]
            0 <= i < entries.len() && day_start(entries[i].timestamp) == day;
        assert(day_start(more[i].timestamp) == day);
    }
    if day_start(e.timestamp) == day {
        assert(day_start(more[entries.len() as int].timestamp) == day);
    }
    if has_day(more, day) {
        let i = choose|i: int|
            #![trigger more[i]]
            0 <= i < more.len() && day_start(more[i].timestamp) == day;
        if i < entries.len() {
            assert(day_start(entries[i].timestamp) == day);
        }
    }
}

/// How one more entry changes the merged message of a day: not at all where
/// it falls on another day; on its own day it seeds the message if it is the
/// first, and is merged into the running message otherwise.
pub proof fn lemma_day_message_push(entries: Seq<EntryView>, e: EntryView, day: int)
    ensures
        day_message(entries.push(e), day) == if day_start(e.timestamp) != day {
            day_message(entries, day)
        } else if has_day(entries, day) {
            merged(day_message(entries, day), e.message)
        } else {
            e.message
        },
{
    lemma_messages_push(entries, e, day);
    lemma_has_day_messages(entries, day);
    if day_start(e.timestamp) == day {
        let before = messages_on(entries, day);
        assert(before.push(e.message).drop_last() =~= before);
    }
}

/// After a summary is put in, its day is listed and so is every day that
/// was listed before.
proof fn lemma_listed_after_insert(out: Seq<SummaryView>, p: int, seed: SummaryView, day: int)
    requires
        0 <= p <= out.len(),
        lists_day(out, day) || seed.day == day,
    ensures
        lists_day(out.insert(p, seed), day),
{
    let more = out.insert(p, seed);
    if seed.day == day {
        assert(more[p].day == day);
    } else {
        let k = choose|k: int| #![trigger out[k]] 0 <= k < out.len() && out[k].day == day;
        if k < p {
            assert(more[k].day == day);
        } else {
            assert(more[k + 1].day == day);
        }
    }
}

/// The digest after an entry that opens a new day: its seed is put in at the
/// place that keeps the days ascending.
pub proof fn lemma_digest_insert(
    out: Seq<SummaryView>,
    entries: Seq<EntryView>,
    e: EntryView,
    p: int,
)
    requires
        is_digest_of(out, entries),
        0 <= p <= out.len(),
        forall|k: int| #![trigger out[k]] 0 <= k < p ==> out[k].day < day_start(e.timestamp),
        p < out.len() ==> day_start(e.timestamp) < out[p].day,
    ensures
        is_digest_of(out.insert(p, seed_of(e)), entries.push(e)),
{
    let day = day_start(e.timestamp);
    let more = out.insert(p, seed_of(e));
    let all = entries.push(e);
    assert forall|k: int| #![trigger out[k]] p <= k < out.len() implies day < out[k].day by {
        if p < k {
            assert(out[p].day < out[k].day);
        }
    }
    assert(!lists_day(out, day));
    assert(!has_day(entries, day)) by {
        if has_day(entries, day) {
            let j = choose|j: int|
                #![trigger entries[j]]
                0 <= j < entries.len() && day_start(entries[j].timestamp) == day;
            assert(lists_day(out, day_start(entries[j].timestamp)));
        }
    }
    assert forall|i: int, j: int|
        #![trigger more[i], more[j]]
        0 <= i < j < more.len() implies more[i].day < more[j].day by {
        let a = if i < p { i } else { i - 1 };
        let b = if j < p { j } else { j - 1 };
        if i != p && j != p {
            assert(out[a].day < out[b].day);
        } else if i == p {
            assert(day < out[b].day);
        } else {
            assert(out[a].day < day);
        }
    }
    assert forall|i: int| #![trigger more[i]] 0 <= i < more.len() implies has_day(all, more[i].day)
        && more[i].message == day_message(all, more[i].day) by {
        lemma_has_day_push(entries, e, more[i].day);
        lemma_day_message_push(entries, e, more[i].day);
        if i != p {
            let a = if i < p { i } else { i - 1 };
            assert(more[i] == out[a]);
            assert(has_day(entries, out[a].day));
        }
    }
    assert forall|j: int| #![trigger all[j]] 0 <= j < all.len() implies lists_day(
        more,
        day_start(all[j].timestamp),
    ) by {
        if j < entries.len() {
            assert(all[j] == entries[j]);
            assert(lists_day(out, day_start(entries[j].timestamp)));
        }
        lemma_listed_after_insert(out, p, seed_of(e), day_start(all[j].timestamp));
    }
}

/// The summary of a day after one more message was merged into it.
pub open spec fn grown(summary: SummaryView, incoming: Seq<char>) -> SummaryView {
    SummaryView { day: summary.day, message: merged(summary.message, incoming) }
}

/// The digest after an entry that falls on a day already listed: its
/// message is merged into that day's summary, and nothing else changes.
pub proof fn lemma_digest_merge(
    out: Seq<SummaryView>,
    entries: Seq<EntryView>,
    e: EntryView,
    p: int,
)
    requires
        is_digest_of(out, entries),
        0 <= p < out.len(),
        out[p].day == day_start(e.timestamp),
    ensures
        is_digest_of(out.update(p, grown(out[p], e.message)), entries.push(e)),
{
    let day = day_start(e.timestamp);
    let more = out.update(p, grown(out[p], e.message));
    let all = entries.push(e);
    assert forall|i: int, j: int|
        #![trigger more[i], more[j]]
        0 <= i < j < more.len() implies more[i].day < more[j].day by {
        assert(out[i].day < out[j].day);
    }
    assert forall|i: int| #![trigger more[i]] 0 <= i < more.len() implies has_day(all, more[i].day)
        && more[i].message == day_message(all, more[i].day) by {
        lemma_has_day_push(entries, e, more[i].day);
        lemma_day_message_push(entries, e, more[i].day);
        assert(has_day(entries, out[i].day));
        if i < p {
            assert(out[i].day < out[p].day);
        } else if p < i {
            assert(out[p].day < out[i].day);
        }
    }
    assert forall|j: int| #![trigger all[j]] 0 <= j < all.len() implies lists_day(
        more,
        day_start(all[j].timestamp),
    ) by {
        let d = day_start(all[j].timestamp);
        if j < entries.len() {
            assert(all[j] == entries[j]);
            let k = choose|k: int| #![trigger out[k]] 0 <= k < out.len() && out[k].day == d;
            assert(more[k].day == d);
        } else {
            assert(more[p].day == d);
        }
    }
}

/// The place of `day` among summaries in ascending order of day: the index
/// of the first summary that is not before it.
fn slot_for(out: &Vec<DailySummary>, day: i64) -> (p: usize)
    ensures
        p <= out.len(),
        forall|k: int| #![trigger out@[k]] 0 <= k < p ==> out@[k].day < day,
        p < out.len() ==> day <= out@[p as int].day,
{
    let mut p: usize = 0;
    while p < out.len() && out[p].day < day
        invariant
            p <= out.len(),
            forall|k: int| #![trigger out@[k]] 0 <= k < p ==> out@[k].day < day,
        decreases out.len() - p,
    {
        p = p + 1;
    }
    p
}

/// Collapses entries into one summary per UTC calendar day.
///
/// Entries of one day are merged in the order in which they stand in
/// `entries`; the summaries come out in ascending order of day. Gives `None`
/// exactly when some entry's instant cannot be truncated to its day.
pub fn aggregate(entries: &Vec<Entry>) -> (r: Option<Vec<DailySummary>>)
    ensures
        match r {
            Some(out) => all_truncatable(views(entries@)) && is_digest_of(
                summary_views(out@),
                views(entries@),
            ),
            None => !all_truncatable(views(entries@)),
        },
{
    let mut out: Vec<DailySummary> = Vec::new();
    let mut i: usize = 0;
    proof {
        assert(views(entries@).take(0) =~= Seq::<EntryView>::empty());
    }
    while i < entries.len()
        invariant
            i <= entries.len(),
            all_truncatable(views(entries@).take(i as int)),
            is_digest_of(summary_views(out@), views(entries@).take(i as int)),
        decreases entries.len() - i,
    {
        let ghost seen = views(entries@).take(i as int);
        let ghost e = entries@[i as int]@;
        proof {
            assert(views(entries@)[i as int] == e);
            assert(views(entries@).take(i + 1) =~= seen.push(e));
        }
        let seed = match Entry::to_daily(&entries[i]) {
            Some(seed) => seed,
            None => {
                return None;
            },
        };
        let p = slot_for(&out, seed.day);
        let ghost before = summary_views(out@);
        if p < out.len() && out[p].day == seed.day {
            out[p].merge(&seed);
            proof {
                lemma_digest_merge(before, seen, e, p as int);
                let changed = grown(before[p as int], e.message);
                assert(summary_views(out@) =~= before.update(p as int, changed));
            }
        } else {
            proof {
                assert forall|k: int| #![trigger before[k]] 0 <= k < p implies before[k].day
                    < day_start(e.timestamp) by {
                    assert(out@[k].day < seed.day);
                }
                lemma_digest_insert(before, seen, e, p as int);
            }
            out.insert(p, seed);
            proof {
                assert(summary_views(out@) =~= before.insert(p as int, seed_of(e)));
            }
        }
        proof {
            let next = seen.push(e);
            assert forall|k: int| #![trigger next[k]] 0 <= k < next.len() implies day_truncatable(
                next[k].timestamp,
            ) by {
                if k < seen.len() {
                    assert(next[k] == seen[k]);
                }
            }
        }
        i = i + 1;
    }
    proof {
        assert(views(entries@).take(entries.len() as int) =~= views(entries@));
    }
    Some(out)
}

/// The days of a sequence of summaries, in order.
pub open spec fn days_of(out: Seq<SummaryView>) -> Seq<int> {
    out.map_values(|s: SummaryView| s.day)
}

/// Whether the numbers of `days` strictly ascend.
pub open spec fn ascending(days: Seq<int>) -> bool {
    forall|i: int, j: int|
        #![trigger days[i], days[j]]
        0 <= i < j < days.len() ==> days[i] < days[j]
}

/// Two strictly ascending sequences with the same members are equal.
pub proof fn lemma_ascending_same_members(a: Seq<int>, b: Seq<int>)
    requires
        ascending(a),
        ascending(b),
        forall|x: int| a.contains(x) <==> b.contains(x),
    ensures
        a == b,
    decreases a.len(),
{
    if a.len() == 0 {
        if b.len() > 0 {
            assert(b.contains(b[0]));
        }
        assert(a =~= b);
    } else {
        let top = a.last();
        assert(a.contains(top));
        let at = choose|k: int| 0 <= k < b.len() && b[k] == top;
        assert(b.contains(b.last()));
        let back = choose|k: int| 0 <= k < a.len() && a[k] == b.last();
        assert(b.last() == top) by {
            if at < b.len() - 1 {
                assert(b[at] < b[b.len() - 1]);
            }
            if back < a.len() - 1 {
                assert(a[back] < a[a.len() - 1]);
            }
        }
        let a0 = a.drop_last();
        let b0 = b.drop_last();
        assert forall|x: int| a0.contains(x) <==> b0.contains(x) by {
            if a0.contains(x) {
                let i = choose|i: int| 0 <= i < a0.len() && a0[i] == x;
                assert(a[i] == x && a[i] < a[a.len() - 1]);
                assert(a.contains(x));
                let k = choose|k: int| 0 <= k < b.len() && b[k] == x;
                assert(b0[k] == x);
            }
            if b0.contains(x) {
                let i = choose|i: int| 0 <= i < b0.len() && b0[i] == x;
                assert(b[i] == x && b[i] < b[b.len() - 1]);
                assert(b.contains(x));
                let k = choose|k: int| 0 <= k < a.len() && a[k] == x;
                assert(a0[k] == x);
            }
        }
        assert(ascending(a0)) by {
            assert forall|i: int, j: int|
                #![trigger a0[i], a0[j]]
                0 <= i < j < a0.len() implies a0[i] < a0[j] by {
                assert(a[i] < a[j]);
            }
        }
        assert(ascending(b0)) by {
            assert forall|i: int, j: int|
                #![trigger b0[i], b0[j]]
                0 <= i < j < b0.len() implies b0[i] < b0[j] by {
                assert(b[i] < b[j]);
            }
        }
        lemma_ascending_same_members(a0, b0);
        assert(a =~= a0.push(top));
        assert(b =~= b0.push(top));
    }
}

/// The days of a digest are exactly the days on which entries fall,
/// in strictly ascending order.
pub proof fn lemma_digest_days(out: Seq<SummaryView>, entries: Seq<EntryView>)
    requires
        is_digest_of(out, entries),
    ensures
        ascending(days_of(out)),
        forall|day: int| days_of(out).contains(day) <==> has_day(entries, day),
{
    let days = days_of(out);
    assert forall|i: int, j: int|
        #![trigger days[i], days[j]]
        0 <= i < j < days.len() implies days[i] < days[j] by {
        assert(out[i].day < out[j].day);
    }
    assert forall|day: int| days.contains(day) <==> has_day(entries, day) by {
        if days.contains(day) {
            let i = choose|i: int| 0 <= i < days.len() && days[i] == day;
            assert(has_day(entries, out[i].day));
        }
        if has_day(entries, day) {
            let j = choose|j: int|
                #![trigger entries[j]]
                0 <= j < entries.len() && day_start(entries[j].timestamp) == day;
            assert(lists_day(out, day_start(entries[j].timestamp)));
            let k = choose|k: int| #![trigger out[k]] 0 <= k < out.len() && out[k].day == day;
            assert(days[k] == day);
        }
    }
}

/// Entries have one digest only: whatever meets `is_digest_of` for them is
/// the same sequence of summaries.
pub proof fn lemma_digest_unique(a: Seq<SummaryView>, b: Seq<SummaryView>, entries: Seq<EntryView>)
    requires
        is_digest_of(a, entries),
        is_digest_of(b, entries),
    ensures
        a == b,
{
    lemma_digest_days(a, entries);
    lemma_digest_days(b, entries);
    lemma_ascending_same_members(days_of(a), days_of(b));
    assert(a.len() == days_of(a).len() && b.len() == days_of(b).len());
    assert forall|i: int| 0 <= i < a.len() implies a[i] == b[i] by {
        assert(days_of(a)[i] == a[i].day && days_of(b)[i] == b[i].day);
    }
    assert(a =~= b);
}

/// The days of a digest come out in ascending order whatever the order of
/// the entries: two inputs that hold the same entries, each as often as the
/// other, have digests with the same sequence of days.
pub proof fn lemma_digest_days_ignore_order(
    a: Seq<SummaryView>,
    first: Seq<EntryView>,
    b: Seq<SummaryView>,
    second: Seq<EntryView>,
)
    requires
        is_digest_of(a, first),
        is_digest_of(b, second),
        first.to_multiset() == second.to_multiset(),
    ensures
        ascending(days_of(a)),
        days_of(a) == days_of(b),
{
    lemma_digest_days(a, first);
    lemma_digest_days(b, second);
    first.to_multiset_ensures();
    second.to_multiset_ensures();
    assert forall|day: int| has_day(first, day) <==> has_day(second, day) by {
        if has_day(first, day) {
            let i = choose|i: int|
                #![trigger first[i]]
                0 <= i < first.len() && day_start(first[i].timestamp) == day;
            assert(first.contains(first[i]));
            assert(first.to_multiset().count(first[i]) > 0);
            assert(second.to_multiset().count(first[i]) > 0);
            assert(second.contains(first[i]));
            let j = choose|j: int| 0 <= j < second.len() && second[j] == first[i];
            assert(day_start(second[j].timestamp) == day);
        }
        if has_day(second, day) {
            let i = choose|i: int|
                #![trigger second[i]]
                0 <= i < second.len() && day_start(second[i].timestamp) == day;
            assert(second.contains(second[i]));
            assert(second.to_multiset().count(second[i]) > 0);
            assert(first.to_multiset().count(second[i]) > 0);
            assert(first.contains(second[i]));
            let j = choose|j: int| 0 <= j < first.len() && first[j] == second[i];
            assert(day_start(first[j].timestamp) == day);
        }
    }
    lemma_ascending_same_members(days_of(a), days_of(b));
}

/// Two entries of one day have a digest of one summary, which holds the
/// first message merged with the second.
pub proof fn lemma_digest_of_pair(out: Seq<SummaryView>, first: EntryView, second: EntryView)
    requires
        day_start(first.timestamp) == day_start(second.timestamp),
        is_digest_of(out, seq![first, second]),
    ensures
        out == seq![grown(seed_of(first), second.message)],
{
    let day = day_start(first.timestamp);
    let none = Seq::<EntryView>::empty();
    let one = none.push(first);
    let two = one.push(second);
    assert(two =~= seq![first, second]);
    assert(is_digest_of(Seq::<SummaryView>::empty(), none));
    lemma_digest_insert(Seq::<SummaryView>::empty(), none, first, 0);
    let single = Seq::<SummaryView>::empty().insert(0, seed_of(first));
    lemma_digest_merge(single, one, second, 0);
    let both = single.update(0, grown(single[0], second.message));
    lemma_digest_unique(out, both, two);
    assert(both =~= seq![grown(seed_of(first), second.message)]);
}

} // verus!

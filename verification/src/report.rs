//! The lines that the journal prints: entries at their local time, and daily
//! summaries under their local date.

use std::fmt::Write;
use vstd::prelude::*;
use vstd::string::*;
use chrono::{DateTime, FixedOffset, Local};
use crate::daily::{
    aggregate, all_truncatable, day_start, day_truncatable, has_day, is_digest_of, summary_views,
    DailySummary, SummaryView,
};
use crate::entry::{representable, views, Entry, EntryView};
use crate::filter::{bound_fails, filter_dates, selected_between, BoundError};

verus! {

/// Whether a number of seconds can be a time zone's offset from UTC:
/// offsets are shorter than a day, eastward or westward.
pub open spec fn is_offset(offset: int) -> bool {
    -86_400 < offset < 86_400
}

/// Whether `found` can be the local offset at the instant `timestamp`: there
/// is one exactly for the instants that can be written out.
pub open spec fn offset_at(found: Option<i32>, timestamp: int) -> bool {
    match found {
        Some(offset) => representable(timestamp) && is_offset(offset as int),
        None => !representable(timestamp),
    }
}

/// Trusted: the offset of the machine's local time zone from UTC at an
/// instant, in seconds eastward: `offset().local_minus_utc()` of the
/// `DateTime<Local>` that chrono makes of the instant.
///
/// The offset depends on the machine's time zone. The contract claims only
/// what holds in every zone: there is an offset exactly for the instants
/// within chrono's range, and chrono's offsets are shorter than a day.
#[verifier::external_body]
fn local_offset(timestamp: i64) -> (r: Option<i32>)
    ensures
        offset_at(r, timestamp as int),
{
    let at = DateTime::<Local>::from(DateTime::from_timestamp(timestamp, 0)?);
    Some(at.offset().local_minus_utc())
}

/// Whether an instant can be written out at an offset: the instant must lie
/// within the range of dates, and the offset must be shorter than a day.
pub open spec fn displayable(timestamp: int, offset: int) -> bool {
    representable(timestamp) && is_offset(offset)
}

/// The text of what was written, if anything was.
pub open spec fn text_of(written: Option<String>) -> Option<Seq<char>> {
    match written {
        Some(text) => Some(text@),
        None => None,
    }
}

/// The instant `timestamp` as chrono displays it at `offset` seconds east of
/// UTC: the date, the time of day and the offset.
pub uninterp spec fn time_text(timestamp: int, offset: int) -> Option<Seq<char>>;

/// Trusted: writes an instant out at a fixed offset from UTC, as chrono's
/// `DateTime<FixedOffset>` displays it, after `FixedOffset::east_opt`,
/// `DateTime::from_timestamp` and `with_timezone`.
///
/// The contract gives the text the name `time_text` and claims when there is
/// one: exactly for an instant within chrono's range at an offset shorter
/// than a day. Nothing is claimed about the text itself.
#[verifier::external_body]
fn write_time(timestamp: i64, offset: i32) -> (r: Option<String>)
    ensures
        text_of(r) == time_text(timestamp as int, offset as int),
        r is Some <==> displayable(timestamp as int, offset as int),
{
    let zone = FixedOffset::east_opt(offset)?;
    let at = DateTime::from_timestamp(timestamp, 0)?.with_timezone(&zone);
    Some(format!("{}", at))
}

/// The instant `timestamp` as chrono writes it at `offset` seconds east of
/// UTC under the strftime pattern `pattern`, or nothing where it cannot.
pub uninterp spec fn formatted(timestamp: int, offset: int, pattern: Seq<char>) -> Option<
    Seq<char>,
>;

/// The pattern of a date: year, month and day.
pub open spec fn date_pattern() -> Seq<char> {
    "%Y-%m-%d"@
}

/// Whether `written` is there when it must be: never for an instant or an
/// offset out of range, and under the date pattern always for the others.
pub open spec fn written_when(
    written: Option<String>,
    timestamp: int,
    offset: int,
    pattern: Seq<char>,
) -> bool {
    &&& written is Some ==> displayable(timestamp, offset)
    &&& pattern == date_pattern() && displayable(timestamp, offset) ==> written is Some
}

/// Trusted: writes an instant out at a fixed offset from UTC under a
/// strftime pattern, with chrono's `DateTime::format` on the
/// `DateTime<FixedOffset>` of the instant. `None` stands for an instant or
/// an offset out of chrono's range, or a pattern that chrono cannot write.
///
/// The contract gives the text the name `formatted` and claims that a year,
/// a month and a day can always be written. Nothing is claimed about the
/// text itself.
#[verifier::external_body]
fn write_formatted(timestamp: i64, offset: i32, pattern: &str) -> (r: Option<String>)
    ensures
        text_of(r) == formatted(timestamp as int, offset as int, pattern@),
        written_when(r, timestamp as int, offset as int, pattern@),
{
    let zone = FixedOffset::east_opt(offset)?;
    let at = DateTime::from_timestamp(timestamp, 0)?.with_timezone(&zone);
    let mut out = String::new();
    match write!(out, "{}", at.format(pattern)) {
        Ok(_) => Some(out),
        Err(_) => None,
    }
}

/// A printed line: a label, a colon and a space, and the message.
pub open spec fn line_of(label: Seq<char>, message: Seq<char>) -> Seq<char> {
    label + seq![':', ' '] + message
}

/// Whether `line` is `message` under the label that was written.
pub open spec fn under(label: Option<Seq<char>>, message: Seq<char>, line: Seq<char>) -> bool {
    label matches Some(text) && line == line_of(text, message)
}

/// Whether `line` is the line of the entry `e`: its message under its
/// instant, displayed at the offset of some time zone.
pub open spec fn timed_line(line: Seq<char>, e: EntryView) -> bool {
    exists|offset: int|
        is_offset(offset) && #[trigger] under(time_text(e.timestamp, offset), e.message, line)
}

/// Whether `line` is the line of the summary `s`: its message under the date
/// of its day's first instant, written at the offset of some time zone.
pub open spec fn dated_line(line: Seq<char>, s: SummaryView) -> bool {
    exists|offset: int|
        is_offset(offset) && #[trigger] under(
            formatted(s.day, offset, date_pattern()),
            s.message,
            line,
        )
}

/// Writes a line: `label`, then `": "`, then `message`.
pub fn format_line(label: &str, message: &str) -> (r: String)
    ensures
        r@ == line_of(label@, message@),
{
    let mut out = label.to_owned();
    proof {
        reveal_strlit(": ");
        assert(": "@ =~= seq![':', ' ']);
    }
    out.append(": ");
    out.append(message);
    out
}

/// Whether every entry's instant can be written out.
pub open spec fn all_representable(entries: Seq<EntryView>) -> bool {
    forall|i: int|
        #![trigger entries[i]]
        0 <= i < entries.len() ==> representable(entries[i].timestamp)
}

/// Whether every summary's day can be written out.
pub open spec fn all_days_representable(summaries: Seq<SummaryView>) -> bool {
    forall|i: int|
        #![trigger summaries[i]]
        0 <= i < summaries.len() ==> representable(summaries[i].day)
}

/// Whether `lines` list `entries`: one line for each entry, in order.
pub open spec fn is_listing(lines: Seq<String>, entries: Seq<EntryView>) -> bool {
    &&& lines.len() == entries.len()
    &&& forall|i: int|
        #![trigger lines[i]]
        0 <= i < lines.len() ==> timed_line(lines[i]@, entries[i])
}

/// Whether `lines` are the lines of `summaries`: one line for each summary,
/// in order.
pub open spec fn is_summary(lines: Seq<String>, summaries: Seq<SummaryView>) -> bool {
    &&& lines.len() == summaries.len()
    &&& forall|i: int|
        #![trigger lines[i]]
        0 <= i < lines.len() ==> dated_line(lines[i]@, summaries[i])
}

/// The line of an entry at a given offset from UTC: the entry's message
/// under its instant as it is displayed there. There is a line exactly for
/// an instant that can be written out at an offset shorter than a day.
pub fn entry_line(entry: &Entry, offset: i32) -> (r: Option<String>)
    ensures
        r is Some <==> displayable(entry@.timestamp, offset as int),
        r matches Some(line) ==> under(
            time_text(entry@.timestamp, offset as int),
            entry@.message,
            line@,
        ),
{
    match write_time(entry.timestamp, offset) {
        Some(label) => Some(format_line(label.as_str(), entry.message.as_str())),
        None => None,
    }
}

/// The line of a daily summary at a given offset from UTC: the day's message
/// under the date of the day's first instant as it is written there. There
/// is a line exactly for a day that can be written out at an offset shorter
/// than a day.
pub fn summary_line(summary: &DailySummary, offset: i32) -> (r: Option<String>)
    ensures
        r is Some <==> displayable(summary@.day, offset as int),
        r matches Some(line) ==> under(
            formatted(summary@.day, offset as int, date_pattern()),
            summary@.message,
            line@,
        ),
{
    match write_formatted(summary.day, offset, "%Y-%m-%d") {
        Some(label) => Some(format_line(label.as_str(), summary.message.as_str())),
        None => None,
    }
}

/// The lines of a listing: one per entry, in the order of `entries`, each the
/// entry's message under its local time.
///
/// Gives `None` exactly when some entry's instant lies outside the range of
/// dates that can be written out.
pub fn list_lines(entries: &Vec<Entry>) -> (r: Option<Vec<String>>)
    ensures
        match r {
            Some(lines) => all_representable(views(entries@)) && is_listing(
                lines@,
                views(entries@),
            ),
            None => !all_representable(views(entries@)),
        },
{
    let mut lines: Vec<String> = Vec::new();
    let mut i: usize = 0;
    while i < entries.len()
        invariant
            i <= entries.len(),
            lines@.len() == i,
            forall|k: int|
                #![trigger views(entries@)[k]]
                0 <= k < i ==> representable(views(entries@)[k].timestamp),
            forall|k: int|
                #![trigger lines@[k]]
                0 <= k < i ==> timed_line(lines@[k]@, views(entries@)[k]),
        decreases entries.len() - i,
    {
        let entry = &entries[i];
        proof {
            assert(views(entries@)[i as int] == entry@);
        }
        let offset = match local_offset(entry.timestamp) {
            Some(offset) => offset,
            None => {
                return None;
            },
        };
        let line = match entry_line(entry, offset) {
            Some(line) => line,
            None => {
                return None;
            },
        };
        lines.push(line);
        i = i + 1;
    }
    Some(lines)
}

/// The lines of a summary: one per day, in the order of `summaries`, each the
/// day's merged message under the local date of the day's first instant,
/// written as year, month and day.
///
/// Gives `None` exactly when some day lies outside the range of dates that
/// can be written out.
pub fn summary_lines(summaries: &Vec<DailySummary>) -> (r: Option<Vec<String>>)
    ensures
        match r {
            Some(lines) => all_days_representable(summary_views(summaries@)) && is_summary(
                lines@,
                summary_views(summaries@),
            ),
            None => !all_days_representable(summary_views(summaries@)),
        },
{
    let mut lines: Vec<String> = Vec::new();
    let mut i: usize = 0;
    while i < summaries.len()
        invariant
            i <= summaries.len(),
            lines@.len() == i,
            forall|k: int|
                #![trigger summary_views(summaries@)[k]]
                0 <= k < i ==> representable(summary_views(summaries@)[k].day),
            forall|k: int|
                #![trigger lines@[k]]
                0 <= k < i ==> dated_line(lines@[k]@, summary_views(summaries@)[k]),
        decreases summaries.len() - i,
    {
        let summary = &summaries[i];
        proof {
            assert(summary_views(summaries@)[i as int] == summary@);
        }
        let offset = match local_offset(summary.day) {
            Some(offset) => offset,
            None => {
                return None;
            },
        };
        let line = match summary_line(summary, offset) {
            Some(line) => line,
            None => {
                return None;
            },
        };
        lines.push(line);
        i = i + 1;
    }
    Some(lines)
}

/// Why a report cannot be made.
#[derive(Clone, Copy, Debug, PartialEq, Eq, Structural)]
pub enum ReportError {
    /// A bound of the range gives no instant.
    Bound(BoundError),
    /// The instant of a selected entry is out of reach: of the dates that
    /// can be written, in a listing; of the days that it can be truncated
    /// to, in a summary.
    Instant,
}

/// Whether `lines` are the lines of the digest of `kept`.
pub open spec fn summarizes(lines: Seq<String>, kept: Seq<EntryView>) -> bool {
    exists|digest: Seq<SummaryView>|
        #![trigger is_digest_of(digest, kept)]
        is_digest_of(digest, kept) && is_summary(lines, digest)
}

/// The days of a digest of entries that can all be truncated can all be
/// written out.
pub proof fn lemma_digest_days_representable(digest: Seq<SummaryView>, kept: Seq<EntryView>)
    requires
        is_digest_of(digest, kept),
        all_truncatable(kept),
    ensures
        all_days_representable(digest),
{
    assert forall|i: int| #![trigger digest[i]] 0 <= i < digest.len() implies representable(
        digest[i].day,
    ) by {
        assert(has_day(kept, digest[i].day));
        let j = choose|j: int|
            #![trigger kept[j]]
            0 <= j < kept.len() && day_start(kept[j].timestamp) == digest[i].day;
        assert(day_truncatable(kept[j].timestamp));
    }
}

/// The listing of the entries between two typed dates: the lines of the
/// entries that the range keeps, in the order of the store.
///
/// A bound that gives no instant fails the listing before any entry is
/// looked at; after that it fails only on a kept entry whose instant cannot
/// be written out.
pub fn list(entries: &Vec<Entry>, from: Option<String>, to: Option<String>) -> (r: Result<
    Vec<String>,
    ReportError,
>)
    ensures
        match r {
            Ok(lines) => exists|kept: Seq<EntryView>|
                #![trigger selected_between(kept, views(entries@), from, to)]
                selected_between(kept, views(entries@), from, to) && all_representable(kept)
                    && is_listing(lines@, kept),
            Err(ReportError::Bound(e)) => bound_fails(e, from, to),
            Err(ReportError::Instant) => exists|kept: Seq<EntryView>|
                #![trigger selected_between(kept, views(entries@), from, to)]
                selected_between(kept, views(entries@), from, to) && !all_representable(kept),
        },
        (from is None && to is None) ==> (r is Ok <==> all_representable(views(entries@))),
{
    let kept = match filter_dates(entries, from, to) {
        Ok(kept) => kept,
        Err(e) => {
            return Err(ReportError::Bound(e));
        },
    };
    match list_lines(&kept) {
        Some(lines) => Ok(lines),
        None => Err(ReportError::Instant),
    }
}

/// The summary of the entries between two typed dates: one line for each UTC
/// day on which a kept entry falls, in ascending order of day.
///
/// A bound that gives no instant fails the summary before any entry is
/// looked at; after that it fails only on a kept entry whose instant cannot
/// be truncated to its day.
pub fn summary(entries: &Vec<Entry>, from: Option<String>, to: Option<String>) -> (r: Result<
    Vec<String>,
    ReportError,
>)
    ensures
        match r {
            Ok(lines) => exists|kept: Seq<EntryView>|
                #![trigger selected_between(kept, views(entries@), from, to)]
                selected_between(kept, views(entries@), from, to) && all_truncatable(kept)
                    && summarizes(lines@, kept),
            Err(ReportError::Bound(e)) => bound_fails(e, from, to),
            Err(ReportError::Instant) => exists|kept: Seq<EntryView>|
                #![trigger selected_between(kept, views(entries@), from, to)]
                selected_between(kept, views(entries@), from, to) && !all_truncatable(kept),
        },
        (from is None && to is None) ==> (r is Ok <==> all_truncatable(views(entries@))),
{
    let kept = match filter_dates(entries, from, to) {
        Ok(kept) => kept,
        Err(e) => {
            return Err(ReportError::Bound(e));
        },
    };
    let digest = match aggregate(&kept) {
        Some(digest) => digest,
        None => {
            return Err(ReportError::Instant);
        },
    };
    proof {
        lemma_digest_days_representable(summary_views(digest@), views(kept@));
    }
    match summary_lines(&digest) {
        Some(lines) => Ok(lines),
        None => Err(ReportError::Instant),
    }
}

} // verus!

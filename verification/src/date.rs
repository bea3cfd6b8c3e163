//! Dates as the user types them: `YYYY-MM-DD HH:MM` or `YYYY-MM-DD`, read in
//! the machine's local time zone and turned into absolute instants.

use vstd::prelude::*;
use vstd::string::*;
use chrono::{DateTime, Local, LocalResult, NaiveDateTime};

verus! {

/// What chrono reads from `text` under the strftime pattern `pattern`: the
/// date and time without a zone, counted in seconds from 1970-01-01 00:00 as
/// if it were UTC, or nothing where the text does not match the pattern.
pub uninterp spec fn naive_from_text(text: Seq<char>, pattern: Seq<char>) -> Option<i64>;

/// Trusted: calls chrono's `NaiveDateTime::parse_from_str` and hands back the
/// seconds of what it read (`and_utc().timestamp()`), `None` on its error.
/// The contract only gives the result the name `naive_from_text`; nothing is
/// claimed about which texts chrono accepts.
#[verifier::external_body]
fn parse_naive(text: &str, pattern: &str) -> (r: Option<i64>)
    ensures
        r == naive_from_text(text@, pattern@),
{
    match NaiveDateTime::parse_from_str(text, pattern) {
        Ok(naive) => Some(naive.and_utc().timestamp()),
        Err(_) => None,
    }
}

/// What a date and time without a zone stands for in the local time zone.
#[derive(Clone, Copy, Debug, PartialEq, Eq, Structural)]
pub enum LocalInstant {
    /// Exactly one instant.
    Single(i64),
    /// Two instants, earliest first: the local time is repeated because the
    /// clocks were set back.
    Ambiguous(i64, i64),
    /// No instant: the local time is skipped or cannot be resolved.
    Missing,
}

/// Whether the instant `at` is less than a day away from the date and time
/// of `naive_seconds`: a local time differs from UTC by less than 24 hours.
pub open spec fn within_a_day(at: i64, naive_seconds: i64) -> bool {
    naive_seconds - 86_400 < at < naive_seconds + 86_400
}

/// Whether the instants of `found` can be what the date and time of
/// `naive_seconds` stands for in some time zone.
pub open spec fn plausible(found: LocalInstant, naive_seconds: i64) -> bool {
    match found {
        LocalInstant::Single(at) => within_a_day(at, naive_seconds),
        LocalInstant::Ambiguous(earliest, latest) => within_a_day(earliest, naive_seconds)
            && within_a_day(latest, naive_seconds),
        LocalInstant::Missing => true,
    }
}

/// Trusted: maps a date and time without a zone, given in seconds as
/// `parse_naive` gives them, to the machine's local time zone with chrono's
/// `NaiveDateTime::and_local_timezone(Local)`, and hands back the instants of
/// chrono's three outcomes. A count of seconds that chrono cannot hold has no
/// instant either.
///
/// The outcome depends on the machine's time zone. The contract claims only
/// what holds in every zone: chrono takes the zone's offset from the local
/// time, and its offsets are shorter than a day.
#[verifier::external_body]
fn locate(naive_seconds: i64) -> (r: LocalInstant)
    ensures
        plausible(r, naive_seconds),
{
    match DateTime::from_timestamp(naive_seconds, 0) {
        None => LocalInstant::Missing,
        Some(naive) => match naive.naive_utc().and_local_timezone(Local) {
            LocalResult::Single(at) => LocalInstant::Single(at.timestamp()),
            LocalResult::Ambiguous(a, b) => LocalInstant::Ambiguous(a.timestamp(), b.timestamp()),
            LocalResult::None => LocalInstant::Missing,
        },
    }
}

/// Why a typed date gives no instant.
#[derive(Clone, Copy, Debug, PartialEq, Eq, Structural)]
pub enum DateError {
    /// The text matches neither accepted format.
    Unrecognized,
    /// The local time is repeated; both candidate instants, earliest first.
    Ambiguous(i64, i64),
    /// The local time does not exist in the local time zone.
    Nonexistent,
}

/// The pattern of a date with a time of day to the minute.
pub open spec fn minute_pattern() -> Seq<char> {
    "%Y-%m-%d %H:%M"@
}

/// The time of day that a date without one is given: midnight.
pub open spec fn midnight_suffix() -> Seq<char> {
    " 0:0"@
}

/// The reading that is taken of the two that are tried: the one with a time
/// of day where there is one, and else the one at midnight.
pub open spec fn preferred(with_time: Option<i64>, at_midnight: Option<i64>) -> Option<i64> {
    match with_time {
        Some(seconds) => Some(seconds),
        None => at_midnight,
    }
}

/// Chooses between the two readings of a text: as a date with a time of
/// day, and as a date at midnight. The first is taken where it exists.
pub fn prefer(with_time: Option<i64>, at_midnight: Option<i64>) -> (r: Option<i64>)
    ensures
        r == preferred(with_time, at_midnight),
{
    match with_time {
        Some(seconds) => Some(seconds),
        None => at_midnight,
    }
}

/// The date and time that `text` denotes, before any time zone is applied:
/// `text` read as a date with a time, or else as a date at midnight.
pub open spec fn naive_reading(text: Seq<char>) -> Option<i64> {
    preferred(
        naive_from_text(text, minute_pattern()),
        naive_from_text(text + midnight_suffix(), minute_pattern()),
    )
}

/// Reads `text` as `YYYY-MM-DD HH:MM`, or as `YYYY-MM-DD` at `00:00`.
pub fn read_naive(text: &str) -> (r: Option<i64>)
    ensures
        r == naive_reading(text@),
{
    let with_time = parse_naive(text, "%Y-%m-%d %H:%M");
    let mut padded = text.to_owned();
    padded.append(" 0:0");
    let at_midnight = parse_naive(padded.as_str(), "%Y-%m-%d %H:%M");
    prefer(with_time, at_midnight)
}

/// The instant that a local time stands for, or the reason why it has none.
pub open spec fn settled(found: LocalInstant) -> Result<i64, DateError> {
    match found {
        LocalInstant::Single(at) => Ok(at),
        LocalInstant::Ambiguous(earliest, latest) => Err(DateError::Ambiguous(earliest, latest)),
        LocalInstant::Missing => Err(DateError::Nonexistent),
    }
}

/// Decides what a located local time gives: a single instant is taken; a
/// repeated or missing local time is an error and is never resolved to one
/// of its candidates.
pub fn settle(found: LocalInstant) -> (r: Result<i64, DateError>)
    ensures
        r == settled(found),
{
    match found {
        LocalInstant::Single(at) => Ok(at),
        LocalInstant::Ambiguous(earliest, latest) => Err(DateError::Ambiguous(earliest, latest)),
        LocalInstant::Missing => Err(DateError::Nonexistent),
    }
}

/// Whether `outcome` can be what `text` gives: `Unrecognized` exactly where
/// the text matches neither format, and otherwise an instant or candidate
/// instants less than a day away from the date and time that was read.
pub open spec fn parsed_as(outcome: Result<i64, DateError>, text: Seq<char>) -> bool {
    match naive_reading(text) {
        None => outcome == Err::<i64, DateError>(DateError::Unrecognized),
        Some(seconds) => match outcome {
            Ok(at) => within_a_day(at, seconds),
            Err(DateError::Ambiguous(earliest, latest)) => within_a_day(earliest, seconds)
                && within_a_day(latest, seconds),
            Err(DateError::Nonexistent) => true,
            Err(DateError::Unrecognized) => false,
        },
    }
}

/// Turns a typed date into an absolute instant.
///
/// The text is read as `YYYY-MM-DD HH:MM` or `YYYY-MM-DD` and taken as local
/// time. `Unrecognized` comes exactly for the texts that match neither
/// format; for the others the local time zone decides between an instant, an
/// ambiguous and a nonexistent local time, as `settle` says.
pub fn parse_instant(text: &str) -> (r: Result<i64, DateError>)
    ensures
        parsed_as(r, text@),
{
    match read_naive(text) {
        None => Err(DateError::Unrecognized),
        Some(seconds) => {
            let found = locate(seconds);
            settle(found)
        },
    }
}

/// Whether a bound, where one is given, is written in an accepted format.
pub open spec fn readable(date: Option<String>) -> bool {
    date matches Some(text) ==> naive_reading(text@) is Some
}

/// Whether `bound` can be what an optional date gives where it gives no
/// error: no bound for no date, and for a date an instant that it can be
/// parsed as.
pub open spec fn stands_for(bound: Option<i64>, date: Option<String>) -> bool {
    match date {
        None => bound is None,
        Some(text) => bound matches Some(at) && parsed_as(Ok(at), text@),
    }
}

/// Whether an optional date can fail with `cause`: only a date that is
/// given can fail, and only as its text can be parsed.
pub open spec fn fails_with(cause: DateError, date: Option<String>) -> bool {
    date matches Some(text) && parsed_as(Err(cause), text@)
}

/// Turns an optional typed date into an optional instant: no date gives
/// no bound, and a date is parsed as `parse_instant` says.
pub fn parse_date(date: Option<String>) -> (r: Result<Option<i64>, DateError>)
    ensures
        match r {
            Ok(bound) => stands_for(bound, date),
            Err(cause) => fails_with(cause, date),
        },
{
    match date {
        None => Ok(None),
        Some(text) => match parse_instant(text.as_str()) {
            Ok(at) => Ok(Some(at)),
            Err(e) => Err(e),
        },
    }
}

} // verus!

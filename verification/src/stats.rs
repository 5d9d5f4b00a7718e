//! The statistics request: reading its two points in time and deciding how
//! it is answered.

use chrono::{DateTime, TimeZone, Utc};
use vstd::prelude::*;
use crate::decimal::{decimal_i64, parse_decimal_i64};

verus! {

/// The two points in time of a statistics request, as they were sent: each
/// is either whole seconds since the Unix epoch or an RFC 3339 date and time.
#[derive(Clone, Debug)]
pub struct StatsQuery {
    pub start: String,
    pub end: String,
}

/// The point in time, in whole seconds since the Unix epoch, that the
/// calendar holds for a count of seconds since the epoch: the count itself,
/// or nothing where the count lies outside the years that the calendar
/// covers.
pub uninterp spec fn utc_from_unix_seconds(secs: i64) -> Option<i64>;

/// The point in time, in whole seconds since the Unix epoch, that a text
/// denotes when it is read as an RFC 3339 date and time, or nothing where
/// the text is none.
pub uninterp spec fn rfc3339_seconds(text: Seq<char>) -> Option<i64>;

/// Calls `Utc.timestamp_opt(secs, 0)` of chrono, takes its single result and
/// reads it back with `DateTime::timestamp`. The contract names the result
/// and claims that a point in time that was found is `secs` again: chrono
/// builds the date from the days and the time from the seconds of the day,
/// and `timestamp` puts the two together in the same way.
#[verifier::external_body]
fn timestamp_from_unix(secs: i64) -> (found: Option<i64>)
    ensures
        found == utc_from_unix_seconds(secs),
        found matches Some(t) ==> t == secs,
{
    match Utc.timestamp_opt(secs, 0).single() {
        Some(at) => Some(at.timestamp()),
        None => None,
    }
}

/// Calls `str::parse::<DateTime<Utc>>` of chrono, which reads a relaxed form
/// of RFC 3339, and reads the result with `DateTime::timestamp`. The contract
/// only names the result.
#[verifier::external_body]
fn timestamp_from_rfc3339(text: &str) -> (found: Option<i64>)
    ensures
        found == rfc3339_seconds(text@),
{
    match text.parse::<DateTime<Utc>>() {
        Ok(at) => Some(at.timestamp()),
        Err(_) => None,
    }
}

/// The message for a count of seconds that the calendar does not cover.
pub open spec fn invalid_unix_text() -> Seq<char> {
    "invalid unix timestamp"@
}

/// The message for a text that is neither a count of seconds nor a date.
pub open spec fn invalid_format_text() -> Seq<char> {
    "invalid time format, use RFC3339 or unix seconds"@
}

/// A point in time or a message, with the message read as a sequence of
/// characters.
pub open spec fn time_view(r: Result<i64, String>) -> Result<i64, Seq<char>> {
    match r {
        Ok(t) => Ok(t),
        Err(message) => Err(message@),
    }
}

/// What a count of seconds gives, by what the calendar made of it.
pub open spec fn unix_time_result(found: Option<i64>) -> Result<i64, Seq<char>> {
    match found {
        Some(t) => Ok(t),
        None => Err(invalid_unix_text()),
    }
}

/// What a text that is no count of seconds gives, by what reading it as a
/// date made of it.
pub open spec fn text_time_result(found: Option<i64>) -> Result<i64, Seq<char>> {
    match found {
        Some(t) => Ok(t),
        None => Err(invalid_format_text()),
    }
}

/// The point in time that a text denotes. A decimal integer is a count of
/// seconds since the Unix epoch, and only that; every other text is read as
/// a date and time.
pub open spec fn time_of(text: Seq<char>) -> Result<i64, Seq<char>> {
    match decimal_i64(text) {
        Some(secs) => unix_time_result(utc_from_unix_seconds(secs)),
        None => text_time_result(rfc3339_seconds(text)),
    }
}

/// The answer for a count of seconds, given what the calendar made of it.
pub fn unix_time_or_error(found: Option<i64>) -> (r: Result<i64, String>)
    ensures
        time_view(r) == unix_time_result(found),
{
    match found {
        Some(t) => Ok(t),
        None => Err("invalid unix timestamp".to_owned()),
    }
}

/// The answer for a text that is no count of seconds, given what reading it
/// as a date made of it.
pub fn text_time_or_error(found: Option<i64>) -> (r: Result<i64, String>)
    ensures
        time_view(r) == text_time_result(found),
{
    match found {
        Some(t) => Ok(t),
        None => Err("invalid time format, use RFC3339 or unix seconds".to_owned()),
    }
}

/// Reads a point in time: whole seconds since the Unix epoch, or an RFC 3339
/// date and time. The result is in whole seconds since the Unix epoch.
///
/// A count of seconds is answered with that count, or refused as an invalid
/// timestamp where the calendar does not reach it.
pub fn parse_time(s: &str) -> (r: Result<i64, String>)
    ensures
        time_view(r) == time_of(s@),
        decimal_i64(s@) matches Some(secs) ==> time_view(r) == Ok::<i64, Seq<char>>(secs)
            || time_view(r) == Err::<i64, Seq<char>>(invalid_unix_text()),
{
    match parse_decimal_i64(s) {
        Some(secs) => unix_time_or_error(timestamp_from_unix(secs)),
        None => text_time_or_error(timestamp_from_rfc3339(s)),
    }
}

/// A refusal of a statistics request: the HTTP status and the message.
#[derive(Clone, Debug)]
pub struct HttpFailure {
    pub status: u16,
    pub message: String,
}

/// The status of a request with a point in time that cannot be read.
pub const STATUS_BAD_REQUEST: u16 = 400;

/// The status of a failed query.
pub const STATUS_INTERNAL_ERROR: u16 = 500;

/// The status of a request to a relay without a store.
pub const STATUS_UNAVAILABLE: u16 = 503;

/// The message of a request to a relay without a store.
pub open spec fn not_configured_text() -> Seq<char> {
    "database is not configured"@
}

/// A window of time or a refusal, with the message read as a sequence of
/// characters.
pub open spec fn window_view(r: Result<(i64, i64), HttpFailure>) -> Result<
    (i64, i64),
    (u16, Seq<char>),
> {
    match r {
        Ok(window) => Ok(window),
        Err(failure) => Err((failure.status, failure.message@)),
    }
}

/// The window of a statistics request, or how it is refused: with status 400
/// and the message of the first point in time that cannot be read, the start
/// before the end; else with status 503 where no store is configured.
pub open spec fn window_of(start: Seq<char>, end: Seq<char>, store_configured: bool) -> Result<
    (i64, i64),
    (u16, Seq<char>),
> {
    match time_of(start) {
        Err(message) => Err((STATUS_BAD_REQUEST, message)),
        Ok(from) => match time_of(end) {
            Err(message) => Err((STATUS_BAD_REQUEST, message)),
            Ok(until) => if store_configured {
                Ok((from, until))
            } else {
                Err((STATUS_UNAVAILABLE, not_configured_text()))
            },
        },
    }
}

/// Decides what a statistics request asks for, before the store is read:
/// the window `[start, end)` to report on, or the refusal.
pub fn stats_window(query: &StatsQuery, store_configured: bool) -> (r: Result<
    (i64, i64),
    HttpFailure,
>)
    ensures
        window_view(r) == window_of(query.start@, query.end@, store_configured),
{
    let from = match parse_time(query.start.as_str()) {
        Ok(t) => t,
        Err(message) => {
            return Err(HttpFailure { status: STATUS_BAD_REQUEST, message });
        },
    };
    let until = match parse_time(query.end.as_str()) {
        Ok(t) => t,
        Err(message) => {
            return Err(HttpFailure { status: STATUS_BAD_REQUEST, message });
        },
    };
    if store_configured {
        Ok((from, until))
    } else {
        Err(
            HttpFailure {
                status: STATUS_UNAVAILABLE,
                message: "database is not configured".to_owned(),
            },
        )
    }
}

/// The refusal of a request whose query failed, with the text of the failure.
pub fn query_failure(message: String) -> (failure: HttpFailure)
    ensures
        failure.status == STATUS_INTERNAL_ERROR,
        failure.message@ == message@,
{
    HttpFailure { status: STATUS_INTERNAL_ERROR, message }
}

} // verus!

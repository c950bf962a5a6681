//! Time through `chrono`: the current time, calendar years and parsing of
//! written timestamps.
use vstd::prelude::*;
use crate::datamodel::datamodel::Timestamp;

verus! {

/// `chrono::Utc::now()`, taken as seconds and nanoseconds since the Unix
/// epoch. What time it returns depends on the machine's clock, so nothing is
/// stated of it.
#[verifier::external_body]
pub(crate) fn now() -> (t: Timestamp) {
    let t = chrono::Utc::now();
    Timestamp { secs: t.timestamp(), nanos: t.timestamp_subsec_nanos() }
}

/// The calendar year (UTC) of the instant `secs` seconds and `nanos`
/// nanoseconds after the Unix epoch, if `chrono` can represent that instant.
pub uninterp spec fn utc_year(secs: i64, nanos: u32) -> Option<i32>;

/// `chrono::DateTime::<Utc>::from_timestamp` followed by `Datelike::year`:
/// the UTC calendar year of a point in time, `None` where `chrono` cannot
/// represent the point.
#[verifier::external_body]
pub(crate) fn year_of(t: Timestamp) -> (y: Option<i32>)
    ensures
        y == utc_year(t.secs, t.nanos),
{
    chrono::DateTime::<chrono::Utc>::from_timestamp(t.secs, t.nanos).map(|d| chrono::Datelike::year(&d))
}

/// The instant that an RFC 3339 timestamp denotes, as seconds and
/// nanoseconds since the Unix epoch, if the text is one.
pub uninterp spec fn rfc3339_instant(text: Seq<char>) -> Option<(i64, u32)>;

/// `chrono::DateTime::parse_from_rfc3339`, the result taken in UTC.
#[verifier::external_body]
pub(crate) fn parse_rfc3339(text: &str) -> (t: Option<Timestamp>)
    ensures
        match t {
            Some(t) => rfc3339_instant(text@) == Some((t.secs, t.nanos)),
            None => rfc3339_instant(text@) is None,
        },
{
    match chrono::DateTime::parse_from_rfc3339(text) {
        Ok(d) => Some(Timestamp { secs: d.timestamp(), nanos: d.timestamp_subsec_nanos() }),
        Err(_) => None,
    }
}

/// The instant that a timestamp without a time zone denotes when read in
/// UTC with the given `strftime` format, if the text matches the format.
pub uninterp spec fn naive_utc_instant(text: Seq<char>, format: Seq<char>) -> Option<(i64, u32)>;

/// `chrono::NaiveDateTime::parse_from_str` followed by `and_utc`, the
/// single reading of a local time in UTC.
#[verifier::external_body]
pub(crate) fn parse_naive_utc(text: &str, format: &str) -> (t: Option<Timestamp>)
    ensures
        match t {
            Some(t) => naive_utc_instant(text@, format@) == Some((t.secs, t.nanos)),
            None => naive_utc_instant(text@, format@) is None,
        },
{
    match chrono::NaiveDateTime::parse_from_str(text, format) {
        Ok(d) => {
            let u = d.and_utc();
            Some(Timestamp { secs: u.timestamp(), nanos: u.timestamp_subsec_nanos() })
        },
        Err(_) => None,
    }
}

/// `a` is earlier than `b`.
pub open spec fn earlier(a: Timestamp, b: Timestamp) -> bool {
    a.secs < b.secs || (a.secs == b.secs && a.nanos < b.nanos)
}

} // verus!

//! Points in time, and their RFC 3339 text.

use crate::db::opt_text;
use vstd::prelude::*;

verus! {

/// A point in time: whole seconds since 1970-01-01T00:00:00 UTC, not
/// counting leap seconds, and the nanoseconds past that second.
#[derive(Debug, Clone, Copy, PartialEq, Eq, Structural)]
pub struct Timestamp {
    pub secs: i64,
    pub nanos: u32,
}

/// The RFC 3339 text of a point in time, with the offset `+00:00`, as chrono
/// writes it; nothing where chrono has no date for it.
pub uninterp spec fn rfc3339_text(secs: i64, nanos: u32) -> Option<Seq<char>>;

/// `chrono::DateTime::from_timestamp`, then `DateTime::to_rfc3339` on what it
/// gives: the text of the point in time as a date and time in UTC. Nothing
/// comes back where the seconds lie outside the dates that chrono holds or
/// the nanoseconds are out of range. The text is a function of the two
/// numbers alone.
#[verifier::external_body]
fn format_rfc3339(secs: i64, nanos: u32) -> (r: Option<String>)
    ensures
        opt_text(r) == rfc3339_text(secs, nanos),
{
    chrono::DateTime::from_timestamp(secs, nanos).map(|d| d.to_rfc3339())
}

/// `chrono::Utc::now`: the reading of the system clock, which must not stand
/// before 1970. Whatever it reads, chrono has a date for it.
#[verifier::external_body]
fn clock_reading() -> (t: Timestamp)
    ensures
        rfc3339_text(t.secs, t.nanos) is Some,
{
    let now = chrono::Utc::now();
    Timestamp { secs: now.timestamp(), nanos: now.timestamp_subsec_nanos() }
}

impl Timestamp {
    /// The RFC 3339 text of this point in time, if it has one.
    pub open spec fn text(self) -> Option<Seq<char>> {
        rfc3339_text(self.secs, self.nanos)
    }

    /// The RFC 3339 text of this point in time, if it has one.
    pub fn to_rfc3339(&self) -> (r: Option<String>)
        ensures
            opt_text(r) == self.text(),
    {
        format_rfc3339(self.secs, self.nanos)
    }

    /// The current time. It has an RFC 3339 text.
    pub fn now() -> (t: Timestamp)
        ensures
            t.text() is Some,
    {
        clock_reading()
    }
}

/// The text under which an optional point in time is stored: its RFC 3339
/// text, and nothing where there is no time or the time has no such text.
pub open spec fn published_text(published: Option<Timestamp>) -> Option<Seq<char>> {
    match published {
        Some(t) => t.text(),
        None => None,
    }
}

} // verus!

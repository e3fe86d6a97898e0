//! Instants on the UTC time line, held as plain integers.

use vstd::prelude::*;

verus! {

/// An instant: whole seconds since 1970-01-01T00:00:00Z, and the
/// nanoseconds that have passed since that second began.
#[derive(Clone, Copy, Debug, PartialEq, Eq, Structural)]
pub struct Timestamp {
    pub secs: i64,
    pub nanos: u32,
}

/// The instant that an RFC 3339 date-and-time text denotes, as seconds and
/// nanoseconds, or `None` where the text is no such date and time.
pub uninterp spec fn rfc3339_instant(text: Seq<char>) -> Option<(i64, u32)>;

impl Timestamp {
    /// Whether `self` lies strictly before `other`.
    pub open spec fn before(self, other: Timestamp) -> bool {
        self.secs < other.secs || (self.secs == other.secs && self.nanos < other.nanos)
    }

    /// Whether `self` lies strictly before `other`.
    pub fn is_before(&self, other: &Timestamp) -> (b: bool)
        ensures
            b == self.before(*other),
    {
        self.secs < other.secs || (self.secs == other.secs && self.nanos < other.nanos)
    }

    /// The current instant. It never lies before 1970, and its nanoseconds
    /// stay below one second.
    pub fn now() -> (t: Timestamp)
        ensures
            t.secs >= 0,
            t.nanos < 1_000_000_000,
    {
        utc_now()
    }

    /// The instant that `text` denotes in RFC 3339.
    pub fn parse_rfc3339(text: &str) -> (r: Option<Timestamp>)
        ensures
            r == Timestamp::of_parts(rfc3339_instant(text@)),
    {
        rfc3339_to_utc(text)
    }

    /// The instant made of a pair of seconds and nanoseconds.
    pub open spec fn of_parts(parts: Option<(i64, u32)>) -> Option<Timestamp> {
        match parts {
            Some((secs, nanos)) => Some(Timestamp { secs, nanos }),
            None => None,
        }
    }
}

/// Calls `chrono::Utc::now` and reads the result's seconds and nanoseconds.
/// `Utc::now` takes the system clock's distance from the Unix epoch, and
/// gives up where the clock stands before the epoch: what it returns has
/// non-negative seconds, and the nanoseconds of a `Duration`, which stay
/// below one second.
#[verifier::external_body]
fn utc_now() -> (t: Timestamp)
    ensures
        t.secs >= 0,
        t.nanos < 1_000_000_000,
{
    let dt = chrono::Utc::now();
    Timestamp { secs: dt.timestamp(), nanos: dt.timestamp_subsec_nanos() }
}

/// Calls `chrono::DateTime::parse_from_rfc3339`, moves the result to UTC
/// and reads its seconds and nanoseconds. The result is the named instant
/// of the text; a text that chrono refuses has none.
#[verifier::external_body]
fn rfc3339_to_utc(text: &str) -> (r: Option<Timestamp>)
    ensures
        r == Timestamp::of_parts(rfc3339_instant(text@)),
{
    match chrono::DateTime::parse_from_rfc3339(text) {
        Ok(dt) => {
            let utc = dt.with_timezone(&chrono::Utc);
            Some(Timestamp { secs: utc.timestamp(), nanos: utc.timestamp_subsec_nanos() })
        },
        Err(_) => None,
    }
}

} // verus!

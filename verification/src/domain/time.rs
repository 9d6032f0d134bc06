//! Instants.
use vstd::prelude::*;

verus! {

/// A UTC instant: seconds since the epoch and nanoseconds within the second.
#[derive(Debug, Clone, Copy, PartialEq, Eq, PartialOrd, Ord, Hash, Structural)]
pub struct Timestamp {
    /// Whole seconds since the epoch.
    pub secs: i64,
    /// Nanoseconds within the second.
    pub nanos: u32,
}

impl Timestamp {
    /// Whether an instant lies strictly before another.
    pub open spec fn precedes(self, other: Timestamp) -> bool {
        self.secs < other.secs || (self.secs == other.secs && self.nanos < other.nanos)
    }

    /// Whether this instant lies strictly before `other`.
    pub fn before(&self, other: &Timestamp) -> (r: bool)
        ensures
            r == self.precedes(*other),
    {
        self.secs < other.secs || (self.secs == other.secs && self.nanos < other.nanos)
    }
}

/// What `chrono` reads in an RFC 3339 text: the seconds since the epoch and
/// the nanoseconds within the second of the instant that it names, and the
/// rendering of that instant in UTC; or the rendering of the refusal.
pub uninterp spec fn rfc3339(text: Seq<char>) -> Result<(i64, u32, Seq<char>), Seq<char>>;

/// `chrono::DateTime::parse_from_rfc3339`: the instant, taken to UTC and given
/// by its timestamp, its nanoseconds and its rendering, or the rendering of
/// the error. The result is a function of the text.
#[verifier::external_body]
fn parse_rfc3339(text: &str) -> (r: Result<(i64, u32, String), String>)
    ensures
        match r {
            Ok((secs, nanos, shown)) => rfc3339(text@) == Ok::<(i64, u32, Seq<char>), Seq<char>>(
                (secs, nanos, shown@),
            ),
            Err(refusal) => rfc3339(text@) == Err::<(i64, u32, Seq<char>), Seq<char>>(refusal@),
        },
{
    match chrono::DateTime::parse_from_rfc3339(text) {
        Ok(parsed) => {
            let at = parsed.with_timezone(&chrono::Utc);
            Ok((at.timestamp(), at.timestamp_subsec_nanos(), at.to_string()))
        },
        Err(failure) => Err(failure.to_string()),
    }
}

/// An instant as read from a text, next to its rendering; or the refusal.
pub type Reading = Result<(Timestamp, String), String>;

/// The content of a reading.
pub open spec fn reading(read: Reading) -> Result<(Timestamp, Seq<char>), Seq<char>> {
    match read {
        Ok((at, shown)) => Ok((at, shown@)),
        Err(refusal) => Err(refusal@),
    }
}

/// The reading of an RFC 3339 text.
pub open spec fn instant_named(text: Seq<char>) -> Result<(Timestamp, Seq<char>), Seq<char>> {
    match rfc3339(text) {
        Ok((secs, nanos, shown)) => Ok((Timestamp { secs, nanos }, shown)),
        Err(refusal) => Err(refusal),
    }
}

/// Reads an RFC 3339 text.
pub fn read_timestamp(text: &str) -> (r: Reading)
    ensures
        reading(r) == instant_named(text@),
{
    match parse_rfc3339(text) {
        Ok((secs, nanos, shown)) => Ok((Timestamp { secs, nanos }, shown)),
        Err(refusal) => Err(refusal),
    }
}

/// Whether something that expires at `expiry`, if ever, has expired at `now`.
pub open spec fn expired(expiry: Option<Timestamp>, now: Timestamp) -> bool {
    match expiry {
        Some(at) => !now.precedes(at),
        None => false,
    }
}

/// Whether something that expires at `expiry`, if ever, has expired at `now`.
pub fn has_expired(expiry: Option<Timestamp>, now: Timestamp) -> (r: bool)
    ensures
        r == expired(expiry, now),
{
    match expiry {
        Some(at) => !now.before(&at),
        None => false,
    }
}

/// What has expired stays expired.
pub proof fn law_expiry_is_permanent(expiry: Option<Timestamp>, now: Timestamp, later: Timestamp)
    requires
        !later.precedes(now),
        expired(expiry, now),
    ensures
        expired(expiry, later),
{
}

} // verus!

//! Instants in UTC, as seconds and nanoseconds since the Unix epoch, ordered
//! as `chrono` orders `DateTime<Utc>` values.
use vstd::prelude::*;

verus! {

/// An instant: whole seconds since the Unix epoch and the nanoseconds past
/// that second (at or above one billion during a leap second, as in `chrono`).
#[derive(Clone, Copy, Debug, PartialEq, Eq, Structural)]
pub struct Timestamp {
    pub secs: i64,
    pub nanos: u32,
}

/// Whether `a` is strictly earlier than `b`.
pub open spec fn ts_lt(a: Timestamp, b: Timestamp) -> bool {
    a.secs < b.secs || (a.secs == b.secs && a.nanos < b.nanos)
}

/// The later of `a` and `b`.
pub open spec fn ts_max(a: Timestamp, b: Timestamp) -> Timestamp {
    if ts_lt(a, b) {
        b
    } else {
        a
    }
}

impl Timestamp {
    pub fn new(secs: i64, nanos: u32) -> (r: Timestamp)
        ensures
            r.secs == secs,
            r.nanos == nanos,
    {
        Timestamp { secs, nanos }
    }

    /// Whether `self` is strictly earlier than `other`.
    pub fn is_before(&self, other: &Timestamp) -> (r: bool)
        ensures
            r == ts_lt(*self, *other),
    {
        self.secs < other.secs || (self.secs == other.secs && self.nanos < other.nanos)
    }

    /// Whether `self` and `other` are the same instant.
    pub fn same_instant(&self, other: &Timestamp) -> (r: bool)
        ensures
            r == (*self == *other),
    {
        self.secs == other.secs && self.nanos == other.nanos
    }

    /// The later of `self` and `other`.
    pub fn later(&self, other: &Timestamp) -> (r: Timestamp)
        ensures
            r == ts_max(*self, *other),
    {
        if self.is_before(other) {
            *other
        } else {
            *self
        }
    }
}

/// The order of instants is a strict total order.
pub proof fn lemma_ts_order(a: Timestamp, b: Timestamp, c: Timestamp)
    ensures
        !ts_lt(a, a),
        ts_lt(a, b) ==> !ts_lt(b, a),
        ts_lt(a, b) && ts_lt(b, c) ==> ts_lt(a, c),
        a == b || ts_lt(a, b) || ts_lt(b, a),
{
}

/// The RFC 3339 text `chrono` writes for this instant in UTC
/// (`DateTime::<Utc>::from_timestamp` then `to_rfc3339`), or `None` where
/// `chrono` cannot represent the instant.
pub uninterp spec fn spec_rfc3339(secs: i64, nanos: u32) -> Option<Seq<char>>;

/// The instant in UTC formatted by `chrono` as `%Y-%m-%dT%H-%M-%SZ` (a form
/// usable in file names), or `None` where `chrono` cannot represent it.
pub uninterp spec fn spec_file_stamp(secs: i64, nanos: u32) -> Option<Seq<char>>;

/// Formats with `DateTime::<Utc>::from_timestamp` and `to_rfc3339`.
#[verifier::external_body]
fn chrono_rfc3339(secs: i64, nanos: u32) -> (r: Option<String>)
    ensures
        match r {
            Some(t) => spec_rfc3339(secs, nanos) == Some(t@),
            None => spec_rfc3339(secs, nanos) is None,
        },
{
    match chrono::DateTime::<chrono::Utc>::from_timestamp(secs, nanos) {
        Some(instant) => Some(instant.to_rfc3339()),
        None => None,
    }
}

/// Formats with `DateTime::<Utc>::from_timestamp` and `format("%Y-%m-%dT%H-%M-%SZ")`.
#[verifier::external_body]
fn chrono_file_stamp(secs: i64, nanos: u32) -> (r: Option<String>)
    ensures
        match r {
            Some(t) => spec_file_stamp(secs, nanos) == Some(t@),
            None => spec_file_stamp(secs, nanos) is None,
        },
{
    match chrono::DateTime::<chrono::Utc>::from_timestamp(secs, nanos) {
        Some(instant) => Some(instant.format("%Y-%m-%dT%H-%M-%SZ").to_string()),
        None => None,
    }
}

impl Timestamp {
    /// This instant in RFC 3339 form, if representable.
    pub fn to_rfc3339(&self) -> (r: Option<String>)
        ensures
            match r {
                Some(t) => spec_rfc3339(self.secs, self.nanos) == Some(t@),
                None => spec_rfc3339(self.secs, self.nanos) is None,
            },
    {
        chrono_rfc3339(self.secs, self.nanos)
    }

    /// This instant as `%Y-%m-%dT%H-%M-%SZ`, if representable.
    pub fn file_stamp(&self) -> (r: Option<String>)
        ensures
            match r {
                Some(t) => spec_file_stamp(self.secs, self.nanos) == Some(t@),
                None => spec_file_stamp(self.secs, self.nanos) is None,
            },
    {
        chrono_file_stamp(self.secs, self.nanos)
    }
}

/// The instant `chrono` reads from an RFC 3339 text
/// (`DateTime::parse_from_rfc3339`, taken in UTC), as seconds and
/// nanoseconds, or `None` where `chrono` rejects the text.
pub uninterp spec fn spec_parse_rfc3339(text: Seq<char>) -> Option<(i64, u32)>;

/// Parses with `DateTime::parse_from_rfc3339` and converts to UTC; the
/// answer is the named result.
#[verifier::external_body]
fn chrono_parse_rfc3339(text: &str) -> (r: Option<Timestamp>)
    ensures
        match r {
            Some(t) => spec_parse_rfc3339(text@) == Some((t.secs, t.nanos)),
            None => spec_parse_rfc3339(text@) is None,
        },
{
    match chrono::DateTime::parse_from_rfc3339(text) {
        Ok(time) => {
            let utc = time.with_timezone(&chrono::Utc);
            Some(Timestamp { secs: utc.timestamp(), nanos: utc.timestamp_subsec_nanos() })
        },
        Err(_) => None,
    }
}

/// The instant a database column holds in RFC 3339 form, if it is valid.
pub fn parse_db_time(text: &str) -> (r: Option<Timestamp>)
    ensures
        match r {
            Some(t) => spec_parse_rfc3339(text@) == Some((t.secs, t.nanos)),
            None => spec_parse_rfc3339(text@) is None,
        },
{
    chrono_parse_rfc3339(text)
}

} // verus!

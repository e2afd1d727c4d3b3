//! Instants on the UTC time line.
//!
//! An instant is held as the pair that `chrono` reports for a
//! `DateTime<Utc>`: whole seconds since the Unix epoch, and the nanoseconds
//! within that second.  During a leap second the nanoseconds run from
//! 1_000_000_000 up to 1_999_999_999 while the seconds stay on the second
//! before it.  Two instants are ordered as the pairs are, seconds first.

use vstd::prelude::*;

verus! {

/// Seconds of the earliest instant `chrono` can hold, the start of the year -262143.
pub const MIN_SECS: i64 = -8_334_601_228_800;

/// Seconds of the last instant `chrono` can hold, the end of the year 262142.
pub const MAX_SECS: i64 = 8_210_266_876_799;

/// Nanoseconds in one second.
pub const NANOS_PER_SEC: u32 = 1_000_000_000;

/// An instant: seconds since the Unix epoch and nanoseconds within the second.
#[derive(Clone, Copy, Debug, PartialEq, Eq, Hash, PartialOrd, Ord, Structural)]
pub struct Timestamp {
    pub secs: i64,
    pub nanos: u32,
}

impl Timestamp {
    /// The pair denotes an instant that `chrono` can hold: the seconds are in
    /// range, and the nanoseconds exceed one second only on the last second
    /// of a minute.
    pub open spec fn is_valid(self) -> bool {
        &&& MIN_SECS <= self.secs <= MAX_SECS
        &&& (self.nanos < NANOS_PER_SEC || (self.nanos < 2 * NANOS_PER_SEC && self.secs % 60
            == 59))
    }

    /// Strictly earlier.
    pub open spec fn before(self, other: Timestamp) -> bool {
        self.secs < other.secs || (self.secs == other.secs && self.nanos < other.nanos)
    }

    /// Earlier or the same instant.
    pub open spec fn at_or_before(self, other: Timestamp) -> bool {
        self.before(other) || self == other
    }

    /// The instant `seconds` later, where there is one.  A positive step
    /// leaves a leap second behind: the nanoseconds fall back under one
    /// second before the seconds are added.
    pub open spec fn spec_plus_seconds(self, seconds: int) -> Option<Timestamp> {
        if !self.is_valid() || seconds < 0 || self.secs + seconds > MAX_SECS {
            None
        } else if seconds > 0 && self.nanos >= NANOS_PER_SEC {
            Some(
                Timestamp {
                    secs: (self.secs + seconds) as i64,
                    nanos: (self.nanos - NANOS_PER_SEC) as u32,
                },
            )
        } else {
            Some(Timestamp { secs: (self.secs + seconds) as i64, nanos: self.nanos })
        }
    }

    /// There is an instant `seconds` later.
    pub open spec fn can_add(self, seconds: int) -> bool {
        self.spec_plus_seconds(seconds) is Some
    }

    pub fn new(secs: i64, nanos: u32) -> (t: Timestamp)
        ensures
            t.secs == secs,
            t.nanos == nanos,
    {
        Timestamp { secs, nanos }
    }

    /// `self < other` on the time line.
    pub fn is_before(&self, other: &Timestamp) -> (b: bool)
        ensures
            b == self.before(*other),
    {
        self.secs < other.secs || (self.secs == other.secs && self.nanos < other.nanos)
    }

    /// `self <= other` on the time line.
    pub fn is_at_or_before(&self, other: &Timestamp) -> (b: bool)
        ensures
            b == self.at_or_before(*other),
    {
        self.secs < other.secs || (self.secs == other.secs && self.nanos <= other.nanos)
    }

    /// The instant `seconds` later, or `None` where `self` is no valid
    /// instant or the result would lie beyond the last one.
    pub fn plus_seconds(&self, seconds: u32) -> (r: Option<Timestamp>)
        ensures
            r == self.spec_plus_seconds(seconds as int),
    {
        datetime_plus_seconds(*self, seconds)
    }

    /// The instant `seconds` later, for an instant that has one.
    pub fn after_seconds(&self, seconds: u32) -> (r: Timestamp)
        requires
            self.can_add(seconds as int),
        ensures
            Some(r) == self.spec_plus_seconds(seconds as int),
    {
        match self.plus_seconds(seconds) {
            Some(later) => later,
            None => *self,
        }
    }
}

impl DeepView for Timestamp {
    type V = Timestamp;

    open spec fn deep_view(&self) -> Timestamp {
        *self
    }
}

/// The order on instants is total.
pub proof fn lemma_timestamp_order_total(a: Timestamp, b: Timestamp)
    ensures
        a.before(b) || a == b || b.before(a),
        !(a.before(b) && b.before(a)),
        a.at_or_before(b) <==> !b.before(a),
{
}

/// What `chrono` makes of a text as a `DateTime<Utc>`: the pair of
/// `timestamp()` and `timestamp_subsec_nanos()` of the instant it reads,
/// or `None` where it rejects the text.
pub uninterp spec fn parsed_datetime(text: Seq<char>) -> Option<(i64, u32)>;

/// A pair of seconds and nanoseconds as a `Timestamp`.
pub open spec fn timestamp_of(pair: Option<(i64, u32)>) -> Option<Timestamp> {
    match pair {
        Some((secs, nanos)) => Some(Timestamp { secs, nanos }),
        None => None,
    }
}

/// Calls `<DateTime<Utc> as FromStr>::from_str`, which reads a relaxed form
/// of RFC 3339 and converts the instant to UTC.  Nothing is claimed of which
/// texts it accepts: the result is the named one.
#[verifier::external_body]
pub(crate) fn parse_datetime(text: &str) -> (r: Option<Timestamp>)
    ensures
        r == timestamp_of(parsed_datetime(text@)),
{
    match text.parse::<chrono::DateTime<chrono::Utc>>() {
        Ok(t) => Some(Timestamp { secs: t.timestamp(), nanos: t.timestamp_subsec_nanos() }),
        Err(_) => None,
    }
}

/// What `chrono` writes for an instant in RFC 3339 form.
pub uninterp spec fn formatted_datetime(secs: i64, nanos: u32) -> Seq<char>;

/// Calls `DateTime::<Utc>::from_timestamp`, which rejects a pair that is not
/// valid, and `to_rfc3339` on the instant.  Nothing is claimed of the text
/// but that it is the named one.
#[verifier::external_body]
pub(crate) fn format_datetime(t: Timestamp) -> (r: Option<String>)
    ensures
        r is Some <==> t.is_valid(),
        r matches Some(text) ==> text@ == formatted_datetime(t.secs, t.nanos),
{
    match chrono::DateTime::from_timestamp(t.secs, t.nanos) {
        Some(instant) => Some(instant.to_rfc3339()),
        None => None,
    }
}

/// Calls `DateTime::<Utc>::from_timestamp` and `checked_add_signed` with a
/// `TimeDelta` of whole seconds.  The first rejects a pair that is not
/// valid; the second adds the seconds, after it has left a leap second, and
/// rejects a result after the last instant.
#[verifier::external_body]
fn datetime_plus_seconds(t: Timestamp, seconds: u32) -> (r: Option<Timestamp>)
    ensures
        r == t.spec_plus_seconds(seconds as int),
{
    let start = chrono::DateTime::from_timestamp(t.secs, t.nanos)?;
    let end = start.checked_add_signed(chrono::TimeDelta::seconds(seconds as i64))?;
    Some(Timestamp { secs: end.timestamp(), nanos: end.timestamp_subsec_nanos() })
}

} // verus!

//! Instants on the UTC time line, as whole seconds and nanoseconds.

use vstd::prelude::*;

verus! {

/// Seconds since the epoch of the first representable instant,
/// midnight of 1 January of the year -262143.
pub const MIN_SECS: i64 = -8_334_601_228_800;

/// Seconds since the epoch of the last representable second,
/// 23:59:59 on 31 December of the year 262142.
pub const MAX_SECS: i64 = 8_210_266_876_799;

/// Nanoseconds in one second.
pub const NANOS_PER_SEC: u32 = 1_000_000_000;

/// Whether `secs` seconds and `nanos` nanoseconds since the epoch name an
/// instant of the calendar: the second lies between [`MIN_SECS`] and
/// [`MAX_SECS`], and the nanoseconds stay below one second, or below two
/// in the last second of a minute, where they stand for a leap second.
pub open spec fn representable(secs: int, nanos: int) -> bool {
    &&& MIN_SECS <= secs <= MAX_SECS
    &&& 0 <= nanos < 2 * NANOS_PER_SEC
    &&& nanos >= NANOS_PER_SEC ==> secs % 60 == 59
}

/// The text that chrono's `DateTime::<Utc>::to_rfc3339` writes for the
/// instant `secs` seconds and `nanos` nanoseconds after the epoch, such as
/// `2015-05-15T00:00:00+00:00`.
pub uninterp spec fn rfc3339_text(secs: int, nanos: int) -> Seq<char>;

/// Formats an instant with chrono: `DateTime::from_timestamp` makes the
/// date and time of the instant, which exists for every [`representable`]
/// pair and for no other, and `to_rfc3339` writes it down, which never
/// fails. The text is known to proofs by the name [`rfc3339_text`] only.
#[verifier::external_body]
fn format_rfc3339(secs: i64, nanos: u32) -> (text: String)
    requires
        representable(secs as int, nanos as int),
    ensures
        text@ == rfc3339_text(secs as int, nanos as int),
{
    chrono::DateTime::from_timestamp(secs, nanos).unwrap().to_rfc3339()
}

/// An instant: seconds since 1970-01-01T00:00:00Z and nanoseconds into
/// that second. Every value is [`representable`].
#[derive(Clone, Copy, Debug, PartialEq, Eq, Structural)]
pub struct Timestamp {
    secs: i64,
    nanos: u32,
}

/// The mathematical value of a [`Timestamp`].
pub struct TimestampView {
    pub secs: int,
    pub nanos: int,
}

impl TimestampView {
    /// Whether the value is an instant of the calendar.
    pub open spec fn representable(self) -> bool {
        representable(self.secs, self.nanos)
    }

    /// The instant in the notation of RFC 3339.
    pub open spec fn rfc3339(self) -> Seq<char> {
        rfc3339_text(self.secs, self.nanos)
    }
}

impl View for Timestamp {
    type V = TimestampView;

    closed spec fn view(&self) -> TimestampView {
        TimestampView { secs: self.secs as int, nanos: self.nanos as int }
    }
}

impl Timestamp {
    #[verifier::type_invariant]
    spec fn in_calendar(self) -> bool {
        representable(self.secs as int, self.nanos as int)
    }

    /// The instant `secs` seconds and `nanos` nanoseconds after the epoch,
    /// or `None` where the calendar has no such instant.
    pub fn new(secs: i64, nanos: u32) -> (result: Option<Timestamp>)
        ensures
            result is Some <==> representable(secs as int, nanos as int),
            result matches Some(t) ==> t@ == (TimestampView {
                secs: secs as int,
                nanos: nanos as int,
            }),
    {
        if secs < MIN_SECS || secs > MAX_SECS || nanos >= 2 * NANOS_PER_SEC {
            return None;
        }
        if nanos >= NANOS_PER_SEC {
            // MIN_SECS is a whole number of minutes, so the shift keeps
            // the second of the minute.
            let since_first: i64 = secs - MIN_SECS;
            if since_first % 60 != 59 {
                return None;
            }
        }
        Some(Timestamp { secs, nanos })
    }

    /// Whole seconds since the epoch.
    pub fn secs(self) -> (secs: i64)
        ensures
            secs == self@.secs,
            self@.representable(),
    {
        proof {
            use_type_invariant(&self);
        }
        self.secs
    }

    /// Nanoseconds into the second.
    pub fn nanos(self) -> (nanos: u32)
        ensures
            nanos == self@.nanos,
            self@.representable(),
    {
        proof {
            use_type_invariant(&self);
        }
        self.nanos
    }

    /// The instant in the notation of RFC 3339.
    pub fn to_rfc3339(self) -> (text: String)
        ensures
            text@ == self@.rfc3339(),
    {
        proof {
            use_type_invariant(&self);
        }
        format_rfc3339(self.secs, self.nanos)
    }
}

} // verus!

//! Moments, and the calendar crate's arithmetic on them.

use vstd::prelude::*;

verus! {

/// The first second that a moment can name: the beginning of the year -9999.
pub const MIN_UNIX_SECS: i64 = -377_705_116_800;

/// The last second that a moment can name: the end of the year 9999.
pub const MAX_UNIX_SECS: i64 = 253_402_300_799;

/// A moment, as nanoseconds since the Unix epoch.
#[derive(Debug, Clone, Copy, PartialEq, Eq, Structural)]
pub struct Timestamp {
    pub unix_nanos: i128,
}

/// Whole seconds in a span of nanoseconds, rounded towards zero.
pub open spec fn whole_seconds(nanos: int) -> int {
    if nanos >= 0 {
        nanos / 1_000_000_000
    } else {
        -((-nanos) / 1_000_000_000)
    }
}

impl Timestamp {
    /// The moment is one that the calendar can name.
    pub open spec fn wf(self) -> bool {
        MIN_UNIX_SECS * 1_000_000_000 <= self.unix_nanos < (MAX_UNIX_SECS + 1) * 1_000_000_000
    }

    /// The Unix second that the moment falls in.
    pub open spec fn unix_secs(self) -> int {
        self.unix_nanos as int / 1_000_000_000
    }
}

/// `time::OffsetDateTime::from_unix_timestamp`: the moment at which a Unix second begins, for
/// every second from the year -9999 to the year 9999, and a refusal for any other.
#[verifier::external_body]
pub(crate) fn moment_of_unix_secs(secs: i64) -> (moment: Option<Timestamp>)
    ensures
        moment is Some <==> MIN_UNIX_SECS <= secs <= MAX_UNIX_SECS,
        moment matches Some(at) ==> at.unix_nanos == secs * 1_000_000_000,
{
    match time::OffsetDateTime::from_unix_timestamp(secs) {
        Ok(at) => Some(Timestamp { unix_nanos: at.unix_timestamp_nanos() }),
        Err(_) => None,
    }
}

/// `time::OffsetDateTime::unix_timestamp`: the Unix second that a moment falls in, rounded down.
#[verifier::external_body]
pub(crate) fn unix_secs_of(moment: Timestamp) -> (secs: i64)
    requires
        moment.wf(),
    ensures
        secs == moment.unix_secs(),
{
    time::OffsetDateTime::from_unix_timestamp_nanos(moment.unix_nanos).unwrap().unix_timestamp()
}

/// The difference of two `time::OffsetDateTime`s and `time::Duration::whole_seconds` of it: the
/// whole seconds from one moment to another, rounded towards zero, negative where `later` is the
/// earlier of the two.
#[verifier::external_body]
pub(crate) fn whole_seconds_between(later: Timestamp, earlier: Timestamp) -> (secs: i64)
    requires
        later.wf(),
        earlier.wf(),
    ensures
        secs == whole_seconds(later.unix_nanos - earlier.unix_nanos),
{
    let later = time::OffsetDateTime::from_unix_timestamp_nanos(later.unix_nanos).unwrap();
    let earlier = time::OffsetDateTime::from_unix_timestamp_nanos(earlier.unix_nanos).unwrap();
    (later - earlier).whole_seconds()
}

/// A `time::OffsetDateTime` less a `time::Duration::milliseconds`: the moment that many
/// milliseconds before another, which must be one that the calendar can name.
#[verifier::external_body]
pub(crate) fn moment_before(moment: Timestamp, millis: i64) -> (earlier: Timestamp)
    requires
        moment.wf(),
        0 <= millis,
        (Timestamp { unix_nanos: (moment.unix_nanos - millis * 1_000_000) as i128 }).wf(),
    ensures
        earlier.unix_nanos == moment.unix_nanos - millis * 1_000_000,
{
    let moment = time::OffsetDateTime::from_unix_timestamp_nanos(moment.unix_nanos).unwrap();
    let earlier = moment - time::Duration::milliseconds(millis);
    Timestamp { unix_nanos: earlier.unix_timestamp_nanos() }
}

} // verus!

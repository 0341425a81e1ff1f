//! Points in time as numbers.

use vstd::prelude::*;

verus! {

/// A point in time: seconds since the Unix epoch and nanoseconds within the
/// second. A value of a billion nanoseconds or more is within a leap second.
#[derive(Debug, Clone, Copy, PartialEq, Eq, Structural)]
pub struct Timestamp {
    pub secs: i64,
    pub nanos: u32,
}

pub const NANOS_PER_SEC: i128 = 1_000_000_000;

/// The whole seconds from one point to another, rounded towards zero, where
/// neither is within a leap second.
pub open spec fn whole_seconds(
    later_secs: i64,
    later_nanos: u32,
    earlier_secs: i64,
    earlier_nanos: u32,
) -> int {
    let n = (later_secs - earlier_secs) * NANOS_PER_SEC + later_nanos - earlier_nanos;
    if n >= 0 {
        n / NANOS_PER_SEC as int
    } else {
        -(-n / NANOS_PER_SEC as int)
    }
}

/// A point that is not within a leap second, and not hundreds of thousands of
/// years away.
pub open spec fn is_plain(secs: i64, nanos: u32) -> bool {
    -8_000_000_000_000 <= secs <= 8_000_000_000_000 && nanos < NANOS_PER_SEC
}

/// The whole seconds that chrono counts from one point to another, if both are
/// points that it can represent.
pub uninterp spec fn chrono_seconds(
    later_secs: i64,
    later_nanos: u32,
    earlier_secs: i64,
    earlier_nanos: u32,
) -> Option<i64>;

/// Makes the two points with `chrono::DateTime::from_timestamp`, takes the
/// earlier from the later, and calls `num_seconds` on the difference. The
/// result depends on the four numbers alone, and is nothing where a point cannot
/// be made. For points that chrono surely can represent, and outside of leap
/// seconds, it is the difference in whole seconds, rounded towards zero; how
/// chrono counts leap seconds is left to it.
#[verifier::external_body]
fn chrono_seconds_between(
    later_secs: i64,
    later_nanos: u32,
    earlier_secs: i64,
    earlier_nanos: u32,
) -> (secs: Option<i64>)
    ensures
        secs == chrono_seconds(later_secs, later_nanos, earlier_secs, earlier_nanos),
        is_plain(later_secs, later_nanos) && is_plain(earlier_secs, earlier_nanos) ==> secs is Some
            && secs->0 == whole_seconds(later_secs, later_nanos, earlier_secs, earlier_nanos),
{
    let later = chrono::DateTime::from_timestamp(later_secs, later_nanos)?;
    let earlier = chrono::DateTime::from_timestamp(earlier_secs, earlier_nanos)?;
    Some((later - earlier).num_seconds())
}

/// The whole seconds from one point to another.
pub open spec fn elapsed(later: Timestamp, earlier: Timestamp) -> Option<i64> {
    chrono_seconds(later.secs, later.nanos, earlier.secs, earlier.nanos)
}

pub fn seconds_between(later: Timestamp, earlier: Timestamp) -> (secs: Option<i64>)
    ensures
        secs == elapsed(later, earlier),
        is_plain(later.secs, later.nanos) && is_plain(earlier.secs, earlier.nanos) ==> secs is Some
            && secs->0 == whole_seconds(later.secs, later.nanos, earlier.secs, earlier.nanos),
{
    chrono_seconds_between(later.secs, later.nanos, earlier.secs, earlier.nanos)
}

/// What chrono reads an RFC 3339 text as: seconds since the Unix epoch and
/// nanoseconds, if it is one.
pub uninterp spec fn rfc3339_value(s: Seq<char>) -> Option<(i64, u32)>;

/// Calls `chrono::DateTime::parse_from_rfc3339` and takes the Unix timestamp
/// and the nanoseconds of what it returns, nothing on its error. The result
/// depends on the text alone.
#[verifier::external_body]
fn chrono_parse_rfc3339(s: &str) -> (value: Option<(i64, u32)>)
    ensures
        value == rfc3339_value(s@),
{
    match chrono::DateTime::parse_from_rfc3339(s) {
        Ok(at) => Some((at.timestamp(), at.timestamp_subsec_nanos())),
        Err(_) => None,
    }
}

/// The point in time that an RFC 3339 text stands for.
pub open spec fn rfc3339_timestamp(s: Seq<char>) -> Option<Timestamp> {
    match rfc3339_value(s) {
        Some((secs, nanos)) => Some(Timestamp { secs, nanos }),
        None => None,
    }
}

/// Reads an RFC 3339 text.
pub fn parse_rfc3339(s: &str) -> (at: Option<Timestamp>)
    ensures
        at == rfc3339_timestamp(s@),
{
    match chrono_parse_rfc3339(s) {
        Some((secs, nanos)) => Some(Timestamp { secs, nanos }),
        None => None,
    }
}

/// The present time as RFC 3339 text: calls `chrono::Utc::now` and writes the
/// time with `to_rfc3339`. Nothing is claimed of the time.
#[verifier::external_body]
pub(crate) fn now_rfc3339() -> (now: String) {
    chrono::Utc::now().to_rfc3339()
}


/// Law: between two points that are not within a leap second lie as many
/// seconds as fit whole into the time between them, and as many the other way
/// round, counted back.
pub proof fn seconds_are_whole(
    later: Timestamp,
    earlier: Timestamp,
    secs: Option<i64>,
    back: Option<i64>,
)
    requires
        call_ensures(seconds_between, (later, earlier), secs),
        call_ensures(seconds_between, (earlier, later), back),
        -8_000_000_000_000 <= later.secs <= 8_000_000_000_000,
        -8_000_000_000_000 <= earlier.secs <= 8_000_000_000_000,
        later.nanos < 1_000_000_000,
        earlier.nanos < 1_000_000_000,
    ensures
        secs is Some,
        back is Some,
        back->0 == -secs->0,
        ({
            let a = later.secs * 1_000_000_000 + later.nanos;
            let b = earlier.secs * 1_000_000_000 + earlier.nanos;
            &&& a >= b ==> 1_000_000_000 * secs->0 <= a - b < 1_000_000_000 * (secs->0 + 1)
            &&& a <= b ==> secs->0 <= 0
        }),
{
}

} // verus!

//! Where the timestamp of a request comes from: a count of milliseconds, a
//! date and time in RFC 3339 form, or the clock.

use crate::trusted::{parse_rfc3339_millis, rfc3339_millis};
use vstd::prelude::*;

verus! {

/// Why a date and time cannot pin a timestamp.
#[derive(Debug, Clone, Copy, PartialEq, Eq)]
pub enum ResolveError {
    /// The text is not an RFC 3339 date and time; the parser's error says
    /// why.
    InvalidDatetime(chrono::ParseError),
    /// The date and time lies before 1970-01-01T00:00:00Z.
    BeforeEpoch,
}

/// The timestamp for an instant given in milliseconds relative to the epoch:
/// the same count, unless the instant lies before the epoch.
pub open spec fn timestamp_of_millis(millis: i64) -> Result<u64, ResolveError> {
    if millis < 0 {
        Err(ResolveError::BeforeEpoch)
    } else {
        Ok(millis as u64)
    }
}

/// The outcome of pinning the instant `millis`: its timestamp, pinned, or
/// the reason why it has none.
pub open spec fn pinned_by_millis(millis: i64) -> Result<Option<u64>, ResolveError> {
    match timestamp_of_millis(millis) {
        Ok(timestamp) => Ok(Some(timestamp)),
        Err(e) => Err(e),
    }
}

/// Turns an instant in milliseconds relative to the epoch into a timestamp.
/// Fails with `BeforeEpoch` exactly when the instant is negative.
pub fn millis_to_timestamp(millis: i64) -> (r: Result<u64, ResolveError>)
    ensures
        r == timestamp_of_millis(millis),
{
    if millis < 0 {
        Err(ResolveError::BeforeEpoch)
    } else {
        Ok(millis as u64)
    }
}

/// Settles the timestamp that the requests of a run are pinned to. A count
/// of milliseconds is taken as it is and wins over a date and time. A date
/// and time is parsed as RFC 3339: it fails with `InvalidDatetime` when it
/// does not parse and with `BeforeEpoch` when it lies before the epoch, else
/// it pins its own count of milliseconds. With neither, nothing is pinned and
/// the clock decides.
pub fn resolve_timestamp(timestamp: Option<u64>, datetime: Option<&str>) -> (r: Result<
    Option<u64>,
    ResolveError,
>)
    ensures
        timestamp matches Some(millis) ==> r == Ok::<Option<u64>, ResolveError>(Some(millis)),
        timestamp is None && datetime is None ==> r == Ok::<Option<u64>, ResolveError>(None),
        timestamp is None && datetime is Some ==> match rfc3339_millis(datetime->0@) {
            Some(millis) => r == pinned_by_millis(millis),
            None => r matches Err(ResolveError::InvalidDatetime(_)),
        },
{
    if let Some(millis) = timestamp {
        return Ok(Some(millis));
    }
    match datetime {
        None => Ok(None),
        Some(text) => match parse_rfc3339_millis(text) {
            Err(e) => Err(ResolveError::InvalidDatetime(e)),
            Ok(millis) => match millis_to_timestamp(millis) {
                Ok(t) => Ok(Some(t)),
                Err(e) => Err(e),
            },
        },
    }
}

} // verus!

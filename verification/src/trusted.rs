//! Contracts that are taken on trust: they describe code that lives outside
//! this crate and are not proved here.

use crate::codec::MAX_TIMESTAMP;
use vstd::prelude::*;

verus! {

/// `String::push` appends one character to the end of the string and leaves
/// the characters before it as they were.
pub assume_specification[ String::push ](s: &mut String, c: char)
    ensures
        final(s)@ == old(s)@.push(c),
;

/// Calls `ulid::Ulid::new`, which stamps the wall-clock time of the call and
/// draws the random payload from the thread's random number generator, and
/// hands back the 128 bits of the identifier. Nothing is claimed of them: two
/// calls may return any two values.
#[verifier::external_body]
pub(crate) fn draw_ulid() -> (bits: u128) {
    ulid::Ulid::new().0
}

/// The error of `chrono`'s parsers. Nothing is known of what it holds.
#[verifier::external_type_specification]
#[verifier::external_body]
pub struct ExParseError(chrono::ParseError);

/// The instant that `text` names when read as an RFC 3339 date and time, in
/// milliseconds since 1970-01-01T00:00:00Z, negative before then; `None`
/// when `text` is no such date and time. It stands for what
/// `chrono::DateTime::parse_from_rfc3339` followed by
/// `chrono::DateTime::timestamp_millis` compute, which depends on `text`
/// alone.
pub uninterp spec fn rfc3339_millis(text: Seq<char>) -> Option<i64>;

/// The RFC 3339 text of the instant `millis` milliseconds after
/// 1970-01-01T00:00:00Z, in UTC. It stands for what
/// `chrono::DateTime::<Utc>::to_rfc3339` writes for that instant, which
/// depends on `millis` alone.
pub uninterp spec fn rfc3339_text(millis: u64) -> Seq<char>;

/// Calls `chrono::DateTime::parse_from_rfc3339` on `text` and, where that
/// succeeds, `timestamp_millis` on the date and time it returns. The contract
/// claims that the outcome is the one that `rfc3339_millis` names: the same
/// text always parses to the same instant, or always fails.
#[verifier::external_body]
pub(crate) fn parse_rfc3339_millis(text: &str) -> (parsed: Result<i64, chrono::ParseError>)
    ensures
        match parsed {
            Ok(millis) => rfc3339_millis(text@) == Some(millis),
            Err(_) => rfc3339_millis(text@) is None,
        },
{
    match chrono::DateTime::parse_from_rfc3339(text) {
        Ok(datetime) => Ok(datetime.timestamp_millis()),
        Err(e) => Err(e),
    }
}

/// Converts the instant `millis` milliseconds after the epoch to a
/// `chrono::DateTime<Utc>` and calls `to_rfc3339` on it. The contract claims
/// that the text is the one that `rfc3339_text` names. A 48-bit count of
/// milliseconds ends in the year 10889, inside the range of years that
/// `chrono` represents, so the conversion does not fail.
#[verifier::external_body]
pub(crate) fn format_rfc3339(millis: u64) -> (text: String)
    requires
        millis <= MAX_TIMESTAMP,
    ensures
        text@ == rfc3339_text(millis),
{
    let instant = std::time::UNIX_EPOCH + std::time::Duration::from_millis(millis);
    chrono::DateTime::<chrono::Utc>::from(instant).to_rfc3339()
}

} // verus!

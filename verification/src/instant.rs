//! Moments in time, as seconds since the Unix epoch and nanoseconds within the
//! second.

use vstd::prelude::*;

verus! {

/// The outside type `chrono::ParseError`, carried as an opaque value.
#[verifier::external_type_specification]
#[verifier::external_body]
pub struct ExParseError(chrono::ParseError);

/// The moment that `chrono::DateTime::parse_from_rfc3339` reads from a text, in
/// UTC, or none where the text is no RFC 3339 time.
pub uninterp spec fn rfc3339_moment(text: Seq<char>) -> Option<(i64, u32)>;

/// The text that `chrono::DateTime::to_rfc3339` writes for a moment in UTC, or
/// none where `chrono::DateTime::from_timestamp` finds no such moment.
pub uninterp spec fn rfc3339_text(secs: i64, nanos: u32) -> Option<Seq<char>>;

/// `chrono::DateTime::parse_from_rfc3339`, with the moment given as
/// `timestamp` and `timestamp_subsec_nanos` in UTC.
#[verifier::external_body]
pub(crate) fn parse_rfc3339(text: &str) -> (moment: Result<(i64, u32), chrono::ParseError>)
    ensures
        match moment {
            Ok(m) => rfc3339_moment(text@) == Some(m),
            Err(_) => rfc3339_moment(text@) is None,
        },
{
    let moment = chrono::DateTime::parse_from_rfc3339(text)?.to_utc();
    Ok((moment.timestamp(), moment.timestamp_subsec_nanos()))
}

/// `chrono::DateTime::from_timestamp` and `to_rfc3339`.
#[verifier::external_body]
pub(crate) fn format_rfc3339(secs: i64, nanos: u32) -> (text: Option<String>)
    ensures
        match text {
            Some(t) => rfc3339_text(secs, nanos) == Some(t@),
            None => rfc3339_text(secs, nanos) is None,
        },
{
    chrono::DateTime::from_timestamp(secs, nanos).map(|moment| moment.to_rfc3339())
}

/// A moment is at or before another.
pub open spec fn at_or_before(a: (i64, u32), b: (i64, u32)) -> bool {
    a.0 < b.0 || (a.0 == b.0 && a.1 <= b.1)
}

/// Whether a moment is at or before another.
pub fn is_at_or_before(a: (i64, u32), b: (i64, u32)) -> (earlier: bool)
    ensures
        earlier == at_or_before(a, b),
{
    a.0 < b.0 || (a.0 == b.0 && a.1 <= b.1)
}

/// Moments compare by their nanoseconds since the epoch.
pub proof fn law_moments_compare_by_nanoseconds(a: (i64, u32), b: (i64, u32))
    ensures
        a.1 < 1_000_000_000 && b.1 < 1_000_000_000 ==> (at_or_before(a, b) <==> a.0 * 1_000_000_000
            + a.1 <= b.0 * 1_000_000_000 + b.1),
        a.0 < b.0 ==> at_or_before(a, b),
        a.0 > b.0 ==> !at_or_before(a, b),
        a.0 == b.0 ==> (at_or_before(a, b) <==> a.1 <= b.1),
{
}

} // verus!

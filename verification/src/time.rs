//! Instants as seconds since the Unix epoch, checked and formatted by chrono.

use vstd::prelude::*;

verus! {

/// The first second chrono represents: the start of `NaiveDate::MIN`
/// (January 1, 262144 BCE).
pub const MIN_UTC_SECS: i64 = -8334601228800;

/// The last second chrono represents: the end of `NaiveDate::MAX`
/// (December 31, 262142 CE).
pub const MAX_UTC_SECS: i64 = 8210266876799;

/// Whether chrono can represent the UTC instant `secs` seconds after the
/// Unix epoch (`DateTime::<Utc>::from_timestamp_secs(secs)` is `Some`):
/// the instant lies between `NaiveDate::MIN` and the end of `NaiveDate::MAX`.
pub open spec fn utc_secs_representable(secs: i64) -> bool {
    MIN_UTC_SECS <= secs <= MAX_UTC_SECS
}

/// The text chrono writes for the UTC instant `secs` under the strftime
/// pattern `pattern`.
pub uninterp spec fn utc_format_text(secs: i64, pattern: Seq<char>) -> Seq<char>;

/// The strftime patterns this library formats with; both are well formed.
pub open spec fn known_pattern(pattern: Seq<char>) -> bool {
    pattern == "%Y-%m-%d %H:%M:%S"@ || pattern == "%Y-%m-%d"@
}

/// `chrono::DateTime::<Utc>::from_timestamp_secs(secs).is_some()`. chrono
/// documents that the instant it builds round-trips to `secs`, so the
/// library keeps the instant as `secs` itself.
#[verifier::external_body]
pub(crate) fn utc_secs_valid(secs: i64) -> (r: bool)
    ensures
        r == utc_secs_representable(secs),
{
    chrono::DateTime::from_timestamp_secs(secs).is_some()
}

/// `DateTime::<Utc>::from_timestamp_secs(secs)`, then `.format(pattern)`
/// written out: the text is `utc_format_text(secs, pattern)`.
#[verifier::external_body]
pub(crate) fn format_utc(secs: i64, pattern: &str) -> (r: String)
    requires
        utc_secs_representable(secs),
        known_pattern(pattern@),
    ensures
        r@ == utc_format_text(secs, pattern@),
{
    chrono::DateTime::from_timestamp_secs(secs).unwrap().format(pattern).to_string()
}

/// A timestamp read from JSON and accepted as an instant:
/// `as_i64().and_then(DateTime::from_timestamp_secs)`.
pub open spec fn checked_instant(secs: Option<i64>) -> Option<i64> {
    match secs {
        Some(t) => if utc_secs_representable(t) {
            Some(t)
        } else {
            None
        },
        None => None,
    }
}

/// `secs.and_then(DateTime::from_timestamp_secs)`, by the timestamp.
pub fn check_instant(secs: Option<i64>) -> (r: Option<i64>)
    ensures
        r == checked_instant(secs),
{
    match secs {
        Some(t) => if utc_secs_valid(t) {
            Some(t)
        } else {
            None
        },
        None => None,
    }
}

/// The full date-time text, `%Y-%m-%d %H:%M:%S`.
pub(crate) fn datetime_text(secs: i64) -> (r: String)
    requires
        utc_secs_representable(secs),
    ensures
        r@ == utc_format_text(secs, "%Y-%m-%d %H:%M:%S"@),
{
    format_utc(secs, "%Y-%m-%d %H:%M:%S")
}

/// The date text, `%Y-%m-%d`.
pub(crate) fn date_text(secs: i64) -> (r: String)
    requires
        utc_secs_representable(secs),
    ensures
        r@ == utc_format_text(secs, "%Y-%m-%d"@),
{
    format_utc(secs, "%Y-%m-%d")
}

} // verus!

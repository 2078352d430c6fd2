//! Time values from text, through `chrono`. Times are Unix timestamps in
//! milliseconds.
use vstd::prelude::*;

verus! {

/// The instant written in RFC 3339 form in `s`, in milliseconds since the
/// Unix epoch, as `chrono` reads it (`None` when `s` is not RFC 3339).
pub uninterp spec fn spec_rfc3339_ms(s: Seq<char>) -> Option<i64>;

/// Midnight UTC of the date written `%Y-%m-%d` in `s`, in milliseconds,
/// as `chrono` reads it (`None` when `s` is not such a date).
pub uninterp spec fn spec_ymd_ms(s: Seq<char>) -> Option<i64>;

/// `chrono::DateTime::parse_from_rfc3339`, converted to milliseconds since
/// the epoch; the result is named `spec_rfc3339_ms`.
#[verifier::external_body]
pub(crate) fn parse_rfc3339_ms(s: &str) -> (r: Option<i64>)
    ensures
        r == spec_rfc3339_ms(s@),
{
    chrono::DateTime::parse_from_rfc3339(s).ok().map(|d| d.timestamp_millis())
}

/// `chrono::NaiveDate::parse_from_str` with `%Y-%m-%d`, at 00:00:00 UTC,
/// in milliseconds; the result is named `spec_ymd_ms`.
#[verifier::external_body]
pub(crate) fn parse_ymd_ms(s: &str) -> (r: Option<i64>)
    ensures
        r == spec_ymd_ms(s@),
{
    chrono::NaiveDate::parse_from_str(s, "%Y-%m-%d")
        .ok()
        .and_then(|d| d.and_hms_opt(0, 0, 0))
        .map(|dt| dt.and_utc().timestamp_millis())
}


/// The current time in Unix seconds (`chrono::Utc::now().timestamp()`);
/// nothing is promised of it.
#[verifier::external_body]
pub(crate) fn now_secs() -> (r: i64) {
    chrono::Utc::now().timestamp()
}


/// The UTC time of a Unix time in seconds formatted by `chrono` with the
/// format `fmt`, or `None` when the time is out of `chrono`'s range.
pub uninterp spec fn spec_format_utc_secs(ts: i64, fmt: Seq<char>) -> Option<Seq<char>>;

/// `chrono::Utc.timestamp_opt(ts, 0).single()` formatted with `fmt`:
/// named `spec_format_utc_secs`. Only the two formats of the page filters
/// are accepted (`chrono` fails on a malformed format).
#[verifier::external_body]
fn format_utc_secs(ts: i64, fmt: &str) -> (r: Option<String>)
    requires
        fmt@ == "%Y-%m-%dT%H:%M:%SZ"@ || fmt@ == "%Y-%m-%d %H:%M"@,
    ensures
        crate::model::opt_view(r) == spec_format_utc_secs(ts, fmt@),
{
    chrono::TimeZone::timestamp_opt(&chrono::Utc, ts, 0).single().map(|d| d.format(fmt).to_string())
}

/// A Unix time in seconds as an ISO 8601 UTC time (`2024-01-02T03:04:05Z`).
pub fn timestamp_to_iso8601(ts: i64) -> (r: Option<String>)
    ensures
        crate::model::opt_view(r) == spec_format_utc_secs(ts, "%Y-%m-%dT%H:%M:%SZ"@),
{
    format_utc_secs(ts, "%Y-%m-%dT%H:%M:%SZ")
}

/// A Unix time in seconds as a UTC date and minute (`2024-01-02 03:04`).
pub fn timestamp_to_date(ts: i64) -> (r: Option<String>)
    ensures
        crate::model::opt_view(r) == spec_format_utc_secs(ts, "%Y-%m-%d %H:%M"@),
{
    format_utc_secs(ts, "%Y-%m-%d %H:%M")
}

} // verus!

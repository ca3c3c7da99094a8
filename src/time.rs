use vstd::prelude::*;
use vstd::string::StringExecFns;

verus! {

/// The instant, in seconds since the Unix epoch, that a text of the form
/// `YYYY-MM-DDTHH:MM:SSZ` names in UTC, or `None` where the text is not of
/// that form.
pub uninterp spec fn utc_seconds(s: Seq<char>) -> Option<i64>;

/// Relies on chrono's `NaiveDateTime::parse_from_str` with the format
/// `%Y-%m-%dT%H:%M:%SZ`, and on `DateTime::timestamp` of that time in UTC.
#[verifier::external_body]
fn parse_utc(s: &str) -> (r: Option<i64>)
    ensures
        r == utc_seconds(s@),
{
    chrono::NaiveDateTime::parse_from_str(s, "%Y-%m-%dT%H:%M:%SZ").ok().map(
        |d| d.and_utc().timestamp(),
    )
}

/// A timestamp that is not of the form `YYYY-MM-DDTHH:MM:SSZ`.
#[derive(Debug)]
pub enum DateError {
    Invalid { text: String },
}

/// Reads a score's UTC timestamp; there is no fallback format.
pub fn parse_created_at(s: &str) -> (r: Result<i64, DateError>)
    ensures
        utc_seconds(s@) matches Some(t) ==> r == Ok::<i64, DateError>(t),
        utc_seconds(s@) is None ==> (r matches Err(DateError::Invalid { text }) && text@ == s@),
{
    match parse_utc(s) {
        Some(t) => Ok(t),
        None => Err(DateError::Invalid { text: String::from_str(s) }),
    }
}

} // verus!

//! UTC instants as RFC 3339 text, through chrono and bson's millisecond
//! date type.
use vstd::prelude::*;

verus! {

/// The RFC 3339 text that chrono writes for an instant given in milliseconds
/// since the Unix epoch (clamped by bson to the range chrono can hold).
pub uninterp spec fn rfc3339_text(ms: i64) -> Seq<char>;

/// The instant, in whole milliseconds since the Unix epoch, that chrono reads
/// from RFC 3339 text, or `None` where chrono rejects the text.
pub uninterp spec fn rfc3339_millis(s: Seq<char>) -> Option<i64>;

/// Relies on bson::DateTime::to_chrono and chrono's DateTime::to_rfc3339.
#[verifier::external_body]
pub(crate) fn format_rfc3339(ms: i64) -> (r: String)
    ensures
        r@ == rfc3339_text(ms),
{
    bson::DateTime::from_millis(ms).to_chrono().to_rfc3339()
}

/// Relies on chrono's DateTime::parse_from_rfc3339, truncated to milliseconds
/// by bson::DateTime::from_chrono.
#[verifier::external_body]
pub(crate) fn parse_rfc3339(s: &String) -> (r: Option<i64>)
    ensures
        r == rfc3339_millis(s@),
{
    match chrono::DateTime::parse_from_rfc3339(s) {
        Ok(d) => Some(bson::DateTime::from_chrono(d).timestamp_millis()),
        Err(_) => None,
    }
}

} // verus!

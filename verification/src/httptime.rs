//! Timestamps taken from HTTP date header values, through the httpdate crate.
use vstd::prelude::*;

verus! {

#[verifier::external_type_specification]
#[verifier::external_body]
pub struct ExSystemTime(std::time::SystemTime);

/// Whether a header value is a well-formed HTTP date, in any of the three
/// standard forms (IMF-fixdate, RFC 850, asctime). A function of the
/// characters alone.
pub uninterp spec fn http_date_ok(s: Seq<char>) -> bool;

/// Relies on httpdate::parse_http_date: parses the three standard HTTP date
/// forms to a timestamp, and whether it succeeds depends on the string alone.
#[verifier::external_body]
pub(crate) fn parse_http_date(s: &str) -> (r: Option<std::time::SystemTime>)
    ensures
        r is Some <==> http_date_ok(s@),
{
    httpdate::parse_http_date(s).ok()
}

} // verus!

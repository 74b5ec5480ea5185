//! The wall clock, read when a fusion or a mapper records its time.
use vstd::prelude::*;

use crate::text::is_blank;

verus! {

/// Relies on `DateTime::<Utc>::from(SystemTime)` and `DateTime::to_rfc3339`:
/// the current UTC time as RFC 3339 text, which always begins with the
/// digits (or sign) of the year. A clock before the Unix epoch is handled;
/// only a reading beyond chrono's range of some 262,000 years would not be.
#[verifier::external_body]
pub(crate) fn now_rfc3339() -> (r: String)
    ensures
        !is_blank(r@),
{
    chrono::DateTime::<chrono::Utc>::from(std::time::SystemTime::now()).to_rfc3339()
}

} // verus!

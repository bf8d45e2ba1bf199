//! Calendar dates of commits.
use vstd::prelude::*;

verus! {

/// The UTC calendar date, as "YYYY-MM-DD", of the instant `seconds` after the
/// Unix epoch; `None` where chrono cannot represent that instant.
pub uninterp spec fn utc_date_of(seconds: i64) -> Option<Seq<char>>;

/// Calls `chrono::DateTime::<Utc>::from_timestamp(seconds, 0)` and formats the
/// result with `"%Y-%m-%d"`. Claimed: the result is `utc_date_of(seconds)`, a
/// function of the number of seconds alone (UTC, no time zone of the machine);
/// nothing is claimed of which seconds chrono cannot represent nor of the
/// calendar arithmetic.
#[verifier::external_body]
pub(crate) fn utc_date(seconds: i64) -> (r: Option<String>)
    ensures
        match r {
            Some(t) => utc_date_of(seconds) == Some(t@),
            None => utc_date_of(seconds) is None,
        },
{
    match chrono::DateTime::<chrono::Utc>::from_timestamp(seconds, 0) {
        Some(d) => Some(d.format("%Y-%m-%d").to_string()),
        None => None,
    }
}

} // verus!

//! Points in time as text (`humantime`).

use std::time::{Duration, SystemTime};
use vstd::prelude::*;

verus! {

/// The first second of the year 10000, counted from the start of 1970: from there on there
/// is no text.
pub const END_OF_TIME: u64 = 253_402_300_800;

/// The text of a point in time, given by the seconds since the start of 1970.
pub uninterp spec fn rfc3339_seconds(seconds: u64) -> Seq<char>;

/// `humantime::format_rfc3339_seconds`, written out: twenty characters, the date and the
/// time of day of the universal time with a `T` between them and a `Z` at the end. The
/// text of a time from the year 10000 on is an error, on which writing it out panics.
#[verifier::external_body]
pub(crate) fn format_seconds(seconds: u64) -> (r: String)
    requires
        seconds < END_OF_TIME,
    ensures
        r@ == rfc3339_seconds(seconds),
        r@.len() == 20,
        r@[10] == 'T',
        r@[19] == 'Z',
{
    humantime::format_rfc3339_seconds(SystemTime::UNIX_EPOCH + Duration::from_secs(seconds)).to_string()
}

} // verus!

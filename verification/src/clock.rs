//! The wall clock, read through the `time` crate.

use vstd::prelude::*;

verus! {

/// The pattern after which a name is derived from the time: the letters `at`,
/// then year, month, day, hour, minute, second and nanosecond, with `_` between.
pub open spec fn name_pattern() -> Seq<char> {
    "at%Y_%m_%d_%H_%M_%S_%N"@
}

/// The current time in UTC as RFC 3339 writes it, by `OffsetDateTime::now_utc`
/// and `OffsetDateTime::format` of the `time` crate with `Format::Rfc3339`.
///
/// The text depends on the clock: nothing is claimed of it.
#[verifier::external_body]
pub(crate) fn utc_timestamp() -> (text: String) {
    time::OffsetDateTime::now_utc().format(time::Format::Rfc3339)
}

/// The current time in UTC written after `pattern`, by `OffsetDateTime::now_utc`
/// and `OffsetDateTime::format` of the `time` crate.
///
/// `format` panics on a pattern that it cannot read, so only the pattern of
/// names is let in. The text depends on the clock: nothing is claimed of it.
#[verifier::external_body]
pub(crate) fn utc_formatted(pattern: &str) -> (text: String)
    requires
        pattern@ == name_pattern(),
{
    time::OffsetDateTime::now_utc().format(pattern)
}

} // verus!

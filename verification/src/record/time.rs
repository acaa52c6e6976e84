//! Times as text.

use vstd::prelude::*;

use crate::record::builder::text_of;

verus! {

// Times are written by the chrono crate. What is claimed of its answer is
// said by the one name below; of the clock nothing is claimed at all.

/// How much of the fraction of a second is written: nothing, three, six or
/// nine digits, or as many of these as hold all that is not zero.
#[derive(Debug, Clone, Copy, PartialEq, Eq, Structural)]
pub enum Precision {
    Secs,
    Millis,
    Micros,
    Nanos,
    AutoSi,
}

/// The time `seconds` and `nanoseconds` after the Unix epoch, written by
/// chrono as UTC in RFC 3339 form with the fraction as `precision` says, the
/// offset as `Z` where `use_z` is set and as `+00:00` where it is not; `None`
/// where chrono cannot represent that time.
pub uninterp spec fn rfc3339_utc(
    seconds: i64,
    nanoseconds: u32,
    precision: Precision,
    use_z: bool,
) -> Option<Seq<char>>;

/// Calls chrono's `DateTime::from_timestamp` and, on what it gives,
/// `to_rfc3339_opts`. Nothing is claimed of the result but that it is
/// `rfc3339_utc` of the arguments.
#[verifier::external_body]
pub(crate) fn to_rfc3339(seconds: i64, nanoseconds: u32, precision: Precision, use_z: bool) -> (out:
    Option<String>)
    ensures
        text_of(out) == rfc3339_utc(seconds, nanoseconds, precision, use_z),
{
    let format = match precision {
        Precision::Secs => chrono::SecondsFormat::Secs,
        Precision::Millis => chrono::SecondsFormat::Millis,
        Precision::Micros => chrono::SecondsFormat::Micros,
        Precision::Nanos => chrono::SecondsFormat::Nanos,
        Precision::AutoSi => chrono::SecondsFormat::AutoSi,
    };
    match chrono::DateTime::from_timestamp(seconds, nanoseconds) {
        Some(moment) => Some(moment.to_rfc3339_opts(format, use_z)),
        None => None,
    }
}

/// Calls chrono's `Utc::now` and, on what it gives, `to_rfc3339_opts`.
/// Nothing is claimed of the result: it is whatever the clock says.
#[verifier::external_body]
pub(crate) fn now_rfc3339(precision: Precision, use_z: bool) -> String {
    let format = match precision {
        Precision::Secs => chrono::SecondsFormat::Secs,
        Precision::Millis => chrono::SecondsFormat::Millis,
        Precision::Micros => chrono::SecondsFormat::Micros,
        Precision::Nanos => chrono::SecondsFormat::Nanos,
        Precision::AutoSi => chrono::SecondsFormat::AutoSi,
    };
    chrono::Utc::now().to_rfc3339_opts(format, use_z)
}

} // verus!

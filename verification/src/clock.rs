//! The wall clock, read through `chrono`.

use vstd::prelude::*;

verus! {

/// `t` has the shape `p`: as long, with a decimal digit wherever `p` has
/// `#` and the character of `p` everywhere else.
pub open spec fn has_shape(t: Seq<char>, p: Seq<char>) -> bool {
    &&& t.len() == p.len()
    &&& forall|i: int| 0 <= i < t.len() ==>
            if p[i] == '#' { '0' <= #[trigger] t[i] && t[i] <= '9' } else { t[i] == p[i] }
}

/// A date, `%Y-%m-%d`.
pub open spec fn date_shape() -> Seq<char> {
    seq!['#', '#', '#', '#', '-', '#', '#', '-', '#', '#']
}

/// A date and time to the minute, `%Y-%m-%d %H:%M`.
pub open spec fn minute_shape() -> Seq<char> {
    date_shape() + seq![' ', '#', '#', ':', '#', '#']
}

/// A date and time to the second, `%Y-%m-%d %H:%M:%S`.
pub open spec fn second_shape() -> Seq<char> {
    minute_shape() + seq![':', '#', '#']
}

/// A date and time to the second, `%Y-%m-%dT%H:%M:%S`.
pub open spec fn iso_second_shape() -> Seq<char> {
    date_shape() + seq!['T', '#', '#', ':', '#', '#', ':', '#', '#']
}

/// The current UTC date as `%Y-%m-%d` (`chrono::Utc::now().format(..)`):
/// four digits of year (the current year has four), two of month and two
/// of day. Which date it is depends on the moment of the call.
#[verifier::external_body]
pub(crate) fn utc_today() -> (r: String)
    ensures
        has_shape(r@, date_shape()),
{
    chrono::Utc::now().format("%Y-%m-%d").to_string()
}

/// The current UTC time as `%Y-%m-%d %H:%M` (`chrono::Utc::now().format(..)`),
/// each field zero-padded to its width. Which time it is depends on the
/// moment of the call.
#[verifier::external_body]
pub(crate) fn utc_now_minute() -> (r: String)
    ensures
        has_shape(r@, minute_shape()),
{
    chrono::Utc::now().format("%Y-%m-%d %H:%M").to_string()
}

/// The current UTC time as `%Y-%m-%d %H:%M:%S` (`chrono::Utc::now().format(..)`),
/// each field zero-padded to its width. Which time it is depends on the
/// moment of the call.
#[verifier::external_body]
pub(crate) fn utc_now_second() -> (r: String)
    ensures
        has_shape(r@, second_shape()),
{
    chrono::Utc::now().format("%Y-%m-%d %H:%M:%S").to_string()
}

/// The current UTC time as `%Y-%m-%dT%H:%M:%S` (`chrono::Utc::now().format(..)`),
/// each field zero-padded to its width. Which time it is depends on the
/// moment of the call.
#[verifier::external_body]
pub(crate) fn utc_now_iso_second() -> (r: String)
    ensures
        has_shape(r@, iso_second_shape()),
{
    chrono::Utc::now().format("%Y-%m-%dT%H:%M:%S").to_string()
}

/// Seconds since the Unix epoch, now (`chrono::Utc::now().timestamp()`).
/// Nothing is stated of the value: it depends on the moment of the call.
#[verifier::external_body]
pub(crate) fn utc_timestamp() -> (r: i64)
{
    chrono::Utc::now().timestamp()
}

} // verus!

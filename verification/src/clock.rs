//! The wall clock and the calendar.

use vstd::prelude::*;

verus! {

/// The date and time in UTC of a number of seconds since the Unix epoch,
/// as `chrono` writes them to a pattern; `None` where the seconds lie
/// outside the dates that `chrono` holds, or where it cannot write to the
/// pattern.
pub uninterp spec fn utc_date_time(seconds: int, pattern: Seq<char>) -> Option<Seq<char>>;

/// `chrono::Utc::now`, read as whole seconds since the Unix epoch by
/// `DateTime::timestamp`. The value depends on the system clock, so nothing
/// is claimed about it. `chrono` does not return where the system clock
/// stands before the epoch.
#[verifier::external_body]
pub(crate) fn unix_seconds_now() -> i64 {
    chrono::Utc::now().timestamp()
}

/// `chrono::DateTime::format` on the instant that
/// `chrono::DateTime::from_timestamp` makes of whole seconds, written out
/// by `DelayedFormat::write_to`: the text depends on the seconds and the
/// pattern alone. There is none where `from_timestamp` gives no instant,
/// or where `write_to` reports an error, as it does for a pattern that
/// `chrono` does not know.
#[verifier::external_body]
pub(crate) fn format_utc(seconds: i64, pattern: &str) -> (text: Option<String>)
    ensures
        utc_date_time(seconds as int, pattern@) == match text {
            Some(t) => Some(t@),
            None => None,
        },
{
    let instant = chrono::DateTime::from_timestamp(seconds, 0)?;
    let mut text = String::new();
    match instant.format(pattern).write_to(&mut text) {
        Ok(()) => Some(text),
        Err(_) => None,
    }
}

} // verus!

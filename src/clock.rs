use vstd::prelude::*;

verus! {

/// Relies on chrono's `Utc::now` and `DateTime::timestamp_millis`: the
/// current time in milliseconds since the Unix epoch. It depends on when it
/// is called, so nothing is promised about the value. `Utc::now` panics if
/// the system clock reads before 1970 or beyond chrono's range; that depends
/// on the machine, not on any argument, so no precondition can exclude it.
#[verifier::external_body]
pub(crate) fn now_millis() -> (r: i64) {
    chrono::Utc::now().timestamp_millis()
}

/// Whole seconds since the Unix epoch of an instant given in milliseconds;
/// instants before the epoch count as second zero.
pub fn epoch_seconds(millis: i64) -> (r: u64)
    ensures
        millis < 0 ==> r == 0,
        millis >= 0 ==> r == millis / 1000,
{
    if millis < 0 {
        0
    } else {
        (millis / 1000) as u64
    }
}

} // verus!

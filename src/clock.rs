//! Expiry arithmetic over epoch seconds, and the rendering of an instant.

use vstd::prelude::*;

verus! {

/// What chrono renders for an epoch second as `%Y-%m-%d %H:%M:%S UTC`, or
/// `None` when chrono cannot represent that instant.
pub uninterp spec fn utc_stamp_of(secs: int) -> Option<Seq<char>>;

/// Relies on chrono's `DateTime::from_timestamp` (whole seconds, no fraction)
/// and `format`: the result is a function of `secs` alone, `None` where the
/// instant lies outside chrono's range.
#[verifier::external_body]
pub(crate) fn utc_stamp(secs: i64) -> (r: Option<String>)
    ensures
        utc_stamp_of(secs as int) == (match r {
            Some(s) => Some(s@),
            None => None::<Seq<char>>,
        }),
{
    match chrono::DateTime::from_timestamp(secs, 0) {
        Some(t) => Some(t.format("%Y-%m-%d %H:%M:%S UTC").to_string()),
        None => None,
    }
}

/// The instant `minutes` whole minutes after `now`.
pub open spec fn expiry(now: int, minutes: int) -> int {
    now + 60 * minutes
}

/// Whether an epoch-second value fits the stored 64-bit representation.
pub open spec fn fits_i64(x: int) -> bool {
    i64::MIN <= x <= i64::MAX
}

/// Whole minutes left between `now` and a later `expires_at`, rounded down.
pub open spec fn remaining(expires_at: int, now: int) -> int {
    (expires_at - now) / 60
}

/// `now + 60 * minutes`, or `None` when it leaves the 64-bit range.
pub fn expiry_after(now: i64, minutes: i64) -> (r: Option<i64>)
    ensures
        r == (if fits_i64(expiry(now as int, minutes as int)) {
            Some(expiry(now as int, minutes as int) as i64)
        } else {
            None
        }),
{
    let wide: i128 = now as i128 + 60 * (minutes as i128);
    if wide < i64::MIN as i128 || wide > i64::MAX as i128 {
        None
    } else {
        Some(wide as i64)
    }
}

/// Whole minutes from `now` until `expires_at`, for an expiry still ahead.
pub fn remaining_minutes(expires_at: i64, now: i64) -> (r: i64)
    requires
        expires_at > now,
    ensures
        r as int == remaining(expires_at as int, now as int),
        r >= 0,
{
    let diff: i128 = expires_at as i128 - now as i128;
    (diff / 60) as i64
}

} // verus!

//! The time of day.

use vstd::prelude::*;

verus! {

/// A second that the clock does not come to: it counts days in 32 bits.
pub const CLOCK_END: i64 = 0x1_0000_0000_0000;

/// A time that the clock can show, in seconds since the start of 1970.
pub open spec fn on_clock(now: i64) -> bool {
    0 <= now < CLOCK_END
}

/// `chrono::Utc::now().timestamp()`: the whole seconds since the start of 1970.
/// The call panics on a clock that stands before that, and on one whose days do
/// not fit in 32 bits, so what it returns lies between. Nothing else is promised
/// of it.
#[verifier::external_body]
pub(crate) fn now_ts() -> (r: i64)
    ensures
        on_clock(r),
{
    chrono::Utc::now().timestamp()
}

} // verus!

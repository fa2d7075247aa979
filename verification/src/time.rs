//! Times of day and the check-in/check-out validation rule.

use vstd::prelude::*;

use crate::errors::TimeKeeperError;

verus! {

/// A clock instant within a single day: hour and minute, no seconds and no
/// time zone. Valid values satisfy [`TimeOfDay::wf`].
#[derive(Clone, Copy, Debug, PartialEq, Eq, Structural)]
pub struct TimeOfDay {
    pub hour: u8,
    pub minute: u8,
}

impl TimeOfDay {
    /// The type's invariant: a real clock reading.
    pub open spec fn wf(self) -> bool {
        self.hour <= 23 && self.minute <= 59
    }

    /// Minutes since midnight; the basis of the time-of-day ordering.
    pub open spec fn spec_total_minutes(self) -> int {
        self.hour * 60 + self.minute
    }

    pub fn new(hour: u8, minute: u8) -> (t: TimeOfDay)
        requires
            hour <= 23,
            minute <= 59,
        ensures
            t == (TimeOfDay { hour, minute }),
    {
        TimeOfDay { hour, minute }
    }

    /// Minutes since midnight, computed.
    pub fn total_minutes(&self) -> (m: u16)
        requires
            self.wf(),
        ensures
            m == self.spec_total_minutes(),
    {
        self.hour as u16 * 60 + self.minute as u16
    }
}

/// Enforces the entry rule: check-out must be strictly later than check-in
/// under time-of-day ordering. On success returns the elapsed minutes.
pub fn validate(check_in: TimeOfDay, check_out: TimeOfDay) -> (r: Result<
    u16,
    TimeKeeperError,
>)
    requires
        check_in.wf(),
        check_out.wf(),
    ensures
        match r {
            Ok(minutes) => check_out.spec_total_minutes() > check_in.spec_total_minutes()
                && minutes == check_out.spec_total_minutes() - check_in.spec_total_minutes(),
            Err(e) => e == TimeKeeperError::CheckOutBeforeCheckIn
                && check_out.spec_total_minutes() <= check_in.spec_total_minutes(),
        },
{
    let ci = check_in.total_minutes();
    let co = check_out.total_minutes();
    if co > ci {
        Ok(co - ci)
    } else {
        Err(TimeKeeperError::CheckOutBeforeCheckIn)
    }
}

} // verus!

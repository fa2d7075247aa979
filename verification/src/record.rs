//! The ledger entry handed to the storage collaborator.

use vstd::prelude::*;

use crate::date::CalendarDate;
use crate::time::TimeOfDay;

verus! {

/// One check-in/check-out entry of the ledger. The storage layer assigns
/// `id`; a freshly parsed entry carries 0. A record written by a completed
/// `check-in`/`check-out` or `record` operation satisfies [`Record::wf`];
/// while a check-in is still open, `check_out` temporarily equals `check_in`.
#[derive(Clone, Copy, Debug, PartialEq, Eq, Structural)]
pub struct Record {
    pub id: i32,
    pub check_in: TimeOfDay,
    pub check_out: TimeOfDay,
    pub date: CalendarDate,
}

impl Record {
    /// Field validity: both times and the date are real values.
    pub open spec fn fields_wf(self) -> bool {
        self.check_in.wf() && self.check_out.wf() && self.date.wf()
    }

    /// A completed entry: valid fields whose check-out is strictly later
    /// than its check-in, as the validator enforces.
    pub open spec fn wf(self) -> bool {
        self.fields_wf() && self.check_in.spec_total_minutes()
            < self.check_out.spec_total_minutes()
    }

    /// Elapsed minutes of the entry, signed: zero for an entry whose
    /// check-out has not been written yet, negative only for a malformed
    /// stored entry.
    pub fn duration_minutes(&self) -> (m: i32)
        requires
            self.fields_wf(),
        ensures
            m == self.check_out.spec_total_minutes() - self.check_in.spec_total_minutes(),
    {
        self.check_out.total_minutes() as i32 - self.check_in.total_minutes() as i32
    }
}

} // verus!

//! The error taxonomy shared by the parsing engine and the entry validator.

use vstd::prelude::*;

verus! {

/// Every way a parse or a validation can fail.
///
/// `InvalidTimeFormat` carries the offending input verbatim so that callers
/// can compose their own diagnostics; the remaining variants name the rule
/// that was violated. `NoCheckInRecord` is never produced here: it is the
/// storage collaborator's failure, surfaced through the same channel.
#[derive(Debug, PartialEq, Eq)]
pub enum TimeKeeperError {
    InvalidTimeFormat(String),
    InvalidDateFormat,
    InvalidMonth,
    InvalidDay,
    CheckOutBeforeCheckIn,
    NoCheckInRecord,
}

} // verus!

//! Normalization of free-form clock times and compact calendar dates for a
//! personal time-tracking ledger.
//!
//! The heart of the crate is the parsing engine: `parser::parse_time_str`
//! turns strings such as `"730pm"`, `"9:00AM"` or `"1900"` into an exact
//! [`time::TimeOfDay`], and `parser::parse_date_str` turns `"0312"` or
//! `"03/12"` into a [`date::CalendarDate`] in a caller-supplied year.
//! `time::validate` enforces the check-in/check-out ordering rule and
//! computes the elapsed minutes of an entry.

pub mod date;
pub mod errors;
pub mod parser;
pub mod record;
pub mod summary;
pub mod time;

pub use date::CalendarDate;
pub use errors::TimeKeeperError;
pub use record::Record;
pub use time::TimeOfDay;

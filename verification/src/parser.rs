//! The parsing engine: free-form clock-time strings and compact date strings.
//!
//! `parse_time_str` tries the accepted time shapes in a strict priority
//! order — 24-hour colon form, 24-hour compact form, then the am/pm form —
//! and never falls through once a shape matches structurally.
//! `parse_date_str` reads `MMDD` (slashes stripped first) in a caller-given
//! year. Both are specified exactly by the spec functions in this module.

use vstd::prelude::*;

use crate::date::{days_in_month, spec_days_in_month, CalendarDate};
use crate::errors::TimeKeeperError;
use crate::time::TimeOfDay;

verus! {

// ---------------------------------------------------------------------------
// Characters and digit groups
// ---------------------------------------------------------------------------

pub open spec fn is_digit(c: char) -> bool {
    '0' <= c && c <= '9'
}

/// Numeric value of a single decimal digit.
pub open spec fn digit_val(c: char) -> int {
    c as int - '0' as int
}

pub open spec fn all_digits(s: Seq<char>) -> bool {
    forall|i: int| 0 <= i < s.len() ==> is_digit(#[trigger] s[i])
}

/// Value of the two-digit group starting at position `i`.
pub open spec fn two_digits_val(s: Seq<char>, i: int) -> int {
    10 * digit_val(s[i]) + digit_val(s[i + 1])
}

/// Value of a one- or two-digit group that makes up a whole sequence.
pub open spec fn small_num_val(s: Seq<char>) -> int {
    if s.len() == 1 {
        digit_val(s[0])
    } else {
        two_digits_val(s, 0)
    }
}

fn is_digit_char(c: char) -> (b: bool)
    ensures
        b == is_digit(c),
{
    '0' <= c && c <= '9'
}

fn digit_value(c: char) -> (d: u8)
    requires
        is_digit(c),
    ensures
        d == digit_val(c),
{
    match c {
        '0' => 0,
        '1' => 1,
        '2' => 2,
        '3' => 3,
        '4' => 4,
        '5' => 5,
        '6' => 6,
        '7' => 7,
        '8' => 8,
        _ => 9,
    }
}

// ---------------------------------------------------------------------------
// Time strings: the accepted shapes, in priority order
// ---------------------------------------------------------------------------

/// 24-hour colon shape: `H:MM` or `HH:MM`, minute always two digits.
pub open spec fn colon24_shape(s: Seq<char>) -> bool {
    ||| (s.len() == 4 && is_digit(s[0]) && s[1] == ':' && is_digit(s[2]) && is_digit(s[3]))
    ||| (s.len() == 5 && is_digit(s[0]) && is_digit(s[1]) && s[2] == ':' && is_digit(s[3])
        && is_digit(s[4]))
}

pub open spec fn colon24_hour(s: Seq<char>) -> int {
    if s.len() == 4 {
        digit_val(s[0])
    } else {
        two_digits_val(s, 0)
    }
}

pub open spec fn colon24_minute(s: Seq<char>) -> int {
    two_digits_val(s, s.len() - 2)
}

/// 24-hour compact shape: exactly four digits, read as `HHMM`.
pub open spec fn compact24_shape(s: Seq<char>) -> bool {
    s.len() == 4 && all_digits(s)
}

pub open spec fn is_a_char(c: char) -> bool {
    c == 'a' || c == 'A'
}

pub open spec fn is_p_char(c: char) -> bool {
    c == 'p' || c == 'P'
}

pub open spec fn is_m_char(c: char) -> bool {
    c == 'm' || c == 'M'
}

/// The input ends in `am` or `pm`, in either case.
pub open spec fn has_meridian_suffix(s: Seq<char>) -> bool {
    s.len() >= 2 && (is_a_char(s[s.len() - 2]) || is_p_char(s[s.len() - 2])) && is_m_char(
        s[s.len() - 1],
    )
}

pub open spec fn suffix_is_pm(s: Seq<char>) -> bool {
    is_p_char(s[s.len() - 2])
}

pub open spec fn contains_colon(s: Seq<char>) -> bool {
    exists|i: int| 0 <= i < s.len() && s[i] == ':'
}

/// A workable split of a colon-bearing time part: one or two digits for the
/// hour, the colon, then one or two digits for the minute. At most one such
/// split exists.
pub open spec fn colon_split_ok(s: Seq<char>, k: int) -> bool {
    &&& 0 <= k < s.len()
    &&& s[k] == ':'
    &&& 1 <= k <= 2
    &&& 1 <= s.len() - k - 1 <= 2
    &&& all_digits(s.subrange(0, k))
    &&& all_digits(s.subrange(k + 1, s.len() as int))
}

/// Hour and minute read from the time part (the input with its meridian
/// suffix removed), before any range checking. `None` is a shape rejection.
pub open spec fn meridian_fields(tp: Seq<char>) -> Option<(int, int)> {
    if contains_colon(tp) {
        if exists|k: int| colon_split_ok(tp, k) {
            let k = choose|k: int| colon_split_ok(tp, k);
            Some(
                (
                    small_num_val(tp.subrange(0, k)),
                    small_num_val(tp.subrange(k + 1, tp.len() as int)),
                ),
            )
        } else {
            None
        }
    } else if !all_digits(tp) {
        None
    } else if 1 <= tp.len() <= 2 {
        Some((small_num_val(tp), 0))
    } else if tp.len() == 3 {
        Some((digit_val(tp[0]), two_digits_val(tp, 1)))
    } else if tp.len() == 4 {
        Some((two_digits_val(tp, 0), two_digits_val(tp, 2)))
    } else {
        None
    }
}

/// The meridian rule: `12am` is midnight, `12pm` is noon, pm hours 1–11
/// gain twelve.
pub open spec fn meridian_adjust(hour: int, pm: bool) -> int {
    if pm {
        if hour == 12 {
            12
        } else {
            hour + 12
        }
    } else {
        if hour == 12 {
            0
        } else {
            hour
        }
    }
}

/// What `parse_time_str` accepts and returns, exactly. The three shapes are
/// tried in priority order, and a shape that matches structurally but fails
/// numeric validation rejects the input rather than falling through.
pub open spec fn spec_parse_time(s: Seq<char>) -> Option<TimeOfDay> {
    if colon24_shape(s) {
        let h = colon24_hour(s);
        let m = colon24_minute(s);
        if h <= 23 && m <= 59 {
            Some(TimeOfDay { hour: h as u8, minute: m as u8 })
        } else {
            None
        }
    } else if compact24_shape(s) {
        let h = two_digits_val(s, 0);
        let m = two_digits_val(s, 2);
        if h <= 23 && m <= 59 {
            Some(TimeOfDay { hour: h as u8, minute: m as u8 })
        } else {
            None
        }
    } else if has_meridian_suffix(s) {
        match meridian_fields(s.subrange(0, s.len() - 2)) {
            Some(hm) => {
                if 1 <= hm.0 <= 12 && hm.1 <= 59 {
                    Some(
                        TimeOfDay {
                            hour: meridian_adjust(hm.0, suffix_is_pm(s)) as u8,
                            minute: hm.1 as u8,
                        },
                    )
                } else {
                    None
                }
            },
            None => None,
        }
    } else {
        None
    }
}

// ---------------------------------------------------------------------------
// Date strings: MMDD or MM/DD in a caller-supplied year
// ---------------------------------------------------------------------------

/// Slashes are stripped before the date string is read.
pub open spec fn strip_slashes(s: Seq<char>) -> Seq<char> {
    s.filter(|c: char| c != '/')
}

/// What `parse_date_str` returns, exactly: after slash removal the input
/// must be four digits `MMDD`; the month must be 1..=12 and the day must
/// exist in that month of the given year, each failure with its own error.
pub open spec fn spec_parse_date(s: Seq<char>, year: i32) -> Result<
    CalendarDate,
    TimeKeeperError,
> {
    let cleaned = strip_slashes(s);
    if !(cleaned.len() == 4 && all_digits(cleaned)) {
        Err(TimeKeeperError::InvalidDateFormat)
    } else {
        let month = two_digits_val(cleaned, 0);
        let day = two_digits_val(cleaned, 2);
        if !(1 <= month <= 12) {
            Err(TimeKeeperError::InvalidMonth)
        } else if !(1 <= day <= spec_days_in_month(year as int, month)) {
            Err(TimeKeeperError::InvalidDay)
        } else {
            Ok(CalendarDate { year, month: month as u8, day: day as u8 })
        }
    }
}

/// Parses a compact calendar date such as `"0312"` or `"03/12"`; the year
/// has no place in the format and is supplied by the caller.
pub fn parse_date_str(date_str: &str, current_year: i32) -> (r: Result<
    CalendarDate,
    TimeKeeperError,
>)
    ensures
        r == spec_parse_date(date_str@, current_year),
{
    let n = date_str.unicode_len();
    let mut cleaned: Vec<char> = Vec::new();
    let mut i: usize = 0;
    while i < n
        invariant
            i <= n,
            n == date_str@.len(),
            cleaned@ == date_str@.subrange(0, i as int).filter(|c: char| c != '/'),
        decreases n - i,
    {
        let c = date_str.get_char(i);
        proof {
            reveal(Seq::filter);
            assert(date_str@.subrange(0, i + 1).drop_last() =~= date_str@.subrange(0, i as int));
            assert(date_str@.subrange(0, i + 1).last() == date_str@[i as int]);
        }
        if c != '/' {
            cleaned.push(c);
        }
        i += 1;
    }
    proof {
        assert(date_str@.subrange(0, n as int) =~= date_str@);
    }
    let ghost stripped = strip_slashes(date_str@);
    if cleaned.len() != 4 {
        return Err(TimeKeeperError::InvalidDateFormat);
    }
    let c0 = cleaned[0];
    let c1 = cleaned[1];
    let c2 = cleaned[2];
    let c3 = cleaned[3];
    if !(is_digit_char(c0) && is_digit_char(c1) && is_digit_char(c2) && is_digit_char(c3)) {
        assert(!all_digits(stripped));
        return Err(TimeKeeperError::InvalidDateFormat);
    }
    assert(all_digits(stripped)) by {
        assert(forall|j: int| 0 <= j < 4 ==> is_digit(#[trigger] stripped[j]));
    }
    let month: u8 = 10 * digit_value(c0) + digit_value(c1);
    let day: u8 = 10 * digit_value(c2) + digit_value(c3);
    if !(1 <= month && month <= 12) {
        return Err(TimeKeeperError::InvalidMonth);
    }
    if day < 1 || day > days_in_month(current_year, month) {
        return Err(TimeKeeperError::InvalidDay);
    }
    Ok(CalendarDate { year: current_year, month, day })
}

// ---------------------------------------------------------------------------
// The time parser
// ---------------------------------------------------------------------------

/// The failure every rejected time string maps to: the offending input,
/// verbatim, so that the caller can compose diagnostics.
fn invalid_time(val: &str) -> (e: TimeKeeperError)
    ensures
        e matches TimeKeeperError::InvalidTimeFormat(raw) && raw@ == val@,
{
    TimeKeeperError::InvalidTimeFormat(val.to_owned())
}

/// Reads the one- or two-digit group `val[from..to]`, or reports that it is
/// not all digits.
fn read_digit_group(val: &str, from: usize, to: usize) -> (r: Option<u8>)
    requires
        from < to <= val@.len(),
        1 <= to - from <= 2,
    ensures
        match r {
            Some(v) => all_digits(val@.subrange(from as int, to as int)) && v == small_num_val(
                val@.subrange(from as int, to as int),
            ) && v <= 99,
            None => !all_digits(val@.subrange(from as int, to as int)),
        },
{
    let ghost group = val@.subrange(from as int, to as int);
    let c0 = val.get_char(from);
    if !is_digit_char(c0) {
        assert(group[0] == c0);
        return None;
    }
    if to - from == 1 {
        assert(all_digits(group)) by {
            assert(forall|j: int| 0 <= j < 1 ==> is_digit(#[trigger] group[j]));
        }
        Some(digit_value(c0))
    } else {
        let c1 = val.get_char(from + 1);
        if !is_digit_char(c1) {
            assert(group[1] == c1);
            return None;
        }
        assert(all_digits(group)) by {
            assert(forall|j: int| 0 <= j < 2 ==> is_digit(#[trigger] group[j]));
        }
        Some(10 * digit_value(c0) + digit_value(c1))
    }
}

/// A string that ends in a meridian suffix matches neither 24-hour shape:
/// both end in a digit.
proof fn lemma_meridian_not_24(s: Seq<char>)
    requires
        has_meridian_suffix(s),
    ensures
        !colon24_shape(s),
        !compact24_shape(s),
{
    assert(!is_digit(s[s.len() - 1]));
}

/// A workable colon split can only sit at the first colon: everything before
/// the split is digits, so no earlier colon exists.
proof fn lemma_colon_split_at_first(tp: Seq<char>, k: int)
    requires
        0 <= k < tp.len(),
        tp[k] == ':',
        forall|j: int| 0 <= j < k ==> tp[j] != ':',
    ensures
        forall|k2: int| colon_split_ok(tp, k2) ==> k2 == k,
{
    assert forall|k2: int| colon_split_ok(tp, k2) implies k2 == k by {
        if k2 > k {
            assert(tp.subrange(0, k2)[k] == tp[k]);
            assert(is_digit(tp[k]));
        }
    }
}

/// Range-checks and meridian-adjusts an hour/minute pair read from a time
/// part that carried an `am` or `pm` suffix.
fn finish_meridian(hour: u8, minute: u8, pm: bool, val: &str) -> (r: Result<
    TimeOfDay,
    TimeKeeperError,
>)
    requires
        has_meridian_suffix(val@),
        pm == suffix_is_pm(val@),
        meridian_fields(val@.subrange(0, val@.len() - 2)) == Some((hour as int, minute as int)),
    ensures
        match r {
            Ok(t) => spec_parse_time(val@) == Some(t),
            Err(e) => spec_parse_time(val@) is None && (e matches TimeKeeperError::InvalidTimeFormat(
                raw,
            ) && raw@ == val@),
        },
{
    proof {
        lemma_meridian_not_24(val@);
    }
    if 1 <= hour && hour <= 12 && minute <= 59 {
        let adjusted: u8 = if pm {
            if hour == 12 {
                12
            } else {
                hour + 12
            }
        } else {
            if hour == 12 {
                0
            } else {
                hour
            }
        };
        Ok(TimeOfDay { hour: adjusted, minute })
    } else {
        Err(invalid_time(val))
    }
}

/// Parses a free-form clock-time string, trying the accepted shapes in
/// priority order: `H:MM`/`HH:MM` (24-hour), `HHMM` (24-hour compact), then
/// the am/pm forms (`9am`, `7:30pm`, `730pm`, `0730pm`, case-insensitive).
/// Exactly the inputs accepted by [`spec_parse_time`] succeed, with exactly
/// that value; every other input is an `InvalidTimeFormat` carrying the
/// input verbatim.
pub fn parse_time_str(val: &str) -> (r: Result<TimeOfDay, TimeKeeperError>)
    ensures
        match r {
            Ok(t) => spec_parse_time(val@) == Some(t),
            Err(e) => spec_parse_time(val@) is None && (e matches TimeKeeperError::InvalidTimeFormat(
                raw,
            ) && raw@ == val@),
        },
{
    let n = val.unicode_len();

    // 24-hour colon form, single-digit hour: H:MM
    if n == 4 && val.get_char(1) == ':' {
        let c0 = val.get_char(0);
        let c2 = val.get_char(2);
        let c3 = val.get_char(3);
        if is_digit_char(c0) && is_digit_char(c2) && is_digit_char(c3) {
            let hour: u8 = digit_value(c0);
            let minute: u8 = 10 * digit_value(c2) + digit_value(c3);
            assert(colon24_shape(val@));
            if hour <= 23 && minute <= 59 {
                return Ok(TimeOfDay { hour, minute });
            }
            return Err(invalid_time(val));
        }
    }
    // 24-hour colon form, double-digit hour: HH:MM
    if n == 5 && val.get_char(2) == ':' {
        let c0 = val.get_char(0);
        let c1 = val.get_char(1);
        let c3 = val.get_char(3);
        let c4 = val.get_char(4);
        if is_digit_char(c0) && is_digit_char(c1) && is_digit_char(c3) && is_digit_char(c4) {
            let hour: u8 = 10 * digit_value(c0) + digit_value(c1);
            let minute: u8 = 10 * digit_value(c3) + digit_value(c4);
            assert(colon24_shape(val@));
            if hour <= 23 && minute <= 59 {
                return Ok(TimeOfDay { hour, minute });
            }
            return Err(invalid_time(val));
        }
    }
    // 24-hour compact form: exactly four digits, HHMM
    if n == 4 {
        let c0 = val.get_char(0);
        let c1 = val.get_char(1);
        let c2 = val.get_char(2);
        let c3 = val.get_char(3);
        if is_digit_char(c0) && is_digit_char(c1) && is_digit_char(c2) && is_digit_char(c3) {
            assert(compact24_shape(val@)) by {
                assert(forall|j: int| 0 <= j < 4 ==> is_digit(#[trigger] val@[j]));
            }
            assert(!colon24_shape(val@));
            let hour: u8 = 10 * digit_value(c0) + digit_value(c1);
            let minute: u8 = 10 * digit_value(c2) + digit_value(c3);
            if hour <= 23 && minute <= 59 {
                return Ok(TimeOfDay { hour, minute });
            }
            return Err(invalid_time(val));
        }
    }
    // Meridian form: anything ending in am or pm, in either case
    if n >= 2 {
        let last = val.get_char(n - 1);
        let before = val.get_char(n - 2);
        if (last == 'm' || last == 'M') && (before == 'a' || before == 'A' || before == 'p'
            || before == 'P') {
            let pm = before == 'p' || before == 'P';
            let tp_len = n - 2;
            let ghost tp = val@.subrange(0, n - 2);
            proof {
                lemma_meridian_not_24(val@);
            }
            // find the first colon of the time part, if any
            let mut i: usize = 0;
            let mut found = false;
            let mut k: usize = 0;
            while i < tp_len && !found
                invariant
                    n == val@.len(),
                    2 <= n,
                    tp_len == n - 2,
                    tp == val@.subrange(0, n - 2),
                    i <= tp_len,
                    !found ==> forall|j: int| 0 <= j < i ==> val@[j] != ':',
                    found ==> k < tp_len && val@[k as int] == ':' && (forall|j: int|
                        0 <= j < k ==> val@[j] != ':'),
                decreases tp_len - i, (if found { 0int } else { 1int }),
            {
                if val.get_char(i) == ':' {
                    found = true;
                    k = i;
                } else {
                    i += 1;
                }
            }
            if !found {
                assert(!contains_colon(tp));
                if tp_len >= 1 && tp_len <= 2 {
                    match read_digit_group(val, 0, tp_len) {
                        Some(h) => {
                            assert(tp =~= val@.subrange(0, tp_len as int));
                            return finish_meridian(h, 0, pm, val);
                        },
                        None => {
                            assert(tp =~= val@.subrange(0, tp_len as int));
                            return Err(invalid_time(val));
                        },
                    }
                } else if tp_len == 3 {
                    let c0 = val.get_char(0);
                    let c1 = val.get_char(1);
                    let c2 = val.get_char(2);
                    if is_digit_char(c0) && is_digit_char(c1) && is_digit_char(c2) {
                        assert(all_digits(tp)) by {
                            assert(forall|j: int| 0 <= j < 3 ==> is_digit(#[trigger] tp[j]));
                        }
                        let hour: u8 = digit_value(c0);
                        let minute: u8 = 10 * digit_value(c1) + digit_value(c2);
                        return finish_meridian(hour, minute, pm, val);
                    }
                    return Err(invalid_time(val));
                } else if tp_len == 4 {
                    let c0 = val.get_char(0);
                    let c1 = val.get_char(1);
                    let c2 = val.get_char(2);
                    let c3 = val.get_char(3);
                    if is_digit_char(c0) && is_digit_char(c1) && is_digit_char(c2) && is_digit_char(
                        c3,
                    ) {
                        assert(all_digits(tp)) by {
                            assert(forall|j: int| 0 <= j < 4 ==> is_digit(#[trigger] tp[j]));
                        }
                        let hour: u8 = 10 * digit_value(c0) + digit_value(c1);
                        let minute: u8 = 10 * digit_value(c2) + digit_value(c3);
                        return finish_meridian(hour, minute, pm, val);
                    }
                    return Err(invalid_time(val));
                } else {
                    // empty time part, or more than four characters
                    return Err(invalid_time(val));
                }
            } else {
                // the time part splits at its first (and only workable) colon
                proof {
                    lemma_colon_split_at_first(tp, k as int);
                    assert(tp[k as int] == ':');
                    assert(contains_colon(tp));
                }
                let hour_len = k;
                let minute_len = tp_len - k - 1;
                if 1 <= hour_len && hour_len <= 2 && 1 <= minute_len && minute_len <= 2 {
                    let hour_group = read_digit_group(val, 0, k);
                    let minute_group = read_digit_group(val, k + 1, tp_len);
                    proof {
                        assert(tp.subrange(0, k as int) =~= val@.subrange(0, k as int));
                        assert(tp.subrange(k + 1, tp.len() as int) =~= val@.subrange(
                            k + 1,
                            tp_len as int,
                        ));
                    }
                    match (hour_group, minute_group) {
                        (Some(h), Some(m)) => {
                            assert(colon_split_ok(tp, k as int));
                            assert(meridian_fields(tp) == Some((h as int, m as int))) by {
                                let k2 = choose|k2: int| colon_split_ok(tp, k2);
                                assert(colon_split_ok(tp, k as int));
                                assert(k2 == k as int);
                            }
                            return finish_meridian(h, m, pm, val);
                        },
                        _ => {
                            assert(!colon_split_ok(tp, k as int));
                            assert(meridian_fields(tp) is None);
                            return Err(invalid_time(val));
                        },
                    }
                } else {
                    assert(!colon_split_ok(tp, k as int));
                    assert(meridian_fields(tp) is None);
                    return Err(invalid_time(val));
                }
            }
        }
    }
    Err(invalid_time(val))
}

// ---------------------------------------------------------------------------
// Formatting, and the laws the grammar obeys
// ---------------------------------------------------------------------------

/// The decimal digit character for a value 0..=9.
pub open spec fn digit_char(d: int) -> char {
    if d == 0 {
        '0'
    } else if d == 1 {
        '1'
    } else if d == 2 {
        '2'
    } else if d == 3 {
        '3'
    } else if d == 4 {
        '4'
    } else if d == 5 {
        '5'
    } else if d == 6 {
        '6'
    } else if d == 7 {
        '7'
    } else if d == 8 {
        '8'
    } else {
        '9'
    }
}

/// The canonical `HH:MM` rendering of a time of day.
pub open spec fn spec_format_hhmm(t: TimeOfDay) -> Seq<char> {
    seq![
        digit_char(t.hour as int / 10),
        digit_char(t.hour as int % 10),
        ':',
        digit_char(t.minute as int / 10),
        digit_char(t.minute as int % 10),
    ]
}

fn digit_str(d: u8) -> (s: &'static str)
    requires
        d <= 9,
    ensures
        s@ == seq![digit_char(d as int)],
{
    proof {
        reveal_strlit("0");
        reveal_strlit("1");
        reveal_strlit("2");
        reveal_strlit("3");
        reveal_strlit("4");
        reveal_strlit("5");
        reveal_strlit("6");
        reveal_strlit("7");
        reveal_strlit("8");
        reveal_strlit("9");
    }
    let s = match d {
        0 => "0",
        1 => "1",
        2 => "2",
        3 => "3",
        4 => "4",
        5 => "5",
        6 => "6",
        7 => "7",
        8 => "8",
        _ => "9",
    };
    proof {
        assert(s@ =~= seq![digit_char(d as int)]);
    }
    s
}

/// Renders a time of day in the canonical `HH:MM` form, zero-padded.
pub fn format_hhmm(t: &TimeOfDay) -> (s: String)
    requires
        t.wf(),
    ensures
        s@ == spec_format_hhmm(*t),
{
    let mut s = String::new();
    s.append(digit_str(t.hour / 10));
    s.append(digit_str(t.hour % 10));
    s.append(":");
    s.append(digit_str(t.minute / 10));
    s.append(digit_str(t.minute % 10));
    proof {
        reveal_strlit(":");
        assert(s@ =~= spec_format_hhmm(*t));
    }
    s
}

// ---------------------------------------------------------------------------
// The clock capability
// ---------------------------------------------------------------------------

/// Today's date on the local wall clock.
///
/// Relies on `chrono::Local::now().date_naive()` and chrono's `Datelike`
/// accessors: a `chrono::NaiveDate` is always a real proleptic Gregorian
/// calendar date, with the month in 1..=12 and the day within the month.
/// Nothing more is assumed: which date comes back depends on the wall clock.
#[verifier::external_body]
pub fn get_today() -> (d: CalendarDate)
    ensures
        d.wf(),
{
    let now = chrono::Local::now().date_naive();
    CalendarDate {
        year: chrono::Datelike::year(&now),
        month: chrono::Datelike::month(&now) as u8,
        day: chrono::Datelike::day(&now) as u8,
    }
}

/// Parsing is exact on the 24-hour colon shape: every `H:MM` or `HH:MM`
/// string whose hour is at most 23 and whose minute is at most 59 parses to
/// precisely the time its digit groups denote.
pub proof fn lemma_colon24_exact(s: Seq<char>)
    requires
        colon24_shape(s),
        colon24_hour(s) <= 23,
        colon24_minute(s) <= 59,
    ensures
        spec_parse_time(s) == Some(
            TimeOfDay { hour: colon24_hour(s) as u8, minute: colon24_minute(s) as u8 },
        ),
{
}

/// A 24-hour shape that matches structurally but carries an hour or minute
/// out of range rejects the input outright: it never falls through to a
/// later shape.
pub proof fn lemma_shape_match_blocks_fallthrough(s: Seq<char>)
    requires
        (colon24_shape(s) && (colon24_hour(s) > 23 || colon24_minute(s) > 59)) || (compact24_shape(
            s,
        ) && (two_digits_val(s, 0) > 23 || two_digits_val(s, 2) > 59)),
    ensures
        spec_parse_time(s) is None,
{
    if compact24_shape(s) {
        assert(is_digit(s[1]));
        assert(!colon24_shape(s));
    }
}

/// Formatting a time of day as `HH:MM` and re-parsing the result yields the
/// identical value back.
pub proof fn lemma_format_parse_roundtrip(t: TimeOfDay)
    requires
        t.wf(),
    ensures
        spec_parse_time(spec_format_hhmm(t)) == Some(t),
{
    let s = spec_format_hhmm(t);
    vstd::arithmetic::div_mod::lemma_fundamental_div_mod(t.hour as int, 10);
    vstd::arithmetic::div_mod::lemma_fundamental_div_mod(t.minute as int, 10);
    assert(colon24_shape(s));
    assert(colon24_hour(s) == t.hour);
    assert(colon24_minute(s) == t.minute);
    lemma_colon24_exact(s);
}

} // verus!

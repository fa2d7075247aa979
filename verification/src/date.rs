//! Calendar dates under the proleptic Gregorian calendar.

use vstd::arithmetic::div_mod::{lemma_fundamental_div_mod, lemma_mod_multiples_basic};
use vstd::prelude::*;

verus! {

/// A calendar date. Valid values satisfy [`CalendarDate::wf`]: a real date
/// under the proleptic Gregorian calendar (February 30 is rejected).
#[derive(Clone, Copy, Debug, PartialEq, Eq, Structural)]
pub struct CalendarDate {
    pub year: i32,
    pub month: u8,
    pub day: u8,
}

/// The Gregorian leap-year rule: divisible by 4, except centuries, which
/// must be divisible by 400.
pub open spec fn spec_is_leap_year(year: int) -> bool {
    year % 4 == 0 && (year % 100 != 0 || year % 400 == 0)
}

/// How many days the given month has in the given year.
pub open spec fn spec_days_in_month(year: int, month: int) -> int {
    if month == 2 {
        if spec_is_leap_year(year) {
            29
        } else {
            28
        }
    } else if month == 4 || month == 6 || month == 9 || month == 11 {
        30
    } else {
        31
    }
}

impl CalendarDate {
    /// The type's invariant: a real proleptic Gregorian date.
    pub open spec fn wf(self) -> bool {
        &&& 1 <= self.month <= 12
        &&& 1 <= self.day <= spec_days_in_month(self.year as int, self.month as int)
    }

    pub fn new(year: i32, month: u8, day: u8) -> (d: CalendarDate)
        requires
            (CalendarDate { year, month, day }).wf(),
        ensures
            d == (CalendarDate { year, month, day }),
    {
        CalendarDate { year, month, day }
    }
}

/// Divisibility by a positive modulus is unchanged by negation.
proof fn lemma_neg_divisible(a: int, m: int)
    requires
        m > 0,
    ensures
        (a % m == 0) <==> ((-a) % m == 0),
{
    if a % m == 0 {
        lemma_fundamental_div_mod(a, m);
        assert(-a == (-(a / m)) * m) by (nonlinear_arith)
            requires
                a == m * (a / m),
        ;
        lemma_mod_multiples_basic(-(a / m), m);
    }
    if (-a) % m == 0 {
        lemma_fundamental_div_mod(-a, m);
        assert(a == (-((-a) / m)) * m) by (nonlinear_arith)
            requires
                -a == m * ((-a) / m),
        ;
        lemma_mod_multiples_basic(-((-a) / m), m);
    }
}

/// Whether the year is a leap year under the Gregorian rule.
pub fn is_leap_year(year: i32) -> (r: bool)
    ensures
        r == spec_is_leap_year(year as int),
{
    let wide: i64 = year as i64;
    let magnitude: i64 = if wide < 0 {
        -wide
    } else {
        wide
    };
    proof {
        lemma_neg_divisible(wide as int, 4);
        lemma_neg_divisible(wide as int, 100);
        lemma_neg_divisible(wide as int, 400);
    }
    magnitude % 4 == 0 && (magnitude % 100 != 0 || magnitude % 400 == 0)
}

/// How many days the given month has in the given year.
pub fn days_in_month(year: i32, month: u8) -> (r: u8)
    requires
        1 <= month <= 12,
    ensures
        r == spec_days_in_month(year as int, month as int),
{
    if month == 2 {
        if is_leap_year(year) {
            29
        } else {
            28
        }
    } else if month == 4 || month == 6 || month == 9 || month == 11 {
        30
    } else {
        31
    }
}

} // verus!

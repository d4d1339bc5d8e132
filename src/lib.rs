use vstd::arithmetic::div_mod::lemma_mod_multiples_vanish;
use vstd::prelude::*;

pub mod calendar;
pub mod error;
pub mod numeral;
pub mod period_dates;
pub mod range_type;

verus! {

/// The Gregorian rule: a year is a leap year when it is divisible by 4 and
/// not by 100, or when it is divisible by 400.
pub open spec fn is_leap(year: int) -> bool {
    (year % 4 == 0 && year % 100 != 0) || year % 400 == 0
}

/// Determines whether `year` is a leap year of the Gregorian calendar.
pub fn leap_year(year: i32) -> (r: bool)
    ensures
        r == is_leap(year as int),
{
    // Shifting by a multiple of 400 keeps every divisibility the rule asks
    // about, and makes the value non-negative.
    let shifted: u64 = (year as i64 + 2_400_000_000i64) as u64;
    assert(is_leap(shifted as int) == is_leap(year as int)) by {
        let y = year as int;
        lemma_mod_multiples_vanish(600_000_000, y, 4);
        lemma_mod_multiples_vanish(24_000_000, y, 100);
        lemma_mod_multiples_vanish(6_000_000, y, 400);
    }
    (shifted % 4 == 0 && shifted % 100 != 0) || shifted % 400 == 0
}

} // verus!

//! Points in time as people read them: the date and the time of day, in
//! universal time, of seconds since the epoch.

use vstd::prelude::*;
use vstd::string::*;

use crate::numbers;
use crate::text;

verus! {

/// Whether a year has a leap day.
pub open spec fn is_leap(year: nat) -> bool {
    year % 4 == 0 && (year % 100 != 0 || year % 400 == 0)
}

/// The days of a year.
pub open spec fn year_days(year: nat) -> nat {
    if is_leap(year) {
        366
    } else {
        365
    }
}

/// The days of a month.
pub open spec fn month_days(year: nat, month: nat) -> nat {
    if month == 2 {
        if is_leap(year) {
            29
        } else {
            28
        }
    } else if month == 4 || month == 6 || month == 9 || month == 11 {
        30
    } else {
        31
    }
}

/// The days from the epoch to the start of a year.
pub open spec fn days_to_year(year: nat) -> nat
    decreases year,
{
    if year <= 1970 {
        0
    } else {
        days_to_year((year - 1) as nat) + year_days((year - 1) as nat)
    }
}

/// The days from the start of a year to that of a month.
pub open spec fn days_to_month(year: nat, month: nat) -> nat
    decreases month,
{
    if month <= 1 {
        0
    } else {
        days_to_month(year, (month - 1) as nat) + month_days(year, (month - 1) as nat)
    }
}

/// A day of the calendar.
#[derive(Debug, Clone, Copy, PartialEq, Eq, Structural)]
pub struct Date {
    pub year: u64,
    pub month: u64,
    pub day: u64,
}

impl Date {
    /// Whether the calendar has this day.
    pub open spec fn valid(self) -> bool {
        &&& self.year >= 1970
        &&& 1 <= self.month <= 12
        &&& 1 <= self.day <= month_days(self.year as nat, self.month as nat)
    }

    /// How many days after the epoch this day is.
    pub open spec fn number(self) -> int {
        days_to_year(self.year as nat) + days_to_month(self.year as nat, self.month as nat)
            + self.day - 1
    }
}

/// The leap years up to a year.
#[verifier::opaque]
spec fn leaps(year: nat) -> int {
    year / 4 - year / 100 + year / 400
}

proof fn lemma_days_to_year(year: nat)
    requires
        year >= 1970,
    ensures
        days_to_year(year) == 365 * (year - 1970) + leaps((year - 1) as nat) - leaps(1969),
    decreases year,
{
    if year > 1970 {
        let before = (year - 1) as nat;
        lemma_days_to_year(before);
        assert(leaps(before) - leaps((before - 1) as nat) == if is_leap(before) {
            1int
        } else {
            0int
        }) by {
            reveal(leaps);
        }
    }
}

proof fn lemma_leaps_repeat(year: nat)
    ensures
        leaps(year + 400) == leaps(year) + 97,
{
    reveal(leaps);
    assert((year + 400) / 4 == year / 4 + 100);
    assert((year + 400) / 100 == year / 100 + 4);
    assert((year + 400) / 400 == year / 400 + 1);
}

/// The calendar repeats after four centuries.
proof fn lemma_centuries(cycles: nat)
    ensures
        days_to_year(1970 + 400 * cycles) == 146097 * cycles,
    decreases cycles,
{
    if cycles > 0 {
        lemma_centuries((cycles - 1) as nat);
        let before = (1970 + 400 * (cycles - 1)) as nat;
        assert(days_to_year(before + 400) == days_to_year(before) + 146097) by {
            lemma_days_to_year(before);
            lemma_days_to_year(before + 400);
            lemma_leaps_repeat((before - 1) as nat);
        }
        assert(1970 + 400 * cycles == before + 400);
    }
}

proof fn lemma_years_take_days(year: nat)
    requires
        year >= 1970,
    ensures
        days_to_year(year) >= year - 1970,
    decreases year,
{
    if year > 1970 {
        lemma_years_take_days((year - 1) as nat);
    }
}

proof fn lemma_months(year: nat)
    ensures
        days_to_month(year, 13) == year_days(year),
{
    reveal_with_fuel(days_to_month, 13);
}

fn leap(year: u64) -> (r: bool)
    ensures
        r == is_leap(year as nat),
{
    year % 4 == 0 && (year % 100 != 0 || year % 400 == 0)
}

fn days_in_month(year: u64, month: u64) -> (r: u64)
    ensures
        r == month_days(year as nat, month as nat),
{
    if month == 2 {
        if leap(year) {
            29
        } else {
            28
        }
    } else if month == 4 || month == 6 || month == 9 || month == 11 {
        30
    } else {
        31
    }
}

/// The day that comes some days after the epoch.
pub fn date_of(days: u64) -> (r: Date)
    requires
        days <= u64::MAX / 86_400,
    ensures
        r.valid(),
        r.number() == days,
{
    let cycles: u64 = days / 146_097;
    let mut year: u64 = 1970 + 400 * cycles;
    let mut rest: u64 = days % 146_097;
    proof {
        lemma_centuries(cycles as nat);
    }
    loop
        invariant
            1970 <= year <= 1970 + days,
            days <= u64::MAX / 86_400,
            days_to_year(year as nat) + rest == days,
        ensures
            1970 <= year,
            days_to_year(year as nat) + rest == days,
            rest < year_days(year as nat),
        decreases rest,
    {
        let length: u64 = if leap(year) {
            366
        } else {
            365
        };
        if rest < length {
            break;
        }
        proof {
            lemma_years_take_days(year as nat + 1);
        }
        rest = rest - length;
        year = year + 1;
    }
    let mut month: u64 = 1;
    let ghost left = rest;
    loop
        invariant
            1 <= month <= 12,
            days_to_month(year as nat, month as nat) + rest == left,
            left < year_days(year as nat),
        ensures
            1 <= month <= 12,
            days_to_month(year as nat, month as nat) + rest == left,
            rest < month_days(year as nat, month as nat),
        decreases rest,
    {
        let length: u64 = days_in_month(year, month);
        if rest < length {
            break;
        }
        proof {
            if month == 12 {
                lemma_months(year as nat);
            }
        }
        rest = rest - length;
        month = month + 1;
    }
    Date { year, month, day: rest + 1 }
}

/// A number in two digits at least.
pub open spec fn two_digits(n: nat) -> Seq<char> {
    if n < 10 {
        "0"@ + numbers::decimal_spec(n)
    } else {
        numbers::decimal_spec(n)
    }
}

fn padded(n: u64) -> (r: String)
    ensures
        r@ == two_digits(n as nat),
{
    let digits = numbers::decimal(n);
    if n < 10 {
        text::cat2("0", digits.as_str())
    } else {
        digits
    }
}

/// Whether a text gives a moment by date, hour and minute.
pub open spec fn shows_moment(s: Seq<char>, at: nat) -> bool {
    exists|date: Date|
        #![trigger date.valid()]
        date.valid() && date.number() == at / 86_400 && s == numbers::decimal_spec(
            date.year as nat,
        ) + "-"@ + two_digits(date.month as nat) + "-"@ + two_digits(date.day as nat) + " "@
            + two_digits(at % 86_400 / 3_600) + ":"@ + two_digits(at / 60 % 60)
}

/// A moment by date, hour and minute, as listings show it.
pub fn format_epoch(at: u64) -> (r: String)
    ensures
        shows_moment(r@, at as nat),
{
    let date = date_of(at / 86_400);
    let mut out = text::cat5(
        numbers::decimal(date.year).as_str(),
        "-",
        padded(date.month).as_str(),
        "-",
        padded(date.day).as_str(),
    );
    out.append(" ");
    out.append(padded(at % 86_400 / 3_600).as_str());
    out.append(":");
    out.append(padded(at / 60 % 60).as_str());
    assert(date.valid());
    out
}

/// Whether a text names a moment to the second, in digits alone but for a
/// dash behind the date.
pub open spec fn names_moment(s: Seq<char>, at: nat) -> bool {
    exists|date: Date|
        #![trigger date.valid()]
        date.valid() && date.number() == at / 86_400 && s == numbers::decimal_spec(
            date.year as nat,
        ) + two_digits(date.month as nat) + two_digits(date.day as nat) + "-"@ + two_digits(
            at % 86_400 / 3_600,
        ) + two_digits(at / 60 % 60) + two_digits(at % 60)
}

/// A moment to the second, as ids are made of it.
pub fn timestamp_id(at: u64) -> (r: String)
    ensures
        names_moment(r@, at as nat),
{
    let date = date_of(at / 86_400);
    let mut out = text::cat4(
        numbers::decimal(date.year).as_str(),
        padded(date.month).as_str(),
        padded(date.day).as_str(),
        "-",
    );
    out.append(padded(at % 86_400 / 3_600).as_str());
    out.append(padded(at / 60 % 60).as_str());
    out.append(padded(at % 60).as_str());
    assert(date.valid());
    out
}

proof fn lemma_months_grow(year: nat, a: nat, b: nat)
    requires
        1 <= a < b,
    ensures
        days_to_month(year, a) + month_days(year, a) <= days_to_month(year, b),
    decreases b,
{
    if a + 1 < b {
        lemma_months_grow(year, a, (b - 1) as nat);
    }
}

proof fn lemma_years_grow(a: nat, b: nat)
    requires
        1970 <= a < b,
    ensures
        days_to_year(a) + year_days(a) <= days_to_year(b),
    decreases b,
{
    if a + 1 < b {
        lemma_years_grow(a, (b - 1) as nat);
    }
}

/// A number of days is one date: no two days of the calendar share one.
pub proof fn law_dates_have_their_own_numbers(a: Date, b: Date)
    requires
        a.valid(),
        b.valid(),
        a.number() == b.number(),
    ensures
        a == b,
{
    law_earlier_dates_have_smaller_numbers(a, b);
    law_earlier_dates_have_smaller_numbers(b, a);
}

/// Whether a date comes before another.
pub open spec fn earlier(a: Date, b: Date) -> bool {
    ||| a.year < b.year
    ||| a.year == b.year && a.month < b.month
    ||| a.year == b.year && a.month == b.month && a.day < b.day
}

/// Days are counted in the order of the calendar.
pub proof fn law_earlier_dates_have_smaller_numbers(a: Date, b: Date)
    requires
        a.valid(),
        b.valid(),
    ensures
        earlier(a, b) ==> a.number() < b.number(),
{
    let year = a.year as nat;
    if a.year < b.year {
        lemma_years_grow(year, b.year as nat);
        lemma_months(year);
        lemma_months_grow(year, a.month as nat, 13);
    } else if a.year == b.year && a.month < b.month {
        lemma_months_grow(year, a.month as nat, b.month as nat);
    }
}

} // verus!

//! Calendar dates as plain year/month/day values: validity, a total day
//! count for comparing dates, and parsing of the `YYYY-MM-DD` form that
//! due dates are stored in.

use vstd::prelude::*;

use crate::strs::{dec_value, digit_of, digit_val, is_digit_char, is_digit_x};

verus! {

/// A civil date. Years run from 0 through 9999, the range the four-digit
/// due-date form can express.
#[derive(Clone, Copy, PartialEq, Eq, Structural, Debug)]
pub struct Date {
    pub year: u64,
    pub month: u64,
    pub day: u64,
}

pub open spec fn is_leap_year(y: int) -> bool {
    y % 4 == 0 && (y % 100 != 0 || y % 400 == 0)
}

pub open spec fn days_in_month(y: int, m: int) -> int {
    if m == 2 {
        if is_leap_year(y) {
            29
        } else {
            28
        }
    } else if m == 4 || m == 6 || m == 9 || m == 11 {
        30
    } else {
        31
    }
}

pub open spec fn valid_date(d: Date) -> bool {
    &&& d.year <= 9999
    &&& 1 <= d.month <= 12
    &&& 1 <= d.day <= days_in_month(d.year as int, d.month as int)
}

/// Days in the months strictly before `m` in a common year.
pub open spec fn cum_month_days(m: int) -> int {
    if m <= 1 {
        0
    } else if m == 2 {
        31
    } else if m == 3 {
        59
    } else if m == 4 {
        90
    } else if m == 5 {
        120
    } else if m == 6 {
        151
    } else if m == 7 {
        181
    } else if m == 8 {
        212
    } else if m == 9 {
        243
    } else if m == 10 {
        273
    } else if m == 11 {
        304
    } else {
        334
    }
}

/// Leap years strictly before year `y` (year 0 counts as a leap year).
pub open spec fn leaps_before(y: int) -> int {
    if y == 0 {
        0
    } else {
        1 + (y - 1) / 4 - (y - 1) / 100 + (y - 1) / 400
    }
}

/// Days from 0000-01-01 to the given date; consecutive dates differ by
/// one, so differences of day indexes are day distances.
pub open spec fn day_index(d: Date) -> int {
    365 * d.year + leaps_before(d.year as int) + cum_month_days(d.month as int) + (if d.month > 2
        && is_leap_year(d.year as int) {
        1int
    } else {
        0int
    }) + (d.day - 1)
}

impl Date {
    pub fn valid(&self) -> (r: bool)
        ensures
            r == valid_date(*self),
    {
        let dim: u64 = if self.month == 2 {
            if self.year % 4 == 0 && (self.year % 100 != 0 || self.year % 400 == 0) {
                29
            } else {
                28
            }
        } else if self.month == 4 || self.month == 6 || self.month == 9 || self.month == 11 {
            30
        } else {
            31
        };
        self.year <= 9999 && 1 <= self.month && self.month <= 12 && 1 <= self.day && self.day
            <= dim
    }

    /// The total day count of this date.
    pub fn day_number(&self) -> (r: u64)
        requires
            valid_date(*self),
        ensures
            r == day_index(*self),
            r < 4000000,
    {
        let y: u64 = self.year;
        let leaps: u64 = if y == 0 {
            0
        } else {
            1 + (y - 1) / 4 - (y - 1) / 100 + (y - 1) / 400
        };
        let cum: u64 = if self.month <= 1 {
            0
        } else if self.month == 2 {
            31
        } else if self.month == 3 {
            59
        } else if self.month == 4 {
            90
        } else if self.month == 5 {
            120
        } else if self.month == 6 {
            151
        } else if self.month == 7 {
            181
        } else if self.month == 8 {
            212
        } else if self.month == 9 {
            243
        } else if self.month == 10 {
            273
        } else if self.month == 11 {
            304
        } else {
            334
        };
        let leap_extra: u64 = if self.month > 2 && y % 4 == 0 && (y % 100 != 0 || y % 400 == 0) {
            1
        } else {
            0
        };
        365 * y + leaps + cum + leap_extra + (self.day - 1)
    }
}

/// The date a text denotes, exactly when the text has the `YYYY-MM-DD`
/// form and names a real calendar day.
pub open spec fn parse_date(s: Seq<char>) -> Option<Date> {
    if s.len() == 10 && is_digit_char(s[0]) && is_digit_char(s[1]) && is_digit_char(s[2])
        && is_digit_char(s[3]) && s[4] == '-' && is_digit_char(s[5]) && is_digit_char(s[6]) && s[7]
        == '-' && is_digit_char(s[8]) && is_digit_char(s[9]) {
        let d = Date {
            year: dec_value(s.subrange(0, 4)) as u64,
            month: dec_value(s.subrange(5, 7)) as u64,
            day: dec_value(s.subrange(8, 10)) as u64,
        };
        if valid_date(d) {
            Some(d)
        } else {
            None
        }
    } else {
        None
    }
}

proof fn lemma_dec_value_unfold(s: Seq<char>, a: int, b: int)
    requires
        0 <= a,
        a < b,
        b <= s.len(),
    ensures
        dec_value(s.subrange(a, b)) == dec_value(s.subrange(a, b - 1)) * 10 + digit_val(
            s[b - 1],
        ),
{
    assert(s.subrange(a, b).drop_last() =~= s.subrange(a, b - 1));
    assert(s.subrange(a, b).last() == s[b - 1]);
}

proof fn lemma_dec_value_empty(s: Seq<char>, a: int)
    requires
        0 <= a <= s.len(),
    ensures
        dec_value(s.subrange(a, a)) == 0,
{
    assert(s.subrange(a, a) =~= Seq::<char>::empty());
}

/// Parses a `YYYY-MM-DD` date text.
pub fn parse_date_str(s: &str) -> (r: Option<Date>)
    ensures
        r == parse_date(s@),
{
    let n: usize = s.unicode_len();
    if n != 10 {
        return None;
    }
    let c0 = s.get_char(0);
    let c1 = s.get_char(1);
    let c2 = s.get_char(2);
    let c3 = s.get_char(3);
    let c4 = s.get_char(4);
    let c5 = s.get_char(5);
    let c6 = s.get_char(6);
    let c7 = s.get_char(7);
    let c8 = s.get_char(8);
    let c9 = s.get_char(9);
    if !(is_digit_x(c0) && is_digit_x(c1) && is_digit_x(c2) && is_digit_x(c3) && c4 == '-'
        && is_digit_x(c5) && is_digit_x(c6) && c7 == '-' && is_digit_x(c8) && is_digit_x(c9)) {
        return None;
    }
    let year: u64 = ((digit_of(c0) * 10 + digit_of(c1)) * 10 + digit_of(c2)) * 10 + digit_of(c3);
    let month: u64 = digit_of(c5) * 10 + digit_of(c6);
    let day: u64 = digit_of(c8) * 10 + digit_of(c9);
    proof {
        lemma_dec_value_empty(s@, 0);
        lemma_dec_value_unfold(s@, 0, 1);
        lemma_dec_value_unfold(s@, 0, 2);
        lemma_dec_value_unfold(s@, 0, 3);
        lemma_dec_value_unfold(s@, 0, 4);
        lemma_dec_value_empty(s@, 5);
        lemma_dec_value_unfold(s@, 5, 6);
        lemma_dec_value_unfold(s@, 5, 7);
        lemma_dec_value_empty(s@, 8);
        lemma_dec_value_unfold(s@, 8, 9);
        lemma_dec_value_unfold(s@, 8, 10);
    }
    let d = Date { year, month, day };
    if d.valid() {
        Some(d)
    } else {
        None
    }
}

/// Relies on chrono's `Utc::now`, `DateTime::date_naive` and the
/// `Datelike` accessors: the current civil date in UTC, whose month and
/// day lie within their calendar ranges.
#[verifier::external_body]
fn today_fields() -> (r: (i64, u64, u64))
    ensures
        1 <= r.1 <= 12,
        1 <= r.2 <= 31,
{
    let d = chrono::Utc::now().date_naive();
    (
        chrono::Datelike::year(&d) as i64,
        chrono::Datelike::month(&d) as u64,
        chrono::Datelike::day(&d) as u64,
    )
}

/// The current date, if it lies in the representable year range and names
/// a real calendar day.
pub fn today() -> (r: Option<Date>)
    ensures
        match r {
            Some(d) => valid_date(d),
            None => true,
        },
{
    let (y, m, d) = today_fields();
    if 0 <= y && y <= 9999 {
        let date = Date { year: y as u64, month: m, day: d };
        if date.valid() {
            Some(date)
        } else {
            None
        }
    } else {
        None
    }
}

} // verus!

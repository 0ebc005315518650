//! A plain-value model of proleptic Gregorian calendar dates.
//!
//! A `Date` holds year, month and day directly; `day_index` maps a valid date
//! to its 1-based ordinal counting from January 1 of year 1, which is the
//! yardstick every other calendar fact here is measured against.

use vstd::prelude::*;

verus! {

/// Smallest year a `Date` may hold.
pub const MIN_YEAR: i32 = 1;

/// Largest year a `Date` may hold.
pub const MAX_YEAR: i32 = 99999;

/// A calendar date in the proleptic Gregorian calendar.
#[derive(Clone, Copy, Debug, PartialEq, Eq, Structural)]
pub struct Date {
    pub year: i32,
    pub month: u8,
    pub day: u8,
}

pub open spec fn is_leap_year(y: int) -> bool {
    (y % 4 == 0 && y % 100 != 0) || y % 400 == 0
}

pub open spec fn days_in_year(y: int) -> int {
    if is_leap_year(y) {
        366
    } else {
        365
    }
}

pub open spec fn days_in_month(y: int, m: int) -> int {
    if m == 2 {
        if is_leap_year(y) {
            29
        } else {
            28
        }
    } else if m == 4 || m == 6 || m == 9 || m == 11 {
        30
    } else {
        31
    }
}

/// Days in the months `[1, m)` of year `y`.
pub open spec fn days_before_month(y: int, m: int) -> int
    decreases m,
{
    if m <= 1 {
        0
    } else {
        days_before_month(y, m - 1) + days_in_month(y, m - 1)
    }
}

/// Days in the years `[1, y)`.
pub open spec fn days_before_year(y: int) -> int
    decreases y,
{
    if y <= 1 {
        0
    } else {
        days_before_year(y - 1) + days_in_year(y - 1)
    }
}

/// The 1-based ordinal of a date, counting from January 1 of year 1.
pub open spec fn day_index(d: Date) -> int {
    days_before_year(d.year as int) + days_before_month(d.year as int, d.month as int)
        + d.day as int
}

/// Day of the week as a distance from Sunday: Sunday is 0, Saturday is 6.
pub open spec fn weekday_index(d: Date) -> int {
    day_index(d) % 7
}

impl Date {
    pub open spec fn valid(self) -> bool {
        &&& MIN_YEAR <= self.year <= MAX_YEAR
        &&& 1 <= self.month <= 12
        &&& 1 <= self.day <= days_in_month(self.year as int, self.month as int)
    }

    /// Builds a date after checking the fields, as the calendar rules demand.
    pub fn from_ymd_opt(year: i32, month: u8, day: u8) -> (r: Option<Date>)
        ensures
            match r {
                Some(d) => d == (Date { year, month, day }) && d.valid(),
                None => !(Date { year, month, day }).valid(),
            },
    {
        let candidate = Date { year, month, day };
        if MIN_YEAR <= year && year <= MAX_YEAR && 1 <= month && month <= 12 && 1 <= day && day
            <= days_in_month_exec(year, month) {
            Some(candidate)
        } else {
            None
        }
    }
}

/// Months never take the month-day count outside `[0, days_in_year]`.
pub proof fn lemma_days_before_month_le(y: int, m1: int, m2: int)
    requires
        1 <= m1 <= m2 <= 13,
    ensures
        days_before_month(y, m1) <= days_before_month(y, m2),
    decreases m2 - m1,
{
    if m1 < m2 {
        lemma_days_before_month_le(y, m1, m2 - 1);
    }
}

/// The whole twelve months of a year hold exactly `days_in_year(y)` days.
pub proof fn lemma_days_before_month_full(y: int)
    ensures
        days_before_month(y, 13) == days_in_year(y),
{
    reveal_with_fuel(days_before_month, 14);
}

/// Yearly day counts stay between 365 and 366 days per elapsed year.
pub proof fn lemma_days_before_year_bounds(y: int)
    requires
        y >= 1,
    ensures
        365 * (y - 1) <= days_before_year(y) <= 366 * (y - 1),
    decreases y,
{
    if y > 1 {
        lemma_days_before_year_bounds(y - 1);
    }
}

pub proof fn lemma_days_before_year_monotone(y1: int, y2: int)
    requires
        1 <= y1 <= y2,
    ensures
        days_before_year(y1) + 365 * (y2 - y1) <= days_before_year(y2),
    decreases y2 - y1,
{
    if y1 < y2 {
        lemma_days_before_year_monotone(y1, y2 - 1);
    }
}

/// A valid date's ordinal falls strictly inside its own year's day range.
pub proof fn lemma_day_index_in_year(d: Date)
    requires
        d.valid(),
    ensures
        days_before_year(d.year as int) + 1 <= day_index(d),
        day_index(d) <= days_before_year(d.year as int + 1),
        day_index(d) >= 1,
{
    lemma_days_before_month_le(d.year as int, 1, d.month as int);
    lemma_days_before_month_le(d.year as int, d.month as int + 1, 13);
    lemma_days_before_month_full(d.year as int);
    lemma_days_before_year_bounds(d.year as int);
    assert(days_before_month(d.year as int, d.month as int + 1) == days_before_month(
        d.year as int,
        d.month as int,
    ) + days_in_month(d.year as int, d.month as int));
}

/// Year 1 is not a leap year, so year 2 opens after exactly 365 days.
pub proof fn lemma_days_before_year_2()
    ensures
        days_before_year(2) == 365,
{
    reveal_with_fuel(days_before_year, 3);
}

/// A date whose ordinal lies beyond the days of years `[1, y0)` lies in year
/// `y0` or later.
pub proof fn lemma_year_lower_bound(d: Date, y0: int)
    requires
        d.valid(),
        1 <= y0,
        day_index(d) > days_before_year(y0),
    ensures
        d.year >= y0,
{
    lemma_day_index_in_year(d);
    if d.year < y0 {
        lemma_days_before_year_monotone(d.year as int + 1, y0);
    }
}

/// Two valid dates with the same ordinal are the same date.
pub proof fn lemma_day_index_injective(d1: Date, d2: Date)
    requires
        d1.valid(),
        d2.valid(),
        day_index(d1) == day_index(d2),
    ensures
        d1 == d2,
{
    lemma_day_index_in_year(d1);
    lemma_day_index_in_year(d2);
    if d1.year < d2.year {
        lemma_days_before_year_monotone(d1.year as int + 1, d2.year as int);
    }
    if d2.year < d1.year {
        lemma_days_before_year_monotone(d2.year as int + 1, d1.year as int);
    }
    let y = d1.year as int;
    if d1.month < d2.month {
        lemma_days_before_month_le(y, d1.month as int + 1, d2.month as int);
        assert(days_before_month(y, d1.month as int + 1) == days_before_month(
            y,
            d1.month as int,
        ) + days_in_month(y, d1.month as int));
    }
    if d2.month < d1.month {
        lemma_days_before_month_le(y, d2.month as int + 1, d1.month as int);
        assert(days_before_month(y, d2.month as int + 1) == days_before_month(
            y,
            d2.month as int,
        ) + days_in_month(y, d2.month as int));
    }
}

impl Date {
    /// The ordinal of this date: `day_index` made executable.
    pub fn day_number(&self) -> (n: u64)
        requires
            self.valid(),
        ensures
            n == day_index(*self),
            1 <= n <= 36600000,
    {
        let mut acc: u64 = 0;
        let mut y: i32 = 1;
        while y < self.year
            invariant
                1 <= y <= self.year,
                self.valid(),
                acc == days_before_year(y as int),
                acc <= 366 * (y - 1),
            decreases self.year - y,
        {
            acc = acc + if is_leap_year_exec(y) {
                366
            } else {
                365
            };
            y = y + 1;
        }
        let mut m: u8 = 1;
        while m < self.month
            invariant
                1 <= m <= self.month,
                self.valid(),
                acc == days_before_year(self.year as int) + days_before_month(
                    self.year as int,
                    m as int,
                ),
                acc <= 366 * (self.year - 1) + 31 * (m - 1),
            decreases self.month - m,
        {
            acc = acc + days_in_month_exec(self.year, m) as u64;
            m = m + 1;
        }
        proof {
            lemma_day_index_in_year(*self);
            lemma_days_before_year_bounds(self.year as int);
            lemma_days_before_year_bounds(self.year as int + 1);
        }
        acc + self.day as u64
    }
}

/// The calendar day just before `d`.
pub open spec fn spec_prev_day(d: Date) -> Date {
    if d.day > 1 {
        Date { year: d.year, month: d.month, day: (d.day - 1) as u8 }
    } else if d.month > 1 {
        Date {
            year: d.year,
            month: (d.month - 1) as u8,
            day: days_in_month(d.year as int, d.month as int - 1) as u8,
        }
    } else {
        Date { year: (d.year - 1) as i32, month: 12, day: 31 }
    }
}

/// The calendar day just after `d`.
pub open spec fn spec_next_day(d: Date) -> Date {
    if (d.day as int) < days_in_month(d.year as int, d.month as int) {
        Date { year: d.year, month: d.month, day: (d.day + 1) as u8 }
    } else if d.month < 12 {
        Date { year: d.year, month: (d.month + 1) as u8, day: 1 }
    } else {
        Date { year: (d.year + 1) as i32, month: 1, day: 1 }
    }
}

/// Stepping back a day steps the ordinal back by one.
pub proof fn lemma_prev_day(d: Date)
    requires
        d.valid(),
        day_index(d) > 1,
    ensures
        spec_prev_day(d).valid(),
        day_index(spec_prev_day(d)) == day_index(d) - 1,
{
    let y = d.year as int;
    if d.day > 1 {
    } else if d.month > 1 {
        assert(days_before_month(y, d.month as int) == days_before_month(y, d.month as int - 1)
            + days_in_month(y, d.month as int - 1));
    } else {
        lemma_day_index_in_year(d);
        if d.year == 1 {
            assert(day_index(d) == 1);
        }
        lemma_days_before_month_full(y - 1);
        assert(days_before_month(y - 1, 13) == days_before_month(y - 1, 12) + days_in_month(
            y - 1,
            12,
        ));
        assert(days_before_year(y) == days_before_year(y - 1) + days_in_year(y - 1));
    }
}

/// Stepping forward a day steps the ordinal forward by one.
pub proof fn lemma_next_day(d: Date)
    requires
        d.valid(),
        d.year < MAX_YEAR || !(d.month == 12 && d.day == 31),
    ensures
        spec_next_day(d).valid(),
        day_index(spec_next_day(d)) == day_index(d) + 1,
{
    let y = d.year as int;
    if (d.day as int) < days_in_month(y, d.month as int) {
    } else if d.month < 12 {
        assert(days_before_month(y, d.month as int + 1) == days_before_month(y, d.month as int)
            + days_in_month(y, d.month as int));
    } else {
        lemma_days_before_month_full(y);
        assert(days_before_month(y, 13) == days_before_month(y, 12) + days_in_month(y, 12));
        assert(days_before_year(y + 1) == days_before_year(y) + days_in_year(y));
    }
}

impl Date {
    pub fn prev_day(&self) -> (r: Date)
        requires
            self.valid(),
            day_index(*self) > 1,
        ensures
            r == spec_prev_day(*self),
            r.valid(),
            day_index(r) == day_index(*self) - 1,
    {
        proof {
            lemma_prev_day(*self);
        }
        if self.day > 1 {
            Date { year: self.year, month: self.month, day: self.day - 1 }
        } else if self.month > 1 {
            Date {
                year: self.year,
                month: self.month - 1,
                day: days_in_month_exec(self.year, self.month - 1),
            }
        } else {
            Date { year: self.year - 1, month: 12, day: 31 }
        }
    }

    pub fn next_day(&self) -> (r: Date)
        requires
            self.valid(),
            self.year < MAX_YEAR || !(self.month == 12 && self.day == 31),
        ensures
            r == spec_next_day(*self),
            r.valid(),
            day_index(r) == day_index(*self) + 1,
    {
        proof {
            lemma_next_day(*self);
        }
        if self.day < days_in_month_exec(self.year, self.month) {
            Date { year: self.year, month: self.month, day: self.day + 1 }
        } else if self.month < 12 {
            Date { year: self.year, month: self.month + 1, day: 1 }
        } else {
            Date { year: self.year + 1, month: 1, day: 1 }
        }
    }
}

/// `d` stepped back by `k` days, one `spec_prev_day` at a time.
pub open spec fn spec_sub_days(d: Date, k: int) -> Date
    decreases k,
{
    if k <= 0 {
        d
    } else {
        spec_sub_days(spec_prev_day(d), k - 1)
    }
}

/// Going back `k` days lands on a valid date `k` ordinals earlier.
pub proof fn lemma_sub_days(d: Date, k: int)
    requires
        d.valid(),
        0 <= k,
        day_index(d) - k >= 1,
    ensures
        spec_sub_days(d, k).valid(),
        day_index(spec_sub_days(d, k)) == day_index(d) - k,
    decreases k,
{
    if k > 0 {
        lemma_prev_day(d);
        lemma_sub_days(spec_prev_day(d), k - 1);
    }
}

/// Day subtraction composes additively.
pub proof fn lemma_sub_days_add(d: Date, a: int, b: int)
    requires
        0 <= a,
        0 <= b,
    ensures
        spec_sub_days(spec_sub_days(d, a), b) == spec_sub_days(d, a + b),
    decreases a,
{
    if a > 0 {
        lemma_sub_days_add(spec_prev_day(d), a - 1, b);
    }
}

/// Going back days never raises the year.
pub proof fn lemma_sub_days_year_le(d: Date, k: int)
    requires
        d.valid(),
        0 <= k,
        day_index(d) - k >= 1,
    ensures
        spec_sub_days(d, k).year <= d.year,
    decreases k,
{
    if k > 0 {
        lemma_prev_day(d);
        lemma_sub_days_year_le(spec_prev_day(d), k - 1);
    }
}

/// One backward step is exactly `spec_prev_day`.
pub proof fn lemma_sub_one(d: Date)
    ensures
        spec_sub_days(d, 1) == spec_prev_day(d),
{
    reveal_with_fuel(spec_sub_days, 2);
}

impl Date {
    /// Steps back `k` days; the caller keeps the walk above day 1.
    pub fn sub_days(&self, k: u32) -> (r: Date)
        requires
            self.valid(),
            day_index(*self) - k >= 1,
        ensures
            r == spec_sub_days(*self, k as int),
            r.valid(),
            day_index(r) == day_index(*self) - k,
    {
        proof {
            lemma_sub_days(*self, k as int);
        }
        let mut cur: Date = *self;
        let mut i: u32 = 0;
        while i < k
            invariant
                0 <= i <= k,
                self.valid(),
                day_index(*self) - k >= 1,
                cur == spec_sub_days(*self, i as int),
                cur.valid(),
                day_index(cur) == day_index(*self) - i,
            decreases k - i,
        {
            proof {
                lemma_sub_days(*self, i as int + 1);
                lemma_sub_days_add(*self, i as int, 1);
                lemma_sub_one(cur);
            }
            cur = cur.prev_day();
            i = i + 1;
        }
        cur
    }
}

impl Date {
    /// Steps forward `k` days; the caller keeps the walk inside the year range.
    pub fn add_days(&self, k: u32) -> (r: Date)
        requires
            self.valid(),
            day_index(*self) + k <= days_before_year(MAX_YEAR as int + 1),
        ensures
            r.valid(),
            day_index(r) == day_index(*self) + k,
    {
        let mut cur: Date = *self;
        let mut i: u32 = 0;
        while i < k
            invariant
                0 <= i <= k,
                self.valid(),
                day_index(*self) + k <= days_before_year(MAX_YEAR as int + 1),
                cur.valid(),
                day_index(cur) == day_index(*self) + i,
            decreases k - i,
        {
            proof {
                lemma_day_index_in_year(cur);
                lemma_days_before_month_full(cur.year as int);
                lemma_days_before_year_monotone(cur.year as int + 1, MAX_YEAR as int + 1);
                if cur.year == MAX_YEAR && cur.month == 12 && cur.day == 31 {
                    assert(day_index(cur) == days_before_year(MAX_YEAR as int + 1));
                }
            }
            cur = cur.next_day();
            i = i + 1;
        }
        cur
    }
}

pub open spec fn is_digit(c: char) -> bool {
    48 <= c as u32 <= 57
}

pub open spec fn digit_val(c: char) -> int {
    c as u32 - 48
}

/// Whether a character sequence is shaped like `YYYY-MM-DD`.
pub open spec fn is_ymd_shape(s: Seq<char>) -> bool {
    &&& s.len() == 10
    &&& is_digit(s[0])
    &&& is_digit(s[1])
    &&& is_digit(s[2])
    &&& is_digit(s[3])
    &&& s[4] as u32 == 45
    &&& is_digit(s[5])
    &&& is_digit(s[6])
    &&& s[7] as u32 == 45
    &&& is_digit(s[8])
    &&& is_digit(s[9])
}

pub open spec fn ymd_year(s: Seq<char>) -> int {
    digit_val(s[0]) * 1000 + digit_val(s[1]) * 100 + digit_val(s[2]) * 10 + digit_val(s[3])
}

pub open spec fn ymd_month(s: Seq<char>) -> int {
    digit_val(s[5]) * 10 + digit_val(s[6])
}

pub open spec fn ymd_day(s: Seq<char>) -> int {
    digit_val(s[8]) * 10 + digit_val(s[9])
}

/// The date a `YYYY-MM-DD` string denotes, if it is well-shaped and names a
/// real calendar day.
pub open spec fn spec_parse_ymd(s: Seq<char>) -> Option<Date> {
    if is_ymd_shape(s) {
        let d = Date {
            year: ymd_year(s) as i32,
            month: ymd_month(s) as u8,
            day: ymd_day(s) as u8,
        };
        if d.valid() {
            Some(d)
        } else {
            None
        }
    } else {
        None
    }
}

fn digit_of(c: char) -> (r: Option<u32>)
    ensures
        match r {
            Some(v) => is_digit(c) && v == digit_val(c),
            None => !is_digit(c),
        },
{
    let u = c as u32;
    if 48 <= u && u <= 57 {
        Some(u - 48)
    } else {
        None
    }
}

/// Parses a strict `YYYY-MM-DD` date string.
pub fn parse_ymd(s: &str) -> (r: Option<Date>)
    ensures
        r == spec_parse_ymd(s@),
{
    if s.unicode_len() != 10 {
        return None;
    }
    let c4 = s.get_char(4);
    let c7 = s.get_char(7);
    if c4 as u32 != 45 || c7 as u32 != 45 {
        return None;
    }
    let d0 = digit_of(s.get_char(0));
    let d1 = digit_of(s.get_char(1));
    let d2 = digit_of(s.get_char(2));
    let d3 = digit_of(s.get_char(3));
    let d5 = digit_of(s.get_char(5));
    let d6 = digit_of(s.get_char(6));
    let d8 = digit_of(s.get_char(8));
    let d9 = digit_of(s.get_char(9));
    match (d0, d1, d2, d3, d5, d6, d8, d9) {
        (
            Some(y0),
            Some(y1),
            Some(y2),
            Some(y3),
            Some(m0),
            Some(m1),
            Some(a0),
            Some(a1),
        ) => {
            let year = (y0 * 1000 + y1 * 100 + y2 * 10 + y3) as i32;
            let month = (m0 * 10 + m1) as u8;
            let day = (a0 * 10 + a1) as u8;
            Date::from_ymd_opt(year, month, day)
        },
        _ => None,
    }
}

/// Parses the given string as a date, falling back to `today` when the input
/// is absent or does not name a day, mirroring a query path that treats bad
/// date arguments as "now".
pub fn get_date_from_string(date: Option<String>, today: Date) -> (r: Date)
    requires
        today.valid(),
    ensures
        r.valid(),
        r == match date {
            Some(s) => match spec_parse_ymd(s@) {
                Some(d) => d,
                None => today,
            },
            None => today,
        },
{
    match date {
        Some(s) => match parse_ymd(s.as_str()) {
            Some(d) => d,
            None => today,
        },
        None => today,
    }
}

pub fn is_leap_year_exec(y: i32) -> (r: bool)
    requires
        y >= 1,
    ensures
        r == is_leap_year(y as int),
{
    (y % 4 == 0 && y % 100 != 0) || y % 400 == 0
}

pub fn days_in_month_exec(y: i32, m: u8) -> (r: u8)
    requires
        y >= 1,
    ensures
        r == days_in_month(y as int, m as int),
{
    if m == 2 {
        if is_leap_year_exec(y) {
            29
        } else {
            28
        }
    } else if m == 4 || m == 6 || m == 9 || m == 11 {
        30
    } else {
        31
    }
}

} // verus!

//! The custom release-week calendar: weeks run Saturday through Friday, and a
//! week is numbered by counting 7-day periods from the Saturday on or before
//! January 1 of its anchor year.

use vstd::prelude::*;

use crate::date::{
    day_index, days_before_year, lemma_day_index_in_year, lemma_days_before_month_le,
    lemma_days_before_year_bounds, lemma_days_before_year_monotone, lemma_day_index_injective,
    lemma_sub_days, lemma_sub_days_add, lemma_sub_days_year_le, spec_sub_days, weekday_index,
    Date, MAX_YEAR,
};

verus! {

use vstd::arithmetic::div_mod::{
    lemma_fundamental_div_mod,
    lemma_mod_multiples_vanish,
    lemma_mod_bound,
};

/// A week of the year: its 1-based number, its anchor year — the year of
/// its Saturday — and its seven consecutive dates, Saturday first.
#[derive(Clone, Debug)]
pub struct WeekOfTheYear {
    pub week: u32,
    pub year: i32,
    pub dates: Vec<Date>,
}

/// The ordinal of the Saturday on or before the day with ordinal `i`.
pub open spec fn week_start_index(i: int) -> int {
    i - ((i % 7 + 1) % 7)
}

/// The Saturday on or before `d`, as a date.
pub open spec fn spec_week_start(d: Date) -> Date {
    spec_sub_days(d, (day_index(d) % 7 + 1) % 7)
}

/// The 1-based number of `d`'s week within its anchor year: the year of the
/// week's Saturday. Week counting starts at the Saturday on or before
/// January 1; when January 1 itself is a Saturday the count shifts by one so
/// that no week is numbered zero.
pub open spec fn spec_week_number(d: Date) -> int {
    let ws = spec_week_start(d);
    let jan1 = Date { year: ws.year, month: 1, day: 1 };
    (day_index(ws) - week_start_index(day_index(jan1))) / 7 + if weekday_index(jan1) == 6 {
        1int
    } else {
        0int
    }
}

/// The anchor year of `d`'s week: the year its week-start Saturday falls
/// in, which is also the year whose January 1 anchors the week numbering.
pub open spec fn spec_anchor_year(d: Date) -> int {
    spec_week_start(d).year as int
}

/// Dates whose whole week computation stays inside the representable years.
pub open spec fn week_domain(d: Date) -> bool {
    &&& d.valid()
    &&& d.year <= MAX_YEAR - 1
    &&& days_before_year(2) + 7 <= day_index(d)
}

/// The week-start ordinal is the nearest Saturday at or below `i`.
pub proof fn lemma_week_start_props(i: int)
    requires
        i >= 7,
    ensures
        week_start_index(i) % 7 == 6,
        i - 6 <= week_start_index(i) <= i,
        i < week_start_index(i) + 7,
{
    lemma_mod_bound(i, 7);
    lemma_fundamental_div_mod(i, 7);
    let r = i % 7;
    let q = i / 7;
    if r == 6 {
    } else {
        assert(week_start_index(i) == 7 * (q - 1) + 6);
        lemma_mod_multiples_vanish(q - 1, 6, 7);
    }
}

impl Date {
    /// Day of the week as a distance from Sunday, 0 through 6; Saturday is 6.
    pub fn weekday_from_sunday(&self) -> (w: u32)
        requires
            self.valid(),
        ensures
            w == weekday_index(*self),
            w <= 6,
    {
        (self.day_number() % 7) as u32
    }
}

/// The Saturday on or before the given date; the given date itself when it
/// already is a Saturday.
pub fn get_saturday_before_or_on(date: Date) -> (r: Date)
    requires
        date.valid(),
        day_index(date) >= 7,
    ensures
        r == spec_week_start(date),
        r.valid(),
        day_index(r) == week_start_index(day_index(date)),
        weekday_index(r) == 6,
        day_index(date) - 6 <= day_index(r) <= day_index(date),
{
    proof {
        lemma_week_start_props(day_index(date));
    }
    let n = date.day_number();
    let days_back = ((n % 7) + 1) % 7;
    date.sub_days(days_back as u32)
}

/// Calculates the release week number of the given date within its anchor
/// year. Weeks are numbered from 1; week counting starts at the Saturday on
/// or before January 1 of the anchor year, which is the year of the given
/// date's own week-start Saturday.
pub fn get_release_week_number(date: Date) -> (r: u32)
    requires
        date.valid(),
        days_before_year(2) + 7 <= day_index(date),
    ensures
        r == spec_week_number(date),
        r <= 54,
{
    proof {
        lemma_days_before_year_bounds(2);
    }
    let current_week_start = get_saturday_before_or_on(date);
    proof {
        crate::date::lemma_year_lower_bound(current_week_start, 2);
        lemma_sub_days_year_le(date, ((day_index(date) % 7 + 1) % 7));
    }
    let anchor_year = if current_week_start.year < date.year {
        current_week_start.year
    } else {
        date.year
    };
    assert(anchor_year == current_week_start.year);
    let jan1 = Date { year: anchor_year, month: 1, day: 1 };
    proof {
        assert(jan1.valid());
        lemma_day_index_in_year(jan1);
        lemma_days_before_year_bounds(jan1.year as int);
        lemma_day_index_in_year(current_week_start);
        lemma_days_before_month_le(
            current_week_start.year as int,
            1,
            current_week_start.month as int,
        );
        lemma_week_start_props(day_index(jan1));
    }
    let first_week_start = get_saturday_before_or_on(jan1);
    let ws_n = current_week_start.day_number();
    let fws_n = first_week_start.day_number();
    proof {
        assert(day_index(jan1) <= day_index(current_week_start));
        assert(fws_n <= ws_n);
        lemma_day_index_in_year(current_week_start);
        assert(day_index(current_week_start) <= days_before_year(
            current_week_start.year as int + 1,
        ));
        lemma_days_before_year_bounds(current_week_start.year as int);
        lemma_days_before_year_bounds(current_week_start.year as int + 1);
        assert(ws_n - fws_n <= 371);
    }
    let diff_weeks = ((ws_n - fws_n) / 7) as u32;
    let jan1_is_sat = jan1.weekday_from_sunday() == 6;
    diff_weeks + if jan1_is_sat {
        1
    } else {
        0
    }
}

/// What it means for a `WeekOfTheYear` to describe the week of date `t`: the
/// right number, and the seven consecutive dates from `t`'s week-start
/// Saturday onward.
pub open spec fn week_matches(w: WeekOfTheYear, t: Date) -> bool {
    &&& w.week == spec_week_number(t)
    &&& w.year == spec_anchor_year(t)
    &&& w.dates@.len() == 7
    &&& forall|j: int|
        0 <= j < 7 ==> (#[trigger] w.dates@[j]).valid() && day_index(w.dates@[j])
            == week_start_index(day_index(t)) + j
    &&& w.dates@[0] == spec_week_start(t)
}

/// Builds the full week containing the given date: the week number together
/// with the seven dates from its Saturday through its Friday, in order, one
/// calendar day apart.
pub fn build_week(date: Date) -> (r: WeekOfTheYear)
    requires
        week_domain(date),
    ensures
        week_matches(r, date),
        weekday_index(r.dates@[0]) == 6,
        weekday_index(r.dates@[6]) == 5,
{
    proof {
        lemma_days_before_year_bounds(2);
        lemma_week_start_props(day_index(date));
    }
    let saturday = get_saturday_before_or_on(date);
    let ghost ws_n = day_index(saturday);
    proof {
        lemma_day_index_in_year(date);
        lemma_days_before_year_monotone(date.year as int + 1, MAX_YEAR as int + 1);
    }
    let mut dates: Vec<Date> = Vec::new();
    let mut cur: Date = saturday;
    let mut i: u8 = 0;
    while i < 7
        invariant
            0 <= i <= 7,
            week_domain(date),
            ws_n == week_start_index(day_index(date)),
            day_index(date) - 6 <= ws_n <= day_index(date),
            day_index(date) + 7 <= days_before_year(MAX_YEAR as int + 1),
            dates@.len() == i as int,
            forall|j: int|
                0 <= j < i as int ==> (#[trigger] dates@[j]).valid() && day_index(dates@[j])
                    == ws_n + j,
            i > 0 ==> dates@[0] == saturday,
            i == 0 ==> cur == saturday,
            cur.valid(),
            day_index(cur) == ws_n + i,
        decreases 7 - i,
    {
        dates.push(cur);
        cur = cur.add_days(1);
        i = i + 1;
    }
    let week_number = get_release_week_number(date);
    proof {
        let sat_i = day_index(dates@[6]);
        lemma_fundamental_div_mod(ws_n, 7);
        assert(sat_i == 7 * (ws_n / 7 + 1) + 5);
        lemma_mod_multiples_vanish(ws_n / 7 + 1, 5, 7);
    }
    WeekOfTheYear { week: week_number, year: saturday.year, dates }
}

/// Which week the range starts at: the current week when the date is a
/// Friday (the week's last day), the previous week otherwise.
pub open spec fn spec_range_skip(d: Date) -> int {
    if weekday_index(d) == 5 {
        0int
    } else {
        1int
    }
}

/// Builds the weeks leading up to the given date, most recent first. The
/// in-progress week is included only when the date is a Friday; entry `i`
/// describes the week `spec_range_skip(date) + i` weeks before the date's
/// own, and the result always holds `weeks_before + 1` weeks.
pub fn get_custom_week_range(date: Date, weeks_before: u32) -> (r: Vec<WeekOfTheYear>)
    requires
        date.valid(),
        date.year <= MAX_YEAR - 1,
        days_before_year(2) + 7 * (weeks_before as int + 2) <= day_index(date),
    ensures
        r@.len() == weeks_before as int + 1,
        forall|i: int|
            0 <= i <= weeks_before as int ==> week_matches(
                #[trigger] r@[i],
                spec_sub_days(date, 7 * (spec_range_skip(date) + i)),
            ),
{
    proof {
        lemma_days_before_year_bounds(2);
        lemma_day_index_in_year(date);
        lemma_days_before_year_bounds(date.year as int + 1);
    }
    let skip: u32 = if date.weekday_from_sunday() == 5 {
        0
    } else {
        1
    };
    proof {
        lemma_sub_days(date, 7 * (skip as int));
        lemma_sub_days_year_le(date, 7 * (skip as int));
    }
    let mut cur: Date = date.sub_days(7 * skip);
    let mut out: Vec<WeekOfTheYear> = Vec::new();
    let mut i: u32 = 0;
    while i <= weeks_before
        invariant
            0 <= i <= weeks_before as int + 1,
            date.valid(),
            date.year <= MAX_YEAR - 1,
            days_before_year(2) + 7 * (weeks_before as int + 2) <= day_index(date),
            365 <= days_before_year(2) <= 366,
            day_index(date) <= 36600000,
            skip as int == spec_range_skip(date),
            skip <= 1,
            out@.len() == i as int,
            forall|k: int|
                0 <= k < i as int ==> week_matches(
                    #[trigger] out@[k],
                    spec_sub_days(date, 7 * (spec_range_skip(date) + k)),
                ),
            i as int <= weeks_before as int ==> {
                &&& cur == spec_sub_days(date, 7 * (skip as int + i as int))
                &&& cur.valid()
                &&& day_index(cur) == day_index(date) - 7 * (skip as int + i as int)
            },
        decreases weeks_before as int + 1 - i as int,
    {
        proof {
            lemma_sub_days_year_le(date, 7 * (skip as int + i as int));
        }
        out.push(build_week(cur));
        if i < weeks_before {
            proof {
                lemma_sub_days(date, 7 * (skip as int + i as int + 1));
                lemma_sub_days_add(date, 7 * (skip as int + i as int), 7);
            }
            cur = cur.sub_days(7);
        }
        i = i + 1;
    }
    out
}

/// A week's number is determined by its Saturday alone: two dates with the
/// same week start share their week number.
pub proof fn lemma_week_stability(d1: Date, d2: Date)
    requires
        d1.valid(),
        d2.valid(),
        days_before_year(2) + 7 <= day_index(d1),
        days_before_year(2) + 7 <= day_index(d2),
        week_start_index(day_index(d1)) == week_start_index(day_index(d2)),
    ensures
        spec_week_number(d1) == spec_week_number(d2),
{
    lemma_days_before_year_bounds(2);
    lemma_week_start_props(day_index(d1));
    lemma_week_start_props(day_index(d2));
    lemma_sub_days(d1, (day_index(d1) % 7 + 1) % 7);
    lemma_sub_days(d2, (day_index(d2) % 7 + 1) % 7);
    lemma_day_index_injective(spec_week_start(d1), spec_week_start(d2));
}

} // verus!

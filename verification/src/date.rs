//! Calendar dates in the years 1 through 9999 of the proleptic Gregorian
//! calendar, with day-level arithmetic, weekday computation, and the
//! canonical `YYYY-MM-DD` key used to file diary entries.
use vstd::prelude::*;
use vstd::string::StringExecFns;

verus! {

pub const MIN_YEAR: i32 = 1;

pub const MAX_YEAR: i32 = 9999;

#[derive(Debug, Clone, Copy, PartialEq, Eq, Structural)]
pub struct Date {
    pub year: i32,
    pub month: u32,
    pub day: u32,
}

pub open spec fn is_leap_year(y: int) -> bool {
    (y % 4 == 0 && y % 100 != 0) || y % 400 == 0
}

pub open spec fn days_in_month_of(y: int, m: int) -> int {
    if m == 2 {
        if is_leap_year(y) {
            29
        } else {
            28
        }
    } else if m == 4 || m == 6 || m == 9 || m == 11 {
        30
    } else {
        31
    }
}

pub open spec fn days_in_year_of(y: int) -> int {
    if is_leap_year(y) {
        366
    } else {
        365
    }
}

pub open spec fn valid_date(d: Date) -> bool {
    &&& MIN_YEAR <= d.year <= MAX_YEAR
    &&& 1 <= d.month <= 12
    &&& 1 <= d.day <= days_in_month_of(d.year as int, d.month as int)
}

/// Days in all years before `y`, counted from year 1.
pub open spec fn days_before_year(y: int) -> int
    decreases y,
{
    if y <= 1 {
        0
    } else {
        days_before_year(y - 1) + days_in_year_of(y - 1)
    }
}

/// Days in the months of year `y` before month `m`.
pub open spec fn days_before_month(y: int, m: int) -> int
    decreases m,
{
    if m <= 1 {
        0
    } else {
        days_before_month(y, m - 1) + days_in_month_of(y, m - 1)
    }
}

/// The date's distance in days from January 1 of year 1 (which has
/// index 0).  Consecutive calendar days have consecutive indices.
pub open spec fn date_index(d: Date) -> int {
    days_before_year(d.year as int) + days_before_month(d.year as int, d.month as int) + d.day - 1
}

/// The largest representable day index.
pub open spec fn max_date_index() -> int {
    date_index(Date { year: MAX_YEAR, month: 12, day: 31 })
}

/// Weekday of a date, counted from Sunday = 0.  January 1 of year 1 is a
/// Monday in the proleptic Gregorian calendar.
pub open spec fn weekday_of(d: Date) -> int {
    (date_index(d) + 1) % 7
}

/// A year's months add up to the year's length.
pub proof fn lemma_year_months(y: int)
    ensures
        days_before_month(y, 12) + days_in_month_of(y, 12) == days_in_year_of(y),
{
    assert(days_before_month(y, 12) + days_in_month_of(y, 12) == days_in_year_of(y)) by {
        reveal_with_fuel(days_before_month, 13);
    }
}

/// Growth bound on the year prefix sums.
pub proof fn lemma_days_before_year_bound(y: int)
    requires
        1 <= y,
    ensures
        366 * (y - 1) >= days_before_year(y) >= 365 * (y - 1),
    decreases y,
{
    if y > 1 {
        lemma_days_before_year_bound(y - 1);
    }
}

/// Growth bounds on the month prefix sums.
pub proof fn lemma_days_before_month_bounds(y: int, m: int)
    requires
        1 <= m <= 12,
    ensures
        28 * (m - 1) <= days_before_month(y, m) <= 31 * (m - 1),
    decreases m,
{
    if m > 1 {
        lemma_days_before_month_bounds(y, m - 1);
    }
}

/// The month prefix sums grow with the month.
pub proof fn lemma_days_before_month_mono(y: int, m1: int, m2: int)
    requires
        1 <= m1 <= m2 <= 12,
    ensures
        days_before_month(y, m1) + 28 * (m2 - m1) <= days_before_month(y, m2),
    decreases m2 - m1,
{
    if m1 < m2 {
        lemma_days_before_month_mono(y, m1, m2 - 1);
    }
}

/// The year prefix sums grow by at least a common year per year.
pub proof fn lemma_days_before_year_mono(y1: int, y2: int)
    requires
        1 <= y1 <= y2,
    ensures
        days_before_year(y1) + 365 * (y2 - y1) <= days_before_year(y2),
    decreases y2 - y1,
{
    if y1 < y2 {
        lemma_days_before_year_mono(y1, y2 - 1);
    }
}

/// Every valid date's index lies between 0 and the maximum index.
pub proof fn lemma_date_index_bounds(d: Date)
    requires
        valid_date(d),
    ensures
        0 <= date_index(d) <= max_date_index(),
{
    let y = d.year as int;
    let m = d.month as int;
    lemma_days_before_year_bound(y);
    lemma_days_before_month_bounds(y, m);
    lemma_days_before_month_mono(y, m, 12);
    lemma_days_before_month_bounds(y, 12);
    lemma_days_before_month_bounds(MAX_YEAR as int, 12);
    lemma_days_before_year_mono(y, MAX_YEAR as int);
}

pub fn is_leap(year: i32) -> (r: bool)
    requires
        year >= 1,
    ensures
        r == is_leap_year(year as int),
{
    (year % 4 == 0 && year % 100 != 0) || year % 400 == 0
}

pub fn days_in_month(year: i32, month: u32) -> (r: u32)
    requires
        year >= 1,
        1 <= month <= 12,
    ensures
        r as int == days_in_month_of(year as int, month as int),
        28 <= r <= 31,
{
    if month == 2 {
        if is_leap(year) {
            29
        } else {
            28
        }
    } else if month == 4 || month == 6 || month == 9 || month == 11 {
        30
    } else {
        31
    }
}

fn days_in_year(year: i32) -> (r: u32)
    requires
        year >= 1,
    ensures
        r as int == days_in_year_of(year as int),
{
    if is_leap(year) {
        366
    } else {
        365
    }
}

impl Date {
    /// Builds the date if `(year, month, day)` names a real calendar day
    /// in the representable range, and nothing otherwise.
    pub fn from_ymd(year: i32, month: u32, day: u32) -> (r: Option<Date>)
        ensures
            r is Some <==> valid_date(Date { year, month, day }),
            r is Some ==> r == Some(Date { year, month, day }),
    {
        if MIN_YEAR <= year && year <= MAX_YEAR && 1 <= month && month <= 12 && 1 <= day
            && day <= days_in_month(year, month) {
            Some(Date { year, month, day })
        } else {
            None
        }
    }

    pub open spec fn spec_first_of_month(&self) -> Date {
        Date { year: self.year, month: self.month, day: 1 }
    }

    /// The first day of this date's month.
    #[verifier::when_used_as_spec(spec_first_of_month)]
    pub fn first_of_month(&self) -> (r: Date)
        requires
            valid_date(*self),
        ensures
            valid_date(r),
            r.year == self.year && r.month == self.month && r.day == 1,
    {
        Date { year: self.year, month: self.month, day: 1 }
    }

    /// This date's day index: its distance in days from January 1 of
    /// year 1.
    pub fn day_index(&self) -> (r: u32)
        requires
            valid_date(*self),
        ensures
            r as int == date_index(*self),
    {
        let mut sum: u32 = 0;
        let mut y: i32 = 1;
        while y < self.year
            invariant
                1 <= y <= self.year <= MAX_YEAR,
                sum as int == days_before_year(y as int),
                sum <= 366 * (y - 1),
            decreases self.year - y,
        {
            sum = sum + days_in_year(y);
            y = y + 1;
        }
        let mut m: u32 = 1;
        while m < self.month
            invariant
                valid_date(*self),
                1 <= m <= self.month,
                sum as int == days_before_year(self.year as int) + days_before_month(
                    self.year as int,
                    m as int,
                ),
                sum <= 366 * (self.year - 1) + 31 * (m - 1),
            decreases self.month - m,
        {
            sum = sum + days_in_month(self.year, m);
            m = m + 1;
        }
        sum + (self.day - 1)
    }

    /// The date `delta` days away, or nothing when the result would fall
    /// outside the representable range.
    pub fn add_days(&self, delta: i64) -> (r: Option<Date>)
        requires
            valid_date(*self),
        ensures
            (r is Some <==> 0 <= date_index(*self) + delta <= max_date_index()),
            r is Some ==> valid_date(r->Some_0) && date_index(r->Some_0) == date_index(*self)
                + delta,
    {
        proof {
            lemma_date_index_bounds(*self);
        }
        let idx = self.day_index();
        let max = max_day_index();
        if delta >= 0 {
            if delta <= (max - idx) as i64 {
                Some(date_of_index(idx + delta as u32))
            } else {
                None
            }
        } else {
            if delta >= -(idx as i64) {
                Some(date_of_index((idx as i64 + delta) as u32))
            } else {
                None
            }
        }
    }

    /// The date's weekday, counted from Sunday = 0.
    pub fn weekday_from_sunday(&self) -> (r: u32)
        requires
            valid_date(*self),
        ensures
            r as int == weekday_of(*self),
            r < 7,
    {
        proof {
            lemma_date_index_bounds(*self);
            lemma_days_before_year_bound(MAX_YEAR as int);
            lemma_days_before_month_bounds(MAX_YEAR as int, 12);
        }
        (self.day_index() + 1) % 7
    }
}

pub open spec fn digit_char(v: int) -> char {
    if v == 0 {
        '0'
    } else if v == 1 {
        '1'
    } else if v == 2 {
        '2'
    } else if v == 3 {
        '3'
    } else if v == 4 {
        '4'
    } else if v == 5 {
        '5'
    } else if v == 6 {
        '6'
    } else if v == 7 {
        '7'
    } else if v == 8 {
        '8'
    } else {
        '9'
    }
}

/// The canonical `YYYY-MM-DD` key of a date: four year digits, two month
/// digits and two day digits, zero-padded, separated by hyphens.
pub open spec fn date_key_seq(d: Date) -> Seq<char> {
    seq![
        digit_char(d.year as int / 1000),
        digit_char((d.year as int / 100) % 10),
        digit_char((d.year as int / 10) % 10),
        digit_char(d.year as int % 10),
        '-',
        digit_char(d.month as int / 10),
        digit_char(d.month as int % 10),
        '-',
        digit_char(d.day as int / 10),
        digit_char(d.day as int % 10),
    ]
}

fn digit_str(v: u32) -> (r: &'static str)
    requires
        v < 10,
    ensures
        r@.len() == 1,
        r@[0] == digit_char(v as int),
{
    let r: &'static str = match v {
        0 => "0",
        1 => "1",
        2 => "2",
        3 => "3",
        4 => "4",
        5 => "5",
        6 => "6",
        7 => "7",
        8 => "8",
        _ => "9",
    };
    proof {
        reveal_strlit("0");
        reveal_strlit("1");
        reveal_strlit("2");
        reveal_strlit("3");
        reveal_strlit("4");
        reveal_strlit("5");
        reveal_strlit("6");
        reveal_strlit("7");
        reveal_strlit("8");
        reveal_strlit("9");
    }
    r
}

/// The date's canonical `YYYY-MM-DD` key.
pub fn format_date_key(d: &Date) -> (r: String)
    requires
        valid_date(*d),
    ensures
        r@ == date_key_seq(*d),
{
    let y = d.year as u32;
    let mut out = String::new();
    out.append(digit_str(y / 1000));
    out.append(digit_str((y / 100) % 10));
    out.append(digit_str((y / 10) % 10));
    out.append(digit_str(y % 10));
    out.append("-");
    out.append(digit_str(d.month / 10));
    out.append(digit_str(d.month % 10));
    out.append("-");
    out.append(digit_str(d.day / 10));
    out.append(digit_str(d.day % 10));
    proof {
        reveal_strlit("-");
        assert(out@ =~= date_key_seq(*d));
    }
    out
}

/// The largest representable day index, as a runtime value.
pub fn max_day_index() -> (r: u32)
    ensures
        r as int == max_date_index(),
{
    let d = Date { year: MAX_YEAR, month: 12, day: 31 };
    d.day_index()
}

/// The date at a given day index: the inverse of `day_index`.
pub fn date_of_index(n: u32) -> (r: Date)
    requires
        0 <= n <= max_date_index(),
    ensures
        valid_date(r),
        date_index(r) == n,
{
    proof {
        lemma_year_months(MAX_YEAR as int);
    }
    let mut y: i32 = 1;
    let mut rem: u32 = n;
    let mut dy: u32 = days_in_year(y);
    while rem >= dy
        invariant
            1 <= y <= MAX_YEAR,
            dy as int == days_in_year_of(y as int),
            rem as int == n - days_before_year(y as int),
            n <= max_date_index(),
        decreases rem,
    {
        proof {
            lemma_year_months(MAX_YEAR as int);
            if y == MAX_YEAR {
                assert(days_before_year(MAX_YEAR as int + 1) == days_before_year(MAX_YEAR as int)
                    + days_in_year_of(MAX_YEAR as int));
                assert(false);
            }
        }
        rem = rem - dy;
        y = y + 1;
        dy = days_in_year(y);
    }
    let mut m: u32 = 1;
    let mut dm: u32 = days_in_month(y, m);
    while rem >= dm
        invariant
            1 <= y <= MAX_YEAR,
            1 <= m <= 12,
            dm as int == days_in_month_of(y as int, m as int),
            rem as int == n - days_before_year(y as int) - days_before_month(y as int, m as int),
            rem as int + days_before_month(y as int, m as int) < days_in_year_of(y as int),
        decreases rem,
    {
        proof {
            if m == 12 {
                lemma_year_months(y as int);
                assert(false);
            }
        }
        rem = rem - dm;
        m = m + 1;
        dm = days_in_month(y, m);
    }
    Date { year: y, month: m, day: rem + 1 }
}

} // verus!

//! The calendar view's navigation state: a selected date and the anchor
//! of a fixed-size window of consecutive months, kept so that the
//! selection's month always lies inside the window after a selection
//! move.
use crate::date::{
    date_index, days_in_month, days_in_month_of, max_date_index, valid_date, weekday_of, Date,
    MAX_YEAR, MIN_YEAR,
};
use vstd::prelude::*;

verus! {

/// A month counted linearly: twelve per year.
pub open spec fn month_index(d: Date) -> int {
    d.year * 12 + d.month - 1
}

/// How many months shown at once.
pub const DISPLAY_MONTHS: usize = 9;

/// `b` is the calendar month right after `a`, rolling over at December.
pub open spec fn next_month_pair(a: (i32, u32), b: (i32, u32)) -> bool {
    if a.1 == 12 {
        b.0 == a.0 + 1 && b.1 == 1
    } else {
        b.0 == a.0 && b.1 == a.1 + 1
    }
}

pub struct Calendar {
    pub current_date: Date,
    pub selected_date: Date,
    pub display_months: usize,
}

/// Relies on `chrono::Local::now` and `chrono::NaiveDate`'s `year`,
/// `month` and `day` accessors: the current local calendar date, with the
/// month in 1..=12 and the day in 1..=31.
#[verifier::external_body]
fn today_ymd() -> (r: (i32, u32, u32))
    ensures
        1 <= r.1 <= 12,
        1 <= r.2 <= 31,
{
    let d = chrono::Local::now().date_naive();
    (
        chrono::Datelike::year(&d),
        chrono::Datelike::month(&d),
        chrono::Datelike::day(&d),
    )
}

impl Calendar {
    /// The navigator's invariant: both dates are real calendar dates, the
    /// window anchor sits on the first day of its month, and the window
    /// has at least one month.
    pub open spec fn wf(&self) -> bool {
        &&& valid_date(self.current_date)
        &&& valid_date(self.selected_date)
        &&& self.current_date.day == 1
        &&& 1 <= self.display_months <= 120
    }

    /// The window invariant: the selection's month lies inside the window
    /// of `display_months` months anchored at `current_date`.
    pub open spec fn selection_in_window(&self) -> bool {
        0 <= month_index(self.selected_date) - month_index(self.current_date)
            < self.display_months
    }

    /// A navigator whose selection starts on the given day, with the
    /// window anchored at that day's month.
    pub fn new_on(today: Date) -> (r: Calendar)
        requires
            valid_date(today),
        ensures
            r.wf(),
            r.selection_in_window(),
            r.selected_date == today,
            r.current_date == today.first_of_month(),
            r.display_months == DISPLAY_MONTHS,
    {
        Calendar {
            current_date: today.first_of_month(),
            selected_date: today,
            display_months: DISPLAY_MONTHS,
        }
    }

    /// A navigator starting on the machine's current local date.
    pub fn new() -> (r: Calendar)
        ensures
            r.wf(),
            r.selection_in_window(),
            r.current_date == r.selected_date.first_of_month(),
            r.display_months == DISPLAY_MONTHS,
    {
        let (y, m, d) = today_ymd();
        let today = match Date::from_ymd(y, m, d) {
            Some(t) => t,
            None => Date { year: 2000, month: 1, day: 1 },
        };
        Calendar::new_on(today)
    }

    /// Re-anchors the window to the selection's month whenever the
    /// selection has left the window.
    fn adjust_current_month(&mut self)
        requires
            old(self).wf(),
        ensures
            final(self).wf(),
            final(self).selection_in_window(),
            final(self).selected_date == old(self).selected_date,
            final(self).display_months == old(self).display_months,
            old(self).selection_in_window() ==> final(self).current_date == old(self).current_date,
            !old(self).selection_in_window()
                ==> final(self).current_date == old(self).selected_date.first_of_month(),
    {
        let diff: i64 = (self.selected_date.year as i64 * 12 + self.selected_date.month as i64)
            - (self.current_date.year as i64 * 12 + self.current_date.month as i64);
        if diff < 0 || diff >= self.display_months as i64 {
            self.current_date = self.selected_date.first_of_month();
        }
    }

    /// Moves the selection by `days` days (negative for backwards); a
    /// move that would leave the representable range is silently
    /// discarded.  After a successful move the window is re-anchored so
    /// that the selection's month lies inside it.
    pub fn move_selection(&mut self, days: i64)
        requires
            old(self).wf(),
        ensures
            final(self).wf(),
            final(self).display_months == old(self).display_months,
            !(0 <= date_index(old(self).selected_date) + days <= max_date_index())
                ==> *final(self) == *old(self),
            (0 <= date_index(old(self).selected_date) + days <= max_date_index()) ==> {
                &&& date_index(final(self).selected_date) == date_index(old(self).selected_date)
                    + days
                &&& final(self).selection_in_window()
                &&& (0 <= month_index(final(self).selected_date) - month_index(
                    old(self).current_date,
                ) < old(self).display_months ==> final(self).current_date == old(self).current_date)
                &&& (!(0 <= month_index(final(self).selected_date) - month_index(
                    old(self).current_date,
                ) < old(self).display_months) ==> final(self).current_date == final(self).selected_date.first_of_month())
            },
    {
        match self.selected_date.add_days(days) {
            Some(new_date) => {
                self.selected_date = new_date;
                self.adjust_current_month();
            },
            None => {},
        }
    }

    /// Advances the window anchor by one calendar month, to that month's
    /// first day; a no-op at the end of the representable range.  The
    /// selection does not move.
    pub fn next_month(&mut self)
        requires
            old(self).wf(),
        ensures
            final(self).wf(),
            final(self).selected_date == old(self).selected_date,
            final(self).display_months == old(self).display_months,
            (old(self).current_date.month == 12 && old(self).current_date.year == MAX_YEAR)
                ==> final(self).current_date == old(self).current_date,
            (old(self).current_date.month == 12 && old(self).current_date.year < MAX_YEAR)
                ==> final(self).current_date == (Date {
                year: (old(self).current_date.year + 1) as i32,
                month: 1,
                day: 1,
            }),
            old(self).current_date.month < 12 ==> final(self).current_date == (Date {
                year: old(self).current_date.year,
                month: (old(self).current_date.month + 1) as u32,
                day: 1,
            }),
    {
        if self.current_date.month == 12 {
            if self.current_date.year < MAX_YEAR {
                self.current_date =
                    Date { year: self.current_date.year + 1, month: 1, day: 1 };
            }
        } else {
            self.current_date =
                Date { year: self.current_date.year, month: self.current_date.month + 1, day: 1 };
        }
    }

    /// Retreats the window anchor by one calendar month, to that month's
    /// first day; a no-op at the start of the representable range.  The
    /// selection does not move.
    pub fn prev_month(&mut self)
        requires
            old(self).wf(),
        ensures
            final(self).wf(),
            final(self).selected_date == old(self).selected_date,
            final(self).display_months == old(self).display_months,
            (old(self).current_date.month == 1 && old(self).current_date.year == MIN_YEAR)
                ==> final(self).current_date == old(self).current_date,
            (old(self).current_date.month == 1 && old(self).current_date.year > MIN_YEAR)
                ==> final(self).current_date == (Date {
                year: (old(self).current_date.year - 1) as i32,
                month: 12,
                day: 1,
            }),
            old(self).current_date.month > 1 ==> final(self).current_date == (Date {
                year: old(self).current_date.year,
                month: (old(self).current_date.month - 1) as u32,
                day: 1,
            }),
    {
        if self.current_date.month == 1 {
            if self.current_date.year > MIN_YEAR {
                self.current_date =
                    Date { year: self.current_date.year - 1, month: 12, day: 1 };
            }
        } else {
            self.current_date =
                Date { year: self.current_date.year, month: self.current_date.month - 1, day: 1 };
        }
    }

    /// The slots of one month's grid: one leading empty slot per weekday
    /// before the month's first day (weeks start on Sunday), then one
    /// slot per calendar day of the month, in order.
    pub fn get_month_days(&self, year: i32, month: u32) -> (r: Vec<Option<Date>>)
        requires
            MIN_YEAR <= year <= MAX_YEAR,
            1 <= month <= 12,
        ensures
            r@.len() == weekday_of(Date { year, month, day: 1 }) + days_in_month_of(
                year as int,
                month as int,
            ),
            forall|k: int|
                0 <= k < weekday_of(Date { year, month, day: 1 }) ==> r@[k] is None,
            forall|k: int|
                weekday_of(Date { year, month, day: 1 }) <= k < r@.len() ==> r@[k] == Some(
                    Date { year, month, day: (k + 1 - weekday_of(Date { year, month, day: 1 })) as u32 },
                ),
    {
        let first = Date { year, month, day: 1 };
        let w = first.weekday_from_sunday();
        let dim = days_in_month(year, month);
        let mut days: Vec<Option<Date>> = Vec::new();
        let mut k: usize = 0;
        while k < w as usize
            invariant
                k <= w < 7,
                days@.len() == k,
                forall|j: int| 0 <= j < k ==> days@[j] is None,
            decreases w as usize - k,
        {
            days.push(None);
            k = k + 1;
        }
        let mut day: u32 = 1;
        while day <= dim
            invariant
                w < 7,
                1 <= day <= dim + 1,
                dim as int == days_in_month_of(year as int, month as int),
                days@.len() == w + day - 1,
                forall|j: int| 0 <= j < w ==> days@[j] is None,
                forall|j: int|
                    w <= j < days@.len() ==> days@[j] == Some(
                        Date { year, month, day: (j + 1 - w) as u32 },
                    ),
            decreases dim + 1 - day,
        {
            days.push(Some(Date { year, month, day }));
            day = day + 1;
        }
        days
    }

    /// The `display_months` consecutive `(year, month)` pairs shown at
    /// once, starting at the window anchor's month and rolling over year
    /// boundaries.
    pub fn get_display_months(&self) -> (r: Vec<(i32, u32)>)
        requires
            self.wf(),
        ensures
            r@.len() == self.display_months,
            r@[0].0 == self.current_date.year && r@[0].1 == self.current_date.month,
            forall|k: int| 0 <= k < r@.len() ==> 1 <= #[trigger] r@[k].1 <= 12,
            forall|k: int|
                0 <= k < r@.len() - 1 ==> #[trigger] next_month_pair(r@[k], r@[k + 1]),
    {
        let mut months: Vec<(i32, u32)> = Vec::new();
        let mut year: i32 = self.current_date.year;
        let mut month: u32 = self.current_date.month;
        let mut k: usize = 0;
        while k < self.display_months
            invariant
                self.wf(),
                k <= self.display_months,
                months@.len() == k,
                1 <= month <= 12,
                self.current_date.year <= year <= self.current_date.year + k,
                k > 0 ==> (months@[0].0 == self.current_date.year && months@[0].1
                    == self.current_date.month),
                k == 0 ==> (year == self.current_date.year && month == self.current_date.month),
                k > 0 ==> next_month_pair(months@[k - 1], (year, month)),
                forall|j: int| 0 <= j < k ==> 1 <= #[trigger] months@[j].1 <= 12,
                forall|j: int|
                    0 <= j < k - 1 ==> #[trigger] next_month_pair(months@[j], months@[j + 1]),
            decreases self.display_months - k,
        {
            months.push((year, month));
            proof {
                assert(months@[k as int] == (year, month));
                if k > 0 {
                    assert(next_month_pair(months@[k as int - 1], months@[k as int]));
                }
            }
            if month == 12 {
                year = year + 1;
                month = 1;
            } else {
                month = month + 1;
            }
            k = k + 1;
        }
        months
    }
}

} // verus!

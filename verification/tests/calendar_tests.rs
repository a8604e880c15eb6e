use diary_tui::calendar::Calendar;
use diary_tui::date::{format_date_key, Date};

fn d(y: i32, m: u32, day: u32) -> Date {
    Date::from_ymd(y, m, day).unwrap()
}

#[test]
fn from_ymd_accepts_only_real_dates() {
    assert!(Date::from_ymd(2024, 2, 29).is_some());
    assert!(Date::from_ymd(2023, 2, 29).is_none());
    assert!(Date::from_ymd(2023, 13, 1).is_none());
    assert!(Date::from_ymd(2023, 4, 31).is_none());
    assert!(Date::from_ymd(0, 1, 1).is_none());
    assert!(Date::from_ymd(10000, 1, 1).is_none());
}

#[test]
fn weekdays_match_known_dates() {
    // 1970-01-01 was a Thursday, 2000-01-01 a Saturday.
    assert_eq!(d(1970, 1, 1).weekday_from_sunday(), 4);
    assert_eq!(d(2000, 1, 1).weekday_from_sunday(), 6);
    assert_eq!(d(2024, 2, 1).weekday_from_sunday(), 4);
}

#[test]
fn add_days_crosses_month_and_leap_boundaries() {
    assert_eq!(d(2024, 2, 28).add_days(2), Some(d(2024, 3, 1)));
    assert_eq!(d(2023, 2, 28).add_days(1), Some(d(2023, 3, 1)));
    assert_eq!(d(2024, 1, 1).add_days(-1), Some(d(2023, 12, 31)));
    assert_eq!(d(2024, 1, 1).add_days(366), Some(d(2025, 1, 1)));
}

#[test]
fn add_days_out_of_range_is_none() {
    assert_eq!(d(1, 1, 1).add_days(-1), None);
    assert_eq!(d(9999, 12, 31).add_days(1), None);
    assert_eq!(d(2024, 1, 1).add_days(i64::MAX), None);
    assert_eq!(d(2024, 1, 1).add_days(i64::MIN), None);
}

#[test]
fn date_key_is_zero_padded() {
    assert_eq!(format_date_key(&d(2024, 2, 1)), "2024-02-01");
    assert_eq!(format_date_key(&d(33, 12, 31)), "0033-12-31");
}

#[test]
fn month_days_leap_february() {
    let cal = Calendar::new_on(d(2024, 2, 10));
    let days = cal.get_month_days(2024, 2);
    // 2024-02-01 is a Thursday: four leading empty slots, then 29 days.
    assert_eq!(days.len(), 4 + 29);
    assert!(days[..4].iter().all(|s| s.is_none()));
    assert_eq!(days[4], Some(d(2024, 2, 1)));
    assert_eq!(days[32], Some(d(2024, 2, 29)));
}

#[test]
fn month_days_common_february() {
    let cal = Calendar::new_on(d(2023, 2, 10));
    let days = cal.get_month_days(2023, 2);
    // 2023-02-01 is a Wednesday: three leading empty slots, then 28 days.
    assert_eq!(days.len(), 3 + 28);
    assert!(days[..3].iter().all(|s| s.is_none()));
    assert_eq!(days[3], Some(d(2023, 2, 1)));
    assert_eq!(days[30], Some(d(2023, 2, 28)));
}

#[test]
fn new_on_anchors_to_first_of_month() {
    let cal = Calendar::new_on(d(2024, 5, 15));
    assert_eq!(cal.selected_date, d(2024, 5, 15));
    assert_eq!(cal.current_date, d(2024, 5, 1));
    assert_eq!(cal.display_months, 9);
}

#[test]
fn move_selection_within_window_keeps_anchor() {
    let mut cal = Calendar::new_on(d(2024, 5, 15));
    cal.move_selection(30);
    assert_eq!(cal.selected_date, d(2024, 6, 14));
    assert_eq!(cal.current_date, d(2024, 5, 1));
}

#[test]
fn move_selection_out_of_window_reanchors() {
    let mut cal = Calendar::new_on(d(2024, 5, 15));
    cal.move_selection(-45);
    assert_eq!(cal.selected_date, d(2024, 3, 31));
    assert_eq!(cal.current_date, d(2024, 3, 1));
    let mut cal = Calendar::new_on(d(2024, 1, 1));
    cal.move_selection(300);
    assert_eq!(cal.selected_date, d(2024, 10, 27));
    assert_eq!(cal.current_date, d(2024, 10, 1));
}

#[test]
fn move_selection_out_of_range_is_noop() {
    let mut cal = Calendar::new_on(d(1, 1, 1));
    cal.move_selection(-1);
    assert_eq!(cal.selected_date, d(1, 1, 1));
    let mut cal = Calendar::new_on(d(9999, 12, 31));
    cal.move_selection(7);
    assert_eq!(cal.selected_date, d(9999, 12, 31));
}

#[test]
fn next_and_prev_month_roll_over_years() {
    let mut cal = Calendar::new_on(d(2024, 12, 25));
    cal.next_month();
    assert_eq!(cal.current_date, d(2025, 1, 1));
    assert_eq!(cal.selected_date, d(2024, 12, 25));
    cal.prev_month();
    assert_eq!(cal.current_date, d(2024, 12, 1));
    cal.prev_month();
    assert_eq!(cal.current_date, d(2024, 11, 1));
}

#[test]
fn month_stepping_stops_at_range_ends() {
    let mut cal = Calendar::new_on(d(1, 1, 10));
    cal.prev_month();
    assert_eq!(cal.current_date, d(1, 1, 1));
    let mut cal = Calendar::new_on(d(9999, 12, 10));
    cal.next_month();
    assert_eq!(cal.current_date, d(9999, 12, 1));
}

#[test]
fn display_months_roll_over_year() {
    let cal = Calendar::new_on(d(2024, 9, 3));
    let months = cal.get_display_months();
    assert_eq!(months.len(), 9);
    assert_eq!(months[0], (2024, 9));
    assert_eq!(months[3], (2024, 12));
    assert_eq!(months[4], (2025, 1));
    assert_eq!(months[8], (2025, 5));
}

//! The selection state machine and the text rendering of dates and times.

use reminder::date_time::{Date, DateTime};
use reminder::format::{format_hm, format_ymd};
use reminder::state::{AppState, TodayAction};

fn date(year: i32, month: u32, day: u32) -> Date {
    Date { year, month, day }
}

#[test]
fn starts_in_undated_view() {
    let s = AppState::new();
    assert!(!s.is_day_view());
    assert_eq!(s.current_date(), None);
}

#[test]
fn picking_a_day_enters_day_view() {
    let mut s = AppState::new();
    let d = date(2024, 3, 15);
    s.select_day(d);
    assert!(s.is_day_view());
    assert_eq!(s.current_date(), Some(d));
}

#[test]
fn reset_returns_to_undated_view() {
    let mut s = AppState::new();
    s.select_day(date(2024, 3, 15));
    s.reset_date();
    assert!(!s.is_day_view());
    assert_eq!(s.current_date(), None);
}

#[test]
fn jump_to_today_toggles_when_today_is_selected() {
    let today = date(2024, 3, 15);
    let mut s = AppState::new();
    s.select_day(today);
    let action = s.jump_to_today(today);
    assert_eq!(action, TodayAction::ClearSelection);
    assert_eq!(s.current_date(), None);
}

#[test]
fn jump_to_today_moves_focus_from_another_day() {
    let today = date(2024, 3, 15);
    let elsewhere = date(2024, 2, 1);
    let mut s = AppState::new();
    s.select_day(elsewhere);
    let action = s.jump_to_today(today);
    assert_eq!(action, TodayAction::FocusToday);
    assert_eq!(s.current_date(), Some(elsewhere));
}

#[test]
fn jump_to_today_moves_focus_from_undated_view() {
    let mut s = AppState::new();
    let action = s.jump_to_today(date(2024, 3, 15));
    assert_eq!(action, TodayAction::FocusToday);
    assert_eq!(s.current_date(), None);
}

#[test]
fn formats_time_of_day_zero_padded() {
    let t = DateTime {
        date: date(2024, 3, 15),
        hour: 9,
        minute: 5,
        second: 0,
    };
    assert_eq!(format_hm(&t), "09:05");
    let late = DateTime {
        date: date(2024, 3, 15),
        hour: 23,
        minute: 59,
        second: 59,
    };
    assert_eq!(format_hm(&late), "23:59");
    let midnight = DateTime {
        date: date(2024, 1, 1),
        hour: 0,
        minute: 0,
        second: 0,
    };
    assert_eq!(format_hm(&midnight), "00:00");
}

#[test]
fn formats_date_zero_padded() {
    assert_eq!(format_ymd(&date(2024, 3, 7)), "2024-03-07");
    assert_eq!(format_ymd(&date(987, 12, 31)), "0987-12-31");
}

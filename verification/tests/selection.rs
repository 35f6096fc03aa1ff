//! Clicks and selections.

use rimeterm::clock::Moment;
use rimeterm::selection::{Cell, ClickStreak, Granularity, Point, SelectionState};

fn cell(row: u16, col: u16) -> Cell {
    Cell { row, col }
}

fn point(line: i32, column: usize) -> Point {
    Point { line, column }
}

fn start() -> Moment {
    Moment {
        nanos: 5_000_000_123,
    }
}

fn later(now: Moment, millis: u128) -> Moment {
    Moment {
        nanos: now.nanos + millis * 1_000_000,
    }
}

#[test]
fn streak_first_click_is_char() {
    let mut s = ClickStreak::default();
    let now = start();
    assert_eq!(s.begin(point(0, 0), now), Granularity::Char);
}

#[test]
fn streak_second_click_same_point_promotes_to_word() {
    let mut s = ClickStreak::default();
    let now = start();
    s.begin(point(-2, 3), now);
    assert_eq!(s.begin(point(-2, 3), later(now, 100)), Granularity::Word);
}

#[test]
fn streak_third_click_same_point_promotes_to_line() {
    let mut s = ClickStreak::default();
    let now = start();
    s.begin(point(0, 0), now);
    s.begin(point(0, 0), later(now, 100));
    assert_eq!(s.begin(point(0, 0), later(now, 200)), Granularity::Line);
}

#[test]
fn streak_fourth_click_wraps_back_to_char() {
    let mut s = ClickStreak::default();
    let now = start();
    s.begin(point(0, 0), now);
    s.begin(point(0, 0), later(now, 50));
    s.begin(point(0, 0), later(now, 100));
    assert_eq!(s.begin(point(0, 0), later(now, 150)), Granularity::Char);
}

#[test]
fn streak_different_point_restarts() {
    let mut s = ClickStreak::default();
    let now = start();
    s.begin(point(0, 0), now);
    assert_eq!(s.begin(point(-1, 0), later(now, 100)), Granularity::Char);
}

#[test]
fn streak_expired_window_restarts() {
    let mut s = ClickStreak::default();
    let now = start();
    s.begin(point(0, 0), now);
    assert_eq!(s.begin(point(0, 0), later(now, 500)), Granularity::Char);
}

#[test]
fn streak_survives_streaming_rebase() {
    let mut s = ClickStreak::default();
    let now = start();
    s.begin(point(0, 5), now);
    assert_eq!(
        s.begin(point(-3, 5), later(now, 100)),
        Granularity::Char,
        "different absolute point must restart the streak"
    );
    assert_eq!(s.begin(point(-3, 5), later(now, 200)), Granularity::Word);
}

#[test]
fn streak_goes_round_for_ever() {
    let mut s = ClickStreak::default();
    let now = start();
    let modes = [Granularity::Char, Granularity::Word, Granularity::Line];
    for i in 0..20usize {
        let at = later(now, 399 * i as u128);
        assert_eq!(s.begin(point(7, 7), at), modes[i % 3]);
    }
}

#[test]
fn streak_window_ends_at_four_hundred_milliseconds() {
    let mut s = ClickStreak::default();
    let now = start();
    s.begin(point(0, 0), now);
    let last = Moment {
        nanos: now.nanos + 399_999_999,
    };
    assert_eq!(s.begin(point(0, 0), last), Granularity::Word);
    let too_late = Moment {
        nanos: last.nanos + 400_000_000,
    };
    assert_eq!(s.begin(point(0, 0), too_late), Granularity::Char);
    // A clock that steps back counts as no time at all.
    assert_eq!(s.begin(point(0, 0), now), Granularity::Word);
}

#[test]
fn streak_reset_forgets() {
    let mut s = ClickStreak::default();
    let now = start();
    s.begin(point(0, 0), now);
    s.reset();
    assert_eq!(s.begin(point(0, 0), now), Granularity::Char);
    assert_eq!(s.begin(point(0, 0), now), Granularity::Word);
}

#[test]
fn begin_default_is_char_mode() {
    let mut s = SelectionState::default();
    s.begin(cell(0, 0), start());
    assert_eq!(s.granularity(), Granularity::Char);
    assert!(s.is_active());
    assert!(!s.is_frozen());
}

#[test]
fn double_click_within_window_promotes_to_word() {
    let mut s = SelectionState::default();
    let now = start();
    s.begin(cell(1, 2), now);
    s.begin(cell(1, 2), later(now, 200));
    assert_eq!(s.granularity(), Granularity::Word);
}

#[test]
fn selection_clear_resets_highlight_but_keeps_streak_info() {
    let mut s = SelectionState::default();
    let now = start();
    s.begin(cell(0, 0), now);
    s.extend(cell(2, 2));
    s.commit();
    s.clear();
    assert!(!s.is_active());
    s.begin(cell(0, 0), later(now, 50));
    assert_eq!(s.granularity(), Granularity::Word);
}

#[test]
fn contains_flows_past_cursor_in_word_line_modes() {
    let mut s = SelectionState::default();
    let now = start();
    s.begin(cell(0, 0), now);
    s.extend(cell(1, 2));
    assert!(s.contains(0, 0, 10));
    assert!(s.contains(0, 9, 10));
    assert!(s.contains(1, 0, 10));
    assert!(s.contains(1, 2, 10));
    assert!(!s.contains(1, 3, 10));
    assert!(!s.contains(2, 0, 10));
}

#[test]
fn empty_selection_ignores_drag_and_release() {
    let mut s = SelectionState::default();
    s.extend(cell(3, 3));
    s.commit();
    assert!(!s.is_active());
    assert!(!s.is_frozen());
    assert_eq!(s.char_range(), None);
    assert!(!s.contains(3, 3, 10));
    assert_eq!(s.granularity(), Granularity::default());
    assert_eq!(Cell::default(), cell(0, 0));
}

#[test]
fn range_is_in_reading_order_both_ways() {
    let mut down = SelectionState::default();
    down.begin(cell(1, 8), start());
    down.extend(cell(3, 2));
    let mut up = SelectionState::default();
    up.begin(cell(3, 2), start());
    up.extend(cell(1, 8));
    assert_eq!(down.char_range(), Some((cell(1, 8), cell(3, 2))));
    assert_eq!(up.char_range(), down.char_range());
    for row in 0..6 {
        for col in 0..12 {
            assert_eq!(up.contains(row, col, 10), down.contains(row, col, 10));
        }
    }
    // The last row alone may reach past the surface.
    assert!(!down.contains(1, 10, 10));
    assert!(!down.contains(2, 10, 10));
    assert!(down.contains(2, 9, 10));
    assert!(down.contains(3, 2, 1));
}

#[test]
fn single_row_is_cut_at_both_ends() {
    let mut s = SelectionState::default();
    s.begin(cell(4, 6), start());
    s.extend(cell(4, 3));
    assert!(!s.contains(4, 2, 10));
    assert!(s.contains(4, 3, 10));
    assert!(s.contains(4, 6, 10));
    assert!(!s.contains(4, 7, 10));
}

#[test]
fn lines_are_covered_whole() {
    let mut s = SelectionState::default();
    let now = start();
    s.begin(cell(2, 4), now);
    s.begin(cell(2, 4), later(now, 10));
    s.begin(cell(2, 4), later(now, 20));
    s.extend(cell(3, 1));
    assert_eq!(s.granularity(), Granularity::Line);
    assert!(s.contains(2, 0, 10));
    assert!(s.contains(3, 500, 10));
    assert!(!s.contains(1, 4, 10));
}

#[test]
fn shift_click_grows_or_starts() {
    let mut s = SelectionState::default();
    s.shift_extend(cell(2, 2));
    assert_eq!(s.char_range(), Some((cell(2, 2), cell(2, 2))));
    assert_eq!(s.granularity(), Granularity::Char);
    s.commit();
    assert!(s.is_frozen());
    s.shift_extend(cell(5, 0));
    assert!(!s.is_frozen());
    assert_eq!(s.char_range(), Some((cell(2, 2), cell(5, 0))));
}

//! Input state tests: press tracking and the first-press / delay / repeat
//! policy, plus the time display.

use tetrs::consts::{INPUT_INTERVAL, INPUT_REPEAT_DELAY};
use tetrs::game_state::duration_display;
use tetrs::input::InputState;

#[test]
fn pressed_is_consumed_by_update() {
    let mut s = InputState::default();
    assert!(!s.pressed());
    s.set_pressed(true);
    assert!(s.pressed());
    s.update();
    assert!(!s.pressed());
    assert!(!s.held());
}

#[test]
fn held_needs_more_than_one_frame() {
    let mut s = InputState::default();
    s.set_pressed(true);
    s.update();
    assert!(!s.held());
    s.set_pressed(true);
    s.update();
    assert!(s.held());
}

#[test]
fn releasing_resets_the_held_count() {
    let mut s = InputState::default();
    for _ in 0..5 {
        s.set_pressed(true);
        s.update();
    }
    assert!(s.held());
    s.set_pressed(false);
    s.update();
    assert!(!s.held());
    assert!(!s.repeated(INPUT_REPEAT_DELAY, INPUT_INTERVAL));
}

#[test]
fn repeat_fires_on_first_press_then_at_the_interval() {
    let mut s = InputState::default();
    let mut fired = Vec::new();
    for frame in 1..=25u16 {
        s.set_pressed(true);
        s.update();
        if s.repeated(INPUT_REPEAT_DELAY, INPUT_INTERVAL) {
            fired.push(frame);
        }
    }
    // the first press fires at once; repeats start past the delay of 8, on
    // every 5th held frame
    assert_eq!(fired, vec![1, 10, 15, 20, 25]);
}

#[test]
fn display_pads_seconds_to_two_digits() {
    assert_eq!(duration_display(0), "0:00");
    assert_eq!(duration_display(9), "0:09");
    assert_eq!(duration_display(59), "0:59");
    assert_eq!(duration_display(60), "1:00");
    assert_eq!(duration_display(61), "1:01");
    assert_eq!(duration_display(119), "1:59");
    assert_eq!(duration_display(600), "10:00");
    assert_eq!(duration_display(3725), "62:05");
}

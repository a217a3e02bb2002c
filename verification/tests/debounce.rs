use agar_keys::debounce::{DebounceState, KeyState, QuietReleaseDebouncer};

const PRESSED: KeyState = KeyState { pressed: true };
const RELEASED: KeyState = KeyState { pressed: false };

#[test]
fn key_state_toggles() {
    let mut k = KeyState::new();
    assert!(!k.pressed);
    k.toggle_pressed();
    assert!(k.pressed);
    k.toggle_pressed();
    assert!(!k.pressed);
}

#[test]
fn press_commits_on_second_closed_sample() {
    let mut d = QuietReleaseDebouncer::<9, 8>::new(30);
    assert_eq!(d.detect_change_at(2, 3, true, &RELEASED, 10), DebounceState::InProgress);
    assert_eq!(d.detect_change_at(2, 3, true, &RELEASED, 11), DebounceState::Debounced);
}

#[test]
fn open_sample_breaks_press() {
    let mut d = QuietReleaseDebouncer::<9, 8>::new(30);
    assert_eq!(d.detect_change_at(0, 0, true, &RELEASED, 1), DebounceState::InProgress);
    assert_eq!(d.detect_change_at(0, 0, false, &RELEASED, 2), DebounceState::Ignored);
    assert_eq!(d.detect_change_at(0, 0, true, &RELEASED, 3), DebounceState::InProgress);
}

#[test]
fn held_closed_is_ignored() {
    let mut d = QuietReleaseDebouncer::<9, 8>::new(30);
    assert_eq!(d.detect_change_at(8, 7, true, &PRESSED, 5), DebounceState::Ignored);
}

#[test]
fn release_waits_for_quiet_time() {
    let mut d = QuietReleaseDebouncer::<9, 8>::new(30);
    assert_eq!(d.detect_change_at(4, 4, true, &PRESSED, 100), DebounceState::Ignored);
    assert_eq!(d.detect_change_at(4, 4, false, &PRESSED, 110), DebounceState::InProgress);
    assert_eq!(d.detect_change_at(4, 4, false, &PRESSED, 129), DebounceState::InProgress);
    assert_eq!(d.detect_change_at(4, 4, false, &PRESSED, 130), DebounceState::Debounced);
}

#[test]
fn dropout_shorter_than_quiet_is_not_a_release() {
    let mut d = QuietReleaseDebouncer::<9, 8>::new(30);
    d.detect_change_at(1, 1, true, &PRESSED, 0);
    for t in 1..25 {
        assert_eq!(d.detect_change_at(1, 1, false, &PRESSED, t), DebounceState::InProgress);
    }
    // the key reads closed again: the quiet time starts over
    assert_eq!(d.detect_change_at(1, 1, true, &PRESSED, 25), DebounceState::Ignored);
    assert_eq!(d.detect_change_at(1, 1, false, &PRESSED, 54), DebounceState::InProgress);
    assert_eq!(d.detect_change_at(1, 1, false, &PRESSED, 55), DebounceState::Debounced);
}

#[test]
fn release_timer_wraps() {
    let mut d = QuietReleaseDebouncer::<9, 8>::new(30);
    d.detect_change_at(0, 5, true, &PRESSED, u32::MAX - 5);
    assert_eq!(d.detect_change_at(0, 5, false, &PRESSED, 23), DebounceState::InProgress);
    assert_eq!(d.detect_change_at(0, 5, false, &PRESSED, 24), DebounceState::Debounced);
}

#[test]
fn positions_are_independent() {
    let mut d = QuietReleaseDebouncer::<9, 8>::new(30);
    d.detect_change_at(0, 0, true, &RELEASED, 1);
    assert_eq!(d.detect_change_at(0, 1, true, &RELEASED, 2), DebounceState::InProgress);
    assert_eq!(d.detect_change_at(1, 0, true, &RELEASED, 3), DebounceState::InProgress);
    assert_eq!(d.detect_change_at(0, 0, true, &RELEASED, 4), DebounceState::Debounced);
}

#[test]
fn clock_reading_debounces() {
    let mut d = QuietReleaseDebouncer::<2, 2>::new(30);
    assert_eq!(d.detect_change_with_debounce(1, 1, true, &RELEASED), DebounceState::InProgress);
    assert_eq!(d.detect_change_with_debounce(1, 1, true, &RELEASED), DebounceState::Debounced);
    assert_eq!(d.detect_change_with_debounce(1, 1, false, &PRESSED), DebounceState::InProgress);
}

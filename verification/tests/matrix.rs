use agar_keys::debounce::{DebounceState, QuietReleaseDebouncer};
use agar_keys::matrix::{reading_closed, KeyboardEvent, ShiftMatrix, TokenPolarity};

#[test]
fn token_levels() {
    assert!(TokenPolarity::High.token_level());
    assert!(!TokenPolarity::Low.token_level());
}

#[test]
fn event_key() {
    assert_eq!(
        KeyboardEvent::key(3, 4, true),
        KeyboardEvent { row: 3, col: 4, pressed: true }
    );
}

#[test]
fn single_read_transient_is_open() {
    assert!(reading_closed(true, true));
    assert!(!reading_closed(true, false));
    assert!(!reading_closed(false, true));
    assert!(!reading_closed(false, false));
}

fn matrix() -> ShiftMatrix<9, 8> {
    ShiftMatrix::new(TokenPolarity::Low, 0)
}

#[test]
fn positions_map_to_row_and_col() {
    let mut m = matrix();
    let mut d = QuietReleaseDebouncer::<9, 8>::new(30);
    assert_eq!(m.positions(), 72);
    assert_eq!(m.polarity(), TokenPolarity::Low);
    assert!(m.at_pass_start());
    let mut seen = Vec::new();
    while m.in_pass() {
        let (row, col) = m.next_position();
        seen.push((row, col));
        assert_eq!(m.sample_at(&mut d, false, 0), None);
    }
    assert_eq!(seen.len(), 72);
    for (p, rc) in seen.iter().enumerate() {
        assert_eq!(*rc, (p / 8, p % 8));
    }
    assert!(!m.at_pass_start());
    m.end_pass();
    assert!(m.at_pass_start());
}

#[test]
fn pass_interval() {
    let mut m = ShiftMatrix::<9, 8>::new(TokenPolarity::High, 500);
    assert_eq!(m.next_pass(), 500);
    m.start_pass(700, 1000);
    assert_eq!(m.next_pass(), 1700);
    assert!(m.at_pass_start());
}

/// Runs one full pass, reading `closed` at chain position `p` and open
/// everywhere else. Returns the events.
fn pass(
    m: &mut ShiftMatrix<9, 8>,
    d: &mut QuietReleaseDebouncer<9, 8>,
    p: usize,
    closed: bool,
    now: u32,
) -> Vec<KeyboardEvent> {
    let mut events = Vec::new();
    let mut pos = 0;
    while m.in_pass() {
        if let Some(ev) = m.sample_at(d, pos == p && closed, now) {
            events.push(ev);
        }
        pos += 1;
    }
    m.end_pass();
    events
}

#[test]
fn press_and_release_reach_events() {
    let mut m = matrix();
    let mut d = QuietReleaseDebouncer::<9, 8>::new(30);
    // chain position 13 is row 1, col 5
    assert!(pass(&mut m, &mut d, 13, true, 0).is_empty());
    assert_eq!(pass(&mut m, &mut d, 13, true, 1), vec![KeyboardEvent::key(1, 5, true)]);
    assert!(m.key_state(1, 5).pressed);
    assert!(pass(&mut m, &mut d, 13, true, 2).is_empty());
    assert!(pass(&mut m, &mut d, 13, false, 20).is_empty());
    assert_eq!(pass(&mut m, &mut d, 13, false, 32), vec![KeyboardEvent::key(1, 5, false)]);
    assert!(!m.key_state(1, 5).pressed);
}

#[test]
fn pass_resumes_after_event() {
    let mut m = matrix();
    let mut d = QuietReleaseDebouncer::<9, 8>::new(30);
    pass(&mut m, &mut d, 0, true, 0);
    // the event comes at position 0; the pass goes on from position 1
    assert_eq!(m.sample_at(&mut d, true, 1), Some(KeyboardEvent::key(0, 0, true)));
    assert!(!m.at_pass_start());
    assert_eq!(m.next_position(), (0, 1));
}

#[test]
fn apply_toggles_and_alternates() {
    let mut m = matrix();
    let mut events = Vec::new();
    for res in [
        DebounceState::InProgress,
        DebounceState::Debounced,
        DebounceState::Ignored,
        DebounceState::Debounced,
        DebounceState::Debounced,
    ] {
        // every pass reads position 0 with `res`, the rest with nothing
        assert_eq!(m.next_position(), (0, 0));
        if let Some(ev) = m.apply(res) {
            events.push(ev.pressed);
        }
        while m.in_pass() {
            assert_eq!(m.apply(DebounceState::Ignored), None);
        }
        m.end_pass();
    }
    assert_eq!(events, vec![true, false, true]);
    assert!(m.key_state(0, 0).pressed);
}

#[test]
fn clock_sample_runs() {
    let mut m = matrix();
    let mut d = QuietReleaseDebouncer::<9, 8>::new(30);
    assert_eq!(m.sample(&mut d, true), None);
    assert_eq!(m.next_position(), (0, 1));
}

#[test]
fn revision_strap_sets_polarity() {
    assert_eq!(TokenPolarity::read(true), TokenPolarity::High);
    assert_eq!(TokenPolarity::read(false), TokenPolarity::Low);
}

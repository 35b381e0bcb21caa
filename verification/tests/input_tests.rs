use frameloop::input::ControllerInput;
use frameloop::input::InputTracker;
use frameloop::input::Key;
use frameloop::input::RawEvent;

#[test]
fn new_controller_input_has_no_direction_held() {
    let c = ControllerInput::new();
    assert!(!c.U);
    assert!(!c.D);
    assert!(!c.L);
    assert!(!c.R);
}

#[test]
fn new_tracker_is_live_with_no_direction_held() {
    let t = InputTracker::new();
    assert!(t.live());
    assert_eq!(t.get_controller_input(), ControllerInput::new());
}

#[test]
fn left_up_then_left_release_leaves_only_up_held() {
    // Key-down Left, key-down Up, key-up Left: only Up stays held.
    let mut t = InputTracker::new();
    let events = vec![
        RawEvent::KeyDown(Key::Left),
        RawEvent::KeyDown(Key::Up),
        RawEvent::KeyUp(Key::Left),
    ];
    t.apply_all(&events);
    let c = t.get_controller_input();
    assert!(c.U);
    assert!(!c.D);
    assert!(!c.L);
    assert!(!c.R);
    assert!(t.live());
}

#[test]
fn repeated_key_down_is_idempotent() {
    let mut once = InputTracker::new();
    once.apply(RawEvent::KeyDown(Key::Right));
    let mut twice = InputTracker::new();
    twice.apply(RawEvent::KeyDown(Key::Right));
    twice.apply(RawEvent::KeyDown(Key::Right));
    assert_eq!(once.get_controller_input(), twice.get_controller_input());
    assert_eq!(once.live(), twice.live());
}

#[test]
fn key_up_without_prior_key_down_is_absorbed() {
    let mut t = InputTracker::new();
    t.apply(RawEvent::KeyUp(Key::Down));
    let c = t.get_controller_input();
    assert!(!c.U && !c.D && !c.L && !c.R);
    assert!(t.live());
}

#[test]
fn last_event_for_a_direction_wins() {
    let mut t = InputTracker::new();
    let events = vec![
        RawEvent::KeyDown(Key::Left),
        RawEvent::KeyUp(Key::Left),
        RawEvent::KeyDown(Key::Left),
    ];
    t.apply_all(&events);
    assert!(t.get_controller_input().L);
}

#[test]
fn quit_signal_clears_liveness() {
    let mut t = InputTracker::new();
    t.apply(RawEvent::Quit);
    assert!(!t.live());
}

#[test]
fn escape_key_down_clears_liveness() {
    let mut t = InputTracker::new();
    t.apply(RawEvent::KeyDown(Key::Escape));
    assert!(!t.live());
}

#[test]
fn liveness_never_reverts_after_quit() {
    let mut t = InputTracker::new();
    let events = vec![
        RawEvent::KeyDown(Key::Up),
        RawEvent::Quit,
        RawEvent::KeyDown(Key::Down),
        RawEvent::KeyUp(Key::Escape),
        RawEvent::Other,
    ];
    t.apply_all(&events);
    assert!(!t.live());
    // Direction flags still track their own events after the quit.
    assert!(t.get_controller_input().U);
    assert!(t.get_controller_input().D);
}

#[test]
fn escape_release_does_not_clear_liveness() {
    let mut t = InputTracker::new();
    t.apply(RawEvent::KeyUp(Key::Escape));
    assert!(t.live());
}

#[test]
fn unrelated_events_change_nothing() {
    let mut t = InputTracker::new();
    t.apply(RawEvent::KeyDown(Key::Left));
    let before_input = t.get_controller_input();
    let before_live = t.live();
    t.apply(RawEvent::Other);
    t.apply(RawEvent::KeyDown(Key::Other));
    t.apply(RawEvent::KeyUp(Key::Other));
    assert_eq!(t.get_controller_input(), before_input);
    assert_eq!(t.live(), before_live);
}

use tet_rs::input::{debounce, debounce_all, was_pressed, KeyState, PlayerInput, RawInput};

/// Three consecutive raw-down ticks give Pressed, Holding, Holding.
#[test]
fn debounce_three_downs() {
    let s0 = KeyState::Released;
    let s1 = debounce(s0, true);
    let s2 = debounce(s1, true);
    let s3 = debounce(s2, true);
    assert_eq!(s1, KeyState::Pressed);
    assert_eq!(s2, KeyState::Holding);
    assert_eq!(s3, KeyState::Holding);
}

/// One raw-up tick gives Released whatever came before.
#[test]
fn debounce_up_releases_from_any_state() {
    assert_eq!(debounce(KeyState::Pressed, false), KeyState::Released);
    assert_eq!(debounce(KeyState::Holding, false), KeyState::Released);
    assert_eq!(debounce(KeyState::Released, false), KeyState::Released);
}

#[test]
fn was_pressed_fresh_press_always_counts() {
    assert!(was_pressed(KeyState::Pressed, 0));
    assert!(was_pressed(KeyState::Pressed, 1));
    assert!(was_pressed(KeyState::Pressed, 7));
}

/// A held key auto-repeats at half the tick rate: even tickers only.
#[test]
fn was_pressed_holding_repeats_on_even_ticks() {
    assert!(was_pressed(KeyState::Holding, 0));
    assert!(!was_pressed(KeyState::Holding, 1));
    assert!(was_pressed(KeyState::Holding, 2));
    assert!(!was_pressed(KeyState::Holding, 3));
}

#[test]
fn was_pressed_released_never_counts() {
    assert!(!was_pressed(KeyState::Released, 0));
    assert!(!was_pressed(KeyState::Released, 1));
}

/// Every key is debounced independently and identically.
#[test]
fn debounce_all_is_per_key() {
    let prev = PlayerInput {
        up: KeyState::Released,
        down: KeyState::Pressed,
        left: KeyState::Holding,
        right: KeyState::Released,
        rot_right: KeyState::Released,
        rot_left: KeyState::Holding,
        escape: KeyState::Pressed,
    };
    let raw = RawInput {
        up: true,
        down: true,
        left: true,
        right: false,
        rot_right: false,
        rot_left: false,
        escape: true,
    };
    let next = debounce_all(prev, raw);
    assert_eq!(next.up, KeyState::Pressed);
    assert_eq!(next.down, KeyState::Holding);
    assert_eq!(next.left, KeyState::Holding);
    assert_eq!(next.right, KeyState::Released);
    assert_eq!(next.rot_right, KeyState::Released);
    assert_eq!(next.rot_left, KeyState::Released);
    assert_eq!(next.escape, KeyState::Holding);
}

#[test]
fn all_pressed_holds_every_key() {
    let p = PlayerInput::all_pressed();
    assert_eq!(p.up, KeyState::Holding);
    assert_eq!(p.escape, KeyState::Holding);
    let d = PlayerInput::default();
    assert_eq!(d.down, KeyState::Released);
}

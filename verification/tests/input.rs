use termgba::input::{
    key_change, key_name, map_key, terminal_reports_key_release, KeyCode, KeyEvent, KeyEventKind,
    KeyLog, KeyModifiers, TerminalStep, HOLD_TIMEOUT,
};
use termgba::{
    poll_keys, set_key_logging, GbaButton, KeyState, RawModeGuard, TerminalInput, KEY_A, KEY_B,
    KEY_DOWN, KEY_L, KEY_LEFT, KEY_QUIT, KEY_R, KEY_RIGHT, KEY_SELECT, KEY_START, KEY_TURBO,
    KEY_UP,
};

fn event(code: KeyCode, kind: KeyEventKind) -> KeyEvent {
    KeyEvent { code, modifiers: KeyModifiers::empty(), kind }
}

fn press(c: char) -> KeyEvent {
    event(KeyCode::Char(c), KeyEventKind::Press)
}

fn repeat(c: char) -> KeyEvent {
    event(KeyCode::Char(c), KeyEventKind::Repeat)
}

fn release(c: char) -> KeyEvent {
    event(KeyCode::Char(c), KeyEventKind::Release)
}

#[test]
fn key_state_bitmask_operations() {
    let mut ks = KeyState::new();
    assert!(!ks.is_pressed(KEY_A));
    ks.set(KEY_A, true);
    assert!(ks.is_pressed(KEY_A));
    ks.set(KEY_B, true);
    assert!(ks.is_pressed(KEY_A | KEY_B));
    ks.set(KEY_A, false);
    assert!(!ks.is_pressed(KEY_A));
    assert!(ks.is_pressed(KEY_B));
}

#[test]
fn key_mapping_correct() {
    assert_eq!(map_key(KeyCode::Char('z'), KeyModifiers::empty()), KEY_A);
    assert_eq!(map_key(KeyCode::Char('x'), KeyModifiers::empty()), KEY_B);
    assert_eq!(map_key(KeyCode::Char('a'), KeyModifiers::empty()), KEY_L);
    assert_eq!(map_key(KeyCode::Char('s'), KeyModifiers::empty()), KEY_R);
    assert_eq!(map_key(KeyCode::Enter, KeyModifiers::empty()), KEY_START);
    assert_eq!(map_key(KeyCode::Up, KeyModifiers::empty()), KEY_UP);
    assert_eq!(map_key(KeyCode::Down, KeyModifiers::empty()), KEY_DOWN);
    assert_eq!(map_key(KeyCode::Left, KeyModifiers::empty()), KEY_LEFT);
    assert_eq!(map_key(KeyCode::Right, KeyModifiers::empty()), KEY_RIGHT);
    assert_eq!(
        map_key(KeyCode::Char(' '), KeyModifiers::empty()),
        KEY_TURBO
    );
    assert_eq!(map_key(KeyCode::Char('q'), KeyModifiers::empty()), KEY_QUIT);
    assert_eq!(map_key(KeyCode::Esc, KeyModifiers::empty()), KEY_QUIT);
    assert_eq!(map_key(KeyCode::Char('w'), KeyModifiers::empty()), 0);
}

#[test]
fn turbo_is_not_sent_to_the_gba() {
    let mut ks = KeyState::new();
    ks.set(KEY_TURBO, true);

    assert!(ks.turbo_pressed());
    assert_eq!(ks.gba_bits(), 0);
}

#[test]
fn both_tabs_are_select() {
    assert_eq!(map_key(KeyCode::Tab, KeyModifiers::empty()), KEY_SELECT);
    assert_eq!(map_key(KeyCode::BackTab, KeyModifiers { control: true }), KEY_SELECT);
    assert_eq!(map_key(KeyCode::Other, KeyModifiers::empty()), 0);
}

#[test]
fn buttons_are_in_bit_order() {
    let buttons = [
        (GbaButton::A, KEY_A),
        (GbaButton::B, KEY_B),
        (GbaButton::Select, KEY_SELECT),
        (GbaButton::Start, KEY_START),
        (GbaButton::Right, KEY_RIGHT),
        (GbaButton::Left, KEY_LEFT),
        (GbaButton::Up, KEY_UP),
        (GbaButton::Down, KEY_DOWN),
        (GbaButton::R, KEY_R),
        (GbaButton::L, KEY_L),
    ];
    for (i, (button, key)) in buttons.iter().enumerate() {
        assert_eq!(button.mask(), 1 << i);
        assert_eq!(button.mask(), *key);
    }
}

#[test]
fn key_state_is_a_plain_set_of_bits() {
    let keys = KeyState::from_bits(0xC3FF);
    assert_eq!(keys.bits(), 0xC3FF);
    assert_eq!(keys.gba_bits(), KeyState::GBA_BUTTON_MASK);
    assert!(keys.quit_pressed());
    assert_eq!(KeyState::default(), KeyState::new());
    assert_eq!(KeyState::new().bits(), 0);
    assert!(!KeyState::from_bits(KEY_A).is_pressed(0));
    assert!(KeyState::from_bits(KEY_A).is_pressed(KEY_A | KEY_B));
}

#[test]
fn release_undoes_a_press() {
    let mut keys = KeyState::from_bits(KEY_UP);
    keys.set_button(GbaButton::L, true);
    keys.set_quit(true);
    assert_eq!(keys.bits(), KEY_UP | KEY_L | KEY_QUIT);
    keys.set_button(GbaButton::L, false);
    keys.set_quit(false);
    assert_eq!(keys.bits(), KEY_UP);
}

#[test]
fn events_change_their_key_only() {
    assert_eq!(key_change(press('z')), Some((KEY_A, true)));
    assert_eq!(key_change(repeat('z')), Some((KEY_A, true)));
    assert_eq!(key_change(release('z')), Some((KEY_A, false)));
    assert_eq!(key_change(press('w')), None);
}

#[test]
fn polling_follows_the_events_in_order() {
    let mut keys = KeyState::from_bits(KEY_DOWN);
    poll_keys(&mut keys, &[press('z'), press('x'), release('z'), press('w')]);
    assert_eq!(keys.bits(), KEY_DOWN | KEY_B);
    poll_keys(&mut keys, &[]);
    assert_eq!(keys.bits(), KEY_DOWN | KEY_B);
}

#[test]
fn a_terminal_without_releases_lets_go_after_the_timeout() {
    assert_eq!(HOLD_TIMEOUT, 200_000_000);
    let mut input = TerminalInput::new(false);
    let mut keys = KeyState::new();
    input.poll_keys(&mut keys, &[press('z'), press('x')], 1_000);
    input.poll_keys(&mut keys, &[repeat('x')], 150_000_000);
    input.poll_keys(&mut keys, &[], 200_000_999);
    assert_eq!(keys.bits(), KEY_A | KEY_B);
    input.poll_keys(&mut keys, &[], 200_001_000);
    assert_eq!(keys.bits(), KEY_B);
    input.poll_keys(&mut keys, &[], 350_000_000);
    assert_eq!(keys.bits(), 0);
}

#[test]
fn a_terminal_with_releases_holds_on() {
    let mut input = TerminalInput::new(true);
    let mut keys = KeyState::new();
    input.poll_keys(&mut keys, &[press('z')], 0);
    input.poll_keys(&mut keys, &[], u128::MAX);
    assert_eq!(keys.bits(), KEY_A);
    input.poll_keys(&mut keys, &[release('z')], u128::MAX);
    assert_eq!(keys.bits(), 0);
}

#[test]
fn a_released_key_does_not_time_out_again() {
    let mut input = TerminalInput::new(false);
    let mut keys = KeyState::new();
    input.poll_keys(&mut keys, &[press('q'), release('q')], 0);
    keys.set_quit(true);
    input.poll_keys(&mut keys, &[], 10 * HOLD_TIMEOUT);
    assert!(keys.quit_pressed());
}

#[test]
fn a_clock_that_goes_back_times_nothing_out() {
    let mut input = TerminalInput::new(false);
    let mut keys = KeyState::new();
    input.poll_keys(&mut keys, &[press('z')], 10 * HOLD_TIMEOUT);
    input.poll_keys(&mut keys, &[], 0);
    assert_eq!(keys.bits(), KEY_A);
}

#[test]
fn keys_are_logged_only_on_demand() {
    let mut log = KeyLog::default();
    let none = KeyState::new();
    let a = KeyState::from_bits(KEY_A);
    assert_eq!(log.log_key_change(a, KEY_A, true, 3), None);
    assert!(log.log_events(none, &[press('z')], 3).is_empty());
    set_key_logging(&mut log, true);
    assert_eq!(
        log.log_key_change(a, KEY_A, true, 123_456).as_deref(),
        Some("[INPUT] t=123.456ms keys=0x0001 pressed=A")
    );
    assert_eq!(
        log.log_key_change(none, KEY_A, false, 123_678).as_deref(),
        Some("[INPUT] t=123.678ms keys=0x0000 released=A")
    );
    assert_eq!(
        log.log_key_change(KeyState::from_bits(0x8ABC), KEY_QUIT, true, 7).as_deref(),
        Some("[INPUT] t=0.007ms keys=0x8ABC pressed=QUIT")
    );
    assert_eq!(
        log.log_key_change(none, 0x0C00, true, 1_000).as_deref(),
        Some("[INPUT] t=1.000ms keys=0x0000 pressed=UNKNOWN")
    );
    set_key_logging(&mut log, false);
    assert_eq!(log.log_key_change(a, KEY_A, true, 3), None);
}

#[test]
fn the_log_follows_the_state_from_event_to_event() {
    let mut log = KeyLog::default();
    set_key_logging(&mut log, true);
    let lines = log.log_events(
        KeyState::from_bits(KEY_UP),
        &[press('z'), press('w'), repeat('x'), release('z')],
        60_010,
    );
    assert_eq!(
        lines,
        vec![
            "[INPUT] t=60.010ms keys=0x0041 pressed=A",
            "[INPUT] t=60.010ms keys=0x0043 pressed=B",
            "[INPUT] t=60.010ms keys=0x0042 released=A",
        ]
    );
}

#[test]
fn every_key_has_its_name() {
    let names = [
        (KEY_A, "A"),
        (KEY_B, "B"),
        (KEY_SELECT, "SELECT"),
        (KEY_START, "START"),
        (KEY_RIGHT, "RIGHT"),
        (KEY_LEFT, "LEFT"),
        (KEY_UP, "UP"),
        (KEY_DOWN, "DOWN"),
        (KEY_R, "R"),
        (KEY_L, "L"),
        (KEY_TURBO, "TURBO"),
        (KEY_QUIT, "QUIT"),
        (0, "UNKNOWN"),
    ];
    for (key, name) in names {
        assert_eq!(key_name(key), name);
    }
}

#[test]
fn the_terminal_is_asked_for_releases_unless_the_query_is_skipped() {
    assert!(terminal_reports_key_release(false, Some(true)));
    assert!(!terminal_reports_key_release(false, Some(false)));
    assert!(!terminal_reports_key_release(false, None));
    assert!(!terminal_reports_key_release(true, Some(true)));
}

#[test]
fn the_terminal_is_given_back_as_it_was() {
    let guard = RawModeGuard::new(true);
    assert!(guard.reports_key_release());
    assert_eq!(
        guard.enter_steps(),
        vec![
            TerminalStep::EnableRawMode,
            TerminalStep::PushKeyboardFlags,
            TerminalStep::EnterAlternateScreen,
        ]
    );
    assert_eq!(
        guard.leave_steps(),
        vec![
            TerminalStep::PopKeyboardFlags,
            TerminalStep::DisableRawMode,
            TerminalStep::LeaveAlternateScreen,
        ]
    );
    let guard = RawModeGuard::new(false);
    assert!(!guard.reports_key_release());
    assert_eq!(
        guard.enter_steps(),
        vec![TerminalStep::EnableRawMode, TerminalStep::EnterAlternateScreen]
    );
    assert_eq!(
        guard.leave_steps(),
        vec![TerminalStep::DisableRawMode, TerminalStep::LeaveAlternateScreen]
    );
}

#[test]
fn the_last_event_of_each_key_decides() {
    let mut keys = KeyState::from_bits(KEY_L);
    poll_keys(
        &mut keys,
        &[release('z'), press('z'), press('x'), release('a'), release('x'), press('w')],
    );
    assert_eq!(keys.bits(), KEY_A);
}

use device_query::Keycode;
use evdev::KeyCode;
use voice_flow::platform::Platform;
use voice_flow::shortcut::keys::{find_key, map_key};
use voice_flow::shortcut::linux::{
    apply_events, current_keys, is_keyboard, DeviceStates, KeyEvent, KeyboardMonitor, ScanReport,
};
use voice_flow::shortcut::{
    shortcut_edge, PressedKeys, ShortcutBinding, ShortcutError, ShortcutEvent,
};

fn pressed(keys: &[Keycode]) -> PressedKeys {
    let mut result = PressedKeys::new();
    for key in keys {
        result.insert(*key);
    }
    result
}

#[test]
fn accepts_a_single_modifier_with_side_information() {
    let left = ShortcutBinding::parse("MetaLeft", Platform::Linux).unwrap();
    let right = ShortcutBinding::parse("MetaRight", Platform::Linux).unwrap();
    assert_eq!(left.to_string(), "Command");
    assert_eq!(right.to_string(), "RCommand");
    assert_ne!(left, right);
}

#[test]
fn accepts_an_unmodified_regular_key() {
    let binding = ShortcutBinding::parse("KeyC", Platform::Linux).unwrap();
    assert_eq!(binding.to_string(), "C");
}

#[test]
fn matches_all_keys_in_a_chord() {
    let binding = ShortcutBinding::parse("ControlLeft+KeyC", Platform::Linux).unwrap();
    let pressed = pressed(&[Keycode::LControl, Keycode::C]);
    assert!(binding.is_pressed(&pressed));
}

#[test]
fn maps_linux_modifier_sides_to_canonical_shortcut_keys() {
    assert_eq!(map_key(KeyCode::KEY_LEFTMETA.code()), Some(Keycode::Command));
    assert_eq!(map_key(KeyCode::KEY_RIGHTMETA.code()), Some(Keycode::RCommand));
    assert_eq!(map_key(KeyCode::KEY_LEFTALT.code()), Some(Keycode::LOption));
    assert_eq!(map_key(KeyCode::KEY_RIGHTALT.code()), Some(Keycode::ROption));
}

#[test]
fn key_codes_are_those_of_the_input_events() {
    let table = [
        (KeyCode::KEY_ESC, Keycode::Escape),
        (KeyCode::KEY_1, Keycode::Key1),
        (KeyCode::KEY_2, Keycode::Key2),
        (KeyCode::KEY_3, Keycode::Key3),
        (KeyCode::KEY_4, Keycode::Key4),
        (KeyCode::KEY_5, Keycode::Key5),
        (KeyCode::KEY_6, Keycode::Key6),
        (KeyCode::KEY_7, Keycode::Key7),
        (KeyCode::KEY_8, Keycode::Key8),
        (KeyCode::KEY_9, Keycode::Key9),
        (KeyCode::KEY_0, Keycode::Key0),
        (KeyCode::KEY_MINUS, Keycode::Minus),
        (KeyCode::KEY_EQUAL, Keycode::Equal),
        (KeyCode::KEY_BACKSPACE, Keycode::Backspace),
        (KeyCode::KEY_TAB, Keycode::Tab),
        (KeyCode::KEY_Q, Keycode::Q),
        (KeyCode::KEY_W, Keycode::W),
        (KeyCode::KEY_E, Keycode::E),
        (KeyCode::KEY_R, Keycode::R),
        (KeyCode::KEY_T, Keycode::T),
        (KeyCode::KEY_Y, Keycode::Y),
        (KeyCode::KEY_U, Keycode::U),
        (KeyCode::KEY_I, Keycode::I),
        (KeyCode::KEY_O, Keycode::O),
        (KeyCode::KEY_P, Keycode::P),
        (KeyCode::KEY_LEFTBRACE, Keycode::LeftBracket),
        (KeyCode::KEY_RIGHTBRACE, Keycode::RightBracket),
        (KeyCode::KEY_ENTER, Keycode::Enter),
        (KeyCode::KEY_LEFTCTRL, Keycode::LControl),
        (KeyCode::KEY_A, Keycode::A),
        (KeyCode::KEY_S, Keycode::S),
        (KeyCode::KEY_D, Keycode::D),
        (KeyCode::KEY_F, Keycode::F),
        (KeyCode::KEY_G, Keycode::G),
        (KeyCode::KEY_H, Keycode::H),
        (KeyCode::KEY_J, Keycode::J),
        (KeyCode::KEY_K, Keycode::K),
        (KeyCode::KEY_L, Keycode::L),
        (KeyCode::KEY_SEMICOLON, Keycode::Semicolon),
        (KeyCode::KEY_APOSTROPHE, Keycode::Apostrophe),
        (KeyCode::KEY_GRAVE, Keycode::Grave),
        (KeyCode::KEY_LEFTSHIFT, Keycode::LShift),
        (KeyCode::KEY_BACKSLASH, Keycode::BackSlash),
        (KeyCode::KEY_Z, Keycode::Z),
        (KeyCode::KEY_X, Keycode::X),
        (KeyCode::KEY_C, Keycode::C),
        (KeyCode::KEY_V, Keycode::V),
        (KeyCode::KEY_B, Keycode::B),
        (KeyCode::KEY_N, Keycode::N),
        (KeyCode::KEY_M, Keycode::M),
        (KeyCode::KEY_COMMA, Keycode::Comma),
        (KeyCode::KEY_DOT, Keycode::Dot),
        (KeyCode::KEY_SLASH, Keycode::Slash),
        (KeyCode::KEY_RIGHTSHIFT, Keycode::RShift),
        (KeyCode::KEY_KPASTERISK, Keycode::NumpadMultiply),
        (KeyCode::KEY_LEFTALT, Keycode::LOption),
        (KeyCode::KEY_SPACE, Keycode::Space),
        (KeyCode::KEY_CAPSLOCK, Keycode::CapsLock),
        (KeyCode::KEY_F1, Keycode::F1),
        (KeyCode::KEY_F2, Keycode::F2),
        (KeyCode::KEY_F3, Keycode::F3),
        (KeyCode::KEY_F4, Keycode::F4),
        (KeyCode::KEY_F5, Keycode::F5),
        (KeyCode::KEY_F6, Keycode::F6),
        (KeyCode::KEY_F7, Keycode::F7),
        (KeyCode::KEY_F8, Keycode::F8),
        (KeyCode::KEY_F9, Keycode::F9),
        (KeyCode::KEY_F10, Keycode::F10),
        (KeyCode::KEY_KP7, Keycode::Numpad7),
        (KeyCode::KEY_KP8, Keycode::Numpad8),
        (KeyCode::KEY_KP9, Keycode::Numpad9),
        (KeyCode::KEY_KPMINUS, Keycode::NumpadSubtract),
        (KeyCode::KEY_KP4, Keycode::Numpad4),
        (KeyCode::KEY_KP5, Keycode::Numpad5),
        (KeyCode::KEY_KP6, Keycode::Numpad6),
        (KeyCode::KEY_KPPLUS, Keycode::NumpadAdd),
        (KeyCode::KEY_KP1, Keycode::Numpad1),
        (KeyCode::KEY_KP2, Keycode::Numpad2),
        (KeyCode::KEY_KP3, Keycode::Numpad3),
        (KeyCode::KEY_KP0, Keycode::Numpad0),
        (KeyCode::KEY_KPDOT, Keycode::NumpadDecimal),
        (KeyCode::KEY_F11, Keycode::F11),
        (KeyCode::KEY_F12, Keycode::F12),
        (KeyCode::KEY_KPENTER, Keycode::NumpadEnter),
        (KeyCode::KEY_RIGHTCTRL, Keycode::RControl),
        (KeyCode::KEY_KPSLASH, Keycode::NumpadDivide),
        (KeyCode::KEY_RIGHTALT, Keycode::ROption),
        (KeyCode::KEY_HOME, Keycode::Home),
        (KeyCode::KEY_UP, Keycode::Up),
        (KeyCode::KEY_PAGEUP, Keycode::PageUp),
        (KeyCode::KEY_LEFT, Keycode::Left),
        (KeyCode::KEY_RIGHT, Keycode::Right),
        (KeyCode::KEY_END, Keycode::End),
        (KeyCode::KEY_DOWN, Keycode::Down),
        (KeyCode::KEY_PAGEDOWN, Keycode::PageDown),
        (KeyCode::KEY_INSERT, Keycode::Insert),
        (KeyCode::KEY_DELETE, Keycode::Delete),
        (KeyCode::KEY_KPEQUAL, Keycode::NumpadEquals),
        (KeyCode::KEY_LEFTMETA, Keycode::Command),
        (KeyCode::KEY_RIGHTMETA, Keycode::RCommand),
        (KeyCode::KEY_F13, Keycode::F13),
        (KeyCode::KEY_F14, Keycode::F14),
        (KeyCode::KEY_F15, Keycode::F15),
        (KeyCode::KEY_F16, Keycode::F16),
        (KeyCode::KEY_F17, Keycode::F17),
        (KeyCode::KEY_F18, Keycode::F18),
        (KeyCode::KEY_F19, Keycode::F19),
        (KeyCode::KEY_F20, Keycode::F20),
    ];
    for (code, key) in table {
        assert_eq!(map_key(code.code()), Some(key));
    }
    let mapped = (0..=u16::MAX).filter(|code| map_key(*code).is_some()).count();
    assert_eq!(mapped, table.len());
}

#[test]
fn incomplete_chords_do_not_match() {
    let binding = ShortcutBinding::parse("ControlLeft+KeyC", Platform::Linux).unwrap();
    assert!(!binding.is_pressed(&pressed(&[Keycode::LControl])));
    assert!(!binding.is_pressed(&PressedKeys::new()));
    assert!(binding.is_pressed(&pressed(&[Keycode::C, Keycode::A, Keycode::LControl])));
    assert_eq!(binding.copied(), binding);
}

#[test]
fn aliases_stand_for_keys() {
    let cases = [
        ("Cmd", "Command"),
        ("Super", "Command"),
        ("Ctrl", "LControl"),
        ("ControlRight", "RControl"),
        ("Shift", "LShift"),
        ("ShiftRight", "RShift"),
        ("Alt", "LOption"),
        ("AltRight", "ROption"),
        ("ArrowUp", "Up"),
        ("ArrowDown", "Down"),
        ("ArrowLeft", "Left"),
        ("ArrowRight", "Right"),
        ("Backquote", "Grave"),
        ("BracketLeft", "LeftBracket"),
        ("BracketRight", "RightBracket"),
        ("Backslash", "BackSlash"),
        ("Quote", "Apostrophe"),
        ("Period", "Dot"),
        ("NumpadEqual", "NumpadEquals"),
        ("F20", "F20"),
        ("LMeta", "LMeta"),
        (" Escape ", "Escape"),
    ];
    for (written, name) in cases {
        let binding = ShortcutBinding::parse(written, Platform::Linux).unwrap();
        assert_eq!(binding.to_string(), name);
    }
    let binding = ShortcutBinding::parse("CmdOrCtrl", Platform::MacOs).unwrap();
    assert_eq!(binding.to_string(), "Command");
    let binding = ShortcutBinding::parse("CommandOrControl", Platform::Linux).unwrap();
    assert_eq!(binding.to_string(), "LControl");
}

#[test]
fn shortcut_errors_are_told_apart() {
    for empty in ["", "  ", "+", "A+", "+A", "A++B"] {
        assert!(matches!(
            ShortcutBinding::parse(empty, Platform::Linux),
            Err(ShortcutError::Empty)
        ));
    }
    let error = ShortcutBinding::parse("A+Hyper", Platform::Linux).unwrap_err();
    assert_eq!(error.message(), "Unsupported shortcut key: Hyper");
    let error = ShortcutBinding::parse("KeyA+A", Platform::Linux).unwrap_err();
    assert_eq!(error.message(), "Shortcut contains the same key more than once: A");
    assert_eq!(ShortcutError::Empty.message(), "A shortcut must contain at least one key");
}

#[test]
fn digit_keys_are_written_with_their_code() {
    let binding = ShortcutBinding::parse("Digit5", Platform::Linux).unwrap();
    assert_eq!(binding.to_string(), "Key5");
    assert_eq!(ShortcutBinding::parse("Key5", Platform::Linux).unwrap(), binding);
    assert!(ShortcutBinding::parse("5", Platform::Linux).is_err());
    assert_eq!(ShortcutBinding::parse("KeyK", Platform::Linux).unwrap().to_string(), "K");
}

#[test]
fn shortcut_texts_read_back() {
    for text in ["Command+LShift+Space", "RControl", " Ctrl + Alt + KeyT ", "NumpadAdd+F1", "Digit0+Key9"] {
        let binding = ShortcutBinding::parse(text, Platform::Linux).unwrap();
        let again = ShortcutBinding::parse(&binding.to_string(), Platform::Linux).unwrap();
        assert_eq!(binding, again);
    }
}

#[test]
fn every_key_is_found_by_its_name() {
    for code in 0..=u16::MAX {
        if let Some(key) = map_key(code) {
            assert_eq!(find_key(&key.to_string()), Some(key));
        }
    }
    assert_eq!(find_key("LAlt"), Some(Keycode::LAlt));
    assert_eq!(find_key("lalt"), None);
    assert_eq!(find_key(""), None);
}

#[test]
fn edges_are_reported_once() {
    let mut was_pressed = false;
    assert_eq!(shortcut_edge(&mut was_pressed, false), None);
    assert_eq!(shortcut_edge(&mut was_pressed, true), Some(ShortcutEvent::Pressed));
    assert_eq!(shortcut_edge(&mut was_pressed, true), None);
    assert_eq!(shortcut_edge(&mut was_pressed, false), Some(ShortcutEvent::Released));
}

#[test]
fn key_events_change_the_pressed_keys() {
    let mut keys = PressedKeys::new();
    let press = |code: KeyCode, value: i32| KeyEvent { code: code.code(), value };
    assert!(apply_events(&mut keys, &[press(KeyCode::KEY_A, 1)]));
    assert!(keys.contains(Keycode::A));
    assert!(!apply_events(&mut keys, &[press(KeyCode::KEY_A, 1), press(KeyCode::KEY_A, 2)]));
    assert!(!apply_events(&mut keys, &[press(KeyCode::BTN_LEFT, 1), press(KeyCode::KEY_B, 0)]));
    assert!(apply_events(&mut keys, &[press(KeyCode::KEY_A, 0), press(KeyCode::KEY_A, 1)]));
    assert!(apply_events(&mut keys, &[press(KeyCode::KEY_A, 0)]));
    assert!(!keys.contains(Keycode::A));
    assert!(!apply_events(&mut keys, &[]));
}

#[test]
fn current_keys_are_mapped() {
    let keys = current_keys(&[KeyCode::KEY_LEFTCTRL.code(), KeyCode::BTN_LEFT.code()]);
    assert!(keys.contains(Keycode::LControl));
    assert!(!keys.contains(Keycode::C));
    assert!(keys.copied().contains(Keycode::LControl));
}

#[test]
fn keyboards_are_recognized() {
    let codes = [
        KeyCode::KEY_A.code(),
        KeyCode::KEY_Z.code(),
        KeyCode::KEY_SPACE.code(),
        KeyCode::KEY_ENTER.code(),
    ];
    assert!(is_keyboard(Some(&codes)));
    for missing in 0..codes.len() {
        let mut fewer = codes.to_vec();
        fewer.remove(missing);
        assert!(!is_keyboard(Some(&fewer)));
    }
    assert!(!is_keyboard(None));
}

#[test]
fn pressed_keys_are_a_set() {
    let mut keys = PressedKeys::new();
    assert!(keys.insert(Keycode::A));
    assert!(!keys.insert(Keycode::A));
    assert!(keys.remove(Keycode::A));
    assert!(!keys.remove(Keycode::A));
    let mut more = pressed(&[Keycode::B]);
    more.add_all(&pressed(&[Keycode::B, Keycode::C]));
    assert!(more.contains(Keycode::B) && more.contains(Keycode::C));
}

#[test]
fn device_states_are_combined() {
    let mut states = DeviceStates::new();
    states.insert("a", pressed(&[Keycode::LControl]));
    states.insert("b", pressed(&[Keycode::C]));
    states.insert("a", pressed(&[Keycode::LShift]));
    let keys = states.pressed();
    assert!(keys.contains(Keycode::LShift) && keys.contains(Keycode::C));
    assert!(!keys.contains(Keycode::LControl));
    states.remove("b");
    states.remove("unknown");
    assert!(!states.pressed().contains(Keycode::C));
}

#[test]
fn monitor_follows_devices() {
    let binding = ShortcutBinding::parse("LControl+C", Platform::Linux).unwrap();
    let keyboard = [30, 44, 57, 28];
    let mut monitor = KeyboardMonitor::new();
    assert_eq!(monitor.scanned(0), ScanReport::MissingPermission);
    assert_eq!(monitor.scanned(0), ScanReport::Nothing);
    assert!(monitor.wants("/dev/a", Some(&keyboard)));
    assert!(!monitor.wants("/dev/a", Some(&[30])));
    monitor.watch("/dev/a");
    monitor.watch("/dev/b");
    monitor.watch("/dev/a");
    assert_eq!(monitor.known.len(), 2);
    assert!(!monitor.wants("/dev/a", Some(&keyboard)));
    assert_eq!(monitor.scanned(2), ScanReport::Started);
    assert!(!monitor.reported_missing_permission);

    monitor.on_state("/dev/a", pressed(&[Keycode::LControl]));
    assert_eq!(monitor.check(&binding), None);
    monitor.on_state("/dev/b", pressed(&[Keycode::C]));
    assert_eq!(monitor.check(&binding), Some(ShortcutEvent::Pressed));
    assert_eq!(monitor.check(&binding), None);
    monitor.on_disconnected("/dev/b");
    assert!(!monitor.knows("/dev/b") && monitor.knows("/dev/a"));
    assert_eq!(monitor.check(&binding), Some(ShortcutEvent::Released));
}

//! The keys that a shortcut can be made of.

use std::str::FromStr;

use device_query::Keycode;
use vstd::prelude::*;

verus! {

/// `device_query::Keycode`, with its variants.
#[verifier::external_type_specification]
pub struct ExKeycode(Keycode);

/// `==` on `device_query::Keycode`, which has variants without fields: it compares them.
pub assume_specification[ <Keycode as PartialEq>::eq ](left: &Keycode, right: &Keycode) -> (result:
    bool)
    ensures
        result == (*left == *right),
;

/// The name of a key.
pub open spec fn key_name(key: Keycode) -> Seq<char> {
    match key {
        Keycode::Key0 => "Key0"@,
        Keycode::Key1 => "Key1"@,
        Keycode::Key2 => "Key2"@,
        Keycode::Key3 => "Key3"@,
        Keycode::Key4 => "Key4"@,
        Keycode::Key5 => "Key5"@,
        Keycode::Key6 => "Key6"@,
        Keycode::Key7 => "Key7"@,
        Keycode::Key8 => "Key8"@,
        Keycode::Key9 => "Key9"@,
        Keycode::A => "A"@,
        Keycode::B => "B"@,
        Keycode::C => "C"@,
        Keycode::D => "D"@,
        Keycode::E => "E"@,
        Keycode::F => "F"@,
        Keycode::G => "G"@,
        Keycode::H => "H"@,
        Keycode::I => "I"@,
        Keycode::J => "J"@,
        Keycode::K => "K"@,
        Keycode::L => "L"@,
        Keycode::M => "M"@,
        Keycode::N => "N"@,
        Keycode::O => "O"@,
        Keycode::P => "P"@,
        Keycode::Q => "Q"@,
        Keycode::R => "R"@,
        Keycode::S => "S"@,
        Keycode::T => "T"@,
        Keycode::U => "U"@,
        Keycode::V => "V"@,
        Keycode::W => "W"@,
        Keycode::X => "X"@,
        Keycode::Y => "Y"@,
        Keycode::Z => "Z"@,
        Keycode::F1 => "F1"@,
        Keycode::F2 => "F2"@,
        Keycode::F3 => "F3"@,
        Keycode::F4 => "F4"@,
        Keycode::F5 => "F5"@,
        Keycode::F6 => "F6"@,
        Keycode::F7 => "F7"@,
        Keycode::F8 => "F8"@,
        Keycode::F9 => "F9"@,
        Keycode::F10 => "F10"@,
        Keycode::F11 => "F11"@,
        Keycode::F12 => "F12"@,
        Keycode::F13 => "F13"@,
        Keycode::F14 => "F14"@,
        Keycode::F15 => "F15"@,
        Keycode::F16 => "F16"@,
        Keycode::F17 => "F17"@,
        Keycode::F18 => "F18"@,
        Keycode::F19 => "F19"@,
        Keycode::F20 => "F20"@,
        Keycode::Escape => "Escape"@,
        Keycode::Space => "Space"@,
        Keycode::LControl => "LControl"@,
        Keycode::RControl => "RControl"@,
        Keycode::LShift => "LShift"@,
        Keycode::RShift => "RShift"@,
        Keycode::LAlt => "LAlt"@,
        Keycode::RAlt => "RAlt"@,
        Keycode::Command => "Command"@,
        Keycode::RCommand => "RCommand"@,
        Keycode::LOption => "LOption"@,
        Keycode::ROption => "ROption"@,
        Keycode::LMeta => "LMeta"@,
        Keycode::RMeta => "RMeta"@,
        Keycode::Enter => "Enter"@,
        Keycode::Up => "Up"@,
        Keycode::Down => "Down"@,
        Keycode::Left => "Left"@,
        Keycode::Right => "Right"@,
        Keycode::Backspace => "Backspace"@,
        Keycode::CapsLock => "CapsLock"@,
        Keycode::Tab => "Tab"@,
        Keycode::Home => "Home"@,
        Keycode::End => "End"@,
        Keycode::PageUp => "PageUp"@,
        Keycode::PageDown => "PageDown"@,
        Keycode::Insert => "Insert"@,
        Keycode::Delete => "Delete"@,
        Keycode::Numpad0 => "Numpad0"@,
        Keycode::Numpad1 => "Numpad1"@,
        Keycode::Numpad2 => "Numpad2"@,
        Keycode::Numpad3 => "Numpad3"@,
        Keycode::Numpad4 => "Numpad4"@,
        Keycode::Numpad5 => "Numpad5"@,
        Keycode::Numpad6 => "Numpad6"@,
        Keycode::Numpad7 => "Numpad7"@,
        Keycode::Numpad8 => "Numpad8"@,
        Keycode::Numpad9 => "Numpad9"@,
        Keycode::NumpadSubtract => "NumpadSubtract"@,
        Keycode::NumpadAdd => "NumpadAdd"@,
        Keycode::NumpadDivide => "NumpadDivide"@,
        Keycode::NumpadMultiply => "NumpadMultiply"@,
        Keycode::NumpadEquals => "NumpadEquals"@,
        Keycode::NumpadEnter => "NumpadEnter"@,
        Keycode::NumpadDecimal => "NumpadDecimal"@,
        Keycode::Grave => "Grave"@,
        Keycode::Minus => "Minus"@,
        Keycode::Equal => "Equal"@,
        Keycode::LeftBracket => "LeftBracket"@,
        Keycode::RightBracket => "RightBracket"@,
        Keycode::BackSlash => "BackSlash"@,
        Keycode::Semicolon => "Semicolon"@,
        Keycode::Apostrophe => "Apostrophe"@,
        Keycode::Comma => "Comma"@,
        Keycode::Dot => "Dot"@,
        Keycode::Slash => "Slash"@,
    }
}

/// The key with a given name.
pub open spec fn key_named(name: Seq<char>) -> Option<Keycode> {
    if exists|key: Keycode| #[trigger] key_name(key) == name {
        Some(choose|key: Keycode| #[trigger] key_name(key) == name)
    } else {
        None
    }
}

/// The code of the character at `index`, or -1 behind the end.
pub open spec fn code_at(s: Seq<char>, index: int) -> int {
    if index < s.len() {
        s[index] as int
    } else {
        -1
    }
}

/// The length of a name and its first characters, which tell all names apart.
pub open spec fn codes(s: Seq<char>) -> (nat, int, int, int, int, int, int, int, int) {
    (
        s.len(),
        code_at(s, 0),
        code_at(s, 1),
        code_at(s, 2),
        code_at(s, 3),
        code_at(s, 4),
        code_at(s, 5),
        code_at(s, 6),
        code_at(s, 7),
    )
}

/// No two keys share a name.
#[verifier::rlimit(100)]
pub proof fn law_key_names_differ(left: Keycode, right: Keycode)
    requires
        key_name(left) == key_name(right),
    ensures
        left == right,
{
    reveal_strlit("Key0");
    reveal_strlit("Key1");
    reveal_strlit("Key2");
    reveal_strlit("Key3");
    reveal_strlit("Key4");
    reveal_strlit("Key5");
    reveal_strlit("Key6");
    reveal_strlit("Key7");
    reveal_strlit("Key8");
    reveal_strlit("Key9");
    reveal_strlit("A");
    reveal_strlit("B");
    reveal_strlit("C");
    reveal_strlit("D");
    reveal_strlit("E");
    reveal_strlit("F");
    reveal_strlit("G");
    reveal_strlit("H");
    reveal_strlit("I");
    reveal_strlit("J");
    reveal_strlit("K");
    reveal_strlit("L");
    reveal_strlit("M");
    reveal_strlit("N");
    reveal_strlit("O");
    reveal_strlit("P");
    reveal_strlit("Q");
    reveal_strlit("R");
    reveal_strlit("S");
    reveal_strlit("T");
    reveal_strlit("U");
    reveal_strlit("V");
    reveal_strlit("W");
    reveal_strlit("X");
    reveal_strlit("Y");
    reveal_strlit("Z");
    reveal_strlit("F1");
    reveal_strlit("F2");
    reveal_strlit("F3");
    reveal_strlit("F4");
    reveal_strlit("F5");
    reveal_strlit("F6");
    reveal_strlit("F7");
    reveal_strlit("F8");
    reveal_strlit("F9");
    reveal_strlit("F10");
    reveal_strlit("F11");
    reveal_strlit("F12");
    reveal_strlit("F13");
    reveal_strlit("F14");
    reveal_strlit("F15");
    reveal_strlit("F16");
    reveal_strlit("F17");
    reveal_strlit("F18");
    reveal_strlit("F19");
    reveal_strlit("F20");
    reveal_strlit("Escape");
    reveal_strlit("Space");
    reveal_strlit("LControl");
    reveal_strlit("RControl");
    reveal_strlit("LShift");
    reveal_strlit("RShift");
    reveal_strlit("LAlt");
    reveal_strlit("RAlt");
    reveal_strlit("Command");
    reveal_strlit("RCommand");
    reveal_strlit("LOption");
    reveal_strlit("ROption");
    reveal_strlit("LMeta");
    reveal_strlit("RMeta");
    reveal_strlit("Enter");
    reveal_strlit("Up");
    reveal_strlit("Down");
    reveal_strlit("Left");
    reveal_strlit("Right");
    reveal_strlit("Backspace");
    reveal_strlit("CapsLock");
    reveal_strlit("Tab");
    reveal_strlit("Home");
    reveal_strlit("End");
    reveal_strlit("PageUp");
    reveal_strlit("PageDown");
    reveal_strlit("Insert");
    reveal_strlit("Delete");
    reveal_strlit("Numpad0");
    reveal_strlit("Numpad1");
    reveal_strlit("Numpad2");
    reveal_strlit("Numpad3");
    reveal_strlit("Numpad4");
    reveal_strlit("Numpad5");
    reveal_strlit("Numpad6");
    reveal_strlit("Numpad7");
    reveal_strlit("Numpad8");
    reveal_strlit("Numpad9");
    reveal_strlit("NumpadSubtract");
    reveal_strlit("NumpadAdd");
    reveal_strlit("NumpadDivide");
    reveal_strlit("NumpadMultiply");
    reveal_strlit("NumpadEquals");
    reveal_strlit("NumpadEnter");
    reveal_strlit("NumpadDecimal");
    reveal_strlit("Grave");
    reveal_strlit("Minus");
    reveal_strlit("Equal");
    reveal_strlit("LeftBracket");
    reveal_strlit("RightBracket");
    reveal_strlit("BackSlash");
    reveal_strlit("Semicolon");
    reveal_strlit("Apostrophe");
    reveal_strlit("Comma");
    reveal_strlit("Dot");
    reveal_strlit("Slash");
    assert(codes(key_name(left)) == codes(key_name(right)));
}

/// A letter or a digit of ASCII.
pub open spec fn letter_or_digit(c: char) -> bool {
    ||| 'a' <= c <= 'z'
    ||| 'A' <= c <= 'Z'
    ||| '0' <= c <= '9'
}

/// Every name is made of letters and digits.
#[verifier::rlimit(100)]
pub proof fn lemma_names_are_plain(key: Keycode)
    ensures
        key_name(key).len() > 0,
        forall|i: int| 0 <= i < key_name(key).len() ==> letter_or_digit(#[trigger] key_name(key)[i]),
{
    reveal_strlit("Key0");
    reveal_strlit("Key1");
    reveal_strlit("Key2");
    reveal_strlit("Key3");
    reveal_strlit("Key4");
    reveal_strlit("Key5");
    reveal_strlit("Key6");
    reveal_strlit("Key7");
    reveal_strlit("Key8");
    reveal_strlit("Key9");
    reveal_strlit("A");
    reveal_strlit("B");
    reveal_strlit("C");
    reveal_strlit("D");
    reveal_strlit("E");
    reveal_strlit("F");
    reveal_strlit("G");
    reveal_strlit("H");
    reveal_strlit("I");
    reveal_strlit("J");
    reveal_strlit("K");
    reveal_strlit("L");
    reveal_strlit("M");
    reveal_strlit("N");
    reveal_strlit("O");
    reveal_strlit("P");
    reveal_strlit("Q");
    reveal_strlit("R");
    reveal_strlit("S");
    reveal_strlit("T");
    reveal_strlit("U");
    reveal_strlit("V");
    reveal_strlit("W");
    reveal_strlit("X");
    reveal_strlit("Y");
    reveal_strlit("Z");
    reveal_strlit("F1");
    reveal_strlit("F2");
    reveal_strlit("F3");
    reveal_strlit("F4");
    reveal_strlit("F5");
    reveal_strlit("F6");
    reveal_strlit("F7");
    reveal_strlit("F8");
    reveal_strlit("F9");
    reveal_strlit("F10");
    reveal_strlit("F11");
    reveal_strlit("F12");
    reveal_strlit("F13");
    reveal_strlit("F14");
    reveal_strlit("F15");
    reveal_strlit("F16");
    reveal_strlit("F17");
    reveal_strlit("F18");
    reveal_strlit("F19");
    reveal_strlit("F20");
    reveal_strlit("Escape");
    reveal_strlit("Space");
    reveal_strlit("LControl");
    reveal_strlit("RControl");
    reveal_strlit("LShift");
    reveal_strlit("RShift");
    reveal_strlit("LAlt");
    reveal_strlit("RAlt");
    reveal_strlit("Command");
    reveal_strlit("RCommand");
    reveal_strlit("LOption");
    reveal_strlit("ROption");
    reveal_strlit("LMeta");
    reveal_strlit("RMeta");
    reveal_strlit("Enter");
    reveal_strlit("Up");
    reveal_strlit("Down");
    reveal_strlit("Left");
    reveal_strlit("Right");
    reveal_strlit("Backspace");
    reveal_strlit("CapsLock");
    reveal_strlit("Tab");
    reveal_strlit("Home");
    reveal_strlit("End");
    reveal_strlit("PageUp");
    reveal_strlit("PageDown");
    reveal_strlit("Insert");
    reveal_strlit("Delete");
    reveal_strlit("Numpad0");
    reveal_strlit("Numpad1");
    reveal_strlit("Numpad2");
    reveal_strlit("Numpad3");
    reveal_strlit("Numpad4");
    reveal_strlit("Numpad5");
    reveal_strlit("Numpad6");
    reveal_strlit("Numpad7");
    reveal_strlit("Numpad8");
    reveal_strlit("Numpad9");
    reveal_strlit("NumpadSubtract");
    reveal_strlit("NumpadAdd");
    reveal_strlit("NumpadDivide");
    reveal_strlit("NumpadMultiply");
    reveal_strlit("NumpadEquals");
    reveal_strlit("NumpadEnter");
    reveal_strlit("NumpadDecimal");
    reveal_strlit("Grave");
    reveal_strlit("Minus");
    reveal_strlit("Equal");
    reveal_strlit("LeftBracket");
    reveal_strlit("RightBracket");
    reveal_strlit("BackSlash");
    reveal_strlit("Semicolon");
    reveal_strlit("Apostrophe");
    reveal_strlit("Comma");
    reveal_strlit("Dot");
    reveal_strlit("Slash");
    let name = key_name(key);
    assert(0 < name.len() <= 14);
    assert(0 < name.len() ==> letter_or_digit(name[0]));
    assert(1 < name.len() ==> letter_or_digit(name[1]));
    assert(2 < name.len() ==> letter_or_digit(name[2]));
    assert(3 < name.len() ==> letter_or_digit(name[3]));
    assert(4 < name.len() ==> letter_or_digit(name[4]));
    assert(5 < name.len() ==> letter_or_digit(name[5]));
    assert(6 < name.len() ==> letter_or_digit(name[6]));
    assert(7 < name.len() ==> letter_or_digit(name[7]));
    assert(8 < name.len() ==> letter_or_digit(name[8]));
    assert(9 < name.len() ==> letter_or_digit(name[9]));
    assert(10 < name.len() ==> letter_or_digit(name[10]));
    assert(11 < name.len() ==> letter_or_digit(name[11]));
    assert(12 < name.len() ==> letter_or_digit(name[12]));
    assert(13 < name.len() ==> letter_or_digit(name[13]));
}

/// Every key is found by its name.
pub proof fn law_key_has_its_name(key: Keycode)
    ensures
        key_named(key_name(key)) == Some(key),
{
    let found = choose|other: Keycode| #[trigger] key_name(other) == key_name(key);
    law_key_names_differ(found, key);
}

/// Calls `<Keycode as FromStr>::from_str`: it knows every key by the name of its variant
/// and nothing else.
#[verifier::external_body]
fn keycode_from_str(name: &str) -> (result: Result<Keycode, String>)
    ensures
        match result {
            Ok(key) => key_name(key) == name@,
            Err(_) => forall|key: Keycode| #[trigger] key_name(key) != name@,
        },
{
    Keycode::from_str(name)
}

/// Calls `<Keycode as ToString>::to_string`, which writes the name of the variant.
#[verifier::external_body]
pub(crate) fn keycode_to_string(key: &Keycode) -> (result: String)
    ensures
        result@ == key_name(*key),
{
    key.to_string()
}

/// The key with a given name.
pub fn find_key(name: &str) -> (result: Option<Keycode>)
    ensures
        result == key_named(name@),
{
    match keycode_from_str(name) {
        Ok(key) => {
            proof {
                law_key_has_its_name(key);
            }
            Some(key)
        },
        Err(_) => None,
    }
}

/// The key that a Linux input event code stands for.
pub open spec fn linux_key(code: u16) -> Option<Keycode> {
    match code {
        1 => Some(Keycode::Escape),
        2 => Some(Keycode::Key1),
        3 => Some(Keycode::Key2),
        4 => Some(Keycode::Key3),
        5 => Some(Keycode::Key4),
        6 => Some(Keycode::Key5),
        7 => Some(Keycode::Key6),
        8 => Some(Keycode::Key7),
        9 => Some(Keycode::Key8),
        10 => Some(Keycode::Key9),
        11 => Some(Keycode::Key0),
        12 => Some(Keycode::Minus),
        13 => Some(Keycode::Equal),
        14 => Some(Keycode::Backspace),
        15 => Some(Keycode::Tab),
        16 => Some(Keycode::Q),
        17 => Some(Keycode::W),
        18 => Some(Keycode::E),
        19 => Some(Keycode::R),
        20 => Some(Keycode::T),
        21 => Some(Keycode::Y),
        22 => Some(Keycode::U),
        23 => Some(Keycode::I),
        24 => Some(Keycode::O),
        25 => Some(Keycode::P),
        26 => Some(Keycode::LeftBracket),
        27 => Some(Keycode::RightBracket),
        28 => Some(Keycode::Enter),
        29 => Some(Keycode::LControl),
        30 => Some(Keycode::A),
        31 => Some(Keycode::S),
        32 => Some(Keycode::D),
        33 => Some(Keycode::F),
        34 => Some(Keycode::G),
        35 => Some(Keycode::H),
        36 => Some(Keycode::J),
        37 => Some(Keycode::K),
        38 => Some(Keycode::L),
        39 => Some(Keycode::Semicolon),
        40 => Some(Keycode::Apostrophe),
        41 => Some(Keycode::Grave),
        42 => Some(Keycode::LShift),
        43 => Some(Keycode::BackSlash),
        44 => Some(Keycode::Z),
        45 => Some(Keycode::X),
        46 => Some(Keycode::C),
        47 => Some(Keycode::V),
        48 => Some(Keycode::B),
        49 => Some(Keycode::N),
        50 => Some(Keycode::M),
        51 => Some(Keycode::Comma),
        52 => Some(Keycode::Dot),
        53 => Some(Keycode::Slash),
        54 => Some(Keycode::RShift),
        55 => Some(Keycode::NumpadMultiply),
        56 => Some(Keycode::LOption),
        57 => Some(Keycode::Space),
        58 => Some(Keycode::CapsLock),
        59 => Some(Keycode::F1),
        60 => Some(Keycode::F2),
        61 => Some(Keycode::F3),
        62 => Some(Keycode::F4),
        63 => Some(Keycode::F5),
        64 => Some(Keycode::F6),
        65 => Some(Keycode::F7),
        66 => Some(Keycode::F8),
        67 => Some(Keycode::F9),
        68 => Some(Keycode::F10),
        71 => Some(Keycode::Numpad7),
        72 => Some(Keycode::Numpad8),
        73 => Some(Keycode::Numpad9),
        74 => Some(Keycode::NumpadSubtract),
        75 => Some(Keycode::Numpad4),
        76 => Some(Keycode::Numpad5),
        77 => Some(Keycode::Numpad6),
        78 => Some(Keycode::NumpadAdd),
        79 => Some(Keycode::Numpad1),
        80 => Some(Keycode::Numpad2),
        81 => Some(Keycode::Numpad3),
        82 => Some(Keycode::Numpad0),
        83 => Some(Keycode::NumpadDecimal),
        87 => Some(Keycode::F11),
        88 => Some(Keycode::F12),
        96 => Some(Keycode::NumpadEnter),
        97 => Some(Keycode::RControl),
        98 => Some(Keycode::NumpadDivide),
        100 => Some(Keycode::ROption),
        102 => Some(Keycode::Home),
        103 => Some(Keycode::Up),
        104 => Some(Keycode::PageUp),
        105 => Some(Keycode::Left),
        106 => Some(Keycode::Right),
        107 => Some(Keycode::End),
        108 => Some(Keycode::Down),
        109 => Some(Keycode::PageDown),
        110 => Some(Keycode::Insert),
        111 => Some(Keycode::Delete),
        117 => Some(Keycode::NumpadEquals),
        125 => Some(Keycode::Command),
        126 => Some(Keycode::RCommand),
        183 => Some(Keycode::F13),
        184 => Some(Keycode::F14),
        185 => Some(Keycode::F15),
        186 => Some(Keycode::F16),
        187 => Some(Keycode::F17),
        188 => Some(Keycode::F18),
        189 => Some(Keycode::F19),
        190 => Some(Keycode::F20),
        _ => None,
    }
}

/// The key that a Linux input event code stands for.
pub fn map_key(code: u16) -> (result: Option<Keycode>)
    ensures
        result == linux_key(code),
{
    match code {
        1 => Some(Keycode::Escape),
        2 => Some(Keycode::Key1),
        3 => Some(Keycode::Key2),
        4 => Some(Keycode::Key3),
        5 => Some(Keycode::Key4),
        6 => Some(Keycode::Key5),
        7 => Some(Keycode::Key6),
        8 => Some(Keycode::Key7),
        9 => Some(Keycode::Key8),
        10 => Some(Keycode::Key9),
        11 => Some(Keycode::Key0),
        12 => Some(Keycode::Minus),
        13 => Some(Keycode::Equal),
        14 => Some(Keycode::Backspace),
        15 => Some(Keycode::Tab),
        16 => Some(Keycode::Q),
        17 => Some(Keycode::W),
        18 => Some(Keycode::E),
        19 => Some(Keycode::R),
        20 => Some(Keycode::T),
        21 => Some(Keycode::Y),
        22 => Some(Keycode::U),
        23 => Some(Keycode::I),
        24 => Some(Keycode::O),
        25 => Some(Keycode::P),
        26 => Some(Keycode::LeftBracket),
        27 => Some(Keycode::RightBracket),
        28 => Some(Keycode::Enter),
        29 => Some(Keycode::LControl),
        30 => Some(Keycode::A),
        31 => Some(Keycode::S),
        32 => Some(Keycode::D),
        33 => Some(Keycode::F),
        34 => Some(Keycode::G),
        35 => Some(Keycode::H),
        36 => Some(Keycode::J),
        37 => Some(Keycode::K),
        38 => Some(Keycode::L),
        39 => Some(Keycode::Semicolon),
        40 => Some(Keycode::Apostrophe),
        41 => Some(Keycode::Grave),
        42 => Some(Keycode::LShift),
        43 => Some(Keycode::BackSlash),
        44 => Some(Keycode::Z),
        45 => Some(Keycode::X),
        46 => Some(Keycode::C),
        47 => Some(Keycode::V),
        48 => Some(Keycode::B),
        49 => Some(Keycode::N),
        50 => Some(Keycode::M),
        51 => Some(Keycode::Comma),
        52 => Some(Keycode::Dot),
        53 => Some(Keycode::Slash),
        54 => Some(Keycode::RShift),
        55 => Some(Keycode::NumpadMultiply),
        56 => Some(Keycode::LOption),
        57 => Some(Keycode::Space),
        58 => Some(Keycode::CapsLock),
        59 => Some(Keycode::F1),
        60 => Some(Keycode::F2),
        61 => Some(Keycode::F3),
        62 => Some(Keycode::F4),
        63 => Some(Keycode::F5),
        64 => Some(Keycode::F6),
        65 => Some(Keycode::F7),
        66 => Some(Keycode::F8),
        67 => Some(Keycode::F9),
        68 => Some(Keycode::F10),
        71 => Some(Keycode::Numpad7),
        72 => Some(Keycode::Numpad8),
        73 => Some(Keycode::Numpad9),
        74 => Some(Keycode::NumpadSubtract),
        75 => Some(Keycode::Numpad4),
        76 => Some(Keycode::Numpad5),
        77 => Some(Keycode::Numpad6),
        78 => Some(Keycode::NumpadAdd),
        79 => Some(Keycode::Numpad1),
        80 => Some(Keycode::Numpad2),
        81 => Some(Keycode::Numpad3),
        82 => Some(Keycode::Numpad0),
        83 => Some(Keycode::NumpadDecimal),
        87 => Some(Keycode::F11),
        88 => Some(Keycode::F12),
        96 => Some(Keycode::NumpadEnter),
        97 => Some(Keycode::RControl),
        98 => Some(Keycode::NumpadDivide),
        100 => Some(Keycode::ROption),
        102 => Some(Keycode::Home),
        103 => Some(Keycode::Up),
        104 => Some(Keycode::PageUp),
        105 => Some(Keycode::Left),
        106 => Some(Keycode::Right),
        107 => Some(Keycode::End),
        108 => Some(Keycode::Down),
        109 => Some(Keycode::PageDown),
        110 => Some(Keycode::Insert),
        111 => Some(Keycode::Delete),
        117 => Some(Keycode::NumpadEquals),
        125 => Some(Keycode::Command),
        126 => Some(Keycode::RCommand),
        183 => Some(Keycode::F13),
        184 => Some(Keycode::F14),
        185 => Some(Keycode::F15),
        186 => Some(Keycode::F16),
        187 => Some(Keycode::F17),
        188 => Some(Keycode::F18),
        189 => Some(Keycode::F19),
        190 => Some(Keycode::F20),
        _ => None,
    }
}

} // verus!

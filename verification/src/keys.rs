//! Physical keys that shortcuts can be bound to, with their persisted names
//! and display labels.

use vstd::prelude::*;
use crate::text::{str_eq, trim, trimmed};

verus! {

/// A physical keyboard key, named after its position on a US layout.
#[derive(Clone, Copy, Debug, PartialEq, Eq, Hash, Structural)]
pub enum KeyCode {
    Escape,
    F1,
    F2,
    F3,
    F4,
    F5,
    F6,
    F7,
    F8,
    F9,
    F10,
    F11,
    F12,
    Backquote,
    Digit0,
    Digit1,
    Digit2,
    Digit3,
    Digit4,
    Digit5,
    Digit6,
    Digit7,
    Digit8,
    Digit9,
    Minus,
    Equal,
    KeyA,
    KeyB,
    KeyC,
    KeyD,
    KeyE,
    KeyF,
    KeyG,
    KeyH,
    KeyI,
    KeyJ,
    KeyK,
    KeyL,
    KeyM,
    KeyN,
    KeyO,
    KeyP,
    KeyQ,
    KeyR,
    KeyS,
    KeyT,
    KeyU,
    KeyV,
    KeyW,
    KeyX,
    KeyY,
    KeyZ,
    BracketLeft,
    BracketRight,
    Backslash,
    Semicolon,
    Quote,
    Comma,
    Period,
    Slash,
    Space,
    Tab,
    Enter,
    Backspace,
    Delete,
    Insert,
    Home,
    End,
    PageUp,
    PageDown,
    ArrowUp,
    ArrowDown,
    ArrowLeft,
    ArrowRight,
    ControlLeft,
    ControlRight,
    ShiftLeft,
    ShiftRight,
    AltLeft,
    AltRight,
    SuperLeft,
    SuperRight,
}

/// The number of keys that a shortcut may be bound to.
pub const SUPPORTED_KEY_COUNT: usize = 74;

/// Whether `code` is a modifier key (Ctrl, Shift, Alt or Super, either side).
pub open spec fn is_modifier(code: KeyCode) -> bool {
    ||| code == KeyCode::ControlLeft
    ||| code == KeyCode::ControlRight
    ||| code == KeyCode::ShiftLeft
    ||| code == KeyCode::ShiftRight
    ||| code == KeyCode::AltLeft
    ||| code == KeyCode::AltRight
    ||| code == KeyCode::SuperLeft
    ||| code == KeyCode::SuperRight
}

/// Whether `code` is a modifier key.
pub fn is_modifier_key(code: KeyCode) -> (b: bool)
    ensures
        b == is_modifier(code),
{
    match code {
        KeyCode::ControlLeft => true,
        KeyCode::ControlRight => true,
        KeyCode::ShiftLeft => true,
        KeyCode::ShiftRight => true,
        KeyCode::AltLeft => true,
        KeyCode::AltRight => true,
        KeyCode::SuperLeft => true,
        KeyCode::SuperRight => true,
        _ => false,
    }
}

/// The key at position `i` of the table of supported keys.
pub open spec fn supported_key(i: int) -> KeyCode {
    if i == 0 {
        KeyCode::Escape
    } else if i == 1 {
        KeyCode::F1
    } else if i == 2 {
        KeyCode::F2
    } else if i == 3 {
        KeyCode::F3
    } else if i == 4 {
        KeyCode::F4
    } else if i == 5 {
        KeyCode::F5
    } else if i == 6 {
        KeyCode::F6
    } else if i == 7 {
        KeyCode::F7
    } else if i == 8 {
        KeyCode::F8
    } else if i == 9 {
        KeyCode::F9
    } else if i == 10 {
        KeyCode::F10
    } else if i == 11 {
        KeyCode::F11
    } else if i == 12 {
        KeyCode::F12
    } else if i == 13 {
        KeyCode::Backquote
    } else if i == 14 {
        KeyCode::Digit0
    } else if i == 15 {
        KeyCode::Digit1
    } else if i == 16 {
        KeyCode::Digit2
    } else if i == 17 {
        KeyCode::Digit3
    } else if i == 18 {
        KeyCode::Digit4
    } else if i == 19 {
        KeyCode::Digit5
    } else if i == 20 {
        KeyCode::Digit6
    } else if i == 21 {
        KeyCode::Digit7
    } else if i == 22 {
        KeyCode::Digit8
    } else if i == 23 {
        KeyCode::Digit9
    } else if i == 24 {
        KeyCode::Minus
    } else if i == 25 {
        KeyCode::Equal
    } else if i == 26 {
        KeyCode::KeyA
    } else if i == 27 {
        KeyCode::KeyB
    } else if i == 28 {
        KeyCode::KeyC
    } else if i == 29 {
        KeyCode::KeyD
    } else if i == 30 {
        KeyCode::KeyE
    } else if i == 31 {
        KeyCode::KeyF
    } else if i == 32 {
        KeyCode::KeyG
    } else if i == 33 {
        KeyCode::KeyH
    } else if i == 34 {
        KeyCode::KeyI
    } else if i == 35 {
        KeyCode::KeyJ
    } else if i == 36 {
        KeyCode::KeyK
    } else if i == 37 {
        KeyCode::KeyL
    } else if i == 38 {
        KeyCode::KeyM
    } else if i == 39 {
        KeyCode::KeyN
    } else if i == 40 {
        KeyCode::KeyO
    } else if i == 41 {
        KeyCode::KeyP
    } else if i == 42 {
        KeyCode::KeyQ
    } else if i == 43 {
        KeyCode::KeyR
    } else if i == 44 {
        KeyCode::KeyS
    } else if i == 45 {
        KeyCode::KeyT
    } else if i == 46 {
        KeyCode::KeyU
    } else if i == 47 {
        KeyCode::KeyV
    } else if i == 48 {
        KeyCode::KeyW
    } else if i == 49 {
        KeyCode::KeyX
    } else if i == 50 {
        KeyCode::KeyY
    } else if i == 51 {
        KeyCode::KeyZ
    } else if i == 52 {
        KeyCode::BracketLeft
    } else if i == 53 {
        KeyCode::BracketRight
    } else if i == 54 {
        KeyCode::Backslash
    } else if i == 55 {
        KeyCode::Semicolon
    } else if i == 56 {
        KeyCode::Quote
    } else if i == 57 {
        KeyCode::Comma
    } else if i == 58 {
        KeyCode::Period
    } else if i == 59 {
        KeyCode::Slash
    } else if i == 60 {
        KeyCode::Space
    } else if i == 61 {
        KeyCode::Tab
    } else if i == 62 {
        KeyCode::Enter
    } else if i == 63 {
        KeyCode::Backspace
    } else if i == 64 {
        KeyCode::Delete
    } else if i == 65 {
        KeyCode::Insert
    } else if i == 66 {
        KeyCode::Home
    } else if i == 67 {
        KeyCode::End
    } else if i == 68 {
        KeyCode::PageUp
    } else if i == 69 {
        KeyCode::PageDown
    } else if i == 70 {
        KeyCode::ArrowUp
    } else if i == 71 {
        KeyCode::ArrowDown
    } else if i == 72 {
        KeyCode::ArrowLeft
    } else {
        KeyCode::ArrowRight
    }
}

/// The position of a non-modifier key in the table of supported keys.
pub open spec fn supported_index(code: KeyCode) -> int {
    match code {
        KeyCode::Escape => 0,
        KeyCode::F1 => 1,
        KeyCode::F2 => 2,
        KeyCode::F3 => 3,
        KeyCode::F4 => 4,
        KeyCode::F5 => 5,
        KeyCode::F6 => 6,
        KeyCode::F7 => 7,
        KeyCode::F8 => 8,
        KeyCode::F9 => 9,
        KeyCode::F10 => 10,
        KeyCode::F11 => 11,
        KeyCode::F12 => 12,
        KeyCode::Backquote => 13,
        KeyCode::Digit0 => 14,
        KeyCode::Digit1 => 15,
        KeyCode::Digit2 => 16,
        KeyCode::Digit3 => 17,
        KeyCode::Digit4 => 18,
        KeyCode::Digit5 => 19,
        KeyCode::Digit6 => 20,
        KeyCode::Digit7 => 21,
        KeyCode::Digit8 => 22,
        KeyCode::Digit9 => 23,
        KeyCode::Minus => 24,
        KeyCode::Equal => 25,
        KeyCode::KeyA => 26,
        KeyCode::KeyB => 27,
        KeyCode::KeyC => 28,
        KeyCode::KeyD => 29,
        KeyCode::KeyE => 30,
        KeyCode::KeyF => 31,
        KeyCode::KeyG => 32,
        KeyCode::KeyH => 33,
        KeyCode::KeyI => 34,
        KeyCode::KeyJ => 35,
        KeyCode::KeyK => 36,
        KeyCode::KeyL => 37,
        KeyCode::KeyM => 38,
        KeyCode::KeyN => 39,
        KeyCode::KeyO => 40,
        KeyCode::KeyP => 41,
        KeyCode::KeyQ => 42,
        KeyCode::KeyR => 43,
        KeyCode::KeyS => 44,
        KeyCode::KeyT => 45,
        KeyCode::KeyU => 46,
        KeyCode::KeyV => 47,
        KeyCode::KeyW => 48,
        KeyCode::KeyX => 49,
        KeyCode::KeyY => 50,
        KeyCode::KeyZ => 51,
        KeyCode::BracketLeft => 52,
        KeyCode::BracketRight => 53,
        KeyCode::Backslash => 54,
        KeyCode::Semicolon => 55,
        KeyCode::Quote => 56,
        KeyCode::Comma => 57,
        KeyCode::Period => 58,
        KeyCode::Slash => 59,
        KeyCode::Space => 60,
        KeyCode::Tab => 61,
        KeyCode::Enter => 62,
        KeyCode::Backspace => 63,
        KeyCode::Delete => 64,
        KeyCode::Insert => 65,
        KeyCode::Home => 66,
        KeyCode::End => 67,
        KeyCode::PageUp => 68,
        KeyCode::PageDown => 69,
        KeyCode::ArrowUp => 70,
        KeyCode::ArrowDown => 71,
        KeyCode::ArrowLeft => 72,
        KeyCode::ArrowRight => 73,
        _ => -1,
    }
}

/// The name under which a key is stored in the settings file.
pub open spec fn key_name(code: KeyCode) -> Seq<char> {
    match code {
        KeyCode::Escape => "Escape"@,
        KeyCode::F1 => "F1"@,
        KeyCode::F2 => "F2"@,
        KeyCode::F3 => "F3"@,
        KeyCode::F4 => "F4"@,
        KeyCode::F5 => "F5"@,
        KeyCode::F6 => "F6"@,
        KeyCode::F7 => "F7"@,
        KeyCode::F8 => "F8"@,
        KeyCode::F9 => "F9"@,
        KeyCode::F10 => "F10"@,
        KeyCode::F11 => "F11"@,
        KeyCode::F12 => "F12"@,
        KeyCode::Backquote => "Backquote"@,
        KeyCode::Digit0 => "Digit0"@,
        KeyCode::Digit1 => "Digit1"@,
        KeyCode::Digit2 => "Digit2"@,
        KeyCode::Digit3 => "Digit3"@,
        KeyCode::Digit4 => "Digit4"@,
        KeyCode::Digit5 => "Digit5"@,
        KeyCode::Digit6 => "Digit6"@,
        KeyCode::Digit7 => "Digit7"@,
        KeyCode::Digit8 => "Digit8"@,
        KeyCode::Digit9 => "Digit9"@,
        KeyCode::Minus => "Minus"@,
        KeyCode::Equal => "Equal"@,
        KeyCode::KeyA => "KeyA"@,
        KeyCode::KeyB => "KeyB"@,
        KeyCode::KeyC => "KeyC"@,
        KeyCode::KeyD => "KeyD"@,
        KeyCode::KeyE => "KeyE"@,
        KeyCode::KeyF => "KeyF"@,
        KeyCode::KeyG => "KeyG"@,
        KeyCode::KeyH => "KeyH"@,
        KeyCode::KeyI => "KeyI"@,
        KeyCode::KeyJ => "KeyJ"@,
        KeyCode::KeyK => "KeyK"@,
        KeyCode::KeyL => "KeyL"@,
        KeyCode::KeyM => "KeyM"@,
        KeyCode::KeyN => "KeyN"@,
        KeyCode::KeyO => "KeyO"@,
        KeyCode::KeyP => "KeyP"@,
        KeyCode::KeyQ => "KeyQ"@,
        KeyCode::KeyR => "KeyR"@,
        KeyCode::KeyS => "KeyS"@,
        KeyCode::KeyT => "KeyT"@,
        KeyCode::KeyU => "KeyU"@,
        KeyCode::KeyV => "KeyV"@,
        KeyCode::KeyW => "KeyW"@,
        KeyCode::KeyX => "KeyX"@,
        KeyCode::KeyY => "KeyY"@,
        KeyCode::KeyZ => "KeyZ"@,
        KeyCode::BracketLeft => "BracketLeft"@,
        KeyCode::BracketRight => "BracketRight"@,
        KeyCode::Backslash => "Backslash"@,
        KeyCode::Semicolon => "Semicolon"@,
        KeyCode::Quote => "Quote"@,
        KeyCode::Comma => "Comma"@,
        KeyCode::Period => "Period"@,
        KeyCode::Slash => "Slash"@,
        KeyCode::Space => "Space"@,
        KeyCode::Tab => "Tab"@,
        KeyCode::Enter => "Enter"@,
        KeyCode::Backspace => "Backspace"@,
        KeyCode::Delete => "Delete"@,
        KeyCode::Insert => "Insert"@,
        KeyCode::Home => "Home"@,
        KeyCode::End => "End"@,
        KeyCode::PageUp => "PageUp"@,
        KeyCode::PageDown => "PageDown"@,
        KeyCode::ArrowUp => "ArrowUp"@,
        KeyCode::ArrowDown => "ArrowDown"@,
        KeyCode::ArrowLeft => "ArrowLeft"@,
        KeyCode::ArrowRight => "ArrowRight"@,
        KeyCode::ControlLeft => "ControlLeft"@,
        KeyCode::ControlRight => "ControlRight"@,
        KeyCode::ShiftLeft => "ShiftLeft"@,
        KeyCode::ShiftRight => "ShiftRight"@,
        KeyCode::AltLeft => "AltLeft"@,
        KeyCode::AltRight => "AltRight"@,
        KeyCode::SuperLeft => "SuperLeft"@,
        KeyCode::SuperRight => "SuperRight"@,
    }
}

/// The label shown for a key; modifier keys have none of their own.
pub open spec fn key_label(code: KeyCode) -> Seq<char> {
    match code {
        KeyCode::Escape => "Esc"@,
        KeyCode::F1 => "F1"@,
        KeyCode::F2 => "F2"@,
        KeyCode::F3 => "F3"@,
        KeyCode::F4 => "F4"@,
        KeyCode::F5 => "F5"@,
        KeyCode::F6 => "F6"@,
        KeyCode::F7 => "F7"@,
        KeyCode::F8 => "F8"@,
        KeyCode::F9 => "F9"@,
        KeyCode::F10 => "F10"@,
        KeyCode::F11 => "F11"@,
        KeyCode::F12 => "F12"@,
        KeyCode::Backquote => "`"@,
        KeyCode::Digit0 => "0"@,
        KeyCode::Digit1 => "1"@,
        KeyCode::Digit2 => "2"@,
        KeyCode::Digit3 => "3"@,
        KeyCode::Digit4 => "4"@,
        KeyCode::Digit5 => "5"@,
        KeyCode::Digit6 => "6"@,
        KeyCode::Digit7 => "7"@,
        KeyCode::Digit8 => "8"@,
        KeyCode::Digit9 => "9"@,
        KeyCode::Minus => "-"@,
        KeyCode::Equal => "="@,
        KeyCode::KeyA => "A"@,
        KeyCode::KeyB => "B"@,
        KeyCode::KeyC => "C"@,
        KeyCode::KeyD => "D"@,
        KeyCode::KeyE => "E"@,
        KeyCode::KeyF => "F"@,
        KeyCode::KeyG => "G"@,
        KeyCode::KeyH => "H"@,
        KeyCode::KeyI => "I"@,
        KeyCode::KeyJ => "J"@,
        KeyCode::KeyK => "K"@,
        KeyCode::KeyL => "L"@,
        KeyCode::KeyM => "M"@,
        KeyCode::KeyN => "N"@,
        KeyCode::KeyO => "O"@,
        KeyCode::KeyP => "P"@,
        KeyCode::KeyQ => "Q"@,
        KeyCode::KeyR => "R"@,
        KeyCode::KeyS => "S"@,
        KeyCode::KeyT => "T"@,
        KeyCode::KeyU => "U"@,
        KeyCode::KeyV => "V"@,
        KeyCode::KeyW => "W"@,
        KeyCode::KeyX => "X"@,
        KeyCode::KeyY => "Y"@,
        KeyCode::KeyZ => "Z"@,
        KeyCode::BracketLeft => "["@,
        KeyCode::BracketRight => "]"@,
        KeyCode::Backslash => "\\"@,
        KeyCode::Semicolon => ";"@,
        KeyCode::Quote => "'"@,
        KeyCode::Comma => ","@,
        KeyCode::Period => "."@,
        KeyCode::Slash => "/"@,
        KeyCode::Space => "Space"@,
        KeyCode::Tab => "Tab"@,
        KeyCode::Enter => "Enter"@,
        KeyCode::Backspace => "Backspace"@,
        KeyCode::Delete => "Delete"@,
        KeyCode::Insert => "Insert"@,
        KeyCode::Home => "Home"@,
        KeyCode::End => "End"@,
        KeyCode::PageUp => "PageUp"@,
        KeyCode::PageDown => "PageDown"@,
        KeyCode::ArrowUp => "Up"@,
        KeyCode::ArrowDown => "Down"@,
        KeyCode::ArrowLeft => "Left"@,
        KeyCode::ArrowRight => "Right"@,
        _ => "Unknown"@,
    }
}

/// The key at position `i` of the table of supported keys.
pub fn supported_key_at(i: usize) -> (code: KeyCode)
    requires
        i < SUPPORTED_KEY_COUNT,
    ensures
        code == supported_key(i as int),
{
    match i {
        0 => KeyCode::Escape,
        1 => KeyCode::F1,
        2 => KeyCode::F2,
        3 => KeyCode::F3,
        4 => KeyCode::F4,
        5 => KeyCode::F5,
        6 => KeyCode::F6,
        7 => KeyCode::F7,
        8 => KeyCode::F8,
        9 => KeyCode::F9,
        10 => KeyCode::F10,
        11 => KeyCode::F11,
        12 => KeyCode::F12,
        13 => KeyCode::Backquote,
        14 => KeyCode::Digit0,
        15 => KeyCode::Digit1,
        16 => KeyCode::Digit2,
        17 => KeyCode::Digit3,
        18 => KeyCode::Digit4,
        19 => KeyCode::Digit5,
        20 => KeyCode::Digit6,
        21 => KeyCode::Digit7,
        22 => KeyCode::Digit8,
        23 => KeyCode::Digit9,
        24 => KeyCode::Minus,
        25 => KeyCode::Equal,
        26 => KeyCode::KeyA,
        27 => KeyCode::KeyB,
        28 => KeyCode::KeyC,
        29 => KeyCode::KeyD,
        30 => KeyCode::KeyE,
        31 => KeyCode::KeyF,
        32 => KeyCode::KeyG,
        33 => KeyCode::KeyH,
        34 => KeyCode::KeyI,
        35 => KeyCode::KeyJ,
        36 => KeyCode::KeyK,
        37 => KeyCode::KeyL,
        38 => KeyCode::KeyM,
        39 => KeyCode::KeyN,
        40 => KeyCode::KeyO,
        41 => KeyCode::KeyP,
        42 => KeyCode::KeyQ,
        43 => KeyCode::KeyR,
        44 => KeyCode::KeyS,
        45 => KeyCode::KeyT,
        46 => KeyCode::KeyU,
        47 => KeyCode::KeyV,
        48 => KeyCode::KeyW,
        49 => KeyCode::KeyX,
        50 => KeyCode::KeyY,
        51 => KeyCode::KeyZ,
        52 => KeyCode::BracketLeft,
        53 => KeyCode::BracketRight,
        54 => KeyCode::Backslash,
        55 => KeyCode::Semicolon,
        56 => KeyCode::Quote,
        57 => KeyCode::Comma,
        58 => KeyCode::Period,
        59 => KeyCode::Slash,
        60 => KeyCode::Space,
        61 => KeyCode::Tab,
        62 => KeyCode::Enter,
        63 => KeyCode::Backspace,
        64 => KeyCode::Delete,
        65 => KeyCode::Insert,
        66 => KeyCode::Home,
        67 => KeyCode::End,
        68 => KeyCode::PageUp,
        69 => KeyCode::PageDown,
        70 => KeyCode::ArrowUp,
        71 => KeyCode::ArrowDown,
        72 => KeyCode::ArrowLeft,
        _ => KeyCode::ArrowRight,
    }
}

/// The stored name of a key (`None` for modifiers, which cannot be bound).
pub fn key_code_name(code: KeyCode) -> (name: Option<&'static str>)
    ensures
        match name {
            Some(n) => !is_modifier(code) && n@ == key_name(code),
            None => is_modifier(code),
        },
{
    match code {
        KeyCode::Escape => Some("Escape"),
        KeyCode::F1 => Some("F1"),
        KeyCode::F2 => Some("F2"),
        KeyCode::F3 => Some("F3"),
        KeyCode::F4 => Some("F4"),
        KeyCode::F5 => Some("F5"),
        KeyCode::F6 => Some("F6"),
        KeyCode::F7 => Some("F7"),
        KeyCode::F8 => Some("F8"),
        KeyCode::F9 => Some("F9"),
        KeyCode::F10 => Some("F10"),
        KeyCode::F11 => Some("F11"),
        KeyCode::F12 => Some("F12"),
        KeyCode::Backquote => Some("Backquote"),
        KeyCode::Digit0 => Some("Digit0"),
        KeyCode::Digit1 => Some("Digit1"),
        KeyCode::Digit2 => Some("Digit2"),
        KeyCode::Digit3 => Some("Digit3"),
        KeyCode::Digit4 => Some("Digit4"),
        KeyCode::Digit5 => Some("Digit5"),
        KeyCode::Digit6 => Some("Digit6"),
        KeyCode::Digit7 => Some("Digit7"),
        KeyCode::Digit8 => Some("Digit8"),
        KeyCode::Digit9 => Some("Digit9"),
        KeyCode::Minus => Some("Minus"),
        KeyCode::Equal => Some("Equal"),
        KeyCode::KeyA => Some("KeyA"),
        KeyCode::KeyB => Some("KeyB"),
        KeyCode::KeyC => Some("KeyC"),
        KeyCode::KeyD => Some("KeyD"),
        KeyCode::KeyE => Some("KeyE"),
        KeyCode::KeyF => Some("KeyF"),
        KeyCode::KeyG => Some("KeyG"),
        KeyCode::KeyH => Some("KeyH"),
        KeyCode::KeyI => Some("KeyI"),
        KeyCode::KeyJ => Some("KeyJ"),
        KeyCode::KeyK => Some("KeyK"),
        KeyCode::KeyL => Some("KeyL"),
        KeyCode::KeyM => Some("KeyM"),
        KeyCode::KeyN => Some("KeyN"),
        KeyCode::KeyO => Some("KeyO"),
        KeyCode::KeyP => Some("KeyP"),
        KeyCode::KeyQ => Some("KeyQ"),
        KeyCode::KeyR => Some("KeyR"),
        KeyCode::KeyS => Some("KeyS"),
        KeyCode::KeyT => Some("KeyT"),
        KeyCode::KeyU => Some("KeyU"),
        KeyCode::KeyV => Some("KeyV"),
        KeyCode::KeyW => Some("KeyW"),
        KeyCode::KeyX => Some("KeyX"),
        KeyCode::KeyY => Some("KeyY"),
        KeyCode::KeyZ => Some("KeyZ"),
        KeyCode::BracketLeft => Some("BracketLeft"),
        KeyCode::BracketRight => Some("BracketRight"),
        KeyCode::Backslash => Some("Backslash"),
        KeyCode::Semicolon => Some("Semicolon"),
        KeyCode::Quote => Some("Quote"),
        KeyCode::Comma => Some("Comma"),
        KeyCode::Period => Some("Period"),
        KeyCode::Slash => Some("Slash"),
        KeyCode::Space => Some("Space"),
        KeyCode::Tab => Some("Tab"),
        KeyCode::Enter => Some("Enter"),
        KeyCode::Backspace => Some("Backspace"),
        KeyCode::Delete => Some("Delete"),
        KeyCode::Insert => Some("Insert"),
        KeyCode::Home => Some("Home"),
        KeyCode::End => Some("End"),
        KeyCode::PageUp => Some("PageUp"),
        KeyCode::PageDown => Some("PageDown"),
        KeyCode::ArrowUp => Some("ArrowUp"),
        KeyCode::ArrowDown => Some("ArrowDown"),
        KeyCode::ArrowLeft => Some("ArrowLeft"),
        KeyCode::ArrowRight => Some("ArrowRight"),
        _ => None,
    }
}

/// The label shown for a key, `Unknown` for modifiers.
pub fn key_display_label(code: KeyCode) -> (label: &'static str)
    ensures
        label@ == key_label(code),
{
    match code {
        KeyCode::Escape => "Esc",
        KeyCode::F1 => "F1",
        KeyCode::F2 => "F2",
        KeyCode::F3 => "F3",
        KeyCode::F4 => "F4",
        KeyCode::F5 => "F5",
        KeyCode::F6 => "F6",
        KeyCode::F7 => "F7",
        KeyCode::F8 => "F8",
        KeyCode::F9 => "F9",
        KeyCode::F10 => "F10",
        KeyCode::F11 => "F11",
        KeyCode::F12 => "F12",
        KeyCode::Backquote => "`",
        KeyCode::Digit0 => "0",
        KeyCode::Digit1 => "1",
        KeyCode::Digit2 => "2",
        KeyCode::Digit3 => "3",
        KeyCode::Digit4 => "4",
        KeyCode::Digit5 => "5",
        KeyCode::Digit6 => "6",
        KeyCode::Digit7 => "7",
        KeyCode::Digit8 => "8",
        KeyCode::Digit9 => "9",
        KeyCode::Minus => "-",
        KeyCode::Equal => "=",
        KeyCode::KeyA => "A",
        KeyCode::KeyB => "B",
        KeyCode::KeyC => "C",
        KeyCode::KeyD => "D",
        KeyCode::KeyE => "E",
        KeyCode::KeyF => "F",
        KeyCode::KeyG => "G",
        KeyCode::KeyH => "H",
        KeyCode::KeyI => "I",
        KeyCode::KeyJ => "J",
        KeyCode::KeyK => "K",
        KeyCode::KeyL => "L",
        KeyCode::KeyM => "M",
        KeyCode::KeyN => "N",
        KeyCode::KeyO => "O",
        KeyCode::KeyP => "P",
        KeyCode::KeyQ => "Q",
        KeyCode::KeyR => "R",
        KeyCode::KeyS => "S",
        KeyCode::KeyT => "T",
        KeyCode::KeyU => "U",
        KeyCode::KeyV => "V",
        KeyCode::KeyW => "W",
        KeyCode::KeyX => "X",
        KeyCode::KeyY => "Y",
        KeyCode::KeyZ => "Z",
        KeyCode::BracketLeft => "[",
        KeyCode::BracketRight => "]",
        KeyCode::Backslash => "\\",
        KeyCode::Semicolon => ";",
        KeyCode::Quote => "'",
        KeyCode::Comma => ",",
        KeyCode::Period => ".",
        KeyCode::Slash => "/",
        KeyCode::Space => "Space",
        KeyCode::Tab => "Tab",
        KeyCode::Enter => "Enter",
        KeyCode::Backspace => "Backspace",
        KeyCode::Delete => "Delete",
        KeyCode::Insert => "Insert",
        KeyCode::Home => "Home",
        KeyCode::End => "End",
        KeyCode::PageUp => "PageUp",
        KeyCode::PageDown => "PageDown",
        KeyCode::ArrowUp => "Up",
        KeyCode::ArrowDown => "Down",
        KeyCode::ArrowLeft => "Left",
        KeyCode::ArrowRight => "Right",
        _ => "Unknown",
    }
}

/// Every non-modifier key sits at its own position of the table.
pub proof fn lemma_supported_index(code: KeyCode)
    ensures
        !is_modifier(code) ==> 0 <= supported_index(code) < SUPPORTED_KEY_COUNT
            && supported_key(supported_index(code)) == code,
        is_modifier(code) ==> supported_index(code) == -1,
{
}

/// Every position of the table holds a non-modifier key.
pub proof fn lemma_supported_key(i: int)
    requires
        0 <= i < SUPPORTED_KEY_COUNT,
    ensures
        !is_modifier(supported_key(i)),
        supported_index(supported_key(i)) == i,
{
}

/// The first key of the table, from position `i` on, whose stored name is `name`.
pub open spec fn lookup_key_from(name: Seq<char>, i: int) -> Option<KeyCode>
    decreases SUPPORTED_KEY_COUNT - i,
{
    if i < 0 || i >= SUPPORTED_KEY_COUNT {
        None
    } else if key_name(supported_key(i)) == name {
        Some(supported_key(i))
    } else {
        lookup_key_from(name, i + 1)
    }
}

/// The supported key whose stored name is `name`, if any.
pub open spec fn lookup_key(name: Seq<char>) -> Option<KeyCode> {
    lookup_key_from(name, 0)
}

/// A key found by name is never a modifier, and carries that name.
pub proof fn lemma_lookup_key(name: Seq<char>, i: int)
    requires
        0 <= i,
    ensures
        lookup_key_from(name, i) matches Some(k) ==> !is_modifier(k) && key_name(k) == name,
    decreases SUPPORTED_KEY_COUNT - i,
{
    if i < SUPPORTED_KEY_COUNT {
        lemma_supported_key(i);
        lemma_lookup_key(name, i + 1);
    }
}

/// The supported key whose stored name is `name` once trimmed.
pub fn key_code_from_name(name: &str) -> (code: Option<KeyCode>)
    ensures
        code == lookup_key(trimmed(name@)),
        match code {
            Some(k) => !is_modifier(k) && key_name(k) == trimmed(name@),
            None => forall|k: KeyCode| !is_modifier(k) ==> key_name(k) != trimmed(name@),
        },
{
    let t = trim(name);
    let mut i: usize = 0;
    while i < SUPPORTED_KEY_COUNT
        invariant
            t@ == trimmed(name@),
            i <= SUPPORTED_KEY_COUNT,
            forall|j: int| 0 <= j < i ==> key_name(#[trigger] supported_key(j)) != t@,
            lookup_key(t@) == lookup_key_from(t@, i as int),
        decreases SUPPORTED_KEY_COUNT - i,
    {
        let k = supported_key_at(i);
        proof {
            lemma_supported_key(i as int);
        }
        let n = key_code_name(k);
        match n {
            Some(s) => {
                if str_eq(t.as_str(), s) {
                    proof {
                        lemma_lookup_key(t@, 0);
                    }
                    return Some(k);
                }
            },
            None => {},
        }
        i = i + 1;
    }
    proof {
        lemma_lookup_key(t@, 0);
        assert forall|k: KeyCode| !is_modifier(k) implies key_name(k) != t@ by {
            lemma_supported_index(k);
            assert(key_name(supported_key(supported_index(k))) != t@);
        }
    }
    None
}

} // verus!

//! Keyboard state machine: scancode decoding, modifier tracking, and a
//! bounded queue of key events. The interrupt path hands the raw scancode
//! byte in; everything from there on is plain logic.

use vstd::prelude::*;
use std::collections::VecDeque;

verus! {

/// Most key events the queue will hold before further ones are dropped.
pub const KEYBOARD_BUFFER_LIMIT: usize = 100;

/// A decoded key event: the raw scancode, the key it names, the modifier
/// state at the time, and whether the key went down or up.
#[derive(Debug, Copy, Clone, PartialEq, Eq, Structural)]
pub struct KeyEvent {
    pub scancode: u8,
    pub keycode: KeyCode,
    pub modifiers: Modifiers,
    pub pressed: bool,
}

/// The keys the decoder distinguishes.
#[derive(Debug, Copy, Clone, PartialEq, Eq, Structural)]
pub enum KeyCode {
    Unknown,
    A,
    B,
    C,
    D,
    E,
    F,
    G,
    H,
    I,
    J,
    K,
    L,
    M,
    N,
    O,
    P,
    Q,
    R,
    S,
    T,
    U,
    V,
    W,
    X,
    Y,
    Z,
    Key0,
    Key1,
    Key2,
    Key3,
    Key4,
    Key5,
    Key6,
    Key7,
    Key8,
    Key9,
    F1,
    F2,
    F3,
    F4,
    F5,
    F6,
    F7,
    F8,
    F9,
    F10,
    F11,
    F12,
    Escape,
    Tab,
    CapsLock,
    LeftShift,
    RightShift,
    LeftCtrl,
    RightCtrl,
    LeftAlt,
    RightAlt,
    Space,
    Enter,
    Backspace,
    Delete,
    Insert,
    Home,
    End,
    PageUp,
    PageDown,
    Up,
    Down,
    Left,
    Right,
    Minus,
    Equals,
    LeftBracket,
    RightBracket,
    Backslash,
    Semicolon,
    Quote,
    Grave,
    Comma,
    Period,
    Slash,
    NumLock,
    ScrollLock,
    Keypad0,
    Keypad1,
    Keypad2,
    Keypad3,
    Keypad4,
    Keypad5,
    Keypad6,
    Keypad7,
    Keypad8,
    Keypad9,
    KeypadPlus,
    KeypadMinus,
    KeypadMultiply,
    KeypadDivide,
    KeypadEnter,
    KeypadPeriod,
}

/// Modifier keys held or latched.
#[derive(Debug, Copy, Clone, PartialEq, Eq, Structural)]
pub struct Modifiers {
    pub shift: bool,
    pub ctrl: bool,
    pub alt: bool,
    pub caps_lock: bool,
    pub num_lock: bool,
}

/// The plain scancode table as `scancode_to_keycode` applies it.
pub open spec fn spec_keycode(scancode: u8) -> KeyCode {
    match scancode {
        0x01 => KeyCode::Escape,
        0x02 => KeyCode::Key1,
        0x03 => KeyCode::Key2,
        0x04 => KeyCode::Key3,
        0x05 => KeyCode::Key4,
        0x06 => KeyCode::Key5,
        0x07 => KeyCode::Key6,
        0x08 => KeyCode::Key7,
        0x09 => KeyCode::Key8,
        0x0A => KeyCode::Key9,
        0x0B => KeyCode::Key0,
        0x0C => KeyCode::Minus,
        0x0D => KeyCode::Equals,
        0x0E => KeyCode::Backspace,
        0x0F => KeyCode::Tab,
        0x10 => KeyCode::Q,
        0x11 => KeyCode::W,
        0x12 => KeyCode::E,
        0x13 => KeyCode::R,
        0x14 => KeyCode::T,
        0x15 => KeyCode::Y,
        0x16 => KeyCode::U,
        0x17 => KeyCode::I,
        0x18 => KeyCode::O,
        0x19 => KeyCode::P,
        0x1A => KeyCode::LeftBracket,
        0x1B => KeyCode::RightBracket,
        0x1C => KeyCode::Enter,
        0x1D => KeyCode::LeftCtrl,
        0x1E => KeyCode::A,
        0x1F => KeyCode::S,
        0x20 => KeyCode::D,
        0x21 => KeyCode::F,
        0x22 => KeyCode::G,
        0x23 => KeyCode::H,
        0x24 => KeyCode::J,
        0x25 => KeyCode::K,
        0x26 => KeyCode::L,
        0x27 => KeyCode::Semicolon,
        0x28 => KeyCode::Quote,
        0x29 => KeyCode::Grave,
        0x2A => KeyCode::LeftShift,
        0x2B => KeyCode::Backslash,
        0x2C => KeyCode::Z,
        0x2D => KeyCode::X,
        0x2E => KeyCode::C,
        0x2F => KeyCode::V,
        0x30 => KeyCode::B,
        0x31 => KeyCode::N,
        0x32 => KeyCode::M,
        0x33 => KeyCode::Comma,
        0x34 => KeyCode::Period,
        0x35 => KeyCode::Slash,
        0x36 => KeyCode::RightShift,
        0x37 => KeyCode::KeypadMultiply,
        0x38 => KeyCode::LeftAlt,
        0x39 => KeyCode::Space,
        0x3A => KeyCode::CapsLock,
        0x3B => KeyCode::F1,
        0x3C => KeyCode::F2,
        0x3D => KeyCode::F3,
        0x3E => KeyCode::F4,
        0x3F => KeyCode::F5,
        0x40 => KeyCode::F6,
        0x41 => KeyCode::F7,
        0x42 => KeyCode::F8,
        0x43 => KeyCode::F9,
        0x44 => KeyCode::F10,
        0x45 => KeyCode::NumLock,
        0x46 => KeyCode::ScrollLock,
        0x47 => KeyCode::Keypad7,
        0x48 => KeyCode::Keypad8,
        0x49 => KeyCode::Keypad9,
        0x4A => KeyCode::KeypadMinus,
        0x4B => KeyCode::Keypad4,
        0x4C => KeyCode::Keypad5,
        0x4D => KeyCode::Keypad6,
        0x4E => KeyCode::KeypadPlus,
        0x4F => KeyCode::Keypad1,
        0x50 => KeyCode::Keypad2,
        0x51 => KeyCode::Keypad3,
        0x52 => KeyCode::Keypad0,
        0x53 => KeyCode::KeypadPeriod,
        0x57 => KeyCode::F11,
        0x58 => KeyCode::F12,
        _ => KeyCode::Unknown,
    }
}

/// The extended scancode table as `extended_scancode_to_keycode` applies
/// it.
pub open spec fn spec_extended_keycode(scancode: u8) -> KeyCode {
    match scancode {
        0x1C => KeyCode::KeypadEnter,
        0x1D => KeyCode::RightCtrl,
        0x35 => KeyCode::KeypadDivide,
        0x38 => KeyCode::RightAlt,
        0x47 => KeyCode::Home,
        0x48 => KeyCode::Up,
        0x49 => KeyCode::PageUp,
        0x4B => KeyCode::Left,
        0x4D => KeyCode::Right,
        0x4F => KeyCode::End,
        0x50 => KeyCode::Down,
        0x51 => KeyCode::PageDown,
        0x52 => KeyCode::Insert,
        0x53 => KeyCode::Delete,
        _ => KeyCode::Unknown,
    }
}

/// How one decoded key changes the modifier state: held modifiers follow
/// the key's press state, the two lock keys toggle on a press, and every
/// other key leaves the modifiers alone.
pub open spec fn spec_modifiers_after(m: Modifiers, keycode: KeyCode, pressed: bool) -> Modifiers {
    match keycode {
        KeyCode::LeftShift | KeyCode::RightShift => Modifiers {
            shift: pressed,
            ctrl: m.ctrl,
            alt: m.alt,
            caps_lock: m.caps_lock,
            num_lock: m.num_lock,
        },
        KeyCode::LeftCtrl | KeyCode::RightCtrl => Modifiers {
            shift: m.shift,
            ctrl: pressed,
            alt: m.alt,
            caps_lock: m.caps_lock,
            num_lock: m.num_lock,
        },
        KeyCode::LeftAlt | KeyCode::RightAlt => Modifiers {
            shift: m.shift,
            ctrl: m.ctrl,
            alt: pressed,
            caps_lock: m.caps_lock,
            num_lock: m.num_lock,
        },
        KeyCode::CapsLock => if pressed {
            Modifiers {
                shift: m.shift,
                ctrl: m.ctrl,
                alt: m.alt,
                caps_lock: !m.caps_lock,
                num_lock: m.num_lock,
            }
        } else {
            m
        },
        KeyCode::NumLock => if pressed {
            Modifiers {
                shift: m.shift,
                ctrl: m.ctrl,
                alt: m.alt,
                caps_lock: m.caps_lock,
                num_lock: !m.num_lock,
            }
        } else {
            m
        },
        _ => m,
    }
}

/// The event one scancode byte decodes to against a modifier state: the
/// raw byte, the keycode from whichever table the extended prefix picked,
/// the modifier state after the key took effect, and whether it was a
/// press.
pub open spec fn spec_scancode_event(extended: bool, m: Modifiers, scancode: u8) -> KeyEvent {
    let pressed = scancode & 0x80 == 0;
    let keycode = if extended {
        spec_extended_keycode(scancode & 0x7F)
    } else {
        spec_keycode(scancode & 0x7F)
    };
    KeyEvent { scancode, keycode, modifiers: spec_modifiers_after(m, keycode, pressed), pressed }
}

/// Convert an extended scancode (one that followed the `0xE0` prefix) to
/// a keycode.
pub fn extended_scancode_to_keycode(scancode: u8) -> (r: KeyCode)
    ensures
        r == spec_extended_keycode(scancode),
{
    match scancode {
        0x1C => KeyCode::KeypadEnter,
        0x1D => KeyCode::RightCtrl,
        0x35 => KeyCode::KeypadDivide,
        0x38 => KeyCode::RightAlt,
        0x47 => KeyCode::Home,
        0x48 => KeyCode::Up,
        0x49 => KeyCode::PageUp,
        0x4B => KeyCode::Left,
        0x4D => KeyCode::Right,
        0x4F => KeyCode::End,
        0x50 => KeyCode::Down,
        0x51 => KeyCode::PageDown,
        0x52 => KeyCode::Insert,
        0x53 => KeyCode::Delete,
        _ => KeyCode::Unknown,
    }
}

/// Convert a plain scancode to a keycode.
pub fn scancode_to_keycode(scancode: u8) -> (r: KeyCode)
    ensures
        r == spec_keycode(scancode),
{
    match scancode {
        0x01 => KeyCode::Escape,
        0x02 => KeyCode::Key1,
        0x03 => KeyCode::Key2,
        0x04 => KeyCode::Key3,
        0x05 => KeyCode::Key4,
        0x06 => KeyCode::Key5,
        0x07 => KeyCode::Key6,
        0x08 => KeyCode::Key7,
        0x09 => KeyCode::Key8,
        0x0A => KeyCode::Key9,
        0x0B => KeyCode::Key0,
        0x0C => KeyCode::Minus,
        0x0D => KeyCode::Equals,
        0x0E => KeyCode::Backspace,
        0x0F => KeyCode::Tab,
        0x10 => KeyCode::Q,
        0x11 => KeyCode::W,
        0x12 => KeyCode::E,
        0x13 => KeyCode::R,
        0x14 => KeyCode::T,
        0x15 => KeyCode::Y,
        0x16 => KeyCode::U,
        0x17 => KeyCode::I,
        0x18 => KeyCode::O,
        0x19 => KeyCode::P,
        0x1A => KeyCode::LeftBracket,
        0x1B => KeyCode::RightBracket,
        0x1C => KeyCode::Enter,
        0x1D => KeyCode::LeftCtrl,
        0x1E => KeyCode::A,
        0x1F => KeyCode::S,
        0x20 => KeyCode::D,
        0x21 => KeyCode::F,
        0x22 => KeyCode::G,
        0x23 => KeyCode::H,
        0x24 => KeyCode::J,
        0x25 => KeyCode::K,
        0x26 => KeyCode::L,
        0x27 => KeyCode::Semicolon,
        0x28 => KeyCode::Quote,
        0x29 => KeyCode::Grave,
        0x2A => KeyCode::LeftShift,
        0x2B => KeyCode::Backslash,
        0x2C => KeyCode::Z,
        0x2D => KeyCode::X,
        0x2E => KeyCode::C,
        0x2F => KeyCode::V,
        0x30 => KeyCode::B,
        0x31 => KeyCode::N,
        0x32 => KeyCode::M,
        0x33 => KeyCode::Comma,
        0x34 => KeyCode::Period,
        0x35 => KeyCode::Slash,
        0x36 => KeyCode::RightShift,
        0x37 => KeyCode::KeypadMultiply,
        0x38 => KeyCode::LeftAlt,
        0x39 => KeyCode::Space,
        0x3A => KeyCode::CapsLock,
        0x3B => KeyCode::F1,
        0x3C => KeyCode::F2,
        0x3D => KeyCode::F3,
        0x3E => KeyCode::F4,
        0x3F => KeyCode::F5,
        0x40 => KeyCode::F6,
        0x41 => KeyCode::F7,
        0x42 => KeyCode::F8,
        0x43 => KeyCode::F9,
        0x44 => KeyCode::F10,
        0x45 => KeyCode::NumLock,
        0x46 => KeyCode::ScrollLock,
        0x47 => KeyCode::Keypad7,
        0x48 => KeyCode::Keypad8,
        0x49 => KeyCode::Keypad9,
        0x4A => KeyCode::KeypadMinus,
        0x4B => KeyCode::Keypad4,
        0x4C => KeyCode::Keypad5,
        0x4D => KeyCode::Keypad6,
        0x4E => KeyCode::KeypadPlus,
        0x4F => KeyCode::Keypad1,
        0x50 => KeyCode::Keypad2,
        0x51 => KeyCode::Keypad3,
        0x52 => KeyCode::Keypad0,
        0x53 => KeyCode::KeypadPeriod,
        0x57 => KeyCode::F11,
        0x58 => KeyCode::F12,
        _ => KeyCode::Unknown,
    }
}

/// What `keyevent_to_char` decodes an event to: nothing for a release
/// or a key that types no character; for letters, the upper-case form
/// exactly when shift and caps lock disagree; for digits and punctuation,
/// the shifted form exactly when the shift key is held — caps lock plays
/// no part there.
pub open spec fn spec_decode(event: KeyEvent) -> Option<char> {
    if !event.pressed {
        Option::None
    } else {
        let shift = event.modifiers.shift != event.modifiers.caps_lock;
        match event.keycode {
            KeyCode::A => Option::Some(
                if shift {
                    'A'
                } else {
                    'a'
                },
            ),
            KeyCode::B => Option::Some(
                if shift {
                    'B'
                } else {
                    'b'
                },
            ),
            KeyCode::C => Option::Some(
                if shift {
                    'C'
                } else {
                    'c'
                },
            ),
            KeyCode::D => Option::Some(
                if shift {
                    'D'
                } else {
                    'd'
                },
            ),
            KeyCode::E => Option::Some(
                if shift {
                    'E'
                } else {
                    'e'
                },
            ),
            KeyCode::F => Option::Some(
                if shift {
                    'F'
                } else {
                    'f'
                },
            ),
            KeyCode::G => Option::Some(
                if shift {
                    'G'
                } else {
                    'g'
                },
            ),
            KeyCode::H => Option::Some(
                if shift {
                    'H'
                } else {
                    'h'
                },
            ),
            KeyCode::I => Option::Some(
                if shift {
                    'I'
                } else {
                    'i'
                },
            ),
            KeyCode::J => Option::Some(
                if shift {
                    'J'
                } else {
                    'j'
                },
            ),
            KeyCode::K => Option::Some(
                if shift {
                    'K'
                } else {
                    'k'
                },
            ),
            KeyCode::L => Option::Some(
                if shift {
                    'L'
                } else {
                    'l'
                },
            ),
            KeyCode::M => Option::Some(
                if shift {
                    'M'
                } else {
                    'm'
                },
            ),
            KeyCode::N => Option::Some(
                if shift {
                    'N'
                } else {
                    'n'
                },
            ),
            KeyCode::O => Option::Some(
                if shift {
                    'O'
                } else {
                    'o'
                },
            ),
            KeyCode::P => Option::Some(
                if shift {
                    'P'
                } else {
                    'p'
                },
            ),
            KeyCode::Q => Option::Some(
                if shift {
                    'Q'
                } else {
                    'q'
                },
            ),
            KeyCode::R => Option::Some(
                if shift {
                    'R'
                } else {
                    'r'
                },
            ),
            KeyCode::S => Option::Some(
                if shift {
                    'S'
                } else {
                    's'
                },
            ),
            KeyCode::T => Option::Some(
                if shift {
                    'T'
                } else {
                    't'
                },
            ),
            KeyCode::U => Option::Some(
                if shift {
                    'U'
                } else {
                    'u'
                },
            ),
            KeyCode::V => Option::Some(
                if shift {
                    'V'
                } else {
                    'v'
                },
            ),
            KeyCode::W => Option::Some(
                if shift {
                    'W'
                } else {
                    'w'
                },
            ),
            KeyCode::X => Option::Some(
                if shift {
                    'X'
                } else {
                    'x'
                },
            ),
            KeyCode::Y => Option::Some(
                if shift {
                    'Y'
                } else {
                    'y'
                },
            ),
            KeyCode::Z => Option::Some(
                if shift {
                    'Z'
                } else {
                    'z'
                },
            ),
            KeyCode::Key0 => Option::Some(
                if event.modifiers.shift {
                    ')'
                } else {
                    '0'
                },
            ),
            KeyCode::Key1 => Option::Some(
                if event.modifiers.shift {
                    '!'
                } else {
                    '1'
                },
            ),
            KeyCode::Key2 => Option::Some(
                if event.modifiers.shift {
                    '@'
                } else {
                    '2'
                },
            ),
            KeyCode::Key3 => Option::Some(
                if event.modifiers.shift {
                    '#'
                } else {
                    '3'
                },
            ),
            KeyCode::Key4 => Option::Some(
                if event.modifiers.shift {
                    '$'
                } else {
                    '4'
                },
            ),
            KeyCode::Key5 => Option::Some(
                if event.modifiers.shift {
                    '%'
                } else {
                    '5'
                },
            ),
            KeyCode::Key6 => Option::Some(
                if event.modifiers.shift {
                    '^'
                } else {
                    '6'
                },
            ),
            KeyCode::Key7 => Option::Some(
                if event.modifiers.shift {
                    '&'
                } else {
                    '7'
                },
            ),
            KeyCode::Key8 => Option::Some(
                if event.modifiers.shift {
                    '*'
                } else {
                    '8'
                },
            ),
            KeyCode::Key9 => Option::Some(
                if event.modifiers.shift {
                    '('
                } else {
                    '9'
                },
            ),
            KeyCode::Minus => Option::Some(
                if event.modifiers.shift {
                    '_'
                } else {
                    '-'
                },
            ),
            KeyCode::Equals => Option::Some(
                if event.modifiers.shift {
                    '+'
                } else {
                    '='
                },
            ),
            KeyCode::LeftBracket => Option::Some(
                if event.modifiers.shift {
                    '{'
                } else {
                    '['
                },
            ),
            KeyCode::RightBracket => Option::Some(
                if event.modifiers.shift {
                    '}'
                } else {
                    ']'
                },
            ),
            KeyCode::Backslash => Option::Some(
                if event.modifiers.shift {
                    '|'
                } else {
                    '\\'
                },
            ),
            KeyCode::Semicolon => Option::Some(
                if event.modifiers.shift {
                    ':'
                } else {
                    ';'
                },
            ),
            KeyCode::Quote => Option::Some(
                if event.modifiers.shift {
                    '\"'
                } else {
                    '\''
                },
            ),
            KeyCode::Grave => Option::Some(
                if event.modifiers.shift {
                    '~'
                } else {
                    '`'
                },
            ),
            KeyCode::Comma => Option::Some(
                if event.modifiers.shift {
                    '<'
                } else {
                    ','
                },
            ),
            KeyCode::Period => Option::Some(
                if event.modifiers.shift {
                    '>'
                } else {
                    '.'
                },
            ),
            KeyCode::Slash => Option::Some(
                if event.modifiers.shift {
                    '?'
                } else {
                    '/'
                },
            ),
            KeyCode::Space => Option::Some(' '),
            KeyCode::Enter => Option::Some('\n'),
            KeyCode::Tab => Option::Some('\t'),
            KeyCode::Backspace => Option::Some('\x08'),
            KeyCode::Escape => Option::Some('\x1b'),
            KeyCode::Delete => Option::Some('\x7f'),
            KeyCode::Keypad0 => Option::Some('0'),
            KeyCode::Keypad1 => Option::Some('1'),
            KeyCode::Keypad2 => Option::Some('2'),
            KeyCode::Keypad3 => Option::Some('3'),
            KeyCode::Keypad4 => Option::Some('4'),
            KeyCode::Keypad5 => Option::Some('5'),
            KeyCode::Keypad6 => Option::Some('6'),
            KeyCode::Keypad7 => Option::Some('7'),
            KeyCode::Keypad8 => Option::Some('8'),
            KeyCode::Keypad9 => Option::Some('9'),
            KeyCode::KeypadPlus => Option::Some('+'),
            KeyCode::KeypadMinus => Option::Some('-'),
            KeyCode::KeypadMultiply => Option::Some('*'),
            KeyCode::KeypadDivide => Option::Some('/'),
            KeyCode::KeypadEnter => Option::Some('\n'),
            KeyCode::KeypadPeriod => Option::Some('.'),
            _ => Option::None,
        }
    }
}

/// Convert a key event to the character it types, if any: releases and
/// non-printable keys yield nothing, and the shift and caps-lock state
/// picks between the plain and shifted forms.
pub fn keyevent_to_char(event: &KeyEvent) -> (r: Option<char>)
    ensures
        r == spec_decode(*event),
        !event.pressed ==> r is None,
{
    if !event.pressed {
        return None;
    }
    let shift = event.modifiers.shift != event.modifiers.caps_lock;
    let c = match event.keycode {
        KeyCode::A => if shift {
            'A'
        } else {
            'a'
        },
        KeyCode::B => if shift {
            'B'
        } else {
            'b'
        },
        KeyCode::C => if shift {
            'C'
        } else {
            'c'
        },
        KeyCode::D => if shift {
            'D'
        } else {
            'd'
        },
        KeyCode::E => if shift {
            'E'
        } else {
            'e'
        },
        KeyCode::F => if shift {
            'F'
        } else {
            'f'
        },
        KeyCode::G => if shift {
            'G'
        } else {
            'g'
        },
        KeyCode::H => if shift {
            'H'
        } else {
            'h'
        },
        KeyCode::I => if shift {
            'I'
        } else {
            'i'
        },
        KeyCode::J => if shift {
            'J'
        } else {
            'j'
        },
        KeyCode::K => if shift {
            'K'
        } else {
            'k'
        },
        KeyCode::L => if shift {
            'L'
        } else {
            'l'
        },
        KeyCode::M => if shift {
            'M'
        } else {
            'm'
        },
        KeyCode::N => if shift {
            'N'
        } else {
            'n'
        },
        KeyCode::O => if shift {
            'O'
        } else {
            'o'
        },
        KeyCode::P => if shift {
            'P'
        } else {
            'p'
        },
        KeyCode::Q => if shift {
            'Q'
        } else {
            'q'
        },
        KeyCode::R => if shift {
            'R'
        } else {
            'r'
        },
        KeyCode::S => if shift {
            'S'
        } else {
            's'
        },
        KeyCode::T => if shift {
            'T'
        } else {
            't'
        },
        KeyCode::U => if shift {
            'U'
        } else {
            'u'
        },
        KeyCode::V => if shift {
            'V'
        } else {
            'v'
        },
        KeyCode::W => if shift {
            'W'
        } else {
            'w'
        },
        KeyCode::X => if shift {
            'X'
        } else {
            'x'
        },
        KeyCode::Y => if shift {
            'Y'
        } else {
            'y'
        },
        KeyCode::Z => if shift {
            'Z'
        } else {
            'z'
        },
        KeyCode::Key0 => if event.modifiers.shift {
            ')'
        } else {
            '0'
        },
        KeyCode::Key1 => if event.modifiers.shift {
            '!'
        } else {
            '1'
        },
        KeyCode::Key2 => if event.modifiers.shift {
            '@'
        } else {
            '2'
        },
        KeyCode::Key3 => if event.modifiers.shift {
            '#'
        } else {
            '3'
        },
        KeyCode::Key4 => if event.modifiers.shift {
            '$'
        } else {
            '4'
        },
        KeyCode::Key5 => if event.modifiers.shift {
            '%'
        } else {
            '5'
        },
        KeyCode::Key6 => if event.modifiers.shift {
            '^'
        } else {
            '6'
        },
        KeyCode::Key7 => if event.modifiers.shift {
            '&'
        } else {
            '7'
        },
        KeyCode::Key8 => if event.modifiers.shift {
            '*'
        } else {
            '8'
        },
        KeyCode::Key9 => if event.modifiers.shift {
            '('
        } else {
            '9'
        },
        KeyCode::Space => ' ',
        KeyCode::Enter => '\n',
        KeyCode::Tab => '\t',
        KeyCode::Backspace => '\x08',
        KeyCode::Escape => '\x1b',
        KeyCode::Delete => '\x7f',
        KeyCode::Minus => if event.modifiers.shift {
            '_'
        } else {
            '-'
        },
        KeyCode::Equals => if event.modifiers.shift {
            '+'
        } else {
            '='
        },
        KeyCode::LeftBracket => if event.modifiers.shift {
            '{'
        } else {
            '['
        },
        KeyCode::RightBracket => if event.modifiers.shift {
            '}'
        } else {
            ']'
        },
        KeyCode::Backslash => if event.modifiers.shift {
            '|'
        } else {
            '\\'
        },
        KeyCode::Semicolon => if event.modifiers.shift {
            ':'
        } else {
            ';'
        },
        KeyCode::Quote => if event.modifiers.shift {
            '"'
        } else {
            '\''
        },
        KeyCode::Grave => if event.modifiers.shift {
            '~'
        } else {
            '`'
        },
        KeyCode::Comma => if event.modifiers.shift {
            '<'
        } else {
            ','
        },
        KeyCode::Period => if event.modifiers.shift {
            '>'
        } else {
            '.'
        },
        KeyCode::Slash => if event.modifiers.shift {
            '?'
        } else {
            '/'
        },
        KeyCode::Keypad0 => '0',
        KeyCode::Keypad1 => '1',
        KeyCode::Keypad2 => '2',
        KeyCode::Keypad3 => '3',
        KeyCode::Keypad4 => '4',
        KeyCode::Keypad5 => '5',
        KeyCode::Keypad6 => '6',
        KeyCode::Keypad7 => '7',
        KeyCode::Keypad8 => '8',
        KeyCode::Keypad9 => '9',
        KeyCode::KeypadPlus => '+',
        KeyCode::KeypadMinus => '-',
        KeyCode::KeypadMultiply => '*',
        KeyCode::KeypadDivide => '/',
        KeyCode::KeypadEnter => '\n',
        KeyCode::KeypadPeriod => '.',
        _ => {
            return None;
        },
    };
    Some(c)
}

/// The keyboard's whole state: the queued events, whether the last byte
/// was the extended-key prefix, and the current modifier state.
pub struct Keyboard {
    buf: VecDeque<KeyEvent>,
    extended: bool,
    modifiers: Modifiers,
}

impl Keyboard {
    /// The queued events, oldest first.
    pub closed spec fn queue(self) -> Seq<KeyEvent> {
        self.buf@
    }

    /// Whether the extended-key prefix was the last byte seen.
    pub closed spec fn spec_extended(self) -> bool {
        self.extended
    }

    /// The current modifier state.
    pub closed spec fn spec_modifiers(self) -> Modifiers {
        self.modifiers
    }

    /// A keyboard with nothing queued, no prefix pending and no modifier
    /// held.
    pub fn new() -> (r: Keyboard)
        ensures
            r.queue().len() == 0,
            !r.spec_extended(),
            r.spec_modifiers() == (Modifiers {
                shift: false,
                ctrl: false,
                alt: false,
                caps_lock: false,
                num_lock: false,
            }),
    {
        Keyboard {
            buf: VecDeque::new(),
            extended: false,
            modifiers: Modifiers {
                shift: false,
                ctrl: false,
                alt: false,
                caps_lock: false,
                num_lock: false,
            },
        }
    }

    /// Decode one scancode into a key event, updating the modifier state
    /// it carries.
    pub fn handle_scancode(&mut self, scancode: u8, extended: bool) -> (r: KeyEvent)
        ensures
            r == spec_scancode_event(extended, old(self).spec_modifiers(), scancode),
            r.scancode == scancode,
            r.pressed == (scancode & 0x80 == 0),
            r.modifiers == final(self).spec_modifiers(),
            final(self).spec_modifiers() == spec_modifiers_after(
                old(self).spec_modifiers(),
                r.keycode,
                r.pressed,
            ),
            final(self).queue() == old(self).queue(),
            final(self).spec_extended() == old(self).spec_extended(),
    {
        let pressed = scancode & 0x80 == 0;
        let code = scancode & 0x7F;
        let keycode = if extended {
            extended_scancode_to_keycode(code)
        } else {
            scancode_to_keycode(code)
        };
        match keycode {
            KeyCode::LeftShift | KeyCode::RightShift => {
                self.modifiers.shift = pressed;
            },
            KeyCode::LeftCtrl | KeyCode::RightCtrl => {
                self.modifiers.ctrl = pressed;
            },
            KeyCode::LeftAlt | KeyCode::RightAlt => {
                self.modifiers.alt = pressed;
            },
            KeyCode::CapsLock => {
                if pressed {
                    self.modifiers.caps_lock = !self.modifiers.caps_lock;
                }
            },
            KeyCode::NumLock => {
                if pressed {
                    self.modifiers.num_lock = !self.modifiers.num_lock;
                }
            },
            _ => {},
        }
        let modifiers = self.modifiers;
        KeyEvent { scancode, keycode, modifiers, pressed }
    }

    /// Feed one raw byte from the keyboard port into the state machine.
    /// The extended prefix is latched for the following byte; any other
    /// byte becomes an event, queued unless the queue is full.
    pub fn handle_interrupt(&mut self, scancode: u8)
        ensures
            scancode == 0xE0 ==> final(self).spec_extended() && final(self).queue() == old(
                self,
            ).queue() && final(self).spec_modifiers() == old(self).spec_modifiers(),
            scancode != 0xE0 ==> {
                let ev = spec_scancode_event(
                    old(self).spec_extended(),
                    old(self).spec_modifiers(),
                    scancode,
                );
                &&& !final(self).spec_extended()
                &&& final(self).spec_modifiers() == ev.modifiers
                &&& if old(self).queue().len() < KEYBOARD_BUFFER_LIMIT {
                    final(self).queue() == old(self).queue().push(ev)
                } else {
                    final(self).queue() == old(self).queue()
                }
            },
    {
        if scancode == 0xE0 {
            self.extended = true;
            return ;
        }
        let is_extended = self.extended;
        self.extended = false;
        let event = self.handle_scancode(scancode, is_extended);
        if self.buf.len() < KEYBOARD_BUFFER_LIMIT {
            self.buf.push_back(event);
        }
    }

    /// Pop the oldest queued event, if any.
    pub fn read_key(&mut self) -> (r: Option<KeyEvent>)
        ensures
            old(self).queue().len() == 0 ==> r is None && final(self).queue() == old(self).queue(),
            old(self).queue().len() > 0 ==> r == Some(old(self).queue()[0]) && final(self).queue()
                == old(self).queue().drop_first(),
            final(self).spec_modifiers() == old(self).spec_modifiers(),
            final(self).spec_extended() == old(self).spec_extended(),
    {
        self.buf.pop_front()
    }

    /// Pop the oldest queued event and convert it to a character.
    pub fn read_char(&mut self) -> (r: Option<char>)
        ensures
            old(self).queue().len() == 0 ==> r is None,
            old(self).queue().len() > 0 ==> r == spec_decode(old(self).queue()[0]),
            final(self).queue().len() == (if old(self).queue().len() > 0 {
                old(self).queue().len() - 1
            } else {
                0
            }),
            r is Some ==> old(self).queue()[0].pressed,
    {
        if let Some(event) = self.read_key() {
            keyevent_to_char(&event)
        } else {
            None
        }
    }

    /// Pop events until one types a character, and return it; nothing is
    /// returned only once the queue is exhausted.
    pub fn get_char(&mut self) -> (r: Option<char>)
        ensures
            r is None ==> final(self).queue().len() == 0,
            exists|k: int|
                0 <= k <= old(self).queue().len() && final(self).queue() == old(
                    self,
                ).queue().skip(k),
    {
        let ghost q0 = self.queue();
        proof {
            assert(q0.skip(0) =~= q0);
            assert(self.queue() == q0.skip(0));
        }
        loop
            invariant
                q0 == old(self).queue(),
                exists|k: int| 0 <= k <= q0.len() && self.queue() == q0.skip(k),
            decreases self.queue().len(),
        {
            let ghost qpre = self.queue();
            match self.read_key() {
                None => {
                    return None;
                },
                Some(event) => {
                    proof {
                        let k = choose|k: int| 0 <= k <= q0.len() && qpre == q0.skip(k);
                        assert(self.queue() == q0.skip(k + 1)) by {
                            assert(qpre.drop_first() =~= q0.skip(k + 1));
                        }
                    }
                    if let Some(c) = keyevent_to_char(&event) {
                        return Some(c);
                    }
                },
            }
        }
    }

    /// Whether any key event is queued.
    pub fn has_key(&self) -> (r: bool)
        ensures
            r == (self.queue().len() > 0),
    {
        self.buf.len() > 0
    }
}

/// Set up the keyboard: a fresh state machine with an empty queue.
pub fn init() -> (r: Keyboard)
    ensures
        r.queue().len() == 0,
        !r.spec_extended(),
{
    Keyboard::new()
}

} // verus!

//! Keycodes of a PC keyboard and their ASCII values.
//!
//! A keyboard reports each key press as a scancode. This module names the
//! keys that the first scancode set knows, and gives the ASCII character that
//! a key stands for under the modifier keys held at the time.

use vstd::prelude::*;

verus! {

/// Which modifier keys are held down or locked.
#[derive(Debug, Copy, Clone)]
pub struct KeyboardModifiers {
    /// A Control key is held down.
    pub control: bool,
    /// An Alt key is held down.
    pub alt: bool,
    /// A Shift key is held down.
    pub shift: bool,
    /// Caps Lock is on.
    pub caps_lock: bool,
    /// Num Lock is on.
    pub num_lock: bool,
}

impl KeyboardModifiers {
    /// No modifier held, no lock on.
    pub fn new() -> (modifiers: KeyboardModifiers)
        ensures
            !modifiers.control,
            !modifiers.alt,
            !modifiers.shift,
            !modifiers.caps_lock,
            !modifiers.num_lock,
    {
        KeyboardModifiers {
            control: false,
            alt: false,
            shift: false,
            caps_lock: false,
            num_lock: false,
        }
    }
}

/// A key's release is reported as its scancode plus this offset.
pub const KEY_RELEASED_OFFSET: u8 = 128;

/// The number of scancodes that name a key: the scancodes below it do.
pub const KEYCODE_COUNT: u8 = 94;

/// Convenience function for obtaining the ASCII value for a raw scancode
/// under the given modifiers.
pub fn scancode_to_ascii(modifiers: &KeyboardModifiers, scan_code: u8) -> (ascii: Option<u8>)
    ensures
        ascii == (match Keycode::with_scancode(scan_code) {
            Some(keycode) => keycode.ascii_under(*modifiers),
            None => None,
        }),
{
    if let Some(keycode) = Keycode::from_scancode(scan_code) {
        keycode.to_ascii(modifiers)
    } else {
        None
    }
}

/// The keys, in the order of their scancodes.
#[derive(Debug, PartialEq, Eq, Structural, Clone, Copy)]
pub enum Keycode {
    OverflowError,
    Escape,
    Num1,
    Num2,
    Num3,
    Num4,
    Num5,
    Num6,
    Num7,
    Num8,
    Num9,
    Num0,
    Minus,
    Equals,
    Backspace,
    Tab,
    Q,
    W,
    E,
    R,
    T,
    Y,
    U,
    I,
    O,
    P,
    LeftBracket,
    RightBracket,
    Enter,
    Control,
    A,
    S,
    D,
    F,
    G,
    H,
    J,
    K,
    L,
    Semicolon,
    Quote,
    Backtick,
    LeftShift,
    Backslash,
    Z,
    X,
    C,
    V,
    B,
    N,
    M,
    Comma,
    Period,
    Slash,
    RightShift,
    /// Also PrintScreen.
    PadMultiply,
    Alt,
    Space,
    CapsLock,
    F1,
    F2,
    F3,
    F4,
    F5,
    F6,
    F7,
    F8,
    F9,
    F10,
    NumLock,
    ScrollLock,
    /// Also Pad7.
    Home,
    /// Also Pad8.
    Up,
    /// Also Pad9.
    PageUp,
    PadMinus,
    /// Also Pad4.
    Left,
    Pad5,
    /// Also Pad6.
    Right,
    PadPlus,
    /// Also Pad1.
    End,
    /// Also Pad2.
    Down,
    /// Also Pad3.
    PageDown,
    /// Also Pad0.
    Insert,
    /// Also PadDecimal.
    Delete,
    Unknown1,
    Unknown2,
    NonUsBackslash,
    F11,
    F12,
    Pause,
    Unknown3,
    LeftGui,
    RightGui,
    Menu,
}

impl Keycode {
    /// The scancode that the keyboard sends when the key is pressed.
    pub open spec fn scancode(self) -> u8 {
        match self {
            Keycode::OverflowError => 0,
            Keycode::Escape => 1,
            Keycode::Num1 => 2,
            Keycode::Num2 => 3,
            Keycode::Num3 => 4,
            Keycode::Num4 => 5,
            Keycode::Num5 => 6,
            Keycode::Num6 => 7,
            Keycode::Num7 => 8,
            Keycode::Num8 => 9,
            Keycode::Num9 => 10,
            Keycode::Num0 => 11,
            Keycode::Minus => 12,
            Keycode::Equals => 13,
            Keycode::Backspace => 14,
            Keycode::Tab => 15,
            Keycode::Q => 16,
            Keycode::W => 17,
            Keycode::E => 18,
            Keycode::R => 19,
            Keycode::T => 20,
            Keycode::Y => 21,
            Keycode::U => 22,
            Keycode::I => 23,
            Keycode::O => 24,
            Keycode::P => 25,
            Keycode::LeftBracket => 26,
            Keycode::RightBracket => 27,
            Keycode::Enter => 28,
            Keycode::Control => 29,
            Keycode::A => 30,
            Keycode::S => 31,
            Keycode::D => 32,
            Keycode::F => 33,
            Keycode::G => 34,
            Keycode::H => 35,
            Keycode::J => 36,
            Keycode::K => 37,
            Keycode::L => 38,
            Keycode::Semicolon => 39,
            Keycode::Quote => 40,
            Keycode::Backtick => 41,
            Keycode::LeftShift => 42,
            Keycode::Backslash => 43,
            Keycode::Z => 44,
            Keycode::X => 45,
            Keycode::C => 46,
            Keycode::V => 47,
            Keycode::B => 48,
            Keycode::N => 49,
            Keycode::M => 50,
            Keycode::Comma => 51,
            Keycode::Period => 52,
            Keycode::Slash => 53,
            Keycode::RightShift => 54,
            Keycode::PadMultiply => 55,
            Keycode::Alt => 56,
            Keycode::Space => 57,
            Keycode::CapsLock => 58,
            Keycode::F1 => 59,
            Keycode::F2 => 60,
            Keycode::F3 => 61,
            Keycode::F4 => 62,
            Keycode::F5 => 63,
            Keycode::F6 => 64,
            Keycode::F7 => 65,
            Keycode::F8 => 66,
            Keycode::F9 => 67,
            Keycode::F10 => 68,
            Keycode::NumLock => 69,
            Keycode::ScrollLock => 70,
            Keycode::Home => 71,
            Keycode::Up => 72,
            Keycode::PageUp => 73,
            Keycode::PadMinus => 74,
            Keycode::Left => 75,
            Keycode::Pad5 => 76,
            Keycode::Right => 77,
            Keycode::PadPlus => 78,
            Keycode::End => 79,
            Keycode::Down => 80,
            Keycode::PageDown => 81,
            Keycode::Insert => 82,
            Keycode::Delete => 83,
            Keycode::Unknown1 => 84,
            Keycode::Unknown2 => 85,
            Keycode::NonUsBackslash => 86,
            Keycode::F11 => 87,
            Keycode::F12 => 88,
            Keycode::Pause => 89,
            Keycode::Unknown3 => 90,
            Keycode::LeftGui => 91,
            Keycode::RightGui => 92,
            Keycode::Menu => 93,
        }
    }

    /// The key that sends the given scancode, if there is one.
    pub open spec fn with_scancode(scancode: u8) -> Option<Keycode> {
        if scancode < KEYCODE_COUNT {
            Some(choose|key: Keycode| key.scancode() == scancode)
        } else {
            None
        }
    }

    /// Whether the key is one of the letters A to Z.
    pub open spec fn letter(self) -> bool {
        matches!(
            self,
            Keycode::Q
            | Keycode::W
            | Keycode::E
            | Keycode::R
            | Keycode::T
            | Keycode::Y
            | Keycode::U
            | Keycode::I
            | Keycode::O
            | Keycode::P
            | Keycode::A
            | Keycode::S
            | Keycode::D
            | Keycode::F
            | Keycode::G
            | Keycode::H
            | Keycode::J
            | Keycode::K
            | Keycode::L
            | Keycode::Z
            | Keycode::X
            | Keycode::C
            | Keycode::V
            | Keycode::B
            | Keycode::N
            | Keycode::M
        )
    }

    /// The ASCII value of the key with no modifier: lower-case letters,
    /// digits, punctuation and a few control characters. The other keys have
    /// none.
    pub open spec fn plain_ascii(self) -> Option<u8> {
        match self {
            Keycode::Escape => Some(27),  // escape
            Keycode::Num1 => Some(49),  // `1`
            Keycode::Num2 => Some(50),  // `2`
            Keycode::Num3 => Some(51),  // `3`
            Keycode::Num4 => Some(52),  // `4`
            Keycode::Num5 => Some(53),  // `5`
            Keycode::Num6 => Some(54),  // `6`
            Keycode::Num7 => Some(55),  // `7`
            Keycode::Num8 => Some(56),  // `8`
            Keycode::Num9 => Some(57),  // `9`
            Keycode::Num0 => Some(48),  // `0`
            Keycode::Minus => Some(45),  // `-`
            Keycode::Equals => Some(61),  // `=`
            Keycode::Backspace => Some(8),  // backspace
            Keycode::Tab => Some(9),  // tab
            Keycode::Q => Some(113),  // `q`
            Keycode::W => Some(119),  // `w`
            Keycode::E => Some(101),  // `e`
            Keycode::R => Some(114),  // `r`
            Keycode::T => Some(116),  // `t`
            Keycode::Y => Some(121),  // `y`
            Keycode::U => Some(117),  // `u`
            Keycode::I => Some(105),  // `i`
            Keycode::O => Some(111),  // `o`
            Keycode::P => Some(112),  // `p`
            Keycode::LeftBracket => Some(91),  // `[`
            Keycode::RightBracket => Some(93),  // `]`
            Keycode::Enter => Some(13),  // carriage return
            Keycode::A => Some(97),  // `a`
            Keycode::S => Some(115),  // `s`
            Keycode::D => Some(100),  // `d`
            Keycode::F => Some(102),  // `f`
            Keycode::G => Some(103),  // `g`
            Keycode::H => Some(104),  // `h`
            Keycode::J => Some(106),  // `j`
            Keycode::K => Some(107),  // `k`
            Keycode::L => Some(108),  // `l`
            Keycode::Semicolon => Some(59),  // `;`
            Keycode::Quote => Some(39),  // `'`
            Keycode::Backtick => Some(96),  // ```
            Keycode::Backslash => Some(92),  // `\`
            Keycode::Z => Some(122),  // `z`
            Keycode::X => Some(120),  // `x`
            Keycode::C => Some(99),  // `c`
            Keycode::V => Some(118),  // `v`
            Keycode::B => Some(98),  // `b`
            Keycode::N => Some(110),  // `n`
            Keycode::M => Some(109),  // `m`
            Keycode::Comma => Some(44),  // `,`
            Keycode::Period => Some(46),  // `.`
            Keycode::Slash => Some(47),  // `/`
            Keycode::Space => Some(32),  // space
            Keycode::PadMultiply => Some(42),  // `*`
            Keycode::PadMinus => Some(45),  // `-`
            Keycode::PadPlus => Some(43),  // `+`
            _ => None,
        }
    }

    /// The ASCII value of the key with Shift held: letters turn to upper
    /// case, digits and punctuation to the symbol printed above them, and
    /// every other key keeps its plain value.
    pub open spec fn shifted_ascii(self) -> Option<u8> {
        if self.letter() {
            Some((self.plain_ascii().unwrap() - 32) as u8)
        } else {
            match self {
                Keycode::Num1 => Some(33),  // `!`
                Keycode::Num2 => Some(64),  // `@`
                Keycode::Num3 => Some(35),  // `#`
                Keycode::Num4 => Some(36),  // `$`
                Keycode::Num5 => Some(37),  // `%`
                Keycode::Num6 => Some(94),  // `^`
                Keycode::Num7 => Some(38),  // `&`
                Keycode::Num8 => Some(42),  // `*`
                Keycode::Num9 => Some(40),  // `(`
                Keycode::Num0 => Some(41),  // `)`
                Keycode::Minus => Some(95),  // `_`
                Keycode::Equals => Some(43),  // `+`
                Keycode::LeftBracket => Some(123),  // `{`
                Keycode::RightBracket => Some(125),  // `}`
                Keycode::Semicolon => Some(58),  // `:`
                Keycode::Quote => Some(34),  // `"`
                Keycode::Backtick => Some(126),  // `~`
                Keycode::Backslash => Some(124),  // `|`
                Keycode::Comma => Some(60),  // `<`
                Keycode::Period => Some(62),  // `>`
                Keycode::Slash => Some(63),  // `?`
                _ => self.plain_ascii(),
            }
        }
    }

    /// The ASCII value of the key under the given modifiers. Shift and Caps
    /// Lock each turn a letter to upper case and cancel each other; Caps Lock
    /// leaves the other keys alone. With neither of the two, the key gives no
    /// character.
    pub open spec fn ascii_under(self, modifiers: KeyboardModifiers) -> Option<u8> {
        if !modifiers.shift && !modifiers.caps_lock {
            None
        } else if modifiers.shift != (modifiers.caps_lock && self.letter()) {
            self.shifted_ascii()
        } else {
            self.plain_ascii()
        }
    }

    /// The key that a scancode names, if it names one.
    pub fn from_scancode(scancode: u8) -> (keycode: Option<Keycode>)
        ensures
            keycode == Keycode::with_scancode(scancode),
            keycode is Some == (scancode < KEYCODE_COUNT),
            keycode matches Some(key) ==> key.scancode() == scancode,
    {
        let keycode = match scancode {
            0 => Some(Keycode::OverflowError),
            1 => Some(Keycode::Escape),
            2 => Some(Keycode::Num1),
            3 => Some(Keycode::Num2),
            4 => Some(Keycode::Num3),
            5 => Some(Keycode::Num4),
            6 => Some(Keycode::Num5),
            7 => Some(Keycode::Num6),
            8 => Some(Keycode::Num7),
            9 => Some(Keycode::Num8),
            10 => Some(Keycode::Num9),
            11 => Some(Keycode::Num0),
            12 => Some(Keycode::Minus),
            13 => Some(Keycode::Equals),
            14 => Some(Keycode::Backspace),
            15 => Some(Keycode::Tab),
            16 => Some(Keycode::Q),
            17 => Some(Keycode::W),
            18 => Some(Keycode::E),
            19 => Some(Keycode::R),
            20 => Some(Keycode::T),
            21 => Some(Keycode::Y),
            22 => Some(Keycode::U),
            23 => Some(Keycode::I),
            24 => Some(Keycode::O),
            25 => Some(Keycode::P),
            26 => Some(Keycode::LeftBracket),
            27 => Some(Keycode::RightBracket),
            28 => Some(Keycode::Enter),
            29 => Some(Keycode::Control),
            30 => Some(Keycode::A),
            31 => Some(Keycode::S),
            32 => Some(Keycode::D),
            33 => Some(Keycode::F),
            34 => Some(Keycode::G),
            35 => Some(Keycode::H),
            36 => Some(Keycode::J),
            37 => Some(Keycode::K),
            38 => Some(Keycode::L),
            39 => Some(Keycode::Semicolon),
            40 => Some(Keycode::Quote),
            41 => Some(Keycode::Backtick),
            42 => Some(Keycode::LeftShift),
            43 => Some(Keycode::Backslash),
            44 => Some(Keycode::Z),
            45 => Some(Keycode::X),
            46 => Some(Keycode::C),
            47 => Some(Keycode::V),
            48 => Some(Keycode::B),
            49 => Some(Keycode::N),
            50 => Some(Keycode::M),
            51 => Some(Keycode::Comma),
            52 => Some(Keycode::Period),
            53 => Some(Keycode::Slash),
            54 => Some(Keycode::RightShift),
            55 => Some(Keycode::PadMultiply),
            56 => Some(Keycode::Alt),
            57 => Some(Keycode::Space),
            58 => Some(Keycode::CapsLock),
            59 => Some(Keycode::F1),
            60 => Some(Keycode::F2),
            61 => Some(Keycode::F3),
            62 => Some(Keycode::F4),
            63 => Some(Keycode::F5),
            64 => Some(Keycode::F6),
            65 => Some(Keycode::F7),
            66 => Some(Keycode::F8),
            67 => Some(Keycode::F9),
            68 => Some(Keycode::F10),
            69 => Some(Keycode::NumLock),
            70 => Some(Keycode::ScrollLock),
            71 => Some(Keycode::Home),
            72 => Some(Keycode::Up),
            73 => Some(Keycode::PageUp),
            74 => Some(Keycode::PadMinus),
            75 => Some(Keycode::Left),
            76 => Some(Keycode::Pad5),
            77 => Some(Keycode::Right),
            78 => Some(Keycode::PadPlus),
            79 => Some(Keycode::End),
            80 => Some(Keycode::Down),
            81 => Some(Keycode::PageDown),
            82 => Some(Keycode::Insert),
            83 => Some(Keycode::Delete),
            84 => Some(Keycode::Unknown1),
            85 => Some(Keycode::Unknown2),
            86 => Some(Keycode::NonUsBackslash),
            87 => Some(Keycode::F11),
            88 => Some(Keycode::F12),
            89 => Some(Keycode::Pause),
            90 => Some(Keycode::Unknown3),
            91 => Some(Keycode::LeftGui),
            92 => Some(Keycode::RightGui),
            93 => Some(Keycode::Menu),
            _ => None,
        };
        proof {
            if let Some(key) = keycode {
                key.lemma_with_scancode();
            }
        }
        keycode
    }

    /// Obtains the ASCII value for a keycode under the given modifiers.
    pub fn to_ascii(&self, modifiers: &KeyboardModifiers) -> (ascii: Option<u8>)
        ensures
            ascii == self.ascii_under(*modifiers),
    {
        // handle shift key being pressed
        if modifiers.shift {
            // if shift is pressed and caps lock is on, give a regular lowercase letter
            if modifiers.caps_lock && self.is_letter() {
                return self.as_ascii();
            }
            // if shift is pressed and caps lock is not, give a regular shifted key
             else {
                return self.as_ascii_shifted();
            }
        }
        // just a regular caps_lock, no shift pressed
        // (shift together with caps_lock was handled above)

        if modifiers.caps_lock {
            if self.is_letter() {
                return self.as_ascii_shifted();
            } else {
                return self.as_ascii();
            }
        }
        None
    }

    /// Returns true if this keycode was a letter from A-Z.
    pub fn is_letter(&self) -> (letter: bool)
        ensures
            letter == self.letter(),
    {
        match *self {
            Keycode::Q
            | Keycode::W
            | Keycode::E
            | Keycode::R
            | Keycode::T
            | Keycode::Y
            | Keycode::U
            | Keycode::I
            | Keycode::O
            | Keycode::P
            | Keycode::A
            | Keycode::S
            | Keycode::D
            | Keycode::F
            | Keycode::G
            | Keycode::H
            | Keycode::J
            | Keycode::K
            | Keycode::L
            | Keycode::Z
            | Keycode::X
            | Keycode::C
            | Keycode::V
            | Keycode::B
            | Keycode::N
            | Keycode::M => true,
            _ => false,
        }
    }

    /// Maps a keycode to its ASCII value without any "shift" modifiers.
    pub fn as_ascii(&self) -> (ascii: Option<u8>)
        ensures
            ascii == self.plain_ascii(),
    {
        match *self {
            Keycode::Escape => Some(27),
            Keycode::Num1 => Some('1' as u8),
            Keycode::Num2 => Some('2' as u8),
            Keycode::Num3 => Some('3' as u8),
            Keycode::Num4 => Some('4' as u8),
            Keycode::Num5 => Some('5' as u8),
            Keycode::Num6 => Some('6' as u8),
            Keycode::Num7 => Some('7' as u8),
            Keycode::Num8 => Some('8' as u8),
            Keycode::Num9 => Some('9' as u8),
            Keycode::Num0 => Some('0' as u8),
            Keycode::Minus => Some('-' as u8),
            Keycode::Equals => Some('=' as u8),
            Keycode::Backspace => Some(8),
            Keycode::Tab => Some(9),
            Keycode::Q => Some('q' as u8),
            Keycode::W => Some('w' as u8),
            Keycode::E => Some('e' as u8),
            Keycode::R => Some('r' as u8),
            Keycode::T => Some('t' as u8),
            Keycode::Y => Some('y' as u8),
            Keycode::U => Some('u' as u8),
            Keycode::I => Some('i' as u8),
            Keycode::O => Some('o' as u8),
            Keycode::P => Some('p' as u8),
            Keycode::LeftBracket => Some('[' as u8),
            Keycode::RightBracket => Some(']' as u8),
            Keycode::Enter => Some(13),
            Keycode::A => Some('a' as u8),
            Keycode::S => Some('s' as u8),
            Keycode::D => Some('d' as u8),
            Keycode::F => Some('f' as u8),
            Keycode::G => Some('g' as u8),
            Keycode::H => Some('h' as u8),
            Keycode::J => Some('j' as u8),
            Keycode::K => Some('k' as u8),
            Keycode::L => Some('l' as u8),
            Keycode::Semicolon => Some(';' as u8),
            Keycode::Quote => Some('\'' as u8),
            Keycode::Backtick => Some('`' as u8),
            Keycode::Backslash => Some('\\' as u8),
            Keycode::Z => Some('z' as u8),
            Keycode::X => Some('x' as u8),
            Keycode::C => Some('c' as u8),
            Keycode::V => Some('v' as u8),
            Keycode::B => Some('b' as u8),
            Keycode::N => Some('n' as u8),
            Keycode::M => Some('m' as u8),
            Keycode::Comma => Some(',' as u8),
            Keycode::Period => Some('.' as u8),
            Keycode::Slash => Some('/' as u8),
            Keycode::Space => Some(' ' as u8),
            Keycode::PadMultiply => Some('*' as u8),
            Keycode::PadMinus => Some('-' as u8),
            Keycode::PadPlus => Some('+' as u8),
            _ => None,
        }
    }

    /// Same as `as_ascii`, but adds the effect of the "shift" modifier key.
    /// If a keycode's ASCII value doesn't change when shifted, then it
    /// defaults to its non-shifted value as returned by `as_ascii`.
    pub fn as_ascii_shifted(&self) -> (ascii: Option<u8>)
        ensures
            ascii == self.shifted_ascii(),
    {
        match *self {
            Keycode::Num1 => Some('!' as u8),
            Keycode::Num2 => Some('@' as u8),
            Keycode::Num3 => Some('#' as u8),
            Keycode::Num4 => Some('$' as u8),
            Keycode::Num5 => Some('%' as u8),
            Keycode::Num6 => Some('^' as u8),
            Keycode::Num7 => Some('&' as u8),
            Keycode::Num8 => Some('*' as u8),
            Keycode::Num9 => Some('(' as u8),
            Keycode::Num0 => Some(')' as u8),
            Keycode::Minus => Some('_' as u8),
            Keycode::Equals => Some('+' as u8),
            Keycode::Q => Some('Q' as u8),
            Keycode::W => Some('W' as u8),
            Keycode::E => Some('E' as u8),
            Keycode::R => Some('R' as u8),
            Keycode::T => Some('T' as u8),
            Keycode::Y => Some('Y' as u8),
            Keycode::U => Some('U' as u8),
            Keycode::I => Some('I' as u8),
            Keycode::O => Some('O' as u8),
            Keycode::P => Some('P' as u8),
            Keycode::LeftBracket => Some('{' as u8),
            Keycode::RightBracket => Some('}' as u8),
            Keycode::A => Some('A' as u8),
            Keycode::S => Some('S' as u8),
            Keycode::D => Some('D' as u8),
            Keycode::F => Some('F' as u8),
            Keycode::G => Some('G' as u8),
            Keycode::H => Some('H' as u8),
            Keycode::J => Some('J' as u8),
            Keycode::K => Some('K' as u8),
            Keycode::L => Some('L' as u8),
            Keycode::Semicolon => Some(':' as u8),
            Keycode::Quote => Some('"' as u8),
            Keycode::Backtick => Some('~' as u8),
            Keycode::Backslash => Some('|' as u8),
            Keycode::Z => Some('Z' as u8),
            Keycode::X => Some('X' as u8),
            Keycode::C => Some('C' as u8),
            Keycode::V => Some('V' as u8),
            Keycode::B => Some('B' as u8),
            Keycode::N => Some('N' as u8),
            Keycode::M => Some('M' as u8),
            Keycode::Comma => Some('<' as u8),
            Keycode::Period => Some('>' as u8),
            Keycode::Slash => Some('?' as u8),
            _ => self.as_ascii(),
        }
    }

    /// Every key has a scancode of its own, and the scancodes are the numbers
    /// below `KEYCODE_COUNT`.
    pub proof fn lemma_scancode_injective(self, other: Keycode)
        ensures
            self.scancode() < KEYCODE_COUNT,
            self.scancode() == other.scancode() ==> self == other,
    {
    }

    /// Looking up a key's scancode gives back the key.
    pub proof fn lemma_with_scancode(self)
        ensures
            Keycode::with_scancode(self.scancode()) == Some(self),
    {
        let found = choose|key: Keycode| key.scancode() == self.scancode();
        found.lemma_scancode_injective(self);
    }

    /// The letters are the keys whose plain value is a lower-case ASCII
    /// letter, and Shift turns each into the upper-case letter.
    pub proof fn lemma_letters(self)
        ensures
            // `a` to `z`
            self.letter() == (self.plain_ascii() matches Some(c) && 97 <= c <= 122),
            // `A` to `Z`
            self.letter() ==> (self.shifted_ascii() matches Some(c) && 65 <= c <= 90),
    {
    }

    /// A key has a shifted value exactly when it has a plain one.
    pub proof fn lemma_shifted_iff_plain(self)
        ensures
            self.shifted_ascii() is Some == self.plain_ascii() is Some,
    {
    }
}

} // verus!

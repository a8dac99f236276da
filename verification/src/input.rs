//! Keyboard keys as the game sees them.

use vstd::prelude::*;

verus! {

/// A key the game reacts to.
#[derive(Clone, Copy, PartialEq, Eq, Structural, Debug)]
pub enum KeyCode {
    A,
    B,
    C,
    D,
    E,
    F,
    G,
    H,
    I,
    J,
    K,
    L,
    M,
    N,
    O,
    P,
    Q,
    R,
    S,
    T,
    U,
    V,
    W,
    X,
    Y,
    Z,
    Num0,
    Num1,
    Num2,
    Num3,
    Num4,
    Num5,
    Num6,
    Num7,
    Num8,
    Num9,
    Left,
    Right,
    Up,
    Down,
    Escape,
    Backspace,
    Return,
    Delete,
    Space,
}

/// The character a key enters into a text field, if any.
pub open spec fn to_char_spec(k: KeyCode) -> Option<char> {
    match k {
        KeyCode::A => Some('A'),
        KeyCode::B => Some('B'),
        KeyCode::C => Some('C'),
        KeyCode::D => Some('D'),
        KeyCode::E => Some('E'),
        KeyCode::F => Some('F'),
        KeyCode::G => Some('G'),
        KeyCode::H => Some('H'),
        KeyCode::I => Some('I'),
        KeyCode::J => Some('J'),
        KeyCode::K => Some('K'),
        KeyCode::L => Some('L'),
        KeyCode::M => Some('M'),
        KeyCode::N => Some('N'),
        KeyCode::O => Some('O'),
        KeyCode::P => Some('P'),
        KeyCode::Q => Some('Q'),
        KeyCode::R => Some('R'),
        KeyCode::S => Some('S'),
        KeyCode::T => Some('T'),
        KeyCode::U => Some('U'),
        KeyCode::V => Some('V'),
        KeyCode::W => Some('W'),
        KeyCode::X => Some('X'),
        KeyCode::Y => Some('Y'),
        KeyCode::Z => Some('Z'),
        KeyCode::Num0 => Some('0'),
        KeyCode::Num1 => Some('1'),
        KeyCode::Num2 => Some('2'),
        KeyCode::Num3 => Some('3'),
        KeyCode::Num4 => Some('4'),
        KeyCode::Num5 => Some('5'),
        KeyCode::Num6 => Some('6'),
        KeyCode::Num7 => Some('7'),
        KeyCode::Num8 => Some('8'),
        KeyCode::Num9 => Some('9'),
        _ => None,
    }
}

impl KeyCode {
    /// The character this key enters into a text field: letters and digits
    /// map to themselves, every other key to nothing.
    pub fn to_char(&self) -> (r: Option<char>)
        ensures
            r == to_char_spec(*self),
    {
        match self {
            KeyCode::A => Some('A'),
            KeyCode::B => Some('B'),
            KeyCode::C => Some('C'),
            KeyCode::D => Some('D'),
            KeyCode::E => Some('E'),
            KeyCode::F => Some('F'),
            KeyCode::G => Some('G'),
            KeyCode::H => Some('H'),
            KeyCode::I => Some('I'),
            KeyCode::J => Some('J'),
            KeyCode::K => Some('K'),
            KeyCode::L => Some('L'),
            KeyCode::M => Some('M'),
            KeyCode::N => Some('N'),
            KeyCode::O => Some('O'),
            KeyCode::P => Some('P'),
            KeyCode::Q => Some('Q'),
            KeyCode::R => Some('R'),
            KeyCode::S => Some('S'),
            KeyCode::T => Some('T'),
            KeyCode::U => Some('U'),
            KeyCode::V => Some('V'),
            KeyCode::W => Some('W'),
            KeyCode::X => Some('X'),
            KeyCode::Y => Some('Y'),
            KeyCode::Z => Some('Z'),
            KeyCode::Num0 => Some('0'),
            KeyCode::Num1 => Some('1'),
            KeyCode::Num2 => Some('2'),
            KeyCode::Num3 => Some('3'),
            KeyCode::Num4 => Some('4'),
            KeyCode::Num5 => Some('5'),
            KeyCode::Num6 => Some('6'),
            KeyCode::Num7 => Some('7'),
            KeyCode::Num8 => Some('8'),
            KeyCode::Num9 => Some('9'),
            _ => None,
        }
    }
}

} // verus!

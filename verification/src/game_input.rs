use vstd::prelude::*;

verus! {

/// One application-level input symbol: the closed set of buttons that the
/// remote control can produce — the ten digits, Submit and Backspace.
#[derive(Clone, Copy, PartialEq, Eq, Structural, Debug)]
pub enum GameInput {
    One,
    Two,
    Three,
    Four,
    Five,
    Six,
    Seven,
    Eight,
    Nine,
    Zero,
    Submit,
    Backspace,
}

impl GameInput {
    /// The ASCII byte that stands for this symbol on the wire to the
    /// application: the digit characters, `s` for Submit, `b` for Backspace.
    pub open spec fn spec_ascii_code(self) -> u8 {
        match self {
            GameInput::One => 49u8,
            GameInput::Two => 50u8,
            GameInput::Three => 51u8,
            GameInput::Four => 52u8,
            GameInput::Five => 53u8,
            GameInput::Six => 54u8,
            GameInput::Seven => 55u8,
            GameInput::Eight => 56u8,
            GameInput::Nine => 57u8,
            GameInput::Zero => 48u8,
            GameInput::Submit => 115u8,
            GameInput::Backspace => 98u8,
        }
    }

    /// Returns the ASCII byte for this symbol.
    pub fn ascii_code(self) -> (code: u8)
        ensures
            code == self.spec_ascii_code(),
    {
        match self {
            GameInput::One => 49u8,
            GameInput::Two => 50u8,
            GameInput::Three => 51u8,
            GameInput::Four => 52u8,
            GameInput::Five => 53u8,
            GameInput::Six => 54u8,
            GameInput::Seven => 55u8,
            GameInput::Eight => 56u8,
            GameInput::Nine => 57u8,
            GameInput::Zero => 48u8,
            GameInput::Submit => 115u8,
            GameInput::Backspace => 98u8,
        }
    }
}

} // verus!

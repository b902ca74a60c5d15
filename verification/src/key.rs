//! Key presses, as the fields read them.

use vstd::prelude::*;

verus! {

/// The key that was pressed.
#[derive(Clone, Copy, Debug, PartialEq, Eq, Structural)]
pub enum KeyCode {
    Char(char),
    Backspace,
    Delete,
    Left,
    Right,
    Up,
    Down,
    Home,
    End,
    Enter,
    Esc,
    Tab,
    BackTab,
    /// Any other key.
    Other,
}

/// A key press: the key and whether Control was held.
#[derive(Clone, Copy, Debug, PartialEq, Eq, Structural)]
pub struct KeyPress {
    pub code: KeyCode,
    pub control: bool,
}

impl KeyPress {
    /// A key press without modifiers.
    pub fn new(code: KeyCode) -> (r: Self)
        ensures
            r == (KeyPress { code, control: false }),
    {
        KeyPress { code, control: false }
    }

    /// A key press with Control held.
    pub fn with_control(code: KeyCode) -> (r: Self)
        ensures
            r == (KeyPress { code, control: true }),
    {
        KeyPress { code, control: true }
    }
}

} // verus!

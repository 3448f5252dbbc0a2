//! KeyEvent: a single key input together with the modifier keys held.
use vstd::prelude::*;

verus! {

/// The key that was pressed, independent of modifier keys.
#[derive(Debug, Clone, Copy, PartialEq, Eq, Structural, Hash)]
pub enum KeyCode {
    /// A character key (e.g. 'a', 'Z', '3', '!').
    Char(char),
    Up,
    Down,
    Left,
    Right,
    Enter,
    Escape,
    Backspace,
    Tab,
    Home,
    End,
    PageUp,
    PageDown,
    Delete,
}

/// Modifier keys held during a key press.
#[derive(Debug, Clone, Copy, PartialEq, Eq, Structural, Hash)]
pub struct Modifiers {
    pub ctrl: bool,
    pub alt: bool,
    pub shift: bool,
}

impl Modifiers {
    /// No modifier keys held.
    pub fn none() -> (m: Self)
        ensures
            m == (Modifiers { ctrl: false, alt: false, shift: false }),
    {
        Modifiers { ctrl: false, alt: false, shift: false }
    }

    /// Only the Ctrl key held.
    pub fn ctrl() -> (m: Self)
        ensures
            m == (Modifiers { ctrl: true, alt: false, shift: false }),
    {
        Modifiers { ctrl: true, alt: false, shift: false }
    }
}

/// A single key input event combining the key pressed and any modifiers.
#[derive(Debug, Clone, Copy, PartialEq, Eq, Structural, Hash)]
pub struct KeyEvent {
    pub code: KeyCode,
    pub modifiers: Modifiers,
}

impl KeyEvent {
    /// Creates a KeyEvent with the given key code and modifiers.
    pub fn new(code: KeyCode, modifiers: Modifiers) -> (e: Self)
        ensures
            e == (KeyEvent { code, modifiers }),
    {
        KeyEvent { code, modifiers }
    }

    /// Creates a KeyEvent with no modifier keys.
    pub fn plain(code: KeyCode) -> (e: Self)
        ensures
            e == (KeyEvent { code, modifiers: Modifiers { ctrl: false, alt: false, shift: false } }),
    {
        KeyEvent { code, modifiers: Modifiers::none() }
    }
}

} // verus!

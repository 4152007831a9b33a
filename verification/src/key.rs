//! Key presses as plain values.
use vstd::prelude::*;

verus! {

/// The key that was pressed.
#[derive(Debug, Clone, Copy, PartialEq, Eq, Structural)]
pub enum KeyCode {
    Char(char),
    F(u8),
    Enter,
    Esc,
    Tab,
    BackTab,
    Backspace,
    Delete,
    Insert,
    Left,
    Right,
    Up,
    Down,
    Home,
    End,
    PageUp,
    PageDown,
    /// A key that no rule of this library looks at.
    Other,
}

/// The modifier keys that were held.
#[derive(Debug, Clone, Copy, PartialEq, Eq, Structural)]
pub struct KeyModifiers {
    pub shift: bool,
    pub control: bool,
    pub alt: bool,
    pub command: bool,
    pub hyper: bool,
    pub meta: bool,
}

impl KeyModifiers {
    /// No modifier held.
    pub open spec fn is_none(self) -> bool {
        !self.shift && !self.control && !self.alt && !self.command && !self.hyper && !self.meta
    }

    /// Control held and no other modifier.
    pub open spec fn is_control(self) -> bool {
        !self.shift && self.control && !self.alt && !self.command && !self.hyper && !self.meta
    }

    pub fn none() -> (m: KeyModifiers)
        ensures
            m.is_none(),
    {
        KeyModifiers {
            shift: false,
            control: false,
            alt: false,
            command: false,
            hyper: false,
            meta: false,
        }
    }

    pub fn control() -> (m: KeyModifiers)
        ensures
            m.is_control(),
    {
        KeyModifiers {
            shift: false,
            control: true,
            alt: false,
            command: false,
            hyper: false,
            meta: false,
        }
    }
}

/// A key together with its modifiers.
#[derive(Debug, Clone, Copy, PartialEq, Eq, Structural)]
pub struct KeyEvent {
    pub code: KeyCode,
    pub modifiers: KeyModifiers,
}

impl KeyEvent {
    pub fn new(code: KeyCode, modifiers: KeyModifiers) -> (k: KeyEvent)
        ensures
            k.code == code,
            k.modifiers == modifiers,
    {
        KeyEvent { code, modifiers }
    }
}

} // verus!

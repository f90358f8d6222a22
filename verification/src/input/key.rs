//! Keys and keystrokes.
use vstd::prelude::*;

verus! {

/// A key the editor reacts to.
#[derive(Copy, Clone, Debug, Hash, PartialEq, Eq, Structural)]
pub enum Key {
    Char(char),
    Backspace,
    Delete,
    Escape,
    Tab,
    ArrowUp,
    ArrowDown,
    ArrowLeft,
    ArrowRight,
}

/// A key with the modifiers held while it was pressed.
#[derive(Copy, Clone, Debug, Hash, PartialEq, Eq, Structural)]
pub struct KeyStroke {
    pub key: Key,
    pub control: bool,
    pub alt: bool,
}

impl Key {
    /// Whether the key types the character `c`.
    pub open spec fn spec_is_char(self, c: char) -> bool {
        self == Key::Char(c)
    }

    /// Whether the key types the character `c`.
    pub fn is_char(&self, c: char) -> (b: bool)
        ensures
            b == self.spec_is_char(c),
    {
        match self {
            Key::Char(k) => *k == c,
            _ => false,
        }
    }
}

} // verus!

//! The keystrokes typed so far toward the next action.
use vstd::prelude::*;

use crate::input::action::{action_from, leading_count, Action, ActionError};
use crate::input::key::{Key, KeyStroke};
use crate::input::Mode;

verus! {

/// What a keystroke leads to: the action it completes, if any, and whether
/// the editor underlines the cursor while an operator waits for its motion.
pub struct KeyOutcome {
    pub action: Option<Action>,
    pub temporary_underline: bool,
}

/// The keystrokes typed since the last action.
pub struct KeyBuffer {
    keys: Vec<KeyStroke>,
}

impl View for KeyBuffer {
    type V = Seq<KeyStroke>;

    closed spec fn view(&self) -> Seq<KeyStroke> {
        self.keys@
    }
}

/// `keys` is a lone `r`, `c` or `d`: an operator waiting for what it acts on.
pub open spec fn waits_for_motion(keys: Seq<KeyStroke>) -> bool {
    &&& keys.len() == 1
    &&& !keys[0].control
    &&& (keys[0].key == Key::Char('r') || keys[0].key == Key::Char('c') || keys[0].key == Key::Char(
        'd',
    ))
}

impl KeyBuffer {
    /// No keystroke yet.
    pub fn new() -> (r: Self)
        ensures
            r@ == Seq::<KeyStroke>::empty(),
    {
        KeyBuffer { keys: Vec::new() }
    }

    /// How many keystrokes wait.
    pub fn len(&self) -> (r: usize)
        ensures
            r == self@.len(),
    {
        self.keys.len()
    }

    /// Takes in `key`, typed in `mode`: when the keystrokes so far name an
    /// action it is given and they are forgotten; keystrokes that can name
    /// nothing are forgotten too; an incomplete command keeps them.
    pub fn on_key(&mut self, mode: Mode, key: KeyStroke) -> (r: KeyOutcome)
        requires
            mode == Mode::Normal ==> leading_count(old(self)@.push(key), 0) <= u32::MAX,
        ensures
            r.temporary_underline == waits_for_motion(old(self)@.push(key)),
            match action_from(mode, old(self)@.push(key), 0, 0) {
                Ok(a) => r.action == Some(a) && final(self)@ == Seq::<KeyStroke>::empty(),
                Err(ActionError::Unrecognized) => r.action is None && final(self)@ == Seq::<
                    KeyStroke,
                >::empty(),
                Err(ActionError::Incomplete) => r.action is None && final(self)@ == old(self)@.push(
                    key,
                ),
            },
    {
        self.keys.push(key);
        let temporary_underline = self.keys.len() == 1 && !self.keys[0].control && (
        self.keys[0].key.is_char('r') || self.keys[0].key.is_char('c') || self.keys[0].key.is_char(
            'd',
        ));
        match Action::from_input(mode, self.keys.as_slice()) {
            Ok(action) => {
                self.keys.clear();
                KeyOutcome { action: Some(action), temporary_underline }
            },
            Err(ActionError::Unrecognized) => {
                self.keys.clear();
                KeyOutcome { action: None, temporary_underline }
            },
            Err(ActionError::Incomplete) => KeyOutcome { action: None, temporary_underline },
        }
    }
}

} // verus!

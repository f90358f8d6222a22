//! Modal key input: keys, editor modes, and the parser that turns a run of
//! keystrokes into an editor action.
use vstd::prelude::*;

pub mod action;
pub mod clipboard;
pub mod key;

pub use action::{
    action_from, move_from, Action, ActionError, ChangeDirection, Direction, Edit, Move, Navigation,
    VerticalDirection,
};
pub use clipboard::{Clipboard, ClipboardBackend};
pub use key::{Key, KeyStroke};

verus! {

/// The editor's modes.
#[derive(Copy, Clone, Debug, Hash, PartialEq, Eq, Structural)]
pub enum Mode {
    Normal,
    Insert,
    Visual,
    Replace,
    Command,
}

impl Default for Mode {
    fn default() -> (m: Self)
        ensures
            m == Mode::Normal,
    {
        Mode::Normal
    }
}

} // verus!

//! The parts of the window that decide rather than draw: the command line,
//! the file tree, the keystrokes waiting for an action, the widgets the
//! mouse enters and leaves, the search box, the terminal view's selection, and the small
//! types the views share.
use vstd::prelude::*;

pub mod command;
pub mod file_tree;
pub mod hover;
pub mod keys;
pub mod order;
pub mod pane;
pub mod search;
pub mod selection;

pub use command::CommandView;
pub use file_tree::FileTree;

verus! {

/// A mouse button.
#[derive(Clone, Copy, Debug, PartialEq, Eq, Structural)]
pub enum MouseButton {
    Left,
    Middle,
    Right,
}

/// The id of a view.
#[derive(Debug, Clone, Copy, PartialEq, Eq, Structural, Hash)]
pub struct ViewId(pub u64);

/// The id of a widget.
#[derive(Debug, Clone, Copy, PartialEq, Eq, Structural, Hash)]
pub struct WidgetId(pub u64);

/// Where a widget stands in the layout: the index of each widget on the way
/// down to it.
#[derive(Debug, Clone, Hash)]
pub struct WidgetPath(pub Vec<u32>);

impl ViewId {
    /// The id of the tab bar.
    pub fn tabs() -> (r: ViewId)
        ensures
            r.0 == u64::MAX,
    {
        ViewId(u64::MAX)
    }
}

/// The shape of the mouse pointer.
#[derive(Clone, Copy, Debug, PartialEq, Eq, Structural)]
pub enum CursorKind {
    Default,
    Pointer,
    ResizeEastWest,
    ResizeNorthSouth,
}

/// How the text cursor is drawn.
#[derive(Debug, Copy, Clone, PartialEq, Eq, Structural)]
pub enum CursorMode {
    Line,
    Block,
    Underline,
}

/// The weight of a font.
#[derive(Debug, Copy, Clone, PartialEq, Eq, Structural)]
pub enum FontWeight {
    Normal,
    Bold,
}

/// The slant of a font.
#[derive(Debug, Copy, Clone, PartialEq, Eq, Structural)]
pub enum FontStyle {
    Normal,
    Italic,
}

/// Where children sit across a stack.
#[derive(Clone, Copy, Debug, PartialEq, Eq, Structural)]
pub enum Align {
    Start,
    Center,
    End,
}

/// Where children sit along a stack.
#[derive(Clone, Copy, Debug, PartialEq, Eq, Structural)]
pub enum Justify {
    Start,
    Center,
    End,
}

} // verus!

pub mod grid;
pub mod state;
pub mod style;

pub use grid::{Cell, Grid, Line, LineMut, OwnedLine};
pub use state::{TermView, TerminalState};
pub use style::{
    default_cursor, default_style, line_drawing, BuiltinColor, Charset, Cursor, Position, Size, Style,
    StyleFlags, TerminalColor,
};
pub use state::control;
pub use state::reports;

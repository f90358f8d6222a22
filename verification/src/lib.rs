//! The verified core of the `be` editor: a terminal emulator's screen model and
//! control-sequence interpreter, the modal key-input parser, language-server
//! message framing, position encoding and request bookkeeping, the file tree
//! and the command line, and the file watcher's sets of changed paths.
pub mod fatal;
pub mod gui;
pub mod input;
pub mod lsp;
pub mod notify;
pub mod terminal;
pub mod text;

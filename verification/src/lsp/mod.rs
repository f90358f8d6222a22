//! What the editor exchanges with language servers: message framing, the
//! shapes of messages, position columns, and the results it keeps.
use vstd::prelude::*;

pub mod frame;
pub mod message;
pub mod position;
pub mod router;

pub use frame::{decode_frame, encode_frame, FrameError};
pub use message::{message_kind, MessageKind};
pub use position::{decode_column, encode_column, PositionEncoding};

verus! {

/// A path on disk (`std::path::PathBuf`), carried through.
#[verifier::external_type_specification]
#[verifier::external_body]
pub struct ExPathBuf(std::path::PathBuf);

/// How serious a diagnostic is.
#[derive(Debug, Copy, Clone, PartialEq, Eq, Structural)]
pub enum DiagnosticSeverity {
    Error,
    Warning,
    Information,
    Hint,
}

/// A diagnostic for a byte range of a document.
pub struct Diagnostic {
    pub range: std::ops::Range<usize>,
    pub message: String,
    pub severity: Option<DiagnosticSeverity>,
}

/// An edit: the byte range to replace and the text to put there.
pub struct TextEdit {
    pub range: std::ops::Range<usize>,
    pub new_text: String,
}

/// The notification that a document was saved.
pub struct DidSaveTextDocument {
    pub path: std::path::PathBuf,
}

/// The request to format a document.
pub struct DocumentFormat {
    pub path: std::path::PathBuf,
}

} // verus!

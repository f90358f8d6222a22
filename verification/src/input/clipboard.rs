//! The clipboard, behind a backend that the embedding application provides.
use vstd::prelude::*;

verus! {

/// Where copied text goes and pasted text comes from.
pub trait ClipboardBackend {
    fn copy(&self, content: &str);

    fn paste(&self) -> String;
}

/// A clipboard that keeps nothing: copies are dropped and pastes are empty.
pub struct DummyClipboard;

impl ClipboardBackend for DummyClipboard {
    fn copy(&self, _content: &str) {
    }

    fn paste(&self) -> (s: String)
        ensures
            s@ == Seq::<char>::empty(),
    {
        String::new()
    }
}

/// What a clipboard hands its copies to.
enum Backend {
    /// The built-in backend that keeps nothing.
    Dummy(DummyClipboard),
    /// A backend of the embedding application.
    Custom(Box<dyn ClipboardBackend>),
}

/// The clipboard the editor copies to and pastes from.
pub struct Clipboard {
    imp: Backend,
}

impl Clipboard {
    /// Whether the clipboard keeps nothing (the one `dummy` makes).
    pub closed spec fn keeps_nothing(&self) -> bool {
        self.imp is Dummy
    }

    /// Whether the clipboard hands its copies and pastes to `imp`.
    pub closed spec fn backed_by<B: ClipboardBackend + 'static>(&self, imp: B) -> bool {
        self.imp == Backend::Custom(Box::new(imp))
    }

    /// A clipboard backed by `imp`.
    pub fn new<B: ClipboardBackend + 'static>(imp: B) -> (c: Clipboard)
        ensures
            c.backed_by(imp),
    {
        Clipboard { imp: Backend::Custom(Box::new(imp)) }
    }

    /// A clipboard that keeps nothing.
    pub fn dummy() -> (c: Clipboard)
        ensures
            c.keeps_nothing(),
    {
        Clipboard { imp: Backend::Dummy(DummyClipboard) }
    }

    /// Hands `content` to the backend.
    pub fn copy(&self, content: &str) {
        match &self.imp {
            Backend::Dummy(d) => d.copy(content),
            Backend::Custom(b) => b.copy(content),
        }
    }

    /// The backend's text: empty for a clipboard that keeps nothing.
    pub fn paste(&self) -> (s: String)
        ensures
            self.keeps_nothing() ==> s@ == Seq::<char>::empty(),
    {
        match &self.imp {
            Backend::Dummy(d) => d.paste(),
            Backend::Custom(b) => b.paste(),
        }
    }
}

} // verus!

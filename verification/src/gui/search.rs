//! The search box: a line edited like the command line, whose every change
//! asks the fuzzy matcher to parse the pattern again.
use vstd::prelude::*;

use crate::gui::command::{after_action, CommandLine, CommandView};
use crate::input::action::{Action, Direction, Edit, Move};

verus! {

/// What the search box asks of the matcher after an action.
#[derive(Debug, Clone, Copy, PartialEq, Eq, Structural)]
pub enum SearchEffect {
    /// Nothing.
    Nothing,
    /// Parse the pattern again; `append` when text was only added at its end.
    Reparse { append: bool },
    /// Open the best match.
    OpenFirstMatch,
}

/// What `action` asks of the matcher, the box looking like `s` before it.
pub open spec fn search_effect(s: CommandLine, action: Action) -> SearchEffect {
    match action {
        Action::Edit { e: Edit::Insert(c), .. } => if c == '\n' {
            SearchEffect::OpenFirstMatch
        } else {
            SearchEffect::Reparse { append: s.cursor == s.command.len() }
        },
        Action::Edit { e: Edit::Delete(Move::Single(Direction::Right)), .. } => SearchEffect::Reparse {
            append: false,
        },
        Action::Edit { e: Edit::Backspace, .. } => if s.cursor > 0 {
            SearchEffect::Reparse { append: false }
        } else {
            SearchEffect::Nothing
        },
        _ => SearchEffect::Nothing,
    }
}

/// The search box.
pub struct Search {
    line: CommandView,
}

impl View for Search {
    type V = CommandLine;

    closed spec fn view(&self) -> CommandLine {
        self.line@
    }
}

impl Search {
    /// The cursor stands between characters of the pattern.
    pub closed spec fn wf(&self) -> bool {
        self.line.wf()
    }

    /// An empty search box (its empty pattern is to be parsed).
    pub fn new() -> (r: Self)
        ensures
            r.wf(),
            r@.command == Seq::<char>::empty(),
            r@.cursor == 0,
    {
        Search { line: CommandView::new() }
    }

    /// The pattern.
    pub fn search(&self) -> (r: String)
        ensures
            r@ == self@.command,
    {
        self.line.command()
    }

    /// The number of UTF-8 bytes before the cursor.
    pub fn cursor_byte(&self) -> (r: usize)
        requires
            self.wf(),
            crate::lsp::position::utf8_len(self@.command) <= usize::MAX,
        ensures
            r == crate::lsp::position::utf8_len(self@.command.take(self@.cursor as int)),
    {
        self.line.cursor_byte()
    }

    /// Edits the pattern as `action` asks (as the command line does), and
    /// says what the matcher is to do.
    pub fn perform_action(&mut self, action: Action) -> (r: SearchEffect)
        requires
            old(self).wf(),
        ensures
            final(self).wf(),
            final(self)@ == after_action(old(self)@, action),
            r == search_effect(old(self)@, action),
    {
        let at_end = self.line.cursor() == self.line.len();
        let past_start = self.line.cursor() > 0;
        let _ = self.line.perform_action(action);
        match action {
            Action::Edit { e: Edit::Insert(c), .. } => {
                if c == '\n' {
                    SearchEffect::OpenFirstMatch
                } else {
                    SearchEffect::Reparse { append: at_end }
                }
            },
            Action::Edit { e: Edit::Delete(Move::Single(Direction::Right)), .. } => {
                SearchEffect::Reparse { append: false }
            },
            Action::Edit { e: Edit::Backspace, .. } => {
                if past_start {
                    SearchEffect::Reparse { append: false }
                } else {
                    SearchEffect::Nothing
                }
            },
            _ => SearchEffect::Nothing,
        }
    }
}

} // verus!

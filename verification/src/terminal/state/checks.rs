//! Whether the terminal can take a control function as it stands: the
//! conditions under which each one is defined, tested before it is run.
use vstd::prelude::*;

use crate::terminal::state::control::{
    csi_ok, csi_plain_ok, esc_ok, execute_ok, is_move_action, move_ok, param_or, params_ok,
    print_ok, pvals,
};
use crate::terminal::state::{linefeed_ok, reverse_index_ok, scroll_down_ok, scroll_up_ok, TerminalState};

verus! {

impl TerminalState {
    fn can_linefeed(&self) -> (b: bool)
        requires
            self.wf(),
        ensures
            b == linefeed_ok(self@),
    {
        proof { self.lemma_wf(); }
        let rows = self.size.rows;
        if self.scroll_end < 1 {
            return false;
        }
        if self.cursor.pos.row == self.scroll_end - 1 {
            self.scroll_start < rows && self.scroll_end <= rows
        } else {
            rows >= 1
        }
    }

    fn can_scroll_down(&self) -> (b: bool)
        requires
            self.wf(),
        ensures
            b == scroll_down_ok(self@),
    {
        proof { self.lemma_wf(); }
        let rows = self.size.rows;
        self.scroll_start < rows && (self.scroll_start + 1 >= self.scroll_end || self.scroll_end
            <= rows)
    }

    fn can_scroll_up(&self) -> (b: bool)
        requires
            self.wf(),
        ensures
            b == scroll_up_ok(self@),
    {
        proof { self.lemma_wf(); }
        let rows = self.size.rows;
        self.scroll_start < rows && 1 <= self.scroll_end && self.scroll_end <= rows
    }

    /// Whether a character can be printed now.
    pub fn can_print(&self) -> (b: bool)
        requires
            self.wf(),
        ensures
            b == print_ok(self@),
    {
        proof { self.lemma_wf(); }
        self.cursor.active_charset < 4 && self.cursor.pos.col < usize::MAX && (!self.cursor.insert
            || self.cursor.pos.row < self.size.rows)
    }

    /// Whether the C0 control `b` can be executed now.
    pub fn can_execute(&self, b: u8) -> (r: bool)
        requires
            self.wf(),
        ensures
            r == execute_ok(self@, b),
    {
        if b == 0x0a || b == 0x0b || b == 0x0c {
            self.can_linefeed()
        } else {
            true
        }
    }

    /// Whether `ESC <intermediates> <byte>` can be dispatched now.
    pub fn can_esc(&self, intermediates: &[u8], byte: u8) -> (r: bool)
        requires
            self.wf(),
        ensures
            r == esc_ok(self@, intermediates@, byte),
    {
        if intermediates.len() != 0 {
            return true;
        }
        if byte == 0x44 || byte == 0x45 {
            return self.can_linefeed();
        }
        if byte == 0x4d && self.cursor.pos.row == self.scroll_start {
            return self.can_scroll_down();
        }
        true
    }

    /// Whether `CSI <params> <intermediates> <action>` can be dispatched
    /// now.
    pub fn can_csi(&self, params: &[Vec<u16>], intermediates: &[u8], action: u8) -> (r: bool)
        requires
            self.wf(),
        ensures
            r == csi_ok(self@, pvals(params@), intermediates@, action),
    {
        proof { self.lemma_wf(); }
        let mut i: usize = 0;
        while i < params.len()
            invariant
                0 <= i <= params@.len(),
                forall|k: int| 0 <= k < i ==> #[trigger] pvals(params@)[k].len() > 0,
            decreases params@.len() - i,
        {
            assert(pvals(params@)[i as int] == params@[i as int]@);
            if params[i].len() == 0 {
                return false;
            }
            i += 1;
        }
        assert(params_ok(pvals(params@)));
        if action == 0x63 || intermediates.len() != 0 {
            return true;
        }
        self.can_csi_plain(params, action)
    }

    fn can_csi_plain(&self, params: &[Vec<u16>], action: u8) -> (r: bool)
        requires
            self.wf(),
        ensures
            r == csi_plain_ok(self@, pvals(params@), action),
    {
        proof { self.lemma_wf(); }
        let ghost ps = pvals(params@);
        let rows = self.size.rows;
        let cols = self.size.cols;
        let row = self.cursor.pos.row;
        let col = self.cursor.pos.col;
        let p0: u16 = if params.len() > 0 && params[0].len() > 0 && params[0][0] != 0 {
            params[0][0]
        } else {
            0
        };
        let p1: u16 = if p0 == 0 { 1 } else { p0 };
        assert(p0 == param_or(ps, 0, 0));
        assert(p1 == param_or(ps, 0, 1));
        if action == 0x40 {
            return row < rows && col < usize::MAX;
        }
        if action == 0x42 || action == 0x65 || action == 0x45 {
            return rows >= 1 && row <= usize::MAX - p1 as usize;
        }
        if action == 0x43 || action == 0x61 {
            return cols >= 1 && col <= usize::MAX - p1 as usize;
        }
        if action == 0x64 {
            return rows >= 1;
        }
        if action == 0x47 || action == 0x60 {
            return cols >= 1;
        }
        if action == 0x48 || action == 0x66 {
            return rows >= 1 && cols >= 1;
        }
        if action == 0x4a {
            return (p0 != 0 || rows >= 1) && (p0 != 1 || row < rows);
        }
        if action == 0x4b {
            return (!(p0 == 0 || p0 == 2) || (row < rows && cols >= 1)) && (p0 != 1 || (row < rows
                && col < cols));
        }
        if action == 0x6e && p0 == 6 {
            return row < usize::MAX && col < usize::MAX;
        }
        if action == 0x72 {
            return rows >= 1;
        }
        if action == 0x53 {
            return self.can_scroll_up();
        }
        if action == 0x54 {
            return self.can_scroll_down();
        }
        assert(!is_move_action(action) || move_ok(self@, ps, action));
        true
    }
}

} // verus!

//! The terminal's state: the screen, the cursor, the scroll region, the
//! alternate screen and the modes that control sequences set.
use vstd::prelude::*;

use crate::terminal::grid::{
    blank_cell, blank_line, blank_range, scrolled_down, scrolled_up, shifted_right, resized_line, Cell, Grid,
    OwnedLine,
};
use crate::terminal::style::{default_cursor, Charset, Cursor, Position, Size, Style};

pub mod checks;
pub mod control;
pub mod reports;
pub mod screens;
pub mod movement;

verus! {

/// Everything a `TerminalState` holds, as plain values.
#[verifier::ext_equal]
pub struct TermView {
    pub grid: Seq<Seq<Cell>>,
    pub cursor: Cursor,
    pub scrollback: Seq<Seq<Cell>>,
    pub size: Size,
    pub scroll_start: usize,
    pub scroll_end: usize,
    pub alt_grid: Seq<Seq<Cell>>,
    pub alt_screen: bool,
    pub alt_cursor: Cursor,
    pub title: Seq<char>,
    pub report_mouse: bool,
    pub mouse_motion: bool,
    pub mouse_all_motion: bool,
    pub report_focus: bool,
    pub mouse_utf8: bool,
    pub cursor_keys: bool,
    pub bracketed_paste: bool,
    pub keypad_application_mode: bool,
    pub pending_writes: Seq<u8>,
    pub charsets: Seq<Charset>,
}

/// The state of a terminal: what the screen shows and the modes set by the
/// program running in it.
pub struct TerminalState {
    grid: Grid,
    pub cursor: Cursor,
    scrollback: Vec<OwnedLine>,
    size: Size,
    scroll_start: usize,
    scroll_end: usize,
    alt_grid: Grid,
    alt_screen: bool,
    alt_cursor: Cursor,
    pub title: String,
    pub report_mouse: bool,
    pub mouse_motion: bool,
    pub mouse_all_motion: bool,
    pub report_focus: bool,
    pub mouse_utf8: bool,
    pub cursor_keys: bool,
    pub bracketed_paste: bool,
    pub keypad_application_mode: bool,
    pending_writes: Vec<u8>,
    charsets: [Charset; 4],
}

impl View for TerminalState {
    type V = TermView;

    closed spec fn view(&self) -> TermView {
        TermView {
            grid: self.grid@,
            cursor: self.cursor,
            scrollback: Seq::new(self.scrollback@.len(), |i: int| self.scrollback@[i]@),
            size: self.size,
            scroll_start: self.scroll_start,
            scroll_end: self.scroll_end,
            alt_grid: self.alt_grid@,
            alt_screen: self.alt_screen,
            alt_cursor: self.alt_cursor,
            title: self.title@,
            report_mouse: self.report_mouse,
            mouse_motion: self.mouse_motion,
            mouse_all_motion: self.mouse_all_motion,
            report_focus: self.report_focus,
            mouse_utf8: self.mouse_utf8,
            cursor_keys: self.cursor_keys,
            bracketed_paste: self.bracketed_paste,
            keypad_application_mode: self.keypad_application_mode,
            pending_writes: self.pending_writes@,
            charsets: self.charsets@,
        }
    }
}

/// `lines` has `size.rows` lines of `size.cols` cells.
pub open spec fn shaped(lines: Seq<Seq<Cell>>, size: Size) -> bool {
    &&& lines.len() == size.rows
    &&& forall|i: int| 0 <= i < lines.len() ==> #[trigger] lines[i].len() == size.cols
}

/// Both screens of `v` have the size of `v`.
pub open spec fn view_wf(v: TermView) -> bool {
    &&& shaped(v.grid, v.size)
    &&& shaped(v.alt_grid, v.size)
    &&& v.charsets.len() == 4
}

/// The grid after a cell is written: what `Grid::put` does.
pub open spec fn put_cell(lines: Seq<Seq<Cell>>, pos: Position, cell: Cell) -> Seq<Seq<Cell>> {
    if pos.row < lines.len() && pos.col < lines[pos.row as int].len() {
        lines.update(pos.row as int, lines[pos.row as int].update(pos.col as int, cell))
    } else {
        lines
    }
}

/// The grid with the line at `row` shifted right from `col`.
pub open spec fn shift_line(lines: Seq<Seq<Cell>>, row: int, col: int) -> Seq<Seq<Cell>> {
    lines.update(
        row,
        if col < lines[row].len() { shifted_right(lines[row], col) } else { lines[row] },
    )
}

/// The grid with the lines `from..=to` blanked in `style`.
pub open spec fn blank_lines(lines: Seq<Seq<Cell>>, from: int, to: int, style: Style) -> Seq<Seq<Cell>> {
    Seq::new(
        lines.len(),
        |i: int| if from <= i <= to { blank_line(lines[i].len(), style) } else { lines[i] },
    )
}

/// Every cell of the grid blanked in `style`.
pub open spec fn blank_grid(lines: Seq<Seq<Cell>>, style: Style) -> Seq<Seq<Cell>> {
    Seq::new(lines.len(), |i: int| blank_line(lines[i].len(), style))
}

/// `x` limited to `max`: what `x.clamp(0, max)` gives on unsigned numbers.
pub open spec fn at_most(x: int, max: int) -> int {
    if x > max { max } else { x }
}

/// `x - n`, or 0 when that is negative.
pub open spec fn minus_or_zero(x: int, n: int) -> int {
    if x > n { x - n } else { 0 }
}

/// `v` with the cursor moved to `pos`.
pub open spec fn with_pos(v: TermView, pos: Position) -> TermView {
    TermView { cursor: Cursor { pos, ..v.cursor }, ..v }
}

/// `v` with the cursor at row `row`, the column unchanged.
pub open spec fn with_row(v: TermView, row: int) -> TermView {
    with_pos(v, Position { row: row as usize, col: v.cursor.pos.col })
}

/// `v` with the cursor at column `col`, the row unchanged.
pub open spec fn with_col(v: TermView, col: int) -> TermView {
    with_pos(v, Position { row: v.cursor.pos.row, col: col as usize })
}

/// What a line feed does: at the bottom of the scroll region the region
/// scrolls up (the line that leaves goes to the scrollback unless the
/// alternate screen is shown); elsewhere the cursor goes down one row, but
/// not past the last row.
pub open spec fn linefeed_effect(v: TermView) -> TermView {
    if v.cursor.pos.row == v.scroll_end - 1 {
        TermView {
            grid: scrolled_up(v.grid, v.scroll_start as int, v.scroll_end as int),
            scrollback: if !v.alt_screen {
                v.scrollback.push(v.grid[v.scroll_start as int])
            } else {
                v.scrollback
            },
            ..v
        }
    } else if v.cursor.pos.row < v.size.rows - 1 {
        with_row(v, v.cursor.pos.row + 1)
    } else {
        v
    }
}

/// When a line feed can be performed: the scroll region is not empty, and
/// when it scrolls it lies within the screen; otherwise there is a row.
pub open spec fn linefeed_ok(v: TermView) -> bool {
    &&& v.scroll_end >= 1
    &&& v.cursor.pos.row == v.scroll_end - 1 ==> v.scroll_start < v.grid.len() && v.scroll_end
        <= v.grid.len()
    &&& v.cursor.pos.row != v.scroll_end - 1 ==> v.size.rows >= 1
}

/// What reverse index (ESC M) does: at the top of the scroll region the
/// region scrolls down, elsewhere the cursor goes up one row (not above 0).
pub open spec fn reverse_index_effect(v: TermView) -> TermView {
    if v.cursor.pos.row == v.scroll_start {
        TermView { grid: scrolled_down(v.grid, v.scroll_start as int, v.scroll_end as int), ..v }
    } else {
        with_row(v, minus_or_zero(v.cursor.pos.row as int, 1))
    }
}

/// When reverse index can be performed.
pub open spec fn reverse_index_ok(v: TermView) -> bool {
    v.cursor.pos.row == v.scroll_start ==> scroll_down_ok(v)
}

/// When the scroll region can scroll down.
pub open spec fn scroll_down_ok(v: TermView) -> bool {
    &&& v.scroll_start < v.grid.len()
    &&& v.scroll_start + 1 < v.scroll_end ==> v.scroll_end <= v.grid.len()
}

/// When the scroll region can scroll up.
pub open spec fn scroll_up_ok(v: TermView) -> bool {
    &&& v.scroll_start < v.grid.len()
    &&& 1 <= v.scroll_end <= v.grid.len()
}

/// The bytes `text` is sent as.
pub open spec fn sent(v: TermView, bytes: Seq<u8>) -> TermView {
    TermView { pending_writes: v.pending_writes + bytes, ..v }
}

/// The index of the character set that `ESC ( ) * +` designate.
pub open spec fn charset_slot(index: u8) -> Option<int> {
    if index == 0x28 {
        Some(0)
    } else if index == 0x29 {
        Some(1)
    } else if index == 0x2a {
        Some(2)
    } else if index == 0x2b {
        Some(3)
    } else {
        None
    }
}

/// `v` with the character set designated by `index` set to `charset`.
pub open spec fn set_charset_effect(v: TermView, index: u8, charset: Charset) -> TermView {
    match charset_slot(index) {
        Some(i) => TermView { charsets: v.charsets.update(i, charset), ..v },
        None => v,
    }
}

/// What setting (`set`) or resetting an ANSI mode does.
pub open spec fn mode_effect(v: TermView, mode: u16, set: bool) -> TermView {
    if mode == 4 {
        TermView { cursor: Cursor { insert: set, ..v.cursor }, ..v }
    } else if mode == 20 {
        TermView { cursor: Cursor { line_feed: set, ..v.cursor }, ..v }
    } else if mode == 34 {
        TermView { cursor: Cursor { blink: set, ..v.cursor }, ..v }
    } else {
        v
    }
}

/// What switching to (`set`) or from the alternate screen does. Entering
/// keeps the cursor aside; leaving restores it and blanks the alternate screen.
pub open spec fn alt_screen_effect(v: TermView, set: bool) -> TermView {
    if set == v.alt_screen {
        v
    } else if set {
        TermView { alt_screen: true, grid: v.alt_grid, alt_grid: v.grid, alt_cursor: v.cursor, ..v }
    } else {
        TermView {
            alt_screen: false,
            grid: v.alt_grid,
            alt_grid: blank_grid(v.grid, crate::terminal::style::default_style()),
            cursor: v.alt_cursor,
            alt_cursor: default_cursor(),
            ..v
        }
    }
}

/// What setting (`set`) or resetting a DEC private mode does.
pub open spec fn private_mode_effect(v: TermView, mode: u16, set: bool) -> TermView {
    if mode == 1 {
        TermView { cursor_keys: set, ..v }
    } else if mode == 12 {
        TermView { cursor: Cursor { blink: set, ..v.cursor }, ..v }
    } else if mode == 25 {
        TermView { cursor: Cursor { visible: !set, ..v.cursor }, ..v }
    } else if mode == 1000 {
        TermView { report_mouse: set, ..v }
    } else if mode == 1002 {
        TermView { mouse_motion: set, ..v }
    } else if mode == 1003 {
        TermView { mouse_all_motion: set, ..v }
    } else if mode == 1004 {
        TermView { report_focus: set, ..v }
    } else if mode == 1005 {
        TermView { mouse_utf8: set, ..v }
    } else if mode == 1049 {
        alt_screen_effect(v, set)
    } else if mode == 2004 {
        TermView { bracketed_paste: set, ..v }
    } else {
        v
    }
}

/// The reply to a device attributes request: primary (`None`) or secondary (`>`).
pub open spec fn identify_reply(arg: Option<u8>) -> Seq<u8> {
    match arg {
        None => seq![0x1bu8, 0x5b, 0x3f, 0x36, 0x63],
        Some(b) => if b == 0x3e {
            seq![0x1bu8, 0x5b, 0x3e, 0x30, 0x3b, 0x31, 0x3b, 0x31, 0x63]
        } else {
            Seq::empty()
        },
    }
}

/// The scrollback after `n` more lines scrolled off, as plain values.
pub open spec fn grid_scrolled_up_n(lines: Seq<Seq<Cell>>, start: int, end: int, n: nat) -> Seq<Seq<Cell>>
    decreases n,
{
    if n == 0 {
        lines
    } else {
        scrolled_up(grid_scrolled_up_n(lines, start, end, (n - 1) as nat), start, end)
    }
}

/// The grid after the region `start..end` scrolled down `n` times.
pub open spec fn grid_scrolled_down_n(lines: Seq<Seq<Cell>>, start: int, end: int, n: nat) -> Seq<Seq<Cell>>
    decreases n,
{
    if n == 0 {
        lines
    } else {
        scrolled_down(grid_scrolled_down_n(lines, start, end, (n - 1) as nat), start, end)
    }
}

impl TerminalState {
    /// The screen is as large as the terminal, on both screens.
    pub closed spec fn wf(&self) -> bool {
        &&& self.grid.wf()
        &&& self.alt_grid.wf()
        &&& self.grid.spec_size() == self.size
        &&& self.alt_grid.spec_size() == self.size
    }

    /// What `wf` says, over the view.
    pub proof fn lemma_wf(&self)
        requires
            self.wf(),
        ensures
            view_wf(self@),
    {
    }

    /// A terminal of `size`: blank screens, the cursor at the origin, the
    /// whole screen as scroll region, every mode off, ASCII in every slot.
    pub fn new(size: Size) -> (t: TerminalState)
        ensures
            t.wf(),
            t@ == (TermView {
                grid: Seq::new(size.rows as nat, |i: int| blank_line(size.cols as nat, crate::terminal::style::default_style())),
                cursor: default_cursor(),
                scrollback: Seq::empty(),
                size,
                scroll_start: 0,
                scroll_end: size.rows,
                alt_grid: Seq::new(size.rows as nat, |i: int| blank_line(size.cols as nat, crate::terminal::style::default_style())),
                alt_screen: false,
                alt_cursor: default_cursor(),
                title: Seq::empty(),
                report_mouse: false,
                mouse_motion: false,
                mouse_all_motion: false,
                report_focus: false,
                mouse_utf8: false,
                cursor_keys: false,
                bracketed_paste: false,
                keypad_application_mode: false,
                pending_writes: Seq::empty(),
                charsets: seq![Charset::Ascii, Charset::Ascii, Charset::Ascii, Charset::Ascii],
            }),
    {
        let t = TerminalState {
            grid: Grid::new(size),
            cursor: Cursor::default(),
            scrollback: Vec::new(),
            size,
            scroll_start: 0,
            scroll_end: size.rows,
            alt_grid: Grid::new(size),
            alt_screen: false,
            alt_cursor: Cursor::default(),
            title: String::new(),
            report_mouse: false,
            mouse_motion: false,
            mouse_all_motion: false,
            report_focus: false,
            mouse_utf8: false,
            cursor_keys: false,
            bracketed_paste: false,
            keypad_application_mode: false,
            pending_writes: Vec::new(),
            charsets: [Charset::Ascii, Charset::Ascii, Charset::Ascii, Charset::Ascii],
        };
        assert(t@.scrollback =~= Seq::<Seq<Cell>>::empty());
        assert(t@.charsets =~= seq![Charset::Ascii, Charset::Ascii, Charset::Ascii, Charset::Ascii]);
        t
    }

    /// The size of the terminal.
    pub fn size(&self) -> (s: Size)
        ensures
            s == self@.size,
    {
        self.size
    }

    /// The line at `index` of the screen shown, if there is one.
    pub fn line(&self, index: usize) -> (r: Option<crate::terminal::grid::Line<'_>>)
        ensures
            match r {
                Some(l) => index < self@.grid.len() && l@ == self@.grid[index as int],
                None => index >= self@.grid.len(),
            },
    {
        self.grid.line(index)
    }

    /// Whether bytes wait to be sent back to the program.
    pub fn has_pending_writes(&self) -> (b: bool)
        ensures
            b == (self@.pending_writes.len() > 0),
    {
        self.pending_writes.len() > 0
    }

    /// Hands out the bytes waiting to be sent back to the program, and
    /// forgets them.
    pub fn take_pending_writes(&mut self) -> (bytes: Vec<u8>)
        ensures
            bytes@ == old(self)@.pending_writes,
            final(self)@ == (TermView { pending_writes: Seq::empty(), ..old(self)@ }),
            final(self).wf() == old(self).wf(),
    {
        let mut bytes = Vec::new();
        std::mem::swap(&mut bytes, &mut self.pending_writes);
        assert(self@ =~= TermView { pending_writes: Seq::empty(), ..old(self)@ });
        bytes
    }

    /// Resizes both screens to `size`; a scroll region that reached the
    /// bottom keeps reaching it, and the cursor is kept on the screen.
    #[verifier::rlimit(40)]
    pub fn resize(&mut self, size: Size)
        requires
            old(self).wf(),
            size.rows >= 1,
            size.cols >= 1,
        ensures
            final(self).wf(),
            final(self)@ == (TermView {
                size,
                scroll_end: if old(self)@.scroll_end == old(self)@.size.rows {
                    size.rows
                } else {
                    old(self)@.scroll_end
                },
                grid: Seq::new(size.rows as nat, |i: int| resized_line(if i < old(self)@.grid.len() { old(self)@.grid[i] } else { Seq::empty() }, size.cols as nat)),
                alt_grid: Seq::new(size.rows as nat, |i: int| resized_line(if i < old(self)@.alt_grid.len() { old(self)@.alt_grid[i] } else { Seq::empty() }, size.cols as nat)),
                cursor: Cursor {
                    pos: Position {
                        row: at_most(old(self)@.cursor.pos.row as int, size.rows - 1) as usize,
                        col: at_most(old(self)@.cursor.pos.col as int, size.cols - 1) as usize,
                    },
                    ..old(self)@.cursor
                },
                ..old(self)@
            }),
    {
        if self.scroll_end == self.size.rows {
            self.scroll_end = size.rows;
        }
        self.size = size;
        self.grid.resize(size);
        self.alt_grid.resize(size);
        self.cursor.pos.row = clamp_to(self.cursor.pos.row, size.rows - 1);
        self.cursor.pos.col = clamp_to(self.cursor.pos.col, size.cols - 1);
        assert(self@.scrollback =~= old(self)@.scrollback);
    }

    /// Puts the cursor at `pos`.
    pub(crate) fn cursor_to(&mut self, pos: Position)
        ensures
            final(self)@ == with_pos(old(self)@, pos),
            final(self).wf() == old(self).wf(),
    {
        self.cursor.pos = pos;
    }

    /// Puts the cursor on row `row`.
    pub(crate) fn cursor_to_row(&mut self, row: usize)
        ensures
            final(self)@ == with_row(old(self)@, row as int),
            final(self).wf() == old(self).wf(),
    {
        self.cursor.pos.row = row;
    }

    /// Puts the cursor on column `col`.
    pub(crate) fn cursor_to_col(&mut self, col: usize)
        ensures
            final(self)@ == with_col(old(self)@, col as int),
            final(self).wf() == old(self).wf(),
    {
        self.cursor.pos.col = col;
    }

    /// Sets the scroll region to the rows `start..end`.
    pub(crate) fn set_scroll_region(&mut self, start: usize, end: usize)
        ensures
            final(self)@ == (TermView { scroll_start: start, scroll_end: end, ..old(self)@ }),
            final(self).wf() == old(self).wf(),
    {
        self.scroll_start = start;
        self.scroll_end = end;
    }

    pub(crate) fn move_up(&mut self, n: u16)
        ensures
            final(self)@ == with_row(old(self)@, minus_or_zero(old(self)@.cursor.pos.row as int, n as int)),
            final(self).wf() == old(self).wf(),
    {
        self.cursor.pos.row = self.cursor.pos.row.saturating_sub(n as usize);
    }

    pub(crate) fn move_down(&mut self, n: u16)
        requires
            old(self)@.size.rows >= 1,
            old(self)@.cursor.pos.row + n <= usize::MAX,
        ensures
            final(self)@ == with_row(old(self)@, at_most(old(self)@.cursor.pos.row + n, old(self)@.size.rows - 1)),
            final(self).wf() == old(self).wf(),
    {
        self.cursor.pos.row = clamp_to(self.cursor.pos.row + n as usize, self.size.rows - 1);
    }

    pub(crate) fn move_left(&mut self, n: u16)
        ensures
            final(self)@ == with_col(old(self)@, minus_or_zero(old(self)@.cursor.pos.col as int, n as int)),
            final(self).wf() == old(self).wf(),
    {
        self.cursor.pos.col = self.cursor.pos.col.saturating_sub(n as usize);
    }

    pub(crate) fn move_right(&mut self, n: u16)
        requires
            old(self)@.size.cols >= 1,
            old(self)@.cursor.pos.col + n <= usize::MAX,
        ensures
            final(self)@ == with_col(old(self)@, at_most(old(self)@.cursor.pos.col + n, old(self)@.size.cols - 1)),
            final(self).wf() == old(self).wf(),
    {
        self.cursor.pos.col = clamp_to(self.cursor.pos.col + n as usize, self.size.cols - 1);
    }

    /// Blanks the rows from the cursor's to the last, in the cursor's style.
    pub(crate) fn clear_screen_down(&mut self)
        requires
            old(self).wf(),
            old(self)@.size.rows >= 1,
        ensures
            final(self).wf(),
            final(self)@ == (TermView {
                grid: blank_lines(old(self)@.grid, old(self)@.cursor.pos.row as int, old(self)@.size.rows - 1, old(self)@.cursor.style),
                ..old(self)@
            }),
    {
        let last = self.size.rows - 1;
        let mut line = self.cursor.pos.row;
        let ghost g0 = self.grid@;
        let ghost from = self.cursor.pos.row as int;
        if line > last {
            assert(self.grid@ =~= blank_lines(g0, from, last as int, old(self).cursor.style));
            return;
        }
        while line <= last
            invariant
                self.wf(),
                last == self.size.rows - 1,
                self.grid@.len() == g0.len(),
                g0.len() == self.size.rows,
                from <= line,
                line <= last + 1,
                self.cursor == old(self).cursor,
                self@ == (TermView { grid: self.grid@, ..old(self)@ }),
                g0 == old(self)@.grid,
                forall|i: int|
                    0 <= i < g0.len() ==> #[trigger] self.grid@[i] == if from <= i < line {
                        blank_line(g0[i].len(), old(self).cursor.style)
                    } else {
                        g0[i]
                    },
            decreases last + 1 - line,
        {
            self.grid.clear_line(line, self.cursor.style);
            line += 1;
        }
        assert(self.grid@ =~= blank_lines(g0, from, last as int, old(self).cursor.style));
    }

    /// Blanks the rows from the first to the cursor's, in the cursor's style.
    pub(crate) fn clear_screen_up(&mut self)
        requires
            old(self).wf(),
            old(self)@.cursor.pos.row < old(self)@.size.rows,
        ensures
            final(self).wf(),
            final(self)@ == (TermView {
                grid: blank_lines(old(self)@.grid, 0, old(self)@.cursor.pos.row as int, old(self)@.cursor.style),
                ..old(self)@
            }),
    {
        let last = self.cursor.pos.row;
        let mut line: usize = 0;
        let ghost g0 = self.grid@;
        while line <= last
            invariant
                self.wf(),
                last == old(self).cursor.pos.row,
                last < self.size.rows,
                self.grid@.len() == g0.len(),
                g0.len() == self.size.rows,
                line <= last + 1,
                self.cursor == old(self).cursor,
                self@ == (TermView { grid: self.grid@, ..old(self)@ }),
                g0 == old(self)@.grid,
                forall|i: int|
                    0 <= i < g0.len() ==> #[trigger] self.grid@[i] == if 0 <= i < line {
                        blank_line(g0[i].len(), old(self).cursor.style)
                    } else {
                        g0[i]
                    },
            decreases last + 1 - line,
        {
            self.grid.clear_line(line, self.cursor.style);
            line += 1;
        }
        assert(self.grid@ =~= blank_lines(g0, 0, last as int, old(self).cursor.style));
    }

    /// Blanks the cursor's row from the cursor to the end.
    pub(crate) fn clear_line_right(&mut self)
        requires
            old(self).wf(),
            old(self)@.cursor.pos.row < old(self)@.size.rows,
            old(self)@.size.cols >= 1,
        ensures
            final(self).wf(),
            final(self)@ == (TermView {
                grid: old(self)@.grid.update(
                    old(self)@.cursor.pos.row as int,
                    blank_range(old(self)@.grid[old(self)@.cursor.pos.row as int], old(self)@.cursor.pos.col as int, old(self)@.size.cols - 1, old(self)@.cursor.style),
                ),
                ..old(self)@
            }),
    {
        self.grid.clear_line_range(self.cursor.pos.row, self.cursor.pos.col, self.size.cols - 1, self.cursor.style);
    }

    /// Blanks the cursor's row from the start to the cursor.
    pub(crate) fn clear_line_left(&mut self)
        requires
            old(self).wf(),
            old(self)@.cursor.pos.row < old(self)@.size.rows,
            old(self)@.cursor.pos.col < old(self)@.size.cols,
        ensures
            final(self).wf(),
            final(self)@ == (TermView {
                grid: old(self)@.grid.update(
                    old(self)@.cursor.pos.row as int,
                    blank_range(old(self)@.grid[old(self)@.cursor.pos.row as int], 0, old(self)@.cursor.pos.col as int, old(self)@.cursor.style),
                ),
                ..old(self)@
            }),
    {
        self.grid.clear_line_range(self.cursor.pos.row, 0, self.cursor.pos.col, self.cursor.style);
    }

    /// Blanks the cursor's row.
    pub(crate) fn clear_line(&mut self)
        requires
            old(self).wf(),
            old(self)@.cursor.pos.row < old(self)@.size.rows,
            old(self)@.size.cols >= 1,
        ensures
            final(self).wf(),
            final(self)@ == (TermView {
                grid: old(self)@.grid.update(
                    old(self)@.cursor.pos.row as int,
                    blank_range(old(self)@.grid[old(self)@.cursor.pos.row as int], 0, old(self)@.size.cols - 1, old(self)@.cursor.style),
                ),
                ..old(self)@
            }),
    {
        self.grid.clear_line_range(self.cursor.pos.row, 0, self.size.cols - 1, self.cursor.style);
    }

    /// Moves the cursor down a line, scrolling the region at its bottom.
    pub(crate) fn linefeed(&mut self)
        requires
            old(self).wf(),
            linefeed_ok(old(self)@),
        ensures
            final(self).wf(),
            final(self)@ == linefeed_effect(old(self)@),
    {
        if self.cursor.pos.row == self.scroll_end - 1 {
            let line = self.grid.scroll_up(self.scroll_start..self.scroll_end);
            if !self.alt_screen {
                self.scrollback.push(line);
                assert(self@.scrollback =~= old(self)@.scrollback.push(old(self)@.grid[old(self)@.scroll_start as int]));
            } else {
                assert(self@.scrollback =~= old(self)@.scrollback);
            }
            assert(self@ =~= linefeed_effect(old(self)@));
        } else if self.cursor.pos.row < self.size.rows - 1 {
            self.cursor.pos.row = self.cursor.pos.row + 1;
        }
    }

    /// Queues `bytes` to be sent back to the program.
    pub(crate) fn send_bytes(&mut self, bytes: &[u8])
        ensures
            final(self)@ == sent(old(self)@, bytes@),
            final(self).wf() == old(self).wf(),
    {
        let mut i: usize = 0;
        while i < bytes.len()
            invariant
                0 <= i <= bytes@.len(),
                self@ == sent(old(self)@, bytes@.take(i as int)),
                self.wf() == old(self).wf(),
            decreases bytes@.len() - i,
        {
            self.pending_writes.push(bytes[i]);
            i += 1;
            assert(self@ =~= sent(old(self)@, bytes@.take(i as int)));
        }
        assert(bytes@.take(bytes@.len() as int) =~= bytes@);
    }

    /// Queues the UTF-8 bytes of `text` to be sent back to the program.
    pub fn send_text(&mut self, text: &str)
        ensures
            final(self)@ == sent(old(self)@, vstd::utf8::encode_utf8(text@)),
            final(self).wf() == old(self).wf(),
    {
        let bytes = crate::text::bytes_of(text);
        self.send_bytes(bytes.as_slice());
    }

    /// Designates `charset` for the slot that `index` (one of `( ) * +`) names.
    pub fn set_charset(&mut self, index: u8, charset: Charset)
        ensures
            final(self)@ == set_charset_effect(old(self)@, index, charset),
            final(self).wf() == old(self).wf(),
    {
        let slot: usize = match index {
            0x28 => 0,
            0x29 => 1,
            0x2a => 2,
            0x2b => 3,
            _ => return,
        };
        self.charsets[slot] = charset;
        assert(self@ =~= set_charset_effect(old(self)@, index, charset));
    }

    /// Makes the character set in slot `index` the one printed with.
    pub fn set_active_charset(&mut self, index: usize)
        ensures
            final(self)@ == (TermView { cursor: Cursor { active_charset: index, ..old(self)@.cursor }, ..old(self)@ }),
            final(self).wf() == old(self).wf(),
    {
        self.cursor.active_charset = index;
    }

    /// Sets or resets an ANSI mode: insert (4), line feed/new line (20), blink (34).
    pub fn set_mode(&mut self, mode: u16, set: bool)
        ensures
            final(self)@ == mode_effect(old(self)@, mode, set),
            final(self).wf() == old(self).wf(),
    {
        match mode {
            4 => self.cursor.insert = set,
            20 => self.cursor.line_feed = set,
            34 => self.cursor.blink = set,
            _ => {},
        }
    }

    /// Answers a device attributes request: primary (`None`) or secondary (`Some(b'>')`).
    pub fn identify_terminal(&mut self, arg: Option<u8>)
        ensures
            final(self)@ == sent(old(self)@, identify_reply(arg)),
            final(self).wf() == old(self).wf(),
    {
        match arg {
            None => {
                let reply: [u8; 5] = [0x1b, 0x5b, 0x3f, 0x36, 0x63];
                self.send_bytes(&reply);
                assert(reply@ =~= identify_reply(arg));
            },
            Some(b) => {
                if b == 0x3e {
                    let reply: [u8; 9] = [0x1b, 0x5b, 0x3e, 0x30, 0x3b, 0x31, 0x3b, 0x31, 0x63];
                    self.send_bytes(&reply);
                    assert(reply@ =~= identify_reply(arg));
                } else {
                    assert(self@.pending_writes + identify_reply(arg) =~= self@.pending_writes);
                }
            },
        }
    }

    /// Sets or resets a DEC private mode: cursor keys (1), blink (12), cursor
    /// hidden (25), mouse reports (1000), motion reports while a button is held
    /// (1002) or always (1003), focus reports (1004), UTF-8 mouse coordinates
    /// (1005), alternate screen (1049), bracketed paste (2004).
    #[verifier::rlimit(40)]
    pub fn set_private_mode(&mut self, mode: u16, set: bool)
        requires
            old(self).wf(),
        ensures
            final(self).wf(),
            final(self)@ == private_mode_effect(old(self)@, mode, set),
    {
        match mode {
            1 => self.cursor_keys = set,
            12 => self.cursor.blink = set,
            25 => self.cursor.visible = !set,
            1000 => self.report_mouse = set,
            1002 => self.mouse_motion = set,
            1003 => self.mouse_all_motion = set,
            1004 => self.report_focus = set,
            1005 => self.mouse_utf8 = set,
            1049 => self.set_alt_screen(set),
            2004 => self.bracketed_paste = set,
            _ => {},
        }
    }

    /// Switches to (`set`) or from the alternate screen.
    pub fn set_alt_screen(&mut self, set: bool)
        requires
            old(self).wf(),
        ensures
            final(self).wf(),
            final(self)@ == alt_screen_effect(old(self)@, set),
    {
        if set == self.alt_screen {
            return;
        }
        self.alt_screen = set;
        std::mem::swap(&mut self.grid, &mut self.alt_grid);
        if self.alt_screen {
            self.alt_cursor = self.cursor;
        } else {
            self.cursor = self.alt_cursor;
            self.alt_grid.clear(Style::default());
            self.alt_cursor = Cursor::default();
            assert(self.alt_grid.wf());
        }
        assert(self@ =~= alt_screen_effect(old(self)@, set));
    }
}

/// Entering the alternate screen, then anything that leaves alone what is
/// kept aside (the main screen and its cursor) and stays on the alternate
/// screen, then leaving it: the main screen and the cursor are as they were
/// before entering, every cell of the alternate screen is blank in the
/// default style, and its kept cursor is a fresh one. Switching to the screen
/// already shown changes nothing.
pub proof fn lemma_alt_screen_restores(v: TermView, inside: TermView)
    requires
        !v.alt_screen,
        inside.alt_screen,
        inside.alt_grid == alt_screen_effect(v, true).alt_grid,
        inside.alt_cursor == alt_screen_effect(v, true).alt_cursor,
    ensures
        ({
            let w = alt_screen_effect(inside, false);
            &&& !w.alt_screen
            &&& w.grid == v.grid
            &&& w.cursor == v.cursor
            &&& w.alt_grid.len() == inside.grid.len()
            &&& forall|i: int, j: int|
                0 <= i < w.alt_grid.len() && 0 <= j < w.alt_grid[i].len() ==> #[trigger] w.alt_grid[i][j]
                    == blank_cell(crate::terminal::style::default_style())
            &&& w.alt_cursor == default_cursor()
        }),
        alt_screen_effect(v, v.alt_screen) == v,
        alt_screen_effect(inside, inside.alt_screen) == inside,
{
}

/// `x` limited to `max` (`x.clamp(0, max)`).
pub fn clamp_to(x: usize, max: usize) -> (r: usize)
    ensures
        r == at_most(x as int, max as int),
{
    if x > max { max } else { x }
}

} // verus!

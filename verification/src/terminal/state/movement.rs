//! Where the cursor goes: the cursor movements of CSI, and the line feeds
//! of C0 and ESC, stated over the cursor's row and column.
use vstd::prelude::*;

use crate::terminal::grid::Cell;
use crate::terminal::state::control::{csi_effect, esc_effect, execute_effect, print_effect};
use crate::terminal::style::Charset;
use crate::terminal::state::TermView;

verus! {

/// The count of a cursor movement: its first parameter, 1 when that is
/// absent or 0.
pub open spec fn move_count(ps: Seq<Seq<u16>>) -> int {
    if ps.len() > 0 && ps[0].len() > 0 && ps[0][0] != 0 {
        ps[0][0] as int
    } else {
        1
    }
}

/// `CSI n A` moves the cursor up `n` rows, stopping at the top row; `CSI n B`
/// (and `CSI n e`) down `n` rows, stopping at the last row; `CSI n C` (and
/// `CSI n a`) right `n` columns, stopping at the last column; `CSI n D` left
/// `n` columns, stopping at the first. Each keeps the other coordinate and
/// the screen, and none moves the cursor the wrong way.
pub proof fn lemma_cursor_moves(v: TermView, ps: Seq<Seq<u16>>)
    requires
        v.size.rows >= 1,
        v.size.cols >= 1,
        v.cursor.pos.row < v.size.rows,
        v.cursor.pos.col < v.size.cols,
    ensures
        ({
            let n = move_count(ps);
            let row = v.cursor.pos.row as int;
            let col = v.cursor.pos.col as int;
            let rows = v.size.rows as int;
            let cols = v.size.cols as int;
            let up = csi_effect(v, ps, Seq::empty(), 0x41);
            let down = csi_effect(v, ps, Seq::empty(), 0x42);
            let down_e = csi_effect(v, ps, Seq::empty(), 0x65);
            let right = csi_effect(v, ps, Seq::empty(), 0x43);
            let right_a = csi_effect(v, ps, Seq::empty(), 0x61);
            let left = csi_effect(v, ps, Seq::empty(), 0x44);
            &&& up.cursor.pos.row == (if row >= n { row - n } else { 0 })
            &&& up.cursor.pos.col == col
            &&& up.cursor.pos.row <= row
            &&& down.cursor.pos.row == (if row + n <= rows - 1 { row + n } else { rows - 1 })
            &&& down.cursor.pos.col == col
            &&& down.cursor.pos.row >= row
            &&& down_e == down
            &&& right.cursor.pos.col == (if col + n <= cols - 1 { col + n } else { cols - 1 })
            &&& right.cursor.pos.row == row
            &&& right.cursor.pos.col >= col
            &&& right_a == right
            &&& left.cursor.pos.col == (if col >= n { col - n } else { 0 })
            &&& left.cursor.pos.row == row
            &&& left.cursor.pos.col <= col
            &&& up.grid == v.grid && down.grid == v.grid && right.grid == v.grid && left.grid == v.grid
        }),
{
}

/// A line feed (`ESC D`, and LF, VT and FF when new-line mode is off) moves
/// the cursor down one row and keeps its column; on the last row of the
/// scroll region the cursor stays and the region scrolls instead, and on
/// the last row of the screen below the region it stays. `ESC E` (next
/// line) is a line feed followed by a carriage return: it leaves the cursor
/// in the first column. In new-line mode LF, VT and FF are next lines too.
pub proof fn lemma_line_feeds(v: TermView)
    ensures
        ({
            let row = v.cursor.pos.row as int;
            let lf = esc_effect(v, Seq::empty(), 0x44);
            let nel = esc_effect(v, Seq::empty(), 0x45);
            &&& lf.cursor.pos.col == v.cursor.pos.col
            &&& lf.cursor.pos.row == (if row == v.scroll_end - 1 || row >= v.size.rows - 1 {
                row
            } else {
                row + 1
            })
            &&& nel == execute_effect(lf, 0x0d)
            &&& nel.cursor.pos.col == 0
            &&& nel.cursor.pos.row == lf.cursor.pos.row
            &&& nel.grid == lf.grid
            &&& forall|b: u8|
                (b == 0x0a || b == 0x0b || b == 0x0c) ==> execute_effect(v, b) == if v.cursor.line_feed {
                    nel
                } else {
                    lf
                }
        }),
{
}

/// Printing a character (not in insert mode) writes it, in the cursor's
/// style, into the cell under the cursor (as it is, with the ASCII set
/// active; `q` becomes `─` with the line drawing set), leaves every other
/// cell alone, and moves the cursor one column right on the same row.
pub proof fn lemma_print_writes_one_cell(v: TermView, c: char)
    requires
        !v.cursor.insert,
        v.cursor.pos.row < v.grid.len(),
        v.cursor.pos.col < v.grid[v.cursor.pos.row as int].len(),
        v.cursor.pos.col < usize::MAX,
        v.cursor.active_charset < v.charsets.len(),
    ensures
        ({
            let w = print_effect(v, c);
            let row = v.cursor.pos.row as int;
            let col = v.cursor.pos.col as int;
            let set = v.charsets[v.cursor.active_charset as int];
            &&& w.cursor.pos.row == row
            &&& w.cursor.pos.col == col + 1
            &&& w.grid.len() == v.grid.len()
            &&& w.grid[row].len() == v.grid[row].len()
            &&& w.grid[row][col].style == v.cursor.style
            &&& set == Charset::Ascii ==> w.grid[row][col] == Cell { c, style: v.cursor.style }
            &&& set == Charset::LineDrawing && c == 'q' ==> w.grid[row][col].c == '─'
            &&& forall|i: int, j: int|
                0 <= i < v.grid.len() && 0 <= j < v.grid[i].len() && (i != row || j != col)
                    ==> #[trigger] w.grid[i][j] == v.grid[i][j]
        }),
{
}

/// Carriage return (CR) puts the cursor in the first column and backspace
/// (BS) one column left (staying in the first), both on the same row and
/// with the screen unchanged. `CSI r ; c H` (and `f`) puts the cursor on row
/// `r` and column `c`, counted from 1 (1 when absent or 0), kept on the screen.
pub proof fn lemma_cursor_jumps(v: TermView, ps: Seq<Seq<u16>>)
    requires
        v.size.rows >= 1,
        v.size.cols >= 1,
    ensures
        ({
            let row = v.cursor.pos.row;
            let col = v.cursor.pos.col as int;
            let cr = execute_effect(v, 0x0d);
            let bs = execute_effect(v, 0x08);
            let home = csi_effect(v, ps, Seq::empty(), 0x48);
            let r = move_count(ps);
            let c = if ps.len() > 1 && ps[1].len() > 0 && ps[1][0] != 0 { ps[1][0] as int } else { 1 };
            &&& cr.cursor.pos.col == 0 && cr.cursor.pos.row == row && cr.grid == v.grid
            &&& bs.cursor.pos.col == (if col >= 1 { col - 1 } else { 0 }) && bs.cursor.pos.row == row
            &&& bs.grid == v.grid
            &&& home.cursor.pos.row == (if r <= v.size.rows { r - 1 } else { v.size.rows - 1 })
            &&& home.cursor.pos.col == (if c <= v.size.cols { c - 1 } else { v.size.cols - 1 })
            &&& home.grid == v.grid
            &&& csi_effect(v, ps, Seq::empty(), 0x66) == home
        }),
{
}

/// Erase in line (`CSI p K`) blanks, in the cursor's style, the cells of
/// the cursor's row from the cursor to the end (p = 0 or absent), from the
/// start to the cursor (p = 1) or all of them (p = 2); every other cell, and
/// the cursor, stay as they are.
pub proof fn lemma_erase_in_line(v: TermView, p: u16)
    requires
        v.cursor.pos.row < v.grid.len(),
        v.grid[v.cursor.pos.row as int].len() == v.size.cols,
        p <= 2,
    ensures
        ({
            let ps = if p == 0 { Seq::<Seq<u16>>::empty() } else { seq![seq![p]] };
            let w = csi_effect(v, ps, Seq::empty(), 0x4b);
            let row = v.cursor.pos.row as int;
            let col = v.cursor.pos.col as int;
            &&& w.cursor == v.cursor
            &&& w.grid.len() == v.grid.len()
            &&& w.grid[row].len() == v.grid[row].len()
            &&& forall|i: int, j: int| 0 <= i < v.grid.len() && 0 <= j < v.grid[i].len() ==>
                #[trigger] w.grid[i][j] == if i == row && ((p == 0 && j >= col) || (p == 1 && j <= col) || p == 2) {
                    Cell { c: ' ', style: v.cursor.style }
                } else {
                    v.grid[i][j]
                }
        }),
{
    let ps = if p == 0 { Seq::<Seq<u16>>::empty() } else { seq![seq![p]] };
    if p != 0 {
        assert(ps[0][0] == p);
    }
}

} // verus!

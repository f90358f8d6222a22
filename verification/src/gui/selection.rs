//! The terminal view's selection: the cells between where a drag started
//! and where the mouse is, in reading order.
use vstd::prelude::*;

use crate::terminal::style::Position;

verus! {

/// `a` comes before `b` in reading order, or is `b`.
pub open spec fn reads_before(a: Position, b: Position) -> bool {
    a.row < b.row || (a.row == b.row && a.col <= b.col)
}

/// The selection a drag from `anchor` to `mouse` makes: none when they are
/// the same cell; on one row, from the leftmost to the rightmost column;
/// otherwise from the upper to the lower of the two.
pub open spec fn selection_spec(anchor: Position, mouse: Position) -> Option<(Position, Position)> {
    if anchor == mouse {
        None
    } else if anchor.row == mouse.row {
        let lo = if anchor.col <= mouse.col { anchor.col } else { mouse.col };
        let hi = if anchor.col <= mouse.col { mouse.col } else { anchor.col };
        Some((Position { row: anchor.row, col: lo }, Position { row: anchor.row, col: hi }))
    } else if anchor.row < mouse.row {
        Some((anchor, mouse))
    } else {
        Some((mouse, anchor))
    }
}

/// Whether the cell at `row`, `col` lies in the selection from `start` to
/// `end`: from `start` on, before `end`.
pub open spec fn selected_spec(selection: Option<(Position, Position)>, row: usize, col: usize) -> bool {
    match selection {
        None => false,
        Some((start, end)) => if row < start.row || row > end.row {
            false
        } else if row == start.row && row == end.row {
            start.col <= col && col < end.col
        } else if row == start.row {
            col >= start.col
        } else if row == end.row {
            col < end.col
        } else {
            true
        },
    }
}

/// The selection a drag from `anchor` to `mouse` makes (see
/// `selection_spec`); it always starts before it ends.
pub fn selection_between(anchor: Position, mouse: Position) -> (r: Option<(Position, Position)>)
    ensures
        r == selection_spec(anchor, mouse),
        match r {
            Some((start, end)) => reads_before(start, end),
            None => true,
        },
{
    if anchor == mouse {
        None
    } else if anchor.row == mouse.row {
        let lo = if anchor.col <= mouse.col { anchor.col } else { mouse.col };
        let hi = if anchor.col <= mouse.col { mouse.col } else { anchor.col };
        Some((Position { row: anchor.row, col: lo }, Position { row: anchor.row, col: hi }))
    } else if anchor.row < mouse.row {
        Some((anchor, mouse))
    } else {
        Some((mouse, anchor))
    }
}

/// Whether the cell at `row`, `col` is drawn inverted as selected (see
/// `selected_spec`).
pub fn inverted_at(selection: Option<(Position, Position)>, row: usize, col: usize) -> (r: bool)
    ensures
        r == selected_spec(selection, row, col),
{
    match selection {
        None => false,
        Some((start, end)) => {
            if row < start.row || row > end.row {
                false
            } else if row == start.row && row == end.row {
                col >= start.col && col < end.col
            } else if row == start.row {
                col >= start.col
            } else if row == end.row {
                col < end.col
            } else {
                true
            }
        },
    }
}

/// Dragging back and forth selects the same cells: the selection does not
/// depend on which end the drag started from.
pub proof fn lemma_selection_symmetric(a: Position, b: Position)
    ensures
        selection_spec(a, b) == selection_spec(b, a),
{
}

} // verus!

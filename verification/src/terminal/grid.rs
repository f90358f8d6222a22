//! The screen grid: rows of cells, each a character with a style.
use vstd::prelude::*;

use crate::terminal::style::{default_style, Position, Size, Style};
use crate::text::{char_utf8_len, string_from_chars, utf8_width};
use vstd::std_specs::cmp::PartialEqSpec;

verus! {

/// One character cell of the screen.
#[derive(Debug, Clone, Copy, PartialEq, Eq)]
pub struct Cell {
    pub c: char,
    pub style: Style,
}

/// A blank cell drawn in `style`.
pub open spec fn blank_cell(style: Style) -> Cell {
    Cell { c: ' ', style }
}

/// A line of `n` blank cells drawn in `style`.
pub open spec fn blank_line(n: nat, style: Style) -> Seq<Cell> {
    Seq::new(n, |j: int| blank_cell(style))
}

/// `line` with the cells `start..=end` blanked in `style` (nothing when `start > end`).
pub open spec fn blank_range(line: Seq<Cell>, start: int, end: int, style: Style) -> Seq<Cell> {
    Seq::new(line.len(), |j: int| if start <= j <= end { blank_cell(style) } else { line[j] })
}

/// `line` with the cells from `col` on moved one place right; the last cell
/// wraps around to `col`.
pub open spec fn shifted_right(line: Seq<Cell>, col: int) -> Seq<Cell> {
    Seq::new(
        line.len(),
        |j: int|
            if j < col { line[j] } else if j == col { line[line.len() - 1] } else { line[j - 1] },
    )
}

/// `line` resized to `n` cells: cut, or padded with default blank cells.
pub open spec fn resized_line(line: Seq<Cell>, n: nat) -> Seq<Cell> {
    Seq::new(n, |j: int| if j < line.len() { line[j] } else { blank_cell(default_style()) })
}

/// The lines `start..end` moved down by one, the line at `start` blanked in
/// the default style (it is the one that was at `end - 1`).
pub open spec fn scrolled_down(lines: Seq<Seq<Cell>>, start: int, end: int) -> Seq<Seq<Cell>> {
    if start + 1 < end {
        Seq::new(
            lines.len(),
            |i: int|
                if i < start || i >= end {
                    lines[i]
                } else if i == start {
                    blank_line(lines[end - 1].len(), default_style())
                } else {
                    lines[i - 1]
                },
        )
    } else {
        lines.update(start, blank_line(lines[start].len(), default_style()))
    }
}

/// The lines `start..end` moved up by one, the line at `end - 1` blanked in
/// the default style (it is the one that was at `start`).
pub open spec fn scrolled_up(lines: Seq<Seq<Cell>>, start: int, end: int) -> Seq<Seq<Cell>> {
    if start < end {
        Seq::new(
            lines.len(),
            |i: int|
                if i < start || i >= end {
                    lines[i]
                } else if i == end - 1 {
                    blank_line(lines[start].len(), default_style())
                } else {
                    lines[i + 1]
                },
        )
    } else {
        lines.update(end - 1, blank_line(lines[end - 1].len(), default_style()))
    }
}

/// The screen: `size.rows` lines of `size.cols` cells.
pub struct Grid {
    lines: Vec<Vec<Cell>>,
    size: Size,
}

/// A line taken out of the grid when it scrolls off.
pub struct OwnedLine {
    cells: Vec<Cell>,
}

/// A read-only view of one line.
pub struct Line<'a> {
    line: &'a [Cell],
}

/// A writable view of one line.
pub struct LineMut<'a> {
    pub line: &'a mut [Cell],
}

impl View for Grid {
    type V = Seq<Seq<Cell>>;

    closed spec fn view(&self) -> Seq<Seq<Cell>> {
        Seq::new(self.lines@.len(), |i: int| self.lines@[i]@)
    }
}

impl View for OwnedLine {
    type V = Seq<Cell>;

    closed spec fn view(&self) -> Seq<Cell> {
        self.cells@
    }
}

impl<'a> View for Line<'a> {
    type V = Seq<Cell>;

    closed spec fn view(&self) -> Seq<Cell> {
        self.line@
    }
}

impl<'a> View for LineMut<'a> {
    type V = Seq<Cell>;

    open spec fn view(&self) -> Seq<Cell> {
        self.line@
    }
}

/// Sets every cell of `line` to `cell`.
fn fill_cells(line: &mut [Cell], cell: Cell)
    ensures
        final(line)@ == Seq::new(old(line)@.len(), |j: int| cell),
{
    let n = line.len();
    let mut i: usize = 0;
    while i < n
        invariant
            n == line@.len(),
            n == old(line)@.len(),
            0 <= i <= n,
            forall|j: int| 0 <= j < i ==> line@[j] == cell,
        decreases n - i,
    {
        line[i] = cell;
        i += 1;
    }
    assert(line@ =~= Seq::new(old(line)@.len(), |j: int| cell));
}

/// Blanks the cells `start..=end` of `line`.
fn blank_cells(line: &mut [Cell], start: usize, end: usize, style: Style)
    requires
        start > end || end < old(line)@.len(),
    ensures
        final(line)@ == blank_range(old(line)@, start as int, end as int, style),
{
    if start <= end {
        let mut i: usize = start;
        while i <= end
            invariant
                end < line@.len(),
                line@.len() == old(line)@.len(),
                start <= i <= end + 1,
                forall|j: int|
                    0 <= j < line@.len() ==> line@[j] == if start <= j < i {
                        blank_cell(style)
                    } else {
                        old(line)@[j]
                    },
            decreases end + 1 - i,
        {
            line[i] = Cell { c: ' ', style };
            i += 1;
        }
    }
    assert(line@ =~= blank_range(old(line)@, start as int, end as int, style));
}

/// Moves the cells from `col` on one place right, the last one wrapping to `col`.
fn shift_cells_right(line: &mut [Cell], col: usize)
    requires
        col < usize::MAX,
    ensures
        final(line)@ == if col < old(line)@.len() {
            shifted_right(old(line)@, col as int)
        } else {
            old(line)@
        },
{
    let n = line.len();
    if col < n {
        let last = line[n - 1];
        let mut i: usize = n - 1;
        while i > col
            invariant
                n == line@.len(),
                n == old(line)@.len(),
                col <= i <= n - 1,
                last == old(line)@[n - 1],
                forall|j: int|
                    0 <= j < n ==> line@[j] == if j <= i {
                        old(line)@[j]
                    } else {
                        old(line)@[j - 1]
                    },
            decreases i,
        {
            line[i] = line[i - 1];
            i -= 1;
        }
        line[col] = last;
        assert(line@ =~= shifted_right(old(line)@, col as int));
    }
}

impl Grid {
    /// The size the grid was made or last resized with.
    pub closed spec fn spec_size(&self) -> Size {
        self.size
    }

    /// Every line has `spec_size().cols` cells, and there are `spec_size().rows` lines.
    pub open spec fn wf(&self) -> bool {
        &&& self@.len() == self.spec_size().rows
        &&& forall|i: int| 0 <= i < self@.len() ==> #[trigger] self@[i].len() == self.spec_size().cols
    }

    /// A grid of `size.rows` lines of `size.cols` default blank cells.
    pub fn new(size: Size) -> (g: Grid)
        ensures
            g.wf(),
            g.spec_size() == size,
            g@ == Seq::new(size.rows as nat, |i: int| blank_line(size.cols as nat, default_style())),
    {
        let blank = Cell { c: ' ', style: Style::default() };
        let mut lines: Vec<Vec<Cell>> = Vec::new();
        let mut r: usize = 0;
        while r < size.rows
            invariant
                0 <= r <= size.rows,
                lines@.len() == r,
                blank == blank_cell(default_style()),
                forall|i: int|
                    0 <= i < r ==> #[trigger] lines@[i]@ == blank_line(size.cols as nat, default_style()),
            decreases size.rows - r,
        {
            let mut line: Vec<Cell> = Vec::new();
            let mut c: usize = 0;
            while c < size.cols
                invariant
                    0 <= c <= size.cols,
                    line@.len() == c,
                    blank == blank_cell(default_style()),
                    forall|j: int| 0 <= j < c ==> line@[j] == blank,
                decreases size.cols - c,
            {
                line.push(blank);
                c += 1;
            }
            assert(line@ =~= blank_line(size.cols as nat, default_style()));
            lines.push(line);
            r += 1;
        }
        let g = Grid { lines, size };
        assert(g@ =~= Seq::new(size.rows as nat, |i: int| blank_line(size.cols as nat, default_style())));
        g
    }

    /// Writes `c` in `style` at `pos`; a position off the grid is ignored.
    pub fn put(&mut self, pos: Position, c: char, style: Style)
        ensures
            final(self).spec_size() == old(self).spec_size(),
            final(self)@ == if pos.row < old(self)@.len() && pos.col < old(self)@[pos.row as int].len() {
                old(self)@.update(
                    pos.row as int,
                    old(self)@[pos.row as int].update(pos.col as int, Cell { c, style }),
                )
            } else {
                old(self)@
            },
    {
        if pos.row >= self.lines.len() {
            return;
        }
        if pos.col >= self.lines[pos.row].len() {
            return;
        }
        self.lines[pos.row].set(pos.col, Cell { c, style });
        assert(self@ =~= old(self)@.update(
            pos.row as int,
            old(self)@[pos.row as int].update(pos.col as int, Cell { c, style }),
        ));
    }

    /// The line at `index`, if there is one.
    pub fn line(&self, index: usize) -> (r: Option<Line<'_>>)
        ensures
            match r {
                Some(l) => index < self@.len() && l@ == self@[index as int],
                None => index >= self@.len(),
            },
    {
        if index < self.lines.len() {
            Some(Line { line: self.lines[index].as_slice() })
        } else {
            None
        }
    }

    /// A writable view of the line at `index`; what is written through it
    /// lands in that line.
    pub fn line_mut(&mut self, index: usize) -> (r: LineMut<'_>)
        requires
            index < old(self)@.len(),
        ensures
            r@ == old(self)@[index as int],
            final(self).spec_size() == old(self).spec_size(),
            final(self)@ == old(self)@.update(index as int, final(r.line)@),
    {
        let r = LineMut { line: self.lines[index].as_mut_slice() };
        r
    }

    /// Resizes to `size`: lines are cut or added, and every line is cut or
    /// padded with default blank cells to `size.cols`.
    pub fn resize(&mut self, size: Size)
        ensures
            final(self).wf(),
            final(self).spec_size() == size,
            final(self)@ == Seq::new(
                size.rows as nat,
                |i: int|
                    resized_line(
                        if i < old(self)@.len() { old(self)@[i] } else { Seq::empty() },
                        size.cols as nat,
                    ),
            ),
    {
        let ghost old_lines = self@;
        let ghost target = Seq::new(
            size.rows as nat,
            |i: int|
                resized_line(
                    if i < old_lines.len() { old_lines[i] } else { Seq::empty() },
                    size.cols as nat,
                ),
        );
        if size.rows <= self.lines.len() {
            self.lines.truncate(size.rows);
        } else {
            while self.lines.len() < size.rows
                invariant
                    self.lines@.len() <= size.rows,
                    self.lines@.len() >= old_lines.len(),
                    forall|i: int|
                        0 <= i < self.lines@.len() ==> #[trigger] self.lines@[i]@ == if i
                            < old_lines.len() {
                            old_lines[i]
                        } else {
                            Seq::<Cell>::empty()
                        },
                decreases size.rows - self.lines@.len(),
            {
                self.lines.push(Vec::new());
            }
        }
        assert(forall|i: int|
            0 <= i < self.lines@.len() ==> #[trigger] self.lines@[i]@ == if i < old_lines.len() {
                old_lines[i]
            } else {
                Seq::<Cell>::empty()
            });
        let n = self.lines.len();
        let mut r: usize = 0;
        while r < n
            invariant
                n == self.lines@.len(),
                n == size.rows,
                target.len() == n,
                target == Seq::new(
                    size.rows as nat,
                    |i: int|
                        resized_line(
                            if i < old_lines.len() { old_lines[i] } else { Seq::empty() },
                            size.cols as nat,
                        ),
                ),
                0 <= r <= n,
                forall|i: int|
                    0 <= i < n ==> #[trigger] self.lines@[i]@ == if i < r {
                        target[i]
                    } else if i < old_lines.len() {
                        old_lines[i]
                    } else {
                        Seq::<Cell>::empty()
                    },
            decreases n - r,
        {
            let line = &mut self.lines[r];
            resize_cells(line, size.cols);
            r += 1;
        }
        self.size = size;
        assert(self@ =~= target);
    }

    /// Blanks every cell in `style`.
    pub fn clear(&mut self, style: Style)
        ensures
            final(self).spec_size() == old(self).spec_size(),
            final(self)@ == Seq::new(
                old(self)@.len(),
                |i: int| blank_line(old(self)@[i].len(), style),
            ),
    {
        let n = self.lines.len();
        let mut r: usize = 0;
        while r < n
            invariant
                n == self.lines@.len(),
                n == old(self)@.len(),
                self.size == old(self).size,
                0 <= r <= n,
                forall|i: int|
                    0 <= i < n ==> #[trigger] self.lines@[i]@ == if i < r {
                        blank_line(old(self)@[i].len(), style)
                    } else {
                        old(self)@[i]
                    },
            decreases n - r,
        {
            fill_cells(self.lines[r].as_mut_slice(), Cell { c: ' ', style });
            r += 1;
        }
        assert(self@ =~= Seq::new(old(self)@.len(), |i: int| blank_line(old(self)@[i].len(), style)));
    }

    /// Blanks the line at `index` in `style`.
    pub fn clear_line(&mut self, index: usize, style: Style)
        requires
            index < old(self)@.len(),
        ensures
            final(self).spec_size() == old(self).spec_size(),
            final(self)@ == old(self)@.update(index as int, blank_line(old(self)@[index as int].len(), style)),
    {
        fill_cells(self.lines[index].as_mut_slice(), Cell { c: ' ', style });
        assert(self@ =~= old(self)@.update(index as int, blank_line(old(self)@[index as int].len(), style)));
    }

    /// Blanks the cells `start..=end` of the line at `index` in `style`.
    pub fn clear_line_range(&mut self, index: usize, start: usize, end: usize, style: Style)
        requires
            index < old(self)@.len(),
            start > end || end < old(self)@[index as int].len(),
        ensures
            final(self).spec_size() == old(self).spec_size(),
            final(self)@ == old(self)@.update(
                index as int,
                blank_range(old(self)@[index as int], start as int, end as int, style),
            ),
    {
        blank_cells(self.lines[index].as_mut_slice(), start, end, style);
        assert(self@ =~= old(self)@.update(
            index as int,
            blank_range(old(self)@[index as int], start as int, end as int, style),
        ));
    }

    /// Moves the cells of the line at `index` from `col` on one place right.
    pub fn shift_line_right_from(&mut self, index: usize, col: usize)
        requires
            index < old(self)@.len(),
            col < usize::MAX,
        ensures
            final(self).spec_size() == old(self).spec_size(),
            final(self)@ == old(self)@.update(
                index as int,
                if col < old(self)@[index as int].len() {
                    shifted_right(old(self)@[index as int], col as int)
                } else {
                    old(self)@[index as int]
                },
            ),
    {
        shift_cells_right(self.lines[index].as_mut_slice(), col);
        assert(self@ =~= old(self)@.update(
            index as int,
            if col < old(self)@[index as int].len() {
                shifted_right(old(self)@[index as int], col as int)
            } else {
                old(self)@[index as int]
            },
        ));
    }

    /// Scrolls the lines of `range` down by one: a blank line appears at
    /// `range.start` and the one at `range.end - 1` goes.
    pub fn scroll_down(&mut self, range: std::ops::Range<usize>)
        requires
            range.start < old(self)@.len(),
            range.start + 1 < range.end ==> range.end <= old(self)@.len(),
        ensures
            final(self).spec_size() == old(self).spec_size(),
            final(self)@ == scrolled_down(old(self)@, range.start as int, range.end as int),
    {
        let start = range.start;
        let end = range.end;
        if end > 0 && start < end - 1 {
            let line = self.lines.remove(end - 1);
            self.lines.insert(start, line);
        }
        self.clear_line(start, Style::default());
        assert(self@ =~= scrolled_down(old(self)@, start as int, end as int));
    }

    /// Scrolls the lines of `range` up by one: the line at `range.start` is
    /// returned and a blank line appears at `range.end - 1`.
    pub fn scroll_up(&mut self, range: std::ops::Range<usize>) -> (taken: OwnedLine)
        requires
            range.start < old(self)@.len(),
            1 <= range.end <= old(self)@.len(),
        ensures
            taken@ == old(self)@[range.start as int],
            final(self).spec_size() == old(self).spec_size(),
            final(self)@ == scrolled_up(old(self)@, range.start as int, range.end as int),
    {
        let start = range.start;
        let end = range.end;
        let taken = OwnedLine { cells: copy_cells(&self.lines[start]) };
        if start < end - 1 {
            let line = self.lines.remove(start);
            self.lines.insert(end - 1, line);
        }
        self.clear_line(end - 1, Style::default());
        assert(self@ =~= scrolled_up(old(self)@, start as int, end as int));
        taken
    }
}

/// A copy of `cells`.
fn copy_cells(cells: &Vec<Cell>) -> (r: Vec<Cell>)
    ensures
        r@ == cells@,
{
    let mut r: Vec<Cell> = Vec::new();
    let mut i: usize = 0;
    while i < cells.len()
        invariant
            0 <= i <= cells@.len(),
            r@ == cells@.take(i as int),
        decreases cells@.len() - i,
    {
        r.push(cells[i]);
        i += 1;
        assert(r@ =~= cells@.take(i as int));
    }
    assert(cells@.take(cells@.len() as int) =~= cells@);
    r
}

/// Cuts `line` to `n` cells, or pads it with default blank cells.
fn resize_cells(line: &mut Vec<Cell>, n: usize)
    ensures
        final(line)@ == resized_line(old(line)@, n as nat),
{
    if n <= line.len() {
        line.truncate(n);
    } else {
        while line.len() < n
            invariant
                old(line)@.len() <= line@.len() <= n,
                forall|j: int|
                    0 <= j < line@.len() ==> line@[j] == if j < old(line)@.len() {
                        old(line)@[j]
                    } else {
                        blank_cell(default_style())
                    },
            decreases n - line@.len(),
        {
            line.push(Cell { c: ' ', style: Style::default() });
        }
    }
    assert(line@ =~= resized_line(old(line)@, n as nat));
}

impl<'a> LineMut<'a> {
    /// Blanks every cell in `style`.
    pub fn clear(&mut self, style: Style)
        ensures
            final(self)@ == blank_line(old(self)@.len(), style),
            final(final(self).line)@ == final(old(self).line)@,
    {
        fill_cells(self.line, Cell { c: ' ', style });
    }

    /// Blanks the cells of `range` in `style`.
    pub fn clear_range(&mut self, range: std::ops::RangeInclusive<usize>, style: Style)
        requires
            range_is_empty(&range) || range@.end < old(self)@.len(),
        ensures
            final(self)@ == if range_is_empty(&range) {
                old(self)@
            } else {
                blank_range(old(self)@, range@.start as int, range@.end as int, style)
            },
            final(final(self).line)@ == final(old(self).line)@,
    {
        if !crate::text::inclusive_is_empty(&range) {
            let start = crate::text::inclusive_start(&range);
            let end = crate::text::inclusive_end(&range);
            blank_cells(self.line, start, end, style);
        }
    }

    /// Moves the cells from `col` on one place right, the last one wrapping to `col`.
    pub fn shift_right_from(&mut self, col: usize)
        requires
            col < usize::MAX,
        ensures
            final(self)@ == if col < old(self)@.len() {
                shifted_right(old(self)@, col as int)
            } else {
                old(self)@
            },
            final(final(self).line)@ == final(old(self).line)@,
    {
        shift_cells_right(self.line, col);
    }
}

/// The characters of `cells`, without the NUL characters.
pub open spec fn visible_chars(cells: Seq<Cell>) -> Seq<char>
    decreases cells.len(),
{
    if cells.len() == 0 {
        Seq::empty()
    } else {
        let rest = visible_chars(cells.drop_last());
        if cells.last().c != '\0' {
            rest.push(cells.last().c)
        } else {
            rest
        }
    }
}

/// The UTF-8 byte offset of cell `i` when the characters of `cells` are
/// written out one after another.
pub open spec fn byte_offset(cells: Seq<Cell>, i: int) -> nat
    decreases i,
{
    if i <= 0 {
        0
    } else {
        byte_offset(cells, i - 1) + utf8_width(cells[i - 1].c)
    }
}

/// Where the style changes among the first `n` cells: for each cell whose
/// style differs from the one before it (the default style before the first
/// cell), the style before it and the cell's byte offset.
pub open spec fn style_changes(cells: Seq<Cell>, n: int) -> Seq<(Style, usize)>
    decreases n,
{
    if n <= 0 {
        Seq::empty()
    } else {
        let prev = if n == 1 { default_style() } else { cells[n - 2].style };
        let rest = style_changes(cells, n - 1);
        if cells[n - 1].style != prev {
            rest.push((prev, byte_offset(cells, n - 1) as usize))
        } else {
            rest
        }
    }
}

/// Where the value of `vals` changes among the first `n` cells (`vals[i]`
/// belongs to cell `i`): for each cell `i >= 1` whose value is not equal to
/// that of cell `i - 1`, the value of cell `i - 1` and the byte offset of cell `i`.
pub open spec fn value_changes<T: PartialEq>(cells: Seq<Cell>, vals: Seq<T>, n: int) -> Seq<(T, usize)>
    decreases n,
{
    if n <= 1 {
        Seq::empty()
    } else {
        let rest = value_changes(cells, vals, n - 1);
        if !vals[n - 1].eq_spec(&vals[n - 2]) {
            rest.push((vals[n - 2], byte_offset(cells, n - 1) as usize))
        } else {
            rest
        }
    }
}

proof fn lemma_byte_offset_bound(cells: Seq<Cell>, i: int)
    requires
        0 <= i <= cells.len(),
    ensures
        byte_offset(cells, i) <= 4 * i,
    decreases i,
{
    if i > 0 {
        lemma_byte_offset_bound(cells, i - 1);
    }
}

impl<'a> Line<'a> {
    /// The characters of the line, NUL characters left out.
    pub fn to_string(&self) -> (s: String)
        ensures
            s@ == visible_chars(self@),
    {
        let mut chars: Vec<char> = Vec::new();
        let mut i: usize = 0;
        while i < self.line.len()
            invariant
                0 <= i <= self.line@.len(),
                chars@ == visible_chars(self.line@.take(i as int)),
            decreases self.line@.len() - i,
        {
            let c = self.line[i].c;
            assert(self.line@.take(i + 1).drop_last() =~= self.line@.take(i as int));
            if c != '\0' {
                chars.push(c);
            }
            i += 1;
        }
        assert(self.line@.take(self.line@.len() as int) =~= self.line@);
        string_from_chars(&chars)
    }

    /// Each place where the style changes: the style in force before it and
    /// the byte offset where the new style starts (in the text `to_string`
    /// would give if no cell were NUL). The last run is not reported.
    pub fn styles(&self) -> (r: Vec<(Style, usize)>)
        requires
            4 * self@.len() <= usize::MAX,
        ensures
            r@ == style_changes(self@, self@.len() as int),
    {
        let mut r: Vec<(Style, usize)> = Vec::new();
        let mut prev = Style::default();
        let mut offset: usize = 0;
        let mut i: usize = 0;
        while i < self.line.len()
            invariant
                0 <= i <= self.line@.len(),
                4 * self.line@.len() <= usize::MAX,
                offset == byte_offset(self.line@, i as int),
                prev == if i == 0 { default_style() } else { self.line@[i - 1].style },
                r@ == style_changes(self.line@, i as int),
            decreases self.line@.len() - i,
        {
            let cell = self.line[i];
            proof {
                lemma_byte_offset_bound(self.line@, i + 1);
            }
            let at = offset;
            offset = offset + char_utf8_len(cell.c);
            if cell.style != prev {
                r.push((prev, at));
            }
            prev = cell.style;
            i += 1;
        }
        r
    }

    /// Like `styles`, but for the value `f` gives of each cell's style: each
    /// place after the first cell where that value changes, with the value
    /// before it and the byte offset of the cell where the new value starts.
    pub fn specific_styles<T: Clone + PartialEq, F: Fn(Style) -> T>(&self, f: F) -> (r: Vec<(T, usize)>)
        requires
            4 * self@.len() <= usize::MAX,
            forall|s: Style| call_requires(f, (s,)),
        ensures
            T::obeys_eq_spec() ==> exists|vals: Seq<T>|
                {
                    &&& vals.len() == self@.len()
                    &&& forall|i: int|
                        0 <= i < vals.len() ==> call_ensures(f, (#[trigger] self@[i].style,), vals[i])
                    &&& r@ == value_changes(self@, vals, self@.len() as int)
                },
    {
        let mut r: Vec<(T, usize)> = Vec::new();
        let n = self.line.len();
        if n == 0 {
            proof {
                let vals = Seq::<T>::empty();
                assert(r@ =~= value_changes(self@, vals, 0));
                assert(vals.len() == self@.len());
                assert(forall|i: int|
                    0 <= i < vals.len() ==> call_ensures(f, (#[trigger] self@[i].style,), vals[i]));
            }
            return r;
        }
        let first = f(self.line[0].style);
        let ghost mut vals: Seq<T> = seq![first];
        let mut prev = first;
        let mut offset: usize = char_utf8_len(self.line[0].c);
        assert(byte_offset(self.line@, 0) == 0);
        assert(byte_offset(self.line@, 1) == utf8_width(self.line@[0].c));
        assert(r@ =~= value_changes(self.line@, vals, 1));
        let mut i: usize = 1;
        while i < n
            invariant
                1 <= i <= n,
                n == self.line@.len(),
                4 * self.line@.len() <= usize::MAX,
                forall|s: Style| call_requires(f, (s,)),
                offset == byte_offset(self.line@, i as int),
                vals.len() == i,
                prev == vals[i - 1],
                forall|k: int| 0 <= k < i ==> call_ensures(f, (#[trigger] self.line@[k].style,), vals[k]),
                T::obeys_eq_spec() ==> r@ == value_changes(self.line@, vals, i as int),
            decreases n - i,
        {
            let cell = self.line[i];
            proof {
                lemma_byte_offset_bound(self.line@, i + 1);
            }
            let at = offset;
            offset = offset + char_utf8_len(cell.c);
            let v = f(cell.style);
            let ghost old_vals = vals;
            let ghost old_r = r@;
            proof {
                vals = vals.push(v);
                assert(vals.drop_last() =~= old_vals);
                lemma_value_changes_prefix(self.line@, vals, i as int);
            }
            let changed = !v.eq(&prev);
            if changed {
                let old_prev = prev;
                prev = v;
                r.push((old_prev, at));
            } else {
                prev = v;
            }
            proof {
                if T::obeys_eq_spec() {
                    assert(changed == !vals[i as int].eq_spec(&vals[i - 1]));
                    assert(value_changes(self.line@, vals, i + 1) == if !vals[i as int].eq_spec(&vals[i - 1]) {
                        value_changes(self.line@, vals, i as int).push((vals[i - 1], byte_offset(self.line@, i as int) as usize))
                    } else {
                        value_changes(self.line@, vals, i as int)
                    });
                    assert(r@ == value_changes(self.line@, vals, i + 1));
                }
            }
            i += 1;
        }
        r
    }
}

proof fn lemma_value_changes_prefix<T: PartialEq>(cells: Seq<Cell>, vals: Seq<T>, n: int)
    requires
        0 <= n < vals.len(),
    ensures
        value_changes(cells, vals, n) == value_changes(cells, vals.drop_last(), n),
    decreases n,
{
    if n > 1 {
        lemma_value_changes_prefix(cells, vals, n - 1);
    }
}

/// Whether iterating `range` yields nothing: its start is past its end, or it
/// is exhausted.
pub open spec fn range_is_empty(range: &std::ops::RangeInclusive<usize>) -> bool {
    range@.start > range@.end || range@.exhausted
}

} // verus!

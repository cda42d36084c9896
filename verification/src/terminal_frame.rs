//! The encoded terminal output: a grid of character cells.

use crate::color::Color;
use crate::framebuffer::lemma_index_in_plane;
use vstd::prelude::*;

verus! {

/// A single encoded terminal cell: a character plus optional foreground/background colors.
///
/// A `None` color means "use the terminal default"; a grayscale encoder leaves both colors `None`
/// and relies on the glyph alone.
#[derive(Clone, Copy, Debug, PartialEq, Eq, Structural)]
pub struct Cell {
    /// The glyph to draw in this cell.
    pub ch: char,
    /// Optional foreground color.
    pub fg: Option<Color>,
    /// Optional background color.
    pub bg: Option<Color>,
}

impl Cell {
    /// A cell with a glyph and no explicit colors.
    #[verifier::allow_in_spec]
    pub fn glyph(ch: char) -> Cell
        returns
            (Cell { ch, fg: None, bg: None }),
    {
        Cell { ch, fg: None, bg: None }
    }

    /// A cell with a glyph and a foreground color.
    #[verifier::allow_in_spec]
    pub fn colored(ch: char, fg: Color) -> Cell
        returns
            (Cell { ch, fg: Some(fg), bg: None }),
    {
        Cell { ch, fg: Some(fg), bg: None }
    }
}

impl Default for Cell {
    fn default() -> (c: Cell)
        ensures
            c == Cell::glyph(' '),
    {
        Cell::glyph(' ')
    }
}

/// What a terminal frame holds: its size, and its cells row by row.
pub ghost struct Grid {
    /// The width in cells.
    pub cols: nat,
    /// The height in cells.
    pub rows: nat,
    /// The cells: the one at `(col, row)` is at index `row * cols + col`.
    pub cells: Seq<Cell>,
}

impl Grid {
    /// Whether there is exactly one cell per place, and every index fits the machine.
    pub open spec fn wf(self) -> bool {
        &&& self.cols <= usize::MAX
        &&& self.rows <= usize::MAX
        &&& self.cols * self.rows <= usize::MAX
        &&& self.cells.len() == self.cols * self.rows
    }

    /// Whether `(col, row)` is a place of this grid.
    pub open spec fn contains(self, col: int, row: int) -> bool {
        0 <= col < self.cols && 0 <= row < self.rows
    }

    /// The cell at `(col, row)`.
    pub open spec fn cell(self, col: int, row: int) -> Cell {
        self.cells[row * self.cols + col]
    }

    /// This grid with the cell at `(col, row)` replaced.
    pub open spec fn with_cell(self, col: int, row: int, cell: Cell) -> Grid {
        Grid { cells: self.cells.update(row * self.cols + col, cell), ..self }
    }

    /// The glyphs of one row.
    pub open spec fn line(self, row: int) -> Seq<char> {
        Seq::new(self.cols, |col: int| self.cell(col, row).ch)
    }

    /// The first `rows` rows, joined by newlines.
    pub open spec fn text(self, rows: int) -> Seq<char>
        decreases rows,
    {
        if rows <= 0 {
            Seq::empty()
        } else if rows == 1 {
            self.line(0)
        } else {
            self.text(rows - 1).push('\n') + self.line(rows - 1)
        }
    }
}

/// The blank grid of that size.
pub open spec fn blank(cols: nat, rows: nat) -> Grid {
    Grid { cols, rows, cells: Seq::new(cols * rows, |i: int| Cell::glyph(' ')) }
}

/// A rectangular grid of encoded cells, row-major, ready to be diffed and written to a terminal.
#[derive(Clone, Debug)]
pub struct TerminalFrame {
    cols: usize,
    rows: usize,
    cells: Vec<Cell>,
}

impl View for TerminalFrame {
    type V = Grid;

    closed spec fn view(&self) -> Grid {
        Grid { cols: self.cols as nat, rows: self.rows as nat, cells: self.cells@ }
    }
}

impl TerminalFrame {
    /// Whether there is exactly one cell per place.
    pub open spec fn wf(&self) -> bool {
        self@.wf()
    }

    /// Creates a frame of `cols` × `rows` cells filled with blank spaces.
    pub fn new(cols: usize, rows: usize) -> (f: TerminalFrame)
        requires
            cols * rows <= usize::MAX,
        ensures
            f.wf(),
            f@ == blank(cols as nat, rows as nat),
    {
        assert(0 <= cols * rows) by (nonlinear_arith);
        let f = TerminalFrame { cols, rows, cells: vec![Cell::glyph(' '); cols * rows] };
        assert(f@.cells =~= blank(cols as nat, rows as nat).cells);
        f
    }

    /// The width in cells.
    pub fn cols(&self) -> (n: usize)
        ensures
            n == self@.cols,
    {
        self.cols
    }

    /// The height in cells.
    pub fn rows(&self) -> (n: usize)
        ensures
            n == self@.rows,
    {
        self.rows
    }

    /// Resizes the frame, reusing the allocation when possible. Contents are reset to blanks.
    pub fn resize(&mut self, cols: usize, rows: usize)
        requires
            cols * rows <= usize::MAX,
        ensures
            final(self).wf(),
            final(self)@ == blank(cols as nat, rows as nat),
    {
        assert(0 <= cols * rows) by (nonlinear_arith);
        self.cols = cols;
        self.rows = rows;
        self.cells.clear();
        self.cells.resize(cols * rows, Cell::glyph(' '));
        assert(self@.cells =~= blank(cols as nat, rows as nat).cells);
    }

    fn index(&self, col: usize, row: usize) -> (i: usize)
        requires
            self.wf(),
            self@.contains(col as int, row as int),
        ensures
            i == row * self@.cols + col,
            i < self@.cells.len(),
    {
        proof {
            lemma_index_in_plane(col as int, row as int, self.cols as int, self.rows as int);
        }
        row * self.cols + col
    }

    /// The cell at `(col, row)`.
    pub fn get(&self, col: usize, row: usize) -> (c: Cell)
        requires
            self.wf(),
            self@.contains(col as int, row as int),
        ensures
            c == self@.cell(col as int, row as int),
    {
        self.cells[self.index(col, row)]
    }

    /// Sets the cell at `(col, row)`.
    pub fn set(&mut self, col: usize, row: usize, cell: Cell)
        requires
            old(self).wf(),
            old(self)@.contains(col as int, row as int),
        ensures
            final(self).wf(),
            final(self)@ == old(self)@.with_cell(col as int, row as int, cell),
    {
        let i: usize = self.index(col, row);
        self.cells.set(i, cell);
    }

    /// The full cell grid as a slice, row-major.
    pub fn cells(&self) -> (s: &[Cell])
        ensures
            s@ == self@.cells,
    {
        self.cells.as_slice()
    }

    /// Renders the frame to a plain `String` (glyphs only, newline-separated rows).
    ///
    /// Colors are ignored.
    pub fn to_text(&self) -> (s: String)
        requires
            self.wf(),
        ensures
            s@ == self@.text(self@.rows as int),
    {
        let mut s = String::new();
        let mut row: usize = 0;
        while row < self.rows
            invariant
                self.wf(),
                row <= self.rows,
                s@ == self@.text(row as int),
            decreases self.rows - row,
        {
            if row > 0 {
                s.push('\n');
            }
            let ghost start = s@;
            let mut col: usize = 0;
            while col < self.cols
                invariant
                    self.wf(),
                    row < self.rows,
                    col <= self.cols,
                    s@ == start + self@.line(row as int).take(col as int),
                decreases self.cols - col,
            {
                s.push(self.get(col, row).ch);
                assert(self@.line(row as int).take(col + 1) =~= self@.line(row as int).take(
                    col as int,
                ).push(self@.cell(col as int, row as int).ch));
                assert(s@ =~= start + self@.line(row as int).take(col + 1));
                col = col + 1;
            }
            assert(self@.line(row as int).take(col as int) =~= self@.line(row as int));
            assert(row == 0 ==> start + self@.line(0) =~= self@.line(0));
            row = row + 1;
        }
        s
    }
}

impl Default for TerminalFrame {
    fn default() -> (f: TerminalFrame)
        ensures
            f.wf(),
            f@ == blank(0, 0),
    {
        TerminalFrame::new(0, 0)
    }
}

/// The plain text of a frame has its rows from the top down, each from the left to the right, with a
/// newline between two rows and none at the end.
pub proof fn law_text_follows_the_rows(g: Grid, rows: int)
    requires
        g.wf(),
        0 < rows <= g.rows,
    ensures
        g.text(rows).len() == rows * (g.cols + 1) - 1,
        forall|col: int, row: int|
            #![trigger g.cells[row * g.cols + col]]
            0 <= col < g.cols && 0 <= row < rows ==> {
                &&& 0 <= row * (g.cols + 1) + col < g.text(rows).len()
                &&& g.text(rows)[row * (g.cols + 1) + col] == g.cells[row * g.cols + col].ch
            },
        forall|row: int|
            0 <= row < rows - 1 ==> #[trigger] g.text(rows)[row * (g.cols + 1) + g.cols] == '\n',
    decreases rows,
{
    let w = g.cols as int;
    if rows == 1 {
        assert(1 * (w + 1) - 1 == w);
        assert forall|col: int, row: int|
            #![trigger g.cells[row * g.cols + col]]
            0 <= col < g.cols && 0 <= row < rows implies {
            &&& 0 <= row * (g.cols + 1) + col < g.text(rows).len()
            &&& g.text(rows)[row * (g.cols + 1) + col] == g.cells[row * g.cols + col].ch
        } by {
            assert(row == 0);
            assert(0 * (w + 1) == 0 && 0 * w == 0);
            assert(g.line(0)[col] == g.cell(col, 0).ch);
        }
    } else {
        law_text_follows_the_rows(g, rows - 1);
        let before = g.text(rows - 1);
        let all = g.text(rows);
        assert((rows - 1) * (w + 1) + w + 1 == rows * (w + 1)) by (nonlinear_arith);
        assert(before.push('\n').len() == (rows - 1) * (w + 1));
        assert forall|col: int, row: int|
            #![trigger g.cells[row * g.cols + col]]
            0 <= col < g.cols && 0 <= row < rows implies {
            &&& 0 <= row * (g.cols + 1) + col < all.len()
            &&& all[row * (g.cols + 1) + col] == g.cells[row * g.cols + col].ch
        } by {
            if row < rows - 1 {
                let c = g.cells[row * g.cols + col];
                assert(all[row * (w + 1) + col] == before[row * (w + 1) + col]);
            } else {
                assert(all[row * (w + 1) + col] == g.line(rows - 1)[col]);
                vstd::arithmetic::mul::lemma_mul_nonnegative(row, w + 1);
            }
        }
        assert forall|row: int| 0 <= row < rows - 1 implies #[trigger] all[row * (g.cols + 1)
            + g.cols] == '\n' by {
            vstd::arithmetic::mul::lemma_mul_nonnegative(row, w + 1);
            if row < rows - 2 {
                vstd::arithmetic::mul::lemma_mul_inequality(row + 1, rows - 2, w + 1);
                assert((row + 1) * (w + 1) == row * (w + 1) + w + 1) by (nonlinear_arith);
                assert((rows - 2) * (w + 1) + w + 1 == (rows - 1) * (w + 1)) by (nonlinear_arith);
                assert(all[row * (w + 1) + w] == before[row * (w + 1) + w]);
            } else {
                assert(row * (w + 1) + w + 1 == (rows - 1) * (w + 1)) by (nonlinear_arith)
                    requires
                        row == rows - 2,
                ;
            }
        }
    }
}

/// A frame's cells are stored row by row, and setting one leaves all others alone.
pub proof fn law_cells_are_stored_row_by_row(g: Grid, col: int, row: int, cell: Cell)
    requires
        g.wf(),
        g.contains(col, row),
    ensures
        g.cell(col, row) == g.cells[row * g.cols + col],
        g.with_cell(col, row, cell).cells[row * g.cols + col] == cell,
        forall|c: int, r: int|
            #![trigger g.cells[r * g.cols + c]]
            g.contains(c, r) && (c != col || r != row) ==> g.with_cell(col, row, cell).cells[r
                * g.cols + c] == g.cells[r * g.cols + c],
{
    lemma_index_in_plane(col, row, g.cols as int, g.rows as int);
    assert forall|c: int, r: int|
        #![trigger g.cells[r * g.cols + c]]
        g.contains(c, r) && (c != col || r != row) implies g.with_cell(col, row, cell).cells[r
        * g.cols + c] == g.cells[r * g.cols + c] by {
        lemma_index_in_plane(c, r, g.cols as int, g.rows as int);
        crate::framebuffer::lemma_index_is_injective(c, r, col, row, g.cols as int);
    }
}

} // verus!

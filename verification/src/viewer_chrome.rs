//! What the interactive viewers lay over their frames: the status bar at the bottom and menu
//! panels.

use crate::framebuffer::{lemma_index_in_plane, lemma_index_is_injective};
use crate::terminal_frame::{Cell, Grid, TerminalFrame};
use vstd::prelude::*;
use vstd::string::*;

verus! {

/// The cell that shows character `i` of a text, or a blank behind its end.
pub open spec fn text_cell(text: Seq<char>, i: int) -> Cell {
    Cell::glyph(
        if 0 <= i < text.len() {
            text[i]
        } else {
            ' '
        },
    )
}

/// Whether the two grids have the same size, and `after` one cell for each place.
pub open spec fn same_size(before: Grid, after: Grid) -> bool {
    after.wf() && after.cols == before.cols && after.rows == before.rows
}

/// Whether `after` is `before` with `text` as its whole row `row`.
pub open spec fn lined(before: Grid, after: Grid, row: int, text: Seq<char>) -> bool {
    &&& same_size(before, after)
    &&& forall|c: int, r: int|
        #![trigger after.cell(c, r)]
        before.contains(c, r) ==> after.cell(c, r) == if r == row {
            text_cell(text, c)
        } else {
            before.cell(c, r)
        }
}

/// Writes `text` (clipped to the frame width) into `row`, blanking the rest of the row so the
/// overlaid line fully replaces whatever glyphs were underneath. No-op if `row` is out of range.
pub fn write_line(frame: &mut TerminalFrame, row: usize, text: &str)
    requires
        old(frame).wf(),
    ensures
        lined(old(frame)@, final(frame)@, row as int, text@),
{
    let cols: usize = frame.cols();
    if row >= frame.rows() || cols == 0 {
        return;
    }
    let ghost before = frame@;
    let len: usize = text.unicode_len();
    let mut col: usize = 0;
    while col < cols
        invariant
            before.wf(),
            cols == before.cols,
            row < before.rows,
            len == text@.len(),
            col <= cols,
            same_size(before, frame@),
            forall|c: int, r: int|
                #![trigger frame@.cell(c, r)]
                before.contains(c, r) ==> frame@.cell(c, r) == if r == row && c < col {
                    text_cell(text@, c)
                } else {
                    before.cell(c, r)
                },
        decreases cols - col,
    {
        let ghost mid = frame@;
        let ch: char = if col < len {
            text.get_char(col)
        } else {
            ' '
        };
        frame.set(col, row, Cell::glyph(ch));
        proof {
            lemma_index_in_plane(col as int, row as int, cols as int, before.rows as int);
            assert forall|c: int, r: int|
                #![trigger frame@.cell(c, r)]
                before.contains(c, r) implies frame@.cell(c, r) == if r == row && c < col + 1 {
                text_cell(text@, c)
            } else {
                before.cell(c, r)
            } by {
                lemma_index_in_plane(c, r, cols as int, before.rows as int);
                lemma_index_is_injective(c, r, col as int, row as int, cols as int);
                assert(mid.cell(c, r) == mid.cells[r * cols + c]);
            }
        }
        col = col + 1;
    }
}

/// Whether `after` is `before` with `status` as its last row but one, where it has one, and `help`
/// as its last row.
pub open spec fn barred(before: Grid, after: Grid, status: Seq<char>, help: Seq<char>) -> bool {
    &&& same_size(before, after)
    &&& forall|c: int, r: int|
        #![trigger after.cell(c, r)]
        before.contains(c, r) ==> after.cell(c, r) == if r == before.rows - 1 {
            text_cell(help, c)
        } else if r == before.rows - 2 {
            text_cell(status, c)
        } else {
            before.cell(c, r)
        }
}

/// Overlays the two-line bottom bar: `status` on the second-to-last row (when there is room) and
/// `help` on the last row. No-op for an empty frame.
pub fn overlay_bottom_bar(frame: &mut TerminalFrame, status: &str, help: &str)
    requires
        old(frame).wf(),
    ensures
        barred(old(frame)@, final(frame)@, status@, help@),
{
    let ghost before = frame@;
    let rows: usize = frame.rows();
    if rows == 0 || frame.cols() == 0 {
        return;
    }
    if rows >= 2 {
        write_line(frame, rows - 2, status);
    }
    let ghost mid = frame@;
    write_line(frame, rows - 1, help);
    assert forall|c: int, r: int|
        #![trigger frame@.cell(c, r)]
        before.contains(c, r) implies frame@.cell(c, r) == if r == before.rows - 1 {
        text_cell(help@, c)
    } else if r == before.rows - 2 {
        text_cell(status@, c)
    } else {
        before.cell(c, r)
    } by {
        assert(mid.contains(c, r));
        assert(mid.cell(c, r) == mid.cell(c, r));
    }
}

/// The length of the longest of the first `n` lines.
pub open spec fn widest(lines: Seq<String>, n: nat) -> nat
    decreases n,
{
    if n == 0 {
        0
    } else {
        let before = widest(lines, (n - 1) as nat);
        if lines[n - 1]@.len() > before {
            lines[n - 1]@.len()
        } else {
            before
        }
    }
}

/// Whether `after` is `before` with a panel of these lines at `(left, top)`, as wide as its longest
/// line, clipped to the frame.
pub open spec fn paneled(
    before: Grid,
    after: Grid,
    left: int,
    top: int,
    lines: Seq<String>,
    count: int,
    width: int,
) -> bool {
    &&& same_size(before, after)
    &&& forall|c: int, r: int|
        #![trigger after.cell(c, r)]
        before.contains(c, r) ==> after.cell(c, r) == if top <= r < top + count && left <= c < left
            + width {
            text_cell(lines[r - top]@, c - left)
        } else {
            before.cell(c, r)
        }
}

/// Draws a panel of text over the frame with its top-left at `(left, top)`: every line is blanked
/// to the width of the longest. What lies outside the frame is clipped.
pub fn overlay_panel(frame: &mut TerminalFrame, left: usize, top: usize, lines: &[String])
    requires
        old(frame).wf(),
    ensures
        paneled(
            old(frame)@,
            final(frame)@,
            left as int,
            top as int,
            lines@,
            lines@.len() as int,
            widest(lines@, lines@.len()) as int,
        ),
{
    let ghost before = frame@;
    let cols: usize = frame.cols();
    let rows: usize = frame.rows();
    let mut width: usize = 0;
    let mut i: usize = 0;
    while i < lines.len()
        invariant
            i <= lines@.len(),
            width == widest(lines@, i as nat),
        decreases lines@.len() - i,
    {
        let len: usize = lines[i].as_str().unicode_len();
        if len > width {
            width = len;
        }
        i = i + 1;
    }
    let mut r: usize = 0;
    while r < lines.len() && top < rows && r < rows - top
        invariant
            before.wf(),
            cols == before.cols,
            rows == before.rows,
            width == widest(lines@, lines@.len()),
            r <= lines@.len(),
            paneled(
                before,
                frame@,
                left as int,
                top as int,
                lines@,
                r as int,
                width as int,
            ),
            frame.wf(),
        decreases lines@.len() - r,
    {
        let len: usize = lines[r].as_str().unicode_len();
        let ghost above = frame@;
        let mut c: usize = 0;
        while c < width && left < cols && c < cols - left
            invariant
                before.wf(),
                cols == before.cols,
                rows == before.rows,
                top + r < rows,
                r < lines@.len(),
                len == lines@[r as int]@.len(),
                c <= width,
                same_size(before, frame@),
                forall|x: int, y: int|
                    #![trigger frame@.cell(x, y)]
                    before.contains(x, y) ==> frame@.cell(x, y) == if y == top + r && left <= x
                        < left + c {
                        text_cell(lines@[r as int]@, x - left)
                    } else {
                        above.cell(x, y)
                    },
            decreases width - c,
        {
            let ghost mid = frame@;
            let ch: char = if c < len {
                lines[r].as_str().get_char(c)
            } else {
                ' '
            };
            frame.set(left + c, top + r, Cell::glyph(ch));
            proof {
                lemma_index_in_plane(left + c, top + r, cols as int, rows as int);
                assert forall|x: int, y: int|
                    #![trigger frame@.cell(x, y)]
                    before.contains(x, y) implies frame@.cell(x, y) == if y == top + r && left <= x
                    < left + c + 1 {
                    text_cell(lines@[r as int]@, x - left)
                } else {
                    above.cell(x, y)
                } by {
                    lemma_index_in_plane(x, y, cols as int, rows as int);
                    lemma_index_is_injective(x, y, left + c, top + r, cols as int);
                    assert(mid.cell(x, y) == mid.cells[y * cols + x]);
                }
            }
            c = c + 1;
        }
        assert forall|x: int, y: int|
            #![trigger frame@.cell(x, y)]
            before.contains(x, y) implies frame@.cell(x, y) == if top <= y < top + r + 1 && left
            <= x < left + width {
            text_cell(lines@[y - top]@, x - left)
        } else {
            before.cell(x, y)
        } by {
            assert(above.cell(x, y) == above.cell(x, y));
        }
        r = r + 1;
    }
}

/// A line that is written shows its text from the left, with blanks behind it, and leaves every other
/// row alone.
pub proof fn law_line_shows_its_text(before: Grid, after: Grid, row: int, text: Seq<char>, c: int, r: int)
    requires
        lined(before, after, row, text),
        before.contains(c, r),
    ensures
        r == row && c < text.len() ==> after.cells[r * before.cols + c] == Cell::glyph(text[c]),
        r == row && c >= text.len() ==> after.cells[r * before.cols + c] == Cell::glyph(' '),
        r != row ==> after.cells[r * before.cols + c] == before.cells[r * before.cols + c],
{
    assert(after.cell(c, r) == after.cells[r * before.cols + c]);
}

/// The bar at the bottom has the help in the last row and the status right above it, where there is a
/// row for it; the rows above stay.
pub proof fn law_bar_is_at_the_bottom(
    before: Grid,
    after: Grid,
    status: Seq<char>,
    help: Seq<char>,
    c: int,
    r: int,
)
    requires
        barred(before, after, status, help),
        before.contains(c, r),
    ensures
        r + 1 == before.rows ==> after.cells[r * before.cols + c].ch == if c < help.len() {
            help[c]
        } else {
            ' '
        },
        r + 2 == before.rows ==> after.cells[r * before.cols + c].ch == if c < status.len() {
            status[c]
        } else {
            ' '
        },
        r + 2 < before.rows ==> after.cells[r * before.cols + c] == before.cells[r * before.cols
            + c],
{
    assert(after.cell(c, r) == after.cells[r * before.cols + c]);
}

/// A panel shows its lines one below the other from its top left, each blanked to the width of the
/// longest, and leaves everything around it alone.
pub proof fn law_panel_shows_its_lines(
    before: Grid,
    after: Grid,
    left: int,
    top: int,
    lines: Seq<String>,
    line: int,
    i: int,
)
    requires
        0 <= left,
        0 <= top,
        paneled(
            before,
            after,
            left,
            top,
            lines,
            lines.len() as int,
            widest(lines, lines.len()) as int,
        ),
    ensures
        0 <= line < lines.len() && 0 <= i < lines[line]@.len() && left + i < before.cols && top
            + line < before.rows ==> after.cells[(top + line) * before.cols + left + i]
            == Cell::glyph(lines[line]@[i]),
        forall|c: int, r: int|
            #![trigger before.cells[r * before.cols + c]]
            before.contains(c, r) && (c < left || r < top || r >= top + lines.len()) ==> after.cells[r
                * before.cols + c] == before.cells[r * before.cols + c],
{
    if 0 <= line < lines.len() && 0 <= i < lines[line]@.len() && left + i < before.cols && top + line
        < before.rows {
        lemma_widest_is_widest(lines, lines.len(), line);
        assert(before.contains(left + i, top + line));
        assert(after.cell(left + i, top + line) == text_cell(lines[line]@, i));
    }
    assert forall|c: int, r: int|
        #![trigger before.cells[r * before.cols + c]]
        before.contains(c, r) && (c < left || r < top || r >= top + lines.len()) implies after.cells[r
        * before.cols + c] == before.cells[r * before.cols + c] by {
        assert(after.cell(c, r) == before.cell(c, r));
    }
}

/// No line is longer than the longest.
proof fn lemma_widest_is_widest(lines: Seq<String>, n: nat, k: int)
    requires
        0 <= k < n <= lines.len(),
    ensures
        lines[k]@.len() <= widest(lines, n),
    decreases n,
{
    if k < n - 1 {
        lemma_widest_is_widest(lines, (n - 1) as nat, k);
    }
}

/// Whether a line starts with that label and has that value behind it.
pub open spec fn tells(line: Seq<char>, label: Seq<char>, value: Seq<char>) -> bool {
    &&& label.is_prefix_of(line)
    &&& exists|at: int|
        label.len() <= at && at + value.len() <= line.len() && #[trigger] line.subrange(
            at,
            at + value.len(),
        ) == value
}

/// Whether one of the lines starts with that label and has that value behind it.
pub open spec fn one_tells(lines: Seq<String>, label: Seq<char>, value: Seq<char>) -> bool {
    exists|k: int| 0 <= k < lines.len() && #[trigger] tells(lines[k]@, label, value)
}

/// A line made up of a label, blanks, a value and more tells the value.
pub proof fn lemma_line_tells(
    lines: Seq<String>,
    k: int,
    label: Seq<char>,
    gap: Seq<char>,
    value: Seq<char>,
    more: Seq<char>,
)
    requires
        0 <= k < lines.len(),
        lines[k]@ == label + gap + value + more,
    ensures
        one_tells(lines, label, value),
{
    let line = lines[k]@;
    let at = label.len() as int + gap.len();
    assert(line.subrange(0, label.len() as int) =~= label);
    assert(line.subrange(at, at + value.len()) =~= value);
    assert(tells(line, label, value));
}

} // verus!

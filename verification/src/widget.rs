//! Embedding an encoded frame inside a `ratatui` layout.
//!
//! A rendered viewport becomes one more widget in the area that a host application's layout gives
//! it: each encoded cell, its glyph and its quantized colors, is copied into the host's buffer.

use crate::framebuffer::lemma_index_in_plane;
use crate::terminal_frame::{Grid, TerminalFrame};
use crate::viewport::Viewport;
use vstd::prelude::*;

verus! {

/// `ratatui::buffer::Buffer`: the cells that a host application draws into.
#[verifier::external_type_specification]
#[verifier::external_body]
pub struct ExBuffer(ratatui::buffer::Buffer);

/// A color that a host's cell is given.
#[derive(Clone, Copy, Debug, PartialEq, Eq, Structural)]
pub enum Paint {
    /// A place in the terminal's palette.
    Indexed(u8),
    /// Red, green and blue.
    Rgb(u8, u8, u8),
}

/// One cell of a host's buffer: its symbol, and its colors where one was given.
pub ghost struct Painted {
    /// The symbol.
    pub symbol: Seq<char>,
    /// The foreground color, or `None` for one that was not given here.
    pub fg: Option<Paint>,
    /// The background color, or `None` for one that was not given here.
    pub bg: Option<Paint>,
}

/// The cells of a buffer, by column and row: each place for which `cell_mut` finds a cell.
pub uninterp spec fn buffer_cells(buf: ratatui::buffer::Buffer) -> Map<(u16, u16), Painted>;

/// `Buffer::cell_mut` and `Cell::set_char`: where there is a cell at that place, its symbol becomes the
/// character; nothing else changes.
#[verifier::external_body]
fn set_char(buf: &mut ratatui::buffer::Buffer, x: u16, y: u16, ch: char)
    ensures
        buffer_cells(*final(buf)) == if buffer_cells(*old(buf)).contains_key((x, y)) {
            buffer_cells(*old(buf)).insert(
                (x, y),
                Painted { symbol: seq![ch], ..buffer_cells(*old(buf))[(x, y)] },
            )
        } else {
            buffer_cells(*old(buf))
        },
{
    buf.cell_mut((x, y)).map(|c| c.set_char(ch));
}

/// `Buffer::cell_mut` and `Cell::set_fg`: where there is a cell at that place, its foreground becomes
/// the color; nothing else changes.
#[verifier::external_body]
fn set_fg(buf: &mut ratatui::buffer::Buffer, x: u16, y: u16, paint: Paint)
    ensures
        buffer_cells(*final(buf)) == if buffer_cells(*old(buf)).contains_key((x, y)) {
            buffer_cells(*old(buf)).insert(
                (x, y),
                Painted { fg: Some(paint), ..buffer_cells(*old(buf))[(x, y)] },
            )
        } else {
            buffer_cells(*old(buf))
        },
{
    let color = match paint {
        Paint::Indexed(i) => ratatui::style::Color::Indexed(i),
        Paint::Rgb(r, g, b) => ratatui::style::Color::Rgb(r, g, b),
    };
    buf.cell_mut((x, y)).map(|c| c.set_fg(color));
}

/// `Buffer::cell_mut` and `Cell::set_bg`: where there is a cell at that place, its background becomes
/// the color; nothing else changes.
#[verifier::external_body]
fn set_bg(buf: &mut ratatui::buffer::Buffer, x: u16, y: u16, paint: Paint)
    ensures
        buffer_cells(*final(buf)) == if buffer_cells(*old(buf)).contains_key((x, y)) {
            buffer_cells(*old(buf)).insert(
                (x, y),
                Painted { bg: Some(paint), ..buffer_cells(*old(buf))[(x, y)] },
            )
        } else {
            buffer_cells(*old(buf))
        },
{
    let color = match paint {
        Paint::Indexed(i) => ratatui::style::Color::Indexed(i),
        Paint::Rgb(r, g, b) => ratatui::style::Color::Rgb(r, g, b),
    };
    buf.cell_mut((x, y)).map(|c| c.set_bg(color));
}

/// The part of the host's screen that a widget is given.
#[derive(Clone, Copy, Debug, PartialEq, Eq, Structural)]
pub struct Area {
    /// The first column.
    pub x: u16,
    /// The first row.
    pub y: u16,
    /// The number of columns.
    pub width: u16,
    /// The number of rows.
    pub height: u16,
}

/// The framebuffer pixel size that fills a widget's area for the given subpixel factors.
///
/// Use `(2, 4)` for Braille, `(1, 2)` for half-blocks, and `(1, 1)` for ASCII.
pub fn render_size(area: Area, subpixel_x: u16, subpixel_y: u16) -> (size: (usize, usize))
    ensures
        size.0 == area.width * subpixel_x,
        size.1 == area.height * subpixel_y,
{
    Viewport { cols: area.width, rows: area.height }.render_size(subpixel_x, subpixel_y)
}

/// The quantized colors of one cell of a frame; `None` leaves the host's color.
#[derive(Clone, Copy, Debug, PartialEq, Eq, Structural)]
pub struct CellPaint {
    /// The foreground color.
    pub fg: Option<Paint>,
    /// The background color.
    pub bg: Option<Paint>,
}

/// The cell of a host's buffer once a cell of a frame was copied over it.
pub open spec fn covered(before: Painted, ch: char, paint: CellPaint) -> Painted {
    Painted {
        symbol: seq![ch],
        fg: if paint.fg is Some {
            paint.fg
        } else {
            before.fg
        },
        bg: if paint.bg is Some {
            paint.bg
        } else {
            before.bg
        },
    }
}

/// Whether the place lies in the part of the area that the frame covers.
pub open spec fn is_covered(frame: Grid, area: Area, x: int, y: int) -> bool {
    &&& area.x <= x < area.x + area.width
    &&& area.y <= y < area.y + area.height
    &&& x - area.x < frame.cols
    &&& y - area.y < frame.rows
}

/// Whether `after` is `before` with the frame copied over it in the area: only cells of the area
/// change, each to the frame's cell at the same place.
pub open spec fn blitted(
    frame: Grid,
    paints: Seq<CellPaint>,
    area: Area,
    before: Map<(u16, u16), Painted>,
    after: Map<(u16, u16), Painted>,
) -> bool {
    &&& after.dom() == before.dom()
    &&& forall|x: u16, y: u16|
        #![trigger after[(x, y)]]
        before.contains_key((x, y)) ==> after[(x, y)] == if is_covered(
            frame,
            area,
            x as int,
            y as int,
        ) {
            let i = (y - area.y) * frame.cols + (x - area.x);
            covered(before[(x, y)], frame.cells[i].ch, paints[i])
        } else {
            before[(x, y)]
        }
}

/// Copies an encoded frame into `buf`, clipped to `area`; `paints` has the quantized colors of each
/// cell, row by row.
///
/// Glyphs are always written; colors are written only where the cell has one.
pub fn blit(
    frame: &TerminalFrame,
    paints: &[CellPaint],
    area: Area,
    buf: &mut ratatui::buffer::Buffer,
)
    requires
        frame.wf(),
        paints@.len() == frame@.cells.len(),
        area.x + area.width <= 0x1_0000,
        area.y + area.height <= 0x1_0000,
    ensures
        blitted(frame@, paints@, area, buffer_cells(*old(buf)), buffer_cells(*final(buf))),
{
    let cols: usize = if frame.cols() < area.width as usize {
        frame.cols()
    } else {
        area.width as usize
    };
    let rows: usize = if frame.rows() < area.height as usize {
        frame.rows()
    } else {
        area.height as usize
    };
    let all: usize = frame.cols();
    let ghost before = buffer_cells(*buf);
    let mut row: usize = 0;
    while row < rows
        invariant
            frame.wf(),
            paints@.len() == frame@.cells.len(),
            area.x + area.width <= 0x1_0000,
            area.y + area.height <= 0x1_0000,
            all == frame@.cols,
            cols <= all,
            cols <= area.width,
            cols == all || cols == area.width,
            rows <= frame@.rows,
            rows <= area.height,
            rows == frame@.rows || rows == area.height,
            row <= rows,
            before == buffer_cells(*old(buf)),
            buffer_cells(*buf).dom() == before.dom(),
            forall|x: u16, y: u16|
                #![trigger buffer_cells(*buf)[(x, y)]]
                before.contains_key((x, y)) ==> buffer_cells(*buf)[(x, y)] == if is_covered(
                    frame@,
                    area,
                    x as int,
                    y as int,
                ) && y - area.y < row {
                    let i = (y - area.y) * all + (x - area.x);
                    covered(before[(x, y)], frame@.cells[i].ch, paints@[i])
                } else {
                    before[(x, y)]
                },
        decreases rows - row,
    {
        let mut col: usize = 0;
        while col < cols
            invariant
                frame.wf(),
                paints@.len() == frame@.cells.len(),
                area.x + area.width <= 0x1_0000,
                area.y + area.height <= 0x1_0000,
                all == frame@.cols,
                cols <= all,
                cols <= area.width,
                cols == all || cols == area.width,
                rows <= frame@.rows,
                rows <= area.height,
                row < rows,
                col <= cols,
                before == buffer_cells(*old(buf)),
                buffer_cells(*buf).dom() == before.dom(),
                forall|x: u16, y: u16|
                    #![trigger buffer_cells(*buf)[(x, y)]]
                    before.contains_key((x, y)) ==> buffer_cells(*buf)[(x, y)] == if is_covered(
                        frame@,
                        area,
                        x as int,
                        y as int,
                    ) && (y - area.y < row || (y - area.y == row && x - area.x < col)) {
                        let i = (y - area.y) * all + (x - area.x);
                        covered(before[(x, y)], frame@.cells[i].ch, paints@[i])
                    } else {
                        before[(x, y)]
                    },
            decreases cols - col,
        {
            let ghost mid = buffer_cells(*buf);
            proof {
                lemma_index_in_plane(col as int, row as int, all as int, frame@.rows as int);
            }
            let src = frame.get(col, row);
            let paint = paints[row * all + col];
            let px: u16 = (area.x as usize + col) as u16;
            let py: u16 = (area.y as usize + row) as u16;
            set_char(buf, px, py, src.ch);
            if let Some(fg) = paint.fg {
                set_fg(buf, px, py, fg);
            }
            if let Some(bg) = paint.bg {
                set_bg(buf, px, py, bg);
            }
            proof {
                let after = buffer_cells(*buf);
                assert(after.dom() =~= before.dom());
                assert forall|x: u16, y: u16|
                    #![trigger after[(x, y)]]
                    before.contains_key((x, y)) implies after[(x, y)] == if is_covered(
                    frame@,
                    area,
                    x as int,
                    y as int,
                ) && (y - area.y < row || (y - area.y == row && x - area.x < col + 1)) {
                    let i = (y - area.y) * all + (x - area.x);
                    covered(before[(x, y)], frame@.cells[i].ch, paints@[i])
                } else {
                    before[(x, y)]
                } by {
                    assert(mid.contains_key((x, y)));
                    assert(mid[(x, y)] == mid[(x, y)]);
                    if (x, y) != (px, py) {
                        assert(after[(x, y)] == mid[(x, y)]);
                    } else {
                        assert(mid[(x, y)] == before[(x, y)]);
                    }
                }
            }
            col = col + 1;
        }
        row = row + 1;
    }
}

/// A frame copied into an area has its cell in column `col` and row `row` that many columns and rows from
/// the area's top left: its glyph always, its colors where it has them. Outside the area, and beyond the
/// frame, nothing changes.
pub proof fn law_cells_land_in_the_area(
    frame: Grid,
    paints: Seq<CellPaint>,
    area: Area,
    before: Map<(u16, u16), Painted>,
    after: Map<(u16, u16), Painted>,
    x: u16,
    y: u16,
)
    requires
        blitted(frame, paints, area, before, after),
        before.contains_key((x, y)),
    ensures
        forall|col: int, row: int|
            #![trigger frame.cells[row * frame.cols + col]]
            0 <= col < frame.cols && 0 <= row < frame.rows && col < area.width && row < area.height
                && x == area.x + col && y == area.y + row ==> {
                let i = row * frame.cols + col;
                &&& after[(x, y)].symbol == seq![frame.cells[i].ch]
                &&& after[(x, y)].fg == if paints[i].fg is Some {
                    paints[i].fg
                } else {
                    before[(x, y)].fg
                }
                &&& after[(x, y)].bg == if paints[i].bg is Some {
                    paints[i].bg
                } else {
                    before[(x, y)].bg
                }
            },
        x < area.x || y < area.y || x >= area.x + area.width || y >= area.y + area.height || x
            >= area.x + frame.cols || y >= area.y + frame.rows ==> after[(x, y)] == before[(x, y)],
{
    assert(after[(x, y)] == after[(x, y)]);
}

} // verus!

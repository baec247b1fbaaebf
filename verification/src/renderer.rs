//! The renderer's planning half: which instanced quads a frame draws.
//!
//! Walking the active grid yields one background instance per cell and one
//! text instance per non-blank cell, plus one for a visible cursor.  The
//! records here are integral (grid position, colors, character); the host
//! resolves each character against the atlas and converts to its GPU
//! vertex layout, dropping glyphs the atlas refused.

use vstd::prelude::*;

use crate::grid::{Cell, Color, GridView};
use crate::terminal::{CursorShape, Terminal, TermView};

verus! {

/// One cell-sized quad to draw: its grid position, colors, and the
/// character whose glyph it shows (blank for background quads).
#[derive(Clone, Copy, Debug, PartialEq, Eq, Structural)]
pub struct CellInstance {
    pub col: usize,
    pub row: usize,
    pub fg: Color,
    pub bg: Color,
    pub glyph: char,
}

/// The background instance of the cell at buffer index `i`.
pub open spec fn spec_bg_instance(g: GridView, i: int) -> CellInstance {
    CellInstance {
        col: (i % (g.cols as int)) as usize,
        row: (i / (g.cols as int)) as usize,
        fg: g.cells[i].fg,
        bg: g.cells[i].bg,
        glyph: g.cells[i].character,
    }
}

/// One background instance for every cell, in buffer order.
pub open spec fn spec_bg_instances(g: GridView) -> Seq<CellInstance> {
    Seq::new(g.cells.len(), |i: int| spec_bg_instance(g, i))
}

/// The text instances of the first `i` cells: one per non-blank cell, in
/// buffer order.
pub open spec fn spec_text_upto(g: GridView, i: int) -> Seq<CellInstance>
    decreases i,
{
    if i <= 0 {
        Seq::empty()
    } else {
        spec_text_upto(g, i - 1) + (if g.cells[i - 1].character != ' ' {
            seq![spec_bg_instance(g, i - 1)]
        } else {
            Seq::empty()
        })
    }
}

/// The glyph a cursor shape is drawn with.
pub open spec fn spec_cursor_glyph(shape: CursorShape) -> char {
    match shape {
        CursorShape::Block => '\u{2588}',
        CursorShape::Underline => '_',
        CursorShape::Beam => '\u{2502}',
    }
}

/// The cursor's text instance: its glyph at the cursor position, drawn in
/// the default foreground over a transparent background.
pub open spec fn spec_cursor_instance(t: TermView) -> CellInstance {
    CellInstance {
        col: t.cursor.col,
        row: t.cursor.row,
        fg: Color::spec_emerald(),
        bg: Color { r: 0, g: 0, b: 0, a: 0 },
        glyph: spec_cursor_glyph(t.cursor.shape),
    }
}

/// The text instances of a whole frame: every non-blank cell, then the
/// cursor when it is visible.
pub open spec fn spec_text_instances(t: TermView) -> Seq<CellInstance> {
    spec_text_upto(t.active(), t.active().cells.len() as int) + (if t.cursor.visible {
        seq![spec_cursor_instance(t)]
    } else {
        Seq::empty()
    })
}

/// The exec glyph for a cursor shape.
pub fn cursor_glyph(shape: CursorShape) -> (c: char)
    ensures
        c == spec_cursor_glyph(shape),
{
    match shape {
        CursorShape::Block => '\u{2588}',
        CursorShape::Underline => '_',
        CursorShape::Beam => '\u{2502}',
    }
}

/// Plans one frame of the given terminal: the text instances (non-blank
/// cells then a visible cursor) and the background instances (every
/// cell), both in row-major order.
pub fn build_instances(terminal: &Terminal) -> (r: (Vec<CellInstance>, Vec<CellInstance>))
    requires
        terminal.wf(),
    ensures
        r.0@ == spec_text_instances(terminal@),
        r.1@ == spec_bg_instances(terminal@.active()),
{
    let grid = terminal.active_grid();
    let cols = grid.cols;
    let rows = grid.rows;
    proof {
        crate::grid::lemma_row_major_index(cols as int, rows as int, 0, rows - 1);
    }
    let total = cols * rows;
    let mut text: Vec<CellInstance> = Vec::new();
    let mut bg: Vec<CellInstance> = Vec::new();
    let mut i: usize = 0;
    while i < total
        invariant
            terminal.wf(),
            grid@ == terminal@.active(),
            cols == grid@.cols,
            rows == grid@.rows,
            total == cols * rows,
            total == grid@.cells.len(),
            cols >= 1,
            i <= total,
            bg@ == spec_bg_instances(grid@).subrange(0, i as int),
            text@ == spec_text_upto(grid@, i as int),
        decreases total - i,
    {
        proof {
            vstd::arithmetic::div_mod::lemma_fundamental_div_mod(i as int, cols as int);
            vstd::arithmetic::div_mod::lemma_mod_bound(i as int, cols as int);
            vstd::arithmetic::div_mod::lemma_div_pos_is_pos(i as int, cols as int);
            assert((i as int) / (cols as int) < rows) by (nonlinear_arith)
                requires
                    0 <= i < cols * rows,
                    cols >= 1,
                    ((i as int) / (cols as int)) * (cols as int) + (i as int) % (cols as int)
                        == i,
                    0 <= (i as int) % (cols as int) < cols,
            ;
            vstd::arithmetic::mul::lemma_mul_is_commutative(
                cols as int,
                (i as int) / (cols as int),
            );
        }
        let col = i % cols;
        let row = i / cols;
        let cell = match grid.get(col, row) {
            Some(c) => *c,
            None => Cell::default(),
        };
        let inst = CellInstance { col, row, fg: cell.fg, bg: cell.bg, glyph: cell.character };
        bg.push(inst);
        if cell.character != ' ' {
            text.push(inst);
        }
        i = i + 1;
        proof {
            assert(bg@ =~= spec_bg_instances(grid@).subrange(0, i as int));
            assert(text@ =~= spec_text_upto(grid@, i as int));
        }
    }
    if terminal.cursor.visible {
        let g = cursor_glyph(terminal.cursor.shape);
        text.push(
            CellInstance {
                col: terminal.cursor.col,
                row: terminal.cursor.row,
                fg: Color::emerald(),
                bg: Color { r: 0, g: 0, b: 0, a: 0 },
                glyph: g,
            },
        );
    }
    proof {
        assert(spec_bg_instances(grid@).subrange(0, total as int) =~= spec_bg_instances(grid@));
        assert(text@ =~= spec_text_instances(terminal@));
    }
    (text, bg)
}

/// The grid size a pixel viewport holds: each axis divided by the cell
/// size, floored, never below one cell, saturating at the largest 16-bit
/// count.
pub open spec fn spec_terminal_size_axis(pixels: u32, cell: u32) -> u16
    recommends
        cell >= 1,
{
    let n = (pixels as int) / (cell as int);
    if n < 1 {
        1
    } else if n > u16::MAX {
        u16::MAX as u16
    } else {
        n as u16
    }
}

/// Computes the column and row count a pixel viewport holds with the
/// given cell size.
pub fn calculate_terminal_size(width: u32, height: u32, cell_width: u32, cell_height: u32) -> (r: (
    u16,
    u16,
))
    requires
        cell_width >= 1,
        cell_height >= 1,
    ensures
        r.0 == spec_terminal_size_axis(width, cell_width),
        r.1 == spec_terminal_size_axis(height, cell_height),
{
    let cols32 = width / cell_width;
    let rows32 = height / cell_height;
    let cols: u16 = if cols32 < 1 {
        1
    } else if cols32 > 0xffff {
        0xffff
    } else {
        cols32 as u16
    };
    let rows: u16 = if rows32 < 1 {
        1
    } else if rows32 > 0xffff {
        0xffff
    } else {
        rows32 as u16
    };
    (cols, rows)
}


/// The same instances shifted by a pane's cell origin.
pub open spec fn spec_offset_instances(
    s: Seq<CellInstance>,
    col_offset: usize,
    row_offset: usize,
) -> Seq<CellInstance> {
    Seq::new(
        s.len(),
        |i: int|
            CellInstance {
                col: (s[i].col + col_offset) as usize,
                row: (s[i].row + row_offset) as usize,
                ..s[i]
            },
    )
}

/// Plans one pane's frame inside a larger multi-pane grid: the instances
/// of [`build_instances`], each shifted by the pane's cell origin.
pub fn build_instances_with_viewport(
    terminal: &Terminal,
    col_offset: usize,
    row_offset: usize,
) -> (r: (Vec<CellInstance>, Vec<CellInstance>))
    requires
        terminal.wf(),
        col_offset + terminal@.active().cols <= usize::MAX,
        row_offset + terminal@.active().rows <= usize::MAX,
    ensures
        r.0@ == spec_offset_instances(spec_text_instances(terminal@), col_offset, row_offset),
        r.1@ == spec_offset_instances(
            spec_bg_instances(terminal@.active()),
            col_offset,
            row_offset,
        ),
{
    let (text, bg) = build_instances(terminal);
    proof {
        lemma_instance_positions_in_grid(terminal@);
    }
    let text2 = offset_instances(text, col_offset, row_offset);
    let bg2 = offset_instances(bg, col_offset, row_offset);
    (text2, bg2)
}

/// Every planned instance sits inside the grid (the cursor may rest one
/// column past the last cell).
proof fn lemma_instance_positions_in_grid(t: TermView)
    requires
        t.wf(),
    ensures
        forall|i: int|
            0 <= i < spec_text_instances(t).len() ==> (#[trigger] spec_text_instances(t)[i]).col
                <= t.active().cols && spec_text_instances(t)[i].row < t.active().rows,
        forall|i: int|
            0 <= i < spec_bg_instances(t.active()).len() ==> (#[trigger] spec_bg_instances(
                t.active(),
            )[i]).col <= t.active().cols && spec_bg_instances(t.active())[i].row < t.active().rows,
{
    let g = t.active();
    assert forall|i: int|
        0 <= i < spec_bg_instances(g).len() implies (#[trigger] spec_bg_instances(g)[i]).col
        <= g.cols && spec_bg_instances(g)[i].row < g.rows by {
        vstd::arithmetic::div_mod::lemma_mod_bound(i, g.cols as int);
        vstd::arithmetic::div_mod::lemma_fundamental_div_mod(i, g.cols as int);
        vstd::arithmetic::div_mod::lemma_div_pos_is_pos(i, g.cols as int);
        vstd::arithmetic::mul::lemma_mul_is_commutative(g.cols as int, i / (g.cols as int));
        assert((i / (g.cols as int)) < g.rows) by (nonlinear_arith)
            requires
                0 <= i < g.cols * g.rows,
                g.cols >= 1,
                (i / (g.cols as int)) * (g.cols as int) + i % (g.cols as int) == i,
                0 <= i % (g.cols as int) < g.cols,
        ;
    }
    lemma_text_upto_positions(g, g.cells.len() as int);
}

/// The non-blank-cell instances of a prefix sit inside the grid.
proof fn lemma_text_upto_positions(g: GridView, n: int)
    requires
        g.wf(),
        n <= g.cells.len(),
    ensures
        forall|i: int|
            0 <= i < spec_text_upto(g, n).len() ==> (#[trigger] spec_text_upto(g, n)[i]).col
                < g.cols && spec_text_upto(g, n)[i].row < g.rows,
    decreases n,
{
    if n > 0 {
        lemma_text_upto_positions(g, n - 1);
        vstd::arithmetic::div_mod::lemma_mod_bound(n - 1, g.cols as int);
        vstd::arithmetic::div_mod::lemma_fundamental_div_mod(n - 1, g.cols as int);
        vstd::arithmetic::div_mod::lemma_div_pos_is_pos(n - 1, g.cols as int);
        vstd::arithmetic::mul::lemma_mul_is_commutative(
            g.cols as int,
            (n - 1) / (g.cols as int),
        );
        assert(((n - 1) / (g.cols as int)) < g.rows) by (nonlinear_arith)
            requires
                0 <= n - 1 < g.cols * g.rows,
                g.cols >= 1,
                ((n - 1) / (g.cols as int)) * (g.cols as int) + (n - 1) % (g.cols as int) == n
                    - 1,
                0 <= (n - 1) % (g.cols as int) < g.cols,
        ;
        assert forall|i: int|
            0 <= i < spec_text_upto(g, n).len() implies (#[trigger] spec_text_upto(g, n)[i]).col
            < g.cols && spec_text_upto(g, n)[i].row < g.rows by {
            let prev = spec_text_upto(g, n - 1);
            if i < prev.len() {
                assert(spec_text_upto(g, n)[i] == prev[i]);
            } else {
                assert(spec_text_upto(g, n)[i] == spec_bg_instance(g, n - 1));
            }
        }
    }
}

/// Shifts every instance by a cell origin.
fn offset_instances(v: Vec<CellInstance>, col_offset: usize, row_offset: usize) -> (r: Vec<
    CellInstance,
>)
    requires
        forall|i: int|
            0 <= i < v@.len() ==> (#[trigger] v@[i]).col + col_offset <= usize::MAX && v@[i].row
                + row_offset <= usize::MAX,
    ensures
        r@ == spec_offset_instances(v@, col_offset, row_offset),
{
    let mut r: Vec<CellInstance> = Vec::new();
    let n = v.len();
    let mut i: usize = 0;
    while i < n
        invariant
            n == v@.len(),
            i <= n,
            forall|j: int|
                0 <= j < v@.len() ==> (#[trigger] v@[j]).col + col_offset <= usize::MAX && v@[j].row
                    + row_offset <= usize::MAX,
            r@ == spec_offset_instances(v@, col_offset, row_offset).subrange(0, i as int),
        decreases n - i,
    {
        let inst = v[i];
        r.push(
            CellInstance {
                col: inst.col + col_offset,
                row: inst.row + row_offset,
                ..inst
            },
        );
        i = i + 1;
        proof {
            assert(r@ =~= spec_offset_instances(v@, col_offset, row_offset).subrange(
                0,
                i as int,
            ));
        }
    }
    proof {
        assert(spec_offset_instances(v@, col_offset, row_offset).subrange(0, n as int)
            =~= spec_offset_instances(v@, col_offset, row_offset));
    }
    r
}

/// A line of border cells, as the multi-pane frame draws along a pane's
/// right or bottom edge: one filled blank cell per position.
pub open spec fn spec_border_line(
    fixed: usize,
    start: usize,
    end: usize,
    vertical: bool,
) -> Seq<CellInstance> {
    Seq::new(
        if start <= end {
            (end - start) as nat
        } else {
            0
        },
        |i: int|
            CellInstance {
                col: if vertical {
                    fixed
                } else {
                    (start + i) as usize
                },
                row: if vertical {
                    (start + i) as usize
                } else {
                    fixed
                },
                fg: Color::spec_emerald(),
                bg: Color::spec_emerald(),
                glyph: ' ',
            },
    )
}

/// Builds the border cells along one pane edge: a vertical line at column
/// `fixed` over rows `[start, end)`, or a horizontal line at row `fixed`
/// over columns `[start, end)`.
pub fn add_pane_borders(
    bg: &mut Vec<CellInstance>,
    fixed: usize,
    start: usize,
    end: usize,
    vertical: bool,
) -> (n: usize)
    requires
        end <= usize::MAX,
    ensures
        final(bg)@ == old(bg)@ + spec_border_line(fixed, start, end, vertical),
        n == spec_border_line(fixed, start, end, vertical).len(),
{
    let mut i = start;
    let mut count: usize = 0;
    while i < end
        invariant
            start <= i,
            i <= end || i == start,
            count == (if i >= start {
                i - start
            } else {
                0
            }),
            bg@ == old(bg)@ + spec_border_line(fixed, start, end, vertical).subrange(
                0,
                count as int,
            ),
        decreases end - i,
    {
        bg.push(
            CellInstance {
                col: if vertical {
                    fixed
                } else {
                    i
                },
                row: if vertical {
                    i
                } else {
                    fixed
                },
                fg: Color::emerald(),
                bg: Color::emerald(),
                glyph: ' ',
            },
        );
        i = i + 1;
        count = count + 1;
        proof {
            assert(bg@ =~= old(bg)@ + spec_border_line(fixed, start, end, vertical).subrange(
                0,
                count as int,
            ));
        }
    }
    proof {
        assert(spec_border_line(fixed, start, end, vertical).subrange(
            0,
            spec_border_line(fixed, start, end, vertical).len() as int,
        ) =~= spec_border_line(fixed, start, end, vertical));
        assert(bg@ =~= old(bg)@ + spec_border_line(fixed, start, end, vertical));
    }
    count
}

} // verus!

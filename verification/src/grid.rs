//! The character grid: a dense row-major buffer of styled cells with
//! per-row dirty bits.
//!
//! Every operation is specified against `GridView`, a mathematical model of
//! the grid (`Seq` of cells plus dimensions), and proved to preserve
//! well-formedness: `cells.len() == cols * rows` with at least one column
//! and one row.

use vstd::prelude::*;

verus! {

/// Style flag bit: bold weight.
pub const FLAG_BOLD: u8 = 0x01;

/// Style flag bit: italic slant.
pub const FLAG_ITALIC: u8 = 0x02;

/// Style flag bit: underline.
pub const FLAG_UNDERLINE: u8 = 0x04;

/// Style flag bit: blinking.
pub const FLAG_BLINK: u8 = 0x08;

/// Style flag bit: inverse video.
pub const FLAG_INVERSE: u8 = 0x10;

/// Style flag bit: hidden text.
pub const FLAG_HIDDEN: u8 = 0x20;

/// Style flag bit: strikeout.
pub const FLAG_STRIKEOUT: u8 = 0x40;

/// A set of cell style flags, stored as a bit set over the `FLAG_*` bits.
#[derive(Clone, Copy, Debug, PartialEq, Eq, Structural)]
pub struct CellFlags {
    pub bits: u8,
}

impl CellFlags {
    /// The empty flag set.
    pub fn empty() -> (r: CellFlags)
        ensures
            r.bits == 0,
    {
        CellFlags { bits: 0 }
    }

    /// True when every bit of `flag` is set in `self`.
    pub open spec fn spec_contains(self, flag: u8) -> bool {
        self.bits & flag == flag
    }

    /// True when every bit of `flag` is set in `self`.
    #[verifier::when_used_as_spec(spec_contains)]
    pub fn contains(self, flag: u8) -> (r: bool)
        ensures
            r == self.spec_contains(flag),
    {
        self.bits & flag == flag
    }

    /// The flag set with the bits of `flag` added.
    pub open spec fn spec_insert(self, flag: u8) -> CellFlags {
        CellFlags { bits: self.bits | flag }
    }

    /// Adds the bits of `flag`.
    pub fn insert(&mut self, flag: u8)
        ensures
            *final(self) == old(self).spec_insert(flag),
    {
        self.bits = self.bits | flag;
    }

    /// The flag set with the bits of `flag` removed.
    pub open spec fn spec_remove(self, flag: u8) -> CellFlags {
        CellFlags { bits: self.bits & !flag }
    }

    /// Removes the bits of `flag`.
    pub fn remove(&mut self, flag: u8)
        ensures
            *final(self) == old(self).spec_remove(flag),
    {
        self.bits = self.bits & !flag;
    }
}

impl Default for CellFlags {
    /// The empty flag set.
    fn default() -> (r: CellFlags)
        ensures
            r.bits == 0,
    {
        CellFlags { bits: 0 }
    }
}

/// An RGBA color, one byte per channel.
#[derive(Clone, Copy, Debug, PartialEq, Eq, Structural)]
pub struct Color {
    pub r: u8,
    pub g: u8,
    pub b: u8,
    pub a: u8,
}

impl Color {
    /// The opaque color with the given channels.
    pub open spec fn spec_rgb(r: u8, g: u8, b: u8) -> Color {
        Color { r, g, b, a: 255 }
    }

    /// Builds an opaque color from red, green and blue channels.
    #[verifier::when_used_as_spec(spec_rgb)]
    pub fn rgb(r: u8, g: u8, b: u8) -> (c: Color)
        ensures
            c == Color::spec_rgb(r, g, b),
    {
        Color { r, g, b, a: 255 }
    }

    /// Opaque black, the default background.
    pub open spec fn spec_black() -> Color {
        Color::spec_rgb(0, 0, 0)
    }

    /// Opaque black, the default background.
    #[verifier::when_used_as_spec(spec_black)]
    pub fn black() -> (c: Color)
        ensures
            c == Color::spec_black(),
    {
        Color::rgb(0, 0, 0)
    }

    /// The emerald default foreground.
    pub open spec fn spec_emerald() -> Color {
        Color::spec_rgb(80, 220, 200)
    }

    /// The emerald default foreground.
    #[verifier::when_used_as_spec(spec_emerald)]
    pub fn emerald() -> (c: Color)
        ensures
            c == Color::spec_emerald(),
    {
        Color::rgb(80, 220, 200)
    }

    /// The color of an 8-bit palette entry: the 16 standard colors, the
    /// 6x6x6 cube with channel levels {0, 95, 135, 175, 215, 255}, and the
    /// 24-step gray ramp.
    pub open spec fn spec_from_ansi256(code: u8) -> Color {
        if code < 16 {
            Color::spec_standard16(code)
        } else if code < 232 {
            let idx = (code - 16) as u8;
            Color::spec_rgb(
                Color::spec_cube_level(((idx / 36) % 6) as u8),
                Color::spec_cube_level(((idx / 6) % 6) as u8),
                Color::spec_cube_level((idx % 6) as u8),
            )
        } else {
            let gray = (8 + (code - 232) * 10) as u8;
            Color::spec_rgb(gray, gray, gray)
        }
    }

    /// One channel level of the 6x6x6 color cube.
    pub open spec fn spec_cube_level(v: u8) -> u8 {
        if v == 0 {
            0
        } else {
            (55 + v * 40) as u8
        }
    }

    /// One of the 16 standard palette colors.
    pub open spec fn spec_standard16(code: u8) -> Color {
        if code == 0 {
            Color::spec_rgb(0, 0, 0)
        } else if code == 1 {
            Color::spec_rgb(128, 0, 0)
        } else if code == 2 {
            Color::spec_rgb(0, 128, 0)
        } else if code == 3 {
            Color::spec_rgb(128, 128, 0)
        } else if code == 4 {
            Color::spec_rgb(0, 0, 128)
        } else if code == 5 {
            Color::spec_rgb(128, 0, 128)
        } else if code == 6 {
            Color::spec_rgb(0, 128, 128)
        } else if code == 7 {
            Color::spec_rgb(192, 192, 192)
        } else if code == 8 {
            Color::spec_rgb(128, 128, 128)
        } else if code == 9 {
            Color::spec_rgb(255, 0, 0)
        } else if code == 10 {
            Color::spec_rgb(0, 255, 0)
        } else if code == 11 {
            Color::spec_rgb(255, 255, 0)
        } else if code == 12 {
            Color::spec_rgb(0, 0, 255)
        } else if code == 13 {
            Color::spec_rgb(255, 0, 255)
        } else if code == 14 {
            Color::spec_rgb(0, 255, 255)
        } else {
            Color::spec_rgb(255, 255, 255)
        }
    }

    /// Converts an 8-bit palette index to its RGB color.
    pub fn from_ansi256(code: u8) -> (c: Color)
        ensures
            c == Color::spec_from_ansi256(code),
    {
        if code < 16 {
            if code == 0 {
                Color::rgb(0, 0, 0)
            } else if code == 1 {
                Color::rgb(128, 0, 0)
            } else if code == 2 {
                Color::rgb(0, 128, 0)
            } else if code == 3 {
                Color::rgb(128, 128, 0)
            } else if code == 4 {
                Color::rgb(0, 0, 128)
            } else if code == 5 {
                Color::rgb(128, 0, 128)
            } else if code == 6 {
                Color::rgb(0, 128, 128)
            } else if code == 7 {
                Color::rgb(192, 192, 192)
            } else if code == 8 {
                Color::rgb(128, 128, 128)
            } else if code == 9 {
                Color::rgb(255, 0, 0)
            } else if code == 10 {
                Color::rgb(0, 255, 0)
            } else if code == 11 {
                Color::rgb(255, 255, 0)
            } else if code == 12 {
                Color::rgb(0, 0, 255)
            } else if code == 13 {
                Color::rgb(255, 0, 255)
            } else if code == 14 {
                Color::rgb(0, 255, 255)
            } else {
                Color::rgb(255, 255, 255)
            }
        } else if code < 232 {
            let idx = code - 16;
            let rl = (idx / 36) % 6;
            let gl = (idx / 6) % 6;
            let bl = idx % 6;
            Color::rgb(Color::cube_level(rl), Color::cube_level(gl), Color::cube_level(bl))
        } else {
            let gray = 8 + (code - 232) * 10;
            Color::rgb(gray, gray, gray)
        }
    }

    /// One channel level of the 6x6x6 color cube.
    pub fn cube_level(v: u8) -> (r: u8)
        requires
            v < 6,
        ensures
            r == Color::spec_cube_level(v),
    {
        if v == 0 {
            0
        } else {
            55 + v * 40
        }
    }
}

impl Default for Color {
    /// All channels zero: transparent black.
    fn default() -> (c: Color)
        ensures
            c == (Color { r: 0, g: 0, b: 0, a: 0 }),
    {
        Color { r: 0, g: 0, b: 0, a: 0 }
    }
}

/// One screen position: a character with its colors and style flags.
#[derive(Clone, Copy, Debug, PartialEq, Eq, Structural)]
pub struct Cell {
    pub character: char,
    pub fg: Color,
    pub bg: Color,
    pub flags: CellFlags,
}

impl Cell {
    /// The blank cell: a space in the default colors with no flags.
    pub open spec fn spec_default() -> Cell {
        Cell {
            character: ' ',
            fg: Color::spec_emerald(),
            bg: Color::spec_black(),
            flags: CellFlags { bits: 0 },
        }
    }
}

impl Default for Cell {
    /// The blank cell: a space in the default colors with no flags.
    fn default() -> (c: Cell)
        ensures
            c == Cell::spec_default(),
    {
        Cell {
            character: ' ',
            fg: Color::emerald(),
            bg: Color::black(),
            flags: CellFlags { bits: 0 },
        }
    }
}

/// The mathematical model of a [`Grid`].
#[verifier::ext_equal]
pub struct GridView {
    pub cols: nat,
    pub rows: nat,
    pub cells: Seq<Cell>,
    pub dirty: Seq<bool>,
}

impl GridView {
    /// Well-formed: at least one column and row, a cell for every position,
    /// a dirty bit for every row.
    pub open spec fn wf(self) -> bool {
        &&& self.cols >= 1
        &&& self.rows >= 1
        &&& self.cols * self.rows <= usize::MAX
        &&& self.cells.len() == self.cols * self.rows
        &&& self.dirty.len() == self.rows
    }

    /// The cell stored at a position.
    pub open spec fn at(self, col: int, row: int) -> Cell {
        self.cells[row * self.cols + col]
    }

    /// A fresh grid: every cell blank, every row dirty.
    pub open spec fn new_grid(cols: nat, rows: nat) -> GridView {
        GridView {
            cols,
            rows,
            cells: Seq::new(cols * rows, |i: int| Cell::spec_default()),
            dirty: Seq::new(rows, |i: int| true),
        }
    }

    /// The grid after storing `cell` at `(col, row)`; out-of-bounds
    /// positions leave the grid unchanged.
    pub open spec fn set_cell(self, col: int, row: int, cell: Cell) -> GridView {
        if 0 <= col < self.cols && 0 <= row < self.rows {
            GridView {
                cells: self.cells.update(row * self.cols + col, cell),
                dirty: self.dirty.update(row, true),
                ..self
            }
        } else {
            self
        }
    }

    /// The grid after blanking one row; out-of-bounds rows leave the grid
    /// unchanged.
    pub open spec fn clear_row(self, row: int) -> GridView {
        if 0 <= row < self.rows {
            GridView {
                cells: Seq::new(
                    self.cells.len(),
                    |i: int|
                        if row * self.cols <= i < row * self.cols + self.cols {
                            Cell::spec_default()
                        } else {
                            self.cells[i]
                        },
                ),
                dirty: self.dirty.update(row, true),
                ..self
            }
        } else {
            self
        }
    }

    /// The grid after blanking every cell; every row becomes dirty.
    pub open spec fn clear_all(self) -> GridView {
        GridView {
            cells: Seq::new(self.cells.len(), |i: int| Cell::spec_default()),
            dirty: Seq::new(self.dirty.len(), |i: int| true),
            ..self
        }
    }

    /// The grid after moving every row up by `amount`, blanking the vacated
    /// tail; `amount >= rows` blanks everything.
    pub open spec fn scroll_up_view(self, amount: nat) -> GridView {
        if amount >= self.rows {
            self.clear_all()
        } else {
            GridView {
                cells: self.cells.subrange(
                    (amount * self.cols) as int,
                    (self.rows * self.cols) as int,
                ) + Seq::new(amount * self.cols, |i: int| Cell::spec_default()),
                dirty: Seq::new(self.dirty.len(), |i: int| true),
                ..self
            }
        }
    }

    /// The grid after replacing row `dst` with the contents of row `src`
    /// and marking `dst` dirty; out-of-bounds rows leave the grid unchanged.
    pub open spec fn copy_row_view(self, dst: int, src: int) -> GridView {
        if 0 <= dst < self.rows && 0 <= src < self.rows {
            GridView {
                cells: Seq::new(
                    self.cells.len(),
                    |i: int|
                        if dst * self.cols <= i < dst * self.cols + self.cols {
                            self.cells[i - dst * self.cols + src * self.cols]
                        } else {
                            self.cells[i]
                        },
                ),
                dirty: self.dirty.update(dst, true),
                ..self
            }
        } else {
            self
        }
    }

    /// The grid after scrolling rows `[top, bottom]` up by `n`: each row in
    /// the region takes the contents of the row `n` below it, the vacated
    /// bottom rows become blank, and the whole region is marked dirty.
    /// `n` larger than the region blanks it entirely.
    pub open spec fn region_scroll_up(self, top: int, bottom: int, n: nat) -> GridView
        recommends
            0 <= top <= bottom < self.rows,
    {
        let h = (bottom - top + 1) as nat;
        let k = if n > h {
            h as int
        } else {
            n as int
        };
        GridView {
            cells: Seq::new(
                self.cells.len(),
                |i: int|
                    {
                        let r = i / (self.cols as int);
                        if top <= r <= bottom {
                            if r + k <= bottom {
                                self.cells[i + k * self.cols]
                            } else {
                                Cell::spec_default()
                            }
                        } else {
                            self.cells[i]
                        }
                    },
            ),
            dirty: Seq::new(
                self.dirty.len(),
                |r: int|
                    if top <= r <= bottom {
                        true
                    } else {
                        self.dirty[r]
                    },
            ),
            ..self
        }
    }

    /// The grid after scrolling rows `[top, bottom]` down by `n`: each row
    /// in the region takes the contents of the row `n` above it, the vacated
    /// top rows become blank, and the whole region is marked dirty.
    pub open spec fn region_scroll_down(self, top: int, bottom: int, n: nat) -> GridView
        recommends
            0 <= top <= bottom < self.rows,
    {
        let h = (bottom - top + 1) as nat;
        let k = if n > h {
            h as int
        } else {
            n as int
        };
        GridView {
            cells: Seq::new(
                self.cells.len(),
                |i: int|
                    {
                        let r = i / (self.cols as int);
                        if top <= r <= bottom {
                            if r - k >= top {
                                self.cells[i - k * self.cols]
                            } else {
                                Cell::spec_default()
                            }
                        } else {
                            self.cells[i]
                        }
                    },
            ),
            dirty: Seq::new(
                self.dirty.len(),
                |r: int|
                    if top <= r <= bottom {
                        true
                    } else {
                        self.dirty[r]
                    },
            ),
            ..self
        }
    }

    /// The grid after blanking the columns `[c0, c1)` of one row and
    /// marking it dirty; an empty or fully out-of-bounds range leaves the
    /// grid unchanged.
    pub open spec fn erase_in_row(self, row: int, c0: int, c1: int) -> GridView
        recommends
            0 <= c0 <= c1 <= self.cols,
    {
        if 0 <= row < self.rows && 0 <= c0 < c1 <= self.cols {
            GridView {
                cells: Seq::new(
                    self.cells.len(),
                    |i: int|
                        if row * self.cols + c0 <= i < row * self.cols + c1 {
                            Cell::spec_default()
                        } else {
                            self.cells[i]
                        },
                ),
                dirty: self.dirty.update(row, true),
                ..self
            }
        } else {
            self
        }
    }

    /// The grid after blanking every row in `[r0, r1)` and marking those
    /// rows dirty.
    pub open spec fn clear_rows_range(self, r0: int, r1: int) -> GridView
        recommends
            0 <= r0 && r1 <= self.rows,
    {
        GridView {
            cells: Seq::new(
                self.cells.len(),
                |i: int|
                    {
                        let r = i / (self.cols as int);
                        if r0 <= r < r1 {
                            Cell::spec_default()
                        } else {
                            self.cells[i]
                        }
                    },
            ),
            dirty: Seq::new(
                self.dirty.len(),
                |r: int|
                    if r0 <= r < r1 {
                        true
                    } else {
                        self.dirty[r]
                    },
            ),
            ..self
        }
    }

    /// The grid after a resize: the overlap keeps its content, new area is
    /// blank, every row is dirty.
    pub open spec fn resize_view(self, new_cols: nat, new_rows: nat) -> GridView {
        GridView {
            cols: new_cols,
            rows: new_rows,
            cells: Seq::new(
                new_cols * new_rows,
                |i: int|
                    {
                        let r = i / new_cols as int;
                        let c = i % new_cols as int;
                        if r < self.rows && c < self.cols {
                            self.cells[r * self.cols + c]
                        } else {
                            Cell::spec_default()
                        }
                    },
            ),
            dirty: Seq::new(new_rows, |i: int| true),
        }
    }
}

/// Row-major indices stay inside the cell buffer.
pub proof fn lemma_row_major_index(cols: int, rows: int, col: int, row: int)
    requires
        0 <= col < cols,
        0 <= row < rows,
    ensures
        0 <= row * cols,
        row * cols + col < rows * cols,
        row * cols + cols <= rows * cols,
        rows * cols == cols * rows,
{
    assert(0 <= row * cols && row * cols + col < rows * cols && row * cols + cols <= rows * cols
        && rows * cols == cols * rows) by (nonlinear_arith)
        requires
            0 <= col < cols,
            0 <= row < rows,
    ;
}

/// An index lies in a row's window exactly when it divides down to that row.
pub proof fn lemma_row_window(cols: int, i: int, r: int)
    requires
        cols >= 1,
        0 <= i,
    ensures
        (r * cols <= i < r * cols + cols) <==> (0 <= r && i / cols == r),
{
    if r * cols <= i < r * cols + cols {
        assert(0 <= r) by (nonlinear_arith)
            requires
                cols >= 1,
                0 <= i,
                r * cols <= i < r * cols + cols,
        ;
        vstd::arithmetic::div_mod::lemma_fundamental_div_mod_converse(i, cols, r, i - r * cols);
    }
    if 0 <= r && i / cols == r {
        vstd::arithmetic::div_mod::lemma_fundamental_div_mod(i, cols);
        vstd::arithmetic::div_mod::lemma_mod_bound(i, cols);
        assert(cols * r == r * cols) by (nonlinear_arith);
    }
}

/// Builds a vector holding `n` copies of a value.
fn repeat_cell(n: usize, x: Cell) -> (v: Vec<Cell>)
    ensures
        v@ == Seq::new(n as nat, |i: int| x),
{
    let mut v: Vec<Cell> = Vec::new();
    let mut i: usize = 0;
    while i < n
        invariant
            i <= n,
            v@ == Seq::new(i as nat, |j: int| x),
        decreases n - i,
    {
        v.push(x);
        i = i + 1;
        assert(v@ =~= Seq::new(i as nat, |j: int| x));
    }
    v
}

/// Builds a vector holding `n` copies of a boolean.
fn repeat_bool(n: usize, x: bool) -> (v: Vec<bool>)
    ensures
        v@ == Seq::new(n as nat, |i: int| x),
{
    let mut v: Vec<bool> = Vec::new();
    let mut i: usize = 0;
    while i < n
        invariant
            i <= n,
            v@ == Seq::new(i as nat, |j: int| x),
        decreases n - i,
    {
        v.push(x);
        i = i + 1;
        assert(v@ =~= Seq::new(i as nat, |j: int| x));
    }
    v
}

/// The terminal's cell buffer: `cols * rows` cells in row-major order, with
/// one dirty bit per row.
pub struct Grid {
    pub cells: Vec<Cell>,
    pub cols: usize,
    pub rows: usize,
    pub dirty_lines: Vec<bool>,
}

impl View for Grid {
    type V = GridView;

    open spec fn view(&self) -> GridView {
        GridView {
            cols: self.cols as nat,
            rows: self.rows as nat,
            cells: self.cells@,
            dirty: self.dirty_lines@,
        }
    }
}

impl Grid {
    /// Well-formed: the model is well-formed and matches the stored sizes.
    pub open spec fn wf(self) -> bool {
        self@.wf()
    }

    /// Creates a grid of blank cells with every row marked dirty.
    pub fn new(cols: usize, rows: usize) -> (g: Grid)
        requires
            cols >= 1,
            rows >= 1,
            cols * rows <= usize::MAX,
        ensures
            g.wf(),
            g@ == GridView::new_grid(cols as nat, rows as nat),
    {
        proof {
            lemma_row_major_index(cols as int, rows as int, 0, rows - 1);
        }
        let total = cols * rows;
        Grid {
            cells: repeat_cell(total, Cell::default()),
            cols,
            rows,
            dirty_lines: repeat_bool(rows, true),
        }
    }

    /// Replaces the buffer with one of the new size, copying the overlap and
    /// marking every row dirty.
    pub fn resize(&mut self, new_cols: usize, new_rows: usize)
        requires
            old(self).wf(),
            new_cols >= 1,
            new_rows >= 1,
            new_cols * new_rows <= usize::MAX,
        ensures
            final(self).wf(),
            final(self)@ == old(self)@.resize_view(new_cols as nat, new_rows as nat),
    {
        proof {
            lemma_row_major_index(new_cols as int, new_rows as int, 0, new_rows - 1);
        }
        let total = new_cols * new_rows;
        let mut new_cells = repeat_cell(total, Cell::default());
        let copy_cols = if self.cols < new_cols {
            self.cols
        } else {
            new_cols
        };
        let copy_rows = if self.rows < new_rows {
            self.rows
        } else {
            new_rows
        };
        let mut row: usize = 0;
        while row < copy_rows
            invariant
                self.wf(),
                copy_cols <= self.cols,
                copy_cols <= new_cols,
                copy_cols == self.cols || copy_cols == new_cols,
                copy_rows <= self.rows,
                copy_rows <= new_rows,
                copy_rows == self.rows || copy_rows == new_rows,
                row <= copy_rows,
                new_cells.len() == new_cols * new_rows,
                new_cols >= 1,
                new_rows >= 1,
                forall|i: int|
                    0 <= i < new_cols * new_rows ==> new_cells@[i] == ({
                        let r = i / new_cols as int;
                        let c = i % new_cols as int;
                        if r < row && r < self.rows && c < self.cols {
                            self@.cells[r * self.cols + c]
                        } else {
                            Cell::spec_default()
                        }
                    }),
            decreases copy_rows - row,
        {
            let mut col: usize = 0;
            while col < copy_cols
                invariant
                    self.wf(),
                    copy_cols <= self.cols,
                    copy_cols <= new_cols,
                    copy_cols == self.cols || copy_cols == new_cols,
                    copy_rows <= self.rows,
                    copy_rows <= new_rows,
                    copy_rows == self.rows || copy_rows == new_rows,
                    row < copy_rows,
                    col <= copy_cols,
                    new_cells.len() == new_cols * new_rows,
                    new_cols >= 1,
                    new_rows >= 1,
                    forall|i: int|
                        0 <= i < new_cols * new_rows ==> new_cells@[i] == ({
                            let r = i / new_cols as int;
                            let c = i % new_cols as int;
                            if (r < row || (r == row && c < col)) && r < self.rows && c
                                < self.cols {
                                self@.cells[r * self.cols + c]
                            } else {
                                Cell::spec_default()
                            }
                        }),
                decreases copy_cols - col,
            {
                proof {
                    lemma_row_major_index(new_cols as int, new_rows as int, col as int, row as int);
                    lemma_row_major_index(
                        self.cols as int,
                        self.rows as int,
                        col as int,
                        row as int,
                    );
                }
                let ghost pre = new_cells@;
                let v = self.cells[row * self.cols + col];
                new_cells[row * new_cols + col] = v;
                proof {
                    let idx = row * (new_cols as int) + col;
                    vstd::arithmetic::div_mod::lemma_fundamental_div_mod_converse(
                        idx,
                        new_cols as int,
                        row as int,
                        col as int,
                    );
                    assert forall|i: int| 0 <= i < new_cols * new_rows implies new_cells@[i] == ({
                        let r = i / new_cols as int;
                        let c = i % new_cols as int;
                        if (r < row || (r == row && c < col + 1)) && r < self.rows && c
                            < self.cols {
                            self@.cells[r * self.cols + c]
                        } else {
                            Cell::spec_default()
                        }
                    }) by {
                        vstd::arithmetic::div_mod::lemma_fundamental_div_mod(i, new_cols as int);
                        vstd::arithmetic::div_mod::lemma_mod_bound(i, new_cols as int);
                        vstd::arithmetic::mul::lemma_mul_is_commutative(
                            new_cols as int,
                            i / (new_cols as int),
                        );
                        if i != idx {
                            assert(new_cells@[i] == pre[i]);
                        }
                    }
                }
                col = col + 1;
            }
            proof {
                assert forall|i: int| 0 <= i < new_cols * new_rows implies new_cells@[i] == ({
                    let r = i / new_cols as int;
                    let c = i % new_cols as int;
                    if r < row + 1 && r < self.rows && c < self.cols {
                        self@.cells[r * self.cols + c]
                    } else {
                        Cell::spec_default()
                    }
                }) by {
                    vstd::arithmetic::div_mod::lemma_fundamental_div_mod(i, new_cols as int);
                    vstd::arithmetic::div_mod::lemma_mod_bound(i, new_cols as int);
                    vstd::arithmetic::mul::lemma_mul_is_commutative(
                        new_cols as int,
                        i / (new_cols as int),
                    );
                }
            }
            row = row + 1;
        }
        self.cells = new_cells;
        self.cols = new_cols;
        self.rows = new_rows;
        self.dirty_lines = repeat_bool(new_rows, true);
        proof {
            assert forall|i: int| 0 <= i < new_cols * new_rows implies self@.cells[i] == old(
                self,
            )@.resize_view(new_cols as nat, new_rows as nat).cells[i] by {
                vstd::arithmetic::div_mod::lemma_div_pos_is_pos(i, new_cols as int);
                vstd::arithmetic::div_mod::lemma_fundamental_div_mod(i, new_cols as int);
                vstd::arithmetic::div_mod::lemma_mod_bound(i, new_cols as int);
                assert((i / (new_cols as int)) < new_rows) by (nonlinear_arith)
                    requires
                        0 <= i < new_cols * new_rows,
                        new_cols >= 1,
                        (i / (new_cols as int)) * (new_cols as int) + i % (new_cols as int) == i,
                        0 <= i % (new_cols as int) < new_cols,
                ;
            }
            assert(self@ =~= old(self)@.resize_view(new_cols as nat, new_rows as nat));
        }
    }

    /// Reads the cell at a position; defined exactly on in-bounds positions.
    pub fn get(&self, col: usize, row: usize) -> (r: Option<&Cell>)
        requires
            self.wf(),
        ensures
            col < self@.cols && row < self@.rows ==> (r matches Some(c) && *c == self@.at(
                col as int,
                row as int,
            )),
            !(col < self@.cols && row < self@.rows) ==> r is None,
    {
        if col < self.cols && row < self.rows {
            proof {
                lemma_row_major_index(self.cols as int, self.rows as int, col as int, row as int);
            }
            Some(&self.cells[row * self.cols + col])
        } else {
            None
        }
    }

    /// Borrows the cell at a position for writing, marking its row dirty;
    /// defined exactly on in-bounds positions.  Whatever the caller writes
    /// through the borrow becomes the stored cell.
    pub fn get_mut(&mut self, col: usize, row: usize) -> (r: Option<&mut Cell>)
        requires
            old(self).wf(),
        ensures
            col < old(self)@.cols && row < old(self)@.rows ==> (r matches Some(c) && *c == old(
                self,
            )@.at(col as int, row as int) && final(self)@ == old(self)@.set_cell(
                col as int,
                row as int,
                *final(c),
            )),
            !(col < old(self)@.cols && row < old(self)@.rows) ==> r is None && final(self)@ == old(
                self,
            )@,
    {
        if col < self.cols && row < self.rows {
            proof {
                lemma_row_major_index(self.cols as int, self.rows as int, col as int, row as int);
            }
            self.dirty_lines[row] = true;
            proof {
                assert(self@.dirty =~= old(self)@.dirty.update(row as int, true));
            }
            Some(&mut self.cells[row * self.cols + col])
        } else {
            None
        }
    }

    /// Stores a cell at a position, marking its row dirty; out-of-bounds
    /// stores are ignored.
    pub fn set(&mut self, col: usize, row: usize, cell: Cell)
        requires
            old(self).wf(),
        ensures
            final(self).wf(),
            final(self)@ == old(self)@.set_cell(col as int, row as int, cell),
    {
        if col < self.cols && row < self.rows {
            proof {
                lemma_row_major_index(self.cols as int, self.rows as int, col as int, row as int);
            }
            self.cells[row * self.cols + col] = cell;
            self.dirty_lines[row] = true;
        }
    }

    /// Blanks one row and marks it dirty; out-of-bounds rows are ignored.
    pub fn clear_row(&mut self, row: usize)
        requires
            old(self).wf(),
        ensures
            final(self).wf(),
            final(self)@ == old(self)@.clear_row(row as int),
    {
        if row < self.rows {
            proof {
                lemma_row_major_index(self.cols as int, self.rows as int, 0, row as int);
            }
            let start = row * self.cols;
            let mut i: usize = 0;
            while i < self.cols
                invariant
                    self.cols == old(self).cols,
                    self.rows == old(self).rows,
                    self.dirty_lines@ == old(self).dirty_lines@,
                    row < self.rows,
                    start == row * self.cols,
                    start + self.cols <= self.cells.len(),
                    i <= self.cols,
                    self.cells.len() == old(self).cells.len(),
                    old(self).wf(),
                    forall|k: int|
                        0 <= k < self.cells.len() ==> self.cells@[k] == (if start <= k < start
                            + i {
                            Cell::spec_default()
                        } else {
                            old(self).cells@[k]
                        }),
                decreases self.cols - i,
            {
                self.cells[start + i] = Cell::default();
                i = i + 1;
            }
            self.dirty_lines[row] = true;
            proof {
                assert(self@ =~= old(self)@.clear_row(row as int));
            }
        }
    }

    /// Replaces row `dst` with the contents of row `src`, marking `dst`
    /// dirty; out-of-bounds rows are ignored.
    pub fn copy_row(&mut self, dst: usize, src: usize)
        requires
            old(self).wf(),
        ensures
            final(self).wf(),
            final(self)@ == old(self)@.copy_row_view(dst as int, src as int),
    {
        if dst < self.rows && src < self.rows {
            proof {
                lemma_row_major_index(self.cols as int, self.rows as int, 0, dst as int);
                lemma_row_major_index(self.cols as int, self.rows as int, 0, src as int);
            }
            let dstart = dst * self.cols;
            let sstart = src * self.cols;
            let mut i: usize = 0;
            while i < self.cols
                invariant
                    self.cols == old(self).cols,
                    self.rows == old(self).rows,
                    self.dirty_lines@ == old(self).dirty_lines@,
                    dst < self.rows,
                    src < self.rows,
                    dstart == dst * self.cols,
                    sstart == src * self.cols,
                    dstart + self.cols <= self.cells.len(),
                    sstart + self.cols <= self.cells.len(),
                    i <= self.cols,
                    self.cells.len() == old(self).cells.len(),
                    old(self).wf(),
                    forall|k: int|
                        0 <= k < self.cells.len() ==> self.cells@[k] == (if dstart <= k < dstart
                            + i {
                            old(self).cells@[k - dstart + sstart]
                        } else {
                            old(self).cells@[k]
                        }),
                decreases self.cols - i,
            {
                let ghost pre = self.cells@;
                let v = self.cells[sstart + i];
                self.cells[dstart + i] = v;
                proof {
                    assert(dst == src || dstart + self.cols <= sstart || sstart + self.cols
                        <= dstart) by (nonlinear_arith)
                        requires
                            dstart == dst * self.cols,
                            sstart == src * self.cols,
                            self.cols >= 1,
                    ;
                    assert forall|k: int|
                        0 <= k < self.cells.len() implies self.cells@[k] == (if dstart <= k < dstart
                        + (i + 1) {
                        old(self).cells@[k - dstart + sstart]
                    } else {
                        old(self).cells@[k]
                    }) by {
                        if k != dstart + i {
                            assert(self.cells@[k] == pre[k]);
                        }
                    }
                }
                i = i + 1;
            }
            self.dirty_lines[dst] = true;
            proof {
                assert(self@ =~= old(self)@.copy_row_view(dst as int, src as int));
            }
        }
    }

    /// Scrolls rows `[top, bottom]` up by `amount`, blanking the vacated
    /// bottom rows and marking the region dirty.
    pub fn scroll_region_up(&mut self, top: usize, bottom: usize, amount: usize)
        requires
            old(self).wf(),
            top <= bottom,
            bottom < old(self)@.rows,
        ensures
            final(self).wf(),
            final(self)@ == old(self)@.region_scroll_up(top as int, bottom as int, amount as nat),
    {
        let h = bottom - top + 1;
        let n = if amount < h {
            amount
        } else {
            h
        };
        let copy_end = bottom + 1 - n;
        let mut r = top;
        while r < copy_end
            invariant
                old(self).wf(),
                self.wf(),
                self.cols == old(self).cols,
                self.rows == old(self).rows,
                self.cells.len() == old(self).cells.len(),
                top <= bottom < self.rows,
                h == bottom - top + 1,
                n <= h,
                copy_end == bottom + 1 - n,
                top <= r <= copy_end,
                forall|i: int|
                    0 <= i < self.cells@.len() ==> self.cells@[i] == ({
                        let rr = i / (self.cols as int);
                        if top <= rr < r {
                            old(self).cells@[i + n * self.cols]
                        } else {
                            old(self).cells@[i]
                        }
                    }),
                forall|rr: int|
                    0 <= rr < self.rows ==> self.dirty_lines@[rr] == (if top <= rr < r {
                        true
                    } else {
                        old(self).dirty_lines@[rr]
                    }),
            decreases copy_end - r,
        {
            let ghost pre = self@;
            let src = r + n;
            self.copy_row(r, src);
            proof {
                assert forall|i: int|
                    0 <= i < self.cells@.len() implies self.cells@[i] == ({
                    let rr = i / (self.cols as int);
                    if top <= rr < r + 1 {
                        old(self).cells@[i + n * self.cols]
                    } else {
                        old(self).cells@[i]
                    }
                }) by {
                    lemma_row_window(self.cols as int, i, r as int);
                    let rr = i / (self.cols as int);
                    vstd::arithmetic::div_mod::lemma_mod_bound(i, self.cols as int);
                    vstd::arithmetic::div_mod::lemma_fundamental_div_mod(i, self.cols as int);
                    assert((r + n) * self.cols == r * self.cols + n * self.cols && (rr + n)
                        * self.cols == rr * self.cols + n * self.cols) by (nonlinear_arith);
                    if r * self.cols <= i < r * self.cols + self.cols {
                        let j = i + n * self.cols;
                        assert((r + n + 1) * self.cols <= self.rows * self.cols && (r + n + 1)
                            * self.cols == (r + n) * self.cols + self.cols && self.rows * self.cols
                            == self.cols * self.rows) by (nonlinear_arith)
                            requires
                                r + n <= bottom < self.rows,
                                self.cols >= 1,
                        ;
                        lemma_row_window(self.cols as int, j, (r + n) as int);
                        assert(pre.cells[j] == old(self).cells@[j]);
                    } else {
                        if top <= rr < r + 1 {
                            lemma_row_window(self.cols as int, i, rr);
                        }
                    }
                }
            }
            r = r + 1;
        }
        let mut r2 = copy_end;
        while r2 <= bottom
            invariant
                old(self).wf(),
                self.wf(),
                self.cols == old(self).cols,
                self.rows == old(self).rows,
                self.cells.len() == old(self).cells.len(),
                top <= bottom < self.rows,
                h == bottom - top + 1,
                n <= h,
                copy_end == bottom + 1 - n,
                copy_end <= r2 <= bottom + 1,
                forall|i: int|
                    0 <= i < self.cells@.len() ==> self.cells@[i] == ({
                        let rr = i / (self.cols as int);
                        if top <= rr < copy_end {
                            old(self).cells@[i + n * self.cols]
                        } else if copy_end <= rr < r2 {
                            Cell::spec_default()
                        } else {
                            old(self).cells@[i]
                        }
                    }),
                forall|rr: int|
                    0 <= rr < self.rows ==> self.dirty_lines@[rr] == (if top <= rr < r2 {
                        true
                    } else {
                        old(self).dirty_lines@[rr]
                    }),
            decreases bottom + 1 - r2,
        {
            let ghost pre = self@;
            self.clear_row(r2);
            proof {
                assert forall|i: int|
                    0 <= i < self.cells@.len() implies self.cells@[i] == ({
                    let rr = i / (self.cols as int);
                    if top <= rr < copy_end {
                        old(self).cells@[i + n * self.cols]
                    } else if copy_end <= rr < r2 + 1 {
                        Cell::spec_default()
                    } else {
                        old(self).cells@[i]
                    }
                }) by {
                    lemma_row_window(self.cols as int, i, r2 as int);
                }
            }
            r2 = r2 + 1;
        }
        proof {
            assert forall|i: int|
                0 <= i < self.cells@.len() implies self.cells@[i] == old(self)@.region_scroll_up(
                top as int,
                bottom as int,
                amount as nat,
            ).cells[i] by {
                vstd::arithmetic::div_mod::lemma_div_pos_is_pos(i, self.cols as int);
            }
            assert(self@ =~= old(self)@.region_scroll_up(top as int, bottom as int, amount as nat));
        }
    }

    /// Scrolls rows `[top, bottom]` down by `amount`, blanking the vacated
    /// top rows and marking the region dirty.
    pub fn scroll_region_down(&mut self, top: usize, bottom: usize, amount: usize)
        requires
            old(self).wf(),
            top <= bottom,
            bottom < old(self)@.rows,
        ensures
            final(self).wf(),
            final(self)@ == old(self)@.region_scroll_down(top as int, bottom as int, amount as nat),
    {
        let h = bottom - top + 1;
        let n = if amount < h {
            amount
        } else {
            h
        };
        let start = top + n;
        let mut r = bottom + 1;
        while r > start
            invariant
                old(self).wf(),
                self.wf(),
                self.cols == old(self).cols,
                self.rows == old(self).rows,
                self.cells.len() == old(self).cells.len(),
                top <= bottom < self.rows,
                h == bottom - top + 1,
                n <= h,
                start == top + n,
                start <= r <= bottom + 1,
                forall|i: int|
                    0 <= i < self.cells@.len() ==> self.cells@[i] == ({
                        let rr = i / (self.cols as int);
                        if r <= rr <= bottom {
                            old(self).cells@[i - n * self.cols]
                        } else {
                            old(self).cells@[i]
                        }
                    }),
                forall|rr: int|
                    0 <= rr < self.rows ==> self.dirty_lines@[rr] == (if r <= rr <= bottom {
                        true
                    } else {
                        old(self).dirty_lines@[rr]
                    }),
            decreases r,
        {
            r = r - 1;
            let ghost pre = self@;
            self.copy_row(r, r - n);
            proof {
                assert forall|i: int|
                    0 <= i < self.cells@.len() implies self.cells@[i] == ({
                    let rr = i / (self.cols as int);
                    if r <= rr <= bottom {
                        old(self).cells@[i - n * self.cols]
                    } else {
                        old(self).cells@[i]
                    }
                }) by {
                    lemma_row_window(self.cols as int, i, r as int);
                    let rr = i / (self.cols as int);
                    vstd::arithmetic::div_mod::lemma_mod_bound(i, self.cols as int);
                    vstd::arithmetic::div_mod::lemma_fundamental_div_mod(i, self.cols as int);
                    assert((r - n) * self.cols == r * self.cols - n * self.cols && (rr - n)
                        * self.cols == rr * self.cols - n * self.cols) by (nonlinear_arith);
                    if r * self.cols <= i < r * self.cols + self.cols {
                        let j = i - n * self.cols;
                        assert(0 <= (r - n) * self.cols && (r - n) * self.cols == r * self.cols - n
                            * self.cols) by (nonlinear_arith)
                            requires
                                0 <= n <= r,
                                self.cols >= 1,
                        ;
                        lemma_row_window(self.cols as int, j, (r - n) as int);
                        assert(pre.cells[j] == old(self).cells@[j]);
                    } else {
                        if r <= rr <= bottom {
                            lemma_row_window(self.cols as int, i, rr);
                        }
                    }
                }
            }
        }
        let mut r2 = top;
        while r2 < start
            invariant
                old(self).wf(),
                self.wf(),
                self.cols == old(self).cols,
                self.rows == old(self).rows,
                self.cells.len() == old(self).cells.len(),
                top <= bottom < self.rows,
                h == bottom - top + 1,
                n <= h,
                start == top + n,
                top <= r2 <= start,
                forall|i: int|
                    0 <= i < self.cells@.len() ==> self.cells@[i] == ({
                        let rr = i / (self.cols as int);
                        if start <= rr <= bottom {
                            old(self).cells@[i - n * self.cols]
                        } else if top <= rr < r2 {
                            Cell::spec_default()
                        } else {
                            old(self).cells@[i]
                        }
                    }),
                forall|rr: int|
                    0 <= rr < self.rows ==> self.dirty_lines@[rr] == (if (start <= rr <= bottom)
                        || (top <= rr < r2) {
                        true
                    } else {
                        old(self).dirty_lines@[rr]
                    }),
            decreases start - r2,
        {
            let ghost pre = self@;
            self.clear_row(r2);
            proof {
                assert forall|i: int|
                    0 <= i < self.cells@.len() implies self.cells@[i] == ({
                    let rr = i / (self.cols as int);
                    if start <= rr <= bottom {
                        old(self).cells@[i - n * self.cols]
                    } else if top <= rr < r2 + 1 {
                        Cell::spec_default()
                    } else {
                        old(self).cells@[i]
                    }
                }) by {
                    lemma_row_window(self.cols as int, i, r2 as int);
                }
            }
            r2 = r2 + 1;
        }
        proof {
            assert forall|i: int|
                0 <= i < self.cells@.len() implies self.cells@[i] == old(self)@.region_scroll_down(
                top as int,
                bottom as int,
                amount as nat,
            ).cells[i] by {
                vstd::arithmetic::div_mod::lemma_div_pos_is_pos(i, self.cols as int);
            }
            assert(self@ =~= old(self)@.region_scroll_down(
                top as int,
                bottom as int,
                amount as nat,
            ));
        }
    }

    /// Blanks the columns `[c0, c1)` of one row and marks it dirty; empty
    /// or out-of-bounds ranges are ignored.
    pub fn erase_row_range(&mut self, row: usize, c0: usize, c1: usize)
        requires
            old(self).wf(),
        ensures
            final(self).wf(),
            final(self)@ == old(self)@.erase_in_row(row as int, c0 as int, c1 as int),
    {
        if row < self.rows && c0 < c1 && c1 <= self.cols {
            proof {
                lemma_row_major_index(self.cols as int, self.rows as int, 0, row as int);
            }
            let start = row * self.cols;
            let mut c = c0;
            while c < c1
                invariant
                    old(self).wf(),
                    self.wf(),
                    self.cols == old(self).cols,
                    self.rows == old(self).rows,
                    self.cells.len() == old(self).cells.len(),
                    self.dirty_lines@ == old(self).dirty_lines@,
                    row < self.rows,
                    c0 <= c <= c1,
                    c1 <= self.cols,
                    start == row * self.cols,
                    start + self.cols <= self.cells.len(),
                    forall|i: int|
                        0 <= i < self.cells@.len() ==> self.cells@[i] == (if start + c0 <= i < start
                            + c {
                            Cell::spec_default()
                        } else {
                            old(self).cells@[i]
                        }),
                decreases c1 - c,
            {
                self.cells[start + c] = Cell::default();
                c = c + 1;
            }
            self.dirty_lines[row] = true;
            proof {
                assert(self@ =~= old(self)@.erase_in_row(row as int, c0 as int, c1 as int));
            }
        }
    }

    /// Blanks every row in `[r0, r1)` and marks those rows dirty.
    pub fn clear_rows_range(&mut self, r0: usize, r1: usize)
        requires
            old(self).wf(),
        ensures
            final(self).wf(),
            final(self)@ == old(self)@.clear_rows_range(r0 as int, r1 as int),
    {
        let stop = if r1 < self.rows {
            r1
        } else {
            self.rows
        };
        let mut r = r0;
        while r < stop
            invariant
                old(self).wf(),
                self.wf(),
                self.cols == old(self).cols,
                self.rows == old(self).rows,
                self.cells.len() == old(self).cells.len(),
                stop <= self.rows,
                stop <= r1,
                r1 <= stop || stop == self.rows,
                r0 <= r,
                r <= stop || (r == r0 && r0 >= stop),
                forall|i: int|
                    0 <= i < self.cells@.len() ==> self.cells@[i] == ({
                        let rr = i / (self.cols as int);
                        if r0 <= rr < r {
                            Cell::spec_default()
                        } else {
                            old(self).cells@[i]
                        }
                    }),
                forall|rr: int|
                    0 <= rr < self.rows ==> self.dirty_lines@[rr] == (if r0 <= rr < r {
                        true
                    } else {
                        old(self).dirty_lines@[rr]
                    }),
            decreases stop - r,
        {
            let ghost pre = self@;
            self.clear_row(r);
            proof {
                assert forall|i: int|
                    0 <= i < self.cells@.len() implies self.cells@[i] == ({
                    let rr = i / (self.cols as int);
                    if r0 <= rr < r + 1 {
                        Cell::spec_default()
                    } else {
                        old(self).cells@[i]
                    }
                }) by {
                    lemma_row_window(self.cols as int, i, r as int);
                }
            }
            r = r + 1;
        }
        proof {
            assert forall|i: int|
                0 <= i < self.cells@.len() implies self.cells@[i] == old(self)@.clear_rows_range(
                r0 as int,
                r1 as int,
            ).cells[i] by {
                vstd::arithmetic::div_mod::lemma_div_pos_is_pos(i, self.cols as int);
                vstd::arithmetic::div_mod::lemma_mod_bound(i, self.cols as int);
                vstd::arithmetic::div_mod::lemma_fundamental_div_mod(i, self.cols as int);
                assert((i / (self.cols as int)) < self.rows) by (nonlinear_arith)
                    requires
                        0 <= i < self.cols * self.rows,
                        self.cols >= 1,
                        (i / (self.cols as int)) * (self.cols as int) + i % (self.cols as int)
                            == i,
                        0 <= i % (self.cols as int) < self.cols,
                ;
            }
            assert(self@ =~= old(self)@.clear_rows_range(r0 as int, r1 as int));
        }
    }

    /// Blanks the whole grid and marks every row dirty.
    pub fn clear(&mut self)
        requires
            old(self).wf(),
        ensures
            final(self).wf(),
            final(self)@ == old(self)@.clear_all(),
    {
        let n = self.cells.len();
        self.cells = repeat_cell(n, Cell::default());
        let r = self.dirty_lines.len();
        self.dirty_lines = repeat_bool(r, true);
        proof {
            assert(self@ =~= old(self)@.clear_all());
        }
    }

    /// Moves every row up by `amount`, blanking the vacated tail rows;
    /// `amount >= rows` is a full clear.
    pub fn scroll_up(&mut self, amount: usize)
        requires
            old(self).wf(),
        ensures
            final(self).wf(),
            final(self)@ == old(self)@.scroll_up_view(amount as nat),
    {
        if amount >= self.rows {
            self.clear();
            return ;
        }
        proof {
            assert((self.rows - amount) * self.cols + amount * self.cols == self.rows * self.cols
                && 0 <= amount * self.cols <= self.rows * self.cols && self.rows * self.cols
                == self.cols * self.rows) by (nonlinear_arith)
                requires
                    0 <= amount < self.rows,
                    self.cols >= 1,
            ;
        }
        let shift = amount * self.cols;
        let keep = self.cells.len() - shift;
        let mut i: usize = 0;
        while i < keep
            invariant
                self.cols == old(self).cols,
                self.rows == old(self).rows,
                self.dirty_lines@ == old(self).dirty_lines@,
                self.cells.len() == old(self).cells.len(),
                old(self).wf(),
                shift == amount * self.cols,
                shift <= self.cells.len(),
                keep == self.cells.len() - shift,
                i <= keep,
                forall|k: int|
                    0 <= k < self.cells.len() ==> self.cells@[k] == (if 0 <= k < i {
                        old(self).cells@[k + shift]
                    } else {
                        old(self).cells@[k]
                    }),
            decreases keep - i,
        {
            let v = self.cells[i + shift];
            self.cells[i] = v;
            i = i + 1;
        }
        let len = self.cells.len();
        let mut j: usize = keep;
        while j < len
            invariant
                self.cols == old(self).cols,
                self.rows == old(self).rows,
                self.dirty_lines@ == old(self).dirty_lines@,
                self.cells.len() == old(self).cells.len(),
                old(self).wf(),
                shift == amount * self.cols,
                shift <= self.cells.len(),
                keep == self.cells.len() - shift,
                len == self.cells.len(),
                keep <= j <= len,
                forall|k: int|
                    0 <= k < self.cells.len() ==> self.cells@[k] == (if 0 <= k < keep {
                        old(self).cells@[k + shift]
                    } else if keep <= k < j {
                        Cell::spec_default()
                    } else {
                        old(self).cells@[k]
                    }),
            decreases len - j,
        {
            self.cells[j] = Cell::default();
            j = j + 1;
        }
        let r = self.dirty_lines.len();
        self.dirty_lines = repeat_bool(r, true);
        proof {
            assert(self@ =~= old(self)@.scroll_up_view(amount as nat));
        }
    }

    /// True when the row exists and its dirty bit is set.
    pub fn is_dirty(&self, row: usize) -> (r: bool)
        requires
            self.wf(),
        ensures
            r == (row < self@.rows && self@.dirty[row as int]),
    {
        if row < self.rows {
            self.dirty_lines[row]
        } else {
            false
        }
    }

    /// Clears every row's dirty bit.
    pub fn clear_dirty(&mut self)
        requires
            old(self).wf(),
        ensures
            final(self).wf(),
            final(self)@ == (GridView {
                dirty: Seq::new(old(self)@.rows, |i: int| false),
                ..old(self)@
            }),
    {
        let r = self.dirty_lines.len();
        self.dirty_lines = repeat_bool(r, false);
        proof {
            assert(self@ =~= (GridView {
                dirty: Seq::new(old(self)@.rows, |i: int| false),
                ..old(self)@
            }));
        }
    }

    /// Sets every row's dirty bit.
    pub fn mark_all_dirty(&mut self)
        requires
            old(self).wf(),
        ensures
            final(self).wf(),
            final(self)@ == (GridView {
                dirty: Seq::new(old(self)@.rows, |i: int| true),
                ..old(self)@
            }),
    {
        let r = self.dirty_lines.len();
        self.dirty_lines = repeat_bool(r, true);
        proof {
            assert(self@ =~= (GridView {
                dirty: Seq::new(old(self)@.rows, |i: int| true),
                ..old(self)@
            }));
        }
    }

    /// Borrows one whole row of cells.
    pub fn row_slice(&self, row: usize) -> (r: &[Cell])
        requires
            self.wf(),
            row < self@.rows,
        ensures
            r@ == self@.cells.subrange(
                row * (self@.cols as int),
                row * (self@.cols as int) + self@.cols,
            ),
    {
        proof {
            lemma_row_major_index(self.cols as int, self.rows as int, 0, row as int);
            assert((row + 1) * self.cols == row * self.cols + self.cols) by (nonlinear_arith);
        }
        let start = row * self.cols;
        &self.cells[start..start + self.cols]
    }
}

} // verus!

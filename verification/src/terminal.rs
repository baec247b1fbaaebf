//! Terminal state: cursor, modes, styles, scroll region, main and alternate
//! grids, tab stops, title, working directory, selection and the pending
//! response queue.
//!
//! Every public operation is specified against `TermView`, the mathematical
//! model of the whole terminal, and preserves the central invariant: the
//! cursor stays inside the grid (the column may rest one past the last cell
//! after printing into it, awaiting a wrap) and the scroll region satisfies
//! `top <= bottom < rows`.

use vstd::prelude::*;
use vstd::string::StringExecFns;

use crate::grid::{Cell, CellFlags, Color, Grid, GridView};

verus! {

/// Mode bit: cursor keys send application sequences.
pub const MODE_CURSOR_KEYS_APP: u32 = 0x01;

/// Mode bit: the alternate screen buffer is active.
pub const MODE_ALT_SCREEN: u32 = 0x02;

/// Mode bit: printing past the last column wraps to the next line.
pub const MODE_AUTO_WRAP: u32 = 0x04;

/// Mode bit: insert mode.
pub const MODE_INSERT: u32 = 0x08;

/// Mode bit: origin mode.
pub const MODE_ORIGIN: u32 = 0x10;

/// Mode bit: mouse tracking.
pub const MODE_MOUSE_TRACKING: u32 = 0x20;

/// Mode bit: bracketed paste.
pub const MODE_BRACKETED_PASTE: u32 = 0x40;

/// A set of terminal mode flags, stored as a bit set over the `MODE_*` bits.
#[derive(Clone, Copy, Debug, PartialEq, Eq, Structural)]
pub struct TerminalMode {
    pub bits: u32,
}

impl TerminalMode {
    /// The empty mode set.
    pub fn empty() -> (r: TerminalMode)
        ensures
            r.bits == 0,
    {
        TerminalMode { bits: 0 }
    }

    /// True when every bit of `flag` is set in `self`.
    pub open spec fn spec_contains(self, flag: u32) -> bool {
        self.bits & flag == flag
    }

    /// True when every bit of `flag` is set in `self`.
    #[verifier::when_used_as_spec(spec_contains)]
    pub fn contains(self, flag: u32) -> (r: bool)
        ensures
            r == self.spec_contains(flag),
    {
        self.bits & flag == flag
    }

    /// The mode set with the bits of `flag` added.
    pub open spec fn spec_insert(self, flag: u32) -> TerminalMode {
        TerminalMode { bits: self.bits | flag }
    }

    /// Adds the bits of `flag`.
    pub fn insert(&mut self, flag: u32)
        ensures
            *final(self) == old(self).spec_insert(flag),
    {
        self.bits = self.bits | flag;
    }

    /// The mode set with the bits of `flag` removed.
    pub open spec fn spec_remove(self, flag: u32) -> TerminalMode {
        TerminalMode { bits: self.bits & !flag }
    }

    /// Removes the bits of `flag`.
    pub fn remove(&mut self, flag: u32)
        ensures
            *final(self) == old(self).spec_remove(flag),
    {
        self.bits = self.bits & !flag;
    }
}

impl Default for TerminalMode {
    /// The empty mode set.
    fn default() -> (r: TerminalMode)
        ensures
            r.bits == 0,
    {
        TerminalMode { bits: 0 }
    }
}

/// The shape the cursor is drawn with.
#[derive(Clone, Copy, Debug, PartialEq, Eq, Structural)]
pub enum CursorShape {
    Block,
    Underline,
    Beam,
}

impl Default for CursorShape {
    /// A full block.
    fn default() -> (s: CursorShape)
        ensures
            s == CursorShape::Block,
    {
        CursorShape::Block
    }
}

/// The full cursor state: position, shape, blink and visibility.
#[derive(Clone, Copy, Debug, PartialEq, Eq, Structural)]
pub struct Cursor {
    pub col: usize,
    pub row: usize,
    pub shape: CursorShape,
    pub blinking: bool,
    pub visible: bool,
}

impl Default for Cursor {
    /// Home position, block shape, blinking and visible.
    fn default() -> (c: Cursor)
        ensures
            c == Cursor::spec_default(),
    {
        Cursor { col: 0, row: 0, shape: CursorShape::Block, blinking: true, visible: true }
    }
}

impl Cursor {
    /// Home position, block shape, blinking and visible.
    pub open spec fn spec_default() -> Cursor {
        Cursor { col: 0, row: 0, shape: CursorShape::Block, blinking: true, visible: true }
    }
}

/// A text selection between two grid positions.
#[derive(Clone, Copy, Debug, PartialEq, Eq)]
pub struct Selection {
    pub start: Option<(usize, usize)>,
    pub end: Option<(usize, usize)>,
    pub active: bool,
}

impl Default for Selection {
    /// No selection.
    fn default() -> (s: Selection)
        ensures
            s == Selection::spec_default(),
    {
        Selection { start: None, end: None, active: false }
    }
}

impl Selection {
    /// No selection.
    pub open spec fn spec_default() -> Selection {
        Selection { start: None, end: None, active: false }
    }

    /// Drops the selection.
    pub fn clear(&mut self)
        ensures
            *final(self) == Selection::spec_default(),
    {
        self.start = None;
        self.end = None;
        self.active = false;
    }

    /// Anchors a new selection at a position.
    pub fn start_at(&mut self, col: usize, row: usize)
        ensures
            *final(self) == (Selection {
                start: Some((col, row)),
                end: Some((col, row)),
                active: true,
            }),
    {
        self.start = Some((col, row));
        self.end = Some((col, row));
        self.active = true;
    }

    /// Moves the selection end while a selection is being made.
    pub fn extend_to(&mut self, col: usize, row: usize)
        ensures
            old(self).active ==> *final(self) == (Selection {
                end: Some((col, row)),
                ..*old(self)
            }),
            !old(self).active ==> *final(self) == *old(self),
    {
        if self.active {
            self.end = Some((col, row));
        }
    }

    /// Ends the active phase of the selection, keeping its range.
    pub fn finish(&mut self)
        ensures
            *final(self) == (Selection { active: false, ..*old(self) }),
    {
        self.active = false;
    }

    /// True when both endpoints are set.
    pub open spec fn spec_has_selection(&self) -> bool {
        self.start is Some && self.end is Some
    }

    /// True when both endpoints are set.
    #[verifier::when_used_as_spec(spec_has_selection)]
    pub fn has_selection(&self) -> (r: bool)
        ensures
            r == self.spec_has_selection(),
    {
        self.start.is_some() && self.end.is_some()
    }

    /// The selection range ordered top-to-bottom (and left-to-right within a
    /// row), when both endpoints are set.
    pub open spec fn spec_ordered(self) -> ((usize, usize), (usize, usize))
        recommends
            self.spec_has_selection(),
    {
        let s = self.start->0;
        let e = self.end->0;
        if s.1 < e.1 || (s.1 == e.1 && s.0 <= e.0) {
            (s, e)
        } else {
            (e, s)
        }
    }

    /// True when `(col, row)` lies inside the (ordered) selection range.
    pub open spec fn spec_contains(self, col: usize, row: usize) -> bool {
        if !self.spec_has_selection() {
            false
        } else {
            let (start, end) = self.spec_ordered();
            if row < start.1 || row > end.1 {
                false
            } else if start.1 == end.1 {
                col >= start.0 && col <= end.0
            } else if row == start.1 {
                col >= start.0
            } else if row == end.1 {
                col <= end.0
            } else {
                true
            }
        }
    }

    /// True when `(col, row)` lies inside the selection.
    pub fn contains(&self, col: usize, row: usize) -> (r: bool)
        ensures
            r == self.spec_contains(col, row),
    {
        let (start, end) = match (self.start, self.end) {
            (Some(s), Some(e)) => {
                if s.1 < e.1 || (s.1 == e.1 && s.0 <= e.0) {
                    (s, e)
                } else {
                    (e, s)
                }
            },
            _ => {
                return false;
            },
        };
        if row < start.1 || row > end.1 {
            return false;
        }
        if start.1 == end.1 {
            return col >= start.0 && col <= end.0;
        }
        if row == start.1 {
            col >= start.0
        } else if row == end.1 {
            col <= end.0
        } else {
            true
        }
    }
}

/// The pen: colors and flags applied to newly printed cells.
#[derive(Clone, Copy, Debug, PartialEq, Eq, Structural)]
pub struct CellStyle {
    pub fg: Color,
    pub bg: Color,
    pub flags: CellFlags,
}

impl CellStyle {
    /// The default pen: emerald on black, no flags.
    pub open spec fn spec_default() -> CellStyle {
        CellStyle {
            fg: Color::spec_emerald(),
            bg: Color::spec_black(),
            flags: CellFlags { bits: 0 },
        }
    }
}

impl Default for CellStyle {
    /// The default pen: emerald on black, no flags.
    fn default() -> (s: CellStyle)
        ensures
            s == CellStyle::spec_default(),
    {
        CellStyle { fg: Color::emerald(), bg: Color::black(), flags: CellFlags { bits: 0 } }
    }
}

/// The mathematical model of a [`Terminal`].
#[verifier::ext_equal]
pub struct TermView {
    pub grid: GridView,
    pub alt_grid: GridView,
    pub cursor: Cursor,
    pub saved_cursor: Cursor,
    pub mode: u32,
    pub style: CellStyle,
    pub scroll_top: nat,
    pub scroll_bottom: nat,
    pub tabs: Seq<usize>,
    pub title: Seq<char>,
    pub cwd: Seq<char>,
    pub selection: Selection,
    pub response: Seq<u8>,
}

/// The decimal digits of `n`, most significant first.
pub open spec fn spec_decimal(n: nat) -> Seq<u8>
    decreases n,
{
    if n < 10 {
        seq![(0x30 + n) as u8]
    } else {
        spec_decimal(n / 10) + seq![(0x30 + n % 10) as u8]
    }
}

/// The tab stops of a grid with `cols` columns: every multiple of 8 below
/// `cols`.
pub open spec fn spec_tab_stops(cols: nat) -> Seq<usize>
    recommends
        cols >= 1,
{
    Seq::new((cols - 1) as nat / 8, |i: int| (8 * (i + 1)) as usize)
}

/// The first tab stop greater than `col`, in the stored order.
pub open spec fn spec_next_tab(tabs: Seq<usize>, col: usize) -> Option<usize>
    decreases tabs.len(),
{
    if tabs.len() == 0 {
        None
    } else if tabs[0] > col {
        Some(tabs[0])
    } else {
        spec_next_tab(tabs.drop_first(), col)
    }
}

impl TermView {
    /// Well-formed: both grids share a shape, the cursor sits inside the
    /// grid (the column may rest at `cols` after printing into the last
    /// column), and the scroll region is ordered and inside the grid.
    pub open spec fn wf(self) -> bool {
        &&& self.grid.wf()
        &&& self.alt_grid.wf()
        &&& self.alt_grid.cols == self.grid.cols
        &&& self.alt_grid.rows == self.grid.rows
        &&& self.cursor.col <= self.grid.cols
        &&& self.cursor.row < self.grid.rows
        &&& self.scroll_top <= self.scroll_bottom
        &&& self.scroll_bottom < self.grid.rows
    }

    /// True when the alternate screen is active.
    pub open spec fn alt_active(self) -> bool {
        self.mode & MODE_ALT_SCREEN == MODE_ALT_SCREEN
    }

    /// The grid that input and drawing currently target.
    pub open spec fn active(self) -> GridView {
        if self.alt_active() {
            self.alt_grid
        } else {
            self.grid
        }
    }

    /// The terminal with the active grid replaced.
    pub open spec fn with_active(self, g: GridView) -> TermView {
        if self.alt_active() {
            TermView { alt_grid: g, ..self }
        } else {
            TermView { grid: g, ..self }
        }
    }

    /// The terminal with the cursor moved (no clamping).
    pub open spec fn with_cursor(self, col: usize, row: usize) -> TermView {
        TermView { cursor: Cursor { col, row, ..self.cursor }, ..self }
    }

    /// A fresh terminal: blank grids, home cursor, auto-wrap on, default
    /// pen, full-height scroll region, tab stops every 8 columns.
    pub open spec fn new_view(cols: nat, rows: nat) -> TermView {
        TermView {
            grid: GridView::new_grid(cols, rows),
            alt_grid: GridView::new_grid(cols, rows),
            cursor: Cursor::spec_default(),
            saved_cursor: Cursor::spec_default(),
            mode: MODE_AUTO_WRAP,
            style: CellStyle::spec_default(),
            scroll_top: 0,
            scroll_bottom: (rows - 1) as nat,
            tabs: spec_tab_stops(cols),
            title: "BlazeTerm"@,
            cwd: "/"@,
            selection: Selection::spec_default(),
            response: Seq::empty(),
        }
    }

    /// Carriage return: the cursor moves to column 0.
    pub open spec fn op_carriage_return(self) -> TermView {
        self.with_cursor(0, self.cursor.row)
    }

    /// Backspace: the cursor moves one column left, not below 0.
    pub open spec fn op_backspace(self) -> TermView {
        if self.cursor.col > 0 {
            self.with_cursor((self.cursor.col - 1) as usize, self.cursor.row)
        } else {
            self
        }
    }

    /// Absolute cursor move, clamped to the grid.
    pub open spec fn op_move_cursor_to(self, col: int, row: int) -> TermView {
        let g = self.active();
        let c = if col < 0 {
            0
        } else if col > g.cols - 1 {
            (g.cols - 1) as int
        } else {
            col
        };
        let r = if row < 0 {
            0
        } else if row > g.rows - 1 {
            (g.rows - 1) as int
        } else {
            row
        };
        self.with_cursor(c as usize, r as usize)
    }

    /// Relative cursor move: offset, floored at 0, then clamped.
    pub open spec fn op_move_cursor(self, delta_col: int, delta_row: int) -> TermView {
        let nc = if self.cursor.col + delta_col < 0 {
            0
        } else {
            self.cursor.col + delta_col
        };
        let nr = if self.cursor.row + delta_row < 0 {
            0
        } else {
            self.cursor.row + delta_row
        };
        self.op_move_cursor_to(nc, nr)
    }

    /// Save: the full cursor state is copied to the saved slot.
    pub open spec fn op_save_cursor(self) -> TermView {
        TermView { saved_cursor: self.cursor, ..self }
    }

    /// Restore: the saved cursor returns, its position clamped to the grid.
    pub open spec fn op_restore_cursor(self) -> TermView {
        let g = self.active();
        let c = if self.saved_cursor.col > g.cols - 1 {
            (g.cols - 1) as nat
        } else {
            self.saved_cursor.col as nat
        };
        let r = if self.saved_cursor.row > g.rows - 1 {
            (g.rows - 1) as nat
        } else {
            self.saved_cursor.row as nat
        };
        TermView {
            cursor: Cursor { col: c as usize, row: r as usize, ..self.saved_cursor },
            ..self
        }
    }

    /// Tab: the cursor advances to the next tab stop, or to the last
    /// column, never past the grid.
    pub open spec fn op_tab(self) -> TermView {
        let g = self.active();
        let c = match spec_next_tab(self.tabs, self.cursor.col) {
            Some(stop) => if stop > g.cols - 1 {
                (g.cols - 1) as nat
            } else {
                stop as nat
            },
            None => (g.cols - 1) as nat,
        };
        self.with_cursor(c as usize, self.cursor.row)
    }

    /// Queue bytes the terminal must send back to the host.
    pub open spec fn op_queue_response(self, bytes: Seq<u8>) -> TermView {
        TermView { response: self.response + bytes, ..self }
    }

    /// The cursor-position report: `ESC [ row+1 ; col+1 R`.
    pub open spec fn cursor_report(self) -> Seq<u8> {
        seq![0x1bu8, 0x5bu8] + spec_decimal((self.cursor.row + 1) as nat) + seq![0x3bu8]
            + spec_decimal((self.cursor.col + 1) as nat) + seq![0x52u8]
    }

    /// Scroll the scroll region up by `amount`.
    pub open spec fn op_scroll_up(self, amount: nat) -> TermView {
        self.with_active(
            self.active().region_scroll_up(
                self.scroll_top as int,
                self.scroll_bottom as int,
                amount,
            ),
        )
    }

    /// Scroll the scroll region down by `amount`.
    pub open spec fn op_scroll_down(self, amount: nat) -> TermView {
        self.with_active(
            self.active().region_scroll_down(
                self.scroll_top as int,
                self.scroll_bottom as int,
                amount,
            ),
        )
    }

    /// Line feed: advance one row, or scroll the region up when the cursor
    /// sits on (or below) the region's bottom row.
    pub open spec fn op_linefeed(self) -> TermView {
        if self.cursor.row >= self.scroll_bottom {
            self.op_scroll_up(1)
        } else {
            self.with_cursor(self.cursor.col, (self.cursor.row + 1) as usize)
        }
    }

    /// Blank from the cursor to the end of its line.
    pub open spec fn op_erase_line_to_end(self) -> TermView {
        self.with_active(
            self.active().erase_in_row(
                self.cursor.row as int,
                self.cursor.col as int,
                self.active().cols as int,
            ),
        )
    }

    /// Blank from the start of the line through the cursor.
    pub open spec fn op_erase_line_to_start(self) -> TermView {
        let c1 = if self.cursor.col >= self.active().cols {
            self.active().cols as int
        } else {
            self.cursor.col + 1
        };
        self.with_active(self.active().erase_in_row(self.cursor.row as int, 0, c1))
    }

    /// Blank the cursor's whole line.
    pub open spec fn op_erase_line(self) -> TermView {
        self.with_active(self.active().clear_row(self.cursor.row as int))
    }

    /// Blank from the cursor to the end of the screen.
    pub open spec fn op_erase_display_to_end(self) -> TermView {
        let t1 = self.op_erase_line_to_end();
        t1.with_active(
            t1.active().clear_rows_range(self.cursor.row + 1, t1.active().rows as int),
        )
    }

    /// Blank from the start of the screen through the cursor.
    pub open spec fn op_erase_display_to_start(self) -> TermView {
        let t1 = self.op_erase_line_to_start();
        t1.with_active(t1.active().clear_rows_range(0, self.cursor.row as int))
    }

    /// Blank the whole screen.
    pub open spec fn op_erase_display(self) -> TermView {
        self.with_active(self.active().clear_all())
    }

    /// Enter the alternate screen: set the mode bit, blank the alternate
    /// grid and save the cursor.  Already active: no change.
    pub open spec fn op_enter_alt_screen(self) -> TermView {
        if !self.alt_active() {
            TermView {
                mode: self.mode | MODE_ALT_SCREEN,
                alt_grid: self.alt_grid.clear_all(),
                saved_cursor: self.cursor,
                ..self
            }
        } else {
            self
        }
    }

    /// Leave the alternate screen: clear the mode bit, restore the saved
    /// cursor, reset the scroll region to the full grid and mark the main
    /// grid dirty.  Not active: no change.
    pub open spec fn op_exit_alt_screen(self) -> TermView {
        if self.alt_active() {
            let t1 = TermView { mode: self.mode & !MODE_ALT_SCREEN, ..self };
            let t2 = t1.op_restore_cursor();
            TermView {
                scroll_top: 0,
                scroll_bottom: (self.grid.rows - 1) as nat,
                grid: GridView {
                    dirty: Seq::new(t2.grid.dirty.len(), |i: int| true),
                    ..t2.grid
                },
                ..t2
            }
        } else {
            self
        }
    }

    /// Resize both grids, reset the scroll region to the full height, clamp
    /// the cursor and recompute the tab stops.
    pub open spec fn op_resize(self, cols: nat, rows: nat) -> TermView {
        TermView {
            grid: self.grid.resize_view(cols, rows),
            alt_grid: self.alt_grid.resize_view(cols, rows),
            cursor: Cursor {
                col: if self.cursor.col >= cols {
                    (cols - 1) as usize
                } else {
                    self.cursor.col
                },
                row: if self.cursor.row >= rows {
                    (rows - 1) as usize
                } else {
                    self.cursor.row
                },
                ..self.cursor
            },
            scroll_top: 0,
            scroll_bottom: (rows - 1) as nat,
            tabs: spec_tab_stops(cols),
            ..self
        }
    }

    /// A control character: line feed, carriage return, tab and backspace
    /// act; everything else is ignored.
    pub open spec fn op_control_char(self, c: char) -> TermView {
        if c == '\n' {
            self.op_linefeed()
        } else if c == '\r' {
            self.op_carriage_return()
        } else if c == '\t' {
            self.op_tab()
        } else if c as u32 == 8 {
            self.op_backspace()
        } else {
            self
        }
    }

    /// Print one character: control characters are dispatched; otherwise
    /// the character is written at the cursor with the current pen, wrapping
    /// or clamping at the right edge, with a styled blank spacer after a
    /// double-width character, and the cursor advances by the width.  A
    /// character wider than the whole grid is ignored.
    pub open spec fn op_input_char(self, c: char) -> TermView {
        if (c as u32) < 0x20 {
            self.op_control_char(c)
        } else {
            let w = spec_char_width(c) as int;
            let cols = self.active().cols as int;
            if w > cols {
                self
            } else {
                let t1 = if self.cursor.col + w > cols {
                    if self.mode & MODE_AUTO_WRAP == MODE_AUTO_WRAP {
                        if self.cursor.row + 1 > self.scroll_bottom {
                            self.op_scroll_up(1).with_cursor(0, self.scroll_bottom as usize)
                        } else {
                            self.with_cursor(0, (self.cursor.row + 1) as usize)
                        }
                    } else {
                        self.with_cursor((cols - w) as usize, self.cursor.row)
                    }
                } else {
                    self
                };
                let cell = Cell {
                    character: c,
                    fg: self.style.fg,
                    bg: self.style.bg,
                    flags: self.style.flags,
                };
                let g1 = t1.active().set_cell(t1.cursor.col as int, t1.cursor.row as int, cell);
                let g2 = if w == 2 && t1.cursor.col + 1 < cols {
                    g1.set_cell(
                        t1.cursor.col + 1,
                        t1.cursor.row as int,
                        Cell { character: ' ', ..cell },
                    )
                } else {
                    g1
                };
                t1.with_active(g2).with_cursor((t1.cursor.col + w) as usize, t1.cursor.row)
            }
        }
    }
}

/// The displayed column width of a character, as the renderer's width
/// tables give it.  Opaque: only the trusted width query speaks for it.
pub uninterp spec fn width_of(c: char) -> nat;

/// The column width a printed character advances the cursor by: control
/// characters (which the width tables refuse) count 1, everything else has
/// its table width.
pub open spec fn spec_char_width(c: char) -> nat {
    if (c as u32) < 0x20 || (0x7f <= c as u32 && (c as u32) < 0xa0) {
        1
    } else {
        width_of(c)
    }
}

/// Relies on unicode_width's `UnicodeWidthChar::width`: the displayed
/// column width of a character, `None` exactly on the control ranges (C0,
/// DEL and C1), and 1 for printable ASCII.
#[verifier::external_body]
fn unicode_char_width(c: char) -> (r: Option<usize>)
    ensures
        (r is Some) == !((c as u32) < 0x20 || (0x7f <= c as u32 && (c as u32) < 0xa0)),
        r matches Some(w) ==> w as nat == width_of(c),
        (0x20 <= c as u32 && (c as u32) < 0x7f) ==> (r matches Some(w) ==> w == 1),
{
    unicode_width::UnicodeWidthChar::width(c)
}

/// The complete state of one terminal screen.
pub struct Terminal {
    /// The main grid.
    pub grid: Grid,
    /// The alternate grid used by full-screen applications.
    pub alt_grid: Grid,
    /// The cursor.
    pub cursor: Cursor,
    /// The single saved-cursor slot.
    pub saved_cursor: Cursor,
    /// The active mode flags.
    pub mode: TerminalMode,
    /// The pen applied to newly printed cells.
    pub current_style: CellStyle,
    /// First row of the scroll region (inclusive).
    pub scroll_top: usize,
    /// Last row of the scroll region (inclusive).
    pub scroll_bottom: usize,
    /// Tab stop columns, ascending.
    pub tabs: Vec<usize>,
    /// The window title.
    pub title: String,
    /// The shell's reported working directory.
    pub cwd: String,
    /// The text selection.
    pub selection: Selection,
    /// Bytes waiting to be written back to the host.
    pub response: Vec<u8>,
}

impl View for Terminal {
    type V = TermView;

    open spec fn view(&self) -> TermView {
        TermView {
            grid: self.grid@,
            alt_grid: self.alt_grid@,
            cursor: self.cursor,
            saved_cursor: self.saved_cursor,
            mode: self.mode.bits,
            style: self.current_style,
            scroll_top: self.scroll_top as nat,
            scroll_bottom: self.scroll_bottom as nat,
            tabs: self.tabs@,
            title: self.title@,
            cwd: self.cwd@,
            selection: self.selection,
            response: self.response@,
        }
    }
}

/// Appends the decimal digits of `n`.
fn push_decimal(out: &mut Vec<u8>, n: u128)
    ensures
        final(out)@ == old(out)@ + spec_decimal(n as nat),
    decreases n,
{
    if n < 10 {
        out.push(0x30 + n as u8);
        assert(final(out)@ =~= old(out)@ + spec_decimal(n as nat));
    } else {
        push_decimal(out, n / 10);
        out.push(0x30 + (n % 10) as u8);
        assert(final(out)@ =~= old(out)@ + spec_decimal(n as nat));
    }
}

/// Builds the ascending tab stops: every multiple of 8 below `cols`.
fn build_tab_stops(cols: usize) -> (v: Vec<usize>)
    requires
        cols >= 1,
    ensures
        v@ == spec_tab_stops(cols as nat),
{
    let mut v: Vec<usize> = Vec::new();
    let mut k: usize = 0;
    while 8 * (k as u128) + 8 < cols as u128
        invariant
            cols >= 1,
            v@ == Seq::new(k as nat, |j: int| (8 * (j + 1)) as usize),
            8 * (k as int) < cols,
        decreases cols - 8 * (k as int),
    {
        let stop128: u128 = 8 * (k as u128) + 8;
        let stop: usize = stop128 as usize;
        v.push(stop);
        k = k + 1;
        assert(v@ =~= Seq::new(k as nat, |j: int| (8 * (j + 1)) as usize));
    }
    proof {
        vstd::arithmetic::div_mod::lemma_fundamental_div_mod_converse(
            cols - 1,
            8,
            k as int,
            cols - 1 - 8 * (k as int),
        );
        assert(v@ =~= spec_tab_stops(cols as nat));
    }
    v
}

impl Terminal {
    /// Well-formed: the model is well-formed.
    pub open spec fn wf(self) -> bool {
        self@.wf()
    }

    /// Creates a terminal with blank main and alternate grids.
    pub fn new(cols: usize, rows: usize) -> (t: Terminal)
        requires
            cols >= 1,
            rows >= 1,
            cols * rows <= usize::MAX,
        ensures
            t.wf(),
            t@ == TermView::new_view(cols as nat, rows as nat),
    {
        let t = Terminal {
            grid: Grid::new(cols, rows),
            alt_grid: Grid::new(cols, rows),
            cursor: Cursor::default(),
            saved_cursor: Cursor::default(),
            mode: TerminalMode { bits: MODE_AUTO_WRAP },
            current_style: CellStyle::default(),
            scroll_top: 0,
            scroll_bottom: rows - 1,
            tabs: build_tab_stops(cols),
            title: String::from_str("BlazeTerm"),
            cwd: String::from_str("/"),
            selection: Selection::default(),
            response: Vec::new(),
        };
        proof {
            assert(t@ =~= TermView::new_view(cols as nat, rows as nat));
        }
        t
    }

    /// The grid that input and drawing currently target.
    pub fn active_grid(&self) -> (g: &Grid)
        ensures
            g@ == self@.active(),
    {
        if self.mode.contains(MODE_ALT_SCREEN) {
            &self.alt_grid
        } else {
            &self.grid
        }
    }

    /// Mutable access to the active grid; the terminal afterwards holds
    /// whatever the caller made of it.
    pub fn active_grid_mut(&mut self) -> (g: &mut Grid)
        ensures
            g@ == old(self)@.active(),
            final(self)@ == old(self)@.with_active(final(g)@),
    {
        if self.mode.contains(MODE_ALT_SCREEN) {
            &mut self.alt_grid
        } else {
            &mut self.grid
        }
    }

    /// Moves the cursor to column 0.
    pub fn carriage_return(&mut self)
        requires
            old(self).wf(),
        ensures
            final(self).wf(),
            final(self)@ == old(self)@.op_carriage_return(),
    {
        self.cursor.col = 0;
        proof {
            assert(self@ =~= old(self)@.op_carriage_return());
        }
    }

    /// Moves the cursor one column left, stopping at column 0.
    pub fn backspace(&mut self)
        requires
            old(self).wf(),
        ensures
            final(self).wf(),
            final(self)@ == old(self)@.op_backspace(),
    {
        if self.cursor.col > 0 {
            self.cursor.col = self.cursor.col - 1;
        }
        proof {
            assert(self@ =~= old(self)@.op_backspace());
        }
    }

    /// Copies the cursor to the saved slot.
    pub fn save_cursor(&mut self)
        requires
            old(self).wf(),
        ensures
            final(self).wf(),
            final(self)@ == old(self)@.op_save_cursor(),
    {
        self.saved_cursor = self.cursor;
        proof {
            assert(self@ =~= old(self)@.op_save_cursor());
        }
    }

    /// Restores the saved cursor, clamping its position to the grid.
    pub fn restore_cursor(&mut self)
        requires
            old(self).wf(),
        ensures
            final(self).wf(),
            final(self)@ == old(self)@.op_restore_cursor(),
    {
        let cols = self.active_grid().cols;
        let rows = self.active_grid().rows;
        let mut c = self.saved_cursor;
        if c.col > cols - 1 {
            c.col = cols - 1;
        }
        if c.row > rows - 1 {
            c.row = rows - 1;
        }
        self.cursor = c;
        proof {
            assert(self@ =~= old(self)@.op_restore_cursor());
        }
    }

    /// Moves the cursor to an absolute position, clamped to the grid.
    pub fn move_cursor_to(&mut self, col: usize, row: usize)
        requires
            old(self).wf(),
        ensures
            final(self).wf(),
            final(self)@ == old(self)@.op_move_cursor_to(col as int, row as int),
    {
        let cols = self.active_grid().cols;
        let rows = self.active_grid().rows;
        self.cursor.col = if col < cols {
            col
        } else {
            cols - 1
        };
        self.cursor.row = if row < rows {
            row
        } else {
            rows - 1
        };
        proof {
            assert(self@ =~= old(self)@.op_move_cursor_to(col as int, row as int));
        }
    }

    /// Moves the cursor by an offset, floored at 0 and clamped to the grid.
    pub fn move_cursor(&mut self, delta_col: i32, delta_row: i32)
        requires
            old(self).wf(),
        ensures
            final(self).wf(),
            final(self)@ == old(self)@.op_move_cursor(delta_col as int, delta_row as int),
    {
        let cols = self.active_grid().cols;
        let rows = self.active_grid().rows;
        let nc = Self::offset_clamped(self.cursor.col, delta_col, cols);
        let nr = Self::offset_clamped(self.cursor.row, delta_row, rows);
        self.cursor.col = nc;
        self.cursor.row = nr;
        proof {
            assert(self@ =~= old(self)@.op_move_cursor(delta_col as int, delta_row as int));
        }
    }

    /// Offsets a coordinate, flooring at 0 and clamping below `limit`.
    fn offset_clamped(base: usize, delta: i32, limit: usize) -> (r: usize)
        requires
            limit >= 1,
        ensures
            r == ({
                let raw = if base + delta < 0 {
                    0
                } else {
                    base + delta
                };
                if raw > limit - 1 {
                    (limit - 1) as int
                } else {
                    raw
                }
            }),
    {
        if delta >= 0 {
            let d = delta as usize;
            if base <= usize::MAX - d {
                let raw = base + d;
                if raw < limit {
                    raw
                } else {
                    limit - 1
                }
            } else {
                limit - 1
            }
        } else {
            let neg = delta as i64;
            let d = (-neg) as usize;
            if base >= d {
                let raw = base - d;
                if raw < limit {
                    raw
                } else {
                    limit - 1
                }
            } else {
                0
            }
        }
    }

    /// Advances the cursor to the next tab stop, or the last column.
    pub fn tab(&mut self)
        requires
            old(self).wf(),
        ensures
            final(self).wf(),
            final(self)@ == old(self)@.op_tab(),
    {
        let cols = self.active_grid().cols;
        let n = self.tabs.len();
        let mut i: usize = 0;
        proof {
            assert(self.tabs@.skip(0) =~= self.tabs@);
        }
        while i < n
            invariant
                n == self.tabs.len(),
                i <= n,
                *self == *old(self),
                old(self).wf(),
                cols == old(self)@.active().cols,
                cols >= 1,
                spec_next_tab(self.tabs@, self.cursor.col) == spec_next_tab(
                    self.tabs@.skip(i as int),
                    self.cursor.col,
                ),
            decreases n - i,
        {
            let stop = self.tabs[i];
            if stop > self.cursor.col {
                proof {
                    assert(self.tabs@.skip(i as int)[0] == stop);
                    assert(spec_next_tab(self.tabs@.skip(i as int), self.cursor.col) == Some(
                        stop,
                    ));
                }
                let c = if stop < cols {
                    stop
                } else {
                    cols - 1
                };
                self.cursor.col = c;
                proof {
                    assert(self@ =~= old(self)@.op_tab());
                }
                return ;
            }
            proof {
                assert(self.tabs@.skip(i as int).drop_first() =~= self.tabs@.skip(i + 1));
            }
            i = i + 1;
        }
        proof {
            assert(self.tabs@.skip(n as int) =~= Seq::<usize>::empty());
            assert(spec_next_tab(self.tabs@, self.cursor.col) is None);
        }
        self.cursor.col = cols - 1;
        proof {
            assert(self@ =~= old(self)@.op_tab());
        }
    }

    /// Queues bytes to be sent back to the host.
    pub fn queue_response(&mut self, bytes: &[u8])
        requires
            old(self).wf(),
        ensures
            final(self).wf(),
            final(self)@ == old(self)@.op_queue_response(bytes@),
    {
        let mut i: usize = 0;
        let n = bytes.len();
        while i < n
            invariant
                n == bytes@.len(),
                i <= n,
                self.grid == old(self).grid,
                self.alt_grid == old(self).alt_grid,
                self.cursor == old(self).cursor,
                self.saved_cursor == old(self).saved_cursor,
                self.mode == old(self).mode,
                self.current_style == old(self).current_style,
                self.scroll_top == old(self).scroll_top,
                self.scroll_bottom == old(self).scroll_bottom,
                self.tabs == old(self).tabs,
                self.title == old(self).title,
                self.cwd == old(self).cwd,
                self.selection == old(self).selection,
                self.response@ == old(self).response@ + bytes@.subrange(0, i as int),
            decreases n - i,
        {
            let b = bytes[i];
            self.response.push(b);
            i = i + 1;
            proof {
                assert(old(self).response@ + bytes@.subrange(0, i - 1) + seq![bytes@[i - 1]] =~= old(
                    self,
                ).response@ + bytes@.subrange(0, i as int));
            }
        }
        proof {
            assert(bytes@.subrange(0, n as int) =~= bytes@);
            assert(self@ =~= old(self)@.op_queue_response(bytes@));
        }
    }

    /// Queues the cursor-position report `ESC [ row+1 ; col+1 R`.
    pub fn report_cursor_position(&mut self)
        requires
            old(self).wf(),
        ensures
            final(self).wf(),
            final(self)@ == old(self)@.op_queue_response(old(self)@.cursor_report()),
    {
        self.response.push(0x1b);
        self.response.push(0x5b);
        push_decimal(&mut self.response, self.cursor.row as u128 + 1);
        self.response.push(0x3b);
        push_decimal(&mut self.response, self.cursor.col as u128 + 1);
        self.response.push(0x52);
        proof {
            assert(self.response@ =~= old(self).response@ + old(self)@.cursor_report());
            assert(self@ =~= old(self)@.op_queue_response(old(self)@.cursor_report()));
        }
    }

    /// Hands over the queued response bytes, if any, leaving the queue
    /// empty.
    pub fn take_response(&mut self) -> (r: Option<Vec<u8>>)
        requires
            old(self).wf(),
        ensures
            final(self).wf(),
            final(self)@ == (TermView { response: Seq::empty(), ..old(self)@ }),
            old(self)@.response.len() == 0 ==> r is None,
            old(self)@.response.len() > 0 ==> (r matches Some(v) && v@ == old(self)@.response),
    {
        if self.response.is_empty() {
            proof {
                assert(self.response@ =~= Seq::<u8>::empty());
                assert(self@ =~= (TermView { response: Seq::empty(), ..old(self)@ }));
            }
            None
        } else {
            let mut out: Vec<u8> = Vec::new();
            core::mem::swap(&mut out, &mut self.response);
            proof {
                assert(self@ =~= (TermView { response: Seq::empty(), ..old(self)@ }));
            }
            Some(out)
        }
    }
}


impl Terminal {
    /// Stores a cell in the active grid.
    fn active_set(&mut self, col: usize, row: usize, cell: Cell)
        requires
            old(self).wf(),
        ensures
            final(self).wf(),
            final(self)@ == old(self)@.with_active(
                old(self)@.active().set_cell(col as int, row as int, cell),
            ),
    {
        if self.mode.contains(MODE_ALT_SCREEN) {
            self.alt_grid.set(col, row, cell);
        } else {
            self.grid.set(col, row, cell);
        }
        proof {
            assert(self@ =~= old(self)@.with_active(
                old(self)@.active().set_cell(col as int, row as int, cell),
            ));
        }
    }

    /// Scrolls the scroll region up by `amount`, blanking the vacated rows.
    pub fn scroll_up(&mut self, amount: usize)
        requires
            old(self).wf(),
        ensures
            final(self).wf(),
            final(self)@ == old(self)@.op_scroll_up(amount as nat),
    {
        let top = self.scroll_top;
        let bottom = self.scroll_bottom;
        if self.mode.contains(MODE_ALT_SCREEN) {
            self.alt_grid.scroll_region_up(top, bottom, amount);
        } else {
            self.grid.scroll_region_up(top, bottom, amount);
        }
        proof {
            assert(self@ =~= old(self)@.op_scroll_up(amount as nat));
        }
    }

    /// Scrolls the scroll region down by `amount`, blanking the vacated
    /// rows.
    pub fn scroll_down(&mut self, amount: usize)
        requires
            old(self).wf(),
        ensures
            final(self).wf(),
            final(self)@ == old(self)@.op_scroll_down(amount as nat),
    {
        let top = self.scroll_top;
        let bottom = self.scroll_bottom;
        if self.mode.contains(MODE_ALT_SCREEN) {
            self.alt_grid.scroll_region_down(top, bottom, amount);
        } else {
            self.grid.scroll_region_down(top, bottom, amount);
        }
        proof {
            assert(self@ =~= old(self)@.op_scroll_down(amount as nat));
        }
    }

    /// Advances one row, scrolling the region when the cursor is at (or
    /// below) its bottom.
    pub fn linefeed(&mut self)
        requires
            old(self).wf(),
        ensures
            final(self).wf(),
            final(self)@ == old(self)@.op_linefeed(),
    {
        if self.cursor.row >= self.scroll_bottom {
            self.scroll_up(1);
        } else {
            self.cursor.row = self.cursor.row + 1;
        }
        proof {
            assert(self@ =~= old(self)@.op_linefeed());
        }
    }

    /// Blanks from the cursor to the end of its line.
    pub fn erase_line_to_end(&mut self)
        requires
            old(self).wf(),
        ensures
            final(self).wf(),
            final(self)@ == old(self)@.op_erase_line_to_end(),
    {
        let row = self.cursor.row;
        let col = self.cursor.col;
        let cols = self.active_grid().cols;
        if self.mode.contains(MODE_ALT_SCREEN) {
            self.alt_grid.erase_row_range(row, col, cols);
        } else {
            self.grid.erase_row_range(row, col, cols);
        }
        proof {
            assert(self@ =~= old(self)@.op_erase_line_to_end());
        }
    }

    /// Blanks from the start of the line through the cursor.
    pub fn erase_line_to_start(&mut self)
        requires
            old(self).wf(),
        ensures
            final(self).wf(),
            final(self)@ == old(self)@.op_erase_line_to_start(),
    {
        let row = self.cursor.row;
        let cols = self.active_grid().cols;
        let c1 = if self.cursor.col >= cols {
            cols
        } else {
            self.cursor.col + 1
        };
        if self.mode.contains(MODE_ALT_SCREEN) {
            self.alt_grid.erase_row_range(row, 0, c1);
        } else {
            self.grid.erase_row_range(row, 0, c1);
        }
        proof {
            assert(self@ =~= old(self)@.op_erase_line_to_start());
        }
    }

    /// Blanks the cursor's whole line.
    pub fn erase_line(&mut self)
        requires
            old(self).wf(),
        ensures
            final(self).wf(),
            final(self)@ == old(self)@.op_erase_line(),
    {
        let row = self.cursor.row;
        if self.mode.contains(MODE_ALT_SCREEN) {
            self.alt_grid.clear_row(row);
        } else {
            self.grid.clear_row(row);
        }
        proof {
            assert(self@ =~= old(self)@.op_erase_line());
        }
    }

    /// Blanks from the cursor to the end of the screen.
    pub fn erase_display_to_end(&mut self)
        requires
            old(self).wf(),
        ensures
            final(self).wf(),
            final(self)@ == old(self)@.op_erase_display_to_end(),
    {
        self.erase_line_to_end();
        let row = self.cursor.row;
        let rows = self.active_grid().rows;
        if self.mode.contains(MODE_ALT_SCREEN) {
            self.alt_grid.clear_rows_range(row + 1, rows);
        } else {
            self.grid.clear_rows_range(row + 1, rows);
        }
        proof {
            assert(self@ =~= old(self)@.op_erase_display_to_end());
        }
    }

    /// Blanks from the start of the screen through the cursor.
    pub fn erase_display_to_start(&mut self)
        requires
            old(self).wf(),
        ensures
            final(self).wf(),
            final(self)@ == old(self)@.op_erase_display_to_start(),
    {
        self.erase_line_to_start();
        let row = self.cursor.row;
        if self.mode.contains(MODE_ALT_SCREEN) {
            self.alt_grid.clear_rows_range(0, row);
        } else {
            self.grid.clear_rows_range(0, row);
        }
        proof {
            assert(self@ =~= old(self)@.op_erase_display_to_start());
        }
    }

    /// Blanks the whole screen.
    pub fn erase_display(&mut self)
        requires
            old(self).wf(),
        ensures
            final(self).wf(),
            final(self)@ == old(self)@.op_erase_display(),
    {
        if self.mode.contains(MODE_ALT_SCREEN) {
            self.alt_grid.clear();
        } else {
            self.grid.clear();
        }
        proof {
            assert(self@ =~= old(self)@.op_erase_display());
        }
    }

    /// Switches to the alternate screen, blanking it and saving the cursor.
    pub fn enter_alt_screen(&mut self)
        requires
            old(self).wf(),
        ensures
            final(self).wf(),
            final(self)@ == old(self)@.op_enter_alt_screen(),
    {
        if !self.mode.contains(MODE_ALT_SCREEN) {
            self.mode.insert(MODE_ALT_SCREEN);
            self.alt_grid.clear();
            self.saved_cursor = self.cursor;
            proof {
                assert(self@ =~= old(self)@.op_enter_alt_screen());
            }
        }
    }

    /// Switches back to the main screen, restoring the cursor, resetting
    /// the scroll region and marking the main grid dirty.
    pub fn exit_alt_screen(&mut self)
        requires
            old(self).wf(),
        ensures
            final(self).wf(),
            final(self)@ == old(self)@.op_exit_alt_screen(),
    {
        if self.mode.contains(MODE_ALT_SCREEN) {
            self.mode.remove(MODE_ALT_SCREEN);
            self.restore_cursor();
            self.scroll_top = 0;
            self.scroll_bottom = self.grid.rows - 1;
            self.grid.mark_all_dirty();
            proof {
                assert(self@ =~= old(self)@.op_exit_alt_screen());
            }
        }
    }

    /// Resizes both grids, resets the scroll region, clamps the cursor and
    /// recomputes the tab stops.
    pub fn resize(&mut self, cols: usize, rows: usize)
        requires
            old(self).wf(),
            cols >= 1,
            rows >= 1,
            cols * rows <= usize::MAX,
        ensures
            final(self).wf(),
            final(self)@ == old(self)@.op_resize(cols as nat, rows as nat),
    {
        self.grid.resize(cols, rows);
        self.alt_grid.resize(cols, rows);
        self.scroll_top = 0;
        self.scroll_bottom = rows - 1;
        if self.cursor.col >= cols {
            self.cursor.col = cols - 1;
        }
        if self.cursor.row >= rows {
            self.cursor.row = rows - 1;
        }
        self.tabs = build_tab_stops(cols);
        proof {
            assert(self@ =~= old(self)@.op_resize(cols as nat, rows as nat));
        }
    }

    /// Dispatches a control character.
    fn handle_control_char(&mut self, c: char)
        requires
            old(self).wf(),
        ensures
            final(self).wf(),
            final(self)@ == old(self)@.op_control_char(c),
    {
        if c == '\n' {
            self.linefeed();
        } else if c == '\r' {
            self.carriage_return();
        } else if c == '\t' {
            self.tab();
        } else if c as u32 == 8 {
            self.backspace();
        }
    }

    /// Prints one character at the cursor with the current pen, wrapping or
    /// clamping at the right edge; a double-width character leaves a styled
    /// blank spacer; the cursor advances by the width.
    pub fn input_char(&mut self, c: char)
        requires
            old(self).wf(),
        ensures
            final(self).wf(),
            final(self)@ == old(self)@.op_input_char(c),
    {
        if (c as u32) < 0x20 {
            self.handle_control_char(c);
            return ;
        }
        let w = match unicode_char_width(c) {
            Some(ww) => ww,
            None => 1,
        };
        proof {
            assert(w as nat == spec_char_width(c));
        }
        let cols = self.active_grid().cols;
        if w > cols {
            return ;
        }
        if w > cols - self.cursor.col {
            if self.mode.contains(MODE_AUTO_WRAP) {
                self.cursor.col = 0;
                if self.cursor.row + 1 > self.scroll_bottom {
                    self.scroll_up(1);
                    self.cursor.row = self.scroll_bottom;
                } else {
                    self.cursor.row = self.cursor.row + 1;
                }
            } else {
                self.cursor.col = cols - w;
            }
        }
        let cell = Cell {
            character: c,
            fg: self.current_style.fg,
            bg: self.current_style.bg,
            flags: self.current_style.flags,
        };
        let col = self.cursor.col;
        let row = self.cursor.row;
        self.active_set(col, row, cell);
        if w == 2 && col + 1 < cols {
            let spacer = Cell { character: ' ', ..cell };
            self.active_set(col + 1, row, spacer);
        }
        self.cursor.col = col + w;
        proof {
            assert(self@ =~= old(self)@.op_input_char(c));
        }
    }
}


/// A cursor-moving operation, for stating laws over arbitrary sequences
/// of cursor movement between a save and a restore.
pub enum CursorOp {
    MoveTo(int, int),
    MoveBy(int, int),
    CarriageReturn,
    Backspace,
    Tab,
    Linefeed,
}

/// One cursor operation applied to the terminal.
pub open spec fn spec_apply_cursor_op(t: TermView, op: CursorOp) -> TermView {
    match op {
        CursorOp::MoveTo(col, row) => t.op_move_cursor_to(col, row),
        CursorOp::MoveBy(dc, dr) => t.op_move_cursor(dc, dr),
        CursorOp::CarriageReturn => t.op_carriage_return(),
        CursorOp::Backspace => t.op_backspace(),
        CursorOp::Tab => t.op_tab(),
        CursorOp::Linefeed => t.op_linefeed(),
    }
}

/// A sequence of cursor operations applied in order.
pub open spec fn spec_apply_cursor_ops(t: TermView, ops: Seq<CursorOp>) -> TermView
    decreases ops.len(),
{
    if ops.len() == 0 {
        t
    } else {
        spec_apply_cursor_ops(spec_apply_cursor_op(t, ops[0]), ops.drop_first())
    }
}

/// Cursor operations never touch the saved cursor, the mode bits or the
/// grids' dimensions.
pub proof fn lemma_cursor_ops_keep_saved(t: TermView, ops: Seq<CursorOp>)
    ensures
        spec_apply_cursor_ops(t, ops).saved_cursor == t.saved_cursor,
        spec_apply_cursor_ops(t, ops).mode == t.mode,
        spec_apply_cursor_ops(t, ops).grid.cols == t.grid.cols,
        spec_apply_cursor_ops(t, ops).grid.rows == t.grid.rows,
        spec_apply_cursor_ops(t, ops).alt_grid.cols == t.alt_grid.cols,
        spec_apply_cursor_ops(t, ops).alt_grid.rows == t.alt_grid.rows,
    decreases ops.len(),
{
    if ops.len() > 0 {
        lemma_cursor_ops_keep_saved(spec_apply_cursor_op(t, ops[0]), ops.drop_first());
    }
}

/// Saving the cursor, moving it arbitrarily, then restoring it brings the
/// full cursor state back (the cursor must sit strictly inside the grid,
/// as it does except immediately after printing into the last column).
pub proof fn lemma_save_restore_cursor(t: TermView, ops: Seq<CursorOp>)
    requires
        t.wf(),
        t.cursor.col < t.grid.cols,
    ensures
        spec_apply_cursor_ops(t.op_save_cursor(), ops).op_restore_cursor().cursor == t.cursor,
{
    let t1 = t.op_save_cursor();
    lemma_cursor_ops_keep_saved(t1, ops);
}

/// Entering the alternate screen and leaving it again restores the main
/// grid's content exactly and brings the cursor back (the cursor must sit
/// strictly inside the grid when the screen is entered).
pub proof fn lemma_alt_screen_round_trip(t: TermView)
    requires
        t.wf(),
        !t.alt_active(),
        t.cursor.col < t.grid.cols,
    ensures
        t.op_enter_alt_screen().op_exit_alt_screen().grid.cells == t.grid.cells,
        t.op_enter_alt_screen().op_exit_alt_screen().grid.cols == t.grid.cols,
        t.op_enter_alt_screen().op_exit_alt_screen().grid.rows == t.grid.rows,
        t.op_enter_alt_screen().op_exit_alt_screen().cursor == t.cursor,
        !t.op_enter_alt_screen().op_exit_alt_screen().alt_active(),
        t.op_enter_alt_screen().op_exit_alt_screen().scroll_top == 0,
        t.op_enter_alt_screen().op_exit_alt_screen().scroll_bottom == t.grid.rows - 1,
    {
        let m = t.mode;
        assert((m | MODE_ALT_SCREEN) & MODE_ALT_SCREEN == MODE_ALT_SCREEN) by (bit_vector);
        assert(m & MODE_ALT_SCREEN != MODE_ALT_SCREEN ==> (m | MODE_ALT_SCREEN) & !MODE_ALT_SCREEN
            == m) by (bit_vector);
    }

/// The whitespace property of a character, as the trailing-blank trim
/// sees it.  Opaque: only the trusted query below speaks for it.
pub uninterp spec fn is_whitespace_char(c: char) -> bool;

/// Relies on `char::is_whitespace`: the Unicode white-space property,
/// which holds at least of blank, newline, tab and carriage return.
#[verifier::external_body]
fn char_is_whitespace(c: char) -> (r: bool)
    ensures
        r == is_whitespace_char(c),
        (c == ' ' || c == '\n' || c == '\t' || c == '\r') ==> r,
{
    c.is_whitespace()
}

/// The characters of the selected span of one row: columns `[c0, c1]`
/// clipped to the grid, skipping NUL cells.
pub open spec fn spec_row_text(g: GridView, row: int, c0: int, c1: int) -> Seq<char>
    decreases c1 + 1 - c0,
{
    if c0 > c1 || c0 >= g.cols {
        Seq::empty()
    } else {
        let ch = g.at(c0, row).character;
        (if ch != '\u{0}' {
            seq![ch]
        } else {
            Seq::empty()
        }) + spec_row_text(g, row, c0 + 1, c1)
    }
}

/// The characters of the rows `[row, end.1]` of a selection ordered as
/// `(start, end)`, with a newline after every row but the last.
pub open spec fn spec_selected_rows(
    g: GridView,
    start: (usize, usize),
    end: (usize, usize),
    row: int,
) -> Seq<char>
    decreases end.1 + 1 - row,
{
    if row > end.1 || row >= g.rows || row < 0 {
        Seq::empty()
    } else {
        let c0: int = if row == start.1 {
            start.0 as int
        } else {
            0
        };
        let c1: int = if row == end.1 {
            end.0 as int
        } else {
            g.cols - 1
        };
        spec_row_text(g, row, c0, c1) + (if row < end.1 {
            seq!['\n']
        } else {
            Seq::empty()
        }) + spec_selected_rows(g, start, end, row + 1)
    }
}

/// The text with its trailing whitespace removed.
pub open spec fn spec_trim_end(s: Seq<char>) -> Seq<char>
    decreases s.len(),
{
    if s.len() > 0 && is_whitespace_char(s.last()) {
        spec_trim_end(s.drop_last())
    } else {
        s
    }
}

/// Collects the selected span of one row.
fn row_text(g: &Grid, row: usize, c0: usize, c1: usize) -> (v: Vec<char>)
    requires
        g.wf(),
        row < g@.rows,
    ensures
        v@ == spec_row_text(g@, row as int, c0 as int, c1 as int),
    decreases c1 + 1 - c0,
{
    let mut v: Vec<char> = Vec::new();
    if c0 > c1 || c0 >= g.cols {
        return v;
    }
    let cell = match g.get(c0, row) {
        Some(c) => *c,
        None => Cell::default(),
    };
    if cell.character != '\u{0}' {
        v.push(cell.character);
    }
    let mut rest = row_text(g, row, c0 + 1, c1);
    v.append(&mut rest);
    proof {
        assert(v@ =~= spec_row_text(g@, row as int, c0 as int, c1 as int));
    }
    v
}

/// Collects the selected rows from `row` down, newline-separated.
fn selected_rows(g: &Grid, start: (usize, usize), end: (usize, usize), row: usize) -> (v: Vec<
    char,
>)
    requires
        g.wf(),
    ensures
        v@ == spec_selected_rows(g@, start, end, row as int),
    decreases end.1 + 1 - row,
{
    let mut v: Vec<char> = Vec::new();
    if row > end.1 || row >= g.rows {
        return v;
    }
    let c0 = if row == start.1 {
        start.0
    } else {
        0
    };
    let c1 = if row == end.1 {
        end.0
    } else {
        g.cols - 1
    };
    let mut t = row_text(g, row, c0, c1);
    v.append(&mut t);
    if row < end.1 {
        v.push('\n');
    }
    let mut rest = selected_rows(g, start, end, row + 1);
    v.append(&mut rest);
    proof {
        assert(v@ =~= spec_selected_rows(g@, start, end, row as int));
    }
    v
}

impl Terminal {
    /// The selected text of the active grid: the cells of the ordered
    /// selection range joined with newlines, trailing whitespace removed;
    /// `None` without a selection or when nothing remains.
    pub fn get_selected_text(&self) -> (r: Option<String>)
        requires
            self.wf(),
        ensures
            !self@.selection.spec_has_selection() ==> r is None,
            self@.selection.spec_has_selection() ==> ({
                let (start, end) = self@.selection.spec_ordered();
                let text = spec_trim_end(
                    spec_selected_rows(self@.active(), start, end, start.1 as int),
                );
                if text.len() == 0 {
                    r is None
                } else {
                    r matches Some(s) && s@ == text
                }
            }),
    {
        let (start, end) = match (self.selection.start, self.selection.end) {
            (Some(s), Some(e)) => {
                if s.1 < e.1 || (s.1 == e.1 && s.0 <= e.0) {
                    (s, e)
                } else {
                    (e, s)
                }
            },
            _ => {
                return None;
            },
        };
        let grid = self.active_grid();
        let mut text = selected_rows(grid, start, end, start.1);
        while text.len() > 0 && char_is_whitespace(text[text.len() - 1])
            invariant
                spec_trim_end(text@) == spec_trim_end(
                    spec_selected_rows(self@.active(), start, end, start.1 as int),
                ),
            decreases text@.len(),
        {
            proof {
                assert(text@.last() == text@[text@.len() - 1]);
            }
            let ghost pre = text@;
            text.pop();
            proof {
                assert(text@ =~= pre.drop_last());
            }
        }
        proof {
            assert(spec_trim_end(text@) == text@);
        }
        if text.len() == 0 {
            None
        } else {
            Some(crate::parser::string_from_chars(&text))
        }
    }
}

} // verus!

//! Flat grid snapshots.
//!
//! - [`CellSnapshot`] / [`GridSnapshot`] carry colours already resolved to
//!   `0xRRGGBBAA` under some palette.
//! - [`RawCellSnapshot`] / [`RawGridSnapshot`] keep the colour intent
//!   ([`BtCellColor`]) so a palette change can re-resolve them losslessly.

use vstd::prelude::*;
use crate::palette::{
    BtRgb24, NamedColor, Palette, TermColor, ansi_slot, default_indexed, is_background, pack_rgba,
    spec_color_rgba, spec_default_indexed, spec_named_rgb, spec_pack_rgba,
};

verus! {

/// One resolved cell.
#[derive(Clone, Copy, Debug)]
pub struct CellSnapshot {
    /// Unicode scalar of the cell; 0 = blank (and the trailing half of a
    /// wide character).
    pub ch: u32,
    /// Foreground colour, `0xRRGGBBAA`.
    pub fg_rgba: u32,
    /// Background colour, `0xRRGGBBAA`.
    pub bg_rgba: u32,
    /// 1=bold, 2=underline, 4=inverse, 8=italic, 16=wide leading half,
    /// 32=wide trailing half.
    pub flags: u16,
}

/// A row-major block of resolved cells.
#[derive(Debug, Clone)]
pub struct GridSnapshot {
    pub cols: u16,
    pub rows: u16,
    pub cursor_col: u16,
    /// Visible row of the cursor; equal to `rows` when the cursor is
    /// outside the visible rows.
    pub cursor_row: u16,
    /// Scroll position: 0 = live bottom, N = N rows up into history.
    pub display_offset: u32,
    pub cells: Vec<CellSnapshot>,
}

impl GridSnapshot {
    /// The cell at `(col, row)`: `None` outside `cols × rows` or past the
    /// end of `cells`.
    pub fn cell(&self, col: u16, row: u16) -> (r: Option<&CellSnapshot>)
        ensures
            r == (if col < self.cols && row < self.rows
                && row as int * self.cols as int + col < self.cells@.len() {
                Some(&self.cells@[row as int * self.cols as int + col])
            } else {
                None
            }),
    {
        if col >= self.cols || row >= self.rows {
            return None;
        }
        assert(row as int * self.cols as int <= 65535 * 65535) by (nonlinear_arith)
            requires
                row < 65536,
                self.cols < 65536;
        let idx = row as usize * self.cols as usize + col as usize;
        if idx < self.cells.len() {
            Some(&self.cells[idx])
        } else {
            None
        }
    }
}

pub const SLOT_FOREGROUND: u8 = 0;
pub const SLOT_BACKGROUND: u8 = 1;
pub const SLOT_BLACK: u8 = 2;
pub const SLOT_BRIGHT_WHITE: u8 = 17;

/// Palette-agnostic cell colour in four bytes:
/// - `kind = 0` (named): `v0` is a slot — 0 foreground, 1 background,
///   2..=17 the 16 ANSI colours;
/// - `kind = 1` (indexed): `v0` is the 256-colour index;
/// - `kind = 2` (spec): `(v0, v1, v2)` is the RGB triple.
#[derive(Clone, Copy, Debug, PartialEq, Eq, Structural)]
pub struct BtCellColor {
    pub kind: u8,
    pub v0: u8,
    pub v1: u8,
    pub v2: u8,
}

/// RGB that a named slot reads from `p`.
pub open spec fn spec_slot_rgb(slot: u8, p: Palette) -> BtRgb24 {
    if slot == SLOT_BACKGROUND {
        p.default_bg
    } else if SLOT_BLACK <= slot <= SLOT_BRIGHT_WHITE {
        p.ansi@[slot - SLOT_BLACK]
    } else {
        p.default_fg
    }
}

/// `0xRRGGBBAA` of a cell colour under `p`; unknown kinds read the default
/// foreground.
pub open spec fn spec_resolve(c: BtCellColor, p: Palette) -> u32 {
    spec_pack_rgba(
        if c.kind == 0 {
            spec_slot_rgb(c.v0, p)
        } else if c.kind == 1 {
            if c.v0 < 16 { p.ansi@[c.v0 as int] } else { spec_default_indexed(c.v0) }
        } else if c.kind == 2 {
            BtRgb24 { r: c.v0, g: c.v1, b: c.v2 }
        } else {
            p.default_fg
        },
    )
}

/// The slot a named colour is stored under: dim variants share their
/// regular colour's slot; foreground, bright/dim foreground, cursor share
/// the foreground slot.
pub open spec fn spec_named_slot(n: NamedColor) -> u8 {
    match ansi_slot(n) {
        Some(k) => (k + 2) as u8,
        None => if is_background(n) { SLOT_BACKGROUND } else { SLOT_FOREGROUND },
    }
}

/// Palette-agnostic form of a cell colour.
pub open spec fn spec_cell_color_from(c: TermColor) -> BtCellColor {
    match c {
        TermColor::Spec(x) => BtCellColor { kind: 2, v0: x.r, v1: x.g, v2: x.b },
        TermColor::Indexed(i) => BtCellColor { kind: 1, v0: i, v1: 0, v2: 0 },
        TermColor::Named(n) => BtCellColor { kind: 0, v0: spec_named_slot(n), v1: 0, v2: 0 },
    }
}

/// The slot a named colour is stored under.
pub fn named_slot(n: NamedColor) -> (s: u8)
    ensures
        s == spec_named_slot(n),
{
    match n {
        NamedColor::Black | NamedColor::DimBlack => 2,
        NamedColor::Red | NamedColor::DimRed => 3,
        NamedColor::Green | NamedColor::DimGreen => 4,
        NamedColor::Yellow | NamedColor::DimYellow => 5,
        NamedColor::Blue | NamedColor::DimBlue => 6,
        NamedColor::Magenta | NamedColor::DimMagenta => 7,
        NamedColor::Cyan | NamedColor::DimCyan => 8,
        NamedColor::White | NamedColor::DimWhite => 9,
        NamedColor::BrightBlack => 10,
        NamedColor::BrightRed => 11,
        NamedColor::BrightGreen => 12,
        NamedColor::BrightYellow => 13,
        NamedColor::BrightBlue => 14,
        NamedColor::BrightMagenta => 15,
        NamedColor::BrightCyan => 16,
        NamedColor::BrightWhite => 17,
        NamedColor::Background => SLOT_BACKGROUND,
        _ => SLOT_FOREGROUND,
    }
}

/// Palette-agnostic form of a cell colour.
pub fn cell_color_from(c: TermColor) -> (r: BtCellColor)
    ensures
        r == spec_cell_color_from(c),
{
    match c {
        TermColor::Spec(x) => BtCellColor::spec(x.r, x.g, x.b),
        TermColor::Indexed(i) => BtCellColor::indexed(i),
        TermColor::Named(n) => BtCellColor::named(named_slot(n)),
    }
}

/// RGB that a named slot reads from `p`.
pub fn named_from_slot(slot: u8, p: &Palette) -> (c: BtRgb24)
    ensures
        c == spec_slot_rgb(slot, *p),
{
    if slot == SLOT_BACKGROUND {
        p.default_bg
    } else if slot >= SLOT_BLACK && slot <= SLOT_BRIGHT_WHITE {
        p.ansi[(slot - SLOT_BLACK) as usize]
    } else {
        p.default_fg
    }
}

impl BtCellColor {
    pub fn named(slot: u8) -> (c: BtCellColor)
        ensures
            c == (BtCellColor { kind: 0, v0: slot, v1: 0, v2: 0 }),
    {
        BtCellColor { kind: 0, v0: slot, v1: 0, v2: 0 }
    }

    pub fn indexed(i: u8) -> (c: BtCellColor)
        ensures
            c == (BtCellColor { kind: 1, v0: i, v1: 0, v2: 0 }),
    {
        BtCellColor { kind: 1, v0: i, v1: 0, v2: 0 }
    }

    pub fn spec(r: u8, g: u8, b: u8) -> (c: BtCellColor)
        ensures
            c == (BtCellColor { kind: 2, v0: r, v1: g, v2: b }),
    {
        BtCellColor { kind: 2, v0: r, v1: g, v2: b }
    }

    /// Flatten to `0xRRGGBBAA` under `palette`.
    pub fn resolve(self, palette: &Palette) -> (v: u32)
        ensures
            v == spec_resolve(self, *palette),
    {
        let rgb = if self.kind == 0 {
            named_from_slot(self.v0, palette)
        } else if self.kind == 1 {
            if self.v0 < 16 { palette.ansi[self.v0 as usize] } else { default_indexed(self.v0) }
        } else if self.kind == 2 {
            BtRgb24 { r: self.v0, g: self.v1, b: self.v2 }
        } else {
            palette.default_fg
        };
        pack_rgba(rgb)
    }
}

/// Storing a colour palette-agnostically and resolving it later gives the
/// same RGBA as resolving it directly, under every palette.
pub proof fn lemma_resolve_matches_direct(c: TermColor, p: Palette)
    ensures
        spec_resolve(spec_cell_color_from(c), p) == spec_color_rgba(c, p),
{
    match c {
        TermColor::Named(n) => {
            assert(spec_slot_rgb(spec_named_slot(n), p) == spec_named_rgb(n, p));
        },
        _ => {},
    }
}

/// A cell with unresolved colours.
#[derive(Clone, Copy, Debug)]
pub struct RawCellSnapshot {
    pub ch: u32,
    pub fg: BtCellColor,
    pub bg: BtCellColor,
    pub flags: u16,
}

/// A row-major block of cells with unresolved colours.
#[derive(Debug, Clone)]
pub struct RawGridSnapshot {
    pub cols: u16,
    pub rows: u16,
    pub cursor_col: u16,
    pub cursor_row: u16,
    pub display_offset: u32,
    pub cells: Vec<RawCellSnapshot>,
}

/// `c` resolved under `p`.
pub open spec fn resolved_cell(c: RawCellSnapshot, p: Palette) -> CellSnapshot {
    CellSnapshot { ch: c.ch, fg_rgba: spec_resolve(c.fg, p), bg_rgba: spec_resolve(c.bg, p), flags: c.flags }
}

impl RawGridSnapshot {
    /// The same grid with every colour resolved under `palette`.
    pub fn resolve(&self, palette: &Palette) -> (g: GridSnapshot)
        ensures
            g.cols == self.cols,
            g.rows == self.rows,
            g.cursor_col == self.cursor_col,
            g.cursor_row == self.cursor_row,
            g.display_offset == self.display_offset,
            g.cells@ == self.cells@.map_values(|c: RawCellSnapshot| resolved_cell(c, *palette)),
    {
        let mut cells: Vec<CellSnapshot> = Vec::new();
        let mut i: usize = 0;
        while i < self.cells.len()
            invariant
                0 <= i <= self.cells@.len(),
                cells@ == self.cells@.subrange(0, i as int).map_values(
                    |c: RawCellSnapshot| resolved_cell(c, *palette)),
            decreases self.cells@.len() - i,
        {
            let c = self.cells[i];
            cells.push(CellSnapshot {
                ch: c.ch,
                fg_rgba: c.fg.resolve(palette),
                bg_rgba: c.bg.resolve(palette),
                flags: c.flags,
            });
            i = i + 1;
            assert(cells@ =~= self.cells@.subrange(0, i as int).map_values(
                |c: RawCellSnapshot| resolved_cell(c, *palette)));
        }
        assert(self.cells@.subrange(0, i as int) =~= self.cells@);
        GridSnapshot {
            cols: self.cols,
            rows: self.rows,
            cursor_col: self.cursor_col,
            cursor_row: self.cursor_row,
            display_offset: self.display_offset,
            cells,
        }
    }
}

} // verus!

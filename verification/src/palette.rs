//! Colours: the 18-entry terminal palette, the legacy default colours and
//! the xterm 256-colour fallback.

use vstd::prelude::*;

verus! {

/// 8-bit-per-channel sRGB triple.
#[derive(Clone, Copy, Debug, PartialEq, Eq, Structural)]
pub struct BtRgb24 {
    pub r: u8,
    pub g: u8,
    pub b: u8,
}

pub open spec fn rgb(r: u8, g: u8, b: u8) -> BtRgb24 {
    BtRgb24 { r, g, b }
}

/// 18-colour terminal palette: the 16 ANSI indices plus the two defaults.
#[derive(Clone, Copy, Debug, PartialEq, Eq)]
pub struct Palette {
    pub default_fg: BtRgb24,
    pub default_bg: BtRgb24,
    pub ansi: [BtRgb24; 16],
}

/// The named colours a terminal program can select.
#[derive(Clone, Copy, Debug, PartialEq, Eq, Structural)]
pub enum NamedColor {
    Black,
    Red,
    Green,
    Yellow,
    Blue,
    Magenta,
    Cyan,
    White,
    BrightBlack,
    BrightRed,
    BrightGreen,
    BrightYellow,
    BrightBlue,
    BrightMagenta,
    BrightCyan,
    BrightWhite,
    Foreground,
    Background,
    Cursor,
    DimBlack,
    DimRed,
    DimGreen,
    DimYellow,
    DimBlue,
    DimMagenta,
    DimCyan,
    DimWhite,
    BrightForeground,
    DimForeground,
}

/// A cell colour as a terminal program set it: a named colour, an explicit
/// RGB value, or an index into the 256-colour table.
#[derive(Clone, Copy, Debug, PartialEq, Eq, Structural)]
pub enum TermColor {
    Named(NamedColor),
    Spec(BtRgb24),
    Indexed(u8),
}

/// The palette slot a named colour reads from: `Some(k)` for ANSI slot `k`,
/// `None` for the default foreground / background pair (see
/// [`is_background`]). Dim variants collapse onto their regular colour.
pub open spec fn ansi_slot(n: NamedColor) -> Option<int> {
    match n {
        NamedColor::Black | NamedColor::DimBlack => Some(0),
        NamedColor::Red | NamedColor::DimRed => Some(1),
        NamedColor::Green | NamedColor::DimGreen => Some(2),
        NamedColor::Yellow | NamedColor::DimYellow => Some(3),
        NamedColor::Blue | NamedColor::DimBlue => Some(4),
        NamedColor::Magenta | NamedColor::DimMagenta => Some(5),
        NamedColor::Cyan | NamedColor::DimCyan => Some(6),
        NamedColor::White | NamedColor::DimWhite => Some(7),
        NamedColor::BrightBlack => Some(8),
        NamedColor::BrightRed => Some(9),
        NamedColor::BrightGreen => Some(10),
        NamedColor::BrightYellow => Some(11),
        NamedColor::BrightBlue => Some(12),
        NamedColor::BrightMagenta => Some(13),
        NamedColor::BrightCyan => Some(14),
        NamedColor::BrightWhite => Some(15),
        _ => None,
    }
}

pub open spec fn is_background(n: NamedColor) -> bool {
    n == NamedColor::Background
}

/// RGB of a named colour under palette `p`: ANSI slot, default background,
/// or (foreground, cursor and anything else) default foreground.
pub open spec fn spec_named_rgb(n: NamedColor, p: Palette) -> BtRgb24 {
    match ansi_slot(n) {
        Some(k) => p.ansi@[k],
        None => if is_background(n) { p.default_bg } else { p.default_fg },
    }
}

/// The built-in colour of an ANSI slot.
pub open spec fn legacy_ansi(k: int) -> BtRgb24 {
    if k == 0 { rgb(0x00, 0x00, 0x00) }
    else if k == 1 { rgb(0xCC, 0x33, 0x33) }
    else if k == 2 { rgb(0x33, 0xCC, 0x33) }
    else if k == 3 { rgb(0xCC, 0xCC, 0x33) }
    else if k == 4 { rgb(0x33, 0x66, 0xCC) }
    else if k == 5 { rgb(0xCC, 0x33, 0xCC) }
    else if k == 6 { rgb(0x33, 0xCC, 0xCC) }
    else if k == 7 { rgb(0xCC, 0xCC, 0xCC) }
    else if k == 8 { rgb(0x55, 0x55, 0x55) }
    else if k == 9 { rgb(0xFF, 0x55, 0x55) }
    else if k == 10 { rgb(0x55, 0xFF, 0x55) }
    else if k == 11 { rgb(0xFF, 0xFF, 0x55) }
    else if k == 12 { rgb(0x55, 0x55, 0xFF) }
    else if k == 13 { rgb(0xFF, 0x55, 0xFF) }
    else if k == 14 { rgb(0x55, 0xFF, 0xFF) }
    else { rgb(0xFF, 0xFF, 0xFF) }
}

/// The built-in colour of a named colour: its ANSI slot's colour, black for
/// the background, light grey for everything else.
pub open spec fn spec_legacy_named(n: NamedColor) -> BtRgb24 {
    match ansi_slot(n) {
        Some(k) => legacy_ansi(k),
        None => if is_background(n) { rgb(0, 0, 0) } else { rgb(0xCC, 0xCC, 0xCC) },
    }
}

/// One channel of the 6×6×6 colour cube.
pub open spec fn cube_level(v: int) -> int {
    if v == 0 { 0 } else { 55 + v * 40 }
}

/// The xterm 256-colour table: indices 0..16 are the built-in ANSI
/// colours, 16..232 the 6×6×6 cube, 232..256 a greyscale ramp.
pub open spec fn spec_default_indexed(i: u8) -> BtRgb24 {
    if i < 16 {
        legacy_ansi(i as int)
    } else if i < 232 {
        let idx = i - 16;
        rgb(cube_level(idx / 36) as u8, cube_level((idx / 6) % 6) as u8, cube_level(idx % 6) as u8)
    } else {
        let level = (8 + (i - 232) * 10) as u8;
        rgb(level, level, level)
    }
}

/// Pack a colour as `0xRRGGBBAA` with full alpha.
pub open spec fn spec_pack_rgba(c: BtRgb24) -> u32 {
    ((c.r as u32) * 0x1000000 + (c.g as u32) * 0x10000 + (c.b as u32) * 0x100 + 0xFF) as u32
}

/// RGBA of a cell colour under palette `p`.
pub open spec fn spec_color_rgba(c: TermColor, p: Palette) -> u32 {
    spec_pack_rgba(match c {
        TermColor::Spec(x) => x,
        TermColor::Named(n) => spec_named_rgb(n, p),
        TermColor::Indexed(i) => if i < 16 { p.ansi@[i as int] } else { spec_default_indexed(i) },
    })
}

fn ansi_slot_exec(n: NamedColor) -> (r: Option<usize>)
    ensures
        match r {
            Some(k) => ansi_slot(n) == Some(k as int) && k < 16,
            None => ansi_slot(n) is None,
        },
{
    match n {
        NamedColor::Black | NamedColor::DimBlack => Some(0),
        NamedColor::Red | NamedColor::DimRed => Some(1),
        NamedColor::Green | NamedColor::DimGreen => Some(2),
        NamedColor::Yellow | NamedColor::DimYellow => Some(3),
        NamedColor::Blue | NamedColor::DimBlue => Some(4),
        NamedColor::Magenta | NamedColor::DimMagenta => Some(5),
        NamedColor::Cyan | NamedColor::DimCyan => Some(6),
        NamedColor::White | NamedColor::DimWhite => Some(7),
        NamedColor::BrightBlack => Some(8),
        NamedColor::BrightRed => Some(9),
        NamedColor::BrightGreen => Some(10),
        NamedColor::BrightYellow => Some(11),
        NamedColor::BrightBlue => Some(12),
        NamedColor::BrightMagenta => Some(13),
        NamedColor::BrightCyan => Some(14),
        NamedColor::BrightWhite => Some(15),
        _ => None,
    }
}

fn legacy_ansi_exec(k: usize) -> (c: BtRgb24)
    requires
        k < 16,
    ensures
        c == legacy_ansi(k as int),
{
    if k == 0 { BtRgb24 { r: 0x00, g: 0x00, b: 0x00 } }
    else if k == 1 { BtRgb24 { r: 0xCC, g: 0x33, b: 0x33 } }
    else if k == 2 { BtRgb24 { r: 0x33, g: 0xCC, b: 0x33 } }
    else if k == 3 { BtRgb24 { r: 0xCC, g: 0xCC, b: 0x33 } }
    else if k == 4 { BtRgb24 { r: 0x33, g: 0x66, b: 0xCC } }
    else if k == 5 { BtRgb24 { r: 0xCC, g: 0x33, b: 0xCC } }
    else if k == 6 { BtRgb24 { r: 0x33, g: 0xCC, b: 0xCC } }
    else if k == 7 { BtRgb24 { r: 0xCC, g: 0xCC, b: 0xCC } }
    else if k == 8 { BtRgb24 { r: 0x55, g: 0x55, b: 0x55 } }
    else if k == 9 { BtRgb24 { r: 0xFF, g: 0x55, b: 0x55 } }
    else if k == 10 { BtRgb24 { r: 0x55, g: 0xFF, b: 0x55 } }
    else if k == 11 { BtRgb24 { r: 0xFF, g: 0xFF, b: 0x55 } }
    else if k == 12 { BtRgb24 { r: 0x55, g: 0x55, b: 0xFF } }
    else if k == 13 { BtRgb24 { r: 0xFF, g: 0x55, b: 0xFF } }
    else if k == 14 { BtRgb24 { r: 0x55, g: 0xFF, b: 0xFF } }
    else { BtRgb24 { r: 0xFF, g: 0xFF, b: 0xFF } }
}

/// The built-in colour of a named colour (the no-host-yet fallback).
pub fn legacy_default_named(n: NamedColor) -> (c: BtRgb24)
    ensures
        c == spec_legacy_named(n),
{
    match ansi_slot_exec(n) {
        Some(k) => legacy_ansi_exec(k),
        None => match n {
            NamedColor::Background => BtRgb24 { r: 0, g: 0, b: 0 },
            _ => BtRgb24 { r: 0xCC, g: 0xCC, b: 0xCC },
        },
    }
}

/// The xterm 256-colour table entry for index `i`.
pub fn default_indexed(i: u8) -> (c: BtRgb24)
    ensures
        c == spec_default_indexed(i),
{
    if i < 16 {
        return legacy_ansi_exec(i as usize);
    }
    if i < 232 {
        let idx = i - 16;
        let b_idx = idx % 6;
        let g_idx = (idx / 6) % 6;
        let r_idx = idx / 36;
        return BtRgb24 { r: cube_level_exec(r_idx), g: cube_level_exec(g_idx), b: cube_level_exec(b_idx) };
    }
    let level = 8 + (i - 232) * 10;
    BtRgb24 { r: level, g: level, b: level }
}

fn cube_level_exec(v: u8) -> (r: u8)
    requires
        v < 6,
    ensures
        r == cube_level(v as int),
{
    if v == 0 { 0 } else { 55 + v * 40 }
}

/// RGB of a named colour under `p`.
pub fn named_from_palette(n: NamedColor, p: &Palette) -> (c: BtRgb24)
    ensures
        c == spec_named_rgb(n, *p),
{
    match ansi_slot_exec(n) {
        Some(k) => p.ansi[k],
        None => match n {
            NamedColor::Background => p.default_bg,
            _ => p.default_fg,
        },
    }
}

/// Pack a colour as `0xRRGGBBAA` with full alpha.
pub fn pack_rgba(c: BtRgb24) -> (v: u32)
    ensures
        v == spec_pack_rgba(c),
{
    let r = c.r;
    let g = c.g;
    let b = c.b;
    let v = ((r as u32) << 24) | ((g as u32) << 16) | ((b as u32) << 8) | 0xFF;
    assert(v == ((r as u32) * 0x1000000 + (g as u32) * 0x10000 + (b as u32) * 0x100 + 0xFF) as u32)
        by (bit_vector)
        requires
            v == ((r as u32) << 24) | ((g as u32) << 16) | ((b as u32) << 8) | 0xFF;
    v
}

/// Resolve a cell colour to `0xRRGGBBAA` under `palette`. Indices below 16
/// read the palette; higher indices use the fixed 256-colour table.
pub fn color_to_rgba(c: TermColor, palette: &Palette) -> (v: u32)
    ensures
        v == spec_color_rgba(c, *palette),
{
    let rgb = match c {
        TermColor::Spec(x) => x,
        TermColor::Named(n) => named_from_palette(n, palette),
        TermColor::Indexed(i) => if i < 16 { palette.ansi[i as usize] } else { default_indexed(i) },
    };
    pack_rgba(rgb)
}

impl Palette {
    /// Which colour a palette gives each named colour.
    pub open spec fn is_legacy(self) -> bool {
        &&& self.default_fg == rgb(0xCC, 0xCC, 0xCC)
        &&& self.default_bg == rgb(0, 0, 0)
        &&& forall|k: int| 0 <= k < 16 ==> #[trigger] self.ansi@[k] == legacy_ansi(k)
    }
}

impl Default for Palette {
    /// The built-in palette: every named colour resolves to its legacy value.
    fn default() -> (p: Palette)
        ensures
            p.is_legacy(),
    {
        let mut ansi = [BtRgb24 { r: 0, g: 0, b: 0 }; 16];
        let mut k: usize = 0;
        while k < 16
            invariant
                0 <= k <= 16,
                forall|j: int| 0 <= j < k ==> #[trigger] ansi@[j] == legacy_ansi(j),
            decreases 16 - k,
        {
            ansi[k] = legacy_ansi_exec(k);
            k = k + 1;
        }
        Palette {
            default_fg: legacy_default_named(NamedColor::Foreground),
            default_bg: legacy_default_named(NamedColor::Background),
            ansi,
        }
    }
}

/// Flat host view of a [`Palette`]: the two defaults, then the 16 ANSI colours.
#[derive(Clone, Copy, Debug, PartialEq, Eq)]
pub struct BtPaletteView {
    pub default_fg: BtRgb24,
    pub default_bg: BtRgb24,
    pub ansi: [BtRgb24; 16],
}

impl BtPaletteView {
    /// The palette this view describes.
    pub fn to_palette(&self) -> (p: Palette)
        ensures
            p.default_fg == self.default_fg,
            p.default_bg == self.default_bg,
            p.ansi@ == self.ansi@,
    {
        Palette { default_fg: self.default_fg, default_bg: self.default_bg, ansi: self.ansi }
    }
}

} // verus!

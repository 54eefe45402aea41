//! Named palettes and device presets of the rendering tools, and the
//! `WxH` dimension syntax of their command lines.

use vstd::prelude::*;
use vstd::string::StringSliceAdditionalSpecFns;
use crate::bytes::bytes_eq;
use crate::palette::{BtRgb24, Palette, rgb};
use crate::text::{parse_unsigned, spec_parse_unsigned};

verus! {

// ---------------------------------------------------------------------------
// Palettes
// ---------------------------------------------------------------------------

/// A built-in colour scheme.
#[derive(Clone, Copy, Debug, PartialEq, Eq, Structural)]
pub enum PalettePreset {
    Default,
    TokyoNight,
    SolarizedDark,
    SolarizedLight,
    Dracula,
    GruvboxDark,
}

/// The colour `0xRRGGBB`.
pub open spec fn hex_rgb(h: u32) -> BtRgb24 {
    BtRgb24 { r: ((h >> 16u32) & 0xff) as u8, g: ((h >> 8u32) & 0xff) as u8, b: (h & 0xff) as u8 }
}

/// `p` has foreground `fg`, background `bg` and ANSI colours `hexes`.
pub open spec fn is_palette_from(p: Palette, fg: (u8, u8, u8), bg: (u8, u8, u8), hexes: Seq<u32>) -> bool {
    &&& p.default_fg == rgb(fg.0, fg.1, fg.2)
    &&& p.default_bg == rgb(bg.0, bg.1, bg.2)
    &&& forall|k: int| 0 <= k < 16 ==> #[trigger] p.ansi@[k] == hex_rgb(hexes[k])
}

fn hex_rgb_exec(h: u32) -> (c: BtRgb24)
    ensures
        c == hex_rgb(h),
{
    assert(((h >> 16u32) & 0xff) < 256) by (bit_vector);
    assert(((h >> 8u32) & 0xff) < 256) by (bit_vector);
    assert((h & 0xff) < 256) by (bit_vector);
    BtRgb24 { r: ((h >> 16u32) & 0xff) as u8, g: ((h >> 8u32) & 0xff) as u8, b: (h & 0xff) as u8 }
}

/// The name a preset is selected by. The two app palettes, `bedterm-dark`
/// (the tool's default) and `bedterm-light`, are rendered with the built-in
/// default colours.
pub open spec fn spec_preset_named(b: Seq<u8>) -> Option<PalettePreset> {
    if b == "default".spec_bytes() || b == "bedterm-dark".spec_bytes() || b == "bedterm-light".spec_bytes() {
        Some(PalettePreset::Default)
    } else if b == "tokyo-night".spec_bytes() {
        Some(PalettePreset::TokyoNight)
    } else if b == "solarized-dark".spec_bytes() {
        Some(PalettePreset::SolarizedDark)
    } else if b == "solarized-light".spec_bytes() {
        Some(PalettePreset::SolarizedLight)
    } else if b == "dracula".spec_bytes() {
        Some(PalettePreset::Dracula)
    } else if b == "gruvbox-dark".spec_bytes() {
        Some(PalettePreset::GruvboxDark)
    } else {
        None
    }
}

/// The ANSI colours of a non-default preset.
pub open spec fn preset_hexes(p: PalettePreset) -> Seq<u32> {
    match p {
        PalettePreset::Default => Seq::empty(),
        PalettePreset::TokyoNight => seq![0x1a1b26u32, 0xf7768e, 0x9ece6a, 0xe0af68, 0x7aa2f7, 0xbb9af7, 0x7dcfff, 0xa9b1d6, 0x414868, 0xf7768e, 0x9ece6a, 0xe0af68, 0x7aa2f7, 0xbb9af7, 0x7dcfff, 0xc0caf5],
        PalettePreset::SolarizedDark => seq![0x073642u32, 0xdc322f, 0x859900, 0xb58900, 0x268bd2, 0xd33682, 0x2aa198, 0xeee8d5, 0x002b36, 0xcb4b16, 0x586e75, 0x657b83, 0x839496, 0x6c71c4, 0x93a1a1, 0xfdf6e3],
        PalettePreset::SolarizedLight => seq![0xeee8d5u32, 0xdc322f, 0x859900, 0xb58900, 0x268bd2, 0xd33682, 0x2aa198, 0x073642, 0xfdf6e3, 0xcb4b16, 0x93a1a1, 0x839496, 0x657b83, 0x6c71c4, 0x586e75, 0x002b36],
        PalettePreset::Dracula => seq![0x21222cu32, 0xff5555, 0x50fa7b, 0xf1fa8c, 0xbd93f9, 0xff79c6, 0x8be9fd, 0xf8f8f2, 0x6272a4, 0xff6e6e, 0x69ff94, 0xffffa5, 0xd6acff, 0xff92df, 0xa4ffff, 0xffffff],
        PalettePreset::GruvboxDark => seq![0x282828u32, 0xcc241d, 0x98971a, 0xd79921, 0x458588, 0xb16286, 0x689d6a, 0xa89984, 0x928374, 0xfb4934, 0xb8bb26, 0xfabd2f, 0x83a598, 0xd3869b, 0x8ec07c, 0xebdbb2],
    }
}

/// Foreground and background of a non-default preset.
pub open spec fn preset_fg_bg(p: PalettePreset) -> ((u8, u8, u8), (u8, u8, u8)) {
    match p {
        PalettePreset::Default => ((0, 0, 0), (0, 0, 0)),
        PalettePreset::TokyoNight => ((0xc0, 0xca, 0xf5), (0x24, 0x28, 0x3b)),
        PalettePreset::SolarizedDark => ((0x83, 0x94, 0x96), (0x00, 0x2b, 0x36)),
        PalettePreset::SolarizedLight => ((0x65, 0x7b, 0x83), (0xfd, 0xf6, 0xe3)),
        PalettePreset::Dracula => ((0xf8, 0xf8, 0xf2), (0x28, 0x2a, 0x36)),
        PalettePreset::GruvboxDark => ((0xeb, 0xdb, 0xb2), (0x28, 0x28, 0x28)),
    }
}

/// The name that selects a preset on the command line.
pub open spec fn preset_name(p: PalettePreset) -> Seq<u8> {
    match p {
        PalettePreset::Default => "default".spec_bytes(),
        PalettePreset::TokyoNight => "tokyo-night".spec_bytes(),
        PalettePreset::SolarizedDark => "solarized-dark".spec_bytes(),
        PalettePreset::SolarizedLight => "solarized-light".spec_bytes(),
        PalettePreset::Dracula => "dracula".spec_bytes(),
        PalettePreset::GruvboxDark => "gruvbox-dark".spec_bytes(),
    }
}

/// Each preset's own name selects that preset, and a name that selects a
/// preset other than the default is that preset's name: name lookup
/// inverts naming.
pub proof fn law_preset_names_select_their_presets(p: PalettePreset, b: Seq<u8>)
    ensures
        spec_preset_named(preset_name(p)) == Some(p),
        spec_preset_named(b) == Some(p) && p != PalettePreset::Default ==> b == preset_name(p),
{
    reveal_strlit("default");
    vstd::string::is_ascii_spec_bytes("default");
    assert(vstd::string::is_ascii("default"));
    reveal_strlit("tokyo-night");
    vstd::string::is_ascii_spec_bytes("tokyo-night");
    assert(vstd::string::is_ascii("tokyo-night"));
    reveal_strlit("solarized-dark");
    vstd::string::is_ascii_spec_bytes("solarized-dark");
    assert(vstd::string::is_ascii("solarized-dark"));
    reveal_strlit("solarized-light");
    vstd::string::is_ascii_spec_bytes("solarized-light");
    assert(vstd::string::is_ascii("solarized-light"));
    reveal_strlit("dracula");
    vstd::string::is_ascii_spec_bytes("dracula");
    assert(vstd::string::is_ascii("dracula"));
    reveal_strlit("gruvbox-dark");
    vstd::string::is_ascii_spec_bytes("gruvbox-dark");
    assert(vstd::string::is_ascii("gruvbox-dark"));
    reveal_strlit("bedterm-dark");
    vstd::string::is_ascii_spec_bytes("bedterm-dark");
    assert(vstd::string::is_ascii("bedterm-dark"));
    reveal_strlit("bedterm-light");
    vstd::string::is_ascii_spec_bytes("bedterm-light");
    assert(vstd::string::is_ascii("bedterm-light"));
    assert("default".spec_bytes().len() != "tokyo-night".spec_bytes().len());
    assert("default".spec_bytes().len() != "solarized-dark".spec_bytes().len());
    assert("default".spec_bytes().len() != "solarized-light".spec_bytes().len());
    assert("default".spec_bytes()[1] != "dracula".spec_bytes()[1]);
    assert("default".spec_bytes().len() != "gruvbox-dark".spec_bytes().len());
    assert("default".spec_bytes().len() != "bedterm-dark".spec_bytes().len());
    assert("default".spec_bytes().len() != "bedterm-light".spec_bytes().len());
    assert("tokyo-night".spec_bytes().len() != "solarized-dark".spec_bytes().len());
    assert("tokyo-night".spec_bytes().len() != "solarized-light".spec_bytes().len());
    assert("tokyo-night".spec_bytes().len() != "dracula".spec_bytes().len());
    assert("tokyo-night".spec_bytes().len() != "gruvbox-dark".spec_bytes().len());
    assert("tokyo-night".spec_bytes().len() != "bedterm-dark".spec_bytes().len());
    assert("tokyo-night".spec_bytes().len() != "bedterm-light".spec_bytes().len());
    assert("solarized-dark".spec_bytes().len() != "solarized-light".spec_bytes().len());
    assert("solarized-dark".spec_bytes().len() != "dracula".spec_bytes().len());
    assert("solarized-dark".spec_bytes().len() != "gruvbox-dark".spec_bytes().len());
    assert("solarized-dark".spec_bytes().len() != "bedterm-dark".spec_bytes().len());
    assert("solarized-dark".spec_bytes().len() != "bedterm-light".spec_bytes().len());
    assert("solarized-light".spec_bytes().len() != "dracula".spec_bytes().len());
    assert("solarized-light".spec_bytes().len() != "gruvbox-dark".spec_bytes().len());
    assert("solarized-light".spec_bytes().len() != "bedterm-dark".spec_bytes().len());
    assert("solarized-light".spec_bytes().len() != "bedterm-light".spec_bytes().len());
    assert("dracula".spec_bytes().len() != "gruvbox-dark".spec_bytes().len());
    assert("dracula".spec_bytes().len() != "bedterm-dark".spec_bytes().len());
    assert("dracula".spec_bytes().len() != "bedterm-light".spec_bytes().len());
    assert("gruvbox-dark".spec_bytes()[0] != "bedterm-dark".spec_bytes()[0]);
    assert("gruvbox-dark".spec_bytes().len() != "bedterm-light".spec_bytes().len());
    assert("bedterm-dark".spec_bytes().len() != "bedterm-light".spec_bytes().len());
}

impl PalettePreset {
    /// The preset with this name.
    pub fn from_str(s: &str) -> (r: Option<PalettePreset>)
        ensures
            r == spec_preset_named(s.spec_bytes()),
    {
        let b = s.as_bytes();
        if bytes_eq(b, "default".as_bytes()) || bytes_eq(b, "bedterm-dark".as_bytes())
            || bytes_eq(b, "bedterm-light".as_bytes()) {
            Some(PalettePreset::Default)
        } else if bytes_eq(b, "tokyo-night".as_bytes()) {
            Some(PalettePreset::TokyoNight)
        } else if bytes_eq(b, "solarized-dark".as_bytes()) {
            Some(PalettePreset::SolarizedDark)
        } else if bytes_eq(b, "solarized-light".as_bytes()) {
            Some(PalettePreset::SolarizedLight)
        } else if bytes_eq(b, "dracula".as_bytes()) {
            Some(PalettePreset::Dracula)
        } else if bytes_eq(b, "gruvbox-dark".as_bytes()) {
            Some(PalettePreset::GruvboxDark)
        } else {
            None
        }
    }

    /// A palette from a foreground, a background and 16 `0xRRGGBB` colours.
    pub fn palette_from_hexs(fg: (u8, u8, u8), bg: (u8, u8, u8), ansi_hex: [u32; 16]) -> (p: Palette)
        ensures
            is_palette_from(p, fg, bg, ansi_hex@),
    {
        let mut ansi = [BtRgb24 { r: 0, g: 0, b: 0 }; 16];
        let mut k: usize = 0;
        while k < 16
            invariant
                0 <= k <= 16,
                forall|j: int| 0 <= j < k ==> #[trigger] ansi@[j] == hex_rgb(ansi_hex@[j]),
            decreases 16 - k,
        {
            ansi[k] = hex_rgb_exec(ansi_hex[k]);
            k = k + 1;
        }
        Palette {
            default_fg: BtRgb24 { r: fg.0, g: fg.1, b: fg.2 },
            default_bg: BtRgb24 { r: bg.0, g: bg.1, b: bg.2 },
            ansi,
        }
    }

    /// The palette of this preset.
    pub fn build(&self) -> (p: Palette)
        ensures
            *self == PalettePreset::Default ==> p.is_legacy(),
            *self != PalettePreset::Default ==> is_palette_from(p, preset_fg_bg(*self).0, preset_fg_bg(*self).1,
                preset_hexes(*self)),
    {
        match self {
            PalettePreset::Default => Palette::default(),
            PalettePreset::TokyoNight => {
                let hexes: [u32; 16] = [0x1a1b26, 0xf7768e, 0x9ece6a, 0xe0af68, 0x7aa2f7, 0xbb9af7, 0x7dcfff, 0xa9b1d6, 0x414868, 0xf7768e, 0x9ece6a, 0xe0af68, 0x7aa2f7, 0xbb9af7, 0x7dcfff, 0xc0caf5];
                assert(hexes@ =~= preset_hexes(*self));
                PalettePreset::palette_from_hexs((0xc0, 0xca, 0xf5), (0x24, 0x28, 0x3b), hexes)
            },
            PalettePreset::SolarizedDark => {
                let hexes: [u32; 16] = [0x073642, 0xdc322f, 0x859900, 0xb58900, 0x268bd2, 0xd33682, 0x2aa198, 0xeee8d5, 0x002b36, 0xcb4b16, 0x586e75, 0x657b83, 0x839496, 0x6c71c4, 0x93a1a1, 0xfdf6e3];
                assert(hexes@ =~= preset_hexes(*self));
                PalettePreset::palette_from_hexs((0x83, 0x94, 0x96), (0x00, 0x2b, 0x36), hexes)
            },
            PalettePreset::SolarizedLight => {
                let hexes: [u32; 16] = [0xeee8d5, 0xdc322f, 0x859900, 0xb58900, 0x268bd2, 0xd33682, 0x2aa198, 0x073642, 0xfdf6e3, 0xcb4b16, 0x93a1a1, 0x839496, 0x657b83, 0x6c71c4, 0x586e75, 0x002b36];
                assert(hexes@ =~= preset_hexes(*self));
                PalettePreset::palette_from_hexs((0x65, 0x7b, 0x83), (0xfd, 0xf6, 0xe3), hexes)
            },
            PalettePreset::Dracula => {
                let hexes: [u32; 16] = [0x21222c, 0xff5555, 0x50fa7b, 0xf1fa8c, 0xbd93f9, 0xff79c6, 0x8be9fd, 0xf8f8f2, 0x6272a4, 0xff6e6e, 0x69ff94, 0xffffa5, 0xd6acff, 0xff92df, 0xa4ffff, 0xffffff];
                assert(hexes@ =~= preset_hexes(*self));
                PalettePreset::palette_from_hexs((0xf8, 0xf8, 0xf2), (0x28, 0x2a, 0x36), hexes)
            },
            PalettePreset::GruvboxDark => {
                let hexes: [u32; 16] = [0x282828, 0xcc241d, 0x98971a, 0xd79921, 0x458588, 0xb16286, 0x689d6a, 0xa89984, 0x928374, 0xfb4934, 0xb8bb26, 0xfabd2f, 0x83a598, 0xd3869b, 0x8ec07c, 0xebdbb2];
                assert(hexes@ =~= preset_hexes(*self));
                PalettePreset::palette_from_hexs((0xeb, 0xdb, 0xb2), (0x28, 0x28, 0x28), hexes)
            },
        }
    }
}

// ---------------------------------------------------------------------------
// Devices
// ---------------------------------------------------------------------------

/// A device's logical viewport (points) and its whole-number pixel scale.
#[derive(Clone, Copy, Debug)]
pub struct DevicePreset {
    pub name: &'static str,
    pub viewport_pt: (u32, u32),
    pub scale: u32,
}

/// A preset as plain values: name bytes, width, height, scale.
pub open spec fn preset_view(d: DevicePreset) -> (Seq<u8>, u32, u32, u32) {
    (d.name.spec_bytes(), d.viewport_pt.0, d.viewport_pt.1, d.scale)
}

/// The known devices, in lookup order.
pub open spec fn device_table() -> Seq<(Seq<u8>, u32, u32, u32)> {
    seq![
        ("iphone17".spec_bytes(), 402u32, 874u32, 3u32),
        ("iphone17-pro".spec_bytes(), 402u32, 874u32, 3u32),
        ("iphone17-promax".spec_bytes(), 440u32, 956u32, 3u32),
        ("iphone16".spec_bytes(), 393u32, 852u32, 3u32),
        ("iphone16-pro".spec_bytes(), 402u32, 874u32, 3u32),
        ("iphone16-promax".spec_bytes(), 440u32, 956u32, 3u32),
        ("iphone15".spec_bytes(), 393u32, 852u32, 3u32),
        ("iphone15-pro".spec_bytes(), 393u32, 852u32, 3u32),
        ("iphone15-promax".spec_bytes(), 430u32, 932u32, 3u32),
        ("iphone14".spec_bytes(), 390u32, 844u32, 3u32),
        ("iphone14-pro".spec_bytes(), 393u32, 852u32, 3u32),
        ("iphone14-promax".spec_bytes(), 430u32, 932u32, 3u32),
        ("iphone-se3".spec_bytes(), 375u32, 667u32, 2u32),
        ("ipad-pro13".spec_bytes(), 1032u32, 1376u32, 2u32),
        ("ipad-pro11".spec_bytes(), 834u32, 1210u32, 2u32),
        ("ipad-air13".spec_bytes(), 1024u32, 1366u32, 2u32),
        ("ipad-air11".spec_bytes(), 820u32, 1180u32, 2u32),
        ("ipad-mini".spec_bytes(), 744u32, 1133u32, 2u32),
        ("mac".spec_bytes(), 1200u32, 800u32, 2u32),
    ]
}

/// Every known device preset.
pub fn all_devices() -> (r: Vec<DevicePreset>)
    ensures
        r@.map_values(|d: DevicePreset| preset_view(d)) == device_table(),
{
    let mut v: Vec<DevicePreset> = Vec::new();
    v.push(DevicePreset { name: "iphone17", viewport_pt: (402, 874), scale: 3 });
    v.push(DevicePreset { name: "iphone17-pro", viewport_pt: (402, 874), scale: 3 });
    v.push(DevicePreset { name: "iphone17-promax", viewport_pt: (440, 956), scale: 3 });
    v.push(DevicePreset { name: "iphone16", viewport_pt: (393, 852), scale: 3 });
    v.push(DevicePreset { name: "iphone16-pro", viewport_pt: (402, 874), scale: 3 });
    v.push(DevicePreset { name: "iphone16-promax", viewport_pt: (440, 956), scale: 3 });
    v.push(DevicePreset { name: "iphone15", viewport_pt: (393, 852), scale: 3 });
    v.push(DevicePreset { name: "iphone15-pro", viewport_pt: (393, 852), scale: 3 });
    v.push(DevicePreset { name: "iphone15-promax", viewport_pt: (430, 932), scale: 3 });
    v.push(DevicePreset { name: "iphone14", viewport_pt: (390, 844), scale: 3 });
    v.push(DevicePreset { name: "iphone14-pro", viewport_pt: (393, 852), scale: 3 });
    v.push(DevicePreset { name: "iphone14-promax", viewport_pt: (430, 932), scale: 3 });
    v.push(DevicePreset { name: "iphone-se3", viewport_pt: (375, 667), scale: 2 });
    v.push(DevicePreset { name: "ipad-pro13", viewport_pt: (1032, 1376), scale: 2 });
    v.push(DevicePreset { name: "ipad-pro11", viewport_pt: (834, 1210), scale: 2 });
    v.push(DevicePreset { name: "ipad-air13", viewport_pt: (1024, 1366), scale: 2 });
    v.push(DevicePreset { name: "ipad-air11", viewport_pt: (820, 1180), scale: 2 });
    v.push(DevicePreset { name: "ipad-mini", viewport_pt: (744, 1133), scale: 2 });
    v.push(DevicePreset { name: "mac", viewport_pt: (1200, 800), scale: 2 });
    assert(v@.map_values(|d: DevicePreset| preset_view(d)) =~= device_table());
    v
}

/// The first device preset named `name`.
pub fn find_device(name: &str) -> (r: Option<DevicePreset>)
    ensures
        match r {
            Some(d) => exists|i: int| 0 <= i < device_table().len() && device_table()[i] == preset_view(d)
                && device_table()[i].0 == name.spec_bytes()
                && forall|j: int| 0 <= j < i ==> (#[trigger] device_table()[j]).0 != name.spec_bytes(),
            None => forall|i: int| 0 <= i < device_table().len() ==> (#[trigger] device_table()[i]).0 != name.spec_bytes(),
        },
{
    let all = all_devices();
    let ghost t = all@.map_values(|d: DevicePreset| preset_view(d));
    let mut i: usize = 0;
    while i < all.len()
        invariant
            i <= all@.len(),
            t == all@.map_values(|d: DevicePreset| preset_view(d)),
            t == device_table(),
            forall|j: int| 0 <= j < i ==> (#[trigger] device_table()[j]).0 != name.spec_bytes(),
        decreases all@.len() - i,
    {
        let d = all[i];
        assert(t[i as int] == preset_view(d));
        if bytes_eq(d.name.as_bytes(), name.as_bytes()) {
            return Some(d);
        }
        i = i + 1;
    }
    None
}

pub open spec fn names_of(t: Seq<(Seq<u8>, u32, u32, u32)>) -> Seq<Seq<u8>> {
    t.map_values(|e: (Seq<u8>, u32, u32, u32)| e.0)
}

pub open spec fn str_bytes(v: Seq<&'static str>) -> Seq<Seq<u8>> {
    v.map_values(|s: &'static str| s.spec_bytes())
}

/// The names of every known device, in lookup order.
pub fn device_names() -> (r: Vec<&'static str>)
    ensures
        str_bytes(r@) == names_of(device_table()),
{
    let all = all_devices();
    let ghost t = all@.map_values(|d: DevicePreset| preset_view(d));
    let mut names: Vec<&'static str> = Vec::new();
    let mut i: usize = 0;
    while i < all.len()
        invariant
            i <= all@.len(),
            t == all@.map_values(|d: DevicePreset| preset_view(d)),
            str_bytes(names@) == names_of(t).subrange(0, i as int),
        decreases all@.len() - i,
    {
        let ghost before = names@;
        let nm = all[i].name;
        names.push(nm);
        assert(t[i as int] == preset_view(all@[i as int]));
        assert(names_of(t)[i as int] == nm.spec_bytes());
        assert(names@ == before.push(nm));
        assert(str_bytes(names@) =~= str_bytes(before).push(nm.spec_bytes()));
        i = i + 1;
        assert(str_bytes(names@) =~= names_of(t).subrange(0, i as int));
    }
    assert(names_of(t).subrange(0, i as int) =~= names_of(t));
    names
}

} // verus!

//! Glyph cache keys, cell metrics, and the pixel conversions that turn a
//! rasterizer's output into BGRA8 premultiplied atlas texels.

use vstd::prelude::*;

verus! {

/// Key of the proportional UI glyph cache; the size is in 0.01 px.
#[derive(Eq, PartialEq, Hash, Clone, Copy, Debug, Structural)]
pub struct UIGlyphKey {
    pub codepoint: u32,
    pub font_px_hundredths: u32,
}

/// Key of the terminal cell glyph cache: bold and italic variants of a
/// code point are cached apart.
#[derive(Copy, Clone, Eq, PartialEq, Hash, Debug, Structural)]
pub struct GlyphKey {
    pub codepoint: u32,
    pub bold: bool,
    pub italic: bool,
}

impl GlyphKey {
    /// The regular (neither bold nor italic) variant of `codepoint`.
    pub fn regular(codepoint: u32) -> (k: GlyphKey)
        ensures
            k == (GlyphKey { codepoint, bold: false, italic: false }),
    {
        GlyphKey { codepoint, bold: false, italic: false }
    }
}

/// Monospace cell metrics of the primary font, in device pixels.
#[derive(Debug, Clone, Copy)]
pub struct CellMetrics {
    pub cell_width: u32,
    pub cell_height: u32,
    pub ascent: u32,
}

/// The font-stack rasterizer.
pub struct SwashRasterizer;

impl SwashRasterizer {
    pub fn new() -> (r: SwashRasterizer) {
        SwashRasterizer
    }
}

/// A coverage mask as texels: each coverage byte `a` becomes `(a, a, a, a)`.
pub open spec fn spec_mask_to_bgra(mask: Seq<u8>) -> Seq<u8> {
    Seq::new(4 * mask.len(), |k: int| mask[k / 4])
}

/// Expand a coverage mask to BGRA texels tinted later by the shader.
pub fn mask_to_bgra(mask: &[u8]) -> (r: Vec<u8>)
    ensures
        r@ == spec_mask_to_bgra(mask@),
{
    let mut out: Vec<u8> = Vec::new();
    let mut i: usize = 0;
    while i < mask.len()
        invariant
            i <= mask@.len(),
            out@.len() == 4 * i,
            forall|k: int| 0 <= k < 4 * i ==> #[trigger] out@[k] == mask@[k / 4],
        decreases mask@.len() - i,
    {
        let a = mask[i];
        out.push(a);
        out.push(a);
        out.push(a);
        out.push(a);
        i = i + 1;
    }
    assert(out@ =~= spec_mask_to_bgra(mask@));
    out
}

/// Perceptual luma of an RGB triple, in 0..=255.
pub open spec fn luma(r: u8, g: u8, b: u8) -> u8 {
    ((r * 77 + g * 150 + b * 29) / 256) as u8
}

/// A subpixel (RGBA per pixel) mask as grey coverage texels; a trailing
/// partial pixel is dropped.
pub open spec fn spec_subpixel_to_bgra(d: Seq<u8>) -> Seq<u8> {
    Seq::new(4 * (d.len() / 4), |k: int| luma(d[4 * (k / 4)], d[4 * (k / 4) + 1], d[4 * (k / 4) + 2]))
}

/// Collapse a subpixel mask to grey coverage.
pub fn subpixel_to_bgra(d: &[u8]) -> (r: Vec<u8>)
    ensures
        r@ == spec_subpixel_to_bgra(d@),
{
    let len = d.len();
    let n = len / 4;
    let mut out: Vec<u8> = Vec::new();
    let mut i: usize = 0;
    while i < n
        invariant
            len == d@.len(),
            n == d@.len() / 4,
            i <= n,
            out@.len() == 4 * i,
            forall|k: int| 0 <= k < 4 * i ==> #[trigger] out@[k] == luma(d@[4 * (k / 4)], d@[4 * (k / 4) + 1], d@[4 * (k / 4) + 2]),
        decreases n - i,
    {
        let p = 4 * i;
        let r = d[p] as u32;
        let g = d[p + 1] as u32;
        let b = d[p + 2] as u32;
        let sum: u32 = r * 77 + g * 150 + b * 29;
        assert(sum >> 8u32 == sum / 256) by (bit_vector);
        let l = (sum >> 8u32) as u8;
        out.push(l);
        out.push(l);
        out.push(l);
        out.push(l);
        i = i + 1;
    }
    assert(out@ =~= spec_subpixel_to_bgra(d@));
    out
}

/// An RGBA colour bitmap with its red and blue bytes swapped; a trailing
/// partial pixel is dropped.
pub open spec fn spec_rgba_to_bgra(d: Seq<u8>) -> Seq<u8> {
    Seq::new(4 * (d.len() / 4), |k: int| {
        let p = 4 * (k / 4);
        if k % 4 == 0 {
            d[p + 2]
        } else if k % 4 == 1 {
            d[p + 1]
        } else if k % 4 == 2 {
            d[p]
        } else {
            d[p + 3]
        }
    })
}

/// Swap a colour bitmap from RGBA to BGRA byte order.
pub fn rgba_to_bgra(d: &[u8]) -> (r: Vec<u8>)
    ensures
        r@ == spec_rgba_to_bgra(d@),
{
    let len = d.len();
    let n = len / 4;
    let mut out: Vec<u8> = Vec::new();
    let mut i: usize = 0;
    while i < n
        invariant
            len == d@.len(),
            n == d@.len() / 4,
            i <= n,
            out@.len() == 4 * i,
            forall|k: int| 0 <= k < 4 * i ==> #[trigger] out@[k] == spec_rgba_to_bgra(d@)[k],
        decreases n - i,
    {
        let p = 4 * i;
        out.push(d[p + 2]);
        out.push(d[p + 1]);
        out.push(d[p]);
        out.push(d[p + 3]);
        i = i + 1;
    }
    assert(out@ =~= spec_rgba_to_bgra(d@));
    out
}

} // verus!

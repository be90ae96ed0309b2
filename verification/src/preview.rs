//! RGBA proof-sheet images rendered from indexed surfaces.

use vstd::prelude::*;

verus! {

/// An 8-bit RGBA image, rows top to bottom.
pub struct RgbaImage {
    pub width: usize,
    pub height: usize,
    pub rgba: Vec<u8>,
}

/// A rectangle inside a pixel surface.
pub struct PixelBounds {
    pub x: usize,
    pub y: usize,
    pub width: usize,
    pub height: usize,
}

/// The rectangle is exactly (`x`, `y`, `width`, `height`).
pub open spec fn bounds_are(b: PixelBounds, x: int, y: int, width: int, height: int) -> bool {
    b.x == x && b.y == y && b.width == width && b.height == height
}

/// The four bytes of an opaque pixel.
pub open spec fn opaque(color: Seq<u8>) -> Seq<u8> {
    seq![color[0], color[1], color[2], 255u8]
}

/// Byte `channel` of an opaque pixel.
pub open spec fn opaque_channel(color: Seq<u8>, channel: int) -> u8 {
    if channel == 3 { 255u8 } else { color[channel] }
}

/// Grey level of a 2x2-pixel checkerboard that marks transparent pixels.
pub open spec fn checker(x: int, y: int, dark: u8, light: u8) -> Seq<u8> {
    if (x / 2 + y / 2) % 2 == 0 {
        seq![dark, dark, dark]
    } else {
        seq![light, light, light]
    }
}

/// Append one opaque pixel.
pub fn push_opaque(out: &mut Vec<u8>, color: [u8; 3])
    ensures
        final(out)@.len() == old(out)@.len() + 4,
        forall|k: int| 0 <= k < old(out)@.len() ==> #[trigger] final(out)@[k] == old(out)@[k],
        forall|c: int|
            0 <= c < 4 ==> #[trigger] final(out)@[old(out)@.len() + c] == opaque_channel(color@, c),
{
    out.push(color[0]);
    out.push(color[1]);
    out.push(color[2]);
    out.push(255);
}

/// Checkerboard grey for a transparent pixel at (`x`, `y`).
pub fn checker_color(x: usize, y: usize, dark: u8, light: u8) -> (color: [u8; 3])
    ensures
        color@ == checker(x as int, y as int, dark, light),
{
    let color = if (x / 2 + y / 2) % 2 == 0 {
        [dark, dark, dark]
    } else {
        [light, light, light]
    };
    assert(color@ =~= checker(x as int, y as int, dark, light));
    color
}

} // verus!

//! Compile splash slogan: pixel fitting and insertion.
//!
//! The Korean high-resolution master is cropped by its exact alpha bounds,
//! area-reduced to the JP 136x16 surface, mapped only to admitted JP palette
//! entries, and written into the first 34 tiles of the JP high-pattern
//! transfer. Every other decoded byte and every other Compile transfer stays
//! JP-owned.

use vstd::prelude::*;
use crate::hex::{Error, spec_parse_hex, parse_hex};
use crate::text::string_is;
use crate::sets::{bytes_equal, contains_usize};
use crate::pack::{DecodedPack, SourcePack, checked_source_packs, first_header_index, pack_matches, position_of_header};
use crate::palette::{
    allowed_indices_ok, is_nearest_allowed, md_color, nearest_palette_index, palette_declared,
    parse_md_palette, spec_md_color,
};
use crate::preview::{PixelBounds, RgbaImage, opaque_channel, push_opaque};
use crate::tiles::{MD_TILE_BYTES, all_nibbles, column_major_byte, encode_md_tiles_column_major};

use crate::insert::{WriteView, bank_write, bank_write_of, checksummed, header_write, header_write_of, insert_writes, write_ranges, write_views, writes_applied, writes_ok};
use crate::rom::only_ranges_changed;

verus! {

pub const COMPILE_SLOGAN_HEADER_OFFSET: usize = 0x09_2BA0;
pub const COMPILE_SLOGAN_VRAM: u16 = 0x2000;
pub const COMPILE_SLOGAN_BANK_OFFSET: usize = 0x26_8000;
pub const COMPILE_SLOGAN_TILES: usize = 34;
pub const COMPILE_SLOGAN_BYTES: usize = 1_088;
pub const PREVIEW_SCALE: usize = 4;

/// Counts reported after compiling the Compile slogan.
pub struct CompileSloganSummary {
    pub rewritten_tiles: usize,
    pub decoded_bytes: usize,
    pub pack_bytes: usize,
    pub checksum: u16,
}

/// The JP slogan surface and the rectangle the Korean master is fitted into.
pub struct OutputSurface {
    pub width: usize,
    pub height: usize,
    pub content_x: usize,
    pub content_y: usize,
    pub content_width: usize,
    pub content_height: usize,
}

pub struct MutableTileRange {
    pub start: usize,
    pub end_exclusive: usize,
}

/// The Compile slogan asset manifest.
pub struct CompileSloganManifest {
    pub schema_version: u32,
    pub asset_group_id: String,
    pub master_asset: String,
    pub master_sha256: String,
    pub master_width: usize,
    pub master_height: usize,
    pub master_alpha_bounds: PixelBounds,
    pub output_surface: OutputSurface,
    pub palette_line_words: Vec<String>,
    pub allowed_palette_indices: Vec<usize>,
    pub background_palette_index: usize,
    pub source_packs: Vec<SourcePack>,
    pub mutable_tile_range: MutableTileRange,
}

/// Every fixed fact the Compile slogan manifest must declare.
pub open spec fn manifest_shape_ok(m: CompileSloganManifest) -> bool {
    let s = m.output_surface;
    &&& m.schema_version == 1
    &&& m.asset_group_id@ == "GFX-COMPILE-SLOGAN"@
    &&& s.width == 136
    &&& s.height == 16
    &&& s.content_x + s.content_width <= s.width
    &&& s.content_y + s.content_height <= s.height
    &&& s.content_width != 0
    &&& s.content_height != 0
    &&& m.mutable_tile_range.start == 0
    &&& m.mutable_tile_range.end_exclusive == 34
    &&& allowed_indices_ok(m.allowed_palette_indices@)
    &&& m.allowed_palette_indices@.contains(m.background_palette_index)
}

/// Refuse a manifest whose identity, surface, tile range or palette admission
/// drifted.
pub fn validate_manifest_shape(manifest: &CompileSloganManifest) -> (result: Result<(), Error>)
    ensures
        result is Ok <==> manifest_shape_ok(*manifest),
{
    if manifest.schema_version != 1 || !string_is(&manifest.asset_group_id, "GFX-COMPILE-SLOGAN") {
        return Err("unsupported Compile slogan manifest identity");
    }
    let surface = &manifest.output_surface;
    if surface.width != 136 || surface.height != 16 || surface.content_x > surface.width
        || surface.content_width > surface.width - surface.content_x || surface.content_y
        > surface.height || surface.content_height > surface.height - surface.content_y
        || surface.content_width == 0 || surface.content_height == 0 {
        return Err("Compile slogan output surface must be a bounded 136x16 region");
    }
    let tiles_x = surface.width / 8;
    let tiles_y = surface.height / 8;
    assert(tiles_x == 17 && tiles_y == 2);
    if manifest.mutable_tile_range.start != 0 || manifest.mutable_tile_range.end_exclusive
        != COMPILE_SLOGAN_TILES || tiles_x * tiles_y != COMPILE_SLOGAN_TILES {
        return Err("Compile slogan mutable tile range drifted from the 34 JP tiles");
    }
    let allowed = &manifest.allowed_palette_indices;
    if allowed.len() == 0 || !contains_usize(allowed.as_slice(), manifest.background_palette_index) {
        return Err("Compile slogan palette admission is invalid");
    }
    let mut k: usize = 0;
    while k < allowed.len()
        invariant
            allowed@ == manifest.allowed_palette_indices@,
            manifest_shape_ok(*manifest) <== (forall|j: int| 0 <= j < allowed@.len() ==> #[trigger] allowed@[j] < 16),
            k <= allowed@.len(),
            forall|j: int| 0 <= j < k ==> #[trigger] allowed@[j] < 16,
        decreases allowed@.len() - k,
    {
        if allowed[k] >= 16 {
            assert(!allowed_indices_ok(allowed@)) by {
                assert(allowed@[k as int] >= 16);
            }
            return Err("Compile slogan palette admission is invalid");
        }
        k = k + 1;
    }
    Ok(())
}

/// One channel of a master pixel composited over the background colour,
/// rounded to the nearest level.
pub open spec fn composite(foreground: int, alpha: int, background: int) -> int {
    (foreground * alpha + background * (255 - alpha) + 127) / 255
}

/// Channel `c` of master pixel (`x`, `y`) composited over `background`.
pub open spec fn master_term(master: Seq<u8>, width: int, background: Seq<u8>, x: int, y: int, c: int) -> int {
    let offset = (y * width + x) * 4;
    composite(master[offset + c] as int, master[offset + 3] as int, background[c] as int)
}

/// Sum of channel `c` over master row `y`, columns `x0..x1`.
pub open spec fn row_sum(master: Seq<u8>, width: int, background: Seq<u8>, x0: int, x1: int, y: int, c: int) -> int
    decreases x1 - x0,
{
    if x1 <= x0 {
        0
    } else {
        row_sum(master, width, background, x0, x1 - 1, y, c) + master_term(master, width, background, x1 - 1, y, c)
    }
}

/// Sum of channel `c` over the master box `x0..x1` by `y0..y1`.
pub open spec fn box_sum(
    master: Seq<u8>,
    width: int,
    background: Seq<u8>,
    x0: int,
    x1: int,
    y0: int,
    y1: int,
    c: int,
) -> int
    decreases y1 - y0,
{
    if y1 <= y0 {
        0
    } else {
        box_sum(master, width, background, x0, x1, y0, y1 - 1, c) + row_sum(master, width, background, x0, x1, y1 - 1, c)
    }
}

/// Channel `c` of the rounded mean of the master box.
pub open spec fn box_mean(
    master: Seq<u8>,
    width: int,
    background: Seq<u8>,
    x0: int,
    x1: int,
    y0: int,
    y1: int,
    c: int,
) -> u8 {
    let samples = (x1 - x0) * (y1 - y0);
    ((box_sum(master, width, background, x0, x1, y0, y1, c) + samples / 2) / samples) as u8
}

/// Alpha of master pixel (`x`, `y`).
pub open spec fn master_alpha(master: Seq<u8>, width: int, x: int, y: int) -> int {
    master[(y * width + x) * 4 + 3] as int
}

/// Compositing blends a master pixel over the background colour by its
/// alpha: a fully transparent pixel contributes exactly the background
/// channel, a fully opaque one exactly its own channel, and any pixel a
/// level between the two.
pub proof fn lemma_master_term_blends(master: Seq<u8>, width: int, background: Seq<u8>, x: int, y: int, c: int)
    ensures
        master_alpha(master, width, x, y) == 0 ==> master_term(master, width, background, x, y, c)
            == background[c] as int,
        master_alpha(master, width, x, y) == 255 ==> master_term(master, width, background, x, y, c)
            == master[(y * width + x) * 4 + c] as int,
        ({
            let f = master[(y * width + x) * 4 + c] as int;
            let b = background[c] as int;
            let t = master_term(master, width, background, x, y, c);
            let a = master_alpha(master, width, x, y);
            &&& (f <= b ==> f <= t <= b) && (b <= f ==> b <= t <= f)
            &&& -127 <= 255 * t - (f * a + b * (255 - a)) <= 127
        }),
{
    let offset = (y * width + x) * 4;
    let f = master[offset + c] as int;
    let a = master[offset + 3] as int;
    let b = background[c] as int;
    assert(composite(f, 0, b) == b) by (nonlinear_arith)
        requires
            0 <= b <= 255,
    ;
    assert(composite(f, 255, b) == f) by (nonlinear_arith)
        requires
            0 <= f <= 255,
    ;
    assert(f <= b ==> f <= composite(f, a, b) <= b) by (nonlinear_arith)
        requires
            0 <= f <= 255,
            0 <= a <= 255,
            0 <= b <= 255,
    ;
    assert(b <= f ==> b <= composite(f, a, b) <= f) by (nonlinear_arith)
        requires
            0 <= f <= 255,
            0 <= a <= 255,
            0 <= b <= 255,
    ;
    let sum = f * a + b * (255 - a);
    assert(-127 <= 255 * ((sum + 127) / 255) - sum <= 127) by (nonlinear_arith)
        requires
            0 <= sum,
    ;
}

proof fn lemma_transparent_row(master: Seq<u8>, width: int, background: Seq<u8>, x0: int, x1: int, y: int, c: int)
    requires
        x0 <= x1,
        forall|x: int| x0 <= x < x1 ==> #[trigger] master_alpha(master, width, x, y) == 0,
    ensures
        row_sum(master, width, background, x0, x1, y, c) == (x1 - x0) * background[c],
    decreases x1 - x0,
{
    if x0 < x1 {
        lemma_transparent_row(master, width, background, x0, x1 - 1, y, c);
        lemma_master_term_blends(master, width, background, x1 - 1, y, c);
        assert(master_alpha(master, width, x1 - 1, y) == 0);
        assert((x1 - 1 - x0) * background[c] + background[c] == (x1 - x0) * background[c]) by (nonlinear_arith);
    } else {
        assert((x1 - x0) * background[c] == 0) by (nonlinear_arith)
            requires
                x1 == x0,
        ;
    }
}

proof fn lemma_transparent_box(
    master: Seq<u8>,
    width: int,
    background: Seq<u8>,
    x0: int,
    x1: int,
    y0: int,
    y1: int,
    c: int,
)
    requires
        x0 <= x1,
        y0 <= y1,
        forall|x: int, y: int| x0 <= x < x1 && y0 <= y < y1 ==> #[trigger] master_alpha(master, width, x, y) == 0,
    ensures
        box_sum(master, width, background, x0, x1, y0, y1, c) == (x1 - x0) * (y1 - y0) * background[c],
    decreases y1 - y0,
{
    if y0 < y1 {
        lemma_transparent_box(master, width, background, x0, x1, y0, y1 - 1, c);
        assert forall|x: int| x0 <= x < x1 implies #[trigger] master_alpha(master, width, x, y1 - 1) == 0 by {}
        lemma_transparent_row(master, width, background, x0, x1, y1 - 1, c);
        assert((x1 - x0) * (y1 - 1 - y0) * background[c] + (x1 - x0) * background[c] == (x1 - x0) * (y1 - y0)
            * background[c]) by (nonlinear_arith);
    } else {
        assert((x1 - x0) * (y1 - y0) * background[c] == 0) by (nonlinear_arith)
            requires
                y1 == y0,
        ;
    }
}

/// A master box with no ink in it (every pixel fully transparent) averages
/// to exactly the background colour, whatever colour its transparent pixels
/// store.
pub proof fn lemma_transparent_box_is_background(
    master: Seq<u8>,
    width: int,
    background: Seq<u8>,
    x0: int,
    x1: int,
    y0: int,
    y1: int,
    c: int,
)
    requires
        x0 < x1,
        y0 < y1,
        forall|x: int, y: int| x0 <= x < x1 && y0 <= y < y1 ==> #[trigger] master_alpha(master, width, x, y) == 0,
    ensures
        box_mean(master, width, background, x0, x1, y0, y1, c) == background[c],
{
    lemma_transparent_box(master, width, background, x0, x1, y0, y1, c);
    let n = (x1 - x0) * (y1 - y0);
    let b = background[c] as int;
    assert(n > 0) by (nonlinear_arith)
        requires
            x0 < x1,
            y0 < y1,
            n == (x1 - x0) * (y1 - y0),
    ;
    assert((n * b + n / 2) / n == b) by (nonlinear_arith)
        requires
            n > 0,
            0 <= b <= 255,
    {
        vstd::arithmetic::div_mod::lemma_fundamental_div_mod_converse(n * b + n / 2, n, b, n / 2);
    }
}

proof fn lemma_composite_bound(foreground: int, alpha: int, background: int)
    requires
        0 <= foreground <= 255,
        0 <= alpha <= 255,
        0 <= background <= 255,
    ensures
        0 <= composite(foreground, alpha, background) <= 255,
{
    assert(0 <= foreground * alpha + background * (255 - alpha) <= 255 * 255) by (nonlinear_arith)
        requires
            0 <= foreground <= 255,
            0 <= alpha <= 255,
            0 <= background <= 255,
    ;
}

fn composite_channel(foreground: u8, alpha: u8, background: u8) -> (level: u64)
    ensures
        level as int == composite(foreground as int, alpha as int, background as int),
        level <= 255,
{
    proof {
        lemma_composite_bound(foreground as int, alpha as int, background as int);
    }
    let f = foreground as u64;
    let a = alpha as u64;
    let b = background as u64;
    assert(f * a + b * (255 - a) <= 255 * 255) by (nonlinear_arith)
        requires
            f <= 255,
            a <= 255,
            b <= 255,
    ;
    (f * a + b * (255 - a) + 127) / 255
}

proof fn lemma_row_sum_bound(master: Seq<u8>, width: int, background: Seq<u8>, x0: int, x1: int, y: int, c: int)
    requires
        0 <= x0 <= x1 <= width,
        0 <= y,
        (y + 1) * width * 4 <= master.len(),
        0 <= c < 3,
        background.len() == 3,
    ensures
        0 <= row_sum(master, width, background, x0, x1, y, c) <= 255 * (x1 - x0),
    decreases x1 - x0,
{
    if x1 > x0 {
        lemma_row_sum_bound(master, width, background, x0, x1 - 1, y, c);
        let offset = (y * width + (x1 - 1)) * 4;
        assert(0 <= offset && offset + 3 < master.len()) by (nonlinear_arith)
            requires
                0 <= y,
                0 <= x1 - 1 < width,
                (y + 1) * width * 4 <= master.len(),
                offset == (y * width + (x1 - 1)) * 4,
        ;
        lemma_composite_bound(master[offset + c] as int, master[offset + 3] as int, background[c] as int);
    }
}

proof fn lemma_box_sum_bound(
    master: Seq<u8>,
    width: int,
    background: Seq<u8>,
    x0: int,
    x1: int,
    y0: int,
    y1: int,
    c: int,
)
    requires
        0 <= x0 <= x1 <= width,
        0 <= y0 <= y1,
        y1 * width * 4 <= master.len(),
        0 <= c < 3,
        background.len() == 3,
    ensures
        0 <= box_sum(master, width, background, x0, x1, y0, y1, c) <= 255 * (x1 - x0) * (y1 - y0),
    decreases y1 - y0,
{
    if y1 > y0 {
        assert((y1 - 1) * width * 4 <= y1 * width * 4) by (nonlinear_arith)
            requires
                0 <= width,
                1 <= y1,
        ;
        lemma_box_sum_bound(master, width, background, x0, x1, y0, y1 - 1, c);
        lemma_row_sum_bound(master, width, background, x0, x1, y1 - 1, c);
        assert(255 * (x1 - x0) * (y1 - 1 - y0) + 255 * (x1 - x0) == 255 * (x1 - x0) * (y1 - y0)) by (nonlinear_arith);
    }
}

pub(crate) proof fn lemma_master_offset(x: int, y: int, width: int, y1: int, len: int)
    requires
        0 <= x < width,
        0 <= y < y1,
        y1 * width * 4 <= len,
        len <= 0x1_0000_0000_0000,
    ensures
        0 <= y * width,
        y * width + x < y1 * width,
        (y * width + x) * 4 + 4 <= len,
        255 * y1 * width <= 255 * 0x1_0000_0000_0000,
{
    assert(0 <= y * width && y * width + x < y1 * width && (y * width + x) * 4 + 4 <= len
        && 255 * y1 * width <= 255 * 0x1_0000_0000_0000) by (nonlinear_arith)
        requires
            0 <= x < width,
            0 <= y < y1,
            y1 * width * 4 <= len,
            len <= 0x1_0000_0000_0000,
    ;
}

/// Rounded mean of channel `c` over the master box, alpha-composited over
/// `background`.
pub(crate) fn box_channel_mean(
    master: &[u8],
    width: usize,
    background: [u8; 3],
    x0: usize,
    x1: usize,
    y0: usize,
    y1: usize,
    c: usize,
) -> (level: u8)
    requires
        x0 < x1 <= width,
        y0 < y1,
        y1 * width * 4 <= master@.len(),
        master@.len() <= 0x1_0000_0000_0000,
        c < 3,
    ensures
        level == box_mean(master@, width as int, background@, x0 as int, x1 as int, y0 as int, y1 as int, c as int),
{
    let master_len = master.len();
    let mut sum: u64 = 0;
    let mut y = y0;
    assert((y1 - y0) * (x1 - x0) <= y1 * width) by (nonlinear_arith)
        requires
            x0 < x1 <= width,
            y0 < y1,
    ;
    while y < y1
        invariant
            x0 < x1 <= width,
            y0 <= y <= y1,
            master_len == master@.len(),
            y1 * width * 4 <= master@.len(),
            master@.len() <= 0x1_0000_0000_0000,
            c < 3,
            sum as int == box_sum(master@, width as int, background@, x0 as int, x1 as int, y0 as int, y as int, c as int),
        decreases y1 - y,
    {
        proof {
            assert(y * width * 4 <= y1 * width * 4) by (nonlinear_arith)
                requires
                    y <= y1,
            ;
            lemma_box_sum_bound(master@, width as int, background@, x0 as int, x1 as int, y0 as int, y as int, c as int);
            assert(255 * (x1 - x0) * (y - y0) <= 255 * y1 * width) by (nonlinear_arith)
                requires
                    x0 < x1 <= width,
                    y0 <= y <= y1,
            ;
        }
        let mut x = x0;
        while x < x1
            invariant
                x0 <= x <= x1 <= width,
                y0 <= y < y1,
                master_len == master@.len(),
                y1 * width * 4 <= master@.len(),
                master@.len() <= 0x1_0000_0000_0000,
                c < 3,
                sum as int == box_sum(master@, width as int, background@, x0 as int, x1 as int, y0 as int, y as int, c as int)
                    + row_sum(master@, width as int, background@, x0 as int, x as int, y as int, c as int),
                sum as int <= 255 * y1 * width,
            decreases x1 - x,
        {
            proof {
                assert(y * width * 4 <= y1 * width * 4) by (nonlinear_arith)
                    requires
                        y <= y1,
                ;
                assert((y + 1) * width * 4 <= y1 * width * 4) by (nonlinear_arith)
                    requires
                        y < y1,
                ;
                lemma_box_sum_bound(master@, width as int, background@, x0 as int, x1 as int, y0 as int, y as int, c as int);
                lemma_row_sum_bound(master@, width as int, background@, x0 as int, x as int + 1, y as int, c as int);
                assert(255 * (x1 - x0) * (y - y0) + 255 * (x + 1 - x0) <= 255 * y1 * width) by (nonlinear_arith)
                    requires
                        x0 <= x < x1 <= width,
                        y0 <= y < y1,
                ;
                lemma_master_offset(x as int, y as int, width as int, y1 as int, master@.len() as int);
            }
            let offset = (y * width + x) * 4;
            let level = composite_channel(master[offset + c], master[offset + 3], background[c]);
            sum = sum + level;
            x = x + 1;
        }
        y = y + 1;
    }
    assert(0 < (x1 - x0) * (y1 - y0) <= y1 * width && y1 * width * 4 <= 0x1_0000_0000_0000) by (nonlinear_arith)
        requires
            x0 < x1 <= width,
            y0 < y1,
            y1 * width * 4 <= master@.len(),
            master@.len() <= 0x1_0000_0000_0000,
    ;
    let samples = ((x1 - x0) * (y1 - y0)) as u64;
    proof {
        lemma_box_sum_bound(master@, width as int, background@, x0 as int, x1 as int, y0 as int, y1 as int, c as int);
        let s = sum as int;
        let n = samples as int;
        assert(255 * (x1 - x0) * (y1 - y0) == 255 * n) by (nonlinear_arith)
            requires
                n == (x1 - x0) * (y1 - y0),
        ;
        assert((s + n / 2) / n <= 255) by (nonlinear_arith)
            requires
                n > 0,
                s <= 255 * n,
        ;
    }
    ((sum + samples / 2) / samples) as u8
}

/// First master column (or row) sampled for output column (or row) `out` of
/// a content extent `content` mapped onto a master extent `extent` at `origin`.
pub open spec fn sample_edge(origin: int, out: int, extent: int, content: int) -> int {
    origin + out * extent / content
}

/// The master box that content pixel (`ox`, `oy`) averages.
pub open spec fn sample_x0(m: CompileSloganManifest, ox: int) -> int {
    sample_edge(m.master_alpha_bounds.x as int, ox, m.master_alpha_bounds.width as int, m.output_surface.content_width as int)
}

pub open spec fn sample_x1(m: CompileSloganManifest, ox: int) -> int {
    sample_x0(m, ox + 1)
}

pub open spec fn sample_y0(m: CompileSloganManifest, oy: int) -> int {
    sample_edge(m.master_alpha_bounds.y as int, oy, m.master_alpha_bounds.height as int, m.output_surface.content_height as int)
}

pub open spec fn sample_y1(m: CompileSloganManifest, oy: int) -> int {
    sample_y0(m, oy + 1)
}

/// Content pixel (`ox`, `oy`) samples a non-empty master box.
pub open spec fn sample_nonempty(m: CompileSloganManifest, ox: int, oy: int) -> bool {
    sample_x0(m, ox) < sample_x1(m, ox) && sample_y0(m, oy) < sample_y1(m, oy)
}

/// The alpha bounds lie inside the master and every content pixel samples a
/// non-empty master box.
pub open spec fn fit_ok(m: CompileSloganManifest) -> bool {
    let b = m.master_alpha_bounds;
    &&& b.x + b.width <= m.master_width
    &&& b.y + b.height <= m.master_height
    &&& forall|ox: int, oy: int|
        0 <= ox < m.output_surface.content_width && 0 <= oy < m.output_surface.content_height
            ==> #[trigger] sample_nonempty(m, ox, oy)
}

/// Mean colour of the master box of content pixel (`ox`, `oy`), composited
/// over the background palette colour.
pub open spec fn fitted_color(master: Seq<u8>, m: CompileSloganManifest, palette: Seq<u16>, ox: int, oy: int) -> Seq<u8> {
    let background = spec_md_color(palette[m.background_palette_index as int]);
    let w = m.master_width as int;
    let x0 = sample_x0(m, ox);
    let x1 = sample_x1(m, ox);
    let y0 = sample_y0(m, oy);
    let y1 = sample_y1(m, oy);
    seq![
        box_mean(master, w, background, x0, x1, y0, y1, 0),
        box_mean(master, w, background, x0, x1, y0, y1, 1),
        box_mean(master, w, background, x0, x1, y0, y1, 2),
    ]
}

/// A content pixel whose master box holds no ink takes exactly the
/// background palette colour as its mean colour.
pub proof fn lemma_transparent_sample_is_background(
    master: Seq<u8>,
    m: CompileSloganManifest,
    palette: Seq<u16>,
    ox: int,
    oy: int,
)
    requires
        sample_nonempty(m, ox, oy),
        forall|x: int, y: int|
            sample_x0(m, ox) <= x < sample_x1(m, ox) && sample_y0(m, oy) <= y < sample_y1(m, oy)
                ==> #[trigger] master_alpha(master, m.master_width as int, x, y) == 0,
    ensures
        fitted_color(master, m, palette, ox, oy) == spec_md_color(palette[m.background_palette_index as int]),
{
    let background = spec_md_color(palette[m.background_palette_index as int]);
    let w = m.master_width as int;
    lemma_transparent_box_is_background(master, w, background, sample_x0(m, ox), sample_x1(m, ox), sample_y0(m, oy), sample_y1(m, oy), 0);
    lemma_transparent_box_is_background(master, w, background, sample_x0(m, ox), sample_x1(m, ox), sample_y0(m, oy), sample_y1(m, oy), 1);
    lemma_transparent_box_is_background(master, w, background, sample_x0(m, ox), sample_x1(m, ox), sample_y0(m, oy), sample_y1(m, oy), 2);
    assert(fitted_color(master, m, palette, ox, oy) =~= background);
}

/// Pixel `i` of the 136x16 fitted surface is `value`: inside the content
/// rectangle the admitted palette index nearest to the fitted colour (the
/// earliest admitted one on a tie), elsewhere the background index.
pub open spec fn fitted_pixel_is(master: Seq<u8>, m: CompileSloganManifest, palette: Seq<u16>, i: int, value: u8) -> bool {
    let s = m.output_surface;
    let x = i % 136;
    let y = i / 136;
    if s.content_x <= x < s.content_x + s.content_width && s.content_y <= y < s.content_y + s.content_height {
        exists|p: int|
            is_nearest_allowed(
                fitted_color(master, m, palette, x - s.content_x, y - s.content_y),
                palette,
                m.allowed_palette_indices@,
                p,
            ) && value == m.allowed_palette_indices@[p] as u8
    } else {
        value == m.background_palette_index as u8
    }
}

/// What the reduction requires of its master: an RGBA image of the declared
/// size whose sampling arithmetic fits in a machine word.
pub open spec fn master_ok(master: Seq<u8>, m: CompileSloganManifest) -> bool {
    &&& master.len() == m.master_width * m.master_height * 4
    &&& master.len() <= 0x1_0000_0000_0000
    &&& 136 * m.master_width <= usize::MAX
    &&& 16 * m.master_height <= usize::MAX
}

proof fn lemma_edge_bound(origin: int, out: int, extent: int, content: int)
    requires
        0 <= out <= content,
        0 < content,
        0 <= extent,
        0 <= origin,
    ensures
        origin <= sample_edge(origin, out, extent, content) <= origin + extent,
        out * extent <= content * extent,
{
    assert(0 <= out * extent / content <= extent && out * extent <= content * extent) by (nonlinear_arith)
        requires
            0 <= out <= content,
            0 < content,
            0 <= extent,
    ;
}

fn fitted_index(
    master: &[u8],
    manifest: &CompileSloganManifest,
    palette: &[u16; 16],
    ox: usize,
    oy: usize,
) -> (index: Result<u8, Error>)
    requires
        manifest_shape_ok(*manifest),
        master_ok(master@, *manifest),
        manifest.master_alpha_bounds.x + manifest.master_alpha_bounds.width <= manifest.master_width,
        manifest.master_alpha_bounds.y + manifest.master_alpha_bounds.height <= manifest.master_height,
        ox < manifest.output_surface.content_width,
        oy < manifest.output_surface.content_height,
    ensures
        index is Ok <==> (sample_x0(*manifest, ox as int) < sample_x1(*manifest, ox as int) && sample_y0(
            *manifest,
            oy as int,
        ) < sample_y1(*manifest, oy as int)),
        index matches Ok(v) ==> exists|p: int|
            is_nearest_allowed(
                fitted_color(master@, *manifest, palette@, ox as int, oy as int),
                palette@,
                manifest.allowed_palette_indices@,
                p,
            ) && v == manifest.allowed_palette_indices@[p] as u8,
{
    let surface = &manifest.output_surface;
    let bounds = &manifest.master_alpha_bounds;
    proof {
        lemma_edge_bound(bounds.x as int, ox as int, bounds.width as int, surface.content_width as int);
        lemma_edge_bound(bounds.x as int, ox + 1, bounds.width as int, surface.content_width as int);
        lemma_edge_bound(bounds.y as int, oy as int, bounds.height as int, surface.content_height as int);
        lemma_edge_bound(bounds.y as int, oy + 1, bounds.height as int, surface.content_height as int);
        assert(surface.content_width * bounds.width <= 136 * manifest.master_width) by (nonlinear_arith)
            requires
                surface.content_width <= 136,
                bounds.width <= manifest.master_width,
        ;
        assert(surface.content_height * bounds.height <= 16 * manifest.master_height) by (nonlinear_arith)
            requires
                surface.content_height <= 16,
                bounds.height <= manifest.master_height,
        ;
    }
    let x0 = bounds.x + ox * bounds.width / surface.content_width;
    let x1 = bounds.x + (ox + 1) * bounds.width / surface.content_width;
    let y0 = bounds.y + oy * bounds.height / surface.content_height;
    let y1 = bounds.y + (oy + 1) * bounds.height / surface.content_height;
    if x0 >= x1 || y0 >= y1 {
        return Err("Compile slogan area reduction produced an empty sample");
    }
    let background = md_color(palette[manifest.background_palette_index]);
    assert(y1 * manifest.master_width * 4 <= master@.len()) by (nonlinear_arith)
        requires
            y1 <= manifest.master_height,
            master@.len() == manifest.master_width * manifest.master_height * 4,
    ;
    let r = box_channel_mean(master, manifest.master_width, background, x0, x1, y0, y1, 0);
    let g = box_channel_mean(master, manifest.master_width, background, x0, x1, y0, y1, 1);
    let b = box_channel_mean(master, manifest.master_width, background, x0, x1, y0, y1, 2);
    let averaged = [r, g, b];
    assert(averaged@ =~= fitted_color(master@, *manifest, palette@, ox as int, oy as int));
    let chosen = nearest_palette_index(averaged, palette, manifest.allowed_palette_indices.as_slice())?;
    proof {
        let p = choose|p: int|
            is_nearest_allowed(averaged@, palette@, manifest.allowed_palette_indices@, p)
                && manifest.allowed_palette_indices@[p] == chosen;
        assert(chosen < 16);
    }
    Ok(chosen as u8)
}

/// Area-reduce the Korean master into the 136x16 JP surface: each content
/// pixel averages its master box composited over the background colour and
/// takes the nearest admitted JP palette index; the rest is background.
pub fn reduce_master_to_surface(
    master: &[u8],
    manifest: &CompileSloganManifest,
    palette: &[u16; 16],
) -> (surface: Result<Vec<u8>, Error>)
    requires
        manifest_shape_ok(*manifest),
        master_ok(master@, *manifest),
    ensures
        surface is Ok <==> fit_ok(*manifest),
        surface matches Ok(p) ==> p@.len() == 136 * 16 && forall|i: int|
            0 <= i < 136 * 16 ==> #[trigger] fitted_pixel_is(master@, *manifest, palette@, i, p@[i]),
{
    let bounds = &manifest.master_alpha_bounds;
    if bounds.x > manifest.master_width || bounds.width > manifest.master_width - bounds.x
        || bounds.y > manifest.master_height || bounds.height > manifest.master_height - bounds.y {
        return Err("Compile slogan alpha bounds lie outside the master");
    }
    let surface = &manifest.output_surface;
    let background = manifest.background_palette_index as u8;
    let mut output: Vec<u8> = Vec::with_capacity(surface.width * surface.height);
    let mut i: usize = 0;
    while i < surface.width * surface.height
        invariant
            manifest_shape_ok(*manifest),
            master_ok(master@, *manifest),
            *surface == manifest.output_surface,
            *bounds == manifest.master_alpha_bounds,
            bounds.x + bounds.width <= manifest.master_width,
            bounds.y + bounds.height <= manifest.master_height,
            background == manifest.background_palette_index as u8,
            i <= 136 * 16,
            output@.len() == i,
            forall|q: int| 0 <= q < i ==> #[trigger] fitted_pixel_is(master@, *manifest, palette@, q, output@[q]),
            forall|ox: int, oy: int|
                0 <= ox < surface.content_width && 0 <= oy < surface.content_height && (oy
                    + surface.content_y) * 136 + ox + surface.content_x < i ==> #[trigger] sample_nonempty(*manifest, ox, oy),
        decreases 136 * 16 - i,
    {
        let x = i % surface.width;
        let y = i / surface.width;
        let inside = surface.content_x <= x && x < surface.content_x + surface.content_width
            && surface.content_y <= y && y < surface.content_y + surface.content_height;
        if inside {
            let ox = x - surface.content_x;
            let oy = y - surface.content_y;
            proof {
                crate::grid::lemma_split_index(i as int, 136, 16);
            }
            match fitted_index(master, manifest, palette, ox, oy) {
                Ok(index) => {
                    output.push(index);
                },
                Err(e) => {
                    assert(!fit_ok(*manifest)) by {
                        assert(!sample_nonempty(*manifest, ox as int, oy as int));
                    }
                    return Err(e);
                },
            }
            proof {
                assert forall|px: int, py: int|
                    0 <= px < surface.content_width && 0 <= py < surface.content_height && (py
                        + surface.content_y) * 136 + px + surface.content_x < i + 1 implies #[trigger] sample_nonempty(*manifest, px, py) by {
                    if (py + surface.content_y) * 136 + px + surface.content_x == i {
                        crate::grid::lemma_row_col(py + surface.content_y, px + surface.content_x, 136);
                        assert(px == ox && py == oy);
                    }
                }
            }
        } else {
            output.push(background);
            proof {
                assert forall|px: int, py: int|
                    0 <= px < surface.content_width && 0 <= py < surface.content_height && (py
                        + surface.content_y) * 136 + px + surface.content_x < i + 1 implies #[trigger] sample_nonempty(*manifest, px, py) by {
                    if (py + surface.content_y) * 136 + px + surface.content_x == i {
                        crate::grid::lemma_row_col(py + surface.content_y, px + surface.content_x, 136);
                    }
                }
            }
        }
        i = i + 1;
    }
    proof {
        assert forall|ox: int, oy: int|
            0 <= ox < surface.content_width && 0 <= oy < surface.content_height implies #[trigger] sample_nonempty(*manifest, ox, oy) by {
            crate::grid::lemma_index_bound(oy + surface.content_y, ox + surface.content_x, 136, 16);
            assert((oy + surface.content_y) * 136 + ox + surface.content_x < i);
        }
    }
    Ok(output)
}

/// Position of the first declared transfer whose header sits at `header_offset`.
pub fn source_pack(manifest: &CompileSloganManifest, header_offset: usize) -> (position: Result<
    usize,
    Error,
>)
    ensures
        position is Ok <==> first_header_index(manifest.source_packs@, header_offset as nat, 0)
            < manifest.source_packs@.len(),
        position matches Ok(i) ==> i == first_header_index(manifest.source_packs@, header_offset as nat, 0),
{
    match position_of_header(&manifest.source_packs, header_offset) {
        Some(i) => Ok(i),
        None => Err("Compile slogan manifest has no source pack at the slogan header"),
    }
}

/// A compiled Compile slogan before its pack is encoded.
pub struct CompileSloganBuild {
    pub manifest: CompileSloganManifest,
    pub palette: [u16; 16],
    pub source_payload: Vec<u8>,
    pub payload: Vec<u8>,
    pub pixel_fit: Vec<u8>,
}

/// A build whose fitted surface the preview can draw.
pub open spec fn build_wf(build: CompileSloganBuild) -> bool {
    &&& build.pixel_fit@.len() == 136 * 16
    &&& all_nibbles(build.pixel_fit@)
}

/// Index of the slogan transfer among the declarations.
pub open spec fn slogan_index(m: CompileSloganManifest) -> int {
    first_header_index(m.source_packs@, 0x09_2BA0, 0)
}

/// Everything the Compile slogan compiler requires of its inputs.
pub open spec fn build_inputs_ok(m: CompileSloganManifest, decoded: Seq<DecodedPack>) -> bool {
    &&& manifest_shape_ok(m)
    &&& palette_declared(m.palette_line_words@.map_values(|w: String| w@))
    &&& fit_ok(m)
    &&& decoded.len() == m.source_packs@.len()
    &&& forall|i: int| 0 <= i < decoded.len() ==> pack_matches(#[trigger] decoded[i], m.source_packs@[i])
    &&& slogan_index(m) < m.source_packs@.len()
}

/// The decoded slogan transfers hold at least the 1,088 bytes of the
/// slogan surface.
pub open spec fn slogan_transfers_long(decoded: Seq<DecodedPack>) -> bool {
    forall|i: int|
        0 <= i < decoded.len() && #[trigger] decoded[i].header_offset == 0x09_2BA0 ==> decoded[i].data@.len() >= 1_088
}

fn master_fits(master: &[u8], manifest: &CompileSloganManifest) -> (fits: bool)
    ensures
        fits == master_ok(master@, *manifest),
{
    let w = manifest.master_width;
    let h = manifest.master_height;
    let len = master.len();
    if len as u64 > 0x1_0000_0000_0000u64 || w > usize::MAX / 136 || h > usize::MAX / 16 || len % 4 != 0 {
        proof {
            if len % 4 != 0 && master_ok(master@, *manifest) {
                assert((w * h * 4) % 4 == 0) by (nonlinear_arith);
            }
        }
        return false;
    }
    let q = len / 4;
    if w == 0 {
        assert(w * h * 4 == 0) by (nonlinear_arith)
            requires w == 0;
        return len == 0;
    }
    let ok = q % w == 0 && q / w == h;
    proof {
        assert(len == q * 4);
        if ok {
            assert(q == w * h) by (nonlinear_arith)
                requires q % w == 0, q / w == h, w > 0;
        }
        if w * h * 4 == len {
            assert(q == w * h);
            assert(q % w == 0 && q / w == h) by (nonlinear_arith)
                requires q == w * h, w > 0, h >= 0;
        }
    }
    ok
}

fn transfers_long(decoded: &Vec<DecodedPack>) -> (long: bool)
    ensures
        long == slogan_transfers_long(decoded@),
{
    let mut i: usize = 0;
    while i < decoded.len()
        invariant
            i <= decoded@.len(),
            forall|j: int|
                0 <= j < i && #[trigger] decoded@[j].header_offset == 0x09_2BA0 ==> decoded@[j].data@.len() >= 1_088,
        decreases decoded@.len() - i,
    {
        if decoded[i].header_offset == 0x09_2BA0 && decoded[i].data.len() < 1_088 {
            return false;
        }
        i = i + 1;
    }
    true
}

/// Compile the slogan: check the master's size and the slogan transfer's
/// length, then fit the master and encode it over the transfer.
pub fn build_compile_slogan(
    manifest: CompileSloganManifest,
    decoded: &Vec<DecodedPack>,
    master: &[u8],
) -> (build: Result<CompileSloganBuild, Error>)
    ensures
        build is Ok <==> master_ok(master@, manifest) && slogan_transfers_long(decoded@) && build_inputs_ok(
            manifest,
            decoded@,
        ),
        build matches Ok(b) ==> {
            &&& build_wf(b)
            &&& b.manifest == manifest
            &&& b.source_payload@ == decoded@[slogan_index(manifest)].data@
            &&& b.payload@.len() == b.source_payload@.len()
            &&& forall|j: int|
                0 <= j < b.payload@.len() ==> #[trigger] b.payload@[j] == (if j < 1_088 {
                    column_major_byte(b.pixel_fit@, 136, 16, j)
                } else {
                    b.source_payload@[j]
                })
            &&& forall|i: int|
                0 <= i < 136 * 16 ==> #[trigger] fitted_pixel_is(master@, manifest, b.palette@, i, b.pixel_fit@[i])
            &&& forall|i: int|
                0 <= i < 16 ==> #[trigger] b.palette@[i] as nat == spec_parse_hex(
                    manifest.palette_line_words@[i]@,
                ).unwrap()
        },
{
    if !master_fits(master, &manifest) {
        return Err("Compile slogan master size drifted from its manifest");
    }
    if !transfers_long(decoded) {
        return Err("Compile slogan transfer is shorter than its surface");
    }
    build_slogan_checked(manifest, decoded, master)
}

/// Compile the slogan: fit the Korean RGBA `master` to the JP surface, check
/// every declared JP transfer against its decoded counterpart, and write the
/// column-major tiles of the fit over the first 34 tiles of the slogan
/// transfer, leaving its other bytes.
fn build_slogan_checked(
    manifest: CompileSloganManifest,
    decoded: &Vec<DecodedPack>,
    master: &[u8],
) -> (build: Result<CompileSloganBuild, Error>)
    requires
        master_ok(master@, manifest),
        forall|i: int|
            0 <= i < decoded@.len() && #[trigger] decoded@[i].header_offset == 0x09_2BA0 ==> decoded@[i].data@.len()
                >= 1_088,
    ensures
        build is Ok <==> build_inputs_ok(manifest, decoded@),
        build matches Ok(b) ==> {
            &&& build_wf(b)
            &&& b.manifest == manifest
            &&& b.source_payload@ == decoded@[slogan_index(manifest)].data@
            &&& b.payload@.len() == b.source_payload@.len()
            &&& forall|j: int|
                0 <= j < b.payload@.len() ==> #[trigger] b.payload@[j] == (if j < 1_088 {
                    column_major_byte(b.pixel_fit@, 136, 16, j)
                } else {
                    b.source_payload@[j]
                })
            &&& forall|i: int|
                0 <= i < 136 * 16 ==> #[trigger] fitted_pixel_is(master@, manifest, b.palette@, i, b.pixel_fit@[i])
            &&& forall|i: int|
                0 <= i < 16 ==> #[trigger] b.palette@[i] as nat == spec_parse_hex(
                    manifest.palette_line_words@[i]@,
                ).unwrap()
        },
{
    validate_manifest_shape(&manifest)?;
    let palette = parse_md_palette(&manifest.palette_line_words)?;
    let pixel_fit = reduce_master_to_surface(master, &manifest, &palette)?;
    let payloads = checked_source_packs(decoded, &manifest.source_packs)?;
    let index = source_pack(&manifest, COMPILE_SLOGAN_HEADER_OFFSET)?;
    proof {
        crate::pack::lemma_first_header_index_bounds(manifest.source_packs@, 0x09_2BA0, 0);
        assert(pack_matches(decoded@[index as int], manifest.source_packs@[index as int]));
        assert forall|i: int| 0 <= i < 136 * 16 implies #[trigger] pixel_fit@[i] < 16 by {
            assert(fitted_pixel_is(master@, manifest, palette@, i, pixel_fit@[i]));
        }
    }
    let source_payload = payloads[index].clone();
    let slogan_tiles = encode_md_tiles_column_major(
        pixel_fit.as_slice(),
        manifest.output_surface.width,
        manifest.output_surface.height,
    )?;
    if slogan_tiles.len() != COMPILE_SLOGAN_BYTES {
        return Err("Compile slogan encoded to another length");
    }
    let mut payload = source_payload.clone();
    let mut j: usize = 0;
    while j < COMPILE_SLOGAN_BYTES
        invariant
            payload@.len() == source_payload@.len(),
            source_payload@.len() >= 1_088,
            slogan_tiles@.len() == 1_088,
            j <= 1_088,
            forall|q: int|
                0 <= q < payload@.len() ==> #[trigger] payload@[q] == (if q < j {
                    slogan_tiles@[q]
                } else {
                    source_payload@[q]
                }),
        decreases 1_088 - j,
    {
        payload.set(j, slogan_tiles[j]);
        j = j + 1;
    }
    let total = payload.len();
    assert(payload@.subrange(1_088, total as int) =~= source_payload@.subrange(1_088, total as int));
    if !bytes_equal(&payload.as_slice()[COMPILE_SLOGAN_BYTES..total], &source_payload.as_slice()[COMPILE_SLOGAN_BYTES..total]) {
        return Err("Compile slogan compiler changed protected JP pattern bytes");
    }
    Ok(CompileSloganBuild { manifest, palette, source_payload, payload, pixel_fit })
}

/// Summary of a build; `pack_bytes` is the size of its encoded pack bank.
pub open spec fn spec_summary(build: CompileSloganBuild, pack_bytes: usize, checksum: u16) -> CompileSloganSummary {
    CompileSloganSummary {
        rewritten_tiles: 34,
        decoded_bytes: build.payload@.len() as usize,
        pack_bytes,
        checksum,
    }
}

/// Report the counts of a build.
pub fn summary(build: &CompileSloganBuild, pack_bytes: usize, checksum: u16) -> (s: CompileSloganSummary)
    ensures
        s == spec_summary(*build, pack_bytes, checksum),
{
    CompileSloganSummary {
        rewritten_tiles: COMPILE_SLOGAN_TILES,
        decoded_bytes: build.payload.len(),
        pack_bytes,
        checksum,
    }
}

/// Byte `k` of the 544x64 preview: the fitted surface scaled four times.
pub open spec fn preview_byte(build: CompileSloganBuild, k: int) -> u8 {
    let q = k / 4;
    let x = (q % 544) / 4;
    let y = (q / 544) / 4;
    opaque_channel(spec_md_color(build.palette@[build.pixel_fit@[y * 136 + x] as int]), k % 4)
}

/// Render a 4x nearest-neighbour view of the exact Mega Drive pixel fit.
/// This shows source compilation and palette admission, not how the game
/// consumes the tiles.
pub fn write_compile_slogan_preview(build: &CompileSloganBuild, pack_bytes: usize) -> (result: (
    RgbaImage,
    CompileSloganSummary,
))
    requires
        build_wf(*build),
    ensures
        result.0.width == 544,
        result.0.height == 64,
        result.0.rgba@.len() == 544 * 64 * 4,
        forall|k: int| 0 <= k < 544 * 64 * 4 ==> #[trigger] result.0.rgba@[k] == preview_byte(*build, k),
        result.1 == spec_summary(*build, pack_bytes, 0),
{
    let width: usize = 136;
    let preview_width = width * PREVIEW_SCALE;
    let preview_height = 16 * PREVIEW_SCALE;
    let total = preview_width * preview_height;
    let mut rgba: Vec<u8> = Vec::with_capacity(total * 4);
    let mut q: usize = 0;
    while q < total
        invariant
            build_wf(*build),
            preview_width == 544,
            total == 544 * 64,
            q <= total,
            rgba@.len() == q * 4,
            forall|k: int| 0 <= k < q * 4 ==> #[trigger] rgba@[k] == preview_byte(*build, k),
        decreases total - q,
    {
        let x = (q % preview_width) / PREVIEW_SCALE;
        let y = (q / preview_width) / PREVIEW_SCALE;
        proof {
            crate::grid::lemma_index_bound(y as int, x as int, 136, 16);
        }
        let index = build.pixel_fit[y * 136 + x];
        let color = md_color(build.palette[index as usize]);
        let ghost before = rgba@;
        push_opaque(&mut rgba, color);
        assert forall|k: int| 0 <= k < (q + 1) * 4 implies #[trigger] rgba@[k] == preview_byte(*build, k) by {
            if k >= q * 4 {
                assert(k / 4 == q);
                let c = k - q * 4;
                assert(rgba@[before.len() + c] == opaque_channel(color@, c));
            } else {
                assert(rgba@[k] == before[k]);
            }
        }
        q = q + 1;
    }
    let image = RgbaImage { width: preview_width, height: preview_height, rgba };
    (image, summary(build, pack_bytes, 0))
}

/// The writes of the Compile slogan insertion: the pack header over each JP
/// header it replaces, then the bank over the erased expanded bank.
pub open spec fn slogan_writes(source: Seq<u8>, header: Seq<u8>, bank: Seq<u8>) -> Seq<WriteView> {
    seq![header_write(source, 0x09_2BA0, header), bank_write(0x26_8000, bank)]
}

/// Everything the Compile slogan insertion checks: a six-byte header, a bank
/// within its expanded bank, the JP bytes in `source`, and every write
/// finding its expected bytes.
pub open spec fn slogan_insert_ok(source: Seq<u8>, image: Seq<u8>, header: Seq<u8>, bank: Seq<u8>) -> bool {
    let ws = slogan_writes(source, header, bank);
    &&& header.len() == 6
    &&& 0x09_2BA0 + 6 <= source.len()
    &&& writes_ok(image, ws)
}

/// Insert the Compile slogan pack: its six-byte header over the JP header, its
/// bank over the erased expanded bank, then the header checksum. On any
/// refusal the output is left as it was.
pub fn apply_compile_slogan(
    source: &[u8],
    output: &mut Vec<u8>,
    build: &CompileSloganBuild,
    header: &[u8],
    bank: &[u8],
) -> (result: Result<CompileSloganSummary, Error>)
    ensures
        result is Ok <==> slogan_insert_ok(source@, old(output)@, header@, bank@),
        result is Err ==> final(output)@ == old(output)@,
        result matches Ok(s) ==> {
            let ws = slogan_writes(source@, header@, bank@);
            let applied = writes_applied(old(output)@, ws, 2);
            &&& final(output)@ == checksummed(applied)
            &&& s.checksum as int == crate::rom::spec_checksum(applied)
            &&& s == spec_summary(*build, bank@.len() as usize, s.checksum)
            &&& only_ranges_changed(old(output)@, final(output)@, write_ranges(ws))
        },
{
    if header.len() != 6 {
        return Err("Compile slogan pack ends outside its expanded bank or its header is not six bytes");
    }
    let w0 = header_write_of(source, 0x09_2BA0, header)?;
    let writes = vec![w0, bank_write_of(0x26_8000, bank)];
    assert(write_views(writes@) =~= slogan_writes(source@, header@, bank@));
    let checksum = insert_writes(output, &writes)?;
    Ok(summary(build, bank.len(), checksum))
}

} // verus!

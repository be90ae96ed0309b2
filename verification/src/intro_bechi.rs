//! Automatic-prologue impact `べちっ` -> `꽈당!`.
//!
//! The final prologue scene loads three transfers. The last fifteen tiles of
//! the high-pattern transfer form a 24x40 sprite: JP lettering occupies the
//! upper 24x16 pixels and the impact burst the lower 24x24 pixels. Korean
//! lettering is rendered deterministically while the burst and every other
//! decoded byte stay JP-owned.

use vstd::prelude::*;
use crate::hex::{Error, hex_equals, hex_is, parse_hex, spec_parse_hex};
use crate::text::{seq_contains_run, str_contains, string_is};
use crate::sets::{bytes_equal, same_members, same_usize_members};
use crate::pack::{
    DecodedPack, SourcePack, checked_source_packs, first_header_index, pack_matches,
    position_of_header,
};
use crate::palette::{md_color, palette_declared, parse_md_palette, spec_md_color};
use crate::preview::{RgbaImage, checker, checker_color, opaque_channel, push_opaque};
use crate::tiles::{MD_TILE_BYTES, all_nibbles, nibble, pack_nibbles, pack_pair, pixel_roles_are, pixel_roles_match, unpack_pixel};
use crate::font_effect::{CompactGlyph, compact_glyph_renders, compact_pixel, render_compact_8x16_glyph};

use crate::insert::{WriteView, bank_write, bank_write_of, checksummed, header_write, header_write_of, insert_writes, write_ranges, write_views, writes_applied, writes_ok};
use crate::rom::only_ranges_changed;

verus! {

pub const MAP_HEADER_OFFSET: usize = 0x08_D432;
pub const LOW_PATTERN_HEADER_OFFSET: usize = 0x08_D438;
pub const HIGH_PATTERN_HEADER_OFFSET: usize = 0x08_D43E;
pub const HIGH_PATTERN_VRAM: u16 = 0x4000;
pub const MAP_DECODED_BYTES: usize = 2_176;
pub const LOW_PATTERN_DECODED_BYTES: usize = 640;
pub const HIGH_PATTERN_DECODED_BYTES: usize = 9_056;
pub const MUTABLE_TILE_START: usize = 0x10C;
pub const MUTABLE_TILE_END: usize = 0x11B;
pub const MUTABLE_BYTES: usize = 480;
pub const SURFACE_WIDTH: usize = 24;
pub const SURFACE_HEIGHT: usize = 40;
pub const TEXT_HEIGHT: usize = 16;
pub const TARGET_BANK_OFFSET: usize = 0x33_8000;
pub const TARGET_BANK_LIMIT: usize = 0x33_E000;
pub const PREVIEW_SCALE: usize = 8;
pub const PREVIEW_GAP: usize = 8;

/// Counts reported after compiling the prologue impact lettering.
pub struct IntroBechiSummary {
    pub source_pattern_tiles: usize,
    pub rewritten_tiles: usize,
    pub protected_pattern_bytes: usize,
    pub protected_companion_bytes: usize,
    pub protected_decoration_pixels: usize,
    pub pack_bytes: usize,
    pub checksum: u16,
}

pub struct OutputSurface {
    pub width: usize,
    pub height: usize,
    pub text_height: usize,
}

pub struct MutableTileRange {
    pub start: usize,
    pub end_exclusive: usize,
}

pub struct TargetPackBank {
    pub offset: String,
    pub limit: String,
}

/// The prologue-impact asset manifest. `font_size_px` is the compact
/// rasterisation size in whole pixels.
pub struct IntroBechiManifest {
    pub schema_version: u32,
    pub asset_group_id: String,
    pub source_policy: String,
    pub font_asset: String,
    pub font_sha256: String,
    pub font_size_px: u32,
    pub coverage_threshold: u8,
    pub jp: String,
    pub ko: String,
    pub output_surface: OutputSurface,
    pub palette_line_words: Vec<String>,
    pub transparent_palette_index: usize,
    pub source_text_palette_indices: Vec<usize>,
    pub source_decoration_palette_indices: Vec<usize>,
    pub target_ink_palette_index: usize,
    pub mutable_tile_range: MutableTileRange,
    pub tile_layout: Vec<Vec<usize>>,
    pub target_pack_bank: TargetPackBank,
    pub source_packs: Vec<SourcePack>,
}

/// Tile of the JP sprite map in cell (`tx`, `ty`) of its 3x5 cell grid: the
/// lettering tiles run down the columns, the burst's bottom row follows.
pub open spec fn layout_tile(tx: int, ty: int) -> int {
    if ty < 4 { tx * 4 + ty } else { 12 + tx }
}

/// Cell column and row of sprite tile `t`.
pub open spec fn tile_cell_x(t: int) -> int {
    if t < 12 { t / 4 } else { t - 12 }
}

pub open spec fn tile_cell_y(t: int) -> int {
    if t < 12 { t % 4 } else { 4 }
}

/// Row `ty` of a declared layout is the JP sprite map.
pub open spec fn layout_row_ok(row: Seq<usize>, ty: int) -> bool {
    &&& row.len() == 3
    &&& forall|tx: int| 0 <= tx < 3 ==> #[trigger] row[tx] == layout_tile(tx, ty)
}

/// Name, header, VRAM destination and decoded size of declared transfer `k`.
pub open spec fn expected_id(k: int) -> Seq<char> {
    if k == 0 {
        "intro-final-map"@
    } else if k == 1 {
        "intro-final-low-patterns"@
    } else {
        "intro-final-high-patterns"@
    }
}

pub open spec fn expected_header(k: int) -> nat {
    if k == 0 { 0x08_D432 } else if k == 1 { 0x08_D438 } else { 0x08_D43E }
}

pub open spec fn expected_vram(k: int) -> nat {
    if k == 0 { 0xE000 } else if k == 1 { 0x2000 } else { 0x4000 }
}

pub open spec fn expected_bytes(k: int) -> nat {
    if k == 0 { 2_176 } else if k == 1 { 640 } else { 9_056 }
}

/// Declaration `k` names the JP transfer the final scene loads there.
pub open spec fn pack_declared_ok(pack: SourcePack, k: int) -> bool {
    &&& pack.id@ == expected_id(k)
    &&& hex_is(pack.header_offset@, expected_header(k))
    &&& hex_is(pack.vram_destination@, expected_vram(k))
    &&& pack.decoded_bytes == expected_bytes(k)
}

/// Every fixed fact the prologue-impact manifest must declare.
pub open spec fn manifest_shape_ok(m: IntroBechiManifest) -> bool {
    &&& m.schema_version == 1
    &&& m.asset_group_id@ == "GFX-INTRO-BECHI"@
    &&& seq_contains_run(m.source_policy@, "English graphics"@)
    &&& m.jp@ == "べちっ"@
    &&& m.ko@ == "꽈당!"@
    &&& m.ko@.len() == 3
    &&& m.font_size_px == 16
    &&& m.coverage_threshold == 127
    &&& m.output_surface.width == 24
    &&& m.output_surface.height == 40
    &&& m.output_surface.text_height == 16
    &&& m.transparent_palette_index == 0
    &&& m.target_ink_palette_index == 15
    &&& m.mutable_tile_range.start == 0x10C
    &&& m.mutable_tile_range.end_exclusive == 0x11B
    &&& m.tile_layout@.len() == 5
    &&& forall|ty: int| 0 <= ty < 5 ==> #[trigger] layout_row_ok(m.tile_layout@[ty]@, ty)
    &&& hex_is(m.target_pack_bank.offset@, 0x33_8000)
    &&& hex_is(m.target_pack_bank.limit@, 0x33_E000)
    &&& m.source_packs@.len() == 3
    &&& forall|k: int| 0 <= k < 3 ==> #[trigger] pack_declared_ok(m.source_packs@[k], k)
    &&& same_members(m.source_text_palette_indices@, seq![5usize, 12, 15])
    &&& same_members(m.source_decoration_palette_indices@, seq![8usize, 11])
}

fn layout_row_matches(row: &Vec<usize>, ty: usize) -> (same: bool)
    requires
        ty < 5,
    ensures
        same == layout_row_ok(row@, ty as int),
{
    if row.len() != 3 {
        return false;
    }
    let mut tx: usize = 0;
    while tx < 3
        invariant
            row@.len() == 3,
            ty < 5,
            tx <= 3,
            forall|k: int| 0 <= k < tx ==> #[trigger] row@[k] == layout_tile(k, ty as int),
        decreases 3 - tx,
    {
        let expected = if ty < 4 { tx * 4 + ty } else { 12 + tx };
        if row[tx] != expected {
            return false;
        }
        tx = tx + 1;
    }
    true
}

fn check_declared_pack(pack: &SourcePack, k: usize) -> (result: Result<(), Error>)
    requires
        k < 3,
    ensures
        result is Ok <==> pack_declared_ok(*pack, k as int),
{
    let (id_ok, header, vram, bytes) = if k == 0 {
        (string_is(&pack.id, "intro-final-map"), MAP_HEADER_OFFSET, 0xE000usize, MAP_DECODED_BYTES)
    } else if k == 1 {
        (string_is(&pack.id, "intro-final-low-patterns"), LOW_PATTERN_HEADER_OFFSET, 0x2000usize, LOW_PATTERN_DECODED_BYTES)
    } else {
        (string_is(&pack.id, "intro-final-high-patterns"), HIGH_PATTERN_HEADER_OFFSET, 0x4000usize, HIGH_PATTERN_DECODED_BYTES)
    };
    if !id_ok || !hex_equals(&pack.header_offset, header) || !hex_equals(&pack.vram_destination, vram)
        || pack.decoded_bytes != bytes {
        return Err("intro bechi source declaration drifted from the JP consumer");
    }
    Ok(())
}

/// Refuse a manifest whose identity, text contract, surface, palette roles,
/// tile range, sprite map, target bank or source transfers drifted.
pub fn validate_manifest_shape(manifest: &IntroBechiManifest) -> (result: Result<(), Error>)
    ensures
        result is Ok <==> manifest_shape_ok(*manifest),
{
    if manifest.schema_version != 1 || !string_is(&manifest.asset_group_id, "GFX-INTRO-BECHI")
        || !str_contains(manifest.source_policy.as_str(), "English graphics") || !string_is(
        &manifest.jp,
        "べちっ",
    ) || !string_is(&manifest.ko, "꽈당!") || manifest.ko.as_str().unicode_len() != 3
        || manifest.font_size_px != 16 || manifest.coverage_threshold != 127 {
        return Err("unsupported intro bechi manifest identity or text contract");
    }
    let surface = &manifest.output_surface;
    if surface.width != SURFACE_WIDTH || surface.height != SURFACE_HEIGHT || surface.text_height
        != TEXT_HEIGHT || manifest.transparent_palette_index != 0
        || manifest.target_ink_palette_index != 15 {
        return Err("intro bechi output surface or palette roles drifted");
    }
    if manifest.mutable_tile_range.start != MUTABLE_TILE_START
        || manifest.mutable_tile_range.end_exclusive != MUTABLE_TILE_END {
        return Err("intro bechi mutable range drifted from the final fifteen tiles");
    }
    let layout = &manifest.tile_layout;
    if layout.len() != 5 {
        return Err("intro bechi tile layout drifted from the JP sprite map");
    }
    let mut ty: usize = 0;
    while ty < 5
        invariant
            *layout == manifest.tile_layout,
            layout@.len() == 5,
            ty <= 5,
            forall|r: int| 0 <= r < ty ==> #[trigger] layout_row_ok(layout@[r]@, r),
        decreases 5 - ty,
    {
        if !layout_row_matches(&layout[ty], ty) {
            return Err("intro bechi tile layout drifted from the JP sprite map");
        }
        ty = ty + 1;
    }
    if !hex_equals(&manifest.target_pack_bank.offset, TARGET_BANK_OFFSET) || !hex_equals(
        &manifest.target_pack_bank.limit,
        TARGET_BANK_LIMIT,
    ) {
        return Err("intro bechi target bank drifted");
    }
    let packs = &manifest.source_packs;
    if packs.len() != 3 {
        return Err("intro bechi manifest must declare exactly three JP transfers");
    }
    let mut k: usize = 0;
    while k < 3
        invariant
            *packs == manifest.source_packs,
            packs@.len() == 3,
            k <= 3,
            forall|j: int| 0 <= j < k ==> #[trigger] pack_declared_ok(packs@[j], j),
        decreases 3 - k,
    {
        check_declared_pack(&packs[k], k)?;
        k = k + 1;
    }
    if !same_usize_members(manifest.source_text_palette_indices.as_slice(), &[5, 12, 15])
        || !same_usize_members(manifest.source_decoration_palette_indices.as_slice(), &[8, 11]) {
        return Err("intro bechi JP palette-role declaration drifted");
    }
    Ok(())
}

/// The pixels of `pixels` other than `transparent`, in order.
pub open spec fn visible_pixels(pixels: Seq<u8>, transparent: u8) -> Seq<u8>
    decreases pixels.len(),
{
    if pixels.len() == 0 {
        Seq::empty()
    } else if pixels.last() == transparent {
        visible_pixels(pixels.drop_last(), transparent)
    } else {
        visible_pixels(pixels.drop_last(), transparent).push(pixels.last())
    }
}

/// Collect the pixels of `pixels[start..end]` other than `transparent`.
pub fn collect_visible(pixels: &[u8], start: usize, end: usize, transparent: u8) -> (visible: Vec<u8>)
    requires
        start <= end <= pixels@.len(),
    ensures
        visible@ == visible_pixels(pixels@.subrange(start as int, end as int), transparent),
{
    let mut visible: Vec<u8> = Vec::new();
    let mut i = start;
    while i < end
        invariant
            start <= i <= end <= pixels@.len(),
            visible@ == visible_pixels(pixels@.subrange(start as int, i as int), transparent),
        decreases end - i,
    {
        assert(pixels@.subrange(start as int, i + 1).drop_last() =~= pixels@.subrange(start as int, i as int));
        if pixels[i] != transparent {
            visible.push(pixels[i]);
        }
        i = i + 1;
    }
    visible
}

/// The JP sprite keeps its lettering roles in the top 24x16 pixels and its
/// burst roles in the bottom 24x24 pixels.
pub open spec fn source_surface_ok(surface: Seq<u8>, m: IntroBechiManifest) -> bool {
    &&& surface.len() == 960
    &&& pixel_roles_are(visible_pixels(surface.subrange(0, 384), m.transparent_palette_index as u8), m.source_text_palette_indices@)
    &&& pixel_roles_are(visible_pixels(surface.subrange(384, 960), m.transparent_palette_index as u8), m.source_decoration_palette_indices@)
}

/// Refuse a JP sprite whose lettering and burst roles are no longer apart.
pub fn validate_source_surface(surface: &[u8], manifest: &IntroBechiManifest) -> (result: Result<
    (),
    Error,
>)
    ensures
        result is Ok <==> source_surface_ok(surface@, *manifest),
{
    if surface.len() != SURFACE_WIDTH * SURFACE_HEIGHT {
        return Err("intro bechi source surface has the wrong dimensions");
    }
    let transparent = manifest.transparent_palette_index as u8;
    let top = collect_visible(surface, 0, SURFACE_WIDTH * TEXT_HEIGHT, transparent);
    let bottom = collect_visible(surface, SURFACE_WIDTH * TEXT_HEIGHT, surface.len(), transparent);
    if !pixel_roles_match(top.as_slice(), manifest.source_text_palette_indices.as_slice())
        || !pixel_roles_match(bottom.as_slice(), manifest.source_decoration_palette_indices.as_slice()) {
        return Err("intro bechi JP text/decoration separation drifted");
    }
    Ok(())
}

/// Byte of the fifteen sprite tiles that holds surface pixel `i`.
pub open spec fn effect_byte_of_pixel(i: int) -> int {
    let x = i % 24;
    let y = i / 24;
    layout_tile(x / 8, y / 8) * 32 + (y % 8) * 4 + (x % 8) / 2
}

/// Pixel `i` of the 24x40 sprite decoded through the JP sprite map.
pub open spec fn effect_pixel(tiles: Seq<u8>, i: int) -> u8 {
    nibble(tiles[effect_byte_of_pixel(i)], (i % 24) % 2 == 0)
}

/// Surface index of the left pixel that byte `j` of the sprite tiles holds.
pub open spec fn effect_pixel_of_byte(j: int) -> int {
    let t = j / 32;
    let k = j % 32;
    (tile_cell_y(t) * 8 + k / 4) * 24 + tile_cell_x(t) * 8 + (k % 4) * 2
}

/// Byte `j` of the fifteen sprite tiles encoded from a 24x40 surface.
pub open spec fn effect_byte(pixels: Seq<u8>, j: int) -> u8 {
    let i = effect_pixel_of_byte(j);
    pack_nibbles(pixels[i], pixels[i + 1])
}

proof fn lemma_tile_cell(t: int)
    requires
        0 <= t < 15,
    ensures
        0 <= tile_cell_x(t) < 3,
        0 <= tile_cell_y(t) < 5,
        layout_tile(tile_cell_x(t), tile_cell_y(t)) == t,
{
}

proof fn lemma_cell_tile(tx: int, ty: int)
    requires
        0 <= tx < 3,
        0 <= ty < 5,
    ensures
        0 <= layout_tile(tx, ty) < 15,
        tile_cell_x(layout_tile(tx, ty)) == tx,
        tile_cell_y(layout_tile(tx, ty)) == ty,
{
}

proof fn lemma_pixel_byte_bounds(i: int)
    requires
        0 <= i < 960,
    ensures
        0 <= effect_byte_of_pixel(i) < 480,
{
    crate::grid::lemma_split_index(i, 24, 40);
    lemma_cell_tile((i % 24) / 8, (i / 24) / 8);
}

proof fn lemma_byte_pixel_bounds(j: int)
    requires
        0 <= j < 480,
    ensures
        0 <= effect_pixel_of_byte(j),
        effect_pixel_of_byte(j) + 1 < 960,
        (effect_pixel_of_byte(j) % 24) % 2 == 0,
{
    lemma_tile_cell(j / 32);
    let x = tile_cell_x(j / 32) * 8 + ((j % 32) % 4) * 2;
    let y = tile_cell_y(j / 32) * 8 + (j % 32) / 4;
    crate::grid::lemma_row_col(y, x, 24);
}

/// Decode the fifteen sprite tiles into the 24x40 surface.
pub fn decode_effect_surface(tiles: &[u8]) -> (pixels: Result<Vec<u8>, Error>)
    ensures
        pixels is Ok <==> tiles@.len() == 480,
        pixels matches Ok(p) ==> p@.len() == 960 && all_nibbles(p@) && forall|i: int|
            0 <= i < 960 ==> #[trigger] p@[i] == effect_pixel(tiles@, i),
{
    if tiles.len() != MUTABLE_BYTES {
        return Err("intro bechi tile payload length is invalid");
    }
    let mut pixels: Vec<u8> = Vec::with_capacity(960);
    let mut i: usize = 0;
    while i < 960
        invariant
            tiles@.len() == 480,
            i <= 960,
            pixels@.len() == i,
            forall|q: int| 0 <= q < i ==> #[trigger] pixels@[q] == effect_pixel(tiles@, q) && pixels@[q] < 16,
        decreases 960 - i,
    {
        let x = i % SURFACE_WIDTH;
        let y = i / SURFACE_WIDTH;
        let tx = x / 8;
        let ty = y / 8;
        let tile = if ty < 4 { tx * 4 + ty } else { 12 + tx };
        proof {
            lemma_pixel_byte_bounds(i as int);
        }
        let byte = tiles[tile * MD_TILE_BYTES + (y % 8) * 4 + (x % 8) / 2];
        pixels.push(unpack_pixel(byte, (x % 8) % 2 == 0));
        i = i + 1;
    }
    Ok(pixels)
}

/// Encode the 24x40 surface into the fifteen sprite tiles, refusing a pixel
/// above palette index 15.
pub fn encode_effect_surface(pixels: &[u8]) -> (tiles: Result<Vec<u8>, Error>)
    ensures
        tiles is Ok <==> pixels@.len() == 960 && all_nibbles(pixels@),
        tiles matches Ok(t) ==> t@.len() == 480 && forall|j: int|
            0 <= j < 480 ==> #[trigger] t@[j] == effect_byte(pixels@, j),
{
    if pixels.len() != SURFACE_WIDTH * SURFACE_HEIGHT {
        return Err("intro bechi pixel surface has the wrong dimensions");
    }
    let mut i: usize = 0;
    while i < 960
        invariant
            pixels@.len() == 960,
            i <= 960,
            forall|q: int| 0 <= q < i ==> #[trigger] pixels@[q] < 16,
        decreases 960 - i,
    {
        if pixels[i] >= 16 {
            return Err("intro bechi surface contains a palette index above 15");
        }
        i = i + 1;
    }
    let mut tiles: Vec<u8> = Vec::with_capacity(MUTABLE_BYTES);
    let mut j: usize = 0;
    while j < MUTABLE_BYTES
        invariant
            pixels@.len() == 960,
            all_nibbles(pixels@),
            j <= 480,
            tiles@.len() == j,
            forall|q: int| 0 <= q < j ==> #[trigger] tiles@[q] == effect_byte(pixels@, q),
        decreases 480 - j,
    {
        let t = j / MD_TILE_BYTES;
        let k = j % MD_TILE_BYTES;
        let (tx, ty) = if t < 12 {
            (t / 4, t % 4)
        } else {
            (t - 12, 4)
        };
        let x = tx * 8 + (k % 4) * 2;
        let y = ty * 8 + k / 4;
        proof {
            lemma_byte_pixel_bounds(j as int);
        }
        tiles.push(pack_pair(pixels[y * SURFACE_WIDTH + x], pixels[y * SURFACE_WIDTH + x + 1]));
        j = j + 1;
    }
    Ok(tiles)
}

proof fn lemma_unpack_pack(left: u8, right: u8)
    requires
        left < 16,
        right < 16,
    ensures
        nibble(pack_nibbles(left, right), true) == left,
        nibble(pack_nibbles(left, right), false) == right,
{
}

proof fn lemma_pack_unpack(byte: u8)
    ensures
        pack_nibbles(nibble(byte, true), nibble(byte, false)) == byte,
{
}

/// Encoding a 24x40 sprite of 4-bit pixels and decoding the tiles again
/// gives back the same sprite.
pub proof fn lemma_effect_encode_decode(pixels: Seq<u8>, tiles: Seq<u8>)
    requires
        pixels.len() == 960,
        all_nibbles(pixels),
        tiles.len() == 480,
        forall|j: int| 0 <= j < 480 ==> #[trigger] tiles[j] == effect_byte(pixels, j),
    ensures
        forall|i: int| 0 <= i < 960 ==> #[trigger] effect_pixel(tiles, i) == pixels[i],
{
    assert forall|i: int| 0 <= i < 960 implies #[trigger] effect_pixel(tiles, i) == pixels[i] by {
        let x = i % 24;
        let y = i / 24;
        crate::grid::lemma_split_index(i, 24, 40);
        lemma_cell_tile(x / 8, y / 8);
        lemma_pixel_byte_bounds(i);
        let j = effect_byte_of_pixel(i);
        let t = layout_tile(x / 8, y / 8);
        assert(j / 32 == t && j % 32 == (y % 8) * 4 + (x % 8) / 2);
        let left = effect_pixel_of_byte(j);
        assert(left == y * 24 + (x - x % 2));
        assert(tiles[j] == effect_byte(pixels, j));
        lemma_unpack_pack(pixels[left], pixels[left + 1]);
    }
}

/// Decoding the fifteen sprite tiles and encoding the sprite again gives
/// back the same tiles.
pub proof fn lemma_effect_decode_encode(tiles: Seq<u8>, pixels: Seq<u8>)
    requires
        tiles.len() == 480,
        pixels.len() == 960,
        forall|i: int| 0 <= i < 960 ==> #[trigger] pixels[i] == effect_pixel(tiles, i),
    ensures
        forall|j: int| 0 <= j < 480 ==> #[trigger] effect_byte(pixels, j) == tiles[j],
{
    assert forall|j: int| 0 <= j < 480 implies #[trigger] effect_byte(pixels, j) == tiles[j] by {
        let t = j / 32;
        let k = j % 32;
        lemma_tile_cell(t);
        let x = tile_cell_x(t) * 8 + (k % 4) * 2;
        let y = tile_cell_y(t) * 8 + k / 4;
        crate::grid::lemma_row_col(y, x, 24);
        crate::grid::lemma_row_col(y, x + 1, 24);
        assert(effect_byte_of_pixel(y * 24 + x) == j);
        assert(effect_byte_of_pixel(y * 24 + x + 1) == j);
        assert(pixels[y * 24 + x] == effect_pixel(tiles, y * 24 + x));
        assert(pixels[y * 24 + x + 1] == effect_pixel(tiles, y * 24 + x + 1));
        lemma_pack_unpack(tiles[j]);
    }
}

/// Pixel `i` of the Korean 24x40 sprite: the three compact glyphs side by
/// side in the top 24x16 pixels (ink 15 over transparent 0), the JP burst
/// below.
pub open spec fn target_pixel(source: Seq<u8>, glyphs: Seq<CompactGlyph>, i: int) -> u8 {
    if i < 384 {
        let x = i % 24;
        let g = glyphs[x / 8];
        compact_pixel(g.coverage@, g.width as int, g.height as int, 127, 0, 15, (i / 24) * 8 + x % 8)
    } else {
        source[i]
    }
}

/// The Korean sprite rendered over the JP sprite `source`.
pub open spec fn target_surface_of(source: Seq<u8>, glyphs: Seq<CompactGlyph>) -> Seq<u8> {
    Seq::new(960, |i: int| target_pixel(source, glyphs, i))
}

/// Each rasterised glyph is a coverage map of its declared size.
pub open spec fn glyphs_wf(glyphs: Seq<CompactGlyph>) -> bool {
    &&& glyphs.len() == 3
    &&& forall|g: int| 0 <= g < 3 ==> #[trigger] glyphs[g].coverage@.len() == glyphs[g].width * glyphs[g].height
}

/// Every glyph renders and the lettering shows ink.
pub open spec fn target_renders(source: Seq<u8>, glyphs: Seq<CompactGlyph>) -> bool {
    &&& forall|g: int| 0 <= g < 3 ==> #[trigger] compact_glyph_renders(glyphs[g], 127)
    &&& target_surface_of(source, glyphs).subrange(0, 384).contains(15)
}

/// Render the Korean lettering `꽈당!` into the top 24x16 pixels of the JP
/// sprite from the three rasterised glyphs of `ko`, keeping the JP burst.
pub fn render_target_surface(
    source: &[u8],
    manifest: &IntroBechiManifest,
    glyphs: &Vec<CompactGlyph>,
) -> (target: Result<Vec<u8>, Error>)
    requires
        manifest_shape_ok(*manifest),
        source@.len() == 960,
        glyphs_wf(glyphs@),
    ensures
        target is Ok <==> target_renders(source@, glyphs@),
        target matches Ok(t) ==> t@ == target_surface_of(source@, glyphs@),
{
    let transparent = manifest.transparent_palette_index as u8;
    let ink = manifest.target_ink_palette_index as u8;
    let mut target: Vec<u8> = Vec::with_capacity(960);
    let mut i: usize = 0;
    while i < 960
        invariant
            source@.len() == 960,
            transparent == 0,
            i <= 960,
            target@.len() == i,
            forall|q: int| 0 <= q < i ==> #[trigger] target@[q] == (if q < 384 { 0 } else { source@[q] }),
        decreases 960 - i,
    {
        if i < SURFACE_WIDTH * TEXT_HEIGHT {
            target.push(transparent);
        } else {
            target.push(source[i]);
        }
        i = i + 1;
    }
    let mut index: usize = 0;
    while index < 3
        invariant
            manifest_shape_ok(*manifest),
            glyphs_wf(glyphs@),
            source@.len() == 960,
            transparent == 0,
            ink == 15,
            index <= 3,
            target@.len() == 960,
            forall|g: int| 0 <= g < index ==> #[trigger] compact_glyph_renders(glyphs@[g], 127),
            forall|q: int|
                0 <= q < 960 ==> #[trigger] target@[q] == (if q < 384 && (q % 24) / 8 < index {
                    target_pixel(source@, glyphs@, q)
                } else if q < 384 {
                    0
                } else {
                    source@[q]
                }),
        decreases 3 - index,
    {
        let g = &glyphs[index];
        let glyph = match render_compact_8x16_glyph(
            g.width,
            g.height,
            g.coverage.as_slice(),
            manifest.coverage_threshold,
            transparent,
            ink,
        ) {
            Ok(glyph) => glyph,
            Err(e) => {
                assert(!compact_glyph_renders(glyphs@[index as int], 127));
                return Err(e);
            },
        };
        let mut c: usize = 0;
        while c < 128
            invariant
                glyphs_wf(glyphs@),
                *g == glyphs@[index as int],
                index < 3,
                source@.len() == 960,
                glyph@.len() == 128,
                forall|p: int|
                    0 <= p < 128 ==> #[trigger] glyph@[p] == compact_pixel(
                        g.coverage@,
                        g.width as int,
                        g.height as int,
                        127,
                        0,
                        15,
                        p,
                    ),
                c <= 128,
                target@.len() == 960,
                forall|q: int|
                    0 <= q < 960 ==> #[trigger] target@[q] == (if q < 384 && ((q % 24) / 8 < index || ((q % 24) / 8 == index
                        && (q / 24) * 8 + q % 8 < c)) {
                        target_pixel(source@, glyphs@, q)
                    } else if q < 384 {
                        0
                    } else {
                        source@[q]
                    }),
            decreases 128 - c,
        {
            let y = c / 8;
            let x = index * 8 + c % 8;
            let destination = y * SURFACE_WIDTH + x;
            proof {
                crate::grid::lemma_row_col(y as int, x as int, 24);
            }
            target.set(destination, glyph[c]);
            proof {
                assert forall|q: int|
                    0 <= q < 960 implies #[trigger] target@[q] == (if q < 384 && ((q % 24) / 8 < index || ((q % 24) / 8 == index
                        && (q / 24) * 8 + q % 8 < c + 1)) {
                        target_pixel(source@, glyphs@, q)
                    } else if q < 384 {
                        0
                    } else {
                        source@[q]
                    }) by {
                    crate::grid::lemma_split_index(q, 24, 40);
                    if q == destination {
                        assert((q / 24) * 8 + q % 8 == c);
                    } else if q < 384 && (q % 24) / 8 == index && (q / 24) * 8 + q % 8 == c {
                        assert(q / 24 == y && q % 24 == x);
                    }
                }
            }
            c = c + 1;
        }
        index = index + 1;
    }
    assert(target@ =~= target_surface_of(source@, glyphs@)) by {
        assert forall|q: int| 0 <= q < 960 implies #[trigger] target@[q] == target_pixel(source@, glyphs@, q) by {
            crate::grid::lemma_split_index(q, 24, 40);
        }
    }
    assert(target@.subrange(384, 960) =~= source@.subrange(384, 960));
    if !bytes_equal(&target.as_slice()[384..960], &source[384..960]) {
        return Err("intro bechi renderer changed the JP impact burst");
    }
    if !crate::sets::contains_u8(&target.as_slice()[0..384], ink) {
        return Err("intro bechi Korean lettering rendered blank");
    }
    Ok(target)
}

/// Byte `q` of the rewritten high-pattern transfer: the JP bytes with the
/// final fifteen tiles replaced by the Korean sprite.
pub open spec fn payload_byte(source_payload: Seq<u8>, target: Seq<u8>, q: int) -> u8 {
    if 0x10C * 32 <= q < 0x11B * 32 {
        effect_byte(target, q - 0x10C * 32)
    } else {
        source_payload[q]
    }
}

/// A compiled prologue impact before its pack is encoded.
pub struct IntroBechiBuild {
    pub manifest: IntroBechiManifest,
    pub palette: [u16; 16],
    pub source_payload: Vec<u8>,
    pub payload: Vec<u8>,
    pub source_surface: Vec<u8>,
    pub target_surface: Vec<u8>,
    pub protected_companion_bytes: usize,
}

/// A build whose two sprites the preview can draw.
pub open spec fn build_wf(build: IntroBechiBuild) -> bool {
    &&& build.source_surface@.len() == 960
    &&& build.target_surface@.len() == 960
    &&& all_nibbles(build.source_surface@)
    &&& all_nibbles(build.target_surface@)
    &&& build.source_payload@.len() == 9_056
}

/// The JP sprite: the final fifteen tiles of the high-pattern transfer.
pub open spec fn source_sprite(decoded: Seq<DecodedPack>) -> Seq<u8> {
    Seq::new(960, |i: int| effect_pixel(decoded[2].data@.subrange(8_576, 9_056), i))
}

/// Everything the prologue-impact compiler requires of its inputs.
pub open spec fn build_inputs_ok(m: IntroBechiManifest, decoded: Seq<DecodedPack>, glyphs: Seq<CompactGlyph>) -> bool {
    &&& manifest_shape_ok(m)
    &&& palette_declared(m.palette_line_words@.map_values(|w: String| w@))
    &&& decoded.len() == 3
    &&& forall|i: int| 0 <= i < 3 ==> pack_matches(#[trigger] decoded[i], m.source_packs@[i])
    &&& source_surface_ok(source_sprite(decoded), m)
    &&& target_renders(source_sprite(decoded), glyphs)
}

/// Compile the prologue impact from its manifest, the three decoded JP
/// transfers and the rasterised glyphs of `ko`: check every transfer, check
/// that the JP sprite keeps lettering and burst apart, letter the Korean
/// text over it and replace the final fifteen tiles, leaving every other
/// byte.
pub fn build_intro_bechi(
    manifest: IntroBechiManifest,
    decoded: &Vec<DecodedPack>,
    glyphs: &Vec<CompactGlyph>,
) -> (build: Result<IntroBechiBuild, Error>)
    requires
        glyphs_wf(glyphs@),
    ensures
        build is Ok <==> build_inputs_ok(manifest, decoded@, glyphs@),
        build matches Ok(b) ==> {
            &&& build_wf(b)
            &&& b.manifest == manifest
            &&& b.source_payload@ == decoded@[2].data@
            &&& b.payload@.len() == 9_056
            &&& forall|q: int|
                0 <= q < 9_056 ==> #[trigger] b.payload@[q] == payload_byte(decoded@[2].data@, b.target_surface@, q)
            &&& b.source_surface@ == source_sprite(decoded@)
            &&& b.target_surface@ == target_surface_of(source_sprite(decoded@), glyphs@)
            &&& b.protected_companion_bytes == decoded@[0].data@.len() + decoded@[1].data@.len()
            &&& forall|i: int|
                0 <= i < 16 ==> #[trigger] b.palette@[i] as nat == spec_parse_hex(
                    manifest.palette_line_words@[i]@,
                ).unwrap()
        },
{
    validate_manifest_shape(&manifest)?;
    let palette = parse_md_palette(&manifest.palette_line_words)?;
    let payloads = checked_source_packs(decoded, &manifest.source_packs)?;
    proof {
        assert(pack_declared_ok(manifest.source_packs@[0], 0));
        assert(pack_declared_ok(manifest.source_packs@[1], 1));
        assert(pack_declared_ok(manifest.source_packs@[2], 2));
        assert(pack_matches(decoded@[0], manifest.source_packs@[0]));
        assert(pack_matches(decoded@[1], manifest.source_packs@[1]));
        assert(pack_matches(decoded@[2], manifest.source_packs@[2]));
    }
    let mut protected_companion_bytes: usize = 0;
    let mut k: usize = 0;
    while k < payloads.len()
        invariant
            manifest_shape_ok(manifest),
            payloads@.len() == 3,
            forall|i: int| 0 <= i < 3 ==> #[trigger] payloads@[i]@ == decoded@[i].data@,
            decoded@[0].data@.len() == 2_176,
            decoded@[1].data@.len() == 640,
            k <= 3,
            protected_companion_bytes == (if k >= 1 { decoded@[0].data@.len() } else { 0 }) + (if k >= 2 {
                decoded@[1].data@.len()
            } else {
                0
            }),
        decreases 3 - k,
    {
        let header = parse_hex(manifest.source_packs[k].header_offset.as_str())?;
        proof {
            assert(pack_declared_ok(manifest.source_packs@[k as int], k as int));
        }
        if header != HIGH_PATTERN_HEADER_OFFSET {
            protected_companion_bytes = protected_companion_bytes + payloads[k].len();
        }
        k = k + 1;
    }
    proof {
        let packs = manifest.source_packs@;
        assert(pack_declared_ok(packs[0], 0));
        assert(pack_declared_ok(packs[1], 1));
        assert(pack_declared_ok(packs[2], 2));
        assert(first_header_index(packs, 0x08_D43E, 2) == 2);
        assert(first_header_index(packs, 0x08_D43E, 1) == 2);
        assert(first_header_index(packs, 0x08_D43E, 0) == 2);
    }
    let high = match position_of_header(&manifest.source_packs, HIGH_PATTERN_HEADER_OFFSET) {
        Some(high) => high,
        None => {
            return Err("intro bechi manifest has no source pack at the high-pattern header");
        },
    };
    assert(high == 2);
    let source_payload = payloads[high].clone();
    let mutable_start = MUTABLE_TILE_START * MD_TILE_BYTES;
    let mutable_end = MUTABLE_TILE_END * MD_TILE_BYTES;
    let source_surface = decode_effect_surface(&source_payload.as_slice()[mutable_start..mutable_end])?;
    assert(source_surface@ =~= source_sprite(decoded@));
    validate_source_surface(source_surface.as_slice(), &manifest)?;
    let target_surface = render_target_surface(source_surface.as_slice(), &manifest, glyphs)?;
    proof {
        assert forall|i: int| 0 <= i < 960 implies #[trigger] target_surface@[i] < 16 by {
            assert(target_surface@[i] == target_pixel(source_surface@, glyphs@, i));
        }
    }
    let encoded_tiles = encode_effect_surface(target_surface.as_slice())?;
    if encoded_tiles.len() != MUTABLE_BYTES {
        return Err("intro bechi encoded to another length");
    }
    let mut payload = source_payload.clone();
    let mut j: usize = 0;
    while j < MUTABLE_BYTES
        invariant
            source_payload@ == decoded@[2].data@,
            source_payload@.len() == 9_056,
            payload@.len() == 9_056,
            mutable_start == 8_576,
            encoded_tiles@.len() == 480,
            forall|q: int| 0 <= q < 480 ==> #[trigger] encoded_tiles@[q] == effect_byte(target_surface@, q),
            j <= 480,
            forall|q: int|
                0 <= q < 9_056 ==> #[trigger] payload@[q] == (if 8_576 <= q < 8_576 + j {
                    payload_byte(decoded@[2].data@, target_surface@, q)
                } else {
                    source_payload@[q]
                }),
        decreases 480 - j,
    {
        payload.set(mutable_start + j, encoded_tiles[j]);
        j = j + 1;
    }
    assert(payload@.subrange(0, 8_576) =~= source_payload@.subrange(0, 8_576));
    if !bytes_equal(&payload.as_slice()[0..mutable_start], &source_payload.as_slice()[0..mutable_start]) {
        return Err("intro bechi compiler changed protected JP pattern bytes");
    }
    Ok(IntroBechiBuild {
        manifest,
        palette,
        source_payload,
        payload,
        source_surface,
        target_surface,
        protected_companion_bytes,
    })
}

/// Summary of a build; `pack_bytes` is the size of its encoded pack bank.
pub open spec fn spec_summary(build: IntroBechiBuild, pack_bytes: usize, checksum: u16) -> IntroBechiSummary {
    IntroBechiSummary {
        source_pattern_tiles: (build.source_payload@.len() / 32) as usize,
        rewritten_tiles: 15,
        protected_pattern_bytes: (build.source_payload@.len() - 480) as usize,
        protected_companion_bytes: build.protected_companion_bytes,
        protected_decoration_pixels: 576,
        pack_bytes,
        checksum,
    }
}

/// Report the counts of a build.
pub fn summary(build: &IntroBechiBuild, pack_bytes: usize, checksum: u16) -> (s: IntroBechiSummary)
    requires
        build.source_payload@.len() >= 480,
    ensures
        s == spec_summary(*build, pack_bytes, checksum),
{
    IntroBechiSummary {
        source_pattern_tiles: build.source_payload.len() / MD_TILE_BYTES,
        rewritten_tiles: MUTABLE_TILE_END - MUTABLE_TILE_START,
        protected_pattern_bytes: build.source_payload.len() - MUTABLE_BYTES,
        protected_companion_bytes: build.protected_companion_bytes,
        protected_decoration_pixels: SURFACE_WIDTH * (SURFACE_HEIGHT - TEXT_HEIGHT),
        pack_bytes,
        checksum,
    }
}

/// Colour of pixel (`x`, `y`) of one 24x40 panel.
pub open spec fn panel_color(build: IntroBechiBuild, pixels: Seq<u8>, x: int, y: int) -> Seq<u8> {
    let index = pixels[y * 24 + x];
    if index as int == build.manifest.transparent_palette_index {
        checker(x, y, 28, 48)
    } else {
        spec_md_color(build.palette@[index as int])
    }
}

/// Colour of preview pixel (`px`, `py`) of the 392x320 sheet: the JP panel,
/// an 8-pixel gap, the Korean panel, each sprite pixel an 8x8 block.
pub open spec fn preview_color(build: IntroBechiBuild, px: int, py: int) -> Seq<u8> {
    if px < 192 {
        panel_color(build, build.source_surface@, px / 8, py / 8)
    } else if 200 <= px {
        panel_color(build, build.target_surface@, (px - 200) / 8, py / 8)
    } else {
        seq![32u8, 32, 32]
    }
}

/// Byte `k` of the 392x320 preview.
pub open spec fn preview_byte(build: IntroBechiBuild, k: int) -> u8 {
    let q = k / 4;
    opaque_channel(preview_color(build, q % 392, q / 392), k % 4)
}

fn panel_color_of(build: &IntroBechiBuild, target: bool, x: usize, y: usize) -> (color: [u8; 3])
    requires
        build_wf(*build),
        x < 24,
        y < 40,
    ensures
        color@ == panel_color(
            *build,
            if target { build.target_surface@ } else { build.source_surface@ },
            x as int,
            y as int,
        ),
{
    proof {
        crate::grid::lemma_index_bound(y as int, x as int, 24, 40);
    }
    let index = if target {
        build.target_surface[y * SURFACE_WIDTH + x]
    } else {
        build.source_surface[y * SURFACE_WIDTH + x]
    };
    if index as usize == build.manifest.transparent_palette_index {
        checker_color(x, y, 28, 48)
    } else {
        md_color(build.palette[index as usize])
    }
}

/// Render the JP and Korean 24x40 sprites side by side, scaled eight times,
/// transparent pixels on a checkerboard.
pub fn write_intro_bechi_preview(build: &IntroBechiBuild, pack_bytes: usize) -> (result: (
    RgbaImage,
    IntroBechiSummary,
))
    requires
        build_wf(*build),
    ensures
        result.0.width == 392,
        result.0.height == 320,
        result.0.rgba@.len() == 392 * 320 * 4,
        forall|k: int| 0 <= k < 392 * 320 * 4 ==> #[trigger] result.0.rgba@[k] == preview_byte(*build, k),
        result.1 == spec_summary(*build, pack_bytes, 0),
{
    let panel_width = SURFACE_WIDTH * PREVIEW_SCALE;
    let preview_width = panel_width * 2 + PREVIEW_GAP;
    let preview_height = SURFACE_HEIGHT * PREVIEW_SCALE;
    let total = preview_width * preview_height;
    let mut rgba: Vec<u8> = Vec::with_capacity(total * 4);
    let mut q: usize = 0;
    while q < total
        invariant
            build_wf(*build),
            preview_width == 392,
            panel_width == 192,
            total == 392 * 320,
            q <= total,
            rgba@.len() == q * 4,
            forall|k: int| 0 <= k < q * 4 ==> #[trigger] rgba@[k] == preview_byte(*build, k),
        decreases total - q,
    {
        let px = q % preview_width;
        let py = q / preview_width;
        let color = if px < panel_width {
            panel_color_of(build, false, px / PREVIEW_SCALE, py / PREVIEW_SCALE)
        } else if panel_width + PREVIEW_GAP <= px {
            panel_color_of(build, true, (px - panel_width - PREVIEW_GAP) / PREVIEW_SCALE, py / PREVIEW_SCALE)
        } else {
            let gap = [32, 32, 32];
            assert(gap@ =~= seq![32u8, 32, 32]);
            gap
        };
        assert(color@ == preview_color(*build, px as int, py as int));
        let ghost before = rgba@;
        push_opaque(&mut rgba, color);
        assert forall|k: int| 0 <= k < (q + 1) * 4 implies #[trigger] rgba@[k] == preview_byte(*build, k) by {
            if k >= q * 4 {
                assert(k / 4 == q);
                let c = k - q * 4;
                assert(rgba@[before.len() + c] == opaque_channel(color@, c));
            } else {
                assert(rgba@[k] == before[k]);
            }
        }
        q = q + 1;
    }
    let image = RgbaImage { width: preview_width, height: preview_height, rgba };
    (image, summary(build, pack_bytes, 0))
}

/// The writes of the intro bechi insertion: the pack header over each JP
/// header it replaces, then the bank over the erased expanded bank.
pub open spec fn bechi_writes(source: Seq<u8>, header: Seq<u8>, bank: Seq<u8>) -> Seq<WriteView> {
    seq![header_write(source, 0x08_D43E, header), bank_write(0x33_8000, bank)]
}

/// Everything the intro bechi insertion checks: a six-byte header, a bank
/// within its expanded bank, the JP bytes in `source`, and every write
/// finding its expected bytes.
pub open spec fn bechi_insert_ok(source: Seq<u8>, image: Seq<u8>, header: Seq<u8>, bank: Seq<u8>) -> bool {
    let ws = bechi_writes(source, header, bank);
    &&& header.len() == 6
    &&& 0x33_8000 + bank.len() <= 0x33_E000
    &&& 0x08_D43E + 6 <= source.len()
    &&& writes_ok(image, ws)
}

/// Insert the intro bechi pack: its six-byte header over the JP header, its
/// bank over the erased expanded bank, then the header checksum. On any
/// refusal the output is left as it was.
pub fn apply_intro_bechi(
    source: &[u8],
    output: &mut Vec<u8>,
    build: &IntroBechiBuild,
    header: &[u8],
    bank: &[u8],
) -> (result: Result<IntroBechiSummary, Error>)
    requires
        build.source_payload@.len() >= 480,
    ensures
        result is Ok <==> bechi_insert_ok(source@, old(output)@, header@, bank@),
        result is Err ==> final(output)@ == old(output)@,
        result matches Ok(s) ==> {
            let ws = bechi_writes(source@, header@, bank@);
            let applied = writes_applied(old(output)@, ws, 2);
            &&& final(output)@ == checksummed(applied)
            &&& s.checksum as int == crate::rom::spec_checksum(applied)
            &&& s == spec_summary(*build, bank@.len() as usize, s.checksum)
            &&& only_ranges_changed(old(output)@, final(output)@, write_ranges(ws))
        },
{
    if header.len() != 6 || bank.len() > 0x33_E000 - 0x33_8000 {
        return Err("intro bechi pack ends outside its expanded bank or its header is not six bytes");
    }
    let w0 = header_write_of(source, 0x08_D43E, header)?;
    let writes = vec![w0, bank_write_of(0x33_8000, bank)];
    assert(write_views(writes@) =~= bechi_writes(source@, header@, bank@));
    let checksum = insert_writes(output, &writes)?;
    Ok(summary(build, bank.len(), checksum))
}

} // verus!

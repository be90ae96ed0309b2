//! Demon-escape `びゅんっ` -> `휙!` effect.
//!
//! Two JP sprites consume sixteen tiles. Fourteen are arranged as the
//! authored 40x24 sparse surface; the final two hold residual pixels. This
//! compiler owns and clears all sixteen consumer tiles.

use vstd::prelude::*;
use crate::hex::{Error, hex_equals, hex_fits, hex_is, hex_word, parse_hex, parse_u16_hex, spec_parse_hex};
use crate::text::{byte_len, has_byte_len, str_contains, str_eq, string_is, seq_contains_run};
use crate::sets::{bytes_equal, same_members, same_usize_members};
use crate::pack::{DecodedPack, SourcePack, checked_source_pack, pack_matches};
use crate::palette::{md_color, palette_declared, parse_md_palette, spec_md_color};
use crate::preview::{RgbaImage, checker, checker_color, opaque_channel, push_opaque};
use crate::rom::{be16, read_be16, source_range};
use crate::sprite::{size_link_tiles, sprite_tile_count};
use crate::tiles::{MD_TILE_BYTES, all_nibbles, nibble, nibble_roles_are, nibble_roles_match, unpack_pixel};
use crate::digest::{sha256_hex, sha256_hex_of};
use crate::font_effect::{blit_indexed_glyph, blitted, outline_role, render_indexed_glyph};

use crate::insert::{WriteView, bank_write, bank_write_of, checksummed, header_write, header_write_of, insert_writes, write_ranges, write_views, writes_applied, writes_ok};
use crate::rom::only_ranges_changed;

verus! {

pub const BYUN_HEADER_OFFSET: usize = 0x07_5FEE;
pub const BYUN_VRAM_DESTINATION: u16 = 0x5600;
pub const BYUN_BANK_OFFSET: usize = 0x2C_8000;
pub const BYUN_BANK_LIMIT: usize = 0x2D_0000;
pub const BYUN_SOURCE_BYTES: usize = 3_552;
pub const BYUN_SOURCE_TILES: usize = 111;
pub const BYUN_TILE_START: usize = 46;
pub const BYUN_MAPPED_TILE_END: usize = 60;
pub const BYUN_CONSUMER_TILE_END: usize = 62;
pub const BYUN_MAPPED_TILES: usize = 14;
pub const BYUN_CONSUMER_TILES: usize = 16;
pub const BYUN_WIDTH: usize = 40;
pub const BYUN_HEIGHT: usize = 24;
pub const PREVIEW_SCALE: usize = 10;
pub const PREVIEW_GAP: usize = 8;

/// Counts reported after compiling the demon-escape effect.
pub struct DemonByunSummary {
    pub source_tiles: usize,
    pub rewritten_tiles: usize,
    pub mapped_tiles: usize,
    pub cleared_residual_tiles: usize,
    pub protected_source_bytes: usize,
    pub consumer_sprites: usize,
    pub pack_bytes: usize,
    pub checksum: u16,
}

pub struct OutputSurface {
    pub width: usize,
    pub height: usize,
}

pub struct MutableTileRange {
    pub start: usize,
    pub mapped_end_exclusive: usize,
    pub consumer_end_exclusive: usize,
    pub source_sha256: String,
}

pub struct SpriteRecord {
    pub y: String,
    pub size_link: String,
    pub tile: String,
    pub x: String,
}

pub struct SpriteConsumer {
    pub table_base: String,
    pub table_entries: Vec<String>,
    pub definition_offsets: Vec<String>,
    pub records: Vec<SpriteRecord>,
}

/// The demon-escape asset manifest.
pub struct DemonByunManifest {
    pub schema_version: u32,
    pub asset_group_id: String,
    pub source_policy: String,
    pub font_asset: String,
    pub font_sha256: String,
    pub jp_text: String,
    pub ko: String,
    pub output_surface: OutputSurface,
    pub palette_line_words: Vec<String>,
    pub transparent_palette_index: usize,
    pub source_palette_indices: Vec<usize>,
    pub target_palette_index: usize,
    pub mutable_tile_range: MutableTileRange,
    pub tile_layout: Vec<Vec<Option<usize>>>,
    pub source_pack: SourcePack,
    pub sprite_consumer: SpriteConsumer,
}

/// Tile that the JP sparse layout places in cell (`tx`, `ty`) of the 5x3
/// cell grid; the top-right cell is unmapped (-1).
pub open spec fn layout_tile(tx: int, ty: int) -> int {
    if tx < 4 { tx * 3 + ty } else if ty == 0 { -1 } else { 11 + ty }
}

/// Cell column and row of mapped tile `t`.
pub open spec fn tile_cell_x(t: int) -> int {
    if t < 12 { t / 3 } else { 4 }
}

pub open spec fn tile_cell_y(t: int) -> int {
    if t < 12 { t % 3 } else { t - 11 }
}

/// What cell (`tx`, `ty`) of the JP layout holds.
pub open spec fn expected_tile(tx: int, ty: int) -> Option<usize> {
    if layout_tile(tx, ty) >= 0 {
        Some(layout_tile(tx, ty) as usize)
    } else {
        None
    }
}

/// Row `ty` of a declared layout is the JP one.
pub open spec fn layout_row_ok(row: Seq<Option<usize>>, ty: int) -> bool {
    &&& row.len() == 5
    &&& forall|tx: int| 0 <= tx < 5 ==> #[trigger] row[tx] == expected_tile(tx, ty)
}

/// The manifest declares exactly the JP sparse layout.
pub open spec fn layout_ok(layout: Seq<Vec<Option<usize>>>) -> bool {
    &&& layout.len() == 3
    &&& forall|ty: int| 0 <= ty < 3 ==> #[trigger] layout_row_ok(layout[ty]@, ty)
}

fn expected_cell(tx: usize, ty: usize) -> (tile: Option<usize>)
    requires
        tx < 5,
        ty < 3,
    ensures
        tile == expected_tile(tx as int, ty as int),
{
    if tx < 4 {
        Some(tx * 3 + ty)
    } else if ty == 0 {
        None
    } else {
        Some(11 + ty)
    }
}

/// Refuse a manifest whose sparse layout is not the JP one (three rows of
/// five cells owning tiles 0..14 once each).
pub fn validate_layout(manifest: &DemonByunManifest) -> (result: Result<(), Error>)
    ensures
        result is Ok <==> layout_ok(manifest.tile_layout@),
{
    let layout = &manifest.tile_layout;
    if layout.len() != 3 {
        return Err("demon byun tile layout must have three rows");
    }
    let mut ty: usize = 0;
    while ty < 3
        invariant
            layout@ == manifest.tile_layout@,
            layout@.len() == 3,
            ty <= 3,
            forall|r: int| 0 <= r < ty ==> #[trigger] layout_row_ok(layout@[r]@, r),
        decreases 3 - ty,
    {
        let row = &layout[ty];
        if row.len() != 5 {
            assert(!layout_row_ok(layout@[ty as int]@, ty as int));
            return Err("demon byun tile layout must have five columns");
        }
        let mut tx: usize = 0;
        while tx < 5
            invariant
                layout@ == manifest.tile_layout@,
                layout@.len() == 3,
                row@.len() == 5,
                ty < 3,
                *row == layout@[ty as int],
                tx <= 5,
                forall|c: int| 0 <= c < tx ==> #[trigger] row@[c] == expected_tile(c, ty as int),
            decreases 5 - tx,
        {
            let expected = expected_cell(tx, ty);
            let same = match (row[tx], expected) {
                (Some(a), Some(b)) => a == b,
                (None, None) => true,
                _ => false,
            };
            if !same {
                assert(!layout_row_ok(layout@[ty as int]@, ty as int)) by {
                    assert(row@[tx as int] != expected_tile(tx as int, ty as int));
                }
                return Err("demon byun tile layout drifted");
            }
            tx = tx + 1;
        }
        assert(layout_row_ok(layout@[ty as int]@, ty as int));
        ty = ty + 1;
    }
    Ok(())
}

/// Every fixed fact the demon-escape manifest must declare.
pub open spec fn manifest_shape_ok(m: DemonByunManifest) -> bool {
    &&& m.schema_version == 1
    &&& m.asset_group_id@ == "GFX-EVENT-DEMON-BYUN"@
    &&& seq_contains_run(m.source_policy@, "JP"@)
    &&& m.font_asset@ == "neodgm.ttf"@
    &&& m.jp_text@ == "びゅんっ"@
    &&& m.ko@ == "휙!"@
    &&& m.output_surface.width == 40
    &&& m.output_surface.height == 24
    &&& m.transparent_palette_index == 0
    &&& same_members(m.source_palette_indices@, seq![0usize, 13])
    &&& m.target_palette_index == 13
    &&& m.mutable_tile_range.start == 46
    &&& m.mutable_tile_range.mapped_end_exclusive == 60
    &&& m.mutable_tile_range.consumer_end_exclusive == 62
    &&& byte_len(m.mutable_tile_range.source_sha256@) == 64
    &&& layout_ok(m.tile_layout@)
    &&& m.source_pack.id@ == "demon-escape-byun"@
    &&& hex_is(m.source_pack.header_offset@, 0x07_5FEE)
    &&& hex_is(m.source_pack.vram_destination@, 0x5600)
    &&& m.source_pack.decoded_bytes == 3_552
    &&& byte_len(m.source_pack.decoded_sha256@) == 64
    &&& hex_is(m.sprite_consumer.table_base@, 0x06_A984)
    &&& m.sprite_consumer.table_entries@.len() == 2
    &&& m.sprite_consumer.table_entries@[0]@ == "0x06A98E"@
    &&& m.sprite_consumer.table_entries@[1]@ == "0x06A990"@
    &&& m.sprite_consumer.definition_offsets@.len() == 2
    &&& m.sprite_consumer.definition_offsets@[0]@ == "0x06AA1C"@
    &&& m.sprite_consumer.definition_offsets@[1]@ == "0x06AA26"@
    &&& m.sprite_consumer.records@.len() == 2
}

/// Refuse a manifest whose identity, palette roles, ranges, layout, source
/// pack or sprite consumer drifted from the JP structure.
pub fn validate_manifest_shape(manifest: &DemonByunManifest) -> (result: Result<(), Error>)
    ensures
        result is Ok <==> manifest_shape_ok(*manifest),
{
    if manifest.schema_version != 1 || !string_is(&manifest.asset_group_id, "GFX-EVENT-DEMON-BYUN")
        || !str_contains(manifest.source_policy.as_str(), "JP") || !string_is(
        &manifest.font_asset,
        "neodgm.ttf",
    ) || !string_is(&manifest.jp_text, "びゅんっ") || !string_is(&manifest.ko, "휙!")
        || manifest.output_surface.width != BYUN_WIDTH || manifest.output_surface.height
        != BYUN_HEIGHT || manifest.transparent_palette_index != 0 || !same_usize_members(
        manifest.source_palette_indices.as_slice(),
        &[0, 13],
    ) || manifest.target_palette_index != 13 {
        return Err("unsupported demon byun manifest identity");
    }
    let range = &manifest.mutable_tile_range;
    if range.start != BYUN_TILE_START || range.mapped_end_exclusive != BYUN_MAPPED_TILE_END
        || range.consumer_end_exclusive != BYUN_CONSUMER_TILE_END || !has_byte_len(&range.source_sha256, 64) {
        return Err("demon byun mutable range drifted");
    }
    validate_layout(manifest)?;
    let pack = &manifest.source_pack;
    if !string_is(&pack.id, "demon-escape-byun") || !hex_equals(&pack.header_offset, BYUN_HEADER_OFFSET)
        || !hex_equals(&pack.vram_destination, BYUN_VRAM_DESTINATION as usize) || pack.decoded_bytes
        != BYUN_SOURCE_BYTES || !has_byte_len(&pack.decoded_sha256, 64) {
        return Err("demon byun source pack declaration drifted");
    }
    let consumer = &manifest.sprite_consumer;
    if !hex_equals(&consumer.table_base, 0x06_A984) || consumer.table_entries.len() != 2
        || !string_is(&consumer.table_entries[0], "0x06A98E") || !string_is(
        &consumer.table_entries[1],
        "0x06A990",
    ) || consumer.definition_offsets.len() != 2 || !string_is(
        &consumer.definition_offsets[0],
        "0x06AA1C",
    ) || !string_is(&consumer.definition_offsets[1], "0x06AA26") || consumer.records.len() != 2 {
        return Err("demon byun sprite consumer declaration drifted");
    }
    Ok(())
}


/// Sprite tile index of a pattern word (its low eleven bits).
pub open spec fn pattern_tile(word: int) -> int {
    word % 2048
}

/// Offset of the sprite definition that record `i` declares.
pub open spec fn definition_at(m: DemonByunManifest, i: int) -> int {
    spec_parse_hex(m.sprite_consumer.definition_offsets@[i]@).unwrap() as int
}

/// Cells that the JP sprite of record `i` covers.
pub open spec fn record_tiles(source: Seq<u8>, m: DemonByunManifest, i: int) -> int {
    size_link_tiles(be16(source, definition_at(m, i) + 4) as u16)
}

/// Cells owned by the records before record `k`.
pub open spec fn owned_before(source: Seq<u8>, m: DemonByunManifest, k: int) -> int
    decreases k,
{
    if k <= 0 {
        0
    } else {
        owned_before(source, m, k - 1) + record_tiles(source, m, k - 1)
    }
}

/// Record `i` is bound in the JP ROM as declared and its sprite starts at
/// relative tile `start` of the pack.
pub open spec fn consumer_record_ok(source: Seq<u8>, m: DemonByunManifest, i: int, start: int) -> bool {
    let c = m.sprite_consumer;
    let entry = spec_parse_hex(c.table_entries@[i]@);
    let definition = spec_parse_hex(c.definition_offsets@[i]@);
    let r = c.records@[i];
    let d = definition.unwrap() as int;
    &&& hex_fits(c.table_entries@[i]@, usize::MAX as nat)
    &&& hex_fits(c.definition_offsets@[i]@, usize::MAX as nat)
    &&& entry.unwrap() + 2 <= source.len()
    &&& spec_parse_hex(c.table_base@).unwrap() + be16(source, entry.unwrap() as int) == d
    &&& d + 10 <= source.len()
    &&& be16(source, d) == 1
    &&& spec_parse_hex(r.y@) == Some(be16(source, d + 2) as nat)
    &&& spec_parse_hex(r.size_link@) == Some(be16(source, d + 4) as nat)
    &&& spec_parse_hex(r.tile@) == Some(be16(source, d + 6) as nat)
    &&& spec_parse_hex(r.x@) == Some(be16(source, d + 8) as nat)
    &&& pattern_tile(be16(source, d + 6)) - 688 == start
}

/// The JP sprite table still points both records at single-sprite
/// definitions that own the sixteen consumer tiles back to back.
pub open spec fn consumer_ok(source: Seq<u8>, m: DemonByunManifest) -> bool {
    let n = m.sprite_consumer.records@.len() as int;
    &&& forall|i: int|
        0 <= i < n ==> #[trigger] consumer_record_ok(source, m, i, 46 + owned_before(source, m, i))
    &&& owned_before(source, m, n) == 16
}

/// Check record `index` of the sprite consumer, whose sprite must start at
/// relative tile `start`; yield the number of cells the sprite covers.
fn check_consumer_record(
    source: &[u8],
    manifest: &DemonByunManifest,
    index: usize,
    start: usize,
) -> (tiles: Result<usize, Error>)
    requires
        manifest_shape_ok(*manifest),
        index < 2,
    ensures
        tiles is Ok <==> consumer_record_ok(source@, *manifest, index as int, start as int),
        tiles matches Ok(t) ==> t as int == record_tiles(source@, *manifest, index as int),
{
    let consumer = &manifest.sprite_consumer;
    let table_base = parse_hex(consumer.table_base.as_str())?;
    let entry = parse_hex(consumer.table_entries[index].as_str())?;
    let definition = parse_hex(consumer.definition_offsets[index].as_str())?;
    let relative = source_range(source, entry, 2)?;
    if table_base + read_be16(relative, 0) as usize != definition {
        return Err("demon byun table entry drifted");
    }
    let bytes = source_range(source, definition, 10)?;
    if read_be16(bytes, 0) != 1 {
        return Err("demon byun definition is not one sprite");
    }
    let y = read_be16(bytes, 2);
    let size_link = read_be16(bytes, 4);
    let tile_word = read_be16(bytes, 6);
    let x = read_be16(bytes, 8);
    let declared = &consumer.records[index];
    let expected_y = parse_u16_hex(declared.y.as_str())?;
    let expected_size = parse_u16_hex(declared.size_link.as_str())?;
    let expected_tile = parse_u16_hex(declared.tile.as_str())?;
    let expected_x = parse_u16_hex(declared.x.as_str())?;
    if y != expected_y || size_link != expected_size || tile_word != expected_tile || x != expected_x {
        return Err("demon byun sprite record drifted");
    }
    let tile = (tile_word % 2048) as usize;
    let pack_base_tile = BYUN_VRAM_DESTINATION as usize / MD_TILE_BYTES;
    if tile < pack_base_tile {
        return Err("demon byun sprite tile precedes its pack");
    }
    let relative_start = tile - pack_base_tile;
    if relative_start != start {
        return Err("demon byun sprite starts at another relative tile");
    }
    Ok(sprite_tile_count(size_link))
}

/// Refuse a JP ROM whose sprite table no longer binds the two records to
/// single sprites owning tiles 46..62 of the pack, back to back.
pub fn validate_sprite_consumer(source: &[u8], manifest: &DemonByunManifest) -> (result: Result<
    (),
    Error,
>)
    requires
        manifest_shape_ok(*manifest),
    ensures
        result is Ok <==> consumer_ok(source@, *manifest),
{
    let count = manifest.sprite_consumer.records.len();
    let mut owned: usize = 0;
    let mut index: usize = 0;
    while index < count
        invariant
            manifest_shape_ok(*manifest),
            count == manifest.sprite_consumer.records@.len(),
            count == 2,
            index <= count,
            owned as int == owned_before(source@, *manifest, index as int),
            owned <= 16 * index,
            forall|i: int|
                0 <= i < index ==> #[trigger] consumer_record_ok(
                    source@,
                    *manifest,
                    i,
                    46 + owned_before(source@, *manifest, i),
                ),
        decreases count - index,
    {
        let tiles = check_consumer_record(source, manifest, index, BYUN_TILE_START + owned)?;
        assert(tiles <= 16) by {
            let w = be16(source@, definition_at(*manifest, index as int) + 4) as u16;
            crate::sprite::lemma_size_link_tiles_bound(w);
        }
        owned = owned + tiles;
        index = index + 1;
    }
    if owned != BYUN_CONSUMER_TILES {
        return Err("demon byun sprites do not own sixteen tiles");
    }
    Ok(())
}

/// The sixteen consumer tiles of the JP pack are the declared ones and use
/// exactly the declared palette roles.
pub open spec fn source_tiles_ok(tiles: Seq<u8>, m: DemonByunManifest) -> bool {
    &&& tiles.len() == 16 * 32
    &&& sha256_hex_of(tiles) == m.mutable_tile_range.source_sha256@
    &&& nibble_roles_are(tiles, m.source_palette_indices@)
}

/// Refuse JP consumer tiles whose length, SHA-256 or palette roles drifted.
pub fn validate_source_tiles(tiles: &[u8], manifest: &DemonByunManifest) -> (result: Result<
    (),
    Error,
>)
    ensures
        result is Ok <==> source_tiles_ok(tiles@, *manifest),
{
    if tiles.len() != BYUN_CONSUMER_TILES * MD_TILE_BYTES {
        return Err("demon byun source tile range length is invalid");
    }
    let actual_hash = sha256_hex(tiles);
    if !str_eq(actual_hash.as_str(), manifest.mutable_tile_range.source_sha256.as_str()) {
        return Err("demon byun source SHA-256 mismatch");
    }
    if !nibble_roles_match(tiles, manifest.source_palette_indices.as_slice()) {
        return Err("demon byun source palette drifted");
    }
    Ok(())
}

/// The `!` drawn beside the Korean glyph: a 4x11 bar and a 4x4 dot.
pub open spec fn exclamation_at(x: int, y: int) -> bool {
    24 <= x < 28 && ((4 <= y < 15) || (17 <= y < 21))
}

/// Draw the exclamation mark into a 40x24 surface in the `opaque` role.
pub fn draw_exclamation(output: &mut [u8], opaque: u8) -> (result: Result<(), Error>)
    ensures
        result is Ok <==> old(output)@.len() == 40 * 24,
        final(output)@.len() == old(output)@.len(),
        result is Err ==> final(output)@ == old(output)@,
        result is Ok ==> forall|i: int|
            0 <= i < 40 * 24 ==> #[trigger] final(output)@[i] == (if exclamation_at(i % 40, i / 40) {
                opaque
            } else {
                old(output)@[i]
            }),
{
    if output.len() != BYUN_WIDTH * BYUN_HEIGHT {
        return Err("demon byun exclamation surface is invalid");
    }
    let ghost before = output@;
    let mut i: usize = 0;
    while i < BYUN_WIDTH * BYUN_HEIGHT
        invariant
            output@.len() == 960,
            before.len() == 960,
            i <= 960,
            forall|j: int|
                0 <= j < 960 ==> #[trigger] output@[j] == (if j < i && exclamation_at(j % 40, j / 40) {
                    opaque
                } else {
                    before[j]
                }),
        decreases 960 - i,
    {
        let x = i % BYUN_WIDTH;
        let y = i / BYUN_WIDTH;
        if 24 <= x && x < 28 && ((4 <= y && y < 15) || (17 <= y && y < 21)) {
            output[i] = opaque;
        }
        i = i + 1;
    }
    Ok(())
}

/// Pixel `i` of the Korean 40x24 surface: the glyph core at (2, 4) without
/// an outline, and the exclamation mark.
pub open spec fn target_pixel(core: Seq<bool>, transparent: u8, opaque: u8, i: int) -> u8 {
    let x = i % 40;
    let y = i / 40;
    if exclamation_at(x, y) {
        opaque
    } else if 2 <= x < 18 && 4 <= y < 20 && core[(y - 4) * 16 + (x - 2)] {
        opaque
    } else {
        transparent
    }
}

/// Render the Korean `휙!` surface from the 16x16 core of `휙`. The effect
/// exposes one opaque role, so the glyph keeps its native core without an
/// outline (reusing that role for the rings would close the counters).
pub fn render_target_surface(core: &[bool], manifest: &DemonByunManifest) -> (surface: Result<
    Vec<u8>,
    Error,
>)
    requires
        manifest_shape_ok(*manifest),
        core@.len() == 256,
    ensures
        surface is Ok,
        surface matches Ok(p) ==> p@.len() == 960 && forall|i: int|
            0 <= i < 960 ==> #[trigger] p@[i] == target_pixel(core@, 0, 13, i),
{
    let transparent = manifest.transparent_palette_index as u8;
    let opaque = manifest.target_palette_index as u8;
    let mut output: Vec<u8> = vec![transparent; BYUN_WIDTH * BYUN_HEIGHT];
    let glyph = render_indexed_glyph(core, transparent, opaque, transparent, transparent);
    let ghost blank = output@;
    blit_indexed_glyph(output.as_mut_slice(), BYUN_WIDTH, BYUN_HEIGHT, 2, 4, glyph.as_slice())?;
    let ghost with_glyph = output@;
    draw_exclamation(output.as_mut_slice(), opaque)?;
    assert forall|i: int| 0 <= i < 960 implies #[trigger] output@[i] == target_pixel(core@, 0, 13, i) by {
        let x = i % 40;
        let y = i / 40;
        if !exclamation_at(x, y) {
            assert(output@[i] == with_glyph[i]);
            assert(with_glyph[i] == blitted(blank, 40, 2, 4, glyph@, i));
            if 2 <= x < 18 && 4 <= y < 20 {
                let g = (y - 4) * 16 + (x - 2);
                assert(0 <= g < 256) by (nonlinear_arith)
                    requires
                        0 <= y - 4 < 16,
                        0 <= x - 2 < 16,
                        g == (y - 4) * 16 + (x - 2),
                ;
                assert(g % 16 == x - 2 && g / 16 == y - 4) by {
                    crate::grid::lemma_row_col(y - 4, x - 2, 16);
                }
            }
        }
    }
    let mut k: usize = 0;
    while k < 64
        invariant
            output@.len() == 960,
            forall|i: int| 0 <= i < 960 ==> #[trigger] output@[i] == target_pixel(core@, 0, 13, i),
            transparent == 0,
        decreases 64 - k,
    {
        let y = k / 8;
        let x = 32 + k % 8;
        if output[y * BYUN_WIDTH + x] != transparent {
            assert(output@[y * 40 + x] == target_pixel(core@, 0, 13, y * 40 + x));
            assert((y * 40 + x) % 40 == x && (y * 40 + x) / 40 == y) by {
                crate::grid::lemma_row_col(y as int, x as int, 40);
            }
            return Err("demon byun target uses the unmapped top-right cell");
        }
        k = k + 1;
    }
    Ok(output)
}

/// The unmapped top-right 8x8 cell of a 40x24 surface is transparent.
pub open spec fn unmapped_clear(pixels: Seq<u8>) -> bool {
    forall|i: int| 0 <= i < 960 && i % 40 >= 32 && i / 40 < 8 ==> #[trigger] pixels[i] == 0
}

/// Byte `j` of the fourteen mapped tiles: the two pixels of row `k / 4`,
/// columns `2 * (k % 4)` and one more, of the cell that the layout gives
/// tile `j / 32`, left pixel in the high nibble.
pub open spec fn sparse_byte(pixels: Seq<u8>, j: int) -> u8 {
    let t = j / 32;
    let k = j % 32;
    let x = tile_cell_x(t) * 8 + (k % 4) * 2;
    let y = tile_cell_y(t) * 8 + k / 4;
    (pixels[y * 40 + x] << 4u8) | pixels[y * 40 + x + 1]
}

/// Pixel `i` of the 40x24 surface decoded from the fourteen mapped tiles;
/// the unmapped cell is transparent.
pub open spec fn sparse_pixel(tiles: Seq<u8>, i: int) -> u8 {
    let x = i % 40;
    let y = i / 40;
    let t = layout_tile(x / 8, y / 8);
    if t < 0 {
        0
    } else {
        nibble(tiles[t * 32 + (y % 8) * 4 + (x % 8) / 2], (x % 8) % 2 == 0)
    }
}

proof fn lemma_tile_cell(t: int)
    requires
        0 <= t < 14,
    ensures
        0 <= tile_cell_x(t) < 5,
        0 <= tile_cell_y(t) < 3,
        layout_tile(tile_cell_x(t), tile_cell_y(t)) == t,
{
}

proof fn lemma_cell_tile(cx: int, cy: int)
    requires
        0 <= cx < 5,
        0 <= cy < 3,
    ensures
        layout_tile(cx, cy) < 14,
        layout_tile(cx, cy) >= 0 ==> tile_cell_x(layout_tile(cx, cy)) == cx && tile_cell_y(
            layout_tile(cx, cy),
        ) == cy,
        layout_tile(cx, cy) < 0 <==> (cx == 4 && cy == 0),
{
}

/// Encode a 40x24 indexed surface into the fourteen tiles of the JP sparse
/// layout, refusing ink in the unmapped top-right cell.
pub fn encode_sparse_surface(pixels: &[u8], manifest: &DemonByunManifest) -> (tiles: Result<
    Vec<u8>,
    Error,
>)
    ensures
        tiles is Ok <==> manifest_shape_ok(*manifest) && pixels@.len() == 960 && unmapped_clear(pixels@),
        tiles matches Ok(b) ==> b@.len() == 14 * 32 && forall|j: int|
            0 <= j < 14 * 32 ==> #[trigger] b@[j] == sparse_byte(pixels@, j),
{
    validate_manifest_shape(manifest)?;
    if pixels.len() != BYUN_WIDTH * BYUN_HEIGHT {
        return Err("demon byun surface length is invalid");
    }
    let transparent = manifest.transparent_palette_index as u8;
    let mut k: usize = 0;
    while k < 64
        invariant
            pixels@.len() == 960,
            transparent == 0,
            k <= 64,
            forall|i: int|
                0 <= i < 960 && i % 40 >= 32 && i / 40 < 8 && (i / 40) * 8 + (i % 40 - 32) < k
                    ==> #[trigger] pixels@[i] == 0,
        decreases 64 - k,
    {
        let y = k / 8;
        let x = 32 + k % 8;
        proof {
            crate::grid::lemma_row_col(y as int, x as int, 40);
        }
        if pixels[y * BYUN_WIDTH + x] != transparent {
            return Err("demon byun has an opaque pixel in its unmapped cell");
        }
        proof {
            assert forall|i: int|
                0 <= i < 960 && i % 40 >= 32 && i / 40 < 8 && (i / 40) * 8 + (i % 40 - 32) < k + 1
                    implies #[trigger] pixels@[i] == 0 by {
                if (i / 40) * 8 + (i % 40 - 32) == k {
                    crate::grid::lemma_split_index(i, 40, 24);
                }
            }
        }
        k = k + 1;
    }
    let mut output: Vec<u8> = Vec::with_capacity(BYUN_MAPPED_TILES * MD_TILE_BYTES);
    let mut j: usize = 0;
    while j < BYUN_MAPPED_TILES * MD_TILE_BYTES
        invariant
            pixels@.len() == 960,
            j <= 448,
            output@.len() == j,
            forall|q: int| 0 <= q < j ==> #[trigger] output@[q] == sparse_byte(pixels@, q),
        decreases 448 - j,
    {
        let t = j / MD_TILE_BYTES;
        let k = j % MD_TILE_BYTES;
        let (cx, cy) = if t < 12 {
            (t / 3, t % 3)
        } else {
            (4, t - 11)
        };
        let x = cx * 8 + (k % 4) * 2;
        let y = cy * 8 + k / 4;
        let left = pixels[y * BYUN_WIDTH + x];
        let right = pixels[y * BYUN_WIDTH + x + 1];
        output.push((left << 4) | right);
        j = j + 1;
    }
    Ok(output)
}

/// Decode the fourteen mapped tiles back into the JP 40x24 surface by the
/// manifest's sparse layout.
pub fn decode_sparse_surface(tiles: &[u8], manifest: &DemonByunManifest) -> (surface: Result<
    Vec<u8>,
    Error,
>)
    ensures
        surface is Ok <==> manifest_shape_ok(*manifest) && tiles@.len() == 14 * 32,
        surface matches Ok(p) ==> p@.len() == 960 && forall|i: int|
            0 <= i < 960 ==> #[trigger] p@[i] == sparse_pixel(tiles@, i),
{
    validate_manifest_shape(manifest)?;
    if tiles.len() != BYUN_MAPPED_TILES * MD_TILE_BYTES {
        return Err("demon byun mapped tile length is invalid");
    }
    let transparent = manifest.transparent_palette_index as u8;
    let mut output: Vec<u8> = Vec::with_capacity(BYUN_WIDTH * BYUN_HEIGHT);
    let mut i: usize = 0;
    while i < BYUN_WIDTH * BYUN_HEIGHT
        invariant
            manifest_shape_ok(*manifest),
            transparent == 0,
            tiles@.len() == 448,
            i <= 960,
            output@.len() == i,
            forall|q: int| 0 <= q < i ==> #[trigger] output@[q] == sparse_pixel(tiles@, q),
        decreases 960 - i,
    {
        let x = i % BYUN_WIDTH;
        let y = i / BYUN_WIDTH;
        let cx = x / 8;
        let cy = y / 8;
        proof {
            lemma_cell_tile(cx as int, cy as int);
            assert(layout_row_ok(manifest.tile_layout@[cy as int]@, cy as int));
        }
        let row = &manifest.tile_layout[cy];
        let pixel = match row[cx] {
            None => transparent,
            Some(t) => {
                let byte = tiles[t * MD_TILE_BYTES + (y % 8) * 4 + (x % 8) / 2];
                unpack_pixel(byte, (x % 8) % 2 == 0)
            },
        };
        output.push(pixel);
        i = i + 1;
    }
    Ok(output)
}

proof fn lemma_byte_from_nibbles(b: u8)
    ensures
        ((b / 16) << 4u8) | (b % 16) == b,
{
    assert(((b / 16) << 4u8) | (b % 16) == b) by (bit_vector);
}

proof fn lemma_nibbles_of_byte(l: u8, r: u8)
    requires
        l < 16,
        r < 16,
    ensures
        ((l << 4u8) | r) / 16 == l,
        ((l << 4u8) | r) % 16 == r,
{
    assert(((l << 4u8) | r) / 16 == l && ((l << 4u8) | r) % 16 == r) by (bit_vector)
        requires
            l < 16,
            r < 16,
    ;
}

/// Decoding the fourteen mapped tiles and encoding the surface again gives
/// back the same tiles.
pub proof fn lemma_sparse_decode_encode(tiles: Seq<u8>, pixels: Seq<u8>)
    requires
        tiles.len() == 14 * 32,
        pixels.len() == 960,
        forall|i: int| 0 <= i < 960 ==> #[trigger] pixels[i] == sparse_pixel(tiles, i),
    ensures
        unmapped_clear(pixels),
        forall|j: int| 0 <= j < 14 * 32 ==> #[trigger] sparse_byte(pixels, j) == tiles[j],
{
    assert forall|i: int| 0 <= i < 960 && i % 40 >= 32 && i / 40 < 8 implies #[trigger] pixels[i] == 0 by {
        assert(sparse_pixel(tiles, i) == 0);
    }
    assert forall|j: int| 0 <= j < 14 * 32 implies #[trigger] sparse_byte(pixels, j) == tiles[j] by {
        let t = j / 32;
        let k = j % 32;
        lemma_tile_cell(t);
        let x = tile_cell_x(t) * 8 + (k % 4) * 2;
        let y = tile_cell_y(t) * 8 + k / 4;
        crate::grid::lemma_row_col(y, x, 40);
        crate::grid::lemma_row_col(y, x + 1, 40);
        assert(t * 32 + (y % 8) * 4 + (x % 8) / 2 == j);
        assert(t * 32 + (y % 8) * 4 + ((x + 1) % 8) / 2 == j);
        assert(pixels[y * 40 + x] == sparse_pixel(tiles, y * 40 + x));
        assert(pixels[y * 40 + x + 1] == sparse_pixel(tiles, y * 40 + x + 1));
        lemma_byte_from_nibbles(tiles[j]);
    }
}

/// Encoding a 40x24 surface of 4-bit pixels whose unmapped cell is clear and
/// decoding the tiles again gives back the same surface.
pub proof fn lemma_sparse_encode_decode(pixels: Seq<u8>, tiles: Seq<u8>)
    requires
        pixels.len() == 960,
        all_nibbles(pixels),
        unmapped_clear(pixels),
        tiles.len() == 14 * 32,
        forall|j: int| 0 <= j < 14 * 32 ==> #[trigger] tiles[j] == sparse_byte(pixels, j),
    ensures
        forall|i: int| 0 <= i < 960 ==> #[trigger] sparse_pixel(tiles, i) == pixels[i],
{
    assert forall|i: int| 0 <= i < 960 implies #[trigger] sparse_pixel(tiles, i) == pixels[i] by {
        let x = i % 40;
        let y = i / 40;
        crate::grid::lemma_split_index(i, 40, 24);
        lemma_cell_tile(x / 8, y / 8);
        let t = layout_tile(x / 8, y / 8);
        if t >= 0 {
            let j = t * 32 + (y % 8) * 4 + (x % 8) / 2;
            assert(j / 32 == t && j % 32 == (y % 8) * 4 + (x % 8) / 2);
            let xl = x - x % 2;
            assert(tile_cell_x(t) * 8 + ((j % 32) % 4) * 2 == xl);
            assert(tile_cell_y(t) * 8 + (j % 32) / 4 == y);
            assert(tiles[j] == sparse_byte(pixels, j));
            lemma_nibbles_of_byte(pixels[y * 40 + xl], pixels[y * 40 + xl + 1]);
            if x % 2 == 0 {
                assert(y * 40 + xl == i);
            } else {
                assert(y * 40 + xl + 1 == i);
            }
        }
    }
}

/// The Korean 40x24 surface rendered from the core of `휙`.
pub open spec fn target_surface_of(core: Seq<bool>) -> Seq<u8> {
    Seq::new(960, |i: int| target_pixel(core, 0, 13, i))
}

/// Byte `q` of the rewritten pack: the JP bytes, with the sixteen consumer
/// tiles replaced by the fourteen Korean sparse tiles and two cleared tiles.
pub open spec fn payload_byte(source_payload: Seq<u8>, core: Seq<bool>, q: int) -> u8 {
    if 46 * 32 <= q < 60 * 32 {
        sparse_byte(target_surface_of(core), q - 46 * 32)
    } else if 60 * 32 <= q < 62 * 32 {
        0
    } else {
        source_payload[q]
    }
}

/// A compiled demon-escape effect before its pack is encoded.
pub struct DemonByunBuild {
    pub manifest: DemonByunManifest,
    pub palette: [u16; 16],
    pub source_payload: Vec<u8>,
    pub payload: Vec<u8>,
    pub source_surface: Vec<u8>,
    pub target_surface: Vec<u8>,
}

/// A build whose two surfaces the preview can draw.
pub open spec fn build_wf(build: DemonByunBuild) -> bool {
    &&& build.source_surface@.len() == 960
    &&& build.target_surface@.len() == 960
    &&& all_nibbles(build.source_surface@)
    &&& all_nibbles(build.target_surface@)
}

/// Everything the demon-escape compiler requires of its inputs.
pub open spec fn build_inputs_ok(source: Seq<u8>, m: DemonByunManifest, decoded: DecodedPack) -> bool {
    &&& manifest_shape_ok(m)
    &&& palette_declared(m.palette_line_words@.map_values(|w: String| w@))
    &&& pack_matches(decoded, m.source_pack)
    &&& consumer_ok(source, m)
    &&& source_tiles_ok(decoded.data@.subrange(1472, 1984), m)
}

/// Compile the demon-escape effect from the JP ROM, its manifest, the
/// decoded JP pack and the 16x16 core of `휙`: check the JP pack and its
/// sprite consumer, decode the JP surface, render and encode the Korean one
/// and replace the sixteen consumer tiles, leaving every other byte.
pub fn build_demon_byun(
    source: &[u8],
    manifest: DemonByunManifest,
    decoded: &DecodedPack,
    glyph_core: &[bool],
) -> (build: Result<DemonByunBuild, Error>)
    requires
        glyph_core@.len() == 256,
    ensures
        build is Ok <==> build_inputs_ok(source@, manifest, *decoded),
        build matches Ok(b) ==> {
            &&& build_wf(b)
            &&& b.manifest == manifest
            &&& b.source_payload@ == decoded.data@
            &&& b.payload@.len() == 3_552
            &&& forall|q: int|
                0 <= q < 3_552 ==> #[trigger] b.payload@[q] == payload_byte(decoded.data@, glyph_core@, q)
            &&& forall|i: int|
                0 <= i < 960 ==> #[trigger] b.source_surface@[i] == sparse_pixel(
                    decoded.data@.subrange(1472, 1920),
                    i,
                )
            &&& b.target_surface@ == target_surface_of(glyph_core@)
            &&& forall|i: int|
                0 <= i < 16 ==> #[trigger] b.palette@[i] as nat == spec_parse_hex(
                    manifest.palette_line_words@[i]@,
                ).unwrap()
        },
{
    validate_manifest_shape(&manifest)?;
    let palette = parse_md_palette(&manifest.palette_line_words)?;
    let source_payload = checked_source_pack(decoded, &manifest.source_pack)?;
    validate_sprite_consumer(source, &manifest)?;
    let mutable_start = BYUN_TILE_START * MD_TILE_BYTES;
    let mapped_end = BYUN_MAPPED_TILE_END * MD_TILE_BYTES;
    let mutable_end = BYUN_CONSUMER_TILE_END * MD_TILE_BYTES;
    let source_tiles = &source_payload.as_slice()[mutable_start..mutable_end];
    validate_source_tiles(source_tiles, &manifest)?;
    let source_surface = decode_sparse_surface(
        &source_payload.as_slice()[mutable_start..mapped_end],
        &manifest,
    )?;
    let target_surface = render_target_surface(glyph_core, &manifest)?;
    assert(target_surface@ =~= target_surface_of(glyph_core@));
    let replacement = encode_sparse_surface(target_surface.as_slice(), &manifest)?;
    let mut payload = source_payload.clone();
    let mut j: usize = 0;
    while j < BYUN_CONSUMER_TILES * MD_TILE_BYTES
        invariant
            source_payload@ == decoded.data@,
            source_payload@.len() == 3_552,
            payload@.len() == 3_552,
            replacement@.len() == 448,
            target_surface@ == target_surface_of(glyph_core@),
            forall|q: int| 0 <= q < 448 ==> #[trigger] replacement@[q] == sparse_byte(target_surface@, q),
            j <= 512,
            mutable_start == 1472,
            forall|q: int|
                0 <= q < 3_552 ==> #[trigger] payload@[q] == (if 1472 <= q < 1472 + j {
                    payload_byte(decoded.data@, glyph_core@, q)
                } else {
                    source_payload@[q]
                }),
        decreases 512 - j,
    {
        let byte = if j < BYUN_MAPPED_TILES * MD_TILE_BYTES {
            replacement[j]
        } else {
            0
        };
        payload.set(mutable_start + j, byte);
        j = j + 1;
    }
    let total = payload.len();
    assert(payload@.subrange(0, 1472) =~= source_payload@.subrange(0, 1472));
    assert(payload@.subrange(1984, 3552) =~= source_payload@.subrange(1984, 3552));
    if !bytes_equal(&payload.as_slice()[0..mutable_start], &source_payload.as_slice()[0..mutable_start])
        || !bytes_equal(&payload.as_slice()[mutable_end..total], &source_payload.as_slice()[mutable_end..total]) {
        return Err("demon byun compiler changed protected JP bytes");
    }
    proof {
        assert forall|i: int| 0 <= i < 960 implies #[trigger] source_surface@[i] < 16 by {
            assert(source_surface@[i] == sparse_pixel(source_payload@.subrange(1472, 1920), i));
        }
        assert forall|i: int| 0 <= i < 960 implies #[trigger] target_surface@[i] < 16 by {
            assert(target_surface@[i] == target_pixel(glyph_core@, 0, 13, i));
        }
    }
    Ok(DemonByunBuild { manifest, palette, source_payload, payload, source_surface, target_surface })
}

/// Summary of a build; `pack_bytes` is the size of its encoded pack bank.
pub open spec fn spec_summary(build: DemonByunBuild, pack_bytes: usize, checksum: u16) -> DemonByunSummary {
    DemonByunSummary {
        source_tiles: 111,
        rewritten_tiles: 16,
        mapped_tiles: 14,
        cleared_residual_tiles: 2,
        protected_source_bytes: 3_040,
        consumer_sprites: build.manifest.sprite_consumer.records@.len() as usize,
        pack_bytes,
        checksum,
    }
}

/// Report the counts of a build.
pub fn summary(build: &DemonByunBuild, pack_bytes: usize, checksum: u16) -> (s: DemonByunSummary)
    ensures
        s == spec_summary(*build, pack_bytes, checksum),
{
    DemonByunSummary {
        source_tiles: BYUN_SOURCE_TILES,
        rewritten_tiles: BYUN_CONSUMER_TILES,
        mapped_tiles: BYUN_MAPPED_TILES,
        cleared_residual_tiles: BYUN_CONSUMER_TILES - BYUN_MAPPED_TILES,
        protected_source_bytes: BYUN_SOURCE_BYTES - BYUN_CONSUMER_TILES * MD_TILE_BYTES,
        consumer_sprites: build.manifest.sprite_consumer.records.len(),
        pack_bytes,
        checksum,
    }
}

/// Colour of pixel (`x`, `y`) of one 40x24 panel.
pub open spec fn panel_color(build: DemonByunBuild, pixels: Seq<u8>, x: int, y: int) -> Seq<u8> {
    let index = pixels[y * 40 + x];
    if index as int == build.manifest.transparent_palette_index {
        checker(x, y, 54, 76)
    } else {
        spec_md_color(build.palette@[index as int])
    }
}

/// Colour of logical pixel (`lx`, `ly`) of the 88x24 contact sheet: the JP
/// panel, an 8-pixel gap, the Korean panel.
pub open spec fn preview_color(build: DemonByunBuild, lx: int, ly: int) -> Seq<u8> {
    if lx < 40 {
        panel_color(build, build.source_surface@, lx, ly)
    } else if 48 <= lx < 88 {
        panel_color(build, build.target_surface@, lx - 48, ly)
    } else {
        seq![28u8, 28, 28]
    }
}

/// Byte `k` of the 880x240 preview: the contact sheet scaled ten times.
pub open spec fn preview_byte(build: DemonByunBuild, k: int) -> u8 {
    let q = k / 4;
    opaque_channel(preview_color(build, (q % 880) / 10, (q / 880) / 10), k % 4)
}

fn panel_color_of(build: &DemonByunBuild, target: bool, x: usize, y: usize) -> (color: [u8; 3])
    requires
        build_wf(*build),
        x < 40,
        y < 24,
    ensures
        color@ == panel_color(
            *build,
            if target { build.target_surface@ } else { build.source_surface@ },
            x as int,
            y as int,
        ),
{
    proof {
        crate::grid::lemma_index_bound(y as int, x as int, 40, 24);
    }
    let index = if target {
        build.target_surface[y * BYUN_WIDTH + x]
    } else {
        build.source_surface[y * BYUN_WIDTH + x]
    };
    if index as usize == build.manifest.transparent_palette_index {
        checker_color(x, y, 54, 76)
    } else {
        md_color(build.palette[index as usize])
    }
}

/// Render the exact JP and Korean 40x24 surfaces side by side, scaled ten
/// times, transparent pixels on a checkerboard.
pub fn write_demon_byun_preview(build: &DemonByunBuild, pack_bytes: usize) -> (result: (
    RgbaImage,
    DemonByunSummary,
))
    requires
        build_wf(*build),
    ensures
        result.0.width == 880,
        result.0.height == 240,
        result.0.rgba@.len() == 880 * 240 * 4,
        forall|k: int| 0 <= k < 880 * 240 * 4 ==> #[trigger] result.0.rgba@[k] == preview_byte(*build, k),
        result.1 == spec_summary(*build, pack_bytes, 0),
{
    let contact_width = BYUN_WIDTH * 2 + PREVIEW_GAP;
    let preview_width = contact_width * PREVIEW_SCALE;
    let preview_height = BYUN_HEIGHT * PREVIEW_SCALE;
    let total = preview_width * preview_height;
    let mut rgba: Vec<u8> = Vec::with_capacity(total * 4);
    let mut q: usize = 0;
    while q < total
        invariant
            build_wf(*build),
            preview_width == 880,
            total == 880 * 240,
            q <= total,
            rgba@.len() == q * 4,
            forall|k: int| 0 <= k < q * 4 ==> #[trigger] rgba@[k] == preview_byte(*build, k),
        decreases total - q,
    {
        let lx = (q % preview_width) / PREVIEW_SCALE;
        let ly = (q / preview_width) / PREVIEW_SCALE;
        assert(lx < 88 && ly < 24);
        let color = if lx < BYUN_WIDTH {
            panel_color_of(build, false, lx, ly)
        } else if BYUN_WIDTH + PREVIEW_GAP <= lx {
            panel_color_of(build, true, lx - (BYUN_WIDTH + PREVIEW_GAP), ly)
        } else {
            let gap = [28, 28, 28];
            assert(gap@ =~= seq![28u8, 28, 28]);
            gap
        };
        assert(color@ == preview_color(*build, lx as int, ly as int));
        let ghost before = rgba@;
        push_opaque(&mut rgba, color);
        assert forall|k: int| 0 <= k < (q + 1) * 4 implies #[trigger] rgba@[k] == preview_byte(*build, k) by {
            if k >= q * 4 {
                assert(k / 4 == q);
                let c = k - q * 4;
                assert(rgba@[before.len() + c] == opaque_channel(color@, c));
            } else {
                assert(rgba@[k] == before[k]);
            }
        }
        q = q + 1;
    }
    let image = RgbaImage { width: preview_width, height: preview_height, rgba };
    (image, summary(build, pack_bytes, 0))
}

/// The writes of the demon byun insertion: the pack header over each JP
/// header it replaces, then the bank over the erased expanded bank.
pub open spec fn byun_writes(source: Seq<u8>, header: Seq<u8>, bank: Seq<u8>) -> Seq<WriteView> {
    seq![header_write(source, 0x07_5FEE, header), bank_write(0x2C_8000, bank)]
}

/// Everything the demon byun insertion checks: a six-byte header, a bank
/// within its expanded bank, the JP bytes in `source`, and every write
/// finding its expected bytes.
pub open spec fn byun_insert_ok(source: Seq<u8>, image: Seq<u8>, header: Seq<u8>, bank: Seq<u8>) -> bool {
    let ws = byun_writes(source, header, bank);
    &&& header.len() == 6
    &&& 0x2C_8000 + bank.len() <= 0x2D_0000
    &&& 0x07_5FEE + 6 <= source.len()
    &&& writes_ok(image, ws)
}

/// Insert the demon byun pack: its six-byte header over the JP header, its
/// bank over the erased expanded bank, then the header checksum. On any
/// refusal the output is left as it was.
pub fn apply_demon_byun(
    source: &[u8],
    output: &mut Vec<u8>,
    build: &DemonByunBuild,
    header: &[u8],
    bank: &[u8],
) -> (result: Result<DemonByunSummary, Error>)
    ensures
        result is Ok <==> byun_insert_ok(source@, old(output)@, header@, bank@),
        result is Err ==> final(output)@ == old(output)@,
        result matches Ok(s) ==> {
            let ws = byun_writes(source@, header@, bank@);
            let applied = writes_applied(old(output)@, ws, 2);
            &&& final(output)@ == checksummed(applied)
            &&& s.checksum as int == crate::rom::spec_checksum(applied)
            &&& s == spec_summary(*build, bank@.len() as usize, s.checksum)
            &&& only_ranges_changed(old(output)@, final(output)@, write_ranges(ws))
        },
{
    if header.len() != 6 || bank.len() > 0x2D_0000 - 0x2C_8000 {
        return Err("demon byun pack ends outside its expanded bank or its header is not six bytes");
    }
    let w0 = header_write_of(source, 0x07_5FEE, header)?;
    let writes = vec![w0, bank_write_of(0x2C_8000, bank)];
    assert(write_views(writes@) =~= byun_writes(source@, header@, bank@));
    let checksum = insert_writes(output, &writes)?;
    Ok(summary(build, bank.len(), checksum))
}

} // verus!

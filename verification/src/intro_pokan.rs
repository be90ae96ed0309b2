//! Automatic-prologue `ぽかんっ` -> `콩!` effect compiler.
//!
//! The JP map and pattern transfers are decoded into their 512x136 indexed
//! surface. Only the declared JP-letter palette roles are cleared. The yellow
//! burst stays in the JP-derived base beneath the Korean composite, and the
//! RGBA master is reduced into the effect's content box before both transfers
//! are rebuilt: the map points every transmitted cell at the first equal
//! pattern of a deduplicated pattern run.

use vstd::prelude::*;
use crate::hex::{Error, hex_equals, hex_is};
use crate::text::string_is;
use crate::sets::{contains_usize, copy_bytes};
use crate::rom::only_ranges_changed;
use crate::insert::{WriteView, bank_write, bank_write_of, checksummed, header_write, header_write_of, insert_writes, write_ranges, write_views, writes_applied, writes_ok};
use crate::pack::{DecodedPack, SourcePack, checked_source_packs, first_header_index, pack_matches, position_of_header};
use crate::palette::{
    allowed_indices_ok, declared_palette, is_nearest_allowed, md_color, nearest_allowed, nearest_palette_index,
    palette_declared, parse_md_palette, spec_md_color,
};
use crate::preview::{PixelBounds, RgbaImage, opaque_channel, push_opaque};
use crate::tiles::{
    MD_TILE_BYTES, distinct_tiles, lemma_distinct_grows, lemma_distinct_step, nibble, pack_nibbles, pack_pair,
    unpack_pixel,
};
use crate::compile_slogan::{box_channel_mean, box_mean};

verus! {

pub const POKAN_MAP_HEADER_OFFSET: usize = 0x08_D33A;
pub const POKAN_PATTERN_HEADER_OFFSET: usize = 0x08_D340;
pub const POKAN_MAP_VRAM: u16 = 0xE000;
pub const POKAN_PATTERN_VRAM: u16 = 0x2000;
pub const POKAN_MAP_DECODED_BYTES: usize = 2_110;
pub const POKAN_PATTERN_DECODED_BYTES: usize = 3_392;
pub const POKAN_MAP_BANK_OFFSET: usize = 0x27_0000;
pub const POKAN_PATTERN_BANK_OFFSET: usize = 0x27_8000;
pub const PREVIEW_SCALE: usize = 2;

/// Surface width, height and the cells the JP map transmits.
pub const SURFACE_WIDTH: usize = 512;
pub const SURFACE_HEIGHT: usize = 136;
pub const TILE_COLUMNS: usize = 64;
pub const TRANSMITTED_CELLS: usize = 1055;
/// First pattern tile the map names, and the patterns that fit before the
/// next pattern transfer at VRAM 0x4000.
pub const BASE_TILE: u16 = 0x0100;
pub const MAXIMUM_PATTERNS: usize = 256;

/// Counts reported after compiling the `콩!` effect.
pub struct IntroPokanSummary {
    pub source_pattern_tiles: usize,
    pub output_pattern_tiles: usize,
    pub map_bytes: usize,
    pub protected_pixels: usize,
    pub map_pack_bytes: usize,
    pub pattern_pack_bytes: usize,
    pub checksum: u16,
}

/// The JP effect surface: its size in pixels and tiles, the map cells it
/// transmits and the box the Korean master may cover.
pub struct OutputSurface {
    pub width: usize,
    pub height: usize,
    pub tile_columns: usize,
    pub tile_rows: usize,
    pub transmitted_cells: usize,
    pub content_box: PixelBounds,
}

/// How the JP consumer reads the map: first tile, palette line and the VRAM
/// address of the pattern transfer that follows.
pub struct TilemapPlan {
    pub base_tile: String,
    pub palette_line: u16,
    pub next_pattern_vram: String,
}

/// The palette indices the JP effect uses for its background, its burst
/// decoration and its letters.
pub struct PaletteRoles {
    pub background: usize,
    pub decoration: Vec<usize>,
    pub jp_text: Vec<usize>,
}

/// The intro `콩!` asset manifest.
pub struct IntroPokanManifest {
    pub schema_version: u32,
    pub asset_group_id: String,
    pub master_asset: String,
    pub master_sha256: String,
    pub master_width: usize,
    pub master_height: usize,
    pub master_alpha_bounds: PixelBounds,
    pub output_surface: OutputSurface,
    pub tilemap: TilemapPlan,
    pub palette_line_words: Vec<String>,
    pub source_palette_roles: PaletteRoles,
    pub allowed_composite_palette_indices: Vec<usize>,
    pub source_packs: Vec<SourcePack>,
}

/// Background, decoration and letter roles, in that order.
pub open spec fn role_list(r: PaletteRoles) -> Seq<usize> {
    seq![r.background] + r.decoration@ + r.jp_text@
}

/// The two JP transfers are declared exactly once each, in either order.
pub open spec fn transfers_closed(packs: Seq<SourcePack>) -> bool {
    &&& packs.len() == 2
    &&& (hex_is(packs[0].header_offset@, 0x08_D33A) && hex_is(packs[1].header_offset@, 0x08_D340))
        || (hex_is(packs[0].header_offset@, 0x08_D340) && hex_is(packs[1].header_offset@, 0x08_D33A))
}

/// The declaration at `header` names the expected transfer.
pub open spec fn declaration_ok(packs: Seq<SourcePack>, header: nat, id: Seq<char>, vram: nat, bytes: nat) -> bool {
    let p = packs[first_header_index(packs, header, 0)];
    &&& p.id@ == id
    &&& hex_is(p.vram_destination@, vram)
    &&& p.decoded_bytes == bytes
}

/// Every fixed fact the `콩!` manifest must declare.
pub open spec fn manifest_shape_ok(m: IntroPokanManifest) -> bool {
    let s = m.output_surface;
    let r = m.source_palette_roles;
    &&& m.schema_version == 1
    &&& m.asset_group_id@ == "GFX-INTRO-POKAN"@
    &&& s.width == 512
    &&& s.height == 136
    &&& s.tile_columns == 64
    &&& s.tile_rows == 17
    &&& s.transmitted_cells == 1055
    &&& s.content_box.x + s.content_box.width <= 512
    &&& s.content_box.y + s.content_box.height <= 136
    &&& hex_is(m.tilemap.base_tile@, 0x0100)
    &&& m.tilemap.palette_line == 1
    &&& hex_is(m.tilemap.next_pattern_vram@, 0x4000)
    &&& r.background < 16
    &&& r.decoration@.len() > 0
    &&& r.jp_text@.len() > 0
    &&& allowed_indices_ok(m.allowed_composite_palette_indices@)
    &&& role_list(r).no_duplicates()
    &&& forall|k: int| 0 <= k < role_list(r).len() ==> m.allowed_composite_palette_indices@.contains(#[trigger] role_list(r)[k])
    &&& transfers_closed(m.source_packs@)
    &&& declaration_ok(m.source_packs@, 0x08_D33A, "intro-pokan-map"@, 0xE000, 2_110)
    &&& declaration_ok(m.source_packs@, 0x08_D340, "intro-pokan-patterns"@, 0x2000, 3_392)
}

fn role_vec(roles: &PaletteRoles) -> (list: Vec<usize>)
    ensures
        list@ == role_list(*roles),
{
    let mut list: Vec<usize> = Vec::new();
    list.push(roles.background);
    let mut k: usize = 0;
    while k < roles.decoration.len()
        invariant
            k <= roles.decoration@.len(),
            list@ == seq![roles.background] + roles.decoration@.take(k as int),
        decreases roles.decoration@.len() - k,
    {
        list.push(roles.decoration[k]);
        assert(roles.decoration@.take(k + 1) =~= roles.decoration@.take(k as int).push(roles.decoration@[k as int]));
        k = k + 1;
    }
    assert(roles.decoration@.take(k as int) =~= roles.decoration@);
    let mut k: usize = 0;
    while k < roles.jp_text.len()
        invariant
            k <= roles.jp_text@.len(),
            list@ == seq![roles.background] + roles.decoration@ + roles.jp_text@.take(k as int),
        decreases roles.jp_text@.len() - k,
    {
        list.push(roles.jp_text[k]);
        assert(roles.jp_text@.take(k + 1) =~= roles.jp_text@.take(k as int).push(roles.jp_text@[k as int]));
        k = k + 1;
    }
    assert(roles.jp_text@.take(k as int) =~= roles.jp_text@);
    list
}

fn transfers_close(packs: &Vec<SourcePack>) -> (closed: bool)
    ensures
        closed == transfers_closed(packs@),
{
    if packs.len() != 2 {
        return false;
    }
    let first_map = hex_equals(&packs[0].header_offset, POKAN_MAP_HEADER_OFFSET);
    let first_pattern = hex_equals(&packs[0].header_offset, POKAN_PATTERN_HEADER_OFFSET);
    let second_map = hex_equals(&packs[1].header_offset, POKAN_MAP_HEADER_OFFSET);
    let second_pattern = hex_equals(&packs[1].header_offset, POKAN_PATTERN_HEADER_OFFSET);
    (first_map && second_pattern) || (first_pattern && second_map)
}

fn declaration_matches(packs: &Vec<SourcePack>, header: usize, id: &str, vram: u16, bytes: usize) -> (ok: bool)
    requires
        transfers_closed(packs@),
        header == 0x08_D33A || header == 0x08_D340,
    ensures
        ok == declaration_ok(packs@, header as nat, id@, vram as nat, bytes as nat),
{
    proof {
        crate::pack::lemma_first_header_index_bounds(packs@, header as nat, 0);
        if first_header_index(packs@, header as nat, 0) >= packs@.len() {
            if hex_is(packs@[0].header_offset@, header as nat) {
                assert(first_header_index(packs@, header as nat, 0) == 0);
            } else {
                assert(first_header_index(packs@, header as nat, 0) == first_header_index(packs@, header as nat, 1));
                assert(first_header_index(packs@, header as nat, 1) == 1);
            }
        }
    }
    match position_of_header(packs, header) {
        Some(i) => {
            let pack = &packs[i];
            string_is(&pack.id, id) && hex_equals(&pack.vram_destination, vram as usize)
                && pack.decoded_bytes == bytes
        },
        None => false,
    }
}

/// Refuse a manifest whose identity, surface, tilemap plan, palette roles or
/// transfer declarations drifted from the JP consumer.
pub fn validate_manifest_shape(manifest: &IntroPokanManifest) -> (result: Result<(), Error>)
    ensures
        result is Ok <==> manifest_shape_ok(*manifest),
{
    if manifest.schema_version != 1 || !string_is(&manifest.asset_group_id, "GFX-INTRO-POKAN") {
        return Err("unsupported intro pokan manifest identity");
    }
    let surface = &manifest.output_surface;
    let content = &surface.content_box;
    if surface.width != SURFACE_WIDTH || surface.height != SURFACE_HEIGHT || surface.tile_columns != TILE_COLUMNS
        || surface.tile_rows != 17 || surface.transmitted_cells != TRANSMITTED_CELLS || content.x > surface.width
        || content.width > surface.width - content.x || content.y > surface.height || content.height
        > surface.height - content.y {
        return Err("intro pokan output surface drifted from the JP 64x17 map");
    }
    if !hex_equals(&manifest.tilemap.base_tile, BASE_TILE as usize) || manifest.tilemap.palette_line != 1
        || !hex_equals(&manifest.tilemap.next_pattern_vram, 0x4000) {
        return Err("intro pokan tilemap plan drifted from the JP consumer");
    }
    let roles = &manifest.source_palette_roles;
    let allowed = &manifest.allowed_composite_palette_indices;
    if roles.background >= 16 || roles.decoration.len() == 0 || roles.jp_text.len() == 0 || allowed.len() == 0 {
        return Err("intro pokan palette roles are invalid");
    }
    let mut k: usize = 0;
    while k < allowed.len()
        invariant
            allowed@ == manifest.allowed_composite_palette_indices@,
            k <= allowed@.len(),
            forall|j: int| 0 <= j < k ==> #[trigger] allowed@[j] < 16,
        decreases allowed@.len() - k,
    {
        if allowed[k] >= 16 {
            assert(!allowed_indices_ok(allowed@)) by {
                assert(allowed@[k as int] >= 16);
            }
            return Err("intro pokan palette roles are invalid");
        }
        k = k + 1;
    }
    let list = role_vec(roles);
    if !crate::sets::distinct_usize(list.as_slice()) {
        return Err("intro pokan palette roles overlap");
    }
    if !crate::sets::all_in_usize(list.as_slice(), allowed.as_slice()) {
        return Err("intro pokan composite palette omits a source role");
    }
    if manifest.source_packs.len() != 2 {
        return Err("intro pokan manifest must declare exactly two JP transfers");
    }
    if !transfers_close(&manifest.source_packs) {
        return Err("intro pokan manifest must close exactly two JP transfers");
    }
    if !declaration_matches(
        &manifest.source_packs,
        POKAN_MAP_HEADER_OFFSET,
        "intro-pokan-map",
        POKAN_MAP_VRAM,
        POKAN_MAP_DECODED_BYTES,
    ) || !declaration_matches(
        &manifest.source_packs,
        POKAN_PATTERN_HEADER_OFFSET,
        "intro-pokan-patterns",
        POKAN_PATTERN_VRAM,
        POKAN_PATTERN_DECODED_BYTES,
    ) {
        return Err("intro pokan source declaration drifted from the JP consumer");
    }
    Ok(())
}

/// An indexed surface and which of its pixels the JP map transmits.
pub struct IndexedSurface {
    pub pixels: Vec<u8>,
    pub owned: Vec<bool>,
}

/// Map cell of row-major pixel `i` of the 512-pixel-wide surface.
pub open spec fn cell_of(i: int) -> int {
    ((i / 512) / 8) * 64 + (i % 512) / 8
}

/// Pixel `i` lies in a map cell the JP transfer transmits.
pub open spec fn transmitted(i: int) -> bool {
    cell_of(i) < 1055
}

/// The big-endian map word of `cell`.
pub open spec fn map_word(map: Seq<u8>, cell: int) -> u16 {
    (map[2 * cell] as int * 256 + map[2 * cell + 1] as int) as u16
}

/// A map word the JP consumer can draw: no priority or flip bits, palette
/// line 1, and a tile inside the pattern transfer.
pub open spec fn word_ok(word: u16, pattern_tiles: int) -> bool {
    &&& word & 0x9800 == 0
    &&& (word >> 13u16) & 0x03 == 1
    &&& 0x0100 <= word & 0x07FF
    &&& (word & 0x07FF) < 0x0100 + pattern_tiles
}

/// The transfer pair decodes to a drawable surface.
pub open spec fn render_ok(map: Seq<u8>, patterns: Seq<u8>) -> bool {
    &&& map.len() == 2_110
    &&& patterns.len() % 32 == 0
    &&& forall|c: int| 0 <= c < 1055 ==> #[trigger] word_ok(map_word(map, c), (patterns.len() / 32) as int)
}

/// Pattern of the tile that map word `word` names.
pub open spec fn word_pattern(word: u16) -> int {
    (word & 0x07FF) - 0x0100
}

/// Pixel `i` of the surface the transfer pair draws: the pixel of the named
/// pattern inside a transmitted cell, 0 elsewhere.
pub open spec fn rendered_pixel(map: Seq<u8>, patterns: Seq<u8>, i: int) -> u8 {
    if transmitted(i) {
        let x = i % 512;
        let y = i / 512;
        let t = word_pattern(map_word(map, cell_of(i)));
        nibble(patterns[t * 32 + (y % 8) * 4 + (x % 8) / 2], (x % 8) % 2 == 0)
    } else {
        0
    }
}

fn read_map_word(map: &[u8], cell: usize) -> (word: u16)
    requires
        cell < 1055,
        2 * cell + 1 < map@.len(),
    ensures
        word == map_word(map@, cell as int),
{
    map[2 * cell] as u16 * 256 + map[2 * cell + 1] as u16
}

fn word_drawable(word: u16, pattern_tiles: usize) -> (ok: bool)
    ensures
        ok == word_ok(word, pattern_tiles as int),
{
    let tile = word & 0x07FF;
    word & 0x9800 == 0 && (word >> 13) & 0x03 == 1 && 0x0100 <= tile && ((tile - 0x0100) as usize) < pattern_tiles
}

/// Draw the JP map and pattern transfers into the 512x136 indexed surface.
pub fn render_indexed_surface(map: &[u8], patterns: &[u8]) -> (surface: Result<IndexedSurface, Error>)
    ensures
        surface is Ok <==> render_ok(map@, patterns@),
        surface matches Ok(s) ==> {
            &&& s.pixels@.len() == 512 * 136
            &&& s.owned@.len() == 512 * 136
            &&& forall|i: int| 0 <= i < 512 * 136 ==> #[trigger] s.pixels@[i] == rendered_pixel(map@, patterns@, i)
            &&& forall|i: int| 0 <= i < 512 * 136 ==> #[trigger] s.owned@[i] == transmitted(i)
        },
{
    if map.len() != 2 * TRANSMITTED_CELLS || patterns.len() % MD_TILE_BYTES != 0 {
        return Err("intro pokan decoded map or pattern length is invalid");
    }
    let pattern_tiles = patterns.len() / MD_TILE_BYTES;
    let mut cell: usize = 0;
    while cell < TRANSMITTED_CELLS
        invariant
            map@.len() == 2_110,
            pattern_tiles == patterns@.len() / 32,
            cell <= 1055,
            forall|c: int| 0 <= c < cell ==> #[trigger] word_ok(map_word(map@, c), pattern_tiles as int),
        decreases 1055 - cell,
    {
        let word = read_map_word(map, cell);
        if word & 0x9800 != 0 || (word >> 13) & 0x03 != 1 {
            assert(!word_ok(map_word(map@, cell as int), pattern_tiles as int));
            return Err("intro pokan map cell uses unsupported attributes");
        }
        if !word_drawable(word, pattern_tiles) {
            assert(!word_ok(map_word(map@, cell as int), pattern_tiles as int));
            return Err("intro pokan map cell references a tile outside the pattern transfer");
        }
        cell = cell + 1;
    }
    let total = SURFACE_WIDTH * SURFACE_HEIGHT;
    let mut pixels: Vec<u8> = Vec::with_capacity(total);
    let mut owned: Vec<bool> = Vec::with_capacity(total);
    let mut i: usize = 0;
    while i < total
        invariant
            render_ok(map@, patterns@),
            pattern_tiles == patterns@.len() / 32,
            total == 512 * 136,
            i <= total,
            pixels@.len() == i,
            owned@.len() == i,
            forall|q: int| 0 <= q < i ==> #[trigger] pixels@[q] == rendered_pixel(map@, patterns@, q),
            forall|q: int| 0 <= q < i ==> #[trigger] owned@[q] == transmitted(q),
        decreases total - i,
    {
        let x = i % SURFACE_WIDTH;
        let y = i / SURFACE_WIDTH;
        let c = (y / 8) * TILE_COLUMNS + x / 8;
        if c < TRANSMITTED_CELLS {
            let word = read_map_word(map, c);
            assert(word_ok(map_word(map@, c as int), pattern_tiles as int));
            let t = ((word & 0x07FF) - 0x0100) as usize;
            let offset = t * MD_TILE_BYTES + (y % 8) * 4 + (x % 8) / 2;
            assert(offset < patterns@.len()) by (nonlinear_arith)
                requires
                    t < pattern_tiles,
                    pattern_tiles == patterns@.len() / 32,
                    offset == t * 32 + (y % 8) * 4 + (x % 8) / 2,
            ;
            pixels.push(unpack_pixel(patterns[offset], (x % 8) % 2 == 0));
            owned.push(true);
        } else {
            pixels.push(0);
            owned.push(false);
        }
        i = i + 1;
    }
    Ok(IndexedSurface { pixels, owned })
}

/// Row-major index of the left pixel that byte `b` of cell `c`'s pattern
/// packs.
pub open spec fn cell_left(c: int, b: int) -> int {
    ((c / 64) * 8 + b / 4) * 512 + (c % 64) * 8 + (b % 4) * 2
}

/// Byte `b` of the pattern covering cell `c`.
pub open spec fn cell_byte(pixels: Seq<u8>, c: int, b: int) -> u8 {
    pack_nibbles(pixels[cell_left(c, b)], pixels[cell_left(c, b) + 1])
}

/// The 32-byte pattern covering cell `c`.
pub open spec fn cell_tile(pixels: Seq<u8>, c: int) -> Seq<u8> {
    Seq::new(32, |b: int| cell_byte(pixels, c, b))
}

/// The patterns of the first `n` cells, in map order.
pub open spec fn cell_tiles(pixels: Seq<u8>, n: int) -> Seq<Seq<u8>> {
    Seq::new(n as nat, |c: int| cell_tile(pixels, c))
}

/// Every pixel of cell `c` is transmitted and a 4-bit index.
pub open spec fn cell_pixels_ok(pixels: Seq<u8>, owned: Seq<bool>, c: int) -> bool {
    forall|b: int|
        0 <= b < 32 ==> {
            let l = #[trigger] cell_left(c, b);
            owned[l] && owned[l + 1] && pixels[l] < 16 && pixels[l + 1] < 16
        }
}

/// The surface can be rebuilt into the JP transfers: every transmitted cell
/// is owned and 4-bit, and its distinct patterns fit before VRAM 0x4000.
pub open spec fn compile_ok(pixels: Seq<u8>, owned: Seq<bool>) -> bool {
    &&& pixels.len() == 512 * 136
    &&& owned.len() == 512 * 136
    &&& forall|c: int| 0 <= c < 1055 ==> #[trigger] cell_pixels_ok(pixels, owned, c)
    &&& distinct_tiles(cell_tiles(pixels, 1055)).len() <= 256
}

/// `patterns` is the concatenation of the tiles of `distinct`.
pub open spec fn concatenates(patterns: Seq<u8>, distinct: Seq<Seq<u8>>) -> bool {
    &&& patterns.len() == 32 * distinct.len()
    &&& forall|t: int| 0 <= t < distinct.len() ==> #[trigger] distinct[t].len() == 32
    &&& forall|k: int| 0 <= k < patterns.len() ==> #[trigger] patterns[k] == distinct[k / 32][k % 32]
}

/// The first `n` map words name, on palette line 1 from tile 0x100, a
/// pattern of `distinct` equal to their cell's pattern.
pub open spec fn map_names(map: Seq<u8>, distinct: Seq<Seq<u8>>, pixels: Seq<u8>, n: int) -> bool {
    &&& map.len() == 2 * n
    &&& forall|c: int|
        0 <= c < n ==> {
            let w = #[trigger] map_word(map, c) as int;
            0x2100 <= w < 0x2100 + distinct.len() && distinct[w - 0x2100] == cell_tile(pixels, c)
        }
}

/// The map and pattern transfers compiled from `pixels`: the distinct cell
/// patterns in first-occurrence order, and a map naming each cell's pattern.
pub open spec fn compiled_as(pixels: Seq<u8>, map: Seq<u8>, patterns: Seq<u8>) -> bool {
    let distinct = distinct_tiles(cell_tiles(pixels, 1055));
    &&& distinct.len() <= 256
    &&& concatenates(patterns, distinct)
    &&& map_names(map, distinct, pixels, 1055)
}

proof fn lemma_cell_left_bound(c: int, b: int)
    requires
        0 <= c < 1088,
        0 <= b < 32,
    ensures
        0 <= cell_left(c, b),
        cell_left(c, b) + 1 < 512 * 136,
        cell_left(c, b) % 512 == (c % 64) * 8 + (b % 4) * 2,
        cell_left(c, b) / 512 == (c / 64) * 8 + b / 4,
{
    crate::grid::lemma_row_col((c / 64) * 8 + b / 4, (c % 64) * 8 + (b % 4) * 2, 512);
    crate::grid::lemma_index_bound((c / 64) * 8 + b / 4, (c % 64) * 8 + (b % 4) * 2 + 1, 512, 136);
}

/// The pattern covering cell `c`, once its pixels are checked.
fn cell_pattern(pixels: &[u8], owned: &[bool], c: usize) -> (pattern: Result<Vec<u8>, Error>)
    requires
        pixels@.len() == 512 * 136,
        owned@.len() == 512 * 136,
        c < 1055,
    ensures
        pattern is Ok <==> cell_pixels_ok(pixels@, owned@, c as int),
        pattern matches Ok(p) ==> p@ == cell_tile(pixels@, c as int),
{
    let mut pattern: Vec<u8> = Vec::with_capacity(MD_TILE_BYTES);
    let mut b: usize = 0;
    while b < MD_TILE_BYTES
        invariant
            pixels@.len() == 512 * 136,
            owned@.len() == 512 * 136,
            c < 1055,
            b <= 32,
            pattern@.len() == b,
            forall|k: int| 0 <= k < b ==> #[trigger] pattern@[k] == cell_byte(pixels@, c as int, k),
            forall|k: int|
                0 <= k < b ==> {
                    let l = #[trigger] cell_left(c as int, k);
                    owned@[l] && owned@[l + 1] && pixels@[l] < 16 && pixels@[l + 1] < 16
                },
        decreases 32 - b,
    {
        proof {
            lemma_cell_left_bound(c as int, b as int);
        }
        let left = ((c / TILE_COLUMNS) * 8 + b / 4) * SURFACE_WIDTH + (c % TILE_COLUMNS) * 8 + (b % 4) * 2;
        if !owned[left] || !owned[left + 1] {
            return Err("intro pokan transmitted tile contains an unowned pixel");
        }
        if pixels[left] >= 16 || pixels[left + 1] >= 16 {
            return Err("intro pokan uses an invalid palette index");
        }
        pattern.push(pack_pair(pixels[left], pixels[left + 1]));
        b = b + 1;
    }
    assert(pattern@ =~= cell_tile(pixels@, c as int));
    Ok(pattern)
}

/// Position of the first 32-byte tile of `patterns` equal to `pattern`.
fn find_pattern(patterns: &Vec<u8>, pattern: &Vec<u8>) -> (found: Option<usize>)
    requires
        patterns@.len() % 32 == 0,
    ensures
        found matches Some(j) ==> j < patterns@.len() / 32 && patterns@.subrange(j * 32, j * 32 + 32) == pattern@,
        found is None ==> forall|j: int|
            0 <= j < patterns@.len() / 32 ==> #[trigger] patterns@.subrange(j * 32, j * 32 + 32) != pattern@,
{
    let n = patterns.len();
    let count = n / MD_TILE_BYTES;
    let mut j: usize = 0;
    while j < count
        invariant
            n == patterns@.len(),
            count == patterns@.len() / 32,
            patterns@.len() % 32 == 0,
            j <= count,
            forall|k: int| 0 <= k < j ==> #[trigger] patterns@.subrange(k * 32, k * 32 + 32) != pattern@,
        decreases count - j,
    {
        assert(j * 32 + 32 <= n) by (nonlinear_arith)
            requires
                j < count,
                count == n / 32,
                n % 32 == 0,
        ;
        let start = j * MD_TILE_BYTES;
        if crate::sets::bytes_equal(&patterns.as_slice()[start..start + MD_TILE_BYTES], pattern.as_slice()) {
            return Some(j);
        }
        j = j + 1;
    }
    None
}

proof fn lemma_line_word(v: u16)
    requires
        v < 0x2000,
    ensures
        (1u16 << 13u16) | v == 0x2000 + v,
{
    assert((1u16 << 13u16) | v == 0x2000 + v) by (bit_vector)
        requires
            v < 0x2000,
    ;
}

/// Rebuild the JP transfers from the indexed surface: every transmitted
/// cell's pattern is looked up among the patterns emitted so far and
/// appended when new, and the map names it on palette line 1 from tile
/// 0x100. At most 256 patterns fit before the next transfer at VRAM 0x4000.
pub fn compile_indexed_surface(pixels: &[u8], owned: &[bool], manifest: &IntroPokanManifest) -> (compiled:
    Result<(Vec<u8>, Vec<u8>), Error>)
    requires
        manifest_shape_ok(*manifest),
    ensures
        compiled is Ok <==> compile_ok(pixels@, owned@),
        compiled matches Ok((map, patterns)) ==> compiled_as(pixels@, map@, patterns@),
{
    if pixels.len() != SURFACE_WIDTH * SURFACE_HEIGHT || owned.len() != pixels.len() {
        return Err("intro pokan indexed surface length is invalid");
    }
    let ghost all = cell_tiles(pixels@, 1055);
    let ghost mut distinct: Seq<Seq<u8>> = Seq::empty();
    let mut patterns: Vec<u8> = Vec::new();
    let mut map: Vec<u8> = Vec::with_capacity(2 * TRANSMITTED_CELLS);
    let mut count: usize = 0;
    let mut c: usize = 0;
    assert(cell_tiles(pixels@, 0) =~= Seq::<Seq<u8>>::empty());
    while c < TRANSMITTED_CELLS
        invariant
            manifest_shape_ok(*manifest),
            pixels@.len() == 512 * 136,
            owned@.len() == 512 * 136,
            all == cell_tiles(pixels@, 1055),
            c <= 1055,
            distinct == distinct_tiles(cell_tiles(pixels@, c as int)),
            distinct.len() <= 256,
            count == distinct.len(),
            concatenates(patterns@, distinct),
            map_names(map@, distinct, pixels@, c as int),
            forall|k: int| 0 <= k < c ==> #[trigger] cell_pixels_ok(pixels@, owned@, k),
        decreases 1055 - c,
    {
        let pattern = match cell_pattern(pixels, owned, c) {
            Ok(p) => p,
            Err(e) => {
                return Err(e);
            },
        };
        proof {
            lemma_distinct_step(cell_tiles(pixels@, c as int), pattern@);
            assert(cell_tiles(pixels@, c + 1) =~= cell_tiles(pixels@, c as int).push(pattern@));
        }
        let found = find_pattern(&patterns, &pattern);
        let index = match found {
            Some(j) => {
                proof {
                    assert(patterns@.subrange(j * 32, j * 32 + 32) =~= distinct[j as int]);
                    assert(distinct.contains(pattern@));
                }
                j
            },
            None => {
                proof {
                    assert forall|t: int| 0 <= t < distinct.len() implies distinct[t] != pattern@ by {
                        assert(patterns@.subrange(t * 32, t * 32 + 32) =~= distinct[t]);
                    }
                }
                if count >= MAXIMUM_PATTERNS {
                    proof {
                        assert(distinct_tiles(cell_tiles(pixels@, c + 1)).len() == 257);
                        assert(all.take(c + 1) =~= cell_tiles(pixels@, c + 1));
                        lemma_distinct_grows(all, c + 1);
                    }
                    return Err("intro pokan needs more patterns than fit before VRAM 0x4000");
                }
                let ghost before = patterns@;
                let mut b: usize = 0;
                while b < MD_TILE_BYTES
                    invariant
                        pattern@.len() == 32,
                        b <= 32,
                        patterns@ == before + pattern@.take(b as int),
                    decreases 32 - b,
                {
                    patterns.push(pattern[b]);
                    assert(pattern@.take(b + 1) =~= pattern@.take(b as int).push(pattern@[b as int]));
                    b = b + 1;
                }
                proof {
                    assert(pattern@.take(32) =~= pattern@);
                    distinct = distinct.push(pattern@);
                    assert forall|k: int| 0 <= k < patterns@.len() implies #[trigger] patterns@[k] == distinct[k / 32][k
                        % 32] by {
                        if k < before.len() {
                            assert(patterns@[k] == before[k]);
                        } else {
                            assert(k / 32 == count);
                        }
                    }
                }
                count = count + 1;
                count - 1
            },
        };
        proof {
            if found is Some {
                assert(distinct == distinct_tiles(cell_tiles(pixels@, c + 1)));
            }
            assert(distinct[index as int] == pattern@);
            lemma_line_word((BASE_TILE + index as u16) as u16);
        }
        let word = (manifest.tilemap.palette_line << 13) | (BASE_TILE + index as u16);
        let ghost map_before = map@;
        crate::rom::append_word(&mut map, word);
        proof {
            assert forall|k: int| 0 <= k < c + 1 implies {
                let w = #[trigger] map_word(map@, k) as int;
                0x2100 <= w < 0x2100 + distinct.len() && distinct[w - 0x2100] == cell_tile(pixels@, k)
            } by {
                if k < c {
                    assert(map_word(map@, k) == map_word(map_before, k));
                } else {
                    assert(map_word(map@, k) == word);
                }
            }
        }
        c = c + 1;
    }
    assert(all =~= cell_tiles(pixels@, 1055));
    Ok((map, patterns))
}

proof fn lemma_named_word(t: u16)
    requires
        t < 256,
    ensures
        (0x2100 + t) as u16 & 0x9800 == 0,
        ((0x2100 + t) as u16 >> 13u16) & 0x03 == 1,
        (0x2100 + t) as u16 & 0x07FF == 0x0100 + t,
{
    assert((0x2100 + t) as u16 & 0x9800 == 0 && ((0x2100 + t) as u16 >> 13u16) & 0x03 == 1 && (0x2100 + t) as u16
        & 0x07FF == 0x0100 + t) by (bit_vector)
        requires
            t < 256,
    ;
}

proof fn lemma_pixel_in_cell(i: int)
    requires
        0 <= i < 512 * 136,
        transmitted(i),
    ensures
        0 <= cell_of(i) < 1055,
        0 <= (i / 512 % 8) * 4 + (i % 512 % 8) / 2 < 32,
        cell_left(cell_of(i), (i / 512 % 8) * 4 + (i % 512 % 8) / 2) == i - (i % 512 % 8) % 2,
{
    let x = i % 512;
    let y = i / 512;
    crate::grid::lemma_split_index(i, 512, 136);
    let c = cell_of(i);
    let b = (y % 8) * 4 + (x % 8) / 2;
    assert(c / 64 == y / 8 && c % 64 == x / 8) by {
        crate::grid::lemma_row_col(y / 8, x / 8, 64);
    }
    assert(b / 4 == y % 8 && b % 4 == (x % 8) / 2);
    assert((y / 8) * 8 + y % 8 == y);
    assert((x / 8) * 8 + ((x % 8) / 2) * 2 == x - (x % 8) % 2);
}

/// Drawing the transfers compiled from a surface gives the surface back,
/// when its owned pixels are exactly the transmitted cells and its other
/// pixels are 0.
pub proof fn lemma_render_compiled(pixels: Seq<u8>, owned: Seq<bool>, map: Seq<u8>, patterns: Seq<u8>)
    requires
        compile_ok(pixels, owned),
        compiled_as(pixels, map, patterns),
        forall|i: int| 0 <= i < 512 * 136 ==> #[trigger] owned[i] == transmitted(i),
        forall|i: int| 0 <= i < 512 * 136 && !transmitted(i) ==> #[trigger] pixels[i] == 0,
    ensures
        render_ok(map, patterns),
        forall|i: int| 0 <= i < 512 * 136 ==> #[trigger] rendered_pixel(map, patterns, i) == pixels[i],
{
    let distinct = distinct_tiles(cell_tiles(pixels, 1055));
    assert forall|c: int| 0 <= c < 1055 implies #[trigger] word_ok(map_word(map, c), (patterns.len() / 32) as int) by {
        let w = map_word(map, c) as int;
        assert(0x2100 <= w < 0x2100 + distinct.len());
        lemma_named_word((w - 0x2100) as u16);
        assert(map_word(map, c) == (0x2100 + (w - 0x2100) as u16) as u16);
    }
    assert forall|i: int| 0 <= i < 512 * 136 implies #[trigger] rendered_pixel(map, patterns, i) == pixels[i] by {
        if transmitted(i) {
            lemma_pixel_in_cell(i);
            let c = cell_of(i);
            let x = i % 512;
            let b = (i / 512 % 8) * 4 + (x % 8) / 2;
            let w = map_word(map, c) as int;
            let t = w - 0x2100;
            assert(0 <= t < distinct.len());
            lemma_named_word(t as u16);
            assert(map_word(map, c) == (0x2100 + t as u16) as u16);
            assert(word_pattern(map_word(map, c)) == t);
            assert(distinct[t] == cell_tile(pixels, c));
            assert(t * 32 + b < patterns.len()) by (nonlinear_arith)
                requires
                    0 <= t < distinct.len(),
                    0 <= b < 32,
                    patterns.len() == 32 * distinct.len(),
            ;
            assert((t * 32 + b) / 32 == t && (t * 32 + b) % 32 == b) by {
                crate::grid::lemma_row_col(t, b, 32);
                assert(t * 32 == 32 * t) by (nonlinear_arith);
            }
            assert(patterns[t * 32 + b] == cell_byte(pixels, c, b));
            assert(cell_pixels_ok(pixels, owned, c));
            let l = cell_left(c, b);
            assert(owned[l] && owned[l + 1] && pixels[l] < 16 && pixels[l + 1] < 16);
            crate::grid::lemma_split_index(i, 512, 136);
            if (x % 8) % 2 == 0 {
                assert(l == i);
            } else {
                assert(l + 1 == i);
            }
        }
    }
}

/// Some owned pixel of the surface holds `value`.
pub open spec fn value_present(pixels: Seq<u8>, owned: Seq<bool>, value: int) -> bool {
    exists|i: int| 0 <= i < pixels.len() && owned[i] && #[trigger] pixels[i] as int == value
}

/// The owned pixels of the surface use exactly the palette values `roles`.
pub open spec fn owned_values_are(pixels: Seq<u8>, owned: Seq<bool>, roles: Seq<usize>) -> bool {
    &&& forall|i: int| 0 <= i < pixels.len() && #[trigger] owned[i] ==> roles.contains(pixels[i] as usize)
    &&& forall|k: int| 0 <= k < roles.len() ==> value_present(pixels, owned, #[trigger] roles[k] as int)
}

/// Refuse a JP surface whose owned pixels do not use exactly the declared
/// background, decoration and letter roles.
pub fn validate_source_palette_roles(source: &IndexedSurface, manifest: &IntroPokanManifest) -> (result: Result<
    (),
    Error,
>)
    requires
        manifest_shape_ok(*manifest),
        source.owned@.len() == source.pixels@.len(),
    ensures
        result is Ok <==> owned_values_are(
            source.pixels@,
            source.owned@,
            role_list(manifest.source_palette_roles),
        ),
{
    let roles = role_vec(&manifest.source_palette_roles);
    proof {
        assert forall|k: int| 0 <= k < roles@.len() implies #[trigger] roles@[k] < 16 by {
            assert(manifest.allowed_composite_palette_indices@.contains(role_list(manifest.source_palette_roles)[k]));
        }
    }
    let mut seen: Vec<bool> = vec![false; 16];
    let pixels = &source.pixels;
    let owned = &source.owned;
    let mut i: usize = 0;
    while i < pixels.len()
        invariant
            pixels@ == source.pixels@,
            owned@ == source.owned@,
            roles@ == role_list(manifest.source_palette_roles),
            owned@.len() == pixels@.len(),
            i <= pixels@.len(),
            seen@.len() == 16,
            forall|k: int| 0 <= k < roles@.len() ==> #[trigger] roles@[k] < 16,
            forall|q: int| 0 <= q < i && #[trigger] owned@[q] ==> roles@.contains(pixels@[q] as usize),
            forall|q: int| 0 <= q < i && owned@[q] ==> #[trigger] seen@[pixels@[q] as int],
            forall|v: int| 0 <= v < 16 && #[trigger] seen@[v] ==> value_present(pixels@, owned@, v),
        decreases pixels@.len() - i,
    {
        if owned[i] {
            let value = pixels[i] as usize;
            if !contains_usize(roles.as_slice(), value) {
                assert(owned@[i as int]);
                return Err("intro pokan JP palette roles drifted");
            }
            let ghost k = choose|k: int| 0 <= k < roles@.len() && roles@[k] == value;
            assert(value < 16);
            seen.set(value, true);
            assert(pixels@[i as int] as int == value);
        }
        i = i + 1;
    }
    let mut k: usize = 0;
    while k < roles.len()
        invariant
            pixels@ == source.pixels@,
            owned@ == source.owned@,
            roles@ == role_list(manifest.source_palette_roles),
            owned@.len() == pixels@.len(),
            forall|q: int| 0 <= q < pixels@.len() && #[trigger] owned@[q] ==> roles@.contains(pixels@[q] as usize),
            seen@.len() == 16,
            forall|j: int| 0 <= j < roles@.len() ==> #[trigger] roles@[j] < 16,
            forall|v: int| 0 <= v < 16 && #[trigger] seen@[v] ==> value_present(pixels@, owned@, v),
            forall|q: int| 0 <= q < pixels@.len() && owned@[q] ==> #[trigger] seen@[pixels@[q] as int],
            k <= roles@.len(),
            forall|j: int| 0 <= j < k ==> value_present(pixels@, owned@, #[trigger] roles@[j] as int),
        decreases roles@.len() - k,
    {
        if !seen[roles[k]] {
            proof {
                if value_present(pixels@, owned@, roles@[k as int] as int) {
                    let q = choose|q: int| 0 <= q < pixels@.len() && owned@[q] && #[trigger] pixels@[q] as int == roles@[k as int] as int;
                    assert(seen@[pixels@[q] as int]);
                }
            }
            return Err("intro pokan JP palette roles drifted");
        }
        assert(seen@[roles@[k as int] as int]);
        k = k + 1;
    }
    Ok(())
}

/// Pixel `i` of the JP surface with its letters cleared: an owned pixel
/// holding a letter role becomes the background role.
pub open spec fn cleaned_pixel(s: IndexedSurface, r: PaletteRoles, i: int) -> u8 {
    if s.owned@[i] && r.jp_text@.contains(s.pixels@[i] as usize) {
        r.background as u8
    } else {
        s.pixels@[i]
    }
}

/// Clear the JP letters from the surface, keeping the burst and background.
pub fn clear_jp_letters(source: &IndexedSurface, roles: &PaletteRoles) -> (cleaned: Vec<u8>)
    requires
        source.owned@.len() == source.pixels@.len(),
    ensures
        cleaned@.len() == source.pixels@.len(),
        forall|i: int| 0 <= i < cleaned@.len() ==> #[trigger] cleaned@[i] == cleaned_pixel(*source, *roles, i),
{
    let mut cleaned: Vec<u8> = Vec::with_capacity(source.pixels.len());
    let mut i: usize = 0;
    while i < source.pixels.len()
        invariant
            source.owned@.len() == source.pixels@.len(),
            i <= source.pixels@.len(),
            cleaned@.len() == i,
            forall|q: int| 0 <= q < i ==> #[trigger] cleaned@[q] == cleaned_pixel(*source, *roles, q),
        decreases source.pixels@.len() - i,
    {
        let pixel = source.pixels[i];
        if source.owned[i] && contains_usize(roles.jp_text.as_slice(), pixel as usize) {
            cleaned.push(roles.background as u8);
        } else {
            cleaned.push(pixel);
        }
        i = i + 1;
    }
    cleaned
}

/// Size of the alpha bounds fitted inside the content box: unchanged when
/// they fit, else scaled down keeping their aspect, rounding down.
pub open spec fn fitted_size(b: PixelBounds, content: PixelBounds) -> (int, int) {
    if b.width <= content.width && b.height <= content.height {
        (b.width as int, b.height as int)
    } else if b.width * content.height <= b.height * content.width {
        (b.width * content.height / b.height as int, content.height as int)
    } else {
        (content.width as int, b.height * content.width / b.width as int)
    }
}

/// The fitted size is a non-empty rectangle.
pub open spec fn fit_ok(b: PixelBounds, content: PixelBounds) -> bool {
    &&& b.width > 0
    &&& b.height > 0
    &&& fitted_size(b, content).0 > 0
    &&& fitted_size(b, content).1 > 0
}

/// Fit the master's alpha bounds inside the content box.
pub fn fit_bounds_within(bounds: &PixelBounds, content: &PixelBounds) -> (fit: Result<(usize, usize), Error>)
    requires
        content.width <= 512,
        content.height <= 136,
        bounds.width <= 0x1_0000_0000,
        bounds.height <= 0x1_0000_0000,
    ensures
        fit is Ok <==> fit_ok(*bounds, *content),
        fit matches Ok((w, h)) ==> w == fitted_size(*bounds, *content).0 && h == fitted_size(
            *bounds,
            *content,
        ).1 && w <= content.width && h <= content.height,
{
    if bounds.width == 0 || bounds.height == 0 {
        return Err("intro pokan master alpha bounds are empty");
    }
    let w = bounds.width as u64;
    let h = bounds.height as u64;
    let cw = content.width as u64;
    let ch = content.height as u64;
    assert(w * ch <= 0x1_0000_0000 * 136 && h * cw <= 0x1_0000_0000 * 512) by (nonlinear_arith)
        requires
            w <= 0x1_0000_0000,
            h <= 0x1_0000_0000,
            cw <= 512,
            ch <= 136,
    ;
    let (fit_width, fit_height) = if w <= cw && h <= ch {
        (w, h)
    } else if w * ch <= h * cw {
        assert((w * ch) / (h as int) <= cw) by (nonlinear_arith)
            requires
                w * ch <= h * cw,
                h > 0,
        ;
        (w * ch / h, ch)
    } else {
        assert((h * cw) / (w as int) <= ch) by (nonlinear_arith)
            requires
                w * ch > h * cw,
                w > 0,
        ;
        (cw, h * cw / w)
    };
    if fit_width == 0 || fit_height == 0 {
        return Err("intro pokan master does not fit the content box");
    }
    Ok((fit_width as usize, fit_height as usize))
}

/// What the reduction requires of its master: an RGBA image of the declared
/// size whose sampling arithmetic fits in a machine word.
pub open spec fn master_ok(master: Seq<u8>, m: IntroPokanManifest) -> bool {
    &&& master.len() == m.master_width * m.master_height * 4
    &&& master.len() <= 0x1_0000_0000_0000
    &&& m.master_width <= 0x1_0000_0000
    &&& m.master_height <= 0x1_0000_0000
}

/// Fitted width and height of the master inside the content box.
pub open spec fn fit_width(m: IntroPokanManifest) -> int {
    fitted_size(m.master_alpha_bounds, m.output_surface.content_box).0
}

pub open spec fn fit_height(m: IntroPokanManifest) -> int {
    fitted_size(m.master_alpha_bounds, m.output_surface.content_box).1
}

/// Top-left corner of the fitted master, centred in the content box.
pub open spec fn fit_x(m: IntroPokanManifest) -> int {
    m.output_surface.content_box.x + (m.output_surface.content_box.width - fit_width(m)) / 2
}

pub open spec fn fit_y(m: IntroPokanManifest) -> int {
    m.output_surface.content_box.y + (m.output_surface.content_box.height - fit_height(m)) / 2
}

/// Surface pixel `i` lies under the fitted master.
pub open spec fn in_fit(m: IntroPokanManifest, i: int) -> bool {
    let x = i % 512;
    let y = i / 512;
    fit_x(m) <= x < fit_x(m) + fit_width(m) && fit_y(m) <= y < fit_y(m) + fit_height(m)
}

/// The master box that fitted pixel (`ox`, `oy`) averages.
pub open spec fn source_x0(m: IntroPokanManifest, ox: int) -> int {
    m.master_alpha_bounds.x + ox * m.master_alpha_bounds.width / fit_width(m)
}

pub open spec fn source_y0(m: IntroPokanManifest, oy: int) -> int {
    m.master_alpha_bounds.y + oy * m.master_alpha_bounds.height / fit_height(m)
}

/// Every master pixel in the box is fully transparent.
pub open spec fn box_transparent(master: Seq<u8>, width: int, x0: int, x1: int, y0: int, y1: int) -> bool {
    forall|x: int, y: int| x0 <= x < x1 && y0 <= y < y1 ==> #[trigger] master[(y * width + x) * 4 + 3] == 0
}

/// Mean colour of the master box of fitted pixel (`ox`, `oy`), composited
/// over the colour of palette index `base`.
pub open spec fn composite_color(master: Seq<u8>, m: IntroPokanManifest, palette: Seq<u16>, base: u8, ox: int, oy: int) -> Seq<u8> {
    let background = spec_md_color(palette[base as int]);
    let w = m.master_width as int;
    let x0 = source_x0(m, ox);
    let x1 = source_x0(m, ox + 1);
    let y0 = source_y0(m, oy);
    let y1 = source_y0(m, oy + 1);
    seq![
        box_mean(master, w, background, x0, x1, y0, y1, 0),
        box_mean(master, w, background, x0, x1, y0, y1, 1),
        box_mean(master, w, background, x0, x1, y0, y1, 2),
    ]
}

/// Pixel `i` after compositing the master over the cleaned surface `base`:
/// under the fit, a box with any coverage takes the admitted palette index
/// nearest to its composited mean (the earliest on a tie); every other
/// pixel keeps its base value.
pub open spec fn composited_is(master: Seq<u8>, m: IntroPokanManifest, palette: Seq<u16>, base: Seq<u8>, i: int, value: u8) -> bool {
    if in_fit(m, i) {
        let ox = i % 512 - fit_x(m);
        let oy = i / 512 - fit_y(m);
        if box_transparent(master, m.master_width as int, source_x0(m, ox), source_x0(m, ox + 1), source_y0(m, oy), source_y0(m, oy + 1)) {
            value == base[i]
        } else {
            exists|p: int|
                is_nearest_allowed(
                    composite_color(master, m, palette, base[i], ox, oy),
                    palette,
                    m.allowed_composite_palette_indices@,
                    p,
                ) && value == m.allowed_composite_palette_indices@[p] as u8
        }
    } else {
        value == base[i]
    }
}

/// Fitted pixel `i` may be composited: it is owned and samples a non-empty
/// master box.
pub open spec fn fit_pixel_ok(m: IntroPokanManifest, owned: Seq<bool>, i: int) -> bool {
    let ox = i % 512 - fit_x(m);
    let oy = i / 512 - fit_y(m);
    &&& owned[i]
    &&& source_x0(m, ox) < source_x0(m, ox + 1)
    &&& source_y0(m, oy) < source_y0(m, oy + 1)
}

/// The master can be composited: its alpha bounds lie inside it and fit the
/// content box, and every fitted pixel may be composited.
pub open spec fn composite_ok(m: IntroPokanManifest, owned: Seq<bool>) -> bool {
    let b = m.master_alpha_bounds;
    &&& b.x + b.width <= m.master_width
    &&& b.y + b.height <= m.master_height
    &&& fit_ok(b, m.output_surface.content_box)
    &&& forall|i: int| 0 <= i < 512 * 136 && in_fit(m, i) ==> #[trigger] fit_pixel_ok(m, owned, i)
}

/// Some master pixel in the box has coverage.
fn box_has_alpha(master: &[u8], width: usize, x0: usize, x1: usize, y0: usize, y1: usize) -> (covered: bool)
    requires
        x0 <= x1 <= width,
        y0 <= y1,
        y1 * width * 4 <= master@.len(),
        master@.len() <= 0x1_0000_0000_0000,
    ensures
        covered == !box_transparent(master@, width as int, x0 as int, x1 as int, y0 as int, y1 as int),
{
    let master_len = master.len();
    let mut y = y0;
    while y < y1
        invariant
            master_len == master@.len(),
            x0 <= x1 <= width,
            y0 <= y <= y1,
            y1 * width * 4 <= master@.len(),
            master@.len() <= 0x1_0000_0000_0000,
            forall|px: int, py: int| x0 <= px < x1 && y0 <= py < y ==> #[trigger] master@[(py * width + px) * 4 + 3] == 0,
        decreases y1 - y,
    {
        let mut x = x0;
        while x < x1
            invariant
                master_len == master@.len(),
                x0 <= x <= x1 <= width,
                y0 <= y < y1,
                y1 * width * 4 <= master@.len(),
                master@.len() <= 0x1_0000_0000_0000,
                forall|px: int, py: int| x0 <= px < x1 && y0 <= py < y ==> #[trigger] master@[(py * width + px) * 4 + 3] == 0,
                forall|px: int| x0 <= px < x ==> #[trigger] master@[(y * width + px) * 4 + 3] == 0,
            decreases x1 - x,
        {
            proof {
                crate::compile_slogan::lemma_master_offset(x as int, y as int, width as int, y1 as int, master@.len() as int);
            }
            if master[(y * width + x) * 4 + 3] != 0 {
                return true;
            }
            x = x + 1;
        }
        y = y + 1;
    }
    false
}

proof fn lemma_edge(origin: int, out: int, extent: int, fit: int)
    requires
        0 <= out <= fit,
        0 < fit <= 512,
        0 <= extent <= 0x1_0000_0000,
        0 <= origin,
    ensures
        origin <= origin + out * extent / fit <= origin + extent,
        out * extent <= 512 * 0x1_0000_0000,
{
    assert(0 <= out * extent / fit <= extent && out * extent <= 512 * 0x1_0000_0000) by (nonlinear_arith)
        requires
            0 <= out <= fit,
            0 < fit <= 512,
            0 <= extent <= 0x1_0000_0000,
    ;
}

/// Index of the admitted palette entry nearest to the composited mean of the
/// master box over base palette index `base`.
fn composite_index(
    master: &[u8],
    manifest: &IntroPokanManifest,
    palette: &[u16; 16],
    base: u8,
    x0: usize,
    x1: usize,
    y0: usize,
    y1: usize,
    Ghost(ox): Ghost<int>,
    Ghost(oy): Ghost<int>,
) -> (index: u8)
    requires
        manifest_shape_ok(*manifest),
        master_ok(master@, *manifest),
        base < 16,
        x0 < x1 <= manifest.master_width,
        y0 < y1 <= manifest.master_height,
        x0 == source_x0(*manifest, ox),
        x1 == source_x0(*manifest, ox + 1),
        y0 == source_y0(*manifest, oy),
        y1 == source_y0(*manifest, oy + 1),
    ensures
        exists|p: int|
            is_nearest_allowed(
                composite_color(master@, *manifest, palette@, base, ox, oy),
                palette@,
                manifest.allowed_composite_palette_indices@,
                p,
            ) && index == manifest.allowed_composite_palette_indices@[p] as u8,
{
    let width = manifest.master_width;
    assert(y1 * width * 4 <= master@.len()) by (nonlinear_arith)
        requires
            y1 <= manifest.master_height,
            width == manifest.master_width,
            master@.len() == manifest.master_width * manifest.master_height * 4,
    ;
    let background = md_color(palette[base as usize]);
    let r = box_channel_mean(master, width, background, x0, x1, y0, y1, 0);
    let g = box_channel_mean(master, width, background, x0, x1, y0, y1, 1);
    let b = box_channel_mean(master, width, background, x0, x1, y0, y1, 2);
    let averaged = [r, g, b];
    assert(averaged@ =~= composite_color(master@, *manifest, palette@, base, ox, oy));
    let chosen = match nearest_palette_index(averaged, palette, manifest.allowed_composite_palette_indices.as_slice()) {
        Ok(c) => c,
        Err(_) => {
            proof {
                assert(false);
            }
            0
        },
    };
    proof {
        let p = choose|p: int|
            is_nearest_allowed(averaged@, palette@, manifest.allowed_composite_palette_indices@, p)
                && manifest.allowed_composite_palette_indices@[p] == chosen;
        assert(chosen < 16);
    }
    chosen as u8
}

/// Composite the Korean master over the cleaned surface `base`: the master's
/// alpha bounds are fitted into the content box and centred there, and each
/// fitted pixel averages its master box over the colour it covers.
pub fn composite_master(
    master: &[u8],
    manifest: &IntroPokanManifest,
    palette: &[u16; 16],
    base: &Vec<u8>,
    owned: &Vec<bool>,
) -> (target: Result<Vec<u8>, Error>)
    requires
        manifest_shape_ok(*manifest),
        master_ok(master@, *manifest),
        base@.len() == 512 * 136,
        owned@.len() == 512 * 136,
        forall|i: int| 0 <= i < base@.len() ==> #[trigger] base@[i] < 16,
    ensures
        target is Ok <==> composite_ok(*manifest, owned@),
        target matches Ok(t) ==> t@.len() == 512 * 136 && forall|i: int|
            0 <= i < 512 * 136 ==> #[trigger] composited_is(master@, *manifest, palette@, base@, i, t@[i]),
{
    let bounds = &manifest.master_alpha_bounds;
    let content = &manifest.output_surface.content_box;
    if bounds.x > manifest.master_width || bounds.width > manifest.master_width - bounds.x || bounds.y
        > manifest.master_height || bounds.height > manifest.master_height - bounds.y {
        return Err("intro pokan alpha bounds lie outside the master");
    }
    let (fw, fh) = fit_bounds_within(bounds, content)?;
    let fx = content.x + (content.width - fw) / 2;
    let fy = content.y + (content.height - fh) / 2;
    assert(fx == fit_x(*manifest) && fy == fit_y(*manifest));
    let total = SURFACE_WIDTH * SURFACE_HEIGHT;
    let mut target: Vec<u8> = Vec::with_capacity(total);
    let mut i: usize = 0;
    while i < total
        invariant
            manifest_shape_ok(*manifest),
            master_ok(master@, *manifest),
            *bounds == manifest.master_alpha_bounds,
            bounds.x + bounds.width <= manifest.master_width,
            bounds.y + bounds.height <= manifest.master_height,
            fit_ok(*bounds, manifest.output_surface.content_box),
            fw == fit_width(*manifest),
            fh == fit_height(*manifest),
            0 < fw <= 512,
            0 < fh <= 136,
            fx == fit_x(*manifest),
            fy == fit_y(*manifest),
            base@.len() == 512 * 136,
            owned@.len() == 512 * 136,
            forall|q: int| 0 <= q < base@.len() ==> #[trigger] base@[q] < 16,
            total == 512 * 136,
            i <= total,
            target@.len() == i,
            forall|q: int| 0 <= q < i ==> #[trigger] composited_is(master@, *manifest, palette@, base@, q, target@[q]),
            forall|q: int| 0 <= q < i && in_fit(*manifest, q) ==> #[trigger] fit_pixel_ok(*manifest, owned@, q),
        decreases total - i,
    {
        let x = i % SURFACE_WIDTH;
        let y = i / SURFACE_WIDTH;
        if fx <= x && x < fx + fw && fy <= y && y < fy + fh {
            let ox = x - fx;
            let oy = y - fy;
            if !owned[i] {
                assert(!fit_pixel_ok(*manifest, owned@, i as int));
                return Err("intro pokan master reaches an unowned JP map cell");
            }
            proof {
                lemma_edge(bounds.x as int, ox as int, bounds.width as int, fw as int);
                lemma_edge(bounds.x as int, ox + 1, bounds.width as int, fw as int);
                lemma_edge(bounds.y as int, oy as int, bounds.height as int, fh as int);
                lemma_edge(bounds.y as int, oy + 1, bounds.height as int, fh as int);
            }
            let bw = bounds.width as u64;
            let bh = bounds.height as u64;
            let x0 = bounds.x + (ox as u64 * bw / fw as u64) as usize;
            let x1 = bounds.x + ((ox as u64 + 1) * bw / fw as u64) as usize;
            let y0 = bounds.y + (oy as u64 * bh / fh as u64) as usize;
            let y1 = bounds.y + ((oy as u64 + 1) * bh / fh as u64) as usize;
            if x0 >= x1 || y0 >= y1 {
                assert(!fit_pixel_ok(*manifest, owned@, i as int));
                return Err("intro pokan area reduction produced an empty sample");
            }
            assert(y1 * manifest.master_width * 4 <= master@.len()) by (nonlinear_arith)
                requires
                    y1 <= manifest.master_height,
                    master@.len() == manifest.master_width * manifest.master_height * 4,
            ;
            if box_has_alpha(master, manifest.master_width, x0, x1, y0, y1) {
                let index = composite_index(master, manifest, palette, base[i], x0, x1, y0, y1, Ghost(ox as int), Ghost(oy as int));
                target.push(index);
            } else {
                target.push(base[i]);
            }
        } else {
            target.push(base[i]);
        }
        i = i + 1;
    }
    Ok(target)
}

/// Surface pixel `i` lies inside the content box.
pub open spec fn in_content(m: IntroPokanManifest, i: int) -> bool {
    let b = m.output_surface.content_box;
    let x = i % 512;
    let y = i / 512;
    b.x <= x < b.x + b.width && b.y <= y < b.y + b.height
}

/// Outside the content box the target keeps every JP pixel.
pub open spec fn protected_ok(source: Seq<u8>, target: Seq<u8>, m: IntroPokanManifest) -> bool {
    forall|i: int| 0 <= i < 512 * 136 && !in_content(m, i) ==> #[trigger] source[i] == target[i]
}

/// How many of `0..v` fall in `lo..lo + len`.
pub open spec fn covered_before(v: int, lo: int, len: int) -> int {
    if v <= lo {
        0
    } else if v >= lo + len {
        len
    } else {
        v - lo
    }
}

/// Refuse a target that changed a JP pixel outside the content box; count
/// the protected pixels.
pub fn validate_protected_surface(source: &Vec<u8>, target: &Vec<u8>, manifest: &IntroPokanManifest) -> (protected:
    Result<usize, Error>)
    requires
        manifest_shape_ok(*manifest),
    ensures
        protected is Ok <==> (source@.len() == 512 * 136 && target@.len() == 512 * 136 && protected_ok(
            source@,
            target@,
            *manifest,
        )),
        protected matches Ok(n) ==> n == 512 * 136 - manifest.output_surface.content_box.width
            * manifest.output_surface.content_box.height,
{
    if source.len() != target.len() || source.len() != SURFACE_WIDTH * SURFACE_HEIGHT {
        return Err("intro pokan protected-surface length is invalid");
    }
    let b = &manifest.output_surface.content_box;
    let ghost cw = b.width as int;
    let ghost ch = b.height as int;
    let mut protected: usize = 0;
    let mut y: usize = 0;
    while y < SURFACE_HEIGHT
        invariant
            manifest_shape_ok(*manifest),
            *b == manifest.output_surface.content_box,
            cw == b.width,
            ch == b.height,
            source@.len() == 512 * 136,
            target@.len() == 512 * 136,
            y <= 136,
            protected == y * 512 - covered_before(y as int, b.y as int, ch) * cw,
            forall|q: int| 0 <= q < y * 512 && !in_content(*manifest, q) ==> #[trigger] source@[q] == target@[q],
        decreases 136 - y,
    {
        let row_inside = b.y <= y && y < b.y + b.height;
        let mut x: usize = 0;
        while x < SURFACE_WIDTH
            invariant
                manifest_shape_ok(*manifest),
                *b == manifest.output_surface.content_box,
                cw == b.width,
                ch == b.height,
                source@.len() == 512 * 136,
                target@.len() == 512 * 136,
                y < 136,
                x <= 512,
                row_inside == (b.y <= y < b.y + b.height),
                protected == y * 512 - covered_before(y as int, b.y as int, ch) * cw + x - (if row_inside {
                    covered_before(x as int, b.x as int, cw)
                } else {
                    0
                }),
                forall|q: int| 0 <= q < y * 512 + x && !in_content(*manifest, q) ==> #[trigger] source@[q] == target@[q],
            decreases 512 - x,
        {
            let inside = row_inside && b.x <= x && x < b.x + b.width;
            proof {
                crate::grid::lemma_index_bound(y as int, x as int, 512, 136);
                crate::grid::lemma_row_col(y as int, x as int, 512);
                assert(0 <= covered_before(y as int, b.y as int, ch) <= 136);
                assert(covered_before(y as int, b.y as int, ch) * cw <= y * 512) by (nonlinear_arith)
                    requires
                        0 <= covered_before(y as int, b.y as int, ch) <= y,
                        cw <= 512,
                        0 <= cw,
                ;
            }
            let offset = y * SURFACE_WIDTH + x;
            if !inside {
                if source[offset] != target[offset] {
                    assert(!in_content(*manifest, offset as int));
                    return Err("intro pokan changed a protected source pixel");
                }
                protected = protected + 1;
            }
            proof {
                assert forall|q: int| 0 <= q < y * 512 + x + 1 && !in_content(*manifest, q) implies #[trigger] source@[q]
                    == target@[q] by {
                    if q == offset {
                        assert(in_content(*manifest, q) == inside);
                    }
                }
            }
            x = x + 1;
        }
        proof {
            let before = covered_before(y as int, b.y as int, ch);
            let after = covered_before(y + 1, b.y as int, ch);
            if row_inside {
                assert(after == before + 1);
                assert(after * cw == before * cw + cw) by (nonlinear_arith)
                    requires
                        after == before + 1,
                ;
            } else {
                assert(after == before);
            }
        }
        y = y + 1;
    }
    assert(covered_before(136, b.y as int, ch) == ch);
    assert(ch * cw == cw * ch) by (nonlinear_arith);
    Ok(protected)
}

/// Pixel `i` after compositing the master over the cleaned surface `base`,
/// as a function of its inputs.
pub open spec fn composited_pixel(master: Seq<u8>, m: IntroPokanManifest, palette: Seq<u16>, base: Seq<u8>, i: int) -> u8 {
    if in_fit(m, i) {
        let ox = i % 512 - fit_x(m);
        let oy = i / 512 - fit_y(m);
        if box_transparent(master, m.master_width as int, source_x0(m, ox), source_x0(m, ox + 1), source_y0(m, oy), source_y0(m, oy + 1)) {
            base[i]
        } else {
            nearest_allowed(
                composite_color(master, m, palette, base[i], ox, oy),
                palette,
                m.allowed_composite_palette_indices@,
            ) as u8
        }
    } else {
        base[i]
    }
}

proof fn lemma_composited(master: Seq<u8>, m: IntroPokanManifest, palette: Seq<u16>, base: Seq<u8>, i: int, v: u8)
    requires
        composited_is(master, m, palette, base, i, v),
    ensures
        v == composited_pixel(master, m, palette, base, i),
{
    if in_fit(m, i) {
        let ox = i % 512 - fit_x(m);
        let oy = i / 512 - fit_y(m);
        if !box_transparent(master, m.master_width as int, source_x0(m, ox), source_x0(m, ox + 1), source_y0(m, oy), source_y0(m, oy + 1)) {
            let color = composite_color(master, m, palette, base[i], ox, oy);
            let p = choose|p: int|
                is_nearest_allowed(color, palette, m.allowed_composite_palette_indices@, p)
                    && v == m.allowed_composite_palette_indices@[p] as u8;
            crate::palette::lemma_nearest_allowed(color, palette, m.allowed_composite_palette_indices@, p);
        }
    }
}

/// The fitted master lies inside the content box.
proof fn lemma_fit_inside_content(m: IntroPokanManifest, i: int)
    requires
        manifest_shape_ok(m),
        fit_ok(m.master_alpha_bounds, m.output_surface.content_box),
        in_fit(m, i),
    ensures
        in_content(m, i),
{
    let b = m.master_alpha_bounds;
    let c = m.output_surface.content_box;
    if !(b.width <= c.width && b.height <= c.height) {
        if b.width * c.height <= b.height * c.width {
            assert((b.width * c.height) / (b.height as int) <= c.width) by (nonlinear_arith)
                requires
                    b.width * c.height <= b.height * c.width,
                    b.height > 0,
            ;
        } else {
            assert((b.height * c.width) / (b.width as int) <= c.height) by (nonlinear_arith)
                requires
                    b.width * c.height > b.height * c.width,
                    b.width > 0,
            ;
        }
    }
}

/// Which surface pixels the JP map transmits.
pub open spec fn owned_cells() -> Seq<bool> {
    Seq::new(512 * 136, |i: int| transmitted(i))
}

/// The surface the JP transfers draw.
pub open spec fn source_pixels(map: Seq<u8>, patterns: Seq<u8>) -> Seq<u8> {
    Seq::new(512 * 136, |i: int| rendered_pixel(map, patterns, i))
}

/// The JP surface with its letters cleared.
pub open spec fn cleaned_pixels(m: IntroPokanManifest, map: Seq<u8>, patterns: Seq<u8>) -> Seq<u8> {
    let r = m.source_palette_roles;
    Seq::new(
        512 * 136,
        |i: int|
            if transmitted(i) && r.jp_text@.contains(rendered_pixel(map, patterns, i) as usize) {
                r.background as u8
            } else {
                rendered_pixel(map, patterns, i)
            },
    )
}

/// The Korean effect surface: the master composited over the cleaned JP
/// surface.
pub open spec fn target_pixels(master: Seq<u8>, m: IntroPokanManifest, map: Seq<u8>, patterns: Seq<u8>) -> Seq<u8> {
    Seq::new(
        512 * 136,
        |i: int| composited_pixel(master, m, declared_palette(m.palette_line_words@), cleaned_pixels(m, map, patterns), i),
    )
}

/// Positions of the map and pattern transfers among the declarations.
pub open spec fn map_position(m: IntroPokanManifest) -> int {
    first_header_index(m.source_packs@, 0x08_D33A, 0)
}

pub open spec fn pattern_position(m: IntroPokanManifest) -> int {
    first_header_index(m.source_packs@, 0x08_D340, 0)
}

/// Everything the `콩!` compiler requires of its inputs.
pub open spec fn build_inputs_ok(m: IntroPokanManifest, decoded: Seq<DecodedPack>, master: Seq<u8>) -> bool {
    let map = decoded[map_position(m)].data@;
    let patterns = decoded[pattern_position(m)].data@;
    &&& manifest_shape_ok(m)
    &&& palette_declared(m.palette_line_words@.map_values(|w: String| w@))
    &&& decoded.len() == m.source_packs@.len()
    &&& forall|i: int| 0 <= i < decoded.len() ==> pack_matches(#[trigger] decoded[i], m.source_packs@[i])
    &&& render_ok(map, patterns)
    &&& owned_values_are(source_pixels(map, patterns), owned_cells(), role_list(m.source_palette_roles))
    &&& composite_ok(m, owned_cells())
    &&& protected_ok(source_pixels(map, patterns), cleaned_pixels(m, map, patterns), m)
    &&& distinct_tiles(cell_tiles(target_pixels(master, m, map, patterns), 1055)).len() <= 256
}

/// A compiled `콩!` effect before its packs are encoded.
pub struct IntroPokanBuild {
    pub manifest: IntroPokanManifest,
    pub palette: [u16; 16],
    pub target_surface: IndexedSurface,
    pub source_pattern_tiles: usize,
    pub protected_pixels: usize,
    pub map_payload: Vec<u8>,
    pub pattern_payload: Vec<u8>,
}

/// A build whose surface the preview can draw.
pub open spec fn build_wf(b: IntroPokanBuild) -> bool {
    &&& b.target_surface.pixels@.len() == 512 * 136
    &&& b.target_surface.owned@.len() == 512 * 136
    &&& forall|i: int| 0 <= i < 512 * 136 ==> #[trigger] b.target_surface.pixels@[i] < 16
}

proof fn lemma_cell_pixels_transmitted(c: int, b: int)
    requires
        0 <= c < 1055,
        0 <= b < 32,
    ensures
        transmitted(cell_left(c, b)),
        transmitted(cell_left(c, b) + 1),
        0 <= cell_left(c, b),
        cell_left(c, b) + 1 < 512 * 136,
{
    lemma_cell_left_bound(c, b);
    let l = cell_left(c, b);
    let row = (c / 64) * 8 + b / 4;
    let col = (c % 64) * 8 + (b % 4) * 2;
    crate::grid::lemma_row_col(row, col + 1, 512);
    assert(row / 8 == c / 64);
    assert(col / 8 == c % 64 && (col + 1) / 8 == c % 64);
    assert((c / 64) * 64 + c % 64 == c);
}

/// Compile the `콩!` effect: check every declared JP transfer against its
/// decoded counterpart, draw the JP surface, check its palette roles, clear
/// its letters, composite the Korean RGBA `master`, check that nothing
/// outside the content box moved, and rebuild the map and pattern transfers.
pub fn build_intro_pokan(manifest: IntroPokanManifest, decoded: &Vec<DecodedPack>, master: &[u8]) -> (build:
    Result<IntroPokanBuild, Error>)
    requires
        master_ok(master@, manifest),
    ensures
        build is Ok <==> build_inputs_ok(manifest, decoded@, master@),
        build matches Ok(b) ==> {
            let map = decoded@[map_position(manifest)].data@;
            let patterns = decoded@[pattern_position(manifest)].data@;
            &&& build_wf(b)
            &&& b.manifest == manifest
            &&& b.palette@ == declared_palette(manifest.palette_line_words@)
            &&& b.target_surface.pixels@ == target_pixels(master@, manifest, map, patterns)
            &&& b.target_surface.owned@ == owned_cells()
            &&& b.source_pattern_tiles == patterns.len() / 32
            &&& b.protected_pixels == 512 * 136 - manifest.output_surface.content_box.width
                * manifest.output_surface.content_box.height
            &&& compiled_as(b.target_surface.pixels@, b.map_payload@, b.pattern_payload@)
        },
{
    validate_manifest_shape(&manifest)?;
    let palette = parse_md_palette(&manifest.palette_line_words)?;
    assert(palette@ =~= declared_palette(manifest.palette_line_words@));
    let payloads = checked_source_packs(decoded, &manifest.source_packs)?;
    proof {
        crate::pack::lemma_first_header_index_bounds(manifest.source_packs@, 0x08_D33A, 0);
        crate::pack::lemma_first_header_index_bounds(manifest.source_packs@, 0x08_D340, 0);
        let packs = manifest.source_packs@;
        if hex_is(packs[0].header_offset@, 0x08_D33A) {
            assert(first_header_index(packs, 0x08_D340, 0) == first_header_index(packs, 0x08_D340, 1));
        } else {
            assert(first_header_index(packs, 0x08_D33A, 0) == first_header_index(packs, 0x08_D33A, 1));
        }
    }
    let map_index = match position_of_header(&manifest.source_packs, POKAN_MAP_HEADER_OFFSET) {
        Some(i) => i,
        None => {
            return Err("intro pokan manifest has no source pack at the map header");
        },
    };
    let pattern_index = match position_of_header(&manifest.source_packs, POKAN_PATTERN_HEADER_OFFSET) {
        Some(i) => i,
        None => {
            return Err("intro pokan manifest has no source pack at the pattern header");
        },
    };
    let ghost map = decoded@[map_position(manifest)].data@;
    let ghost pats = decoded@[pattern_position(manifest)].data@;
    assert(payloads@[map_index as int]@ == map);
    assert(payloads@[pattern_index as int]@ == pats);
    let source_surface = render_indexed_surface(payloads[map_index].as_slice(), payloads[pattern_index].as_slice())?;
    assert(source_surface.pixels@ =~= source_pixels(map, pats));
    assert(source_surface.owned@ =~= owned_cells());
    validate_source_palette_roles(&source_surface, &manifest)?;
    let cleaned = clear_jp_letters(&source_surface, &manifest.source_palette_roles);
    proof {
        assert(cleaned@ =~= cleaned_pixels(manifest, map, pats));
        assert forall|i: int| 0 <= i < cleaned@.len() implies #[trigger] cleaned@[i] < 16 by {
            assert(cleaned@[i] == cleaned_pixel(source_surface, manifest.source_palette_roles, i));
        }
    }
    let target = composite_master(master, &manifest, &palette, &cleaned, &source_surface.owned)?;
    proof {
        assert forall|i: int| 0 <= i < 512 * 136 implies #[trigger] target@[i] == target_pixels(master@, manifest, map, pats)[i] by {
            lemma_composited(master@, manifest, palette@, cleaned@, i, target@[i]);
        }
        assert(target@ =~= target_pixels(master@, manifest, map, pats));
        assert forall|i: int| 0 <= i < 512 * 136 && !in_content(manifest, i) implies #[trigger] target@[i] == cleaned@[i] by {
            if in_fit(manifest, i) {
                lemma_fit_inside_content(manifest, i);
            }
        }
        assert(protected_ok(source_surface.pixels@, target@, manifest) == protected_ok(
            source_pixels(map, pats),
            cleaned_pixels(manifest, map, pats),
            manifest,
        ));
    }
    let protected_pixels = validate_protected_surface(&source_surface.pixels, &target, &manifest)?;
    proof {
        assert forall|i: int| 0 <= i < 512 * 136 implies #[trigger] target@[i] < 16 by {
            assert(composited_is(master@, manifest, palette@, cleaned@, i, target@[i]));
            if in_fit(manifest, i) {
                let ox = i % 512 - fit_x(manifest);
                let oy = i / 512 - fit_y(manifest);
                if !box_transparent(master@, manifest.master_width as int, source_x0(manifest, ox), source_x0(manifest, ox + 1), source_y0(manifest, oy), source_y0(manifest, oy + 1)) {
                    let color = composite_color(master@, manifest, palette@, cleaned@[i], ox, oy);
                    let p = choose|p: int|
                        is_nearest_allowed(color, palette@, manifest.allowed_composite_palette_indices@, p)
                            && target@[i] == manifest.allowed_composite_palette_indices@[p] as u8;
                    assert(manifest.allowed_composite_palette_indices@[p] < 16);
                }
            }
        }
        assert forall|c: int| 0 <= c < 1055 implies #[trigger] cell_pixels_ok(target@, source_surface.owned@, c) by {
            assert forall|b: int| 0 <= b < 32 implies {
                let l = #[trigger] cell_left(c, b);
                source_surface.owned@[l] && source_surface.owned@[l + 1] && target@[l] < 16 && target@[l + 1] < 16
            } by {
                lemma_cell_pixels_transmitted(c, b);
            }
        }
    }
    let (map_payload, pattern_payload) = compile_indexed_surface(target.as_slice(), source_surface.owned.as_slice(), &manifest)?;
    proof {
        assert forall|i: int| 0 <= i < 512 * 136 && !transmitted(i) implies #[trigger] target@[i] == 0 by {
            if in_fit(manifest, i) {
                assert(fit_pixel_ok(manifest, owned_cells(), i));
            }
        }
        lemma_render_compiled(target@, source_surface.owned@, map_payload@, pattern_payload@);
    }
    let rebuilt = match render_indexed_surface(map_payload.as_slice(), pattern_payload.as_slice()) {
        Ok(r) => r,
        Err(e) => {
            return Err(e);
        },
    };
    proof {
        assert(rebuilt.pixels@ =~= target@);
        assert(rebuilt.owned@ =~= source_surface.owned@);
    }
    if !crate::sets::bytes_equal(rebuilt.pixels.as_slice(), target.as_slice()) || !crate::sets::flags_equal(
        rebuilt.owned.as_slice(),
        source_surface.owned.as_slice(),
    ) {
        return Err("intro pokan map and pattern compiler changed the indexed surface");
    }
    let source_pattern_tiles = payloads[pattern_index].len() / MD_TILE_BYTES;
    Ok(IntroPokanBuild {
        manifest,
        palette,
        target_surface: IndexedSurface { pixels: target, owned: source_surface.owned },
        source_pattern_tiles,
        protected_pixels,
        map_payload,
        pattern_payload,
    })
}

/// Summary of a build; the pack sizes are those of its encoded banks.
pub open spec fn spec_summary(b: IntroPokanBuild, map_pack_bytes: usize, pattern_pack_bytes: usize, checksum: u16) -> IntroPokanSummary {
    IntroPokanSummary {
        source_pattern_tiles: b.source_pattern_tiles,
        output_pattern_tiles: (b.pattern_payload@.len() / 32) as usize,
        map_bytes: b.map_payload@.len() as usize,
        protected_pixels: b.protected_pixels,
        map_pack_bytes,
        pattern_pack_bytes,
        checksum,
    }
}

/// Report the counts of a build.
pub fn summary(b: &IntroPokanBuild, map_pack_bytes: usize, pattern_pack_bytes: usize, checksum: u16) -> (s:
    IntroPokanSummary)
    ensures
        s == spec_summary(*b, map_pack_bytes, pattern_pack_bytes, checksum),
{
    IntroPokanSummary {
        source_pattern_tiles: b.source_pattern_tiles,
        output_pattern_tiles: b.pattern_payload.len() / MD_TILE_BYTES,
        map_bytes: b.map_payload.len(),
        protected_pixels: b.protected_pixels,
        map_pack_bytes,
        pattern_pack_bytes,
        checksum,
    }
}

/// Colour of surface pixel `i` in the preview: its palette colour where the
/// map transmits it, black elsewhere.
pub open spec fn preview_color(b: IntroPokanBuild, i: int) -> Seq<u8> {
    if b.target_surface.owned@[i] {
        spec_md_color(b.palette@[b.target_surface.pixels@[i] as int])
    } else {
        seq![0u8, 0u8, 0u8]
    }
}

/// Byte `k` of the 1024x272 preview: the surface scaled twice.
pub open spec fn preview_byte(b: IntroPokanBuild, k: int) -> u8 {
    let q = k / 4;
    let x = (q % 1024) / 2;
    let y = (q / 1024) / 2;
    opaque_channel(preview_color(b, y * 512 + x), k % 4)
}

/// Render a 2x nearest-neighbour preview of the exact indexed effect surface.
pub fn write_intro_pokan_preview(b: &IntroPokanBuild, map_pack_bytes: usize, pattern_pack_bytes: usize) -> (result: (
    RgbaImage,
    IntroPokanSummary,
))
    requires
        build_wf(*b),
    ensures
        result.0.width == 1024,
        result.0.height == 272,
        result.0.rgba@.len() == 1024 * 272 * 4,
        forall|k: int| 0 <= k < 1024 * 272 * 4 ==> #[trigger] result.0.rgba@[k] == preview_byte(*b, k),
        result.1 == spec_summary(*b, map_pack_bytes, pattern_pack_bytes, 0),
{
    let preview_width = SURFACE_WIDTH * PREVIEW_SCALE;
    let preview_height = SURFACE_HEIGHT * PREVIEW_SCALE;
    let total = preview_width * preview_height;
    let mut rgba: Vec<u8> = Vec::with_capacity(total * 4);
    let mut q: usize = 0;
    while q < total
        invariant
            build_wf(*b),
            preview_width == 1024,
            total == 1024 * 272,
            q <= total,
            rgba@.len() == q * 4,
            forall|k: int| 0 <= k < q * 4 ==> #[trigger] rgba@[k] == preview_byte(*b, k),
        decreases total - q,
    {
        let x = (q % preview_width) / PREVIEW_SCALE;
        let y = (q / preview_width) / PREVIEW_SCALE;
        proof {
            crate::grid::lemma_index_bound(y as int, x as int, 512, 136);
        }
        let i = y * SURFACE_WIDTH + x;
        let color = if b.target_surface.owned[i] {
            md_color(b.palette[b.target_surface.pixels[i] as usize])
        } else {
            [0u8, 0u8, 0u8]
        };
        assert(color@ =~= preview_color(*b, i as int));
        let ghost before = rgba@;
        push_opaque(&mut rgba, color);
        assert forall|k: int| 0 <= k < (q + 1) * 4 implies #[trigger] rgba@[k] == preview_byte(*b, k) by {
            if k >= q * 4 {
                assert(k / 4 == q);
                let c = k - q * 4;
                assert(rgba@[before.len() + c] == opaque_channel(color@, c));
            } else {
                assert(rgba@[k] == before[k]);
            }
        }
        q = q + 1;
    }
    let image = RgbaImage { width: preview_width, height: preview_height, rgba };
    (image, summary(b, map_pack_bytes, pattern_pack_bytes, 0))
}

/// The writes of the pokan insertion: the map and pattern headers over the
/// JP headers, then both banks over erased expanded banks.
pub open spec fn pokan_writes(source: Seq<u8>, map_header: Seq<u8>, pattern_header: Seq<u8>, map_bank: Seq<u8>, pattern_bank: Seq<u8>) -> Seq<WriteView> {
    seq![
        header_write(source, 0x08_D33A, map_header),
        header_write(source, 0x08_D340, pattern_header),
        bank_write(0x27_0000, map_bank),
        bank_write(0x27_8000, pattern_bank),
    ]
}

/// Everything the pokan insertion checks: two six-byte headers, the map
/// bank ending before the pattern bank, the JP headers in `source`, and
/// every write finding its expected bytes.
pub open spec fn pokan_insert_ok(
    source: Seq<u8>,
    image: Seq<u8>,
    map_header: Seq<u8>,
    pattern_header: Seq<u8>,
    map_bank: Seq<u8>,
    pattern_bank: Seq<u8>,
) -> bool {
    &&& map_header.len() == 6
    &&& pattern_header.len() == 6
    &&& 0x27_0000 + map_bank.len() <= 0x27_8000
    &&& 0x08_D340 + 6 <= source.len()
    &&& writes_ok(image, pokan_writes(source, map_header, pattern_header, map_bank, pattern_bank))
}

/// Insert the pokan map and pattern packs: both six-byte headers over the
/// JP headers, both banks over erased expanded banks, then the header
/// checksum. On any refusal the output is left as it was.
pub fn apply_intro_pokan(
    source: &[u8],
    output: &mut Vec<u8>,
    build: &IntroPokanBuild,
    map_header: &[u8],
    pattern_header: &[u8],
    map_bank: &[u8],
    pattern_bank: &[u8],
) -> (result: Result<IntroPokanSummary, Error>)
    ensures
        result is Ok <==> pokan_insert_ok(source@, old(output)@, map_header@, pattern_header@, map_bank@, pattern_bank@),
        result is Err ==> final(output)@ == old(output)@,
        result matches Ok(s) ==> {
            let ws = pokan_writes(source@, map_header@, pattern_header@, map_bank@, pattern_bank@);
            let applied = writes_applied(old(output)@, ws, 4);
            &&& final(output)@ == checksummed(applied)
            &&& s.checksum as int == crate::rom::spec_checksum(applied)
            &&& s == spec_summary(*build, map_bank@.len() as usize, pattern_bank@.len() as usize, s.checksum)
            &&& only_ranges_changed(old(output)@, final(output)@, write_ranges(ws))
        },
{
    if map_header.len() != 6 || pattern_header.len() != 6 || map_bank.len() > POKAN_PATTERN_BANK_OFFSET
        - POKAN_MAP_BANK_OFFSET {
        return Err("intro pokan packs exceed their expanded banks or headers");
    }
    let w0 = header_write_of(source, POKAN_MAP_HEADER_OFFSET, map_header)?;
    let w1 = header_write_of(source, POKAN_PATTERN_HEADER_OFFSET, pattern_header)?;
    let writes = vec![w0, w1, bank_write_of(POKAN_MAP_BANK_OFFSET, map_bank), bank_write_of(POKAN_PATTERN_BANK_OFFSET, pattern_bank)];
    assert(write_views(writes@) =~= pokan_writes(source@, map_header@, pattern_header@, map_bank@, pattern_bank@));
    let checksum = insert_writes(output, &writes)?;
    Ok(summary(build, map_bank.len(), pattern_bank.len(), checksum))
}

} // verus!

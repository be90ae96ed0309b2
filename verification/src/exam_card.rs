//! Graduation-exam result card: four baked JP phrases of the decoded 64x64
//! plane are erased into the parchment and redrawn in Korean, while the
//! original 110 low-pattern tiles stay a byte-exact prefix; changed cells get
//! appended patterns below the next JP transfer, and the dynamic `てん`
//! suffix sprite is suppressed with a one-instruction 68000 `RTS`.

use vstd::prelude::*;
use crate::hex::{Error, hex_equals, hex_is};
use crate::text::{byte_len, has_byte_len, seq_contains_run, str_contains, string_is};
use crate::pack::{DecodedPack, SourcePack, checked_source_packs, pack_matches};
use crate::preview::{PixelBounds, RgbaImage, bounds_are, opaque_channel, push_opaque};
use crate::palette::{declared_palette, md_color, palette_declared, parse_md_palette, spec_md_color};
use crate::sets::{copy_bytes, same_members, same_usize_members, usize_slices_equal};
use crate::rom::{be16, be32, read_be16, read_be32, source_range, only_ranges_changed};
use crate::insert::{WriteView, bank_write, bank_write_of, checksummed, fixed_write_of, header_write, header_write_of, insert_writes, write_ranges, write_views, writes_applied, writes_ok};
use crate::tiles::{MD_TILE_BYTES, all_nibbles, distinct_tiles, lemma_distinct_grows, lemma_distinct_step, pack_nibbles, pack_pair, nibble};
use crate::karaoke::{flip_coord, read_tile_pixel, tile_pixel};
use crate::font_effect::{NativeGlyph, core_within, find_glyph, glyph_core, glyph_position, glyphs_cover, is_whitespace, nearest_core_distance, spec_is_whitespace};

verus! {

pub const EXAM_LOW_HEADER_OFFSET: usize = 0x09_61A6;
pub const EXAM_HIGH_HEADER_OFFSET: usize = 0x09_61AC;
pub const EXAM_MAP_HEADER_OFFSET: usize = 0x09_61B2;
pub const EXAM_WINDOW_HEADER_OFFSET: usize = 0x09_61B8;
pub const EXAM_LOW_BYTES: usize = 3_520;
pub const EXAM_HIGH_BYTES: usize = 6_144;
pub const EXAM_MAP_BYTES: usize = 8_192;
pub const EXAM_WINDOW_BYTES: usize = 4_096;
pub const EXAM_LOW_SOURCE_TILES: usize = 110;
pub const EXAM_PATTERN_BANK_OFFSET: usize = 0x2A_8000;
pub const EXAM_MAP_BANK_OFFSET: usize = 0x2B_0000;
pub const EXAM_MAP_BANK_LIMIT: usize = 0x2B_8000;
pub const EXAM_BASE_TILE: u16 = 0x0100;
pub const EXAM_SURFACE_WIDTH: usize = 512;
pub const EXAM_SURFACE_HEIGHT: usize = 512;
pub const EXAM_TILE_COLUMNS: usize = 64;
pub const EXAM_MAXIMUM_TILES: usize = 256;
pub const EXAM_SUFFIX_ROUTINE_OFFSET: usize = 0x09_5D5E;
pub const EXAM_SUFFIX_DEFINITION_OFFSET: usize = 0x09_769E;
pub const EXAM_DIGIT_TABLE_OFFSET: usize = 0x09_76A8;
pub const EXAM_DRAW_CALL_TARGET: usize = 0x0000_1856;

/// Counts reported after compiling the result card.
pub struct ExamCardSummary {
    pub blocks: usize,
    pub source_text_pixels: usize,
    pub protected_pixels: usize,
    pub source_pattern_tiles: usize,
    pub appended_pattern_tiles: usize,
    pub changed_map_cells: usize,
    pub pattern_pack_bytes: usize,
    pub map_pack_bytes: usize,
    pub typed_code_bytes: usize,
    pub checksum: u16,
}

/// Where the rebuilt pattern and map transfers are stored.
pub struct TargetBanks {
    pub pattern_pack_offset: String,
    pub map_pack_offset: String,
}

/// The JP 64x64 plane and the part of it the paper occupies.
pub struct OutputSurface {
    pub width: usize,
    pub height: usize,
    pub tile_columns: usize,
    pub tile_rows: usize,
    pub paper_crop: PixelBounds,
}

/// How the JP consumer reads the map.
pub struct TilemapPlan {
    pub base_tile: String,
    pub palette_line: u16,
    pub priority: bool,
    pub next_pattern_vram: String,
}

/// How a Korean phrase is drawn: a scaled heading with graded outline rings,
/// or crisp native 16x16 body text.
pub enum RenderStyle {
    HeadingGraded,
    BodyCrisp,
}

/// One JP phrase of the card and the Korean text that replaces it.
pub struct TextBlock {
    pub id: String,
    pub jp_text: String,
    pub ko: String,
    pub source_bounds: PixelBounds,
    pub source_palette_indices: Vec<usize>,
    pub expected_source_pixels: usize,
    pub content_box: PixelBounds,
    pub style: RenderStyle,
    pub glyph_size: usize,
    pub space_width: usize,
    pub target_palette_indices: Vec<usize>,
}

/// The protected score-digit sprites.
pub struct ScoreDigits {
    pub sprite_table_offset: String,
    pub digits: usize,
    pub source_y: String,
    pub source_size_link: String,
    pub source_first_tile: String,
    pub tiles_per_digit: usize,
    pub source_x: String,
    pub preview_text: String,
    pub preview_x: usize,
    pub preview_y: usize,
    pub preview_advance: usize,
}

/// One VDP sprite record.
pub struct SpriteRecord {
    pub y: String,
    pub size_link: String,
    pub tile: String,
    pub x: String,
}

/// The JP routine that draws the `てん` suffix sprite.
pub struct SuffixSuppression {
    pub routine_offset: String,
    pub sprite_definition_offset: String,
    pub draw_call_target: String,
    pub sprite_record: SpriteRecord,
}

/// The result-card asset manifest.
pub struct ExamCardManifest {
    pub schema_version: u32,
    pub asset_group_id: String,
    pub source_policy: String,
    pub source_pack_manifest: String,
    pub font_asset: String,
    pub font_sha256: String,
    pub target_banks: TargetBanks,
    pub output_surface: OutputSurface,
    pub tilemap: TilemapPlan,
    pub palette_line_words: Vec<String>,
    pub background_palette_indices: Vec<usize>,
    pub blocks: Vec<TextBlock>,
    pub score_digits: ScoreDigits,
    pub suffix_suppression: SuffixSuppression,
}

/// The transfers of the exam scene, as the shared exam manifest declares them.
pub struct SharedExamSourceManifest {
    pub source_packs: Vec<SourcePack>,
}

/// Phrase `k` of the card, as (id, JP, Korean, source box, source roles,
/// source pixel count, content box, heading?, glyph size, target roles).
pub open spec fn expected_block_ok(b: TextBlock, k: int) -> bool {
    let heading = b.style is HeadingGraded;
    &&& b.space_width == 8
    &&& k == 0 ==> {
        &&& b.id@ == "GFX-EXAM-CARD-HEADING"@
        &&& b.jp_text@ == "卒園試験"@
        &&& b.ko@ == "졸업시험"@
        &&& bounds_are(b.source_bounds, 112, 24, 96, 24)
        &&& b.source_palette_indices@ == seq![3usize, 4, 5, 6]
        &&& b.expected_source_pixels == 1_406
        &&& bounds_are(b.content_box, 112, 24, 96, 24)
        &&& heading
        &&& b.glyph_size == 22
        &&& b.target_palette_indices@ == seq![3usize, 4, 5, 6]
    }
    &&& k == 1 ==> {
        &&& b.id@ == "GFX-EXAM-CARD-RESULT"@
        &&& b.jp_text@ == "結果"@
        &&& b.ko@ == "결과"@
        &&& bounds_are(b.source_bounds, 144, 56, 32, 16)
        &&& b.source_palette_indices@ == seq![2usize]
        &&& b.expected_source_pixels == 286
        &&& bounds_are(b.content_box, 144, 56, 32, 16)
        &&& !heading
        &&& b.glyph_size == 16
        &&& b.target_palette_indices@ == seq![2usize]
    }
    &&& k == 2 ==> {
        &&& b.id@ == "GFX-EXAM-CARD-SCORE-STEM"@
        &&& b.jp_text@ == "あなたのせいせき"@
        &&& b.ko@ == "성적은"@
        &&& bounds_are(b.source_bounds, 96, 72, 128, 16)
        &&& b.source_palette_indices@ == seq![1usize]
        &&& b.expected_source_pixels == 538
        &&& bounds_are(b.content_box, 96, 72, 128, 24)
        &&& !heading
        &&& b.glyph_size == 16
        &&& b.target_palette_indices@ == seq![1usize]
    }
    &&& k == 3 ==> {
        &&& b.id@ == "GFX-EXAM-CARD-COPULA"@
        &&& b.jp_text@ == "です"@
        &&& b.ko@ == "점입니다"@
        &&& bounds_are(b.source_bounds, 192, 96, 32, 16)
        &&& b.source_palette_indices@ == seq![1usize]
        &&& b.expected_source_pixels == 117
        &&& bounds_are(b.content_box, 176, 96, 64, 16)
        &&& !heading
        &&& b.glyph_size == 16
        &&& b.target_palette_indices@ == seq![1usize]
    }
}

/// The score digits and the suppressed suffix are the JP ones.
pub open spec fn digits_ok(d: ScoreDigits) -> bool {
    &&& hex_is(d.sprite_table_offset@, 0x09_76A8)
    &&& d.digits == 10
    &&& hex_is(d.source_y@, 0x0080)
    &&& hex_is(d.source_size_link@, 0x0500)
    &&& hex_is(d.source_first_tile@, 0xA24A)
    &&& d.tiles_per_digit == 4
    &&& hex_is(d.source_x@, 0x0080)
    &&& d.preview_text@ == "100"@
    &&& d.preview_x == 128
    &&& d.preview_y == 96
    &&& d.preview_advance == 16
}

pub open spec fn suffix_ok(s: SuffixSuppression) -> bool {
    &&& hex_is(s.routine_offset@, 0x09_5D5E)
    &&& hex_is(s.sprite_definition_offset@, 0x09_769E)
    &&& hex_is(s.draw_call_target@, 0x0000_1856)
    &&& hex_is(s.sprite_record.y@, 0x00E0)
    &&& hex_is(s.sprite_record.size_link@, 0x0500)
    &&& hex_is(s.sprite_record.tile@, 0xA272)
    &&& hex_is(s.sprite_record.x@, 0x0130)
}

/// Every fixed fact the result-card manifest must declare.
pub open spec fn manifest_shape_ok(m: ExamCardManifest) -> bool {
    let s = m.output_surface;
    &&& m.schema_version == 1
    &&& m.asset_group_id@ == "GFX-EXAM-CARD"@
    &&& seq_contains_run(m.source_policy@, "JP"@)
    &&& m.source_pack_manifest@ == "graphics_text/exam_seals.json"@
    &&& m.font_asset@ == "neodgm.ttf"@
    &&& byte_len(m.font_sha256@) == 64
    &&& hex_is(m.target_banks.pattern_pack_offset@, 0x2A_8000)
    &&& hex_is(m.target_banks.map_pack_offset@, 0x2B_0000)
    &&& s.width == 512
    &&& s.height == 512
    &&& s.tile_columns == 64
    &&& s.tile_rows == 64
    &&& bounds_are(s.paper_crop, 64, 0, 192, 224)
    &&& hex_is(m.tilemap.base_tile@, 0x0100)
    &&& m.tilemap.palette_line == 1
    &&& m.tilemap.priority
    &&& hex_is(m.tilemap.next_pattern_vram@, 0x4000)
    &&& same_members(m.background_palette_indices@, seq![7usize, 8])
    &&& m.blocks@.len() == 4
    &&& forall|k: int| 0 <= k < 4 ==> expected_block_ok(#[trigger] m.blocks@[k], k)
    &&& digits_ok(m.score_digits)
    &&& suffix_ok(m.suffix_suppression)
}

fn bounds_equal(b: &PixelBounds, x: usize, y: usize, width: usize, height: usize) -> (equal: bool)
    ensures
        equal == bounds_are(*b, x as int, y as int, width as int, height as int),
{
    b.x == x && b.y == y && b.width == width && b.height == height
}

fn block_matches(
    b: &TextBlock,
    id: &str,
    jp: &str,
    ko: &str,
    source: (usize, usize, usize, usize),
    source_roles: &[usize],
    pixels: usize,
    content: (usize, usize, usize, usize),
    heading: bool,
    glyph_size: usize,
    target_roles: &[usize],
) -> (ok: bool)
    ensures
        ok == (b.id@ == id@ && b.jp_text@ == jp@ && b.ko@ == ko@ && bounds_are(
            b.source_bounds,
            source.0 as int,
            source.1 as int,
            source.2 as int,
            source.3 as int,
        ) && b.source_palette_indices@ == source_roles@ && b.expected_source_pixels == pixels
            && bounds_are(b.content_box, content.0 as int, content.1 as int, content.2 as int, content.3 as int)
            && (b.style is HeadingGraded) == heading && b.glyph_size == glyph_size && b.space_width == 8
            && b.target_palette_indices@ == target_roles@),
{
    let is_heading = match b.style {
        RenderStyle::HeadingGraded => true,
        RenderStyle::BodyCrisp => false,
    };
    string_is(&b.id, id) && string_is(&b.jp_text, jp) && string_is(&b.ko, ko) && bounds_equal(
        &b.source_bounds,
        source.0,
        source.1,
        source.2,
        source.3,
    ) && usize_slices_equal(b.source_palette_indices.as_slice(), source_roles)
        && b.expected_source_pixels == pixels && bounds_equal(&b.content_box, content.0, content.1, content.2, content.3)
        && is_heading == heading && b.glyph_size == glyph_size && b.space_width == 8 && usize_slices_equal(
        b.target_palette_indices.as_slice(),
        target_roles,
    )
}

fn blocks_match(blocks: &Vec<TextBlock>) -> (ok: bool)
    requires
        blocks@.len() == 4,
    ensures
        ok == forall|k: int| 0 <= k < 4 ==> expected_block_ok(#[trigger] blocks@[k], k),
{
    let heading_roles: [usize; 4] = [3, 4, 5, 6];
    let ink2: [usize; 1] = [2];
    let ink1: [usize; 1] = [1];
    let first = block_matches(
        &blocks[0],
        "GFX-EXAM-CARD-HEADING",
        "卒園試験",
        "졸업시험",
        (112, 24, 96, 24),
        heading_roles.as_slice(),
        1_406,
        (112, 24, 96, 24),
        true,
        22,
        heading_roles.as_slice(),
    );
    let second = block_matches(
        &blocks[1],
        "GFX-EXAM-CARD-RESULT",
        "結果",
        "결과",
        (144, 56, 32, 16),
        ink2.as_slice(),
        286,
        (144, 56, 32, 16),
        false,
        16,
        ink2.as_slice(),
    );
    let third = block_matches(
        &blocks[2],
        "GFX-EXAM-CARD-SCORE-STEM",
        "あなたのせいせき",
        "성적은",
        (96, 72, 128, 16),
        ink1.as_slice(),
        538,
        (96, 72, 128, 24),
        false,
        16,
        ink1.as_slice(),
    );
    let fourth = block_matches(
        &blocks[3],
        "GFX-EXAM-CARD-COPULA",
        "です",
        "점입니다",
        (192, 96, 32, 16),
        ink1.as_slice(),
        117,
        (176, 96, 64, 16),
        false,
        16,
        ink1.as_slice(),
    );
    proof {
        assert(heading_roles@ == seq![3usize, 4, 5, 6]);
        assert(ink2@ == seq![2usize]);
        assert(ink1@ == seq![1usize]);
        if !(first && second && third && fourth) {
            if !first {
                assert(!expected_block_ok(blocks@[0], 0));
            } else if !second {
                assert(!expected_block_ok(blocks@[1], 1));
            } else if !third {
                assert(!expected_block_ok(blocks@[2], 2));
            } else {
                assert(!expected_block_ok(blocks@[3], 3));
            }
        }
    }
    first && second && third && fourth
}

fn digits_match(d: &ScoreDigits) -> (ok: bool)
    ensures
        ok == digits_ok(*d),
{
    hex_equals(&d.sprite_table_offset, EXAM_DIGIT_TABLE_OFFSET) && d.digits == 10 && hex_equals(&d.source_y, 0x0080)
        && hex_equals(&d.source_size_link, 0x0500) && hex_equals(&d.source_first_tile, 0xA24A)
        && d.tiles_per_digit == 4 && hex_equals(&d.source_x, 0x0080) && string_is(&d.preview_text, "100")
        && d.preview_x == 128 && d.preview_y == 96 && d.preview_advance == 16
}

fn suffix_matches(s: &SuffixSuppression) -> (ok: bool)
    ensures
        ok == suffix_ok(*s),
{
    let r = &s.sprite_record;
    hex_equals(&s.routine_offset, EXAM_SUFFIX_ROUTINE_OFFSET) && hex_equals(
        &s.sprite_definition_offset,
        EXAM_SUFFIX_DEFINITION_OFFSET,
    ) && hex_equals(&s.draw_call_target, EXAM_DRAW_CALL_TARGET) && hex_equals(&r.y, 0x00E0) && hex_equals(
        &r.size_link,
        0x0500,
    ) && hex_equals(&r.tile, 0xA272) && hex_equals(&r.x, 0x0130)
}

/// Refuse a manifest whose identity, banks, plane, tilemap plan, parchment
/// roles, phrases, score digits or suffix routine drifted from the JP card.
pub fn validate_manifest_shape(manifest: &ExamCardManifest) -> (result: Result<(), Error>)
    ensures
        result is Ok <==> manifest_shape_ok(*manifest),
{
    if manifest.schema_version != 1 || !string_is(&manifest.asset_group_id, "GFX-EXAM-CARD") || !str_contains(
        manifest.source_policy.as_str(),
        "JP",
    ) || !string_is(&manifest.source_pack_manifest, "graphics_text/exam_seals.json") || !string_is(
        &manifest.font_asset,
        "neodgm.ttf",
    ) || !has_byte_len(&manifest.font_sha256, 64) {
        return Err("unsupported exam card manifest identity");
    }
    if !hex_equals(&manifest.target_banks.pattern_pack_offset, EXAM_PATTERN_BANK_OFFSET) || !hex_equals(
        &manifest.target_banks.map_pack_offset,
        EXAM_MAP_BANK_OFFSET,
    ) {
        return Err("exam card target banks drifted");
    }
    let s = &manifest.output_surface;
    if s.width != 512 || s.height != 512 || s.tile_columns != 64 || s.tile_rows != 64 || !bounds_equal(
        &s.paper_crop,
        64,
        0,
        192,
        224,
    ) {
        return Err("exam card output surface drifted from the JP 64x64 plane");
    }
    if !hex_equals(&manifest.tilemap.base_tile, 0x0100) || manifest.tilemap.palette_line != 1
        || !manifest.tilemap.priority || !hex_equals(&manifest.tilemap.next_pattern_vram, 0x4000) {
        return Err("exam card tilemap plan drifted from the JP consumer");
    }
    let parchment: [usize; 2] = [7, 8];
    assert(parchment@ == seq![7usize, 8]);
    if !same_usize_members(manifest.background_palette_indices.as_slice(), parchment.as_slice()) {
        return Err("exam card parchment palette roles drifted");
    }
    if manifest.blocks.len() != 4 {
        return Err("exam card manifest must declare exactly four phrases");
    }
    if !blocks_match(&manifest.blocks) {
        return Err("exam card phrase declaration drifted");
    }
    if !digits_match(&manifest.score_digits) {
        return Err("exam score digit declaration drifted");
    }
    if !suffix_matches(&manifest.suffix_suppression) {
        return Err("exam dynamic score suffix declaration drifted");
    }
    Ok(())
}

/// Shared transfer `k` of the exam scene: (id, header, VRAM, decoded bytes).
pub open spec fn shared_pack_ok(p: SourcePack, k: int) -> bool {
    &&& byte_len(p.decoded_sha256@) == 64
    &&& k == 0 ==> p.id@ == "exam-patterns-low"@ && hex_is(p.header_offset@, 0x09_61A6) && hex_is(
        p.vram_destination@,
        0x2000,
    ) && p.decoded_bytes == 3_520
    &&& k == 1 ==> p.id@ == "exam-patterns-high"@ && hex_is(p.header_offset@, 0x09_61AC) && hex_is(
        p.vram_destination@,
        0x4000,
    ) && p.decoded_bytes == 6_144
    &&& k == 2 ==> p.id@ == "exam-map"@ && hex_is(p.header_offset@, 0x09_61B2) && hex_is(
        p.vram_destination@,
        0xE000,
    ) && p.decoded_bytes == 8_192
    &&& k == 3 ==> p.id@ == "exam-window"@ && hex_is(p.header_offset@, 0x09_61B8) && hex_is(
        p.vram_destination@,
        0xD000,
    ) && p.decoded_bytes == 4_096
}

pub open spec fn shared_sources_ok(packs: Seq<SourcePack>) -> bool {
    packs.len() == 4 && forall|k: int| 0 <= k < 4 ==> shared_pack_ok(#[trigger] packs[k], k)
}

fn shared_pack_matches(p: &SourcePack, id: &str, header: usize, vram: usize, bytes: usize) -> (ok: bool)
    ensures
        ok == (p.id@ == id@ && hex_is(p.header_offset@, header as nat) && hex_is(p.vram_destination@, vram as nat)
            && p.decoded_bytes == bytes && byte_len(p.decoded_sha256@) == 64),
{
    string_is(&p.id, id) && hex_equals(&p.header_offset, header) && hex_equals(&p.vram_destination, vram)
        && p.decoded_bytes == bytes && has_byte_len(&p.decoded_sha256, 64)
}

/// Refuse a shared exam manifest that does not declare the four exam
/// transfers in their JP order.
pub fn validate_shared_sources(shared: &SharedExamSourceManifest) -> (result: Result<(), Error>)
    ensures
        result is Ok <==> shared_sources_ok(shared.source_packs@),
{
    let packs = &shared.source_packs;
    if packs.len() != 4 {
        return Err("shared exam source must declare all four transfers");
    }
    let low = shared_pack_matches(&packs[0], "exam-patterns-low", EXAM_LOW_HEADER_OFFSET, 0x2000, EXAM_LOW_BYTES);
    let high = shared_pack_matches(&packs[1], "exam-patterns-high", EXAM_HIGH_HEADER_OFFSET, 0x4000, EXAM_HIGH_BYTES);
    let map = shared_pack_matches(&packs[2], "exam-map", EXAM_MAP_HEADER_OFFSET, 0xE000, EXAM_MAP_BYTES);
    let window = shared_pack_matches(&packs[3], "exam-window", EXAM_WINDOW_HEADER_OFFSET, 0xD000, EXAM_WINDOW_BYTES);
    proof {
        if !(low && high && map && window) {
            if !low {
                assert(!shared_pack_ok(packs@[0], 0));
            } else if !high {
                assert(!shared_pack_ok(packs@[1], 1));
            } else if !map {
                assert(!shared_pack_ok(packs@[2], 2));
            } else {
                assert(!shared_pack_ok(packs@[3], 3));
            }
        }
    }
    if !(low && high && map && window) {
        return Err("shared exam transfer drifted");
    }
    Ok(())
}

/// Big-endian map word of `cell`.
pub open spec fn exam_word(map: Seq<u8>, cell: int) -> u16 {
    (map[2 * cell] as int * 256 + map[2 * cell + 1] as int) as u16
}

/// Tile number a map word names.
pub open spec fn word_tile_number(word: u16) -> int {
    (word & 0x07FF) as int
}

/// A map word the JP consumer draws: priority set, palette line 1, and a
/// tile of the low-pattern transfer loaded from tile 0x100.
pub open spec fn exam_word_ok(word: u16, pattern_tiles: int) -> bool {
    &&& word & 0xE000 == 0xA000
    &&& 0x0100 <= word_tile_number(word) < 0x0100 + pattern_tiles
}

/// Some map cell names source tile `t`.
pub open spec fn tile_used(map: Seq<u8>, t: int) -> bool {
    exists|c: int| 0 <= c < 4096 && word_tile_number(#[trigger] exam_word(map, c)) == 0x0100 + t
}

/// The decoded map and low patterns draw the 64x64 plane; the untouched JP
/// transfer uses every one of its 110 tiles.
pub open spec fn exam_render_ok(map: Seq<u8>, patterns: Seq<u8>) -> bool {
    &&& map.len() == 8_192
    &&& patterns.len() >= 3_520
    &&& patterns.len() % 32 == 0
    &&& forall|c: int| 0 <= c < 4096 ==> #[trigger] exam_word_ok(exam_word(map, c), (patterns.len() / 32) as int)
    &&& patterns.len() == 3_520 ==> forall|t: int| 0 <= t < 110 ==> #[trigger] tile_used(map, t)
}

/// Map cell of plane pixel `i`.
pub open spec fn plane_cell(i: int) -> int {
    ((i / 512) / 8) * 64 + (i % 512) / 8
}

/// Pixel `i` of the plane the transfers draw, flips included.
pub open spec fn exam_pixel(map: Seq<u8>, patterns: Seq<u8>, i: int) -> u8 {
    let x = i % 512;
    let y = i / 512;
    let w = exam_word(map, plane_cell(i));
    let t = word_tile_number(w) - 0x0100;
    tile_pixel(
        patterns.subrange(t * 32, t * 32 + 32),
        flip_coord(x % 8, w & 0x0800 != 0),
        flip_coord(y % 8, w & 0x1000 != 0),
    )
}

fn read_exam_word(map: &[u8], cell: usize) -> (word: u16)
    requires
        cell < 4096,
        map@.len() == 8_192,
    ensures
        word == exam_word(map@, cell as int),
{
    map[2 * cell] as u16 * 256 + map[2 * cell + 1] as u16
}

/// Draw the JP map and low-pattern transfers into the 512x512 plane.
pub fn render_indexed_surface(map: &[u8], patterns: &[u8]) -> (surface: Result<Vec<u8>, Error>)
    ensures
        surface is Ok <==> exam_render_ok(map@, patterns@),
        surface matches Ok(s) ==> s@.len() == 512 * 512 && forall|i: int|
            0 <= i < 512 * 512 ==> #[trigger] s@[i] == exam_pixel(map@, patterns@, i),
{
    if map.len() != EXAM_MAP_BYTES || patterns.len() < EXAM_LOW_BYTES || patterns.len() % MD_TILE_BYTES != 0 {
        return Err("exam card decoded map or pattern length is invalid");
    }
    let tiles = patterns.len() / MD_TILE_BYTES;
    let mut used: Vec<bool> = vec![false; tiles];
    let mut cell: usize = 0;
    while cell < 4096
        invariant
            map@.len() == 8_192,
            patterns@.len() >= 3_520,
            patterns@.len() % 32 == 0,
            tiles == patterns@.len() / 32,
            used@.len() == tiles,
            cell <= 4096,
            forall|c: int| 0 <= c < cell ==> #[trigger] exam_word_ok(exam_word(map@, c), tiles as int),
            forall|t: int|
                0 <= t < tiles ==> (#[trigger] used@[t] <==> exists|c: int|
                    0 <= c < cell && word_tile_number(#[trigger] exam_word(map@, c)) == 0x0100 + t),
        decreases 4096 - cell,
    {
        let word = read_exam_word(map, cell);
        if word & 0xE000 != 0xA000 {
            assert(!exam_word_ok(exam_word(map@, cell as int), tiles as int));
            return Err("exam card map cell has unsupported attributes");
        }
        let tile = word & 0x07FF;
        if tile < EXAM_BASE_TILE || (tile - EXAM_BASE_TILE) as usize >= tiles {
            assert(!exam_word_ok(exam_word(map@, cell as int), tiles as int));
            return Err("exam card map cell references a tile outside the low-pattern transfer");
        }
        let relative = (tile - EXAM_BASE_TILE) as usize;
        used.set(relative, true);
        proof {
            assert forall|t: int|
                0 <= t < tiles implies (#[trigger] used@[t] <==> exists|c: int|
                    0 <= c < cell + 1 && word_tile_number(#[trigger] exam_word(map@, c)) == 0x0100 + t) by {
                if t == relative {
                    assert(word_tile_number(exam_word(map@, cell as int)) == 0x0100 + t);
                } else {
                    if exists|c: int| 0 <= c < cell + 1 && word_tile_number(#[trigger] exam_word(map@, c)) == 0x0100 + t {
                        let c = choose|c: int| 0 <= c < cell + 1 && word_tile_number(#[trigger] exam_word(map@, c)) == 0x0100 + t;
                        assert(c != cell);
                    }
                }
            }
        }
        cell = cell + 1;
    }
    if patterns.len() == EXAM_LOW_BYTES {
        let mut t: usize = 0;
        while t < EXAM_LOW_SOURCE_TILES
            invariant
                tiles == 110,
                patterns@.len() == 3_520,
                used@.len() == tiles,
                t <= 110,
                forall|u: int|
                    0 <= u < tiles ==> (#[trigger] used@[u] <==> exists|c: int|
                        0 <= c < 4096 && word_tile_number(#[trigger] exam_word(map@, c)) == 0x0100 + u),
                forall|u: int| 0 <= u < t ==> #[trigger] tile_used(map@, u),
            decreases 110 - t,
        {
            if !used[t] {
                assert(!tile_used(map@, t as int));
                return Err("exam source map does not consume every declared low-pattern tile");
            }
            assert(tile_used(map@, t as int));
            t = t + 1;
        }
    }
    let total = EXAM_SURFACE_WIDTH * EXAM_SURFACE_HEIGHT;
    let mut pixels: Vec<u8> = Vec::with_capacity(total);
    let mut i: usize = 0;
    while i < total
        invariant
            exam_render_ok(map@, patterns@),
            tiles == patterns@.len() / 32,
            total == 512 * 512,
            i <= total,
            pixels@.len() == i,
            forall|q: int| 0 <= q < i ==> #[trigger] pixels@[q] == exam_pixel(map@, patterns@, q),
        decreases total - i,
    {
        let x = i % EXAM_SURFACE_WIDTH;
        let y = i / EXAM_SURFACE_WIDTH;
        let c = (y / 8) * EXAM_TILE_COLUMNS + x / 8;
        let word = read_exam_word(map, c);
        assert(exam_word_ok(exam_word(map@, c as int), tiles as int));
        let t = ((word & 0x07FF) - EXAM_BASE_TILE) as usize;
        let sx = if word & 0x0800 != 0 { 7 - x % 8 } else { x % 8 };
        let sy = if word & 0x1000 != 0 { 7 - y % 8 } else { y % 8 };
        let offset = t * MD_TILE_BYTES;
        assert(offset + 32 <= patterns@.len()) by (nonlinear_arith)
            requires
                t < tiles,
                tiles == patterns@.len() / 32,
                offset == t * 32,
        ;
        let pixel = read_tile_pixel(&patterns[offset..offset + MD_TILE_BYTES], sx, sy);
        pixels.push(pixel);
        i = i + 1;
    }
    Ok(pixels)
}

/// Plane index of pixel (`lx`, `ly`) of map cell `c`.
pub open spec fn cell_index(c: int, lx: int, ly: int) -> int {
    ((c / 64) * 8 + ly) * 512 + (c % 64) * 8 + lx
}

/// Cell `c` holds the same pixels on both planes.
pub open spec fn cell_same(a: Seq<u8>, b: Seq<u8>, c: int) -> bool {
    forall|lx: int, ly: int| 0 <= lx < 8 && 0 <= ly < 8 ==> a[#[trigger] cell_index(c, lx, ly)] == b[cell_index(c, lx, ly)]
}

/// Every pixel of cell `c` is a 4-bit palette index.
pub open spec fn cell_nibbles(p: Seq<u8>, c: int) -> bool {
    forall|lx: int, ly: int| 0 <= lx < 8 && 0 <= ly < 8 ==> #[trigger] p[cell_index(c, lx, ly)] < 16
}

/// The 32-byte pattern of cell `c` of the plane.
pub open spec fn plane_cell_tile(p: Seq<u8>, c: int) -> Seq<u8> {
    Seq::new(
        32,
        |b: int| pack_nibbles(p[cell_index(c, (b % 4) * 2, b / 4)], p[cell_index(c, (b % 4) * 2 + 1, b / 4)]),
    )
}

/// Patterns of the target cells, among the first `n`, that differ from the
/// source plane, in map order.
pub open spec fn changed_tiles(source: Seq<u8>, target: Seq<u8>, n: int) -> Seq<Seq<u8>>
    decreases n,
{
    if n <= 0 {
        Seq::empty()
    } else {
        let earlier = changed_tiles(source, target, n - 1);
        if cell_same(source, target, n - 1) {
            earlier
        } else {
            earlier.push(plane_cell_tile(target, n - 1))
        }
    }
}

/// The patterns appended after the JP prefix: each changed cell pattern once,
/// in order of first occurrence.
pub open spec fn appended_tiles(source: Seq<u8>, target: Seq<u8>) -> Seq<Seq<u8>> {
    distinct_tiles(changed_tiles(source, target, 4096))
}

/// The target plane can be compiled: its changed cells are 4-bit and their
/// distinct patterns fit, after the 110 JP tiles, below VRAM 0x4000.
pub open spec fn exam_compile_ok(source: Seq<u8>, target: Seq<u8>) -> bool {
    &&& source.len() == 512 * 512
    &&& target.len() == 512 * 512
    &&& forall|c: int| 0 <= c < 4096 && !cell_same(source, target, c) ==> #[trigger] cell_nibbles(target, c)
    &&& appended_tiles(source, target).len() <= 146
}

/// `patterns` is the JP prefix followed by the tiles of `distinct`.
pub open spec fn appended_after(patterns: Seq<u8>, prefix: Seq<u8>, distinct: Seq<Seq<u8>>) -> bool {
    &&& patterns.len() == prefix.len() + 32 * distinct.len()
    &&& forall|k: int| 0 <= k < prefix.len() ==> #[trigger] patterns[k] == prefix[k]
    &&& forall|t: int| 0 <= t < distinct.len() ==> #[trigger] distinct[t].len() == 32
    &&& forall|k: int|
        prefix.len() <= k < patterns.len() ==> #[trigger] patterns[k] == distinct[(k - prefix.len()) / 32][(k
            - prefix.len()) % 32]
}

/// A rewritten map word: the source priority and palette, no flips, and an
/// appended tile holding `tile`.
pub open spec fn rewritten_word_ok(w: u16, source_word: u16, distinct: Seq<Seq<u8>>, tile: Seq<u8>) -> bool {
    &&& w & 0xE000 == source_word & 0xE000
    &&& w & 0x1800 == 0
    &&& 0x016E <= word_tile_number(w) < 0x016E + distinct.len()
    &&& distinct[word_tile_number(w) - 0x016E] == tile
}

/// The first `n` words of `map`: unchanged cells keep their JP word, changed
/// cells name their appended pattern.
pub open spec fn map_rewritten(
    map: Seq<u8>,
    source_map: Seq<u8>,
    source: Seq<u8>,
    target: Seq<u8>,
    distinct: Seq<Seq<u8>>,
    n: int,
) -> bool {
    &&& map.len() == 2 * n
    &&& forall|c: int|
        0 <= c < n ==> if cell_same(source, target, c) {
            #[trigger] exam_word(map, c) == exam_word(source_map, c)
        } else {
            rewritten_word_ok(exam_word(map, c), exam_word(source_map, c), distinct, plane_cell_tile(target, c))
        }
}

/// The map and patterns compiled from the two planes.
pub open spec fn compiled_from(
    source_map: Seq<u8>,
    source_patterns: Seq<u8>,
    source: Seq<u8>,
    target: Seq<u8>,
    map: Seq<u8>,
    patterns: Seq<u8>,
) -> bool {
    let distinct = appended_tiles(source, target);
    &&& appended_after(patterns, source_patterns, distinct)
    &&& map_rewritten(map, source_map, source, target, distinct, 4096)
}

proof fn lemma_cell_index(c: int, lx: int, ly: int)
    requires
        0 <= c < 4096,
        0 <= lx < 8,
        0 <= ly < 8,
    ensures
        0 <= cell_index(c, lx, ly) < 512 * 512,
        cell_index(c, lx, ly) % 512 == (c % 64) * 8 + lx,
        cell_index(c, lx, ly) / 512 == (c / 64) * 8 + ly,
        plane_cell(cell_index(c, lx, ly)) == c,
{
    let row = (c / 64) * 8 + ly;
    let col = (c % 64) * 8 + lx;
    crate::grid::lemma_row_col(row, col, 512);
    crate::grid::lemma_index_bound(row, col, 512, 512);
    assert(row / 8 == c / 64 && col / 8 == c % 64);
}

proof fn lemma_pixel_cell(i: int)
    requires
        0 <= i < 512 * 512,
    ensures
        0 <= plane_cell(i) < 4096,
        cell_index(plane_cell(i), (i % 512) % 8, (i / 512) % 8) == i,
{
    crate::grid::lemma_split_index(i, 512, 512);
    let x = i % 512;
    let y = i / 512;
    let c = plane_cell(i);
    crate::grid::lemma_row_col(y / 8, x / 8, 64);
    assert(c / 64 == y / 8 && c % 64 == x / 8);
}

fn cells_equal(a: &[u8], b: &[u8], c: usize) -> (same: bool)
    requires
        a@.len() == 512 * 512,
        b@.len() == 512 * 512,
        c < 4096,
    ensures
        same == cell_same(a@, b@, c as int),
{
    let mut ly: usize = 0;
    while ly < 8
        invariant
            a@.len() == 512 * 512,
            b@.len() == 512 * 512,
            c < 4096,
            ly <= 8,
            forall|px: int, py: int|
                0 <= px < 8 && 0 <= py < ly ==> a@[#[trigger] cell_index(c as int, px, py)] == b@[cell_index(c as int, px, py)],
        decreases 8 - ly,
    {
        let mut lx: usize = 0;
        while lx < 8
            invariant
                a@.len() == 512 * 512,
                b@.len() == 512 * 512,
                c < 4096,
                ly < 8,
                lx <= 8,
                forall|px: int, py: int|
                    0 <= px < 8 && 0 <= py < ly ==> a@[#[trigger] cell_index(c as int, px, py)] == b@[cell_index(c as int, px, py)],
                forall|px: int| 0 <= px < lx ==> a@[#[trigger] cell_index(c as int, px, ly as int)] == b@[cell_index(c as int, px, ly as int)],
            decreases 8 - lx,
        {
            proof {
                lemma_cell_index(c as int, lx as int, ly as int);
            }
            let k = ((c / 64) * 8 + ly) * 512 + (c % 64) * 8 + lx;
            if a[k] != b[k] {
                assert(a@[cell_index(c as int, lx as int, ly as int)] != b@[cell_index(c as int, lx as int, ly as int)]);
                return false;
            }
            lx = lx + 1;
        }
        ly = ly + 1;
    }
    true
}


/// The pattern of cell `c` of the target plane, once its pixels are 4-bit.
fn encode_surface_cell(pixels: &[u8], c: usize) -> (pattern: Result<Vec<u8>, Error>)
    requires
        pixels@.len() == 512 * 512,
        c < 4096,
    ensures
        pattern is Ok <==> cell_nibbles(pixels@, c as int),
        pattern matches Ok(p) ==> p@ == plane_cell_tile(pixels@, c as int),
{
    let mut pattern: Vec<u8> = Vec::with_capacity(MD_TILE_BYTES);
    let mut b: usize = 0;
    while b < MD_TILE_BYTES
        invariant
            pixels@.len() == 512 * 512,
            c < 4096,
            b <= 32,
            pattern@.len() == b,
            forall|k: int| 0 <= k < b ==> #[trigger] pattern@[k] == plane_cell_tile(pixels@, c as int)[k],
            forall|px: int, py: int|
                0 <= px < 8 && 0 <= py < 8 && py * 4 + px / 2 < b ==> #[trigger] pixels@[cell_index(c as int, px, py)] < 16,
        decreases 32 - b,
    {
        let ly = b / 4;
        let lx = (b % 4) * 2;
        proof {
            lemma_cell_index(c as int, lx as int, ly as int);
            lemma_cell_index(c as int, lx + 1, ly as int);
        }
        let left_at = ((c / 64) * 8 + ly) * 512 + (c % 64) * 8 + lx;
        let left = pixels[left_at];
        let right = pixels[left_at + 1];
        if left >= 16 || right >= 16 {
            assert(!cell_nibbles(pixels@, c as int)) by {
                if left >= 16 {
                    assert(pixels@[cell_index(c as int, lx as int, ly as int)] >= 16);
                } else {
                    assert(pixels@[cell_index(c as int, lx + 1, ly as int)] >= 16);
                }
            }
            return Err("exam card uses an invalid palette index");
        }
        pattern.push(pack_pair(left, right));
        proof {
            assert forall|px: int, py: int|
                0 <= px < 8 && 0 <= py < 8 && py * 4 + px / 2 < b + 1 implies #[trigger] pixels@[cell_index(c as int, px, py)] < 16 by {
                if py * 4 + px / 2 == b {
                    assert(py == ly && (px == lx || px == lx + 1));
                }
            }
        }
        b = b + 1;
    }
    assert(pattern@ =~= plane_cell_tile(pixels@, c as int));
    assert forall|px: int, py: int| 0 <= px < 8 && 0 <= py < 8 implies #[trigger] pixels@[cell_index(c as int, px, py)] < 16 by {
        assert(py * 4 + px / 2 < 32);
    }
    Ok(pattern)
}

/// Position of the first appended 32-byte tile, from byte `from`, equal to
/// `pattern`.
fn find_appended(patterns: &Vec<u8>, from: usize, pattern: &Vec<u8>) -> (found: Option<usize>)
    requires
        from <= patterns@.len(),
        (patterns@.len() - from) % 32 == 0,
    ensures
        found matches Some(j) ==> j < (patterns@.len() - from) / 32 && patterns@.subrange(from + j * 32, from + j * 32 + 32) == pattern@,
        found is None ==> forall|j: int|
            0 <= j < (patterns@.len() - from) / 32 ==> #[trigger] patterns@.subrange(from + j * 32, from + j * 32 + 32) != pattern@,
{
    let n = patterns.len();
    let count = (n - from) / MD_TILE_BYTES;
    let mut j: usize = 0;
    while j < count
        invariant
            n == patterns@.len(),
            from <= n,
            count == (n - from) / 32,
            (n - from) % 32 == 0,
            j <= count,
            forall|k: int| 0 <= k < j ==> #[trigger] patterns@.subrange(from + k * 32, from + k * 32 + 32) != pattern@,
        decreases count - j,
    {
        assert(from + j * 32 + 32 <= n) by (nonlinear_arith)
            requires
                j < count,
                count == (n - from) / 32,
                (n - from) % 32 == 0,
                from <= n,
        ;
        let start = from + j * MD_TILE_BYTES;
        if crate::sets::bytes_equal(&patterns.as_slice()[start..start + MD_TILE_BYTES], pattern.as_slice()) {
            return Some(j);
        }
        j = j + 1;
    }
    None
}

proof fn lemma_rewritten_word(a: u16, r: u16)
    requires
        0x0100 <= r < 0x0200,
    ensures
        ((a & 0xE000) | r) & 0xE000 == a & 0xE000,
        ((a & 0xE000) | r) & 0x1800 == 0,
        ((a & 0xE000) | r) & 0x07FF == r,
{
    assert(((a & 0xE000) | r) & 0xE000 == a & 0xE000 && ((a & 0xE000) | r) & 0x1800 == 0 && ((a & 0xE000) | r)
        & 0x07FF == r) by (bit_vector)
        requires
            0x0100 <= r < 0x0200,
    ;
}

/// Rebuild the low-pattern and map transfers of the target plane while the
/// 110 JP patterns stay a byte-exact prefix: every cell that differs from
/// the source plane gets its pattern appended (once per distinct pattern)
/// and its map word, keeping priority and palette, names that pattern;
/// every other map word stays. Returns the map, the patterns, the number of
/// appended patterns and the number of changed cells.
pub fn compile_preserving_source_prefix(
    source_map: &[u8],
    source_patterns: &[u8],
    source_surface: &[u8],
    target_surface: &[u8],
) -> (compiled: Result<(Vec<u8>, Vec<u8>, usize, usize), Error>)
    ensures
        compiled is Ok <==> (source_map@.len() == 8_192 && source_patterns@.len() == 3_520 && source_surface@.len()
            == 512 * 512 && exam_compile_ok(source_surface@, target_surface@)),
        compiled matches Ok((map, patterns, appended, changed)) ==> {
            &&& compiled_from(source_map@, source_patterns@, source_surface@, target_surface@, map@, patterns@)
            &&& appended == appended_tiles(source_surface@, target_surface@).len()
            &&& changed == changed_tiles(source_surface@, target_surface@, 4096).len()
        },
{
    if source_map.len() != EXAM_MAP_BYTES || source_patterns.len() != EXAM_LOW_BYTES || source_surface.len()
        != 512 * 512 || target_surface.len() != 512 * 512 {
        return Err("exam card compile inputs have invalid lengths");
    }
    let ghost source = source_surface@;
    let ghost target = target_surface@;
    let ghost mut distinct: Seq<Seq<u8>> = Seq::empty();
    let mut patterns: Vec<u8> = copy_bytes(source_patterns);
    let mut map: Vec<u8> = Vec::with_capacity(EXAM_MAP_BYTES);
    let mut appended: usize = 0;
    let mut changed: usize = 0;
    let mut c: usize = 0;
    while c < 4096
        invariant
            source_map@.len() == 8_192,
            source_patterns@.len() == 3_520,
            source == source_surface@,
            target == target_surface@,
            source.len() == 512 * 512,
            target.len() == 512 * 512,
            c <= 4096,
            distinct == distinct_tiles(changed_tiles(source, target, c as int)),
            distinct.len() <= 146,
            appended == distinct.len(),
            changed == changed_tiles(source, target, c as int).len(),
            changed <= c,
            appended_after(patterns@, source_patterns@, distinct),
            map_rewritten(map@, source_map@, source, target, distinct, c as int),
            forall|k: int| 0 <= k < c && !cell_same(source, target, k) ==> #[trigger] cell_nibbles(target, k),
        decreases 4096 - c,
    {
        let ghost map_before = map@;
        let original = read_exam_word(source_map, c);
        if cells_equal(source_surface, target_surface, c) {
            proof {
                assert(changed_tiles(source, target, c + 1) == changed_tiles(source, target, c as int));
            }
            crate::rom::append_word(&mut map, original);
            proof {
                assert forall|k: int| 0 <= k < c + 1 implies if cell_same(source, target, k) {
                    #[trigger] exam_word(map@, k) == exam_word(source_map@, k)
                } else {
                    rewritten_word_ok(exam_word(map@, k), exam_word(source_map@, k), distinct, plane_cell_tile(target, k))
                } by {
                    if k < c {
                        assert(exam_word(map@, k) == exam_word(map_before, k));
                    } else {
                        assert(exam_word(map@, k) == original);
                    }
                }
            }
        } else {
            let pattern = match encode_surface_cell(target_surface, c) {
                Ok(p) => p,
                Err(e) => {
                    return Err(e);
                },
            };
            proof {
                lemma_distinct_step(changed_tiles(source, target, c as int), pattern@);
                assert(changed_tiles(source, target, c + 1) == changed_tiles(source, target, c as int).push(pattern@));
            }
            let found = find_appended(&patterns, EXAM_LOW_BYTES, &pattern);
            let relative = match found {
                Some(j) => {
                    proof {
                        assert(patterns@.subrange(3_520 + j * 32, 3_520 + j * 32 + 32) =~= distinct[j as int]) by {
                            assert forall|b: int| 0 <= b < 32 implies patterns@[3_520 + j * 32 + b] == distinct[j as int][b] by {
                                assert((j * 32 + b) / 32 == j && (j * 32 + b) % 32 == b) by {
                                    crate::grid::lemma_row_col(j as int, b, 32);
                                }
                            }
                        }
                        assert(distinct.contains(pattern@));
                    }
                    j
                },
                None => {
                    proof {
                        assert forall|t: int| 0 <= t < distinct.len() implies distinct[t] != pattern@ by {
                            assert(patterns@.subrange(3_520 + t * 32, 3_520 + t * 32 + 32) =~= distinct[t]) by {
                                assert forall|b: int| 0 <= b < 32 implies patterns@[3_520 + t * 32 + b] == distinct[t][b] by {
                                    assert((t * 32 + b) / 32 == t && (t * 32 + b) % 32 == b) by {
                                        crate::grid::lemma_row_col(t, b, 32);
                                    }
                                }
                            }
                        }
                    }
                    if appended >= EXAM_MAXIMUM_TILES - EXAM_LOW_SOURCE_TILES {
                        proof {
                            let all = changed_tiles(source, target, 4096);
                            lemma_changed_prefix(source, target, c + 1, 4096);
                            lemma_distinct_prefix_len(all, changed_tiles(source, target, c + 1).len() as int);
                        }
                        return Err("exam card needs more patterns than fit below VRAM 0x4000");
                    }
                    let ghost before = patterns@;
                    let mut b: usize = 0;
                    while b < MD_TILE_BYTES
                        invariant
                            pattern@.len() == 32,
                            b <= 32,
                            patterns@ == before + pattern@.take(b as int),
                        decreases 32 - b,
                    {
                        patterns.push(pattern[b]);
                        assert(pattern@.take(b + 1) =~= pattern@.take(b as int).push(pattern@[b as int]));
                        b = b + 1;
                    }
                    proof {
                        assert(pattern@.take(32) =~= pattern@);
                        distinct = distinct.push(pattern@);
                        assert forall|k: int| 3_520 <= k < patterns@.len() implies #[trigger] patterns@[k] == distinct[(k
                            - 3_520) / 32][(k - 3_520) % 32] by {
                            if k < before.len() {
                                assert(patterns@[k] == before[k]);
                            } else {
                                assert((k - 3_520) / 32 == appended);
                            }
                        }
                    }
                    appended = appended + 1;
                    appended - 1
                },
            };
            proof {
                if found is Some {
                    assert(distinct == distinct_tiles(changed_tiles(source, target, c + 1)));
                }
                assert(distinct[relative as int] == pattern@);
                lemma_rewritten_word(original, (0x016E + relative) as u16);
            }
            let word = (original & 0xE000) | (EXAM_BASE_TILE + EXAM_LOW_SOURCE_TILES as u16 + relative as u16);
            crate::rom::append_word(&mut map, word);
            changed = changed + 1;
            proof {
                assert forall|k: int| 0 <= k < c + 1 implies if cell_same(source, target, k) {
                    #[trigger] exam_word(map@, k) == exam_word(source_map@, k)
                } else {
                    rewritten_word_ok(exam_word(map@, k), exam_word(source_map@, k), distinct, plane_cell_tile(target, k))
                } by {
                    if k < c {
                        assert(exam_word(map@, k) == exam_word(map_before, k));
                    } else {
                        assert(exam_word(map@, k) == word);
                    }
                }
            }
        }
        c = c + 1;
    }
    Ok((map, patterns, appended, changed))
}

/// The changed patterns of the first `n` cells are a prefix of those of the
/// first `m`.
proof fn lemma_changed_prefix(source: Seq<u8>, target: Seq<u8>, n: int, m: int)
    requires
        0 <= n <= m,
    ensures
        changed_tiles(source, target, n) == changed_tiles(source, target, m).take(
            changed_tiles(source, target, n).len() as int,
        ),
        changed_tiles(source, target, n).len() <= changed_tiles(source, target, m).len(),
    decreases m - n,
{
    if n < m {
        lemma_changed_prefix(source, target, n, m - 1);
        let a = changed_tiles(source, target, n);
        let b = changed_tiles(source, target, m - 1);
        if !cell_same(source, target, m - 1) {
            assert(b.push(plane_cell_tile(target, m - 1)).take(a.len() as int) =~= b.take(a.len() as int));
        }
    } else {
        assert(changed_tiles(source, target, n).take(changed_tiles(source, target, n).len() as int)
            =~= changed_tiles(source, target, n));
    }
}

proof fn lemma_distinct_prefix_len(all: Seq<Seq<u8>>, n: int)
    requires
        0 <= n <= all.len(),
    ensures
        distinct_tiles(all.take(n)).len() <= distinct_tiles(all).len(),
{
    lemma_distinct_grows(all, n);
}

proof fn lemma_no_changes(source: Seq<u8>, target: Seq<u8>, n: int)
    requires
        0 <= n,
        distinct_tiles(changed_tiles(source, target, n)).len() == 0,
    ensures
        forall|c: int| 0 <= c < n ==> #[trigger] cell_same(source, target, c),
    decreases n,
{
    if n > 0 {
        let earlier = changed_tiles(source, target, n - 1);
        if !cell_same(source, target, n - 1) {
            lemma_distinct_step(earlier, plane_cell_tile(target, n - 1));
            assert(changed_tiles(source, target, n) == earlier.push(plane_cell_tile(target, n - 1)));
            if distinct_tiles(earlier).contains(plane_cell_tile(target, n - 1)) {
                assert(distinct_tiles(earlier).len() > 0);
            }
            assert(false);
        }
        assert(changed_tiles(source, target, n) == earlier);
        lemma_no_changes(source, target, n - 1);
    }
}

proof fn lemma_tile_pixel_of_cell(p: Seq<u8>, c: int, lx: int, ly: int)
    requires
        0 <= c < 4096,
        0 <= lx < 8,
        0 <= ly < 8,
        p.len() == 512 * 512,
        cell_nibbles(p, c),
    ensures
        tile_pixel(plane_cell_tile(p, c), lx, ly) == p[cell_index(c, lx, ly)],
{
    let b = ly * 4 + lx / 2;
    assert(b % 4 == lx / 2 && b / 4 == ly);
    let l = p[cell_index(c, (lx / 2) * 2, ly)];
    let r = p[cell_index(c, (lx / 2) * 2 + 1, ly)];
    assert(l < 16 && r < 16);
    assert(nibble(pack_nibbles(l, r), true) == l && nibble(pack_nibbles(l, r), false) == r);
    if lx % 2 == 0 {
        assert((lx / 2) * 2 == lx);
    } else {
        assert((lx / 2) * 2 + 1 == lx);
    }
}

/// Drawing the transfers compiled from the target plane gives the target
/// plane back: the 110 JP tiles and unchanged words still draw the
/// unchanged cells, and every changed cell draws its appended pattern.
pub proof fn lemma_render_compiled(
    source_map: Seq<u8>,
    source_patterns: Seq<u8>,
    source: Seq<u8>,
    target: Seq<u8>,
    map: Seq<u8>,
    patterns: Seq<u8>,
)
    requires
        exam_render_ok(source_map, source_patterns),
        source_patterns.len() == 3_520,
        source.len() == 512 * 512,
        forall|i: int| 0 <= i < 512 * 512 ==> #[trigger] source[i] == exam_pixel(source_map, source_patterns, i),
        exam_compile_ok(source, target),
        compiled_from(source_map, source_patterns, source, target, map, patterns),
    ensures
        exam_render_ok(map, patterns),
        forall|i: int| 0 <= i < 512 * 512 ==> #[trigger] exam_pixel(map, patterns, i) == target[i],
{
    let distinct = appended_tiles(source, target);
    let tiles = (patterns.len() / 32) as int;
    assert(patterns.len() == 32 * (110 + distinct.len()));
    assert(tiles == 110 + distinct.len()) by {
        crate::grid::lemma_row_col((110 + distinct.len()) as int, 0, 32);
        assert((110 + distinct.len()) * 32 == 32 * (110 + distinct.len())) by (nonlinear_arith);
    }
    assert forall|c: int| 0 <= c < 4096 implies #[trigger] exam_word_ok(exam_word(map, c), tiles) by {
        assert(exam_word_ok(exam_word(source_map, c), (source_patterns.len() / 32) as int));
        if !cell_same(source, target, c) {
            assert(rewritten_word_ok(exam_word(map, c), exam_word(source_map, c), distinct, plane_cell_tile(target, c)));
        }
    }
    if patterns.len() == 3_520 {
        assert(distinct.len() == 0);
        lemma_no_changes(source, target, 4096);
        assert forall|t: int| 0 <= t < 110 implies #[trigger] tile_used(map, t) by {
            assert(tile_used(source_map, t));
            let c = choose|c: int| 0 <= c < 4096 && word_tile_number(#[trigger] exam_word(source_map, c)) == 0x0100 + t;
            assert(cell_same(source, target, c));
            assert(exam_word(map, c) == exam_word(source_map, c));
        }
    }
    assert forall|i: int| 0 <= i < 512 * 512 implies #[trigger] exam_pixel(map, patterns, i) == target[i] by {
        lemma_pixel_cell(i);
        let c = plane_cell(i);
        let lx = (i % 512) % 8;
        let ly = (i / 512) % 8;
        let w = exam_word(map, c);
        let t = word_tile_number(w) - 0x0100;
        if cell_same(source, target, c) {
            assert(w == exam_word(source_map, c));
            assert(exam_word_ok(exam_word(source_map, c), (source_patterns.len() / 32) as int));
            assert(0 <= t < 110);
            assert(patterns.subrange(t * 32, t * 32 + 32) =~= source_patterns.subrange(t * 32, t * 32 + 32)) by {
                assert(t * 32 + 32 <= 3_520);
            }
            assert(source[i] == exam_pixel(source_map, source_patterns, i));
            assert(source[cell_index(c, lx, ly)] == target[cell_index(c, lx, ly)]);
        } else {
            assert(rewritten_word_ok(w, exam_word(source_map, c), distinct, plane_cell_tile(target, c)));
            let k = word_tile_number(w) - 0x016E;
            assert(0 <= k < distinct.len());
            assert(t == 110 + k);
            assert(w & 0x0800 != 0 <==> false) by {
                assert((w & 0x1800 == 0) ==> (w & 0x0800 == 0)) by (bit_vector);
            }
            assert(w & 0x1000 != 0 <==> false) by {
                assert((w & 0x1800 == 0) ==> (w & 0x1000 == 0)) by (bit_vector);
            }
            assert(patterns.subrange(t * 32, t * 32 + 32) =~= distinct[k]) by {
                assert forall|b: int| 0 <= b < 32 implies patterns[t * 32 + b] == distinct[k][b] by {
                    assert(t * 32 + b - 3_520 == k * 32 + b);
                    assert((k * 32 + b) / 32 == k && (k * 32 + b) % 32 == b) by {
                        crate::grid::lemma_row_col(k, b, 32);
                    }
                    assert(t * 32 + b < patterns.len()) by (nonlinear_arith)
                        requires
                            t == 110 + k,
                            0 <= k < distinct.len(),
                            0 <= b < 32,
                            patterns.len() == 32 * (110 + distinct.len()),
                    ;
                }
            }
            assert(cell_nibbles(target, c));
            lemma_tile_pixel_of_cell(target, c, lx, ly);
        }
    }
}

/// (`r1`, `dy1`, `dx1`) comes before (`r`, `dy`, `dx`) in the search order:
/// by ring radius, then row, then column.
pub open spec fn scan_before(r1: int, dy1: int, dx1: int, r: int, dy: int, dx: int) -> bool {
    r1 < r || (r1 == r && (dy1 < dy || (dy1 == dy && dx1 < dx)))
}

/// Offset (`dx`, `dy`) of ring `r` around (`x`, `y`) lands on the paper on a
/// parchment pixel of the source plane.
pub open spec fn ring_hit(source: Seq<u8>, bg: Seq<usize>, crop: PixelBounds, x: int, y: int, r: int, dy: int, dx: int) -> bool {
    &&& 1 <= r <= 64
    &&& -r <= dy <= r
    &&& -r <= dx <= r
    &&& (dx == -r || dx == r || dy == -r || dy == r)
    &&& crop.x <= x + dx < crop.x + crop.width
    &&& crop.y <= y + dy < crop.y + crop.height
    &&& bg.contains(source[(y + dy) * 512 + x + dx] as usize)
}

/// The first parchment hit in search order.
pub open spec fn first_hit(source: Seq<u8>, bg: Seq<usize>, crop: PixelBounds, x: int, y: int) -> (int, int, int) {
    choose|t: (int, int, int)|
        ring_hit(source, bg, crop, x, y, t.0, t.1, t.2) && forall|r1: int, dy1: int, dx1: int|
            scan_before(r1, dy1, dx1, t.0, t.1, t.2) ==> !#[trigger] ring_hit(source, bg, crop, x, y, r1, dy1, dx1)
}

/// The parchment index nearest to (`x`, `y`) by square rings of radius 1 to
/// 64 inside the paper crop, the first one scanned on the nearest ring.
pub open spec fn nearest_bg(source: Seq<u8>, bg: Seq<usize>, crop: PixelBounds, x: int, y: int) -> Option<u8> {
    if exists|r: int, dy: int, dx: int| #[trigger] ring_hit(source, bg, crop, x, y, r, dy, dx) {
        let t = first_hit(source, bg, crop, x, y);
        Some(source[(y + t.1) * 512 + x + t.2])
    } else {
        None
    }
}

proof fn lemma_first_hit_unique(source: Seq<u8>, bg: Seq<usize>, crop: PixelBounds, x: int, y: int, r: int, dy: int, dx: int)
    requires
        ring_hit(source, bg, crop, x, y, r, dy, dx),
        forall|r1: int, dy1: int, dx1: int|
            scan_before(r1, dy1, dx1, r, dy, dx) ==> !#[trigger] ring_hit(source, bg, crop, x, y, r1, dy1, dx1),
    ensures
        first_hit(source, bg, crop, x, y) == (r, dy, dx),
        nearest_bg(source, bg, crop, x, y) == Some(source[(y + dy) * 512 + x + dx]),
{
    let w = (r, dy, dx);
    assert(ring_hit(source, bg, crop, x, y, w.0, w.1, w.2) && forall|r1: int, dy1: int, dx1: int|
        scan_before(r1, dy1, dx1, w.0, w.1, w.2) ==> !#[trigger] ring_hit(source, bg, crop, x, y, r1, dy1, dx1));
    let t = first_hit(source, bg, crop, x, y);
    assert(ring_hit(source, bg, crop, x, y, t.0, t.1, t.2));
    if t != (r, dy, dx) {
        if scan_before(t.0, t.1, t.2, r, dy, dx) {
        } else {
            assert(scan_before(r, dy, dx, t.0, t.1, t.2));
        }
    }
}

/// The first hit is a hit.
pub open spec fn first_hit_ok(source: Seq<u8>, bg: Seq<usize>, crop: PixelBounds, x: int, y: int) -> bool {
    let t = first_hit(source, bg, crop, x, y);
    ring_hit(source, bg, crop, x, y, t.0, t.1, t.2)
}

/// A parchment found for a pixel is a pixel of the source plane.
proof fn lemma_nearest_from_source(source: Seq<u8>, bg: Seq<usize>, crop: PixelBounds, x: int, y: int)
    requires
        source.len() == 512 * 512,
        crop.x + crop.width <= 512,
        crop.y + crop.height <= 512,
        nearest_bg(source, bg, crop, x, y) is Some,
        first_hit_ok(source, bg, crop, x, y),
    ensures
        all_nibbles(source) ==> nearest_bg(source, bg, crop, x, y)->0 < 16,
{
    let t = first_hit(source, bg, crop, x, y);
    crate::grid::lemma_index_bound(y + t.1, x + t.2, 512, 512);
}

/// Recover the parchment under a JP text pixel at (`x`, `y`).
fn nearest_background(source: &[u8], x: usize, y: usize, bg: &[usize], crop: &PixelBounds) -> (found: Option<u8>)
    requires
        source@.len() == 512 * 512,
        x < 512,
        y < 512,
        crop.x + crop.width <= 512,
        crop.y + crop.height <= 512,
    ensures
        found == nearest_bg(source@, bg@, *crop, x as int, y as int),
        found is Some ==> first_hit_ok(source@, bg@, *crop, x as int, y as int),
{
    let mut r: usize = 1;
    while r <= 64
        invariant
            source@.len() == 512 * 512,
            x < 512,
            y < 512,
            crop.x + crop.width <= 512,
            crop.y + crop.height <= 512,
            1 <= r <= 65,
            forall|r1: int, dy1: int, dx1: int|
                r1 < r ==> !#[trigger] ring_hit(source@, bg@, *crop, x as int, y as int, r1, dy1, dx1),
        decreases 65 - r,
    {
        let mut dyi: usize = 0;
        while dyi <= 2 * r
            invariant
                source@.len() == 512 * 512,
                x < 512,
                y < 512,
                crop.x + crop.width <= 512,
                crop.y + crop.height <= 512,
                1 <= r <= 64,
                dyi <= 2 * r + 1,
                forall|r1: int, dy1: int, dx1: int|
                    r1 < r ==> !#[trigger] ring_hit(source@, bg@, *crop, x as int, y as int, r1, dy1, dx1),
                forall|dy1: int, dx1: int|
                    dy1 < dyi - r ==> !#[trigger] ring_hit(source@, bg@, *crop, x as int, y as int, r as int, dy1, dx1),
            decreases 2 * r + 1 - dyi,
        {
            let mut dxi: usize = 0;
            while dxi <= 2 * r
                invariant
                    source@.len() == 512 * 512,
                    x < 512,
                    y < 512,
                    crop.x + crop.width <= 512,
                    crop.y + crop.height <= 512,
                    1 <= r <= 64,
                    dyi <= 2 * r,
                    dxi <= 2 * r + 1,
                    forall|r1: int, dy1: int, dx1: int|
                        r1 < r ==> !#[trigger] ring_hit(source@, bg@, *crop, x as int, y as int, r1, dy1, dx1),
                    forall|dy1: int, dx1: int|
                        dy1 < dyi - r ==> !#[trigger] ring_hit(source@, bg@, *crop, x as int, y as int, r as int, dy1, dx1),
                    forall|dx1: int|
                        dx1 < dxi - r ==> !#[trigger] ring_hit(source@, bg@, *crop, x as int, y as int, r as int, dyi - r, dx1),
                decreases 2 * r + 1 - dxi,
            {
                let ghost dy: int = dyi - r;
                let ghost dx: int = dxi - r;
                let on_ring = dxi == 0 || dxi == 2 * r || dyi == 0 || dyi == 2 * r;
                if on_ring && x + dxi >= r && y + dyi >= r {
                    let cx = x + dxi - r;
                    let cy = y + dyi - r;
                    if cx >= crop.x && cx < crop.x + crop.width && cy >= crop.y && cy < crop.y + crop.height {
                        proof {
                            crate::grid::lemma_index_bound(cy as int, cx as int, 512, 512);
                        }
                        let pixel = source[cy * EXAM_SURFACE_WIDTH + cx];
                        if crate::sets::contains_usize(bg, pixel as usize) {
                            proof {
                                assert(ring_hit(source@, bg@, *crop, x as int, y as int, r as int, dy, dx));
                                assert forall|r1: int, dy1: int, dx1: int|
                                    scan_before(r1, dy1, dx1, r as int, dy, dx) implies !#[trigger] ring_hit(
                                    source@,
                                    bg@,
                                    *crop,
                                    x as int,
                                    y as int,
                                    r1,
                                    dy1,
                                    dx1,
                                ) by {}
                                lemma_first_hit_unique(source@, bg@, *crop, x as int, y as int, r as int, dy, dx);
                            }
                            return Some(pixel);
                        }
                    }
                }
                assert(!ring_hit(source@, bg@, *crop, x as int, y as int, r as int, dy, dx));
                dxi = dxi + 1;
            }
            dyi = dyi + 1;
        }
        r = r + 1;
    }
    assert(!exists|r1: int, dy1: int, dx1: int| #[trigger] ring_hit(source@, bg@, *crop, x as int, y as int, r1, dy1, dx1));
    None
}

/// Plane pixel (`x`, `y`) lies inside the box.
pub open spec fn in_box(b: PixelBounds, x: int, y: int) -> bool {
    b.x <= x < b.x + b.width && b.y <= y < b.y + b.height
}

/// Plane index of pixel `j` of the box, counted row by row.
pub open spec fn box_index(b: PixelBounds, j: int) -> int {
    (b.y + j / (b.width as int)) * 512 + b.x + j % (b.width as int)
}

/// Position inside the box, row by row, of plane pixel `i`.
pub open spec fn box_pos(b: PixelBounds, i: int) -> int {
    (i / 512 - b.y) * b.width + (i % 512 - b.x)
}

/// Plane pixel `i` is a JP letter pixel of the phrase: inside its source box
/// and drawn in one of its source letter roles.
pub open spec fn text_pixel(source: Seq<u8>, b: TextBlock, i: int) -> bool {
    in_box(b.source_bounds, i % 512, i / 512) && b.source_palette_indices@.contains(source[i] as usize)
}

/// Number of JP letter pixels among the first `n` pixels of the source box.
pub open spec fn text_count_upto(source: Seq<u8>, b: TextBlock, n: int) -> nat
    decreases n,
{
    if n <= 0 {
        0
    } else {
        text_count_upto(source, b, n - 1) + if text_pixel(source, b, box_index(b.source_bounds, n - 1)) {
            1nat
        } else {
            0nat
        }
    }
}

/// Number of JP letter pixels of the phrase.
pub open spec fn text_count(source: Seq<u8>, b: TextBlock) -> nat {
    text_count_upto(source, b, b.source_bounds.width * b.source_bounds.height)
}

/// Letter pixels of the first `k` phrases.
pub open spec fn text_total(source: Seq<u8>, blocks: Seq<TextBlock>, k: int) -> nat
    decreases k,
{
    if k <= 0 {
        0
    } else {
        text_total(source, blocks, k - 1) + text_count(source, blocks[k - 1])
    }
}

/// Plane pixel `i` after the letters of the first `k` phrases are erased
/// into the parchment found nearest to them.
pub open spec fn erased_pixel(source: Seq<u8>, m: ExamCardManifest, k: int, i: int) -> u8
    decreases k,
{
    if k <= 0 {
        source[i]
    } else if text_pixel(source, m.blocks@[k - 1], i) {
        nearest_bg(source, m.background_palette_indices@, m.output_surface.paper_crop, i % 512, i / 512)->0
    } else {
        erased_pixel(source, m, k - 1, i)
    }
}

/// Every phrase has exactly its declared number of letter pixels, and
/// parchment is found for each of them.
pub open spec fn erase_ok(source: Seq<u8>, m: ExamCardManifest) -> bool {
    &&& forall|k: int| 0 <= k < 4 ==> text_count(source, #[trigger] m.blocks@[k]) == m.blocks@[k].expected_source_pixels
    &&& forall|k: int, i: int|
        0 <= k < 4 && 0 <= i < 512 * 512 && #[trigger] text_pixel(source, m.blocks@[k], i) ==> nearest_bg(
            source,
            m.background_palette_indices@,
            m.output_surface.paper_crop,
            i % 512,
            i / 512,
        ) is Some
}

/// The geometry every phrase of the card has: boxes inside the plane, the
/// source box inside the content box, an 8-pixel space, at most four
/// characters, and the glyph size and roles of its style.
pub open spec fn block_geometry_ok(b: TextBlock) -> bool {
    let sb = b.source_bounds;
    let cb = b.content_box;
    &&& 0 < sb.width <= 128 && 0 < sb.height <= 24
    &&& sb.x + sb.width <= 512 && sb.y + sb.height <= 512
    &&& 0 < cb.width <= 128 && 0 < cb.height <= 24
    &&& cb.x + cb.width <= 512 && cb.y + cb.height <= 512
    &&& cb.x <= sb.x && sb.x + sb.width <= cb.x + cb.width
    &&& cb.y <= sb.y && sb.y + sb.height <= cb.y + cb.height
    &&& b.space_width == 8
    &&& (b.style is HeadingGraded ==> b.glyph_size == 22 && b.target_palette_indices@ == seq![3usize, 4, 5, 6])
    &&& (b.style is BodyCrisp ==> b.glyph_size == 16 && b.target_palette_indices@.len() == 1
        && b.target_palette_indices@[0] < 16)
    &&& b.ko@.len() <= 4
}

/// The fixed geometry of phrase `k` of a well-formed manifest.
pub proof fn lemma_block_facts(m: ExamCardManifest, k: int)
    requires
        manifest_shape_ok(m),
        0 <= k < 4,
    ensures
        block_geometry_ok(m.blocks@[k]),
        bounds_are(m.output_surface.paper_crop, 64, 0, 192, 224),
{
    assert(expected_block_ok(m.blocks@[k], k));
    reveal_strlit("졸업시험");
    reveal_strlit("결과");
    reveal_strlit("성적은");
    reveal_strlit("점입니다");
}

proof fn lemma_box_index(b: PixelBounds, j: int)
    requires
        0 < b.width,
        b.x + b.width <= 512,
        b.y + b.height <= 512,
        0 <= j < b.width * b.height,
    ensures
        0 <= box_index(b, j) < 512 * 512,
        box_index(b, j) % 512 == b.x + j % (b.width as int),
        box_index(b, j) / 512 == b.y + j / (b.width as int),
        in_box(b, box_index(b, j) % 512, box_index(b, j) / 512),
        box_pos(b, box_index(b, j)) == j,
{
    crate::grid::lemma_split_index(j, b.width as int, b.height as int);
    let row = b.y + j / (b.width as int);
    let col = b.x + j % (b.width as int);
    crate::grid::lemma_row_col(row, col, 512);
    crate::grid::lemma_index_bound(row, col, 512, 512);
}

proof fn lemma_box_pos(b: PixelBounds, i: int)
    requires
        0 < b.width,
        b.x + b.width <= 512,
        b.y + b.height <= 512,
        0 <= i < 512 * 512,
        in_box(b, i % 512, i / 512),
    ensures
        0 <= box_pos(b, i) < b.width * b.height,
        box_index(b, box_pos(b, i)) == i,
{
    crate::grid::lemma_split_index(i, 512, 512);
    let r = i / 512 - b.y;
    let col = i % 512 - b.x;
    crate::grid::lemma_row_col(r, col, b.width as int);
    crate::grid::lemma_index_bound(r, col, b.width as int, b.height as int);
}

/// Erase the JP letters of every phrase: each letter pixel takes the
/// parchment index nearest to it on the source plane. Returns the erased
/// plane and the number of erased pixels.
pub fn erase_source_text(source: &[u8], manifest: &ExamCardManifest) -> (erased: Result<(Vec<u8>, usize), Error>)
    requires
        manifest_shape_ok(*manifest),
        source@.len() == 512 * 512,
    ensures
        erased is Ok <==> erase_ok(source@, *manifest),
        erased matches Ok((target, total)) ==> {
            &&& target@.len() == 512 * 512
            &&& forall|i: int| 0 <= i < 512 * 512 ==> #[trigger] target@[i] == erased_pixel(source@, *manifest, 4, i)
            &&& total == text_total(source@, manifest.blocks@, 4)
            &&& all_nibbles(source@) ==> all_nibbles(target@)
        },
{
    let ghost m = *manifest;
    let crop = &manifest.output_surface.paper_crop;
    let bg = manifest.background_palette_indices.as_slice();
    let mut target: Vec<u8> = copy_bytes(source);
    let mut total: usize = 0;
    let mut k: usize = 0;
    proof {
        lemma_block_facts(m, 0);
    }
    while k < 4
        invariant
            m == *manifest,
            manifest_shape_ok(m),
            source@.len() == 512 * 512,
            crop == &m.output_surface.paper_crop,
            bg@ == m.background_palette_indices@,
            bounds_are(*crop, 64, 0, 192, 224),
            k <= 4,
            target@.len() == 512 * 512,
            forall|i: int| 0 <= i < 512 * 512 ==> #[trigger] target@[i] == erased_pixel(source@, m, k as int, i),
            all_nibbles(source@) ==> all_nibbles(target@),
            total == text_total(source@, m.blocks@, k as int),
            total <= k * 128 * 24,
            forall|q: int| 0 <= q < k ==> text_count(source@, #[trigger] m.blocks@[q]) == m.blocks@[q].expected_source_pixels,
            forall|q: int, i: int|
                0 <= q < k && 0 <= i < 512 * 512 && #[trigger] text_pixel(source@, m.blocks@[q], i) ==> nearest_bg(
                    source@,
                    bg@,
                    *crop,
                    i % 512,
                    i / 512,
                ) is Some,
        decreases 4 - k,
    {
        proof {
            lemma_block_facts(m, k as int);
        }
        let block = &manifest.blocks[k];
        let sb = &block.source_bounds;
        assert(sb.width * sb.height <= 128 * 24) by (nonlinear_arith)
            requires
                sb.width <= 128,
                sb.height <= 24,
        ;
        let area = sb.width * sb.height;
        let mut count: usize = 0;
        let mut j: usize = 0;
        while j < area
            invariant
                m == *manifest,
                manifest_shape_ok(m),
                source@.len() == 512 * 512,
                crop == &m.output_surface.paper_crop,
                bg@ == m.background_palette_indices@,
                bounds_are(*crop, 64, 0, 192, 224),
                k < 4,
                block == &m.blocks@[k as int],
                sb == &block.source_bounds,
                block_geometry_ok(*block),
                area == sb.width * sb.height,
                j <= area,
                count == text_count_upto(source@, *block, j as int),
                count <= j,
                target@.len() == 512 * 512,
                all_nibbles(source@) ==> all_nibbles(target@),
                forall|i: int|
                    0 <= i < 512 * 512 ==> #[trigger] target@[i] == if text_pixel(source@, *block, i) && box_pos(*sb, i) < j {
                        nearest_bg(source@, bg@, *crop, i % 512, i / 512)->0
                    } else {
                        erased_pixel(source@, m, k as int, i)
                    },
                forall|i: int|
                    0 <= i < 512 * 512 && #[trigger] text_pixel(source@, *block, i) && box_pos(*sb, i) < j ==> nearest_bg(
                        source@,
                        bg@,
                        *crop,
                        i % 512,
                        i / 512,
                    ) is Some,
            decreases area - j,
        {
            proof {
                lemma_box_index(*sb, j as int);
            }
            let x = sb.x + j % sb.width;
            let y = sb.y + j / sb.width;
            let offset = y * EXAM_SURFACE_WIDTH + x;
            assert(offset == box_index(*sb, j as int));
            let is_text = crate::sets::contains_usize(block.source_palette_indices.as_slice(), source[offset] as usize);
            assert(is_text == text_pixel(source@, *block, offset as int));
            if is_text {
                match nearest_background(source, x, y, bg, crop) {
                    Some(p) => {
                        proof {
                            lemma_nearest_from_source(source@, bg@, *crop, x as int, y as int);
                        }
                        let ghost t_before = target@;
                        target.set(offset, p);
                        proof {
                            if all_nibbles(source@) {
                                assert forall|q: int| 0 <= q < target@.len() implies #[trigger] target@[q] < 16 by {
                                    if q != offset {
                                        assert(target@[q] == t_before[q]);
                                    }
                                }
                            }
                        }
                        count = count + 1;
                    },
                    None => {
                        proof {
                            assert(!erase_ok(source@, m)) by {
                                assert(text_pixel(source@, m.blocks@[k as int], offset as int));
                            }
                        }
                        return Err("exam card could not recover parchment below a source text pixel");
                    },
                }
            }
            proof {
                assert forall|i: int|
                    0 <= i < 512 * 512 implies #[trigger] target@[i] == if text_pixel(source@, *block, i) && box_pos(*sb, i)
                        < j + 1 {
                        nearest_bg(source@, bg@, *crop, i % 512, i / 512)->0
                    } else {
                        erased_pixel(source@, m, k as int, i)
                    } by {
                    if i != offset && text_pixel(source@, *block, i) && box_pos(*sb, i) == j {
                        lemma_box_pos(*sb, i);
                    }
                }
                assert forall|i: int|
                    0 <= i < 512 * 512 && #[trigger] text_pixel(source@, *block, i) && box_pos(*sb, i) < j + 1 implies nearest_bg(
                        source@,
                        bg@,
                        *crop,
                        i % 512,
                        i / 512,
                    ) is Some by {
                    if box_pos(*sb, i) == j {
                        lemma_box_pos(*sb, i);
                    }
                }
            }
            j = j + 1;
        }
        if count != block.expected_source_pixels {
            proof {
                assert(!erase_ok(source@, m)) by {
                    assert(text_count(source@, m.blocks@[k as int]) != m.blocks@[k as int].expected_source_pixels);
                }
            }
            return Err("exam card source text mask has another pixel count than declared");
        }
        proof {
            assert forall|i: int| 0 <= i < 512 * 512 implies #[trigger] target@[i] == erased_pixel(source@, m, k + 1, i) by {
                if text_pixel(source@, *block, i) {
                    lemma_box_pos(*sb, i);
                }
            }
            assert forall|q: int, i: int|
                0 <= q < k + 1 && 0 <= i < 512 * 512 && #[trigger] text_pixel(source@, m.blocks@[q], i) implies nearest_bg(
                    source@,
                    bg@,
                    *crop,
                    i % 512,
                    i / 512,
                ) is Some by {
                if q == k {
                    lemma_box_pos(*sb, i);
                }
            }
            assert(count <= 128 * 24) by (nonlinear_arith)
                requires
                    count <= area,
                    area == sb.width * sb.height,
                    sb.width <= 128,
                    sb.height <= 24,
            ;
        }
        total = total + count;
        k = k + 1;
    }
    Ok((target, total))
}

/// Advance of one character of a phrase: whitespace takes the space width,
/// any other character a full glyph cell.
pub open spec fn glyph_advance(c: char, space_width: int, glyph_size: int) -> int {
    if spec_is_whitespace(c) { space_width } else { glyph_size }
}

/// Width of a line of glyph cells.
pub open spec fn block_width(chars: Seq<char>, space_width: int, glyph_size: int) -> int
    decreases chars.len(),
{
    if chars.len() == 0 {
        0
    } else {
        block_width(chars.drop_last(), space_width, glyph_size) + glyph_advance(chars.last(), space_width, glyph_size)
    }
}

/// Width of the Korean line of the phrase.
pub open spec fn line_width(b: TextBlock) -> int {
    block_width(b.ko@, b.space_width as int, b.glyph_size as int)
}

/// Left edge of the centred Korean line.
pub open spec fn line_start(b: TextBlock) -> int {
    b.content_box.x + (b.content_box.width - line_width(b)) / 2
}

/// Top edge of the vertically centred Korean line.
pub open spec fn line_top(b: TextBlock) -> int {
    b.content_box.y + (b.content_box.height - b.glyph_size) / 2
}

/// Left edge of character `q` of the Korean line.
pub open spec fn char_left(b: TextBlock, q: int) -> int {
    line_start(b) + block_width(b.ko@.take(q), b.space_width as int, b.glyph_size as int)
}

/// A 16x16 core scaled to `size` x `size` by nearest-neighbour sampling.
pub open spec fn scaled_core(core: Seq<bool>, size: int) -> Seq<bool> {
    Seq::new((size * size) as nat, |p: int| core[((p / size) * 16 / size) * 16 + (p % size) * 16 / size])
}

/// Role of pixel (`x`, `y`) of a scaled heading glyph: the core in the first
/// role, the first outline ring in the second, the second ring alternating
/// between the third and fourth in a checkerboard.
pub open spec fn heading_role(core: Seq<bool>, size: int, x: int, y: int, roles: Seq<usize>) -> Option<usize> {
    if core[y * size + x] {
        Some(roles[0])
    } else if core_within(core, size, size, x, y, 1) {
        Some(roles[1])
    } else if core_within(core, size, size, x, y, 2) {
        if (x + y) % 2 == 0 {
            Some(roles[2])
        } else {
            Some(roles[3])
        }
    } else {
        None
    }
}

/// Role a phrase's glyph with 16x16 `core` draws at cell pixel (`x`, `y`).
pub open spec fn glyph_role(b: TextBlock, core: Seq<bool>, x: int, y: int) -> Option<usize> {
    if b.style is HeadingGraded {
        heading_role(
            scaled_core(core, b.glyph_size as int),
            b.glyph_size as int,
            x,
            y,
            b.target_palette_indices@,
        )
    } else if core[y * 16 + x] {
        Some(b.target_palette_indices@[0])
    } else {
        None
    }
}

/// A Korean glyph may draw over plane pixel `i`: the source plane holds
/// parchment or one of the phrase's JP letter roles there.
pub open spec fn writable(source: Seq<u8>, bg: Seq<usize>, b: TextBlock, i: int) -> bool {
    bg.contains(source[i] as usize) || b.source_palette_indices@.contains(source[i] as usize)
}

/// Role character `q` of the phrase writes at cell pixel (`x`, `y`), if any.
#[verifier::opaque]
pub open spec fn cell_write(
    source: Seq<u8>,
    bg: Seq<usize>,
    b: TextBlock,
    glyphs: Seq<NativeGlyph>,
    q: int,
    x: int,
    y: int,
) -> Option<usize> {
    let c = b.ko@[q];
    if !spec_is_whitespace(c) && writable(source, bg, b, (line_top(b) + y) * 512 + char_left(b, q) + x) {
        glyph_role(b, glyph_core(glyphs, c), x, y)
    } else {
        None
    }
}

/// Role character `q` of the phrase writes at plane pixel `i`, if any.
pub open spec fn char_write_at(
    source: Seq<u8>,
    bg: Seq<usize>,
    b: TextBlock,
    glyphs: Seq<NativeGlyph>,
    q: int,
    i: int,
) -> Option<usize> {
    let x = i % 512 - char_left(b, q);
    let y = i / 512 - line_top(b);
    if 0 <= x < b.glyph_size && 0 <= y < b.glyph_size {
        cell_write(source, bg, b, glyphs, q, x, y)
    } else {
        None
    }
}

/// Plane pixel `i`, `below` before the phrase, once its first `n`
/// characters are drawn.
pub open spec fn drawn_pixel(
    source: Seq<u8>,
    bg: Seq<usize>,
    b: TextBlock,
    glyphs: Seq<NativeGlyph>,
    n: int,
    i: int,
    below: u8,
) -> u8
    decreases n,
{
    if n <= 0 {
        below
    } else if char_write_at(source, bg, b, glyphs, n - 1, i) is Some {
        char_write_at(source, bg, b, glyphs, n - 1, i)->0 as u8
    } else {
        drawn_pixel(source, bg, b, glyphs, n - 1, i, below)
    }
}

/// Pixels character `q` writes among the first `n` of its cell.
pub open spec fn char_visible_upto(
    source: Seq<u8>,
    bg: Seq<usize>,
    b: TextBlock,
    glyphs: Seq<NativeGlyph>,
    q: int,
    n: int,
) -> nat
    decreases n,
{
    if n <= 0 {
        0
    } else {
        char_visible_upto(source, bg, b, glyphs, q, n - 1) + if cell_write(
            source,
            bg,
            b,
            glyphs,
            q,
            (n - 1) % (b.glyph_size as int),
            (n - 1) / (b.glyph_size as int),
        ) is Some {
            1nat
        } else {
            0nat
        }
    }
}

/// Pixels the first `n` characters of the phrase write.
pub open spec fn visible_upto(source: Seq<u8>, bg: Seq<usize>, b: TextBlock, glyphs: Seq<NativeGlyph>, n: int) -> nat
    decreases n,
{
    if n <= 0 {
        0
    } else {
        visible_upto(source, bg, b, glyphs, n - 1) + char_visible_upto(
            source,
            bg,
            b,
            glyphs,
            n - 1,
            b.glyph_size * b.glyph_size,
        )
    }
}

/// Characters of `chars` that are not whitespace.
pub open spec fn visible_chars(chars: Seq<char>) -> nat
    decreases chars.len(),
{
    if chars.len() == 0 {
        0
    } else {
        visible_chars(chars.drop_last()) + if spec_is_whitespace(chars.last()) {
            0nat
        } else {
            1nat
        }
    }
}

/// The phrase can be drawn: its line fits the content box, every visible
/// character has a glyph, and at least 12 pixels per visible character
/// land on writable pixels.
pub open spec fn block_renders(source: Seq<u8>, bg: Seq<usize>, b: TextBlock, glyphs: Seq<NativeGlyph>) -> bool {
    &&& line_width(b) <= b.content_box.width
    &&& b.glyph_size <= b.content_box.height
    &&& glyphs_cover(glyphs, b.ko@)
    &&& visible_upto(source, bg, b, glyphs, b.ko@.len() as int) >= 12 * visible_chars(b.ko@)
}

proof fn lemma_block_width_prefix(chars: Seq<char>, space_width: int, glyph_size: int, k: int)
    requires
        0 <= space_width <= 22,
        0 <= glyph_size <= 22,
        0 <= k <= chars.len(),
    ensures
        0 <= block_width(chars.take(k), space_width, glyph_size) <= 22 * k,
        k < chars.len() ==> block_width(chars.take(k + 1), space_width, glyph_size) == block_width(
            chars.take(k),
            space_width,
            glyph_size,
        ) + glyph_advance(chars[k], space_width, glyph_size),
        block_width(chars.take(k), space_width, glyph_size) <= block_width(chars, space_width, glyph_size),
    decreases chars.len() - k,
{
    lemma_block_width_bound(chars.take(k), space_width, glyph_size);
    if k < chars.len() {
        assert(chars.take(k + 1).drop_last() =~= chars.take(k));
        lemma_block_width_prefix(chars, space_width, glyph_size, k + 1);
    } else {
        assert(chars.take(k) =~= chars);
    }
}

proof fn lemma_block_width_bound(chars: Seq<char>, space_width: int, glyph_size: int)
    requires
        0 <= space_width <= 22,
        0 <= glyph_size <= 22,
    ensures
        0 <= block_width(chars, space_width, glyph_size) <= 22 * chars.len(),
    decreases chars.len(),
{
    if chars.len() > 0 {
        lemma_block_width_bound(chars.drop_last(), space_width, glyph_size);
    }
}

/// Width of the Korean line, as the JP compiler measures it.
fn text_width(b: &TextBlock) -> (width: usize)
    requires
        b.space_width <= 22,
        b.glyph_size <= 22,
        b.ko@.len() <= 4,
    ensures
        width == line_width(*b),
{
    let n = b.ko.unicode_len();
    let mut width: usize = 0;
    let mut i: usize = 0;
    while i < n
        invariant
            n == b.ko@.len(),
            n <= 4,
            b.space_width <= 22,
            b.glyph_size <= 22,
            i <= n,
            width as int == block_width(b.ko@.take(i as int), b.space_width as int, b.glyph_size as int),
        decreases n - i,
    {
        proof {
            lemma_block_width_prefix(b.ko@, b.space_width as int, b.glyph_size as int, i as int);
            lemma_block_width_prefix(b.ko@, b.space_width as int, b.glyph_size as int, i + 1);
        }
        let c = b.ko.get_char(i);
        if is_whitespace(c) {
            width = width + b.space_width;
        } else {
            width = width + b.glyph_size;
        }
        i = i + 1;
    }
    assert(b.ko@.take(n as int) =~= b.ko@);
    width
}

/// The 16x16 core scaled to `size` x `size`.
fn scale_core(core: &[bool], size: usize) -> (scaled: Vec<bool>)
    requires
        core@.len() == 256,
        0 < size <= 22,
    ensures
        scaled@ == scaled_core(core@, size as int),
{
    assert(size * size <= 484) by (nonlinear_arith)
        requires
            size <= 22,
    ;
    let total = size * size;
    let mut scaled: Vec<bool> = Vec::with_capacity(total);
    let mut p: usize = 0;
    while p < total
        invariant
            core@.len() == 256,
            0 < size <= 22,
            total == size * size,
            p <= total,
            scaled@.len() == p,
            forall|k: int| 0 <= k < p ==> #[trigger] scaled@[k] == scaled_core(core@, size as int)[k],
        decreases total - p,
    {
        let y = p / size;
        let x = p % size;
        proof {
            crate::grid::lemma_split_index(p as int, size as int, size as int);
            assert((y * 16) as int / (size as int) < 16 && (x * 16) as int / (size as int) < 16) by (nonlinear_arith)
                requires
                    y < size,
                    x < size,
                    0 < size,
            ;
        }
        scaled.push(core[(y * 16 / size) * 16 + x * 16 / size]);
        p = p + 1;
    }
    assert(scaled@ =~= scaled_core(core@, size as int));
    scaled
}

/// Role of pixel (`x`, `y`) of a scaled heading glyph.
fn heading_role_of(core: &[bool], size: usize, x: usize, y: usize, roles: &[usize]) -> (role: Option<usize>)
    requires
        core@.len() == size * size,
        0 < size <= 22,
        x < size,
        y < size,
        roles@.len() == 4,
    ensures
        role == heading_role(core@, size as int, x as int, y as int, roles@),
{
    proof {
        crate::grid::lemma_index_bound(y as int, x as int, size as int, size as int);
        assert(size * size <= 484) by (nonlinear_arith)
            requires
                size <= 22,
        ;
    }
    if core[y * size + x] {
        return Some(roles[0]);
    }
    proof {
        if core_within(core@, size as int, size as int, x as int, y as int, 0) {
            let (px, py) = choose|cx: int, cy: int|
                0 <= cx < size && 0 <= cy < size && x <= cx <= x && y <= cy <= y && #[trigger] core@[cy * size + cx];
            assert(px == x && py == y);
        }
    }
    match nearest_core_distance(core, size, size, x, y, 2) {
        Some(1) => Some(roles[1]),
        Some(2) => {
            if (x + y) % 2 == 0 {
                Some(roles[2])
            } else {
                Some(roles[3])
            }
        },
        _ => None,
    }
}

proof fn lemma_whitespace_invisible(
    source: Seq<u8>,
    bg: Seq<usize>,
    b: TextBlock,
    glyphs: Seq<NativeGlyph>,
    q: int,
    n: int,
)
    requires
        spec_is_whitespace(b.ko@[q]),
    ensures
        char_visible_upto(source, bg, b, glyphs, q, n) == 0,
    decreases n,
{
    reveal(cell_write);
    if n > 0 {
        lemma_whitespace_invisible(source, bg, b, glyphs, q, n - 1);
    }
}

proof fn lemma_visible_chars_step(chars: Seq<char>, q: int)
    requires
        0 <= q < chars.len(),
    ensures
        visible_chars(chars.take(q + 1)) == visible_chars(chars.take(q)) + if spec_is_whitespace(chars[q]) {
            0nat
        } else {
            1nat
        },
        visible_chars(chars.take(q)) <= q,
{
    assert(chars.take(q + 1).drop_last() =~= chars.take(q));
    lemma_visible_chars_bound(chars.take(q));
}

proof fn lemma_visible_chars_bound(chars: Seq<char>)
    ensures
        visible_chars(chars) <= chars.len(),
    decreases chars.len(),
{
    if chars.len() > 0 {
        lemma_visible_chars_bound(chars.drop_last());
    }
}

/// Draw the glyph of visible character `q` of the phrase into its cell at
/// (`cursor`, `top`); returns the number of pixels written.
#[verifier::spinoff_prover]
#[verifier::rlimit(40)]
fn draw_glyph(
    glyphs: &[NativeGlyph],
    b: &TextBlock,
    bg: &[usize],
    source: &[u8],
    target: &mut Vec<u8>,
    q: usize,
    core: &[bool],
    cursor: usize,
    top: usize,
) -> (count: usize)
    requires
        block_geometry_ok(*b),
        source@.len() == 512 * 512,
        old(target)@.len() == 512 * 512,
        q < b.ko@.len(),
        !spec_is_whitespace(b.ko@[q as int]),
        core@ == glyph_core(glyphs@, b.ko@[q as int]),
        core@.len() == 256,
        top == line_top(*b),
        top + b.glyph_size <= 512,
        cursor == char_left(*b, q as int),
        cursor + b.glyph_size <= 512,
    ensures
        final(target)@.len() == 512 * 512,
        count == char_visible_upto(source@, bg@, *b, glyphs@, q as int, b.glyph_size * b.glyph_size),
        count <= 484,
        forall|i: int|
            0 <= i < 512 * 512 ==> #[trigger] final(target)@[i] == if char_write_at(source@, bg@, *b, glyphs@, q as int, i) is Some {
                char_write_at(source@, bg@, *b, glyphs@, q as int, i)->0 as u8
            } else {
                old(target)@[i]
            },
{
    let ghost before = target@;
    let ghost c = b.ko@[q as int];
    let heading = match b.style {
        RenderStyle::HeadingGraded => true,
        RenderStyle::BodyCrisp => false,
    };
    let gs = b.glyph_size;
    assert(gs * gs <= 484) by {
        assert(gs == 16 || gs == 22);
    }
    let scaled = if heading { scale_core(core, gs) } else { Vec::new() };
    let roles = b.target_palette_indices.as_slice();
    let area = gs * gs;
    let mut count: usize = 0;
    let mut p: usize = 0;
    while p < area
        invariant
            block_geometry_ok(*b),
            source@.len() == 512 * 512,
            target@.len() == 512 * 512,
            before.len() == 512 * 512,
            heading == (b.style is HeadingGraded),
            gs == b.glyph_size,
            gs == 16 || gs == 22,
            area == gs * gs,
            area <= 484,
            q < b.ko@.len(),
            c == b.ko@[q as int],
            !spec_is_whitespace(c),
            core@ == glyph_core(glyphs@, c),
            core@.len() == 256,
            heading ==> scaled@ == scaled_core(core@, gs as int),
            roles@ == b.target_palette_indices@,
            top == line_top(*b),
            top + gs <= 512,
            cursor == char_left(*b, q as int),
            cursor + gs <= 512,
            p <= area,
            count == char_visible_upto(source@, bg@, *b, glyphs@, q as int, p as int),
            count <= p,
            forall|i: int|
                0 <= i < 512 * 512 ==> #[trigger] target@[i] == if char_write_at(source@, bg@, *b, glyphs@, q as int, i) is Some
                    && (i / 512 - top) * gs + (i % 512 - cursor) < p {
                    char_write_at(source@, bg@, *b, glyphs@, q as int, i)->0 as u8
                } else {
                    before[i]
                },
        decreases area - p,
    {
        let x = p % gs;
        let y = p / gs;
        proof {
            crate::grid::lemma_split_index(p as int, gs as int, gs as int);
        }
        let role = if heading {
            heading_role_of(scaled.as_slice(), gs, x, y, roles)
        } else if core[y * 16 + x] {
            Some(roles[0])
        } else {
            None
        };
        assert(role == glyph_role(*b, core@, x as int, y as int));
        let offset = (top + y) * EXAM_SURFACE_WIDTH + cursor + x;
        proof {
            crate::grid::lemma_row_col((top + y) as int, (cursor + x) as int, 512);
            crate::grid::lemma_index_bound((top + y) as int, (cursor + x) as int, 512, 512);
        }
        let mut wrote = false;
        if let Some(r) = role {
            let pixel = source[offset] as usize;
            if crate::sets::contains_usize(bg, pixel) || crate::sets::contains_usize(
                b.source_palette_indices.as_slice(),
                pixel,
            ) {
                assert(r < 16);
                target.set(offset, r as u8);
                count = count + 1;
                wrote = true;
            }
        }
        proof {
            assert(wrote == (cell_write(source@, bg@, *b, glyphs@, q as int, x as int, y as int) is Some)) by {
                reveal(cell_write);
            }
            assert(wrote ==> cell_write(source@, bg@, *b, glyphs@, q as int, x as int, y as int) == role) by {
                reveal(cell_write);
            }
            assert(char_write_at(source@, bg@, *b, glyphs@, q as int, offset as int) == cell_write(
                source@,
                bg@,
                *b,
                glyphs@,
                q as int,
                x as int,
                y as int,
            ));
            assert forall|i: int|
                0 <= i < 512 * 512 implies #[trigger] target@[i] == if char_write_at(source@, bg@, *b, glyphs@, q as int, i) is Some
                    && (i / 512 - top) * gs + (i % 512 - cursor) < p + 1 {
                    char_write_at(source@, bg@, *b, glyphs@, q as int, i)->0 as u8
                } else {
                    before[i]
                } by {
                if i != offset && (i / 512 - top) * gs + (i % 512 - cursor) == p && char_write_at(
                    source@,
                    bg@,
                    *b,
                    glyphs@,
                    q as int,
                    i,
                ) is Some {
                    crate::grid::lemma_split_index(i, 512, 512);
                    let iy = i / 512 - top;
                    let ix = i % 512 - cursor;
                    crate::grid::lemma_row_col(iy, ix, gs as int);
                    assert(iy == y && ix == x);
                }
            }
        }
        p = p + 1;
    }
    proof {
        assert forall|i: int|
            0 <= i < 512 * 512 implies #[trigger] target@[i] == if char_write_at(source@, bg@, *b, glyphs@, q as int, i) is Some {
                char_write_at(source@, bg@, *b, glyphs@, q as int, i)->0 as u8
            } else {
                before[i]
            } by {
            if char_write_at(source@, bg@, *b, glyphs@, q as int, i) is Some {
                crate::grid::lemma_split_index(i, 512, 512);
                let iy = i / 512 - top;
                let ix = i % 512 - cursor;
                crate::grid::lemma_index_bound(iy, ix, gs as int, gs as int);
            }
        }
    }
    count
}

/// Draw the Korean line of one phrase over `target`: each visible character's
/// glyph, scaled with graded outline rings for a heading or crisp at 16x16
/// for body text, centred in the content box; a glyph pixel lands only where
/// the source plane holds parchment or one of the phrase's JP letter roles.
/// Returns the number of pixels written.
pub fn render_block(
    glyphs: &[NativeGlyph],
    b: &TextBlock,
    bg: &[usize],
    source: &[u8],
    target: &mut Vec<u8>,
) -> (visible: Result<usize, Error>)
    requires
        block_geometry_ok(*b),
        source@.len() == 512 * 512,
        old(target)@.len() == 512 * 512,
    ensures
        visible is Ok <==> block_renders(source@, bg@, *b, glyphs@),
        final(target)@.len() == 512 * 512,
        visible matches Ok(v) ==> {
            &&& v == visible_upto(source@, bg@, *b, glyphs@, b.ko@.len() as int)
            &&& forall|i: int|
                0 <= i < 512 * 512 ==> #[trigger] final(target)@[i] == drawn_pixel(
                    source@,
                    bg@,
                    *b,
                    glyphs@,
                    b.ko@.len() as int,
                    i,
                    old(target)@[i],
                )
        },
{
    let ghost before = target@;
    let heading = match b.style {
        RenderStyle::HeadingGraded => true,
        RenderStyle::BodyCrisp => false,
    };
    if heading && b.target_palette_indices.len() != 4 {
        return Err("exam card heading needs four graded colors");
    }
    if !heading && (b.glyph_size != 16 || b.target_palette_indices.len() != 1) {
        return Err("exam card body text contract is invalid");
    }
    let gs = b.glyph_size;
    let cb = &b.content_box;
    let width = text_width(b);
    proof {
        lemma_block_width_bound(b.ko@, 8, gs as int);
    }
    if width > cb.width || gs > cb.height {
        return Err("exam card Korean line does not fit its content box");
    }
    let start = cb.x + (cb.width - width) / 2;
    let top = cb.y + (cb.height - gs) / 2;
    assert(start == line_start(*b) && top == line_top(*b));
    let n = b.ko.unicode_len();
    let mut cursor = start;
    let mut visible: usize = 0;
    let mut letters: usize = 0;
    let mut q: usize = 0;
    while q < n
        invariant
            block_geometry_ok(*b),
            source@.len() == 512 * 512,
            target@.len() == 512 * 512,
            before.len() == 512 * 512,
            heading == (b.style is HeadingGraded),
            gs == b.glyph_size,
            gs == 16 || gs == 22,
            n == b.ko@.len(),
            cb == &b.content_box,
            width == line_width(*b),
            width <= cb.width,
            gs <= cb.height,
            start == line_start(*b),
            top == line_top(*b),
            q <= n,
            cursor == char_left(*b, q as int),
            visible == visible_upto(source@, bg@, *b, glyphs@, q as int),
            visible <= q * 484,
            letters == visible_chars(b.ko@.take(q as int)),
            letters <= q,
            forall|j: int|
                0 <= j < q && !spec_is_whitespace(#[trigger] b.ko@[j]) ==> glyph_position(glyphs@, b.ko@[j], 0)
                    < glyphs@.len() && glyph_core(glyphs@, b.ko@[j]).len() == 256,
            forall|i: int|
                0 <= i < 512 * 512 ==> #[trigger] target@[i] == drawn_pixel(source@, bg@, *b, glyphs@, q as int, i, before[i]),
        decreases n - q,
    {
        proof {
            lemma_block_width_prefix(b.ko@, 8, gs as int, q as int);
            lemma_block_width_prefix(b.ko@, 8, gs as int, q + 1);
            lemma_visible_chars_step(b.ko@, q as int);
        }
        let c = b.ko.get_char(q);
        if is_whitespace(c) {
            proof {
                lemma_whitespace_invisible(source@, bg@, *b, glyphs@, q as int, gs * gs);
                reveal(cell_write);
                assert forall|i: int| 0 <= i < 512 * 512 implies #[trigger] target@[i] == drawn_pixel(
                    source@,
                    bg@,
                    *b,
                    glyphs@,
                    q + 1,
                    i,
                    before[i],
                ) by {}
            }
            cursor = cursor + b.space_width;
        } else {
            let position = match find_glyph(glyphs, c) {
                Some(p) => p,
                None => {
                    proof {
                        assert(!glyphs_cover(glyphs@, b.ko@)) by {
                            assert(!spec_is_whitespace(b.ko@[q as int]));
                        }
                    }
                    return Err("exam card has no glyph for a Korean character");
                },
            };
            let core = &glyphs[position].core;
            if core.len() != 256 {
                proof {
                    assert(!glyphs_cover(glyphs@, b.ko@)) by {
                        assert(!spec_is_whitespace(b.ko@[q as int]));
                    }
                }
                return Err("exam card glyph core is not 16x16");
            }
            assert(core@ == glyph_core(glyphs@, c));
            let ghost t_before = target@;
            let count = draw_glyph(glyphs, b, bg, source, target, q, core.as_slice(), cursor, top);
            proof {
                assert forall|i: int| 0 <= i < 512 * 512 implies #[trigger] target@[i] == drawn_pixel(
                    source@,
                    bg@,
                    *b,
                    glyphs@,
                    q + 1,
                    i,
                    before[i],
                ) by {
                    assert(t_before[i] == drawn_pixel(source@, bg@, *b, glyphs@, q as int, i, before[i]));
                }
                assert(visible + count <= (q + 1) * 484) by (nonlinear_arith)
                    requires
                        visible <= q * 484,
                        count <= 484,
                ;
            }
            visible = visible + count;
            cursor = cursor + gs;
            letters = letters + 1;
        }
        q = q + 1;
    }
    proof {
        assert(b.ko@.take(n as int) =~= b.ko@);
    }
    if visible < 12 * letters {
        return Err("exam card Korean rendering has too few visible pixels");
    }
    Ok(visible)
}

/// Plane pixel `i` once the letters are erased and the Korean lines of the
/// first `k` phrases are drawn.
pub open spec fn card_pixel(source: Seq<u8>, m: ExamCardManifest, glyphs: Seq<NativeGlyph>, k: int, i: int) -> u8
    decreases k,
{
    if k <= 0 {
        erased_pixel(source, m, 4, i)
    } else {
        drawn_pixel(
            source,
            m.background_palette_indices@,
            m.blocks@[k - 1],
            glyphs,
            m.blocks@[k - 1].ko@.len() as int,
            i,
            card_pixel(source, m, glyphs, k - 1, i),
        )
    }
}

/// Every Korean line of the card can be drawn.
pub open spec fn text_ok(source: Seq<u8>, m: ExamCardManifest, glyphs: Seq<NativeGlyph>) -> bool {
    forall|k: int| 0 <= k < 4 ==> block_renders(source, m.background_palette_indices@, #[trigger] m.blocks@[k], glyphs)
}

/// Draw the four Korean lines over the erased plane.
pub fn render_text(glyphs: &[NativeGlyph], manifest: &ExamCardManifest, source: &[u8], erased: Vec<u8>) -> (target:
    Result<Vec<u8>, Error>)
    requires
        manifest_shape_ok(*manifest),
        source@.len() == 512 * 512,
        erased@.len() == 512 * 512,
        forall|i: int| 0 <= i < 512 * 512 ==> #[trigger] erased@[i] == erased_pixel(source@, *manifest, 4, i),
    ensures
        target is Ok <==> text_ok(source@, *manifest, glyphs@),
        target matches Ok(t) ==> t@.len() == 512 * 512 && forall|i: int|
            0 <= i < 512 * 512 ==> #[trigger] t@[i] == card_pixel(source@, *manifest, glyphs@, 4, i),
{
    let ghost m = *manifest;
    let bg = manifest.background_palette_indices.as_slice();
    let mut target = erased;
    let mut k: usize = 0;
    while k < 4
        invariant
            m == *manifest,
            manifest_shape_ok(m),
            bg@ == m.background_palette_indices@,
            source@.len() == 512 * 512,
            target@.len() == 512 * 512,
            k <= 4,
            forall|i: int| 0 <= i < 512 * 512 ==> #[trigger] target@[i] == card_pixel(source@, m, glyphs@, k as int, i),
            forall|q: int| 0 <= q < k ==> block_renders(source@, bg@, #[trigger] m.blocks@[q], glyphs@),
        decreases 4 - k,
    {
        proof {
            lemma_block_facts(m, k as int);
        }
        let ghost t_before = target@;
        match render_block(glyphs, &manifest.blocks[k], bg, source, &mut target) {
            Ok(_) => {},
            Err(e) => {
                return Err(e);
            },
        }
        proof {
            assert forall|i: int| 0 <= i < 512 * 512 implies #[trigger] target@[i] == card_pixel(source@, m, glyphs@, k + 1, i) by {
                assert(t_before[i] == card_pixel(source@, m, glyphs@, k as int, i));
            }
        }
        k = k + 1;
    }
    Ok(target)
}

/// Some phrase may write plane pixel `i`: it lies in that phrase's content
/// box on parchment or on one of its JP letter roles.
pub open spec fn writable_in(source: Seq<u8>, m: ExamCardManifest, k: int, i: int) -> bool
    decreases k,
{
    if k <= 0 {
        false
    } else {
        writable_in(source, m, k - 1, i) || (in_box(m.blocks@[k - 1].content_box, i % 512, i / 512) && writable(
            source,
            m.background_palette_indices@,
            m.blocks@[k - 1],
            i,
        ))
    }
}

/// Protected pixels among the first `n` of the plane.
pub open spec fn protected_upto(source: Seq<u8>, m: ExamCardManifest, n: int) -> nat
    decreases n,
{
    if n <= 0 {
        0
    } else {
        protected_upto(source, m, n - 1) + if writable_in(source, m, 4, n - 1) {
            0nat
        } else {
            1nat
        }
    }
}

/// No protected pixel of the card changed.
pub open spec fn protected_ok(source: Seq<u8>, target: Seq<u8>, m: ExamCardManifest) -> bool {
    forall|i: int| 0 <= i < 512 * 512 && !writable_in(source, m, 4, i) ==> #[trigger] target[i] == source[i]
}

fn pixel_writable(source: &[u8], manifest: &ExamCardManifest, i: usize) -> (w: bool)
    requires
        manifest_shape_ok(*manifest),
        source@.len() == 512 * 512,
        i < 512 * 512,
    ensures
        w == writable_in(source@, *manifest, 4, i as int),
{
    let x = i % EXAM_SURFACE_WIDTH;
    let y = i / EXAM_SURFACE_WIDTH;
    let pixel = source[i] as usize;
    let on_parchment = crate::sets::contains_usize(manifest.background_palette_indices.as_slice(), pixel);
    let mut found = false;
    let mut k: usize = 0;
    while k < 4
        invariant
            manifest_shape_ok(*manifest),
            source@.len() == 512 * 512,
            i < 512 * 512,
            x == i % 512,
            y == i / 512,
            pixel == source@[i as int] as usize,
            on_parchment == manifest.background_palette_indices@.contains(pixel),
            k <= 4,
            found == writable_in(source@, *manifest, k as int, i as int),
        decreases 4 - k,
    {
        let b = &manifest.blocks[k];
        let inside = b.content_box.x <= x && x < b.content_box.x + b.content_box.width && b.content_box.y <= y && y
            < b.content_box.y + b.content_box.height;
        let letter = crate::sets::contains_usize(b.source_palette_indices.as_slice(), pixel);
        found = found || (inside && (on_parchment || letter));
        k = k + 1;
    }
    found
}

/// Check that only writable pixels of the content boxes changed; returns
/// the number of protected pixels.
pub fn validate_protected_surface(source: &[u8], target: &[u8], manifest: &ExamCardManifest) -> (protected: Result<
    usize,
    Error,
>)
    requires
        manifest_shape_ok(*manifest),
    ensures
        protected is Ok <==> (source@.len() == 512 * 512 && target@.len() == 512 * 512 && protected_ok(
            source@,
            target@,
            *manifest,
        )),
        protected matches Ok(n) ==> n == protected_upto(source@, *manifest, 512 * 512 as int),
{
    if source.len() != target.len() || source.len() != EXAM_SURFACE_WIDTH * EXAM_SURFACE_HEIGHT {
        return Err("exam card protected-surface length is invalid");
    }
    let total = EXAM_SURFACE_WIDTH * EXAM_SURFACE_HEIGHT;
    let mut count: usize = 0;
    let mut i: usize = 0;
    while i < total
        invariant
            manifest_shape_ok(*manifest),
            source@.len() == 512 * 512,
            target@.len() == 512 * 512,
            total == 512 * 512,
            i <= total,
            count == protected_upto(source@, *manifest, i as int),
            count <= i,
            forall|j: int| 0 <= j < i && !writable_in(source@, *manifest, 4, j) ==> #[trigger] target@[j] == source@[j],
        decreases total - i,
    {
        if !pixel_writable(source, manifest, i) {
            if source[i] != target[i] {
                return Err("exam card changed a protected source pixel");
            }
            count = count + 1;
        }
        i = i + 1;
    }
    Ok(count)
}

/// Score digit `d`'s JP sprite definition: one sprite at (0x80, 0x80) of size
/// 0x0500 whose tiles start four per digit from 0xA24A.
pub open spec fn digit_record_ok(source: Seq<u8>, d: int) -> bool {
    let at = 0x09_76A8 + d * 10;
    &&& be16(source, at) == 1
    &&& be16(source, at + 2) == 0x0080
    &&& be16(source, at + 4) == 0x0500
    &&& be16(source, at + 6) == 0xA24A + d * 4
    &&& be16(source, at + 8) == 0x0080
}

/// The ten protected score digits are the JP ones and their 40 tiles lie
/// inside the high-pattern transfer.
pub open spec fn score_digits_ok(source: Seq<u8>, high_patterns: Seq<u8>) -> bool {
    &&& source.len() >= 0x09_76A8 + 100
    &&& forall|d: int| 0 <= d < 10 ==> #[trigger] digit_record_ok(source, d)
    &&& 114 <= high_patterns.len() / 32
}

/// Check the JP score-digit definitions the card keeps.
pub fn validate_score_digits(source: &[u8], high_patterns: &[u8], manifest: &ExamCardManifest) -> (result: Result<
    (),
    Error,
>)
    requires
        manifest_shape_ok(*manifest),
    ensures
        result is Ok <==> score_digits_ok(source@, high_patterns@),
{
    let mut d: usize = 0;
    while d < 10
        invariant
            d <= 10,
            d > 0 ==> source@.len() >= 0x09_76A8 + d * 10,
            forall|e: int| 0 <= e < d ==> #[trigger] digit_record_ok(source@, e),
        decreases 10 - d,
    {
        let at = EXAM_DIGIT_TABLE_OFFSET + d * 10;
        match source_range(source, at, 10) {
            Ok(_) => {},
            Err(e) => {
                return Err(e);
            },
        }
        if read_be16(source, at) != 1 || read_be16(source, at + 2) != 0x0080 || read_be16(source, at + 4) != 0x0500
            || read_be16(source, at + 6) as usize != 0xA24A + d * 4 || read_be16(source, at + 8) != 0x0080 {
            assert(!digit_record_ok(source@, d as int));
            return Err("exam score digit definition drifted");
        }
        d = d + 1;
    }
    if high_patterns.len() / MD_TILE_BYTES < 114 {
        return Err("exam score digits escape the protected high-pattern transfer");
    }
    Ok(())
}

/// The JP routine that draws the `てん` suffix: load its sprite definition,
/// clear three registers, call the sprite drawer, return.
pub open spec fn suffix_routine_ok(source: Seq<u8>) -> bool {
    let r: int = 0x09_5D5E;
    &&& source.len() >= r + 20
    &&& be16(source, r) == 0x45F9
    &&& be32(source, r + 2) == 0x09_769E
    &&& be16(source, r + 6) == 0x4241
    &&& be16(source, r + 8) == 0x4242
    &&& be16(source, r + 10) == 0x4243
    &&& be16(source, r + 12) == 0x4EB9
    &&& be32(source, r + 14) == 0x0000_1856
    &&& be16(source, r + 18) == 0x4E75
}

/// The JP `てん` sprite definition: one sprite at (0x130, 0xE0), size 0x0500,
/// tile 0xA272.
pub open spec fn suffix_definition() -> Seq<u8> {
    seq![0x00u8, 0x01, 0x00, 0xE0, 0x05, 0x00, 0xA2, 0x72, 0x01, 0x30]
}

/// The suffix routine, its sprite definition and its four tiles are the JP
/// ones.
pub open spec fn suffix_source_ok(source: Seq<u8>, high_patterns: Seq<u8>) -> bool {
    &&& suffix_routine_ok(source)
    &&& source.len() >= 0x09_769E + 10
    &&& source.subrange(0x09_769E, 0x09_76A8) == suffix_definition()
    &&& 118 <= high_patterns.len() / 32
}

/// The 68000 `RTS` instruction.
pub open spec fn rts() -> Seq<u8> {
    seq![0x4Eu8, 0x75]
}

/// Check the JP suffix routine and build its patch: the routine's first
/// instruction word is replaced by `RTS`, so the `てん` sprite is never drawn.
/// Returns the bytes expected at the routine and their replacement.
pub fn validate_suffix_source_and_build_patch(source: &[u8], high_patterns: &[u8], manifest: &ExamCardManifest) -> (patch:
    Result<(Vec<u8>, Vec<u8>), Error>)
    requires
        manifest_shape_ok(*manifest),
    ensures
        patch is Ok <==> suffix_source_ok(source@, high_patterns@),
        patch matches Ok((expected, replacement)) ==> {
            &&& expected@ == source@.subrange(0x09_5D5E, 0x09_5D60)
            &&& expected@ == seq![0x45u8, 0xF9]
            &&& replacement@ == rts()
        },
{
    let r = EXAM_SUFFIX_ROUTINE_OFFSET;
    match source_range(source, r, 20) {
        Ok(_) => {},
        Err(e) => {
            return Err(e);
        },
    }
    if read_be16(source, r) != 0x45F9 || read_be32(source, r + 2) as usize != EXAM_SUFFIX_DEFINITION_OFFSET
        || read_be16(source, r + 6) != 0x4241 || read_be16(source, r + 8) != 0x4242 || read_be16(source, r + 10)
        != 0x4243 || read_be16(source, r + 12) != 0x4EB9 || read_be32(source, r + 14) as usize != EXAM_DRAW_CALL_TARGET
        || read_be16(source, r + 18) != 0x4E75 {
        return Err("exam dynamic score suffix routine drifted");
    }
    let definition = match source_range(source, EXAM_SUFFIX_DEFINITION_OFFSET, 10) {
        Ok(d) => d,
        Err(e) => {
            return Err(e);
        },
    };
    let expected_definition: [u8; 10] = [0x00, 0x01, 0x00, 0xE0, 0x05, 0x00, 0xA2, 0x72, 0x01, 0x30];
    assert(expected_definition@ == suffix_definition());
    if !crate::sets::bytes_equal(definition, expected_definition.as_slice()) {
        return Err("exam score suffix sprite definition drifted");
    }
    if high_patterns.len() / MD_TILE_BYTES < 118 {
        return Err("exam score suffix escapes the protected high-pattern transfer");
    }
    let expected = vec![source[r], source[r + 1]];
    let replacement = vec![0x4Eu8, 0x75u8];
    proof {
        assert(expected@ =~= source@.subrange(0x09_5D5E, 0x09_5D60));
        assert(source@[0x09_5D5E] == 0x45 && source@[0x09_5D5F] == 0xF9) by {
            let a = source@[0x09_5D5E];
            let b = source@[0x09_5D5F];
            assert(a as int * 256 + b as int == 0x45F9);
        }
        assert(replacement@ =~= rts());
    }
    Ok((expected, replacement))
}

/// Pixel (`sx`, `sy`) of a 16x16 sprite whose four tiles, column by column,
/// start at tile `first` of the high-pattern transfer.
pub open spec fn sprite_value(high: Seq<u8>, first: int, sx: int, sy: int) -> u8 {
    let t = first + (sx / 8) * 2 + sy / 8;
    tile_pixel(high.subrange(t * 32, t * 32 + 32), sx % 8, sy % 8)
}

/// The preview sprites as (first tile, x, y): the score `100` and, on the JP
/// card, the `てん` suffix.
pub open spec fn preview_sprites(include_suffix: bool) -> Seq<(int, int, int)> {
    let digits = seq![(78int, 128int, 96int), (74int, 144int, 96int), (74int, 160int, 96int)];
    if include_suffix {
        digits.push((114int, 176int, 96int))
    } else {
        digits
    }
}

/// Plane pixel `i` with the first `n` sprites drawn over `base`; sprite
/// pixel 0 is transparent.
pub open spec fn overlaid_pixel(base: Seq<u8>, high: Seq<u8>, sprites: Seq<(int, int, int)>, n: int, i: int) -> u8
    decreases n,
{
    if n <= 0 {
        base[i]
    } else {
        let s = sprites[n - 1];
        let sx = i % 512 - s.1;
        let sy = i / 512 - s.2;
        if 0 <= sx < 16 && 0 <= sy < 16 && sprite_value(high, s.0, sx, sy) != 0 {
            sprite_value(high, s.0, sx, sy)
        } else {
            overlaid_pixel(base, high, sprites, n - 1, i)
        }
    }
}

/// Draw one 16x16 sprite of four column-major tiles over the plane.
fn draw_sprite(surface: &mut Vec<u8>, high: &[u8], first: usize, origin_x: usize, origin_y: usize)
    requires
        old(surface)@.len() == 512 * 512,
        (first + 4) * 32 <= high@.len(),
        origin_x + 16 <= 512,
        origin_y + 16 <= 512,
    ensures
        final(surface)@.len() == 512 * 512,
        forall|i: int|
            0 <= i < 512 * 512 ==> #[trigger] final(surface)@[i] == {
                let sx = i % 512 - origin_x;
                let sy = i / 512 - origin_y;
                if 0 <= sx < 16 && 0 <= sy < 16 && sprite_value(high@, first as int, sx, sy) != 0 {
                    sprite_value(high@, first as int, sx, sy)
                } else {
                    old(surface)@[i]
                }
            },
{
    let ghost before = surface@;
    let mut p: usize = 0;
    while p < 256
        invariant
            surface@.len() == 512 * 512,
            before.len() == 512 * 512,
            (first + 4) * 32 <= high@.len(),
            origin_x + 16 <= 512,
            origin_y + 16 <= 512,
            p <= 256,
            forall|i: int|
                0 <= i < 512 * 512 ==> #[trigger] surface@[i] == {
                    let sx = i % 512 - origin_x;
                    let sy = i / 512 - origin_y;
                    if 0 <= sx < 16 && 0 <= sy < 16 && sy * 16 + sx < p && sprite_value(high@, first as int, sx, sy) != 0 {
                        sprite_value(high@, first as int, sx, sy)
                    } else {
                        before[i]
                    }
                },
        decreases 256 - p,
    {
        let sx = p % 16;
        let sy = p / 16;
        let _high_len = high.len();
        assert((sx / 8) * 2 + sy / 8 <= 3);
        assert(first + 4 <= high@.len()) by (nonlinear_arith)
            requires
                (first + 4) * 32 <= high@.len(),
        ;
        assert(((first + (sx / 8) * 2 + sy / 8) * 32 + 32) <= high@.len()) by (nonlinear_arith)
            requires
                (first + 4) * 32 <= high@.len(),
                (sx / 8) * 2 + sy / 8 <= 3,
        ;
        let t = first + (sx / 8) * 2 + sy / 8;
        let offset = t * MD_TILE_BYTES;
        let value = read_tile_pixel(&high[offset..offset + MD_TILE_BYTES], sx % 8, sy % 8);
        assert(value == sprite_value(high@, first as int, sx as int, sy as int));
        let at = (origin_y + sy) * EXAM_SURFACE_WIDTH + origin_x + sx;
        proof {
            crate::grid::lemma_row_col((origin_y + sy) as int, (origin_x + sx) as int, 512);
            crate::grid::lemma_index_bound((origin_y + sy) as int, (origin_x + sx) as int, 512, 512);
        }
        if value != 0 {
            surface.set(at, value);
        }
        proof {
            assert forall|i: int|
                0 <= i < 512 * 512 implies #[trigger] surface@[i] == {
                    let sx = i % 512 - origin_x;
                    let sy = i / 512 - origin_y;
                    if 0 <= sx < 16 && 0 <= sy < 16 && sy * 16 + sx < p + 1 && sprite_value(high@, first as int, sx, sy) != 0 {
                        sprite_value(high@, first as int, sx, sy)
                    } else {
                        before[i]
                    }
                } by {
                let isx = i % 512 - origin_x;
                let isy = i / 512 - origin_y;
                if i != at && 0 <= isx < 16 && 0 <= isy < 16 && isy * 16 + isx == p {
                    crate::grid::lemma_split_index(i, 512, 512);
                    assert(isy == sy && isx == sx);
                }
            }
        }
        p = p + 1;
    }
}

/// Draw the preview score `100`, and on the JP card the `てん` suffix, over a
/// copy of the plane.
fn overlay_score(surface: &Vec<u8>, high: &[u8], include_suffix: bool) -> (overlaid: Vec<u8>)
    requires
        surface@.len() == 512 * 512,
        118 * 32 <= high@.len(),
    ensures
        overlaid@.len() == 512 * 512,
        forall|i: int|
            0 <= i < 512 * 512 ==> #[trigger] overlaid@[i] == overlaid_pixel(
                surface@,
                high@,
                preview_sprites(include_suffix),
                preview_sprites(include_suffix).len() as int,
                i,
            ),
{
    let ghost sprites = preview_sprites(include_suffix);
    let mut out = surface.clone();
    assert(out@ == surface@);
    let firsts: [usize; 4] = [78, 74, 74, 114];
    let xs: [usize; 4] = [128, 144, 160, 176];
    let count: usize = if include_suffix { 4 } else { 3 };
    let mut n: usize = 0;
    while n < count
        invariant
            surface@.len() == 512 * 512,
            118 * 32 <= high@.len(),
            sprites == preview_sprites(include_suffix),
            count == sprites.len(),
            firsts@ == seq![78usize, 74, 74, 114],
            xs@ == seq![128usize, 144, 160, 176],
            n <= count,
            out@.len() == 512 * 512,
            forall|i: int| 0 <= i < 512 * 512 ==> #[trigger] out@[i] == overlaid_pixel(surface@, high@, sprites, n as int, i),
        decreases count - n,
    {
        let ghost out_before = out@;
        draw_sprite(&mut out, high, firsts[n], xs[n], 96);
        proof {
            assert(sprites[n as int] == (firsts@[n as int] as int, xs@[n as int] as int, 96int));
            assert forall|i: int| 0 <= i < 512 * 512 implies #[trigger] out@[i] == overlaid_pixel(
                surface@,
                high@,
                sprites,
                n + 1,
                i,
            ) by {
                assert(out_before[i] == overlaid_pixel(surface@, high@, sprites, n as int, i));
            }
        }
        n = n + 1;
    }
    out
}

proof fn lemma_drawn_nibble(source: Seq<u8>, bg: Seq<usize>, b: TextBlock, glyphs: Seq<NativeGlyph>, n: int, i: int, below: u8)
    requires
        block_geometry_ok(b),
        below < 16,
    ensures
        drawn_pixel(source, bg, b, glyphs, n, i, below) < 16,
    decreases n,
{
    reveal(cell_write);
    if n > 0 {
        lemma_drawn_nibble(source, bg, b, glyphs, n - 1, i, below);
    }
}

proof fn lemma_card_nibble(source: Seq<u8>, m: ExamCardManifest, glyphs: Seq<NativeGlyph>, k: int, i: int)
    requires
        manifest_shape_ok(m),
        0 <= k <= 4,
        erased_pixel(source, m, 4, i) < 16,
    ensures
        card_pixel(source, m, glyphs, k, i) < 16,
    decreases k,
{
    if k > 0 {
        lemma_card_nibble(source, m, glyphs, k - 1, i);
        lemma_block_facts(m, k - 1);
        lemma_drawn_nibble(
            source,
            m.background_palette_indices@,
            m.blocks@[k - 1],
            glyphs,
            m.blocks@[k - 1].ko@.len() as int,
            i,
            card_pixel(source, m, glyphs, k - 1, i),
        );
    }
}

proof fn lemma_overlay_nibble(base: Seq<u8>, high: Seq<u8>, sprites: Seq<(int, int, int)>, n: int, i: int)
    requires
        base[i] < 16,
    ensures
        overlaid_pixel(base, high, sprites, n, i) < 16,
    decreases n,
{
    if n > 0 {
        lemma_overlay_nibble(base, high, sprites, n - 1, i);
    }
}

/// The JP plane the decoded map and low patterns draw.
pub open spec fn source_plane(map: Seq<u8>, low: Seq<u8>) -> Seq<u8> {
    Seq::new(512 * 512, |i: int| exam_pixel(map, low, i))
}

/// The Korean card: the JP plane with its letters erased and the four
/// Korean lines drawn.
pub open spec fn card_plane(plane: Seq<u8>, m: ExamCardManifest, glyphs: Seq<NativeGlyph>) -> Seq<u8> {
    Seq::new(512 * 512, |i: int| card_pixel(plane, m, glyphs, 4, i))
}

/// Everything the card compiler requires of the ROM `source`, the manifest,
/// the shared exam transfer declarations, the decoded transfers in their
/// declared order, and the glyphs of the Korean lines.
pub open spec fn build_inputs_ok(
    source: Seq<u8>,
    m: ExamCardManifest,
    shared: Seq<SourcePack>,
    decoded: Seq<DecodedPack>,
    glyphs: Seq<NativeGlyph>,
) -> bool {
    let low = decoded[0].data@;
    let high = decoded[1].data@;
    let map = decoded[2].data@;
    let plane = source_plane(map, low);
    &&& manifest_shape_ok(m)
    &&& shared_sources_ok(shared)
    &&& palette_declared(m.palette_line_words@.map_values(|w: String| w@))
    &&& decoded.len() == 4
    &&& forall|i: int| 0 <= i < 4 ==> pack_matches(#[trigger] decoded[i], shared[i])
    &&& exam_render_ok(map, low)
    &&& erase_ok(plane, m)
    &&& text_ok(plane, m, glyphs)
    &&& protected_ok(plane, card_plane(plane, m, glyphs), m)
    &&& exam_compile_ok(plane, card_plane(plane, m, glyphs))
    &&& score_digits_ok(source, high)
    &&& suffix_source_ok(source, high)
}

/// A compiled result card before its transfers are encoded.
pub struct ExamCardBuild {
    pub manifest: ExamCardManifest,
    pub palette: [u16; 16],
    pub source_surface: Vec<u8>,
    pub target_surface: Vec<u8>,
    pub source_high_patterns: Vec<u8>,
    pub source_text_pixels: usize,
    pub protected_pixels: usize,
    pub map: Vec<u8>,
    pub patterns: Vec<u8>,
    pub appended_tiles: usize,
    pub changed_cells: usize,
    pub suffix_expected: Vec<u8>,
    pub suffix_replacement: Vec<u8>,
}

/// A build the preview can draw.
pub open spec fn build_wf(b: ExamCardBuild) -> bool {
    &&& b.source_surface@.len() == 512 * 512
    &&& b.target_surface@.len() == 512 * 512
    &&& all_nibbles(b.source_surface@)
    &&& all_nibbles(b.target_surface@)
    &&& b.source_high_patterns@.len() >= 118 * 32
}

/// Compile the result card: check the manifest, the shared exam transfer
/// declarations and the decoded transfers, draw the JP plane, erase its
/// four phrases, draw the Korean lines, check that no protected pixel
/// moved, rebuild the low-pattern and map transfers with the JP tiles as a
/// prefix, and check the kept score digits and the suffix routine that is
/// patched to `RTS`.
pub fn build_exam_card(
    source: &[u8],
    manifest: ExamCardManifest,
    shared: &SharedExamSourceManifest,
    decoded: &Vec<DecodedPack>,
    glyphs: &[NativeGlyph],
) -> (build: Result<ExamCardBuild, Error>)
    ensures
        build is Ok <==> build_inputs_ok(source@, manifest, shared.source_packs@, decoded@, glyphs@),
        build matches Ok(b) ==> {
            let low = decoded@[0].data@;
            let high = decoded@[1].data@;
            let map = decoded@[2].data@;
            let plane = source_plane(map, low);
            let card = card_plane(plane, manifest, glyphs@);
            &&& build_wf(b)
            &&& b.manifest == manifest
            &&& b.palette@ == declared_palette(manifest.palette_line_words@)
            &&& b.source_surface@ == plane
            &&& b.target_surface@ == card
            &&& b.source_high_patterns@ == high
            &&& b.source_text_pixels == text_total(plane, manifest.blocks@, 4)
            &&& b.protected_pixels == protected_upto(plane, manifest, 512 * 512 as int)
            &&& compiled_from(map, low, plane, card, b.map@, b.patterns@)
            &&& b.appended_tiles == appended_tiles(plane, card).len()
            &&& b.changed_cells == changed_tiles(plane, card, 4096).len()
            &&& exam_render_ok(b.map@, b.patterns@)
            &&& forall|i: int| 0 <= i < 512 * 512 ==> #[trigger] exam_pixel(b.map@, b.patterns@, i) == card[i]
            &&& b.suffix_expected@ == source@.subrange(0x09_5D5E, 0x09_5D60)
            &&& b.suffix_replacement@ == rts()
        },
{
    validate_manifest_shape(&manifest)?;
    validate_shared_sources(shared)?;
    let palette = parse_md_palette(&manifest.palette_line_words)?;
    let payloads = checked_source_packs(decoded, &shared.source_packs)?;
    let low = &payloads[0];
    let high = &payloads[1];
    let map = &payloads[2];
    let ghost plane = source_plane(map@, low@);
    let source_surface = render_indexed_surface(map.as_slice(), low.as_slice())?;
    assert(source_surface@ =~= plane);
    proof {
        assert forall|i: int| 0 <= i < source_surface@.len() implies #[trigger] source_surface@[i] < 16 by {
            let x = i % 512;
            let y = i / 512;
            let w = exam_word(map@, plane_cell(i));
            let t = word_tile_number(w) - 0x0100;
            let tile = low@.subrange(t * 32, t * 32 + 32);
            let fx = flip_coord(x % 8, w & 0x0800 != 0);
            let fy = flip_coord(y % 8, w & 0x1000 != 0);
            assert(nibble(tile[fy * 4 + fx / 2], fx % 2 == 0) < 16);
        }
    }
    let (erased, text_pixels) = erase_source_text(source_surface.as_slice(), &manifest)?;
    let ghost erased_view = erased@;
    assert(all_nibbles(erased_view));
    let target_surface = render_text(glyphs, &manifest, source_surface.as_slice(), erased)?;
    let ghost card = card_plane(plane, manifest, glyphs@);
    assert(target_surface@ =~= card);
    proof {
        assert forall|i: int| 0 <= i < target_surface@.len() implies #[trigger] target_surface@[i] < 16 by {
            assert(erased_view[i] == erased_pixel(plane, manifest, 4, i));
            assert(erased_view[i] < 16);
            lemma_card_nibble(plane, manifest, glyphs@, 4, i);
        }
    }
    let protected = validate_protected_surface(source_surface.as_slice(), target_surface.as_slice(), &manifest)?;
    let (compiled_map, compiled_patterns, appended, changed) = compile_preserving_source_prefix(
        map.as_slice(),
        low.as_slice(),
        source_surface.as_slice(),
        target_surface.as_slice(),
    )?;
    proof {
        lemma_render_compiled(map@, low@, plane, card, compiled_map@, compiled_patterns@);
    }
    validate_score_digits(source, high.as_slice(), &manifest)?;
    let (suffix_expected, suffix_replacement) = validate_suffix_source_and_build_patch(source, high.as_slice(), &manifest)?;
    let high_copy = copy_bytes(high.as_slice());
    proof {
        assert forall|i: int| 0 <= i < 16 implies #[trigger] palette@[i] == declared_palette(manifest.palette_line_words@)[i] by {}
        assert(palette@ =~= declared_palette(manifest.palette_line_words@));
    }
    Ok(ExamCardBuild {
        manifest,
        palette,
        source_surface,
        target_surface,
        source_high_patterns: high_copy,
        source_text_pixels: text_pixels,
        protected_pixels: protected,
        map: compiled_map,
        patterns: compiled_patterns,
        appended_tiles: appended,
        changed_cells: changed,
        suffix_expected,
        suffix_replacement,
    })
}

/// The counts a build reports.
pub open spec fn spec_summary(b: ExamCardBuild, pattern_pack_bytes: usize, map_pack_bytes: usize, checksum: u16) -> ExamCardSummary {
    ExamCardSummary {
        blocks: b.manifest.blocks@.len() as usize,
        source_text_pixels: b.source_text_pixels,
        protected_pixels: b.protected_pixels,
        source_pattern_tiles: 110,
        appended_pattern_tiles: b.appended_tiles,
        changed_map_cells: b.changed_cells,
        pattern_pack_bytes,
        map_pack_bytes,
        typed_code_bytes: b.suffix_replacement@.len() as usize,
        checksum,
    }
}

/// Report the counts of a build with the sizes of its encoded transfers.
pub fn summary(b: &ExamCardBuild, pattern_pack_bytes: usize, map_pack_bytes: usize, checksum: u16) -> (s: ExamCardSummary)
    ensures
        s == spec_summary(*b, pattern_pack_bytes, map_pack_bytes, checksum),
{
    ExamCardSummary {
        blocks: b.manifest.blocks.len(),
        source_text_pixels: b.source_text_pixels,
        protected_pixels: b.protected_pixels,
        source_pattern_tiles: EXAM_LOW_SOURCE_TILES,
        appended_pattern_tiles: b.appended_tiles,
        changed_map_cells: b.changed_cells,
        pattern_pack_bytes,
        map_pack_bytes,
        typed_code_bytes: b.suffix_replacement.len(),
        checksum,
    }
}

/// Plane pixel `i` of panel `panel` of the preview: the JP card with the
/// score and the JP suffix (0), or the Korean card with the score (1).
pub open spec fn panel_pixel(b: ExamCardBuild, panel: int, i: int) -> u8 {
    let base = if panel == 0 { b.source_surface@ } else { b.target_surface@ };
    let sprites = preview_sprites(panel == 0);
    overlaid_pixel(base, b.source_high_patterns@, sprites, sprites.len() as int, i)
}

/// Colour of pixel (`x`, `y`) of the unscaled 392x224 contact sheet: the
/// paper crops of both panels with an 8-pixel dark gap between them.
pub open spec fn preview_color(b: ExamCardBuild, x: int, y: int) -> Seq<u8> {
    if x < 192 {
        spec_md_color(b.palette@[panel_pixel(b, 0, y * 512 + 64 + x) as int])
    } else if x >= 200 {
        spec_md_color(b.palette@[panel_pixel(b, 1, y * 512 + 64 + x - 200) as int])
    } else {
        seq![28u8, 28u8, 28u8]
    }
}

/// Byte `k` of the 1176x672 preview: the contact sheet scaled three times.
pub open spec fn preview_byte(b: ExamCardBuild, k: int) -> u8 {
    let q = k / 4;
    let x = (q % 1176) / 3;
    let y = (q / 1176) / 3;
    opaque_channel(preview_color(b, x, y), k % 4)
}

/// Render the JP (left) and Korean (right) result cards, each with the score
/// `100`, as a 3x contact sheet; the report carries no checksum.
pub fn write_exam_card_preview(b: &ExamCardBuild, pattern_pack_bytes: usize, map_pack_bytes: usize) -> (result: (
    RgbaImage,
    ExamCardSummary,
))
    requires
        build_wf(*b),
    ensures
        result.0.width == 1176,
        result.0.height == 672,
        result.0.rgba@.len() == 1176 * 672 * 4,
        forall|k: int| 0 <= k < 1176 * 672 * 4 ==> #[trigger] result.0.rgba@[k] == preview_byte(*b, k),
        result.1 == spec_summary(*b, pattern_pack_bytes, map_pack_bytes, 0),
{
    let jp = overlay_score(&b.source_surface, b.source_high_patterns.as_slice(), true);
    let kr = overlay_score(&b.target_surface, b.source_high_patterns.as_slice(), false);
    let preview_width: usize = 1176;
    let total: usize = 1176 * 672;
    let mut rgba: Vec<u8> = Vec::with_capacity(total * 4);
    let mut q: usize = 0;
    while q < total
        invariant
            build_wf(*b),
            jp@.len() == 512 * 512,
            kr@.len() == 512 * 512,
            forall|i: int| 0 <= i < 512 * 512 ==> #[trigger] jp@[i] == panel_pixel(*b, 0, i),
            forall|i: int| 0 <= i < 512 * 512 ==> #[trigger] kr@[i] == panel_pixel(*b, 1, i),
            preview_width == 1176,
            total == 1176 * 672,
            q <= total,
            rgba@.len() == q * 4,
            forall|k: int| 0 <= k < q * 4 ==> #[trigger] rgba@[k] == preview_byte(*b, k),
        decreases total - q,
    {
        let x = (q % preview_width) / 3;
        let y = (q / preview_width) / 3;
        let color = if x < 192 {
            proof {
                crate::grid::lemma_index_bound(y as int, (64 + x) as int, 512, 512);
                lemma_overlay_nibble(
                    b.source_surface@,
                    b.source_high_patterns@,
                    preview_sprites(true),
                    preview_sprites(true).len() as int,
                    y * 512 + 64 + x,
                );
            }
            md_color(b.palette[jp[y * EXAM_SURFACE_WIDTH + 64 + x] as usize])
        } else if x >= 200 {
            proof {
                crate::grid::lemma_index_bound(y as int, (64 + x - 200) as int, 512, 512);
                lemma_overlay_nibble(
                    b.target_surface@,
                    b.source_high_patterns@,
                    preview_sprites(false),
                    preview_sprites(false).len() as int,
                    y * 512 + 64 + x - 200,
                );
            }
            md_color(b.palette[kr[y * EXAM_SURFACE_WIDTH + 64 + x - 200] as usize])
        } else {
            [28u8, 28u8, 28u8]
        };
        assert(color@ =~= preview_color(*b, x as int, y as int));
        let ghost before = rgba@;
        push_opaque(&mut rgba, color);
        assert forall|k: int| 0 <= k < (q + 1) * 4 implies #[trigger] rgba@[k] == preview_byte(*b, k) by {
            if k >= q * 4 {
                assert(k / 4 == q);
                let c = k - q * 4;
                assert(rgba@[before.len() + c] == opaque_channel(color@, c));
            } else {
                assert(rgba@[k] == before[k]);
            }
        }
        q = q + 1;
    }
    let image = RgbaImage { width: preview_width, height: 672, rgba };
    (image, summary(b, pattern_pack_bytes, map_pack_bytes, 0))
}

/// The writes of the exam-card insertion: the pattern and map headers over
/// the JP headers, the typed suffix routine over its JP bytes, then both
/// banks over erased expanded banks.
pub open spec fn exam_writes(
    source: Seq<u8>,
    pattern_header: Seq<u8>,
    map_header: Seq<u8>,
    suffix_expected: Seq<u8>,
    suffix: Seq<u8>,
    pattern_bank: Seq<u8>,
    map_bank: Seq<u8>,
) -> Seq<WriteView> {
    seq![
        header_write(source, 0x09_61A6, pattern_header),
        header_write(source, 0x09_61B2, map_header),
        (0x09_5D5Eusize, suffix_expected, suffix),
        bank_write(0x2A_8000, pattern_bank),
        bank_write(0x2B_0000, map_bank),
    ]
}

/// Everything the exam-card insertion checks: two six-byte headers, the
/// pattern bank ending before the map bank and the map bank within
/// 0x2B8000, the JP headers in `source`, and every write finding its
/// expected bytes.
pub open spec fn exam_insert_ok(
    source: Seq<u8>,
    image: Seq<u8>,
    pattern_header: Seq<u8>,
    map_header: Seq<u8>,
    suffix_expected: Seq<u8>,
    suffix: Seq<u8>,
    pattern_bank: Seq<u8>,
    map_bank: Seq<u8>,
) -> bool {
    &&& pattern_header.len() == 6
    &&& map_header.len() == 6
    &&& 0x2A_8000 + pattern_bank.len() <= 0x2B_0000
    &&& 0x2B_0000 + map_bank.len() <= 0x2B_8000
    &&& 0x09_61B2 + 6 <= source.len()
    &&& writes_ok(image, exam_writes(source, pattern_header, map_header, suffix_expected, suffix, pattern_bank, map_bank))
}

/// Insert the exam card: both six-byte headers over the JP headers, the
/// typed suffix routine over its JP bytes, both banks over erased expanded
/// banks, then the header checksum. On any refusal the output is left as
/// it was.
pub fn apply_exam_card(
    source: &[u8],
    output: &mut Vec<u8>,
    build: &ExamCardBuild,
    pattern_header: &[u8],
    map_header: &[u8],
    pattern_bank: &[u8],
    map_bank: &[u8],
) -> (result: Result<ExamCardSummary, Error>)
    ensures
        result is Ok <==> exam_insert_ok(
            source@,
            old(output)@,
            pattern_header@,
            map_header@,
            build.suffix_expected@,
            build.suffix_replacement@,
            pattern_bank@,
            map_bank@,
        ),
        result is Err ==> final(output)@ == old(output)@,
        result matches Ok(s) ==> {
            let ws = exam_writes(
                source@,
                pattern_header@,
                map_header@,
                build.suffix_expected@,
                build.suffix_replacement@,
                pattern_bank@,
                map_bank@,
            );
            let applied = writes_applied(old(output)@, ws, 5);
            &&& final(output)@ == checksummed(applied)
            &&& s.checksum as int == crate::rom::spec_checksum(applied)
            &&& s == spec_summary(*build, pattern_bank@.len() as usize, map_bank@.len() as usize, s.checksum)
            &&& only_ranges_changed(old(output)@, final(output)@, write_ranges(ws))
        },
{
    if pattern_header.len() != 6 || map_header.len() != 6 || pattern_bank.len() > EXAM_MAP_BANK_OFFSET
        - EXAM_PATTERN_BANK_OFFSET || map_bank.len() > EXAM_MAP_BANK_LIMIT - EXAM_MAP_BANK_OFFSET {
        return Err("exam card packs exceed their expanded banks or headers");
    }
    let w0 = header_write_of(source, EXAM_LOW_HEADER_OFFSET, pattern_header)?;
    let w1 = header_write_of(source, EXAM_MAP_HEADER_OFFSET, map_header)?;
    let writes = vec![
        w0,
        w1,
        fixed_write_of(EXAM_SUFFIX_ROUTINE_OFFSET, build.suffix_expected.as_slice(), build.suffix_replacement.as_slice()),
        bank_write_of(EXAM_PATTERN_BANK_OFFSET, pattern_bank),
        bank_write_of(EXAM_MAP_BANK_OFFSET, map_bank),
    ];
    assert(write_views(writes@) =~= exam_writes(
        source@,
        pattern_header@,
        map_header@,
        build.suffix_expected@,
        build.suffix_replacement@,
        pattern_bank@,
        map_bank@,
    ));
    let checksum = insert_writes(output, &writes)?;
    Ok(summary(build, pattern_bank.len(), map_bank.len(), checksum))
}

} // verus!

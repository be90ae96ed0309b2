//! Exam result seals `합격` and `불합격`.
//!
//! The JP exam group loads four transfers; the high-pattern one holds the
//! pass seal in tiles 0..74, the protected score and suffix tiles 74..118
//! and the fail seal in tiles 118..192. Each seal is a sparse 9x9-tile
//! surface drawn by an eight-sprite definition. The Korean seals replace
//! only the two seal ranges; the score dispatch, the loader, the sprite
//! definitions and every other byte stay JP-owned.

use vstd::prelude::*;
use crate::hex::{Error, hex_equals, hex_fits, hex_is, hex_word, parse_hex, parse_u16_hex, spec_parse_hex};
use crate::text::{seq_contains_run, str_contains, str_eq, string_is};
use crate::sets::{bytes_equal, same_members, same_usize_members};
use crate::pack::{DecodedPack, SourcePack, checked_source_packs, first_id_index, pack_matches, position_of_id};
use crate::palette::{md_color, palette_declared, parse_md_palette, spec_md_color};
use crate::preview::{PixelBounds, RgbaImage, checker, checker_color, opaque_channel, push_opaque};
use crate::rom::{append_word, be16, be32, branch_word_target, read_be16, read_be32, relative_target, source_range, word_bytes};
use crate::sprite::{append_record, record_bytes, record_words_fit, size_link_tiles, sprite_tile_count};
use crate::tiles::{MD_TILE_BYTES, all_nibbles, pack_nibbles, pack_pair};
use crate::digest::{sha256_hex, sha256_hex_of};

use crate::insert::{WriteView, bank_write, bank_write_of, checksummed, header_write, header_write_of, insert_writes, write_ranges, write_views, writes_applied, writes_ok};
use crate::rom::only_ranges_changed;

verus! {

pub const EXAM_TARGET_HEADER_OFFSET: usize = 0x09_61AC;
pub const EXAM_TARGET_VRAM: u16 = 0x4000;
pub const EXAM_SOURCE_BYTES: usize = 6_144;
pub const EXAM_SOURCE_TILES: usize = 192;
pub const EXAM_BANK_OFFSET: usize = 0x2A_0000;
pub const EXAM_BANK_LIMIT: usize = 0x2A_8000;
pub const EXAM_SURFACE_WIDTH: usize = 72;
pub const EXAM_SURFACE_HEIGHT: usize = 72;
pub const EXAM_SEAL_TILES: usize = 74;
pub const EXAM_PROTECTED_TILE_START: usize = 74;
pub const EXAM_PROTECTED_TILE_END: usize = 118;
pub const EXAM_SPRITES_PER_SEAL: usize = 8;
pub const EXAM_DRAW_CALL_TARGET: usize = 0x0000_1856;
pub const PREVIEW_SCALE: usize = 6;
pub const PREVIEW_GAP: usize = 4;

/// Counts reported after compiling the exam seals.
pub struct ExamSealsSummary {
    pub source_tiles: usize,
    pub rewritten_tiles: usize,
    pub protected_tiles: usize,
    pub companion_transfers: usize,
    pub source_sprite_records: usize,
    pub pack_bytes: usize,
    pub checksum: u16,
}

pub struct OutputSurface {
    pub width: usize,
    pub height: usize,
    pub content_box: PixelBounds,
    pub alpha_threshold: u8,
}

pub struct ProtectedTileRange {
    pub start: usize,
    pub end_exclusive: usize,
    pub decoded_sha256: String,
}

pub struct ConsumerLoader {
    pub lea_offset: String,
    pub header_group_offset: String,
    pub loader_call_target: String,
}

pub struct ScoreDispatch {
    pub compare_offset: String,
    pub pass_threshold: u16,
    pub perfect_score: u16,
    pub fail_branch_target: String,
    pub regular_pass_branch_target: String,
}

pub struct MutableTileRange {
    pub start: usize,
    pub end_exclusive: usize,
    pub source_sha256: String,
}

pub struct SpriteRecord {
    pub y: String,
    pub size_link: String,
    pub tile: String,
    pub x: String,
}

pub struct SpriteDefinition {
    pub offset: String,
    pub consumers: Vec<String>,
    pub records: Vec<SpriteRecord>,
}

pub struct SealDeclaration {
    pub id: String,
    pub text: String,
    pub master_asset: String,
    pub master_sha256: String,
    pub master_width: usize,
    pub master_height: usize,
    pub master_alpha_bounds: PixelBounds,
    pub mutable_tile_range: MutableTileRange,
    pub sprite_definition: SpriteDefinition,
}

/// The exam-seal asset manifest.
pub struct ExamSealsManifest {
    pub schema_version: u32,
    pub asset_group_id: String,
    pub source_policy: String,
    pub output_surface: OutputSurface,
    pub palette_line_words: Vec<String>,
    pub transparent_palette_index: usize,
    pub source_seal_palette_indices: Vec<usize>,
    pub allowed_opaque_palette_indices: Vec<usize>,
    pub tile_layout: Vec<Vec<Option<usize>>>,
    pub source_packs: Vec<SourcePack>,
    pub target_pack_id: String,
    pub protected_tile_range: ProtectedTileRange,
    pub consumer_loader: ConsumerLoader,
    pub score_dispatch: ScoreDispatch,
    pub draw_call_target: String,
    pub seals: Vec<SealDeclaration>,
}

/// Seal tile in cell (`tx`, `ty`) of the JP 9x9 sparse layout (-1 where the
/// cell is not owned): two 8x4 blocks of column-major tiles, a right column
/// and a bottom row.
pub open spec fn layout_tile(tx: int, ty: int) -> int {
    if ty == 8 {
        if 2 <= tx <= 6 { 67 + tx } else { -1 }
    } else if tx == 8 {
        if 2 <= ty <= 6 { 62 + ty } else { -1 }
    } else if ty < 4 {
        tx * 4 + ty
    } else {
        32 + tx * 4 + ty - 4
    }
}

/// What cell (`tx`, `ty`) of the JP layout holds.
pub open spec fn expected_cell(tx: int, ty: int) -> Option<usize> {
    if layout_tile(tx, ty) >= 0 { Some(layout_tile(tx, ty) as usize) } else { None }
}

/// Row `ty` of a declared layout is the JP one.
pub open spec fn layout_row_ok(row: Seq<Option<usize>>, ty: int) -> bool {
    &&& row.len() == 9
    &&& forall|tx: int| 0 <= tx < 9 ==> #[trigger] row[tx] == expected_cell(tx, ty)
}

/// The four JP transfers of the exam group.
pub open spec fn pack_header(k: int) -> nat {
    (0x09_61A6 + 6 * k) as nat
}

pub open spec fn pack_vram(k: int) -> nat {
    if k == 0 { 0x2000 } else if k == 1 { 0x4000 } else if k == 2 { 0xE000 } else { 0xD000 }
}

pub open spec fn pack_bytes(k: int) -> nat {
    if k == 0 { 3_520 } else if k == 1 { 6_144 } else if k == 2 { 8_192 } else { 4_096 }
}

/// Declared transfer `k` anchors at the JP header, destination and size.
pub open spec fn anchor_ok(pack: SourcePack, k: int) -> bool {
    &&& hex_is(pack.header_offset@, pack_header(k))
    &&& hex_is(pack.vram_destination@, pack_vram(k))
    &&& pack.decoded_bytes == pack_bytes(k)
}

/// Draw consumers of seal `s`.
pub open spec fn consumer_at(s: int, j: int) -> nat {
    if s == 0 {
        if j == 0 { 0x09_3E2E } else if j == 1 { 0x09_3E6C } else if j == 2 { 0x09_4116 } else { 0x09_4154 }
    } else {
        if j == 0 { 0x09_4354 } else { 0x09_4392 }
    }
}

pub open spec fn consumer_count(s: int) -> nat {
    if s == 0 { 4 } else { 2 }
}

/// Seal `s` is declared as the JP structure has it.
pub open spec fn seal_ok(seal: SealDeclaration, s: int) -> bool {
    let d = seal.sprite_definition;
    &&& seal.id@ == (if s == 0 { "GFX-EXAM-SEAL-PASS"@ } else { "GFX-EXAM-SEAL-FAIL"@ })
    &&& seal.text@ == (if s == 0 { "합격"@ } else { "불합격"@ })
    &&& seal.mutable_tile_range.start == (if s == 0 { 0nat } else { 118nat })
    &&& seal.mutable_tile_range.end_exclusive == (if s == 0 { 74nat } else { 192nat })
    &&& hex_is(d.offset@, if s == 0 { 0x09_761A } else { 0x09_765C })
    &&& d.consumers@.len() == consumer_count(s)
    &&& forall|j: int| 0 <= j < d.consumers@.len() ==> #[trigger] hex_fits(d.consumers@[j]@, usize::MAX as nat)
    &&& forall|j: int| 0 <= j < consumer_count(s) ==> #[trigger] hex_is(d.consumers@[j]@, consumer_at(s, j))
    &&& d.records@.len() == 8
}

/// The declared header offset and destination are machine numbers.
pub open spec fn pack_numbers_fit(pack: SourcePack) -> bool {
    hex_fits(pack.header_offset@, usize::MAX as nat) && hex_fits(pack.vram_destination@, u16::MAX as nat)
}

/// Every fixed fact the exam-seal manifest must declare.
pub open spec fn manifest_shape_ok(m: ExamSealsManifest) -> bool {
    let s = m.output_surface;
    &&& m.schema_version == 1
    &&& m.asset_group_id@ == "GFX-EXAM-SEALS"@
    &&& seq_contains_run(m.source_policy@, "JP"@)
    &&& s.width == 72
    &&& s.height == 72
    &&& s.content_box == PixelBounds { x: 3, y: 4, width: 61, height: 64 }
    &&& s.alpha_threshold != 0
    &&& s.alpha_threshold != 255
    &&& m.transparent_palette_index == 0
    &&& same_members(m.source_seal_palette_indices@, seq![0usize, 9, 10, 11])
    &&& same_members(m.allowed_opaque_palette_indices@, seq![9usize, 10, 11])
    &&& m.tile_layout@.len() == 9
    &&& forall|ty: int| 0 <= ty < 9 ==> #[trigger] layout_row_ok(m.tile_layout@[ty]@, ty)
    &&& forall|k: int| 0 <= k < m.source_packs@.len() ==> #[trigger] pack_numbers_fit(m.source_packs@[k])
    &&& m.source_packs@.len() == 4
    &&& forall|k: int| 0 <= k < 4 ==> #[trigger] anchor_ok(m.source_packs@[k], k)
    &&& m.target_pack_id@ == "exam-patterns-high"@
    &&& m.source_packs@[1].id@ == m.target_pack_id@
    &&& m.protected_tile_range.start == 74
    &&& m.protected_tile_range.end_exclusive == 118
    &&& hex_is(m.consumer_loader.lea_offset@, 0x09_3D4A)
    &&& hex_is(m.consumer_loader.header_group_offset@, 0x09_61A6)
    &&& hex_is(m.consumer_loader.loader_call_target@, 0x000A72)
    &&& hex_is(m.score_dispatch.compare_offset@, 0x09_3DF2)
    &&& m.score_dispatch.pass_threshold == 90
    &&& m.score_dispatch.perfect_score == 100
    &&& hex_is(m.score_dispatch.fail_branch_target@, 0x09_4330)
    &&& hex_is(m.score_dispatch.regular_pass_branch_target@, 0x09_40F2)
    &&& hex_is(m.draw_call_target@, 0x1856)
    &&& m.seals@.len() == 2
    &&& forall|s: int| 0 <= s < 2 ==> #[trigger] seal_ok(m.seals@[s], s)
}

fn expected_layout_cell(tx: usize, ty: usize) -> (cell: Option<usize>)
    requires
        tx < 9,
        ty < 9,
    ensures
        cell == expected_cell(tx as int, ty as int),
{
    if ty == 8 {
        if 2 <= tx && tx <= 6 { Some(67 + tx) } else { None }
    } else if tx == 8 {
        if 2 <= ty && ty <= 6 { Some(62 + ty) } else { None }
    } else if ty < 4 {
        Some(tx * 4 + ty)
    } else {
        Some(32 + tx * 4 + ty - 4)
    }
}

fn layout_row_matches(row: &Vec<Option<usize>>, ty: usize) -> (same: bool)
    requires
        ty < 9,
    ensures
        same == layout_row_ok(row@, ty as int),
{
    if row.len() != 9 {
        return false;
    }
    let mut tx: usize = 0;
    while tx < 9
        invariant
            row@.len() == 9,
            ty < 9,
            tx <= 9,
            forall|k: int| 0 <= k < tx ==> #[trigger] row@[k] == expected_cell(k, ty as int),
        decreases 9 - tx,
    {
        let expected = expected_layout_cell(tx, ty);
        let same = match (row[tx], expected) {
            (Some(a), Some(b)) => a == b,
            (None, None) => true,
            _ => false,
        };
        if !same {
            return false;
        }
        tx = tx + 1;
    }
    true
}

/// Refuse a manifest whose sparse layout is not the JP one.
pub fn validate_tile_layout(manifest: &ExamSealsManifest) -> (result: Result<(), Error>)
    ensures
        result is Ok <==> (manifest.tile_layout@.len() == 9 && forall|ty: int|
            0 <= ty < 9 ==> #[trigger] layout_row_ok(manifest.tile_layout@[ty]@, ty)),
{
    let layout = &manifest.tile_layout;
    if layout.len() != 9 {
        return Err("exam tile layout must have nine rows");
    }
    let mut ty: usize = 0;
    while ty < 9
        invariant
            *layout == manifest.tile_layout,
            layout@.len() == 9,
            ty <= 9,
            forall|r: int| 0 <= r < ty ==> #[trigger] layout_row_ok(layout@[r]@, r),
        decreases 9 - ty,
    {
        if !layout_row_matches(&layout[ty], ty) {
            return Err("exam tile layout drifted from the JP structure");
        }
        ty = ty + 1;
    }
    Ok(())
}

fn check_seal(seal: &SealDeclaration, s: usize) -> (result: Result<(), Error>)
    requires
        s < 2,
    ensures
        result is Ok <==> seal_ok(*seal, s as int),
{
    let d = &seal.sprite_definition;
    let consumers = &d.consumers;
    let mut j: usize = 0;
    while j < consumers.len()
        invariant
            *consumers == seal.sprite_definition.consumers,
            j <= consumers@.len(),
            forall|k: int| 0 <= k < j ==> #[trigger] hex_fits(consumers@[k]@, usize::MAX as nat),
        decreases consumers@.len() - j,
    {
        match parse_hex(consumers[j].as_str()) {
            Ok(_) => {},
            Err(e) => {
                assert(!seal_ok(*seal, s as int)) by {
                    assert(!hex_fits(consumers@[j as int]@, usize::MAX as nat));
                }
                return Err(e);
            },
        }
        j = j + 1;
    }
    let (id_ok, text_ok, start, end, offset) = if s == 0 {
        (string_is(&seal.id, "GFX-EXAM-SEAL-PASS"), string_is(&seal.text, "합격"), 0usize, 74usize, 0x09_761Ausize)
    } else {
        (string_is(&seal.id, "GFX-EXAM-SEAL-FAIL"), string_is(&seal.text, "불합격"), 118usize, 192usize, 0x09_765Cusize)
    };
    let count: usize = if s == 0 { 4 } else { 2 };
    let mut consumers_ok = consumers.len() == count;
    let mut k: usize = 0;
    while k < consumers.len() && k < count
        invariant
            *consumers == seal.sprite_definition.consumers,
            s < 2,
            count == consumer_count(s as int),
            k <= count,
            consumers_ok == (consumers@.len() == count && forall|q: int|
                0 <= q < k ==> #[trigger] hex_is(consumers@[q]@, consumer_at(s as int, q))),
        decreases count - k,
    {
        let expected: usize = if s == 0 {
            if k == 0 { 0x09_3E2E } else if k == 1 { 0x09_3E6C } else if k == 2 { 0x09_4116 } else { 0x09_4154 }
        } else {
            if k == 0 { 0x09_4354 } else { 0x09_4392 }
        };
        assert(expected as nat == consumer_at(s as int, k as int));
        let matched = hex_equals(&consumers[k], expected);
        if !matched {
            consumers_ok = false;
        }
        proof {
            assert(matched == hex_is(consumers@[k as int]@, consumer_at(s as int, k as int)));
        }
        k = k + 1;
    }
    if !id_ok || !text_ok || seal.mutable_tile_range.start != start
        || seal.mutable_tile_range.end_exclusive != end || !hex_equals(&d.offset, offset)
        || !consumers_ok || d.records.len() != EXAM_SPRITES_PER_SEAL {
        return Err("exam seal declaration drifted");
    }
    Ok(())
}

fn anchor_matches(pack: &SourcePack, k: usize) -> (same: Result<bool, Error>)
    requires
        k < 4,
    ensures
        same is Ok <==> (hex_fits(pack.header_offset@, usize::MAX as nat) && hex_fits(pack.vram_destination@, u16::MAX as nat)),
        same matches Ok(b) ==> b == anchor_ok(*pack, k as int),
{
    let header = parse_hex(pack.header_offset.as_str())?;
    let vram = parse_u16_hex(pack.vram_destination.as_str())?;
    let expected_vram: u16 = if k == 0 { 0x2000 } else if k == 1 { 0x4000 } else if k == 2 { 0xE000 } else { 0xD000 };
    let expected_bytes: usize = if k == 0 { 3_520 } else if k == 1 { 6_144 } else if k == 2 { 8_192 } else { 4_096 };
    Ok(header == 0x09_61A6 + 6 * k && vram == expected_vram && pack.decoded_bytes == expected_bytes)
}

/// Refuse a manifest whose identity, surface, palette roles, layout, JP
/// transfer set, protected range, consumer declarations or seals drifted.
pub fn validate_manifest_shape(manifest: &ExamSealsManifest) -> (result: Result<(), Error>)
    ensures
        result is Ok <==> manifest_shape_ok(*manifest),
{
    if manifest.schema_version != 1 || !string_is(&manifest.asset_group_id, "GFX-EXAM-SEALS")
        || !str_contains(manifest.source_policy.as_str(), "JP") {
        return Err("unsupported exam seal manifest identity");
    }
    let surface = &manifest.output_surface;
    let b = &surface.content_box;
    if surface.width != EXAM_SURFACE_WIDTH || surface.height != EXAM_SURFACE_HEIGHT || b.x != 3
        || b.y != 4 || b.width != 61 || b.height != 64 || surface.alpha_threshold == 0
        || surface.alpha_threshold == 255 {
        return Err("exam seal output surface drifted");
    }
    if manifest.transparent_palette_index != 0 || !same_usize_members(
        manifest.source_seal_palette_indices.as_slice(),
        &[0, 9, 10, 11],
    ) || !same_usize_members(manifest.allowed_opaque_palette_indices.as_slice(), &[9, 10, 11]) {
        return Err("exam seal palette roles drifted");
    }
    validate_tile_layout(manifest)?;
    let packs = &manifest.source_packs;
    let mut all_anchored = packs.len() == 4;
    let mut k: usize = 0;
    while k < packs.len()
        invariant
            *packs == manifest.source_packs,
            k <= packs@.len(),
            forall|j: int| 0 <= j < k ==> #[trigger] pack_numbers_fit(packs@[j]),
            all_anchored == (packs@.len() == 4 && forall|j: int| 0 <= j < k ==> #[trigger] anchor_ok(packs@[j], j)),
        decreases packs@.len() - k,
    {
        if k < 4 {
            let same = match anchor_matches(&packs[k], k) {
                Ok(same) => same,
                Err(e) => {
                    assert(!pack_numbers_fit(packs@[k as int]));
                    return Err(e);
                },
            };
            if !same {
                all_anchored = false;
            }
            assert(hex_fits(packs@[k as int].header_offset@, usize::MAX as nat));
            assert(hex_fits(packs@[k as int].vram_destination@, u16::MAX as nat));
        } else {
            let header = parse_hex(packs[k].header_offset.as_str());
            if header.is_err() {
                assert(!pack_numbers_fit(packs@[k as int]));
                return Err("exam transfer header offset is not a machine number");
            }
            let vram = parse_u16_hex(packs[k].vram_destination.as_str());
            if vram.is_err() {
                assert(!pack_numbers_fit(packs@[k as int]));
                return Err("exam transfer VRAM destination is not a 16-bit number");
            }
            all_anchored = false;
            assert(hex_fits(packs@[k as int].header_offset@, usize::MAX as nat));
            assert(hex_fits(packs@[k as int].vram_destination@, u16::MAX as nat));
        }
        assert(pack_numbers_fit(packs@[k as int]));
        k = k + 1;
    }
    if !all_anchored || !string_is(&manifest.target_pack_id, "exam-patterns-high") || !str_eq(
        packs[1].id.as_str(),
        manifest.target_pack_id.as_str(),
    ) {
        return Err("exam JP transfer set drifted");
    }
    if manifest.protected_tile_range.start != EXAM_PROTECTED_TILE_START
        || manifest.protected_tile_range.end_exclusive != EXAM_PROTECTED_TILE_END {
        return Err("exam protected score range drifted");
    }
    let loader = &manifest.consumer_loader;
    let dispatch = &manifest.score_dispatch;
    if !hex_equals(&loader.lea_offset, 0x09_3D4A) || !hex_equals(&loader.header_group_offset, 0x09_61A6)
        || !hex_equals(&loader.loader_call_target, 0x000A72) || !hex_equals(&dispatch.compare_offset, 0x09_3DF2)
        || dispatch.pass_threshold != 90 || dispatch.perfect_score != 100 || !hex_equals(
        &dispatch.fail_branch_target,
        0x09_4330,
    ) || !hex_equals(&dispatch.regular_pass_branch_target, 0x09_40F2) || !hex_equals(
        &manifest.draw_call_target,
        EXAM_DRAW_CALL_TARGET,
    ) {
        return Err("exam consumer declarations drifted");
    }
    let seals = &manifest.seals;
    if seals.len() != 2 {
        return Err("exam seal manifest must declare pass and fail");
    }
    let mut s: usize = 0;
    while s < 2
        invariant
            *seals == manifest.seals,
            seals@.len() == 2,
            s <= 2,
            forall|j: int| 0 <= j < s ==> #[trigger] seal_ok(seals@[j], j),
        decreases 2 - s,
    {
        check_seal(&seals[s], s)?;
        s = s + 1;
    }
    Ok(())
}

/// The two seal ranges and the protected range hash as declared.
pub open spec fn source_tile_ranges_ok(payload: Seq<u8>, m: ExamSealsManifest) -> bool {
    &&& forall|s: int|
        0 <= s < 2 ==> #[trigger] sha256_hex_of(
            payload.subrange(
                m.seals@[s].mutable_tile_range.start * 32,
                m.seals@[s].mutable_tile_range.end_exclusive * 32,
            ),
        ) == m.seals@[s].mutable_tile_range.source_sha256@
    &&& sha256_hex_of(payload.subrange(2_368, 3_776)) == m.protected_tile_range.decoded_sha256@
}

/// Refuse a JP high-pattern transfer whose seal or protected ranges drifted.
pub fn validate_source_tile_ranges(source_payload: &[u8], manifest: &ExamSealsManifest) -> (result:
    Result<(), Error>)
    requires
        manifest_shape_ok(*manifest),
        source_payload@.len() == 6_144,
    ensures
        result is Ok <==> source_tile_ranges_ok(source_payload@, *manifest),
{
    let mut s: usize = 0;
    while s < 2
        invariant
            manifest_shape_ok(*manifest),
            source_payload@.len() == 6_144,
            s <= 2,
            forall|j: int|
                0 <= j < s ==> #[trigger] sha256_hex_of(
                    source_payload@.subrange(
                        manifest.seals@[j].mutable_tile_range.start * 32,
                        manifest.seals@[j].mutable_tile_range.end_exclusive * 32,
                    ),
                ) == manifest.seals@[j].mutable_tile_range.source_sha256@,
        decreases 2 - s,
    {
        let seal = &manifest.seals[s];
        proof {
            assert(seal_ok(manifest.seals@[s as int], s as int));
        }
        let start = seal.mutable_tile_range.start * MD_TILE_BYTES;
        let end = seal.mutable_tile_range.end_exclusive * MD_TILE_BYTES;
        let hash = sha256_hex(&source_payload[start..end]);
        if !str_eq(hash.as_str(), seal.mutable_tile_range.source_sha256.as_str()) {
            return Err("exam seal source tile range SHA-256 drifted");
        }
        s = s + 1;
    }
    let protected = &manifest.protected_tile_range;
    let hash = sha256_hex(&source_payload[protected.start * MD_TILE_BYTES..protected.end_exclusive * MD_TILE_BYTES]);
    if !str_eq(hash.as_str(), protected.decoded_sha256.as_str()) {
        return Err("exam protected score tile SHA-256 drifted");
    }
    Ok(())
}

/// The JP consumer still loads the group: `LEA d16(PC),A2` to the header
/// group, then `JSR abs.l` to the loader.
pub open spec fn loader_ok(source: Seq<u8>, m: ExamSealsManifest) -> bool {
    let lea = spec_parse_hex(m.consumer_loader.lea_offset@).unwrap() as int;
    &&& lea + 10 <= source.len()
    &&& be16(source, lea) == 0x45FA
    &&& relative_target(lea, be16(source, lea + 2)) == spec_parse_hex(m.consumer_loader.header_group_offset@).unwrap()
    &&& be16(source, lea + 4) == 0x4EB9
    &&& be32(source, lea + 6) == spec_parse_hex(m.consumer_loader.loader_call_target@).unwrap()
}

/// Refuse a JP ROM whose exam consumer no longer loads the group.
pub fn validate_consumer_loader(source: &[u8], manifest: &ExamSealsManifest) -> (result: Result<(), Error>)
    requires
        manifest_shape_ok(*manifest),
    ensures
        result is Ok <==> loader_ok(source@, *manifest),
{
    let loader = &manifest.consumer_loader;
    let lea_offset = parse_hex(loader.lea_offset.as_str())?;
    let bytes = source_range(source, lea_offset, 10)?;
    if read_be16(bytes, 0) != 0x45FA {
        return Err("exam consumer no longer loads its group with LEA d16(PC),A2");
    }
    let target = branch_word_target(lea_offset, read_be16(bytes, 2));
    if target != parse_hex(loader.header_group_offset.as_str())? {
        return Err("exam loader resolves elsewhere than its declared header group");
    }
    if read_be16(bytes, 4) != 0x4EB9 {
        return Err("exam group load is not followed by JSR abs.l");
    }
    let call_target = read_be32(bytes, 6) as usize;
    if call_target != parse_hex(loader.loader_call_target.as_str())? {
        return Err("exam graphics loader call drifted");
    }
    Ok(())
}

/// The score dispatch still compares against the pass threshold and the
/// perfect score and branches to the declared fail and pass paths.
pub open spec fn dispatch_ok(source: Seq<u8>, m: ExamSealsManifest) -> bool {
    let d = m.score_dispatch;
    let offset = spec_parse_hex(d.compare_offset@).unwrap() as int;
    &&& offset + 16 <= source.len()
    &&& be16(source, offset) == 0x0C00
    &&& be16(source, offset + 2) == d.pass_threshold
    &&& be16(source, offset + 4) == 0x6500
    &&& be16(source, offset + 8) == 0x0C00
    &&& be16(source, offset + 10) == d.perfect_score
    &&& be16(source, offset + 12) == 0x6600
    &&& relative_target(offset + 4, be16(source, offset + 6)) == spec_parse_hex(d.fail_branch_target@).unwrap()
    &&& relative_target(offset + 12, be16(source, offset + 14)) == spec_parse_hex(d.regular_pass_branch_target@).unwrap()
}

/// Refuse a JP ROM whose score comparison sequence or branch targets drifted.
pub fn validate_score_dispatch(source: &[u8], manifest: &ExamSealsManifest) -> (result: Result<(), Error>)
    requires
        manifest_shape_ok(*manifest),
    ensures
        result is Ok <==> dispatch_ok(source@, *manifest),
{
    let dispatch = &manifest.score_dispatch;
    let offset = parse_hex(dispatch.compare_offset.as_str())?;
    let bytes = source_range(source, offset, 16)?;
    if read_be16(bytes, 0) != 0x0C00 || read_be16(bytes, 2) != dispatch.pass_threshold
        || read_be16(bytes, 4) != 0x6500 || read_be16(bytes, 8) != 0x0C00 || read_be16(bytes, 10)
        != dispatch.perfect_score || read_be16(bytes, 12) != 0x6600 {
        return Err("exam score comparison sequence drifted");
    }
    let fail_target = branch_word_target(offset + 4, read_be16(bytes, 6));
    let pass_target = branch_word_target(offset + 12, read_be16(bytes, 14));
    if fail_target != parse_hex(dispatch.fail_branch_target.as_str())? || pass_target != parse_hex(
        dispatch.regular_pass_branch_target.as_str(),
    )? {
        return Err("exam score branch target drifted");
    }
    Ok(())
}

/// Every sprite record consists of four 16-bit manifest numbers.
pub open spec fn records_fit(records: Seq<SpriteRecord>) -> bool {
    forall|i: int|
        0 <= i < records.len() ==> record_words_fit(
            #[trigger] records[i].y@,
            records[i].size_link@,
            records[i].tile@,
            records[i].x@,
        )
}

/// The bytes of a run of sprite records.
pub open spec fn records_bytes(records: Seq<SpriteRecord>) -> Seq<u8>
    decreases records.len(),
{
    if records.len() == 0 {
        Seq::empty()
    } else {
        let last = records.last();
        records_bytes(records.drop_last()) + record_bytes(last.y@, last.size_link@, last.tile@, last.x@)
    }
}

/// A seal's sprite definition as the manifest declares it.
pub open spec fn definition_bytes(d: SpriteDefinition) -> Seq<u8> {
    word_bytes(d.records@.len() as u16) + records_bytes(d.records@)
}

proof fn lemma_records_bytes_len(records: Seq<SpriteRecord>)
    ensures
        records_bytes(records).len() == 8 * records.len(),
    decreases records.len(),
{
    if records.len() > 0 {
        lemma_records_bytes_len(records.drop_last());
    }
}

/// Encode a seal's declared sprite definition (count word, then four words
/// per sprite).
pub fn encode_sprite_definition(definition: &SpriteDefinition) -> (encoded: Result<Vec<u8>, Error>)
    ensures
        encoded is Ok <==> (definition.records@.len() <= 0xFFFF && records_fit(definition.records@)),
        encoded matches Ok(bytes) ==> bytes@ == definition_bytes(*definition),
{
    let records = &definition.records;
    if records.len() > 0xFFFF {
        return Err("exam sprite count is too large");
    }
    let mut output: Vec<u8> = Vec::new();
    append_word(&mut output, records.len() as u16);
    let mut i: usize = 0;
    while i < records.len()
        invariant
            *records == definition.records,
            records@.len() <= 0xFFFF,
            i <= records@.len(),
            records_fit(records@.take(i as int)),
            output@ == word_bytes(records@.len() as u16) + records_bytes(records@.take(i as int)),
        decreases records@.len() - i,
    {
        let record = &records[i];
        match append_record(&mut output, &record.y, &record.size_link, &record.tile, &record.x) {
            Ok(()) => {},
            Err(e) => {
                assert(!records_fit(records@)) by {
                    assert(!record_words_fit(records@[i as int].y@, records@[i as int].size_link@, records@[i as int].tile@, records@[i as int].x@));
                }
                return Err(e);
            },
        }
        proof {
            assert(records@.take(i + 1).drop_last() =~= records@.take(i as int));
            assert(records@.take(i + 1).last() == records@[i as int]);
            assert forall|k: int| 0 <= k < i + 1 implies record_words_fit(
                #[trigger] records@.take(i + 1)[k].y@,
                records@.take(i + 1)[k].size_link@,
                records@.take(i + 1)[k].tile@,
                records@.take(i + 1)[k].x@,
            ) by {
                if k < i {
                    assert(records@.take(i + 1)[k] == records@.take(i as int)[k]);
                }
            }
        }
        i = i + 1;
    }
    assert(records@.take(records@.len() as int) =~= records@);
    Ok(output)
}

/// First transfer tile a sprite record shows (the transfer starts at VRAM
/// tile 512) and how many cells it covers.
pub open spec fn record_start(r: SpriteRecord) -> int {
    hex_word(r.tile@) % 2048 - 512
}

pub open spec fn record_cells(r: SpriteRecord) -> int {
    size_link_tiles(hex_word(r.size_link@))
}

/// The record uses the seal's tile flags and shows tiles of the transfer.
pub open spec fn record_flags_ok(r: SpriteRecord) -> bool {
    hex_word(r.tile@) / 2048 == 20 && hex_word(r.tile@) % 2048 >= 512
}

/// Transfer tile `t` lies in the cells of record `r`.
pub open spec fn in_record(r: SpriteRecord, t: int) -> bool {
    record_start(r) <= t < record_start(r) + record_cells(r)
}

/// Some record of `records` covers tile `t`.
pub open spec fn covered(records: Seq<SpriteRecord>, t: int) -> bool {
    exists|i: int| 0 <= i < records.len() && #[trigger] in_record(records[i], t)
}

/// The records cover tiles `start..end` exactly once each.
pub open spec fn coverage_ok(records: Seq<SpriteRecord>, start: int, end: int) -> bool {
    &&& forall|i: int| 0 <= i < records.len() ==> #[trigger] record_flags_ok(records[i])
    &&& forall|i: int, j: int, t: int|
        0 <= i < j < records.len() ==> !(#[trigger] in_record(records[i], t) && #[trigger] in_record(records[j], t))
    &&& forall|t: int| covered(records, t) <==> start <= t < end
}

/// Check that the records own exactly the tiles `start..end`, each once.
pub fn validate_tile_coverage(records: &Vec<SpriteRecord>, start: usize, end: usize) -> (result: Result<
    (),
    Error,
>)
    requires
        records_fit(records@),
        start <= end <= 2048,
    ensures
        result is Ok <==> coverage_ok(records@, start as int, end as int),
{
    let mut present: Vec<bool> = vec![false; 2048];
    let mut i: usize = 0;
    while i < records.len()
        invariant
            records_fit(records@),
            start <= end <= 2048,
            present@.len() == 2048,
            i <= records@.len(),
            forall|k: int| 0 <= k < i ==> #[trigger] record_flags_ok(records@[k]),
            forall|k: int| 0 <= k < i ==> 0 <= record_start(#[trigger] records@[k]) && record_start(records@[k]) + record_cells(records@[k]) <= 1552,
            forall|a: int, b: int, t: int|
                0 <= a < b < i ==> !(#[trigger] in_record(records@[a], t) && #[trigger] in_record(records@[b], t)),
            forall|t: int| 0 <= t < 2048 ==> (#[trigger] present@[t] <==> covered(records@.take(i as int), t)),
        decreases records@.len() - i,
    {
        let record = &records[i];
        proof {
            assert(record_words_fit(records@[i as int].y@, records@[i as int].size_link@, records@[i as int].tile@, records@[i as int].x@));
        }
        let size_link = match parse_u16_hex(record.size_link.as_str()) {
            Ok(v) => v,
            Err(e) => {
                return Err(e);
            },
        };
        let tile_word = match parse_u16_hex(record.tile.as_str()) {
            Ok(v) => v,
            Err(e) => {
                return Err(e);
            },
        };
        if tile_word / 2048 != 20 {
            assert(!record_flags_ok(records@[i as int]));
            return Err("exam sprite tile flags drifted");
        }
        let tile = (tile_word % 2048) as usize;
        if tile < 512 {
            assert(!record_flags_ok(records@[i as int]));
            return Err("exam sprite tile precedes its VRAM transfer");
        }
        let relative = tile - 512;
        let cells = sprite_tile_count(size_link);
        proof {
            crate::sprite::lemma_size_link_tiles_bound(size_link);
            assert(relative as int == record_start(records@[i as int]));
            assert(cells as int == record_cells(records@[i as int]));
        }
        let mut idx = relative;
        while idx < relative + cells
            invariant
                records_fit(records@),
                present@.len() == 2048,
                i < records@.len(),
                relative as int == record_start(records@[i as int]),
                cells as int == record_cells(records@[i as int]),
                relative + cells <= 1552,
                relative <= idx <= relative + cells,
                forall|k: int| 0 <= k < i ==> 0 <= record_start(#[trigger] records@[k]) && record_start(records@[k]) + record_cells(records@[k]) <= 1552,
                forall|t: int| relative <= t < idx ==> !covered(records@.take(i as int), t),
                forall|t: int|
                    0 <= t < 2048 ==> (#[trigger] present@[t] <==> (covered(records@.take(i as int), t) || relative <= t < idx)),
            decreases relative + cells - idx,
        {
            if present[idx] {
                proof {
                    assert(covered(records@.take(i as int), idx as int));
                    let a = choose|a: int| 0 <= a < i && #[trigger] in_record(records@.take(i as int)[a], idx as int);
                    assert(records@.take(i as int)[a] == records@[a]);
                    assert(in_record(records@[i as int], idx as int));
                    assert(!coverage_ok(records@, start as int, end as int)) by {
                        assert(in_record(records@[a], idx as int) && in_record(records@[i as int], idx as int));
                    }
                }
                return Err("exam sprite tile coverage overlaps");
            }
            present.set(idx, true);
            idx = idx + 1;
        }
        proof {
            assert forall|t: int| 0 <= t < 2048 implies (#[trigger] present@[t] <==> covered(records@.take(i + 1), t)) by {
                if covered(records@.take(i + 1), t) {
                    let a = choose|a: int| 0 <= a < i + 1 && #[trigger] in_record(records@.take(i + 1)[a], t);
                    if a < i {
                        assert(records@.take(i + 1)[a] == records@.take(i as int)[a]);
                        assert(covered(records@.take(i as int), t));
                    }
                }
                if covered(records@.take(i as int), t) {
                    let a = choose|a: int| 0 <= a < i && #[trigger] in_record(records@.take(i as int)[a], t);
                    assert(records@.take(i + 1)[a] == records@.take(i as int)[a]);
                }
                if relative <= t < relative + cells {
                    assert(records@.take(i + 1)[i as int] == records@[i as int]);
                    assert(in_record(records@.take(i + 1)[i as int], t));
                }
            }
            assert forall|a: int, b: int, t: int|
                0 <= a < b < i + 1 implies !(#[trigger] in_record(records@[a], t) && #[trigger] in_record(records@[b], t)) by {
                if b == i && in_record(records@[a], t) && in_record(records@[b], t) {
                    assert(records@.take(i as int)[a] == records@[a]);
                    assert(covered(records@.take(i as int), t));
                }
            }
        }
        i = i + 1;
    }
    assert(records@.take(records@.len() as int) =~= records@);
    let mut t: usize = 0;
    while t < 2048
        invariant
            start <= end <= 2048,
            present@.len() == 2048,
            t <= 2048,
            forall|q: int| 0 <= q < 2048 ==> (#[trigger] present@[q] <==> covered(records@, q)),
            forall|q: int| 0 <= q < t ==> (covered(records@, q) <==> start <= q < end),
        decreases 2048 - t,
    {
        if present[t] != (start <= t && t < end) {
            return Err("exam sprite records do not own the seal tile range");
        }
        t = t + 1;
    }
    assert forall|q: int| covered(records@, q) <==> start <= q < end by {
        if covered(records@, q) {
            let a = choose|a: int| 0 <= a < records@.len() && #[trigger] in_record(records@[a], q);
            assert(0 <= record_start(records@[a]) && record_start(records@[a]) + record_cells(records@[a]) <= 1552);
        }
    }
    Ok(())
}

/// Draw consumer `c` loads the seal's definition into A2, clears D1..D3 and
/// calls the sprite drawer.
pub open spec fn draw_consumer_ok(source: Seq<u8>, c: Seq<char>, definition: int, draw_target: int) -> bool {
    let o = spec_parse_hex(c).unwrap() as int;
    &&& o + 18 <= source.len()
    &&& be16(source, o) == 0x45F9
    &&& be32(source, o + 2) == definition
    &&& be16(source, o + 6) == 0x4241
    &&& be16(source, o + 8) == 0x4242
    &&& be16(source, o + 10) == 0x4243
    &&& be16(source, o + 12) == 0x4EB9
    &&& be32(source, o + 14) == draw_target
}

/// Seal `s` is drawn by its declared JP definition, whose sprites own its
/// tile range once each, from every declared consumer.
pub open spec fn sprite_definition_ok(source: Seq<u8>, m: ExamSealsManifest, s: int) -> bool {
    let seal = m.seals@[s];
    let d = seal.sprite_definition;
    let definition = spec_parse_hex(d.offset@).unwrap() as int;
    let bytes = definition_bytes(d);
    &&& records_fit(d.records@)
    &&& definition + bytes.len() <= source.len()
    &&& source.subrange(definition, definition + bytes.len()) == bytes
    &&& coverage_ok(d.records@, seal.mutable_tile_range.start as int, seal.mutable_tile_range.end_exclusive as int)
    &&& forall|j: int|
        0 <= j < d.consumers@.len() ==> #[trigger] draw_consumer_ok(
            source,
            d.consumers@[j]@,
            definition,
            spec_parse_hex(m.draw_call_target@).unwrap() as int,
        )
}

/// Refuse a JP ROM whose definition of seal `s`, its tile ownership or its
/// draw consumers drifted.
pub fn validate_sprite_definition(source: &[u8], manifest: &ExamSealsManifest, s: usize) -> (result:
    Result<(), Error>)
    requires
        manifest_shape_ok(*manifest),
        s < 2,
    ensures
        result is Ok <==> sprite_definition_ok(source@, *manifest, s as int),
{
    let seal = &manifest.seals[s];
    proof {
        assert(seal_ok(manifest.seals@[s as int], s as int));
    }
    let expected = encode_sprite_definition(&seal.sprite_definition)?;
    let definition_offset = parse_hex(seal.sprite_definition.offset.as_str())?;
    let actual = source_range(source, definition_offset, expected.len())?;
    if !bytes_equal(actual, expected.as_slice()) {
        return Err("exam seal source sprite definition drifted");
    }
    validate_tile_coverage(
        &seal.sprite_definition.records,
        seal.mutable_tile_range.start,
        seal.mutable_tile_range.end_exclusive,
    )?;
    let draw_target = parse_hex(manifest.draw_call_target.as_str())?;
    let consumers = &seal.sprite_definition.consumers;
    let mut j: usize = 0;
    while j < consumers.len()
        invariant
            manifest_shape_ok(*manifest),
            s < 2,
            *seal == manifest.seals@[s as int],
            *consumers == seal.sprite_definition.consumers,
            definition_offset as nat == spec_parse_hex(seal.sprite_definition.offset@).unwrap(),
            draw_target as nat == spec_parse_hex(manifest.draw_call_target@).unwrap(),
            j <= consumers@.len(),
            forall|k: int|
                0 <= k < j ==> #[trigger] draw_consumer_ok(
                    source@,
                    consumers@[k]@,
                    definition_offset as int,
                    draw_target as int,
                ),
        decreases consumers@.len() - j,
    {
        proof {
            assert(seal_ok(manifest.seals@[s as int], s as int));
            assert(hex_fits(consumers@[j as int]@, usize::MAX as nat));
        }
        let offset = parse_hex(consumers[j].as_str())?;
        let bytes = match source_range(source, offset, 18) {
            Ok(bytes) => bytes,
            Err(e) => {
                assert(!draw_consumer_ok(source@, consumers@[j as int]@, definition_offset as int, draw_target as int));
                return Err(e);
            },
        };
        let target = read_be32(bytes, 2) as usize;
        let call_target = read_be32(bytes, 14) as usize;
        if read_be16(bytes, 0) != 0x45F9 || target != definition_offset || read_be16(bytes, 6) != 0x4241
            || read_be16(bytes, 8) != 0x4242 || read_be16(bytes, 10) != 0x4243 || read_be16(bytes, 12)
            != 0x4EB9 || call_target != draw_target {
            assert(!draw_consumer_ok(source@, consumers@[j as int]@, definition_offset as int, draw_target as int));
            return Err("exam draw consumer no longer binds its source sprite definition");
        }
        j = j + 1;
    }
    Ok(())
}

/// Byte `j` of a seal's 74 tiles, encoded from its 72x72 surface by the
/// sparse layout: tile `j / 32` sits in the layout cell that holds it.
pub open spec fn seal_cell_of(t: int) -> (int, int) {
    if t < 32 {
        (t / 4, t % 4)
    } else if t < 64 {
        ((t - 32) / 4, (t - 32) % 4 + 4)
    } else if t < 69 {
        (8, t - 62)
    } else {
        (t - 67, 8)
    }
}

/// Byte `j` of a seal's 74 tiles, left pixel in the high nibble.
pub open spec fn seal_byte(pixels: Seq<u8>, j: int) -> u8 {
    let cell = seal_cell_of(j / 32);
    let k = j % 32;
    let x = cell.0 * 8 + (k % 4) * 2;
    let y = cell.1 * 8 + k / 4;
    pack_nibbles(pixels[y * 72 + x], pixels[y * 72 + x + 1])
}

/// The seal surface leaves every unowned layout cell transparent.
pub open spec fn unowned_clear(pixels: Seq<u8>) -> bool {
    forall|i: int| 0 <= i < 72 * 72 && layout_tile((i % 72) / 8, (i / 72) / 8) < 0 ==> #[trigger] pixels[i] == 0
}

proof fn lemma_seal_cell(t: int)
    requires
        0 <= t < 74,
    ensures
        0 <= seal_cell_of(t).0 < 9,
        0 <= seal_cell_of(t).1 < 9,
        layout_tile(seal_cell_of(t).0, seal_cell_of(t).1) == t,
{
}

/// Encode a 72x72 seal surface into its 74 sparse-layout tiles, refusing ink
/// in an unowned cell or a pixel above palette index 15.
pub fn encode_layout_surface(pixels: &[u8], manifest: &ExamSealsManifest) -> (tiles: Result<Vec<u8>, Error>)
    requires
        manifest_shape_ok(*manifest),
    ensures
        tiles is Ok <==> (pixels@.len() == 72 * 72 && unowned_clear(pixels@) && all_nibbles(pixels@)),
        tiles matches Ok(t) ==> t@.len() == 74 * 32 && forall|j: int|
            0 <= j < 74 * 32 ==> #[trigger] t@[j] == seal_byte(pixels@, j),
{
    if pixels.len() != EXAM_SURFACE_WIDTH * EXAM_SURFACE_HEIGHT {
        return Err("exam seal pixel surface is not 9x9 tiles");
    }
    let transparent = manifest.transparent_palette_index as u8;
    let mut i: usize = 0;
    while i < 72 * 72
        invariant
            pixels@.len() == 72 * 72,
            transparent == 0,
            i <= 72 * 72,
            forall|q: int| 0 <= q < i ==> #[trigger] pixels@[q] < 16,
            forall|q: int| 0 <= q < i && layout_tile((q % 72) / 8, (q / 72) / 8) < 0 ==> #[trigger] pixels@[q] == 0,
        decreases 72 * 72 - i,
    {
        let tx = (i % 72) / 8;
        let ty = (i / 72) / 8;
        let owned = expected_layout_cell(tx, ty).is_some();
        if !owned && pixels[i] != transparent {
            return Err("exam seal master uses a non-owned sparse tile");
        }
        if pixels[i] >= 16 {
            return Err("exam seal uses an invalid palette index");
        }
        i = i + 1;
    }
    let mut output: Vec<u8> = Vec::with_capacity(74 * 32);
    let mut j: usize = 0;
    while j < 74 * 32
        invariant
            pixels@.len() == 72 * 72,
            all_nibbles(pixels@),
            j <= 74 * 32,
            output@.len() == j,
            forall|q: int| 0 <= q < j ==> #[trigger] output@[q] == seal_byte(pixels@, q),
        decreases 74 * 32 - j,
    {
        let t = j / 32;
        let k = j % 32;
        let (cx, cy) = if t < 32 {
            (t / 4, t % 4)
        } else if t < 64 {
            ((t - 32) / 4, (t - 32) % 4 + 4)
        } else if t < 69 {
            (8, t - 62)
        } else {
            (t - 67, 8)
        };
        let x = cx * 8 + (k % 4) * 2;
        let y = cy * 8 + k / 4;
        proof {
            lemma_seal_cell(t as int);
            crate::grid::lemma_row_col(y as int, x as int, 72);
        }
        output.push(pack_pair(pixels[y * 72 + x], pixels[y * 72 + x + 1]));
        j = j + 1;
    }
    Ok(output)
}

/// A compiled exam-seal pair before its pack is encoded.
pub struct ExamSealsBuild {
    pub manifest: ExamSealsManifest,
    pub palette: [u16; 16],
    pub source_payloads: Vec<Vec<u8>>,
    pub payload: Vec<u8>,
    pub surfaces: Vec<Vec<u8>>,
}

/// A seal surface the sparse layout can encode.
pub open spec fn seal_surface_ok(pixels: Seq<u8>) -> bool {
    pixels.len() == 72 * 72 && unowned_clear(pixels) && all_nibbles(pixels)
}

/// A build whose two seals the preview can draw.
pub open spec fn build_wf(build: ExamSealsBuild) -> bool {
    &&& build.surfaces@.len() == 2
    &&& seal_surface_ok(build.surfaces@[0]@)
    &&& seal_surface_ok(build.surfaces@[1]@)
    &&& build.source_payloads@.len() >= 1
}

/// Index of the transfer that receives the Korean seals.
pub open spec fn target_index(m: ExamSealsManifest) -> int {
    first_id_index(m.source_packs@, m.target_pack_id@, 0)
}

/// Everything the exam-seal compiler requires of its inputs.
pub open spec fn build_inputs_ok(source: Seq<u8>, m: ExamSealsManifest, decoded: Seq<DecodedPack>, surfaces: Seq<Vec<u8>>) -> bool {
    &&& manifest_shape_ok(m)
    &&& palette_declared(m.palette_line_words@.map_values(|w: String| w@))
    &&& decoded.len() == 4
    &&& forall|i: int| 0 <= i < 4 ==> pack_matches(#[trigger] decoded[i], m.source_packs@[i])
    &&& target_index(m) < 4
    &&& decoded[target_index(m)].data@.len() == 6_144
    &&& source_tile_ranges_ok(decoded[target_index(m)].data@, m)
    &&& loader_ok(source, m)
    &&& dispatch_ok(source, m)
    &&& sprite_definition_ok(source, m, 0)
    &&& sprite_definition_ok(source, m, 1)
    &&& seal_surface_ok(surfaces[0]@)
    &&& seal_surface_ok(surfaces[1]@)
}

/// Byte `q` of the rewritten high-pattern transfer: the pass seal, the JP
/// score and suffix tiles, the fail seal.
pub open spec fn payload_byte(source_payload: Seq<u8>, surfaces: Seq<Vec<u8>>, q: int) -> u8 {
    if q < 2_368 {
        seal_byte(surfaces[0]@, q)
    } else if 3_776 <= q < 6_144 {
        seal_byte(surfaces[1]@, q - 3_776)
    } else {
        source_payload[q]
    }
}

/// The pass seal's range (tiles 0..74 of the transfer) follows the pass
/// surface alone and the fail seal's range (tiles 118..192) the fail surface
/// alone: two surface pairs that share the pass seal give the same pass
/// range whatever their fail seals, and likewise for the fail range. Between
/// the ranges the JP score and suffix tiles stay.
pub proof fn lemma_seal_ranges_follow_their_surfaces(
    source_payload: Seq<u8>,
    a: Seq<Vec<u8>>,
    b: Seq<Vec<u8>>,
    q: int,
)
    requires
        a.len() == 2,
        b.len() == 2,
        0 <= q < 6_144,
    ensures
        q < 2_368 && a[0]@ == b[0]@ ==> payload_byte(source_payload, a, q) == payload_byte(source_payload, b, q),
        3_776 <= q && a[1]@ == b[1]@ ==> payload_byte(source_payload, a, q) == payload_byte(source_payload, b, q),
        2_368 <= q < 3_776 ==> payload_byte(source_payload, a, q) == source_payload[q],
{
}

/// The pass range is the sparse-layout encoding of the pass surface and
/// nothing else: a change to the pass surface that changes its encoding at
/// byte `q` changes the transfer at `q`, while any change to the fail
/// surface leaves it.
pub proof fn lemma_pass_range_is_pass_encoding(
    source_payload: Seq<u8>,
    surfaces: Seq<Vec<u8>>,
    other_fail: Vec<u8>,
    q: int,
)
    requires
        surfaces.len() == 2,
        0 <= q < 2_368,
    ensures
        payload_byte(source_payload, surfaces, q) == payload_byte(source_payload, surfaces.update(1, other_fail), q),
        payload_byte(source_payload, surfaces.update(1, other_fail), 3_776 + q) == seal_byte(other_fail@, q),
{
}

/// Compile the exam seals from the JP ROM, the manifest, the four decoded
/// JP transfers and the indexed 72x72 pass and fail surfaces: check every
/// transfer, range, consumer and sprite definition, then write both seals
/// over their JP tile ranges.
pub fn build_exam_seals(
    source: &[u8],
    manifest: ExamSealsManifest,
    decoded: &Vec<DecodedPack>,
    surfaces: Vec<Vec<u8>>,
) -> (build: Result<ExamSealsBuild, Error>)
    requires
        surfaces@.len() == 2,
    ensures
        build is Ok <==> build_inputs_ok(source@, manifest, decoded@, surfaces@),
        build matches Ok(b) ==> {
            &&& build_wf(b)
            &&& b.manifest == manifest
            &&& b.surfaces@ == surfaces@
            &&& b.source_payloads@.len() == 4
            &&& forall|i: int| 0 <= i < 4 ==> #[trigger] b.source_payloads@[i]@ == decoded@[i].data@
            &&& b.payload@.len() == 6_144
            &&& forall|q: int|
                0 <= q < 6_144 ==> #[trigger] b.payload@[q] == payload_byte(decoded@[target_index(manifest)].data@, surfaces@, q)
            &&& forall|i: int|
                0 <= i < 16 ==> #[trigger] b.palette@[i] as nat == spec_parse_hex(
                    manifest.palette_line_words@[i]@,
                ).unwrap()
        },
{
    validate_manifest_shape(&manifest)?;
    let palette = parse_md_palette(&manifest.palette_line_words)?;
    let source_payloads = checked_source_packs(decoded, &manifest.source_packs)?;
    let target = match position_of_id(&manifest.source_packs, &manifest.target_pack_id) {
        Some(target) => target,
        None => {
            proof {
                crate::pack::lemma_first_id_index_le(manifest.source_packs@, manifest.target_pack_id@, 0, 1);
            }
            return Err("exam target pack is absent");
        },
    };
    let source_payload = source_payloads[target].clone();
    if source_payload.len() != EXAM_SOURCE_BYTES {
        return Err("exam target payload length drifted");
    }
    validate_source_tile_ranges(source_payload.as_slice(), &manifest)?;
    validate_consumer_loader(source, &manifest)?;
    validate_score_dispatch(source, &manifest)?;
    let mut payload = source_payload.clone();
    let mut s: usize = 0;
    while s < 2
        invariant
            manifest_shape_ok(manifest),
            surfaces@.len() == 2,
            source_payload@ == decoded@[target_index(manifest)].data@,
            source_payload@.len() == 6_144,
            payload@.len() == 6_144,
            s <= 2,
            forall|j: int| 0 <= j < s ==> #[trigger] sprite_definition_ok(source@, manifest, j),
            forall|j: int| 0 <= j < s ==> #[trigger] seal_surface_ok(surfaces@[j]@),
            forall|q: int|
                0 <= q < 6_144 ==> #[trigger] payload@[q] == (if (q < 2_368 && s >= 1) || (3_776 <= q && s >= 2) {
                    payload_byte(decoded@[target_index(manifest)].data@, surfaces@, q)
                } else {
                    source_payload@[q]
                }),
        decreases 2 - s,
    {
        validate_sprite_definition(source, &manifest, s)?;
        proof {
            assert(seal_ok(manifest.seals@[s as int], s as int));
        }
        let replacement = encode_layout_surface(surfaces[s].as_slice(), &manifest)?;
        let start = manifest.seals[s].mutable_tile_range.start * MD_TILE_BYTES;
        let end = manifest.seals[s].mutable_tile_range.end_exclusive * MD_TILE_BYTES;
        if replacement.len() != end - start {
            return Err("exam seal replacement tile length drifted");
        }
        let mut j: usize = 0;
        while j < replacement.len()
            invariant
                s < 2,
                start == (if s == 0 { 0usize } else { 3_776usize }),
                replacement@.len() == 2_368,
                forall|q: int| 0 <= q < 2_368 ==> #[trigger] replacement@[q] == seal_byte(surfaces@[s as int]@, q),
                surfaces@.len() == 2,
                source_payload@ == decoded@[target_index(manifest)].data@,
                payload@.len() == 6_144,
                j <= 2_368,
                forall|q: int|
                    0 <= q < 6_144 ==> #[trigger] payload@[q] == (if (q < 2_368 && s >= 1) || (3_776 <= q && s >= 2)
                        || (start <= q < start + j) {
                        payload_byte(decoded@[target_index(manifest)].data@, surfaces@, q)
                    } else {
                        source_payload@[q]
                    }),
            decreases 2_368 - j,
        {
            payload.set(start + j, replacement[j]);
            j = j + 1;
        }
        s = s + 1;
    }
    assert(payload@.subrange(2_368, 3_776) =~= source_payload@.subrange(2_368, 3_776));
    if !bytes_equal(&payload.as_slice()[2_368..3_776], &source_payload.as_slice()[2_368..3_776]) {
        return Err("exam compiler changed protected score or suffix tiles");
    }
    Ok(ExamSealsBuild { manifest, palette, source_payloads, payload, surfaces })
}

/// Summary of a build; `pack_bytes` is the size of its encoded pack bank.
pub open spec fn spec_summary(build: ExamSealsBuild, pack_bytes: usize, checksum: u16) -> ExamSealsSummary {
    ExamSealsSummary {
        source_tiles: 192,
        rewritten_tiles: 148,
        protected_tiles: 44,
        companion_transfers: (build.source_payloads@.len() - 1) as usize,
        source_sprite_records: 16,
        pack_bytes,
        checksum,
    }
}

/// Report the counts of a build.
pub fn summary(build: &ExamSealsBuild, pack_bytes: usize, checksum: u16) -> (s: ExamSealsSummary)
    requires
        build.source_payloads@.len() >= 1,
    ensures
        s == spec_summary(*build, pack_bytes, checksum),
{
    ExamSealsSummary {
        source_tiles: EXAM_SOURCE_TILES,
        rewritten_tiles: EXAM_SEAL_TILES * 2,
        protected_tiles: EXAM_PROTECTED_TILE_END - EXAM_PROTECTED_TILE_START,
        companion_transfers: build.source_payloads.len() - 1,
        source_sprite_records: EXAM_SPRITES_PER_SEAL * 2,
        pack_bytes,
        checksum,
    }
}

/// Colour of pixel (`x`, `y`) of seal panel `s`.
pub open spec fn panel_color(build: ExamSealsBuild, s: int, x: int, y: int) -> Seq<u8> {
    let index = build.surfaces@[s]@[y * 72 + x];
    if index as int == build.manifest.transparent_palette_index {
        checker(x, y, 210, 242)
    } else {
        spec_md_color(build.palette@[index as int])
    }
}

/// Colour of logical pixel (`lx`, `ly`) of the 148x72 contact sheet: the
/// pass seal, a 4-pixel grey gap, the fail seal.
pub open spec fn preview_color(build: ExamSealsBuild, lx: int, ly: int) -> Seq<u8> {
    if lx < 72 {
        panel_color(build, 0, lx, ly)
    } else if 76 <= lx {
        panel_color(build, 1, lx - 76, ly)
    } else {
        seq![96u8, 96, 96]
    }
}

/// Byte `k` of the 888x432 preview: the contact sheet scaled six times.
pub open spec fn preview_byte(build: ExamSealsBuild, k: int) -> u8 {
    let q = k / 4;
    opaque_channel(preview_color(build, (q % 888) / 6, (q / 888) / 6), k % 4)
}

fn panel_color_of(build: &ExamSealsBuild, s: usize, x: usize, y: usize) -> (color: [u8; 3])
    requires
        build_wf(*build),
        s < 2,
        x < 72,
        y < 72,
    ensures
        color@ == panel_color(*build, s as int, x as int, y as int),
{
    proof {
        crate::grid::lemma_index_bound(y as int, x as int, 72, 72);
    }
    let index = build.surfaces[s][y * 72 + x];
    proof {
        if s == 0 {
            assert(build.surfaces@[0]@[y * 72 + x] < 16);
        } else {
            assert(build.surfaces@[1]@[y * 72 + x] < 16);
        }
    }
    if index as usize == build.manifest.transparent_palette_index {
        checker_color(x, y, 210, 242)
    } else {
        md_color(build.palette[index as usize])
    }
}

/// Render a checker-backed contact sheet of the exact pass and fail seals,
/// scaled six times.
pub fn write_exam_seals_preview(build: &ExamSealsBuild, pack_bytes: usize) -> (result: (
    RgbaImage,
    ExamSealsSummary,
))
    requires
        build_wf(*build),
    ensures
        result.0.width == 888,
        result.0.height == 432,
        result.0.rgba@.len() == 888 * 432 * 4,
        forall|k: int| 0 <= k < 888 * 432 * 4 ==> #[trigger] result.0.rgba@[k] == preview_byte(*build, k),
        result.1 == spec_summary(*build, pack_bytes, 0),
{
    let contact_width = EXAM_SURFACE_WIDTH * 2 + PREVIEW_GAP;
    let preview_width = contact_width * PREVIEW_SCALE;
    let preview_height = EXAM_SURFACE_HEIGHT * PREVIEW_SCALE;
    let total = preview_width * preview_height;
    let mut rgba: Vec<u8> = Vec::with_capacity(total * 4);
    let mut q: usize = 0;
    while q < total
        invariant
            build_wf(*build),
            preview_width == 888,
            total == 888 * 432,
            q <= total,
            rgba@.len() == q * 4,
            forall|k: int| 0 <= k < q * 4 ==> #[trigger] rgba@[k] == preview_byte(*build, k),
        decreases total - q,
    {
        let lx = (q % preview_width) / PREVIEW_SCALE;
        let ly = (q / preview_width) / PREVIEW_SCALE;
        assert(lx < 148 && ly < 72);
        let color = if lx < EXAM_SURFACE_WIDTH {
            panel_color_of(build, 0, lx, ly)
        } else if EXAM_SURFACE_WIDTH + PREVIEW_GAP <= lx {
            panel_color_of(build, 1, lx - (EXAM_SURFACE_WIDTH + PREVIEW_GAP), ly)
        } else {
            let gap = [96, 96, 96];
            assert(gap@ =~= seq![96u8, 96, 96]);
            gap
        };
        assert(color@ == preview_color(*build, lx as int, ly as int));
        let ghost before = rgba@;
        push_opaque(&mut rgba, color);
        assert forall|k: int| 0 <= k < (q + 1) * 4 implies #[trigger] rgba@[k] == preview_byte(*build, k) by {
            if k >= q * 4 {
                assert(k / 4 == q);
                let c = k - q * 4;
                assert(rgba@[before.len() + c] == opaque_channel(color@, c));
            } else {
                assert(rgba@[k] == before[k]);
            }
        }
        q = q + 1;
    }
    let image = RgbaImage { width: preview_width, height: preview_height, rgba };
    (image, summary(build, pack_bytes, 0))
}

/// The writes of the exam seals insertion: the pack header over each JP
/// header it replaces, then the bank over the erased expanded bank.
pub open spec fn seals_writes(source: Seq<u8>, header: Seq<u8>, bank: Seq<u8>) -> Seq<WriteView> {
    seq![header_write(source, 0x09_61AC, header), bank_write(0x2A_0000, bank)]
}

/// Everything the exam seals insertion checks: a six-byte header, a bank
/// within its expanded bank, the JP bytes in `source`, and every write
/// finding its expected bytes.
pub open spec fn seals_insert_ok(source: Seq<u8>, image: Seq<u8>, header: Seq<u8>, bank: Seq<u8>) -> bool {
    let ws = seals_writes(source, header, bank);
    &&& header.len() == 6
    &&& 0x2A_0000 + bank.len() <= 0x2A_8000
    &&& 0x09_61AC + 6 <= source.len()
    &&& writes_ok(image, ws)
}

/// Insert the exam seals pack: its six-byte header over the JP header, its
/// bank over the erased expanded bank, then the header checksum. On any
/// refusal the output is left as it was.
pub fn apply_exam_seals(
    source: &[u8],
    output: &mut Vec<u8>,
    build: &ExamSealsBuild,
    header: &[u8],
    bank: &[u8],
) -> (result: Result<ExamSealsSummary, Error>)
    requires
        build.source_payloads@.len() >= 1,
    ensures
        result is Ok <==> seals_insert_ok(source@, old(output)@, header@, bank@),
        result is Err ==> final(output)@ == old(output)@,
        result matches Ok(s) ==> {
            let ws = seals_writes(source@, header@, bank@);
            let applied = writes_applied(old(output)@, ws, 2);
            &&& final(output)@ == checksummed(applied)
            &&& s.checksum as int == crate::rom::spec_checksum(applied)
            &&& s == spec_summary(*build, bank@.len() as usize, s.checksum)
            &&& only_ranges_changed(old(output)@, final(output)@, write_ranges(ws))
        },
{
    if header.len() != 6 || bank.len() > 0x2A_8000 - 0x2A_0000 {
        return Err("exam seals pack ends outside its expanded bank or its header is not six bytes");
    }
    let w0 = header_write_of(source, 0x09_61AC, header)?;
    let writes = vec![w0, bank_write_of(0x2A_0000, bank)];
    assert(write_views(writes@) =~= seals_writes(source@, header@, bank@));
    let checksum = insert_writes(output, &writes)?;
    Ok(summary(build, bank.len(), checksum))
}

} // verus!

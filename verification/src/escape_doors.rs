//! Ending-escape door marks.
//!
//! The JP mode-1 pack stores twenty-six decorative tiles followed by three
//! 3x3-tile kana panels: `ひ`, `じ` and `ば`. The Korean build keeps the
//! decorative prefix and every consumer structure byte-identical, and
//! replaces only those panels with `ㅎ`, `ㅈ` and `ㅂ`.

use vstd::prelude::*;
use crate::hex::{Error, hex_equals, hex_fits, hex_is, parse_hex, parse_u16_hex, parse_u8_hex, spec_parse_hex};
use crate::text::{seq_contains_run, str_contains, str_eq, string_is};
use crate::sets::{bytes_equal, same_members, same_usize_members};
use crate::pack::DecodedPack;
use crate::palette::{
    allowed_indices_ok, is_nearest_allowed, md_color, nearest_palette_index, palette_declared,
    parse_md_palette, spec_md_color,
};
use crate::preview::{PixelBounds, RgbaImage, opaque_channel, push_opaque};
use crate::rom::{append_word, be16, be32, read_be16, read_be32, source_range, word_bytes};
use crate::tiles::{
    MD_TILE_BYTES, all_nibbles, column_major_byte, column_major_pixel_value,
    decode_md_tiles_column_major, encode_md_tiles_column_major,
};
use crate::digest::{sha256_hex, sha256_hex_of};

use crate::insert::{WriteView, bank_write, bank_write_of, checksummed, header_write, header_write_of, insert_writes, write_ranges, write_views, writes_applied, writes_ok};
use crate::rom::only_ranges_changed;
use crate::sets::copy_bytes;

verus! {

pub const SOURCE_HEADER_OFFSET: usize = 0x07_8534;
pub const SOURCE_VRAM_DESTINATION: u16 = 0x5C80;
pub const SOURCE_DECODED_BYTES: usize = 1_696;
pub const PROTECTED_TILE_END: usize = 26;
pub const MUTABLE_TILE_END: usize = 53;
pub const MARK_TILES: usize = 9;
pub const MARK_WIDTH: usize = 24;
pub const MARK_HEIGHT: usize = 24;
pub const MARK_COUNT: usize = 3;
pub const TARGET_BANK_OFFSET: usize = 0x33_0000;
pub const TARGET_BANK_LIMIT: usize = 0x33_8000;
pub const TYPE_POINTER_TABLE_OFFSET: usize = 0x06_AD18;
pub const TYPE_POINTER_ENTRY_OFFSET: usize = 0x06_AD94;
pub const OBJECT_TYPE: usize = 0x1F;
pub const DEFINITION_TABLE_OFFSET: usize = 0x06_721A;
pub const SPRITE_COUNT: usize = 9;
pub const SPRITE_DEFINITION_BYTES: usize = 74;
pub const PREVIEW_SCALE: usize = 10;
pub const PREVIEW_GAP: usize = 2;

/// Counts reported after compiling the door marks.
pub struct EscapeDoorsSummary {
    pub source_tiles: usize,
    pub rewritten_tiles: usize,
    pub protected_tiles: usize,
    pub marks: usize,
    pub source_sprite_records: usize,
    pub verified_consumer_bytes: usize,
    pub written_executable_bytes: usize,
    pub pack_bytes: usize,
    pub checksum: u16,
}

pub struct PanelLayout {
    pub columns: usize,
    pub panel_width: usize,
    pub panel_height: usize,
    pub ordered_mark_ids: Vec<String>,
}

pub struct OutputSurface {
    pub width: usize,
    pub height: usize,
}

/// The JP door-mark transfer.
pub struct SourcePack {
    pub header_offset: String,
    pub vram_destination: String,
    pub decoded_bytes: usize,
    pub decoded_sha256: String,
}

pub struct TileRange {
    pub start: usize,
    pub end_exclusive: usize,
    pub decoded_sha256: String,
}

pub struct TargetPackBank {
    pub offset: String,
    pub limit: String,
    pub fill_byte: String,
}

/// One sprite of the door definitions; the central sprite has one tile word
/// per door.
pub struct SpriteRecord {
    pub y: String,
    pub size_link: String,
    pub tile_words: Vec<String>,
    pub x: String,
}

pub struct SpriteDefinition {
    pub mark_id: String,
    pub relative_offset: String,
    pub definition_offset: String,
    pub source_sha256: String,
}

pub struct ConsumerBinding {
    pub type_pointer_table_offset: String,
    pub type_pointer_entry_offset: String,
    pub object_type: String,
    pub definition_table_offset: String,
    pub definition_table_sha256: String,
    pub sprite_count: usize,
    pub records: Vec<SpriteRecord>,
    pub definitions: Vec<SpriteDefinition>,
}

pub struct MarkDeclaration {
    pub id: String,
    pub jp: String,
    pub ko: String,
    pub spell: String,
    pub compatible_mnemonics: Vec<String>,
    pub source_tile_start: usize,
    pub source_sha256: String,
}

/// The door-mark asset manifest.
pub struct EscapeDoorsManifest {
    pub schema_version: u32,
    pub asset_group_id: String,
    pub source_policy: String,
    pub master_asset: String,
    pub master_sha256: String,
    pub master_width: usize,
    pub master_height: usize,
    pub master_alpha_bounds: PixelBounds,
    pub panel_layout: PanelLayout,
    pub output_surface: OutputSurface,
    pub palette_line_words: Vec<String>,
    pub allowed_palette_indices: Vec<usize>,
    pub source_pack: SourcePack,
    pub protected_tile_range: TileRange,
    pub mutable_tile_range: TileRange,
    pub target_pack_bank: TargetPackBank,
    pub consumer_binding: ConsumerBinding,
    pub marks: Vec<MarkDeclaration>,
}

/// Identity of door `k`: mark id, JP kana, Korean initial, spelling and
/// first JP tile.
pub open spec fn mark_id(k: int) -> Seq<char> {
    if k == 0 {
        "GFX-ESCAPE-DOOR-HIDON"@
    } else if k == 1 {
        "GFX-ESCAPE-DOOR-JUGEM"@
    } else {
        "GFX-ESCAPE-DOOR-BAYOEN"@
    }
}

pub open spec fn mark_tile_start(k: int) -> int {
    26 + 9 * k
}

/// Door mark `k` is declared as the JP structure has it.
pub open spec fn mark_ok(mark: MarkDeclaration, k: int) -> bool {
    let mn = mark.compatible_mnemonics@;
    &&& mark.id@ == mark_id(k)
    &&& mark.source_tile_start == mark_tile_start(k)
    &&& if k == 0 {
        &&& mark.jp@ == "ひ"@
        &&& mark.ko@ == "ㅎ"@
        &&& mark.spell@ == "히돈"@
        &&& mn.len() == 1
        &&& mn[0]@ == "히돈"@
    } else if k == 1 {
        &&& mark.jp@ == "じ"@
        &&& mark.ko@ == "ㅈ"@
        &&& mark.spell@ == "쥬겜"@
        &&& mn.len() == 1
        &&& mn[0]@ == "쥬겜"@
    } else {
        &&& mark.jp@ == "ば"@
        &&& mark.ko@ == "ㅂ"@
        &&& mark.spell@ == "바요엔"@
        &&& mn.len() == 2
        &&& mn[0]@ == "바요엔"@
        &&& mn[1]@ == "브레인다므드"@
    }
}

/// Sprite record `i` has one tile word, or one per door for the central sprite.
pub open spec fn record_arity_ok(record: SpriteRecord, i: int) -> bool {
    record.tile_words@.len() == if i == 4 { 3nat } else { 1nat }
}

/// Definition `k` belongs to door `k` and resolves through the relative table.
pub open spec fn definition_declared_ok(d: SpriteDefinition, mark: MarkDeclaration) -> bool {
    &&& hex_fits(d.relative_offset@, usize::MAX as nat)
    &&& hex_fits(d.definition_offset@, usize::MAX as nat)
    &&& d.mark_id@ == mark.id@
    &&& spec_parse_hex(d.definition_offset@) == Some((0x06_721A + spec_parse_hex(d.relative_offset@).unwrap()) as nat)
}

/// Every fixed fact the door-mark manifest must declare.
pub open spec fn manifest_shape_ok(m: EscapeDoorsManifest) -> bool {
    let c = m.consumer_binding;
    &&& m.schema_version == 1
    &&& m.asset_group_id@ == "GFX-ESCAPE-DOOR-INITIALS"@
    &&& seq_contains_run(m.source_policy@, "JP"@)
    &&& seq_contains_run(m.source_policy@, "not define a unique answer set"@)
    &&& seq_contains_run(m.source_policy@, "logic remain"@)
    &&& m.master_width == 2_172
    &&& m.master_height == 724
    &&& m.master_alpha_bounds == PixelBounds { x: 0, y: 0, width: 2_172, height: 724 }
    &&& m.panel_layout.columns == 3
    &&& m.panel_layout.panel_width == 724
    &&& m.panel_layout.panel_height == 724
    &&& m.output_surface.width == 24
    &&& m.output_surface.height == 24
    &&& same_members(m.allowed_palette_indices@, seq![8usize, 10, 12, 13, 14, 15])
    &&& hex_is(m.source_pack.header_offset@, 0x07_8534)
    &&& hex_is(m.source_pack.vram_destination@, 0x5C80)
    &&& m.source_pack.decoded_bytes == 1_696
    &&& m.protected_tile_range.start == 0
    &&& m.protected_tile_range.end_exclusive == 26
    &&& m.mutable_tile_range.start == 26
    &&& m.mutable_tile_range.end_exclusive == 53
    &&& hex_is(m.target_pack_bank.offset@, 0x33_0000)
    &&& hex_is(m.target_pack_bank.limit@, 0x33_8000)
    &&& hex_is(m.target_pack_bank.fill_byte@, 0xFF)
    &&& m.marks@.len() == 3
    &&& m.panel_layout.ordered_mark_ids@.len() == 3
    &&& forall|k: int| 0 <= k < 3 ==> #[trigger] m.panel_layout.ordered_mark_ids@[k]@ == mark_id(k)
    &&& forall|k: int| 0 <= k < 3 ==> #[trigger] mark_ok(m.marks@[k], k)
    &&& hex_is(c.type_pointer_table_offset@, 0x06_AD18)
    &&& hex_is(c.type_pointer_entry_offset@, 0x06_AD94)
    &&& hex_is(c.object_type@, 0x1F)
    &&& hex_is(c.definition_table_offset@, 0x06_721A)
    &&& c.sprite_count == 9
    &&& c.records@.len() == 9
    &&& c.definitions@.len() == 3
    &&& forall|i: int| 0 <= i < 9 ==> #[trigger] record_arity_ok(c.records@[i], i)
    &&& forall|k: int| 0 <= k < 3 ==> #[trigger] definition_declared_ok(c.definitions@[k], m.marks@[k])
}

fn literal_list_is(values: &Vec<String>, first: &str, second: Option<&str>) -> (same: bool)
    ensures
        same == match second {
            None => values@.len() == 1 && values@[0]@ == first@,
            Some(s) => values@.len() == 2 && values@[0]@ == first@ && values@[1]@ == s@,
        },
{
    match second {
        None => values.len() == 1 && string_is(&values[0], first),
        Some(s) => values.len() == 2 && string_is(&values[0], first) && string_is(&values[1], s),
    }
}

fn check_mark(mark: &MarkDeclaration, k: usize) -> (result: Result<(), Error>)
    requires
        k < 3,
    ensures
        result is Ok <==> mark_ok(*mark, k as int),
{
    let ok = if k == 0 {
        string_is(&mark.id, "GFX-ESCAPE-DOOR-HIDON") && string_is(&mark.jp, "ひ") && string_is(
            &mark.ko,
            "ㅎ",
        ) && string_is(&mark.spell, "히돈") && mark.source_tile_start == 26 && literal_list_is(
            &mark.compatible_mnemonics,
            "히돈",
            None,
        )
    } else if k == 1 {
        string_is(&mark.id, "GFX-ESCAPE-DOOR-JUGEM") && string_is(&mark.jp, "じ") && string_is(
            &mark.ko,
            "ㅈ",
        ) && string_is(&mark.spell, "쥬겜") && mark.source_tile_start == 35 && literal_list_is(
            &mark.compatible_mnemonics,
            "쥬겜",
            None,
        )
    } else {
        string_is(&mark.id, "GFX-ESCAPE-DOOR-BAYOEN") && string_is(&mark.jp, "ば") && string_is(
            &mark.ko,
            "ㅂ",
        ) && string_is(&mark.spell, "바요엔") && mark.source_tile_start == 44 && literal_list_is(
            &mark.compatible_mnemonics,
            "바요엔",
            Some("브레인다므드"),
        )
    };
    if !ok {
        return Err("escape-door mark drifted");
    }
    Ok(())
}

fn mark_id_is(value: &String, k: usize) -> (same: bool)
    requires
        k < 3,
    ensures
        same == (value@ == mark_id(k as int)),
{
    if k == 0 {
        string_is(value, "GFX-ESCAPE-DOOR-HIDON")
    } else if k == 1 {
        string_is(value, "GFX-ESCAPE-DOOR-JUGEM")
    } else {
        string_is(value, "GFX-ESCAPE-DOOR-BAYOEN")
    }
}

/// Refuse a manifest whose identity, policy, geometry, palette roles, packs,
/// door marks or consumer declaration drifted.
pub fn validate_manifest_shape(manifest: &EscapeDoorsManifest) -> (result: Result<(), Error>)
    ensures
        result is Ok <==> manifest_shape_ok(*manifest),
{
    if manifest.schema_version != 1 || !string_is(&manifest.asset_group_id, "GFX-ESCAPE-DOOR-INITIALS")
        || !str_contains(manifest.source_policy.as_str(), "JP") || !str_contains(
        manifest.source_policy.as_str(),
        "not define a unique answer set",
    ) || !str_contains(manifest.source_policy.as_str(), "logic remain") {
        return Err("unsupported escape-door manifest identity or policy");
    }
    let bounds = &manifest.master_alpha_bounds;
    if manifest.master_width != 2_172 || manifest.master_height != 724 || bounds.x != 0 || bounds.y
        != 0 || bounds.width != 2_172 || bounds.height != 724 || manifest.panel_layout.columns
        != MARK_COUNT || manifest.panel_layout.panel_width != 724
        || manifest.panel_layout.panel_height != 724 || manifest.output_surface.width != MARK_WIDTH
        || manifest.output_surface.height != MARK_HEIGHT {
        return Err("escape-door master or panel geometry drifted");
    }
    if !same_usize_members(manifest.allowed_palette_indices.as_slice(), &[8, 10, 12, 13, 14, 15]) {
        return Err("escape-door palette roles drifted");
    }
    let header = parse_hex(manifest.source_pack.header_offset.as_str())?;
    let vram = parse_u16_hex(manifest.source_pack.vram_destination.as_str())?;
    let bank_offset = parse_hex(manifest.target_pack_bank.offset.as_str())?;
    let bank_limit = parse_hex(manifest.target_pack_bank.limit.as_str())?;
    let fill = parse_u8_hex(manifest.target_pack_bank.fill_byte.as_str())?;
    if header != SOURCE_HEADER_OFFSET || vram != SOURCE_VRAM_DESTINATION
        || manifest.source_pack.decoded_bytes != SOURCE_DECODED_BYTES
        || manifest.protected_tile_range.start != 0 || manifest.protected_tile_range.end_exclusive
        != PROTECTED_TILE_END || manifest.mutable_tile_range.start != PROTECTED_TILE_END
        || manifest.mutable_tile_range.end_exclusive != MUTABLE_TILE_END || bank_offset
        != TARGET_BANK_OFFSET || bank_limit != TARGET_BANK_LIMIT || fill != 0xFF {
        return Err("escape-door source or target pack declaration drifted");
    }
    let marks = &manifest.marks;
    let ids = &manifest.panel_layout.ordered_mark_ids;
    if marks.len() != MARK_COUNT || ids.len() != MARK_COUNT || !mark_id_is(&ids[0], 0)
        || !mark_id_is(&ids[1], 1) || !mark_id_is(&ids[2], 2) {
        proof {
            if marks@.len() == 3 && ids@.len() == 3 {
                if !(ids@[0]@ == mark_id(0)) {
                    assert(!(ids@[0]@ == mark_id(0)));
                } else if !(ids@[1]@ == mark_id(1)) {
                    assert(!(ids@[1]@ == mark_id(1)));
                } else {
                    assert(!(ids@[2]@ == mark_id(2)));
                }
            }
        }
        return Err("escape-door panel order drifted");
    }
    let mut k: usize = 0;
    while k < MARK_COUNT
        invariant
            *marks == manifest.marks,
            marks@.len() == 3,
            k <= 3,
            forall|j: int| 0 <= j < k ==> #[trigger] mark_ok(marks@[j], j),
        decreases 3 - k,
    {
        check_mark(&marks[k], k)?;
        k = k + 1;
    }
    let consumer = &manifest.consumer_binding;
    let table = parse_hex(consumer.type_pointer_table_offset.as_str())?;
    let entry = parse_hex(consumer.type_pointer_entry_offset.as_str())?;
    let object_type = parse_hex(consumer.object_type.as_str())?;
    let definitions_at = parse_hex(consumer.definition_table_offset.as_str())?;
    if table != TYPE_POINTER_TABLE_OFFSET || entry != TYPE_POINTER_ENTRY_OFFSET || object_type
        != OBJECT_TYPE || definitions_at != DEFINITION_TABLE_OFFSET || consumer.sprite_count
        != SPRITE_COUNT || consumer.records.len() != SPRITE_COUNT || consumer.definitions.len()
        != MARK_COUNT {
        return Err("escape-door consumer declaration drifted");
    }
    let mut i: usize = 0;
    while i < SPRITE_COUNT
        invariant
            *consumer == manifest.consumer_binding,
            consumer.records@.len() == 9,
            i <= 9,
            forall|j: int| 0 <= j < i ==> #[trigger] record_arity_ok(consumer.records@[j], j),
        decreases 9 - i,
    {
        let expected = if i == 4 { MARK_COUNT } else { 1 };
        if consumer.records[i].tile_words.len() != expected {
            assert(!record_arity_ok(consumer.records@[i as int], i as int));
            return Err("escape-door sprite record has the wrong tile-word arity");
        }
        i = i + 1;
    }
    let mut d: usize = 0;
    while d < MARK_COUNT
        invariant
            *consumer == manifest.consumer_binding,
            *marks == manifest.marks,
            marks@.len() == 3,
            consumer.definitions@.len() == 3,
            d <= 3,
            forall|j: int| 0 <= j < d ==> #[trigger] definition_declared_ok(consumer.definitions@[j], marks@[j]),
        decreases 3 - d,
    {
        let definition = &consumer.definitions[d];
        let relative = match parse_hex(definition.relative_offset.as_str()) {
            Ok(v) => v,
            Err(e) => {
                assert(!definition_declared_ok(consumer.definitions@[d as int], marks@[d as int]));
                return Err(e);
            },
        };
        let offset = match parse_hex(definition.definition_offset.as_str()) {
            Ok(v) => v,
            Err(e) => {
                assert(!definition_declared_ok(consumer.definitions@[d as int], marks@[d as int]));
                return Err(e);
            },
        };
        if !str_eq(definition.mark_id.as_str(), marks[d].id.as_str()) || relative
            > usize::MAX - DEFINITION_TABLE_OFFSET || offset != DEFINITION_TABLE_OFFSET + relative {
            assert(!definition_declared_ok(consumer.definitions@[d as int], marks@[d as int]));
            return Err("escape-door definition no longer resolves through its relative table");
        }
        d = d + 1;
    }
    Ok(())
}

/// The decoded JP door-mark transfer is the declared one.
pub open spec fn source_pack_ok(decoded: DecodedPack, m: EscapeDoorsManifest) -> bool {
    &&& decoded.header_offset == 0x07_8534
    &&& decoded.vram_destination == 0x5C80
    &&& decoded.data@.len() == 1_696
    &&& sha256_hex_of(decoded.data@) == m.source_pack.decoded_sha256@
}

/// Accept the JP transfer decoded at the door-mark header only when its
/// destination, length and SHA-256 are the declared ones; yield its bytes.
pub fn checked_source_pack(decoded: &DecodedPack, manifest: &EscapeDoorsManifest) -> (payload: Result<
    Vec<u8>,
    Error,
>)
    ensures
        payload is Ok <==> source_pack_ok(*decoded, *manifest),
        payload matches Ok(p) ==> p@ == decoded.data@,
{
    if decoded.header_offset != SOURCE_HEADER_OFFSET || decoded.vram_destination
        != SOURCE_VRAM_DESTINATION || decoded.data.len() != SOURCE_DECODED_BYTES {
        return Err("escape-door JP pack geometry drifted");
    }
    let hash = sha256_hex(decoded.data.as_slice());
    if !str_eq(hash.as_str(), manifest.source_pack.decoded_sha256.as_str()) {
        return Err("escape-door JP pack SHA-256 mismatch");
    }
    Ok(decoded.data.clone())
}

/// The decorative prefix, the mutable range and each JP panel hash as
/// declared.
pub open spec fn source_ranges_ok(payload: Seq<u8>, m: EscapeDoorsManifest) -> bool {
    &&& sha256_hex_of(payload.subrange(0, 832)) == m.protected_tile_range.decoded_sha256@
    &&& sha256_hex_of(payload.subrange(832, 1_696)) == m.mutable_tile_range.decoded_sha256@
    &&& forall|k: int|
        0 <= k < 3 ==> #[trigger] sha256_hex_of(payload.subrange(mark_tile_start(k) * 32, mark_tile_start(k) * 32 + 288))
            == m.marks@[k].source_sha256@
}

/// Refuse a JP transfer whose decorative prefix, mutable range or panels
/// drifted from their declared SHA-256.
pub fn validate_source_ranges(source_payload: &[u8], manifest: &EscapeDoorsManifest) -> (result:
    Result<(), Error>)
    requires
        manifest_shape_ok(*manifest),
        source_payload@.len() == 1_696,
    ensures
        result is Ok <==> source_ranges_ok(source_payload@, *manifest),
{
    let protected_end = PROTECTED_TILE_END * MD_TILE_BYTES;
    let hash = sha256_hex(&source_payload[0..protected_end]);
    if !str_eq(hash.as_str(), manifest.protected_tile_range.decoded_sha256.as_str()) {
        return Err("escape-door protected decorative tile hash drifted");
    }
    let mutable_end = MUTABLE_TILE_END * MD_TILE_BYTES;
    let hash = sha256_hex(&source_payload[protected_end..mutable_end]);
    if !str_eq(hash.as_str(), manifest.mutable_tile_range.decoded_sha256.as_str()) {
        return Err("escape-door mutable tile-range hash drifted");
    }
    let mut k: usize = 0;
    while k < MARK_COUNT
        invariant
            manifest_shape_ok(*manifest),
            source_payload@.len() == 1_696,
            k <= 3,
            forall|j: int|
                0 <= j < k ==> #[trigger] sha256_hex_of(source_payload@.subrange(mark_tile_start(j) * 32, mark_tile_start(j) * 32 + 288))
                    == manifest.marks@[j].source_sha256@,
        decreases 3 - k,
    {
        let mark = &manifest.marks[k];
        proof {
            assert(mark_ok(manifest.marks@[k as int], k as int));
        }
        let start = mark.source_tile_start * MD_TILE_BYTES;
        let end = start + MARK_TILES * MD_TILE_BYTES;
        let hash = sha256_hex(&source_payload[start..end]);
        if !str_eq(hash.as_str(), mark.source_sha256.as_str()) {
            return Err("escape-door JP panel tile hash drifted");
        }
        k = k + 1;
    }
    Ok(())
}

/// Text of the tile word that sprite record `record` uses in definition
/// `index`: its only word, or the per-door word of the central sprite.
pub open spec fn tile_word_text(record: SpriteRecord, index: int) -> Option<Seq<char>> {
    if record.tile_words@.len() == 1 {
        Some(record.tile_words@[0]@)
    } else if 0 <= index < record.tile_words@.len() {
        Some(record.tile_words@[index]@)
    } else {
        None
    }
}

/// The record has a tile word for definition `index` and four 16-bit words.
pub open spec fn door_record_ok(record: SpriteRecord, index: int) -> bool {
    &&& tile_word_text(record, index) is Some
    &&& crate::sprite::record_words_fit(record.y@, record.size_link@, tile_word_text(record, index).unwrap(), record.x@)
}

/// The bytes of the records of definition `index`.
pub open spec fn door_records_bytes(records: Seq<SpriteRecord>, index: int) -> Seq<u8>
    decreases records.len(),
{
    if records.len() == 0 {
        Seq::empty()
    } else {
        let last = records.last();
        door_records_bytes(records.drop_last(), index) + crate::sprite::record_bytes(
            last.y@,
            last.size_link@,
            tile_word_text(last, index).unwrap(),
            last.x@,
        )
    }
}

/// Sprite definition `index` as the manifest declares it: nine sprites.
pub open spec fn door_definition_bytes(c: ConsumerBinding, index: int) -> Seq<u8> {
    word_bytes(9) + door_records_bytes(c.records@, index)
}

/// Encode the declared sprite definition of door `index`.
pub fn encode_sprite_definition(consumer: &ConsumerBinding, definition_index: usize) -> (encoded:
    Result<Vec<u8>, Error>)
    ensures
        encoded is Ok <==> forall|i: int|
            0 <= i < consumer.records@.len() ==> #[trigger] door_record_ok(consumer.records@[i], definition_index as int),
        encoded matches Ok(bytes) ==> bytes@ == door_definition_bytes(*consumer, definition_index as int),
{
    let records = &consumer.records;
    let mut output: Vec<u8> = Vec::with_capacity(SPRITE_DEFINITION_BYTES);
    append_word(&mut output, SPRITE_COUNT as u16);
    let mut i: usize = 0;
    while i < records.len()
        invariant
            *records == consumer.records,
            i <= records@.len(),
            forall|j: int| 0 <= j < i ==> #[trigger] door_record_ok(records@[j], definition_index as int),
            output@ == word_bytes(9) + door_records_bytes(records@.take(i as int), definition_index as int),
        decreases records@.len() - i,
    {
        let record = &records[i];
        let tile_word = if record.tile_words.len() == 1 {
            &record.tile_words[0]
        } else if definition_index < record.tile_words.len() {
            &record.tile_words[definition_index]
        } else {
            assert(!door_record_ok(records@[i as int], definition_index as int));
            return Err("escape-door per-definition tile word is absent");
        };
        match crate::sprite::append_record(&mut output, &record.y, &record.size_link, tile_word, &record.x) {
            Ok(()) => {},
            Err(e) => {
                assert(!door_record_ok(records@[i as int], definition_index as int));
                return Err(e);
            },
        }
        proof {
            assert(records@.take(i + 1).drop_last() =~= records@.take(i as int));
            assert(records@.take(i + 1).last() == records@[i as int]);
        }
        i = i + 1;
    }
    assert(records@.take(records@.len() as int) =~= records@);
    Ok(output)
}

/// The central sprite of door `k` shows its 3x3 panel: flags 0xA000 and a
/// tile index `start` tiles into the transfer (which begins at tile 740).
pub open spec fn central_word_ok(word: int, start: int) -> bool {
    &&& word / 2048 == 20
    &&& word % 2048 >= 740
    &&& word % 2048 - 740 == start
}

/// Definition `k` is bound in the ROM as the manifest declares it.
pub open spec fn definition_bound_ok(rom: Seq<u8>, m: EscapeDoorsManifest, k: int) -> bool {
    let c = m.consumer_binding;
    let d = c.definitions@[k];
    let offset = spec_parse_hex(d.definition_offset@).unwrap() as int;
    let central = c.records@[4].tile_words@[k]@;
    &&& be16(rom, 0x06_721A + 2 * k) == spec_parse_hex(d.relative_offset@).unwrap()
    &&& forall|i: int| 0 <= i < 9 ==> #[trigger] door_record_ok(c.records@[i], k)
    &&& offset + 74 <= rom.len()
    &&& rom.subrange(offset, offset + 74) == door_definition_bytes(c, k)
    &&& sha256_hex_of(rom.subrange(offset, offset + 74)) == d.source_sha256@
    &&& hex_fits(central, u16::MAX as nat)
    &&& central_word_ok(spec_parse_hex(central).unwrap() as int, m.marks@[k].source_tile_start as int)
}

/// The ending-escape object type still points at the door definitions,
/// the relative table hashes as declared, and every definition is bound.
pub open spec fn consumer_ok(rom: Seq<u8>, m: EscapeDoorsManifest) -> bool {
    &&& 0x06_AD94 + 4 <= rom.len()
    &&& be32(rom, 0x06_AD94) == 0x06_721A
    &&& 0x06_721A + 6 <= rom.len()
    &&& sha256_hex_of(rom.subrange(0x06_721A, 0x06_7220)) == m.consumer_binding.definition_table_sha256@
    &&& forall|k: int| 0 <= k < 3 ==> #[trigger] definition_bound_ok(rom, m, k)
}

fn check_definition_binding(rom: &[u8], table: &[u8], manifest: &EscapeDoorsManifest, index: usize) -> (result: Result<
    (),
    Error,
>)
    requires
        manifest_shape_ok(*manifest),
        index < 3,
        0x06_721A + 6 <= rom@.len(),
        table@ == rom@.subrange(0x06_721A, 0x06_7220),
    ensures
        result is Ok <==> definition_bound_ok(rom@, *manifest, index as int),
{
    let consumer = &manifest.consumer_binding;
    let definition = &consumer.definitions[index];
    proof {
        assert(definition_declared_ok(consumer.definitions@[index as int], manifest.marks@[index as int]));
        assert(mark_ok(manifest.marks@[index as int], index as int));
        assert(record_arity_ok(consumer.records@[4], 4));
    }
    let table_relative = read_be16(table, index * 2) as usize;
    let declared_relative = parse_hex(definition.relative_offset.as_str())?;
    if table_relative != declared_relative {
        return Err("escape-door relative definition offset drifted");
    }
    let expected = encode_sprite_definition(consumer, index)?;
    let offset = parse_hex(definition.definition_offset.as_str())?;
    let actual = match source_range(rom, offset, SPRITE_DEFINITION_BYTES) {
        Ok(actual) => actual,
        Err(e) => {
            return Err(e);
        },
    };
    assert(expected@.len() == 74) by {
        assert(door_definition_bytes(*consumer, index as int) == expected@);
        lemma_door_records_len(consumer.records@, index as int);
    }
    if !bytes_equal(actual, expected.as_slice()) {
        return Err("escape-door sprite definition drifted");
    }
    let hash = sha256_hex(actual);
    if !str_eq(hash.as_str(), definition.source_sha256.as_str()) {
        return Err("escape-door sprite definition hash drifted");
    }
    let central = parse_u16_hex(consumer.records[4].tile_words[index].as_str())?;
    let tile = (central % 2048) as usize;
    if central / 2048 != 20 || tile < 740 || tile - 740 != manifest.marks[index].source_tile_start {
        return Err("escape-door central sprite no longer selects its 3x3 panel");
    }
    Ok(())
}

proof fn lemma_door_records_len(records: Seq<SpriteRecord>, index: int)
    ensures
        door_records_bytes(records, index).len() == 8 * records.len(),
    decreases records.len(),
{
    if records.len() > 0 {
        lemma_door_records_len(records.drop_last(), index);
    }
}

/// Refuse a ROM whose object-type pointer, relative definition table or
/// door sprite definitions no longer bind the three JP panels.
pub fn validate_consumer_binding(rom: &[u8], manifest: &EscapeDoorsManifest) -> (result: Result<
    (),
    Error,
>)
    requires
        manifest_shape_ok(*manifest),
    ensures
        result is Ok <==> consumer_ok(rom@, *manifest),
{
    let pointer = source_range(rom, TYPE_POINTER_ENTRY_OFFSET, 4)?;
    if read_be32(pointer, 0) as usize != DEFINITION_TABLE_OFFSET {
        return Err("escape-door object type no longer points to its definition table");
    }
    let table = source_range(rom, DEFINITION_TABLE_OFFSET, MARK_COUNT * 2)?;
    let hash = sha256_hex(table);
    if !str_eq(hash.as_str(), manifest.consumer_binding.definition_table_sha256.as_str()) {
        return Err("escape-door relative definition table hash drifted");
    }
    let mut index: usize = 0;
    while index < MARK_COUNT
        invariant
            manifest_shape_ok(*manifest),
            0x06_721A + 6 <= rom@.len(),
            table@ == rom@.subrange(0x06_721A, 0x06_7220),
            index <= 3,
            forall|k: int| 0 <= k < index ==> #[trigger] definition_bound_ok(rom@, *manifest, k),
        decreases 3 - index,
    {
        check_definition_binding(rom, table, manifest, index)?;
        index = index + 1;
    }
    Ok(())
}

/// Channel `c` of master pixel (`x`, `y`) weighted by its alpha; channel 3
/// is the alpha itself.
pub open spec fn alpha_term(master: Seq<u8>, x: int, y: int, c: int) -> int {
    let offset = (y * 2_172 + x) * 4;
    if c == 3 {
        master[offset + 3] as int
    } else {
        master[offset + c] as int * master[offset + 3] as int
    }
}

/// Sum of `alpha_term` over master row `y`, columns `x0..x1`.
pub open spec fn alpha_row_sum(master: Seq<u8>, x0: int, x1: int, y: int, c: int) -> int
    decreases x1 - x0,
{
    if x1 <= x0 {
        0
    } else {
        alpha_row_sum(master, x0, x1 - 1, y, c) + alpha_term(master, x1 - 1, y, c)
    }
}

/// Sum of `alpha_term` over the master box `x0..x1` by `y0..y1`.
pub open spec fn alpha_box_sum(master: Seq<u8>, x0: int, x1: int, y0: int, y1: int, c: int) -> int
    decreases y1 - y0,
{
    if y1 <= y0 {
        0
    } else {
        alpha_box_sum(master, x0, x1, y0, y1 - 1, c) + alpha_row_sum(master, x0, x1, y1 - 1, c)
    }
}

/// The master box that target pixel (`tx`, `ty`) of panel `panel` averages.
pub open spec fn box_x0(panel: int, tx: int) -> int {
    panel * 724 + tx * 724 / 24
}

pub open spec fn box_y0(ty: int) -> int {
    ty * 724 / 24
}

/// Total alpha of the master box of target pixel (`tx`, `ty`).
pub open spec fn box_alpha(master: Seq<u8>, panel: int, tx: int, ty: int) -> int {
    alpha_box_sum(master, box_x0(panel, tx), box_x0(panel, tx + 1), box_y0(ty), box_y0(ty + 1), 3)
}

/// Alpha-weighted mean colour of the master box of target pixel (`tx`, `ty`),
/// rounded to the nearest level.
pub open spec fn panel_color(master: Seq<u8>, panel: int, tx: int, ty: int) -> Seq<u8> {
    let a = box_alpha(master, panel, tx, ty);
    let x0 = box_x0(panel, tx);
    let x1 = box_x0(panel, tx + 1);
    let y0 = box_y0(ty);
    let y1 = box_y0(ty + 1);
    seq![
        ((alpha_box_sum(master, x0, x1, y0, y1, 0) + a / 2) / a) as u8,
        ((alpha_box_sum(master, x0, x1, y0, y1, 1) + a / 2) / a) as u8,
        ((alpha_box_sum(master, x0, x1, y0, y1, 2) + a / 2) / a) as u8,
    ]
}

/// Every target pixel of panel `panel` samples some opaque master pixel.
pub open spec fn panel_opaque(master: Seq<u8>, panel: int) -> bool {
    forall|tx: int, ty: int| 0 <= tx < 24 && 0 <= ty < 24 ==> #[trigger] box_alpha(master, panel, tx, ty) > 0
}

/// Pixel `i` of the 24x24 Korean panel is the admitted palette index nearest
/// to its mean colour (the earliest admitted one on a tie).
pub open spec fn panel_pixel_is(master: Seq<u8>, m: EscapeDoorsManifest, palette: Seq<u16>, panel: int, i: int, value: u8) -> bool {
    exists|p: int|
        is_nearest_allowed(panel_color(master, panel, i % 24, i / 24), palette, m.allowed_palette_indices@, p)
            && value == m.allowed_palette_indices@[p] as u8
}

/// The four channels of master pixel (`x`, `y`).
pub open spec fn master_pixel(master: Seq<u8>, x: int, y: int) -> (u8, u8, u8, u8) {
    let o = (y * 2_172 + x) * 4;
    (master[o], master[o + 1], master[o + 2], master[o + 3])
}

proof fn lemma_alpha_row_agree(a: Seq<u8>, b: Seq<u8>, x0: int, x1: int, y: int, c: int)
    requires
        0 <= c <= 3,
        forall|x: int| x0 <= x < x1 ==> #[trigger] master_pixel(a, x, y) == master_pixel(b, x, y),
    ensures
        alpha_row_sum(a, x0, x1, y, c) == alpha_row_sum(b, x0, x1, y, c),
    decreases x1 - x0,
{
    if x0 < x1 {
        lemma_alpha_row_agree(a, b, x0, x1 - 1, y, c);
        assert(master_pixel(a, x1 - 1, y) == master_pixel(b, x1 - 1, y));
        assert(alpha_term(a, x1 - 1, y, c) == alpha_term(b, x1 - 1, y, c));
    }
}

proof fn lemma_alpha_box_agree(a: Seq<u8>, b: Seq<u8>, x0: int, x1: int, y0: int, y1: int, c: int)
    requires
        0 <= c <= 3,
        forall|x: int, y: int| x0 <= x < x1 && y0 <= y < y1 ==> #[trigger] master_pixel(a, x, y) == master_pixel(b, x, y),
    ensures
        alpha_box_sum(a, x0, x1, y0, y1, c) == alpha_box_sum(b, x0, x1, y0, y1, c),
    decreases y1 - y0,
{
    if y0 < y1 {
        lemma_alpha_box_agree(a, b, x0, x1, y0, y1 - 1, c);
        assert forall|x: int| x0 <= x < x1 implies #[trigger] master_pixel(a, x, y1 - 1) == master_pixel(b, x, y1 - 1) by {}
        lemma_alpha_row_agree(a, b, x0, x1, y1 - 1, c);
    }
}

/// The master box of target pixel (`tx`, `ty`) of panel `panel` lies inside
/// that panel's third of the master: columns `panel * 724 .. panel * 724 + 724`.
pub proof fn lemma_panel_box_inside_panel(panel: int, tx: int, ty: int)
    requires
        0 <= panel < 3,
        0 <= tx < 24,
        0 <= ty < 24,
    ensures
        panel * 724 <= box_x0(panel, tx) < box_x0(panel, tx + 1) <= panel * 724 + 724,
        0 <= box_y0(ty) < box_y0(ty + 1) <= 724,
{
    assert(0 <= tx * 724 / 24 < (tx + 1) * 724 / 24 <= 724) by (nonlinear_arith)
        requires
            0 <= tx < 24,
    ;
    assert(0 <= ty * 724 / 24 < (ty + 1) * 724 / 24 <= 724) by (nonlinear_arith)
        requires
            0 <= ty < 24,
    ;
}

/// Door panel `panel` is reduced from its own third of the master alone:
/// two masters that agree on every pixel of columns
/// `panel * 724 .. panel * 724 + 724` give the panel the same opacity verdict
/// and the same palette index at every pixel, whatever the other panels hold.
pub proof fn lemma_panel_reads_own_columns(
    a: Seq<u8>,
    b: Seq<u8>,
    m: EscapeDoorsManifest,
    palette: Seq<u16>,
    panel: int,
)
    requires
        0 <= panel < 3,
        forall|x: int, y: int|
            panel * 724 <= x < panel * 724 + 724 && 0 <= y < 724 ==> #[trigger] master_pixel(a, x, y) == master_pixel(
                b,
                x,
                y,
            ),
    ensures
        panel_opaque(a, panel) == panel_opaque(b, panel),
        forall|i: int, v: u8|
            0 <= i < 576 ==> (#[trigger] panel_pixel_is(a, m, palette, panel, i, v) <==> panel_pixel_is(
                b,
                m,
                palette,
                panel,
                i,
                v,
            )),
{
    assert forall|tx: int, ty: int| 0 <= tx < 24 && 0 <= ty < 24 implies #[trigger] panel_color(a, panel, tx, ty)
        == panel_color(b, panel, tx, ty) && box_alpha(a, panel, tx, ty) == box_alpha(b, panel, tx, ty) by {
        lemma_panel_box_inside_panel(panel, tx, ty);
        let x0 = box_x0(panel, tx);
        let x1 = box_x0(panel, tx + 1);
        let y0 = box_y0(ty);
        let y1 = box_y0(ty + 1);
        assert forall|x: int, y: int| x0 <= x < x1 && y0 <= y < y1 implies #[trigger] master_pixel(a, x, y)
            == master_pixel(b, x, y) by {}
        lemma_alpha_box_agree(a, b, x0, x1, y0, y1, 0);
        lemma_alpha_box_agree(a, b, x0, x1, y0, y1, 1);
        lemma_alpha_box_agree(a, b, x0, x1, y0, y1, 2);
        lemma_alpha_box_agree(a, b, x0, x1, y0, y1, 3);
        assert(panel_color(a, panel, tx, ty) =~= panel_color(b, panel, tx, ty));
    }
    assert(panel_opaque(a, panel) == panel_opaque(b, panel)) by {
        if panel_opaque(a, panel) {
            assert forall|tx: int, ty: int| 0 <= tx < 24 && 0 <= ty < 24 implies #[trigger] box_alpha(b, panel, tx, ty) > 0 by {
                assert(panel_color(a, panel, tx, ty) == panel_color(b, panel, tx, ty));
            }
        }
        if panel_opaque(b, panel) {
            assert forall|tx: int, ty: int| 0 <= tx < 24 && 0 <= ty < 24 implies #[trigger] box_alpha(a, panel, tx, ty) > 0 by {
                assert(panel_color(a, panel, tx, ty) == panel_color(b, panel, tx, ty));
            }
        }
    }
    assert forall|i: int, v: u8| 0 <= i < 576 implies (#[trigger] panel_pixel_is(a, m, palette, panel, i, v)
        <==> panel_pixel_is(b, m, palette, panel, i, v)) by {
        crate::grid::lemma_split_index(i, 24, 24);
        assert(panel_color(a, panel, i % 24, i / 24) == panel_color(b, panel, i % 24, i / 24));
    }
}

proof fn lemma_alpha_row_bounds(master: Seq<u8>, x0: int, x1: int, y: int, c: int)
    requires
        0 <= x0 <= x1 <= 2_172,
        0 <= y < 724,
        master.len() == 2_172 * 724 * 4,
        0 <= c < 3,
    ensures
        0 <= alpha_row_sum(master, x0, x1, y, c) <= 255 * alpha_row_sum(master, x0, x1, y, 3),
        0 <= alpha_row_sum(master, x0, x1, y, 3) <= 255 * (x1 - x0),
    decreases x1 - x0,
{
    if x1 > x0 {
        lemma_alpha_row_bounds(master, x0, x1 - 1, y, c);
        let offset = (y * 2_172 + (x1 - 1)) * 4;
        assert(0 <= offset && offset + 3 < master.len()) by (nonlinear_arith)
            requires
                0 <= y < 724,
                0 <= x1 - 1 < 2_172,
                offset == (y * 2_172 + (x1 - 1)) * 4,
                master.len() == 2_172 * 724 * 4,
        ;
        let f = master[offset + c] as int;
        let a = master[offset + 3] as int;
        assert(0 <= f * a <= 255 * a) by (nonlinear_arith)
            requires
                0 <= f <= 255,
                0 <= a <= 255,
        ;
    }
}

proof fn lemma_alpha_box_bounds(master: Seq<u8>, x0: int, x1: int, y0: int, y1: int, c: int)
    requires
        0 <= x0 <= x1 <= 2_172,
        0 <= y0 <= y1 <= 724,
        master.len() == 2_172 * 724 * 4,
        0 <= c < 3,
    ensures
        0 <= alpha_box_sum(master, x0, x1, y0, y1, c) <= 255 * alpha_box_sum(master, x0, x1, y0, y1, 3),
        0 <= alpha_box_sum(master, x0, x1, y0, y1, 3) <= 255 * (x1 - x0) * (y1 - y0),
    decreases y1 - y0,
{
    if y1 > y0 {
        lemma_alpha_box_bounds(master, x0, x1, y0, y1 - 1, c);
        lemma_alpha_row_bounds(master, x0, x1, y1 - 1, c);
        assert(255 * (x1 - x0) * (y1 - 1 - y0) + 255 * (x1 - x0) == 255 * (x1 - x0) * (y1 - y0)) by (nonlinear_arith);
    }
}

proof fn lemma_mean_bound(w: int, a: int)
    requires
        a > 0,
        0 <= w <= 255 * a,
    ensures
        (w + a / 2) / a <= 255,
        w + a / 2 <= 256 * a,
{
    assert((w + a / 2) / a <= 255 && w + a / 2 <= 256 * a) by (nonlinear_arith)
        requires
            a > 0,
            0 <= w <= 255 * a,
    ;
}

/// Alpha-weighted sum of channel `c` (the alpha itself for 3) over a box.
fn alpha_box_total(master: &[u8], x0: usize, x1: usize, y0: usize, y1: usize, c: usize) -> (total: u64)
    requires
        x0 <= x1 <= 2_172,
        x1 - x0 <= 724,
        y0 <= y1 <= 724,
        master@.len() == 2_172 * 724 * 4,
        c < 4,
    ensures
        total as int == alpha_box_sum(master@, x0 as int, x1 as int, y0 as int, y1 as int, c as int),
        total <= 65_025 * 725 * 724,
{
    let mut total: u64 = 0;
    let mut y = y0;
    let ghost mut steps: int = 0;
    while y < y1
        invariant
            x0 <= x1 <= 2_172,
            x1 - x0 <= 724,
            y0 <= y <= y1 <= 724,
            master@.len() == 2_172 * 724 * 4,
            c < 4,
            0 <= steps <= (y - y0) * 725,
            total <= 65_025 * steps,
            total as int == alpha_box_sum(master@, x0 as int, x1 as int, y0 as int, y as int, c as int),
        decreases y1 - y,
    {
        let mut x = x0;
        while x < x1
            invariant
                x0 <= x <= x1 <= 2_172,
                x1 - x0 <= 724,
                y0 <= y < y1 <= 724,
                master@.len() == 2_172 * 724 * 4,
                c < 4,
                0 <= steps <= (y - y0) * 725 + (x - x0),
                total <= 65_025 * steps,
                total as int == alpha_box_sum(master@, x0 as int, x1 as int, y0 as int, y as int, c as int)
                    + alpha_row_sum(master@, x0 as int, x as int, y as int, c as int),
            decreases x1 - x,
        {
            proof {
                assert(0 <= (y * 2_172 + x) * 4 && (y * 2_172 + x) * 4 + 3 < master@.len()) by (nonlinear_arith)
                    requires
                        y < 724,
                        x < 2_172,
                        master@.len() == 2_172 * 724 * 4,
                ;
            }
            let offset = (y * 2_172 + x) * 4;
            let alpha = master[offset + 3] as u64;
            let channel = master[offset + c] as u64;
            assert(channel * alpha <= 65_025) by (nonlinear_arith)
                requires
                    channel <= 255,
                    alpha <= 255,
            ;
            let term = if c == 3 {
                alpha
            } else {
                channel * alpha
            };
            total = total + term;
            proof {
                steps = steps + 1;
            }
            x = x + 1;
        }
        y = y + 1;
    }
    total
}

/// Area-reduce door panel `panel` of the Korean master to a 24x24 surface:
/// each pixel takes the alpha-weighted mean of its master box and the
/// nearest admitted palette index.
pub fn reduce_master_panel(
    master: &[u8],
    panel: usize,
    manifest: &EscapeDoorsManifest,
    palette: &[u16; 16],
) -> (surface: Result<Vec<u8>, Error>)
    requires
        manifest_shape_ok(*manifest),
    ensures
        surface is Ok <==> (panel < 3 && master@.len() == 2_172 * 724 * 4 && panel_opaque(master@, panel as int)),
        surface matches Ok(p) ==> p@.len() == 576 && forall|i: int|
            0 <= i < 576 ==> #[trigger] panel_pixel_is(master@, *manifest, palette@, panel as int, i, p@[i]),
{
    if panel >= MARK_COUNT || master.len() != manifest.master_width * manifest.master_height * 4 {
        return Err("escape-door master panel contract is invalid");
    }
    proof {
        assert(allowed_indices_ok(manifest.allowed_palette_indices@)) by {
            assert(manifest.allowed_palette_indices@.contains(8usize)) by {
                assert(seq![8usize, 10, 12, 13, 14, 15][0] == 8);
            }
            assert forall|m: int| 0 <= m < manifest.allowed_palette_indices@.len() implies #[trigger] manifest.allowed_palette_indices@[m] < 16 by {
                let v = manifest.allowed_palette_indices@[m];
                assert(manifest.allowed_palette_indices@.contains(v));
                assert(seq![8usize, 10, 12, 13, 14, 15].contains(v));
            }
        }
    }
    let panel_x = panel * 724;
    let mut output: Vec<u8> = Vec::with_capacity(576);
    let mut i: usize = 0;
    while i < 576
        invariant
            manifest_shape_ok(*manifest),
            allowed_indices_ok(manifest.allowed_palette_indices@),
            panel < 3,
            panel_x == panel * 724,
            master@.len() == 2_172 * 724 * 4,
            i <= 576,
            output@.len() == i,
            forall|q: int| 0 <= q < i ==> #[trigger] panel_pixel_is(master@, *manifest, palette@, panel as int, q, output@[q]),
            forall|tx: int, ty: int| 0 <= tx < 24 && 0 <= ty < 24 && ty * 24 + tx < i ==> #[trigger] box_alpha(master@, panel as int, tx, ty) > 0,
        decreases 576 - i,
    {
        let tx = i % 24;
        let ty = i / 24;
        let x0 = panel_x + tx * 724 / 24;
        let x1 = panel_x + (tx + 1) * 724 / 24;
        let y0 = ty * 724 / 24;
        let y1 = (ty + 1) * 724 / 24;
        let alpha = alpha_box_total(master, x0, x1, y0, y1, 3);
        if alpha == 0 {
            assert(!panel_opaque(master@, panel as int)) by {
                assert(box_alpha(master@, panel as int, tx as int, ty as int) == 0);
            }
            return Err("escape-door panel has a transparent output sample");
        }
        let r = alpha_box_total(master, x0, x1, y0, y1, 0);
        let g = alpha_box_total(master, x0, x1, y0, y1, 1);
        let b = alpha_box_total(master, x0, x1, y0, y1, 2);
        proof {
            lemma_alpha_box_bounds(master@, x0 as int, x1 as int, y0 as int, y1 as int, 0);
            lemma_alpha_box_bounds(master@, x0 as int, x1 as int, y0 as int, y1 as int, 1);
            lemma_alpha_box_bounds(master@, x0 as int, x1 as int, y0 as int, y1 as int, 2);
            let a = alpha as int;
            lemma_mean_bound(r as int, a);
            lemma_mean_bound(g as int, a);
            lemma_mean_bound(b as int, a);
            assert(a <= 65_025 * 725 * 724);
        }
        let color = [
            ((r + alpha / 2) / alpha) as u8,
            ((g + alpha / 2) / alpha) as u8,
            ((b + alpha / 2) / alpha) as u8,
        ];
        assert(color@ =~= panel_color(master@, panel as int, tx as int, ty as int));
        let chosen = nearest_palette_index(color, palette, manifest.allowed_palette_indices.as_slice())?;
        proof {
            let p = choose|p: int|
                is_nearest_allowed(color@, palette@, manifest.allowed_palette_indices@, p)
                    && manifest.allowed_palette_indices@[p] == chosen;
            assert(chosen < 16);
        }
        output.push(chosen as u8);
        proof {
            assert forall|px: int, py: int| 0 <= px < 24 && 0 <= py < 24 && py * 24 + px < i + 1 implies #[trigger] box_alpha(master@, panel as int, px, py) > 0 by {
                if py * 24 + px == i {
                    crate::grid::lemma_row_col(py, px, 24);
                }
            }
        }
        i = i + 1;
    }
    proof {
        assert forall|tx: int, ty: int| 0 <= tx < 24 && 0 <= ty < 24 implies #[trigger] box_alpha(master@, panel as int, tx, ty) > 0 by {
            assert(ty * 24 + tx < 576);
        }
    }
    Ok(output)
}

/// A compiled door-mark set before its pack is encoded.
pub struct EscapeDoorsBuild {
    pub manifest: EscapeDoorsManifest,
    pub palette: [u16; 16],
    pub source_payload: Vec<u8>,
    pub payload: Vec<u8>,
    pub source_surfaces: Vec<Vec<u8>>,
    pub target_surfaces: Vec<Vec<u8>>,
}

/// Three 24x24 surfaces of 4-bit pixels.
pub open spec fn surfaces_wf(surfaces: Seq<Vec<u8>>) -> bool {
    &&& surfaces.len() == 3
    &&& forall|k: int| 0 <= k < 3 ==> #[trigger] surfaces[k]@.len() == 576 && all_nibbles(surfaces[k]@)
}

/// A build whose six panels the preview can draw.
pub open spec fn build_wf(build: EscapeDoorsBuild) -> bool {
    &&& surfaces_wf(build.source_surfaces@)
    &&& surfaces_wf(build.target_surfaces@)
    &&& build.source_payload@.len() == 1_696
}

/// The JP panel of door `k`, decoded from its nine column-major tiles.
pub open spec fn source_panel(payload: Seq<u8>, k: int) -> Seq<u8> {
    Seq::new(576, |i: int| column_major_pixel_value(payload.subrange(mark_tile_start(k) * 32, mark_tile_start(k) * 32 + 288), 24, 24, i))
}

/// Everything the door-mark compiler requires of its inputs.
pub open spec fn build_inputs_ok(source: Seq<u8>, m: EscapeDoorsManifest, decoded: DecodedPack, master: Seq<u8>) -> bool {
    &&& manifest_shape_ok(m)
    &&& palette_declared(m.palette_line_words@.map_values(|w: String| w@))
    &&& source_pack_ok(decoded, m)
    &&& source_ranges_ok(decoded.data@, m)
    &&& consumer_ok(source, m)
    &&& master.len() == 2_172 * 724 * 4
    &&& forall|k: int| 0 <= k < 3 ==> #[trigger] panel_opaque(master, k)
}

/// Byte `q` of the rewritten transfer: the JP decorative prefix, then the
/// column-major tiles of the three Korean panels.
pub open spec fn payload_byte(source_payload: Seq<u8>, targets: Seq<Vec<u8>>, q: int) -> u8 {
    if 832 <= q < 1_696 {
        column_major_byte(targets[(q - 832) / 288]@, 24, 24, (q - 832) % 288)
    } else {
        source_payload[q]
    }
}

/// Compile the door marks from the JP ROM, the manifest, the transfer
/// decoded at the door-mark header and the Korean RGBA master: check the JP
/// transfer, its ranges and its consumers, reduce the three master panels
/// and write their tiles over the three JP panels.
pub fn build_escape_doors(
    source: &[u8],
    manifest: EscapeDoorsManifest,
    decoded: &DecodedPack,
    master: &[u8],
) -> (build: Result<EscapeDoorsBuild, Error>)
    ensures
        build is Ok <==> build_inputs_ok(source@, manifest, *decoded, master@),
        build matches Ok(b) ==> {
            &&& build_wf(b)
            &&& b.manifest == manifest
            &&& b.source_payload@ == decoded.data@
            &&& b.payload@.len() == 1_696
            &&& forall|q: int|
                0 <= q < 1_696 ==> #[trigger] b.payload@[q] == payload_byte(decoded.data@, b.target_surfaces@, q)
            &&& forall|k: int| 0 <= k < 3 ==> #[trigger] b.source_surfaces@[k]@ == source_panel(decoded.data@, k)
            &&& forall|k: int, i: int|
                0 <= k < 3 && 0 <= i < 576 ==> panel_pixel_is(master@, manifest, b.palette@, k, i, #[trigger] b.target_surfaces@[k]@[i])
            &&& forall|i: int|
                0 <= i < 16 ==> #[trigger] b.palette@[i] as nat == spec_parse_hex(
                    manifest.palette_line_words@[i]@,
                ).unwrap()
        },
{
    validate_manifest_shape(&manifest)?;
    let palette = parse_md_palette(&manifest.palette_line_words)?;
    let source_payload = checked_source_pack(decoded, &manifest)?;
    validate_source_ranges(source_payload.as_slice(), &manifest)?;
    validate_consumer_binding(source, &manifest)?;
    let mut source_surfaces: Vec<Vec<u8>> = Vec::with_capacity(MARK_COUNT);
    let mut k: usize = 0;
    while k < MARK_COUNT
        invariant
            manifest_shape_ok(manifest),
            source_payload@ == decoded.data@,
            source_payload@.len() == 1_696,
            k <= 3,
            source_surfaces@.len() == k,
            forall|j: int| 0 <= j < k ==> #[trigger] source_surfaces@[j]@ == source_panel(decoded.data@, j)
                && source_surfaces@[j]@.len() == 576 && all_nibbles(source_surfaces@[j]@),
        decreases 3 - k,
    {
        proof {
            assert(mark_ok(manifest.marks@[k as int], k as int));
        }
        let start = manifest.marks[k].source_tile_start * MD_TILE_BYTES;
        let end = start + MARK_TILES * MD_TILE_BYTES;
        let surface = decode_md_tiles_column_major(&source_payload.as_slice()[start..end], MARK_WIDTH, MARK_HEIGHT)?;
        assert(surface@ =~= source_panel(decoded.data@, k as int));
        source_surfaces.push(surface);
        k = k + 1;
    }
    let mut target_surfaces: Vec<Vec<u8>> = Vec::with_capacity(MARK_COUNT);
    let mut panel: usize = 0;
    while panel < MARK_COUNT
        invariant
            manifest_shape_ok(manifest),
            panel <= 3,
            target_surfaces@.len() == panel,
            forall|j: int| 0 <= j < panel ==> #[trigger] panel_opaque(master@, j),
            master@.len() == 2_172 * 724 * 4 || panel == 0,
            forall|j: int| 0 <= j < panel ==> #[trigger] target_surfaces@[j]@.len() == 576 && all_nibbles(target_surfaces@[j]@),
            forall|j: int, i: int|
                0 <= j < panel && 0 <= i < 576 ==> panel_pixel_is(master@, manifest, palette@, j, i, #[trigger] target_surfaces@[j]@[i]),
        decreases 3 - panel,
    {
        let surface = reduce_master_panel(master, panel, &manifest, &palette)?;
        proof {
            assert forall|i: int| 0 <= i < 576 implies #[trigger] surface@[i] < 16 by {
                assert(panel_pixel_is(master@, manifest, palette@, panel as int, i, surface@[i]));
                let p = choose|p: int|
                    is_nearest_allowed(panel_color(master@, panel as int, i % 24, i / 24), palette@, manifest.allowed_palette_indices@, p)
                        && surface@[i] == manifest.allowed_palette_indices@[p] as u8;
                let v = manifest.allowed_palette_indices@[p];
                assert(manifest.allowed_palette_indices@.contains(v));
                assert(seq![8usize, 10, 12, 13, 14, 15].contains(v));
            }
        }
        let ghost before = target_surfaces@;
        target_surfaces.push(surface);
        proof {
            assert forall|j: int, i: int|
                0 <= j < panel + 1 && 0 <= i < 576 implies panel_pixel_is(master@, manifest, palette@, j, i, #[trigger] target_surfaces@[j]@[i]) by {
                if j < panel {
                    assert(target_surfaces@[j] == before[j]);
                }
            }
        }
        panel = panel + 1;
    }
    let mut payload = source_payload.clone();
    let mut m: usize = 0;
    while m < MARK_COUNT
        invariant
            manifest_shape_ok(manifest),
            source_payload@ == decoded.data@,
            source_payload@.len() == 1_696,
            payload@.len() == 1_696,
            target_surfaces@.len() == 3,
            forall|j: int| 0 <= j < 3 ==> #[trigger] target_surfaces@[j]@.len() == 576 && all_nibbles(target_surfaces@[j]@),
            m <= 3,
            forall|q: int|
                0 <= q < 1_696 ==> #[trigger] payload@[q] == (if 832 <= q < 832 + 288 * m {
                    payload_byte(decoded.data@, target_surfaces@, q)
                } else {
                    source_payload@[q]
                }),
        decreases 3 - m,
    {
        proof {
            assert(mark_ok(manifest.marks@[m as int], m as int));
        }
        let encoded = encode_md_tiles_column_major(target_surfaces[m].as_slice(), MARK_WIDTH, MARK_HEIGHT)?;
        let start = manifest.marks[m].source_tile_start * MD_TILE_BYTES;
        let mut j: usize = 0;
        while j < encoded.len()
            invariant
                start == 832 + 288 * m,
                m < 3,
                encoded@.len() == 288,
                forall|q: int| 0 <= q < 288 ==> #[trigger] encoded@[q] == column_major_byte(target_surfaces@[m as int]@, 24, 24, q),
                target_surfaces@.len() == 3,
                source_payload@ == decoded.data@,
                payload@.len() == 1_696,
                j <= 288,
                forall|q: int|
                    0 <= q < 1_696 ==> #[trigger] payload@[q] == (if 832 <= q < 832 + 288 * m + j {
                        payload_byte(decoded.data@, target_surfaces@, q)
                    } else {
                        source_payload@[q]
                    }),
            decreases 288 - j,
        {
            proof {
                let q = start + j;
                assert((q - 832) / 288 == m && (q - 832) % 288 == j);
            }
            payload.set(start + j, encoded[j]);
            j = j + 1;
        }
        m = m + 1;
    }
    assert(payload@.subrange(0, 832) =~= source_payload@.subrange(0, 832));
    if !bytes_equal(&payload.as_slice()[0..832], &source_payload.as_slice()[0..832]) {
        return Err("escape-door compiler changed protected decorative tiles");
    }
    if payload.len() != source_payload.len() {
        return Err("escape-door compiler changed decoded payload length");
    }
    Ok(EscapeDoorsBuild { manifest, palette, source_payload, payload, source_surfaces, target_surfaces })
}

/// Summary of a build; `pack_bytes` is the size of its encoded pack bank.
pub open spec fn spec_summary(build: EscapeDoorsBuild, pack_bytes: usize, checksum: u16) -> EscapeDoorsSummary {
    EscapeDoorsSummary {
        source_tiles: (build.source_payload@.len() / 32) as usize,
        rewritten_tiles: 27,
        protected_tiles: 26,
        marks: 3,
        source_sprite_records: 27,
        verified_consumer_bytes: 232,
        written_executable_bytes: 0,
        pack_bytes,
        checksum,
    }
}

/// Report the counts of a build.
pub fn summary(build: &EscapeDoorsBuild, pack_bytes: usize, checksum: u16) -> (s: EscapeDoorsSummary)
    ensures
        s == spec_summary(*build, pack_bytes, checksum),
{
    EscapeDoorsSummary {
        source_tiles: build.source_payload.len() / MD_TILE_BYTES,
        rewritten_tiles: MUTABLE_TILE_END - PROTECTED_TILE_END,
        protected_tiles: PROTECTED_TILE_END,
        marks: MARK_COUNT,
        source_sprite_records: MARK_COUNT * SPRITE_COUNT,
        verified_consumer_bytes: 4 + MARK_COUNT * 2 + MARK_COUNT * SPRITE_DEFINITION_BYTES,
        written_executable_bytes: 0,
        pack_bytes,
        checksum,
    }
}

/// Colour of pixel (`sx`, `sy`) of the 76x50 contact sheet: the JP panels
/// in the top row, the Korean ones in the bottom row, 2-pixel grey gaps.
pub open spec fn sheet_color(build: EscapeDoorsBuild, sx: int, sy: int) -> Seq<u8> {
    if sx % 26 >= 24 || (24 <= sy < 26) {
        seq![64u8, 64, 64]
    } else {
        let surfaces = if sy < 24 { build.source_surfaces@ } else { build.target_surfaces@ };
        let y = if sy < 24 { sy } else { sy - 26 };
        spec_md_color(build.palette@[surfaces[sx / 26]@[y * 24 + sx % 26] as int])
    }
}

/// Byte `k` of the 760x500 preview: the sheet scaled ten times.
pub open spec fn preview_byte(build: EscapeDoorsBuild, k: int) -> u8 {
    let q = k / 4;
    opaque_channel(sheet_color(build, (q % 760) / 10, (q / 760) / 10), k % 4)
}

fn sheet_color_of(build: &EscapeDoorsBuild, sx: usize, sy: usize) -> (color: [u8; 3])
    requires
        build_wf(*build),
        sx < 76,
        sy < 50,
    ensures
        color@ == sheet_color(*build, sx as int, sy as int),
{
    if sx % 26 >= 24 || (24 <= sy && sy < 26) {
        let gap = [64, 64, 64];
        assert(gap@ =~= seq![64u8, 64, 64]);
        return gap;
    }
    let column = sx / 26;
    let x = sx % 26;
    let y = if sy < 24 { sy } else { sy - 26 };
    proof {
        crate::grid::lemma_index_bound(y as int, x as int, 24, 24);
    }
    let index = if sy < 24 {
        build.source_surfaces[column][y * 24 + x]
    } else {
        build.target_surfaces[column][y * 24 + x]
    };
    proof {
        if sy < 24 {
            assert(build.source_surfaces@[column as int]@.len() == 576 && all_nibbles(build.source_surfaces@[column as int]@));
        } else {
            assert(build.target_surfaces@[column as int]@.len() == 576 && all_nibbles(build.target_surfaces@[column as int]@));
        }
    }
    md_color(build.palette[index as usize])
}

/// Render the three JP marks above the three Korean marks, scaled ten times.
pub fn write_escape_doors_preview(build: &EscapeDoorsBuild, pack_bytes: usize) -> (result: (
    RgbaImage,
    EscapeDoorsSummary,
))
    requires
        build_wf(*build),
    ensures
        result.0.width == 760,
        result.0.height == 500,
        result.0.rgba@.len() == 760 * 500 * 4,
        forall|k: int| 0 <= k < 760 * 500 * 4 ==> #[trigger] result.0.rgba@[k] == preview_byte(*build, k),
        result.1 == spec_summary(*build, pack_bytes, 0),
{
    let sheet_width = MARK_COUNT * MARK_WIDTH + (MARK_COUNT - 1) * PREVIEW_GAP;
    let sheet_height = MARK_HEIGHT * 2 + PREVIEW_GAP;
    let preview_width = sheet_width * PREVIEW_SCALE;
    let preview_height = sheet_height * PREVIEW_SCALE;
    let total = preview_width * preview_height;
    let mut rgba: Vec<u8> = Vec::with_capacity(total * 4);
    let mut q: usize = 0;
    while q < total
        invariant
            build_wf(*build),
            preview_width == 760,
            total == 760 * 500,
            q <= total,
            rgba@.len() == q * 4,
            forall|k: int| 0 <= k < q * 4 ==> #[trigger] rgba@[k] == preview_byte(*build, k),
        decreases total - q,
    {
        let sx = (q % preview_width) / PREVIEW_SCALE;
        let sy = (q / preview_width) / PREVIEW_SCALE;
        let color = sheet_color_of(build, sx, sy);
        let ghost before = rgba@;
        push_opaque(&mut rgba, color);
        assert forall|k: int| 0 <= k < (q + 1) * 4 implies #[trigger] rgba@[k] == preview_byte(*build, k) by {
            if k >= q * 4 {
                assert(k / 4 == q);
                let c = k - q * 4;
                assert(rgba@[before.len() + c] == opaque_channel(color@, c));
            } else {
                assert(rgba@[k] == before[k]);
            }
        }
        q = q + 1;
    }
    let image = RgbaImage { width: preview_width, height: preview_height, rgba };
    (image, summary(build, pack_bytes, 0))
}

/// The writes of the escape-door insertion: the pack header over each JP
/// header it replaces, then the bank over the erased expanded bank.
pub open spec fn doors_writes(source: Seq<u8>, header: Seq<u8>, bank: Seq<u8>) -> Seq<WriteView> {
    seq![header_write(source, 0x07_8534, header), bank_write(0x33_0000, bank)]
}

/// Everything the escape-door insertion checks: a six-byte header, a bank
/// within its expanded bank, the JP bytes in `source`, and every write
/// finding its expected bytes; and the written ROM still binds its consumer.
pub open spec fn doors_insert_ok(source: Seq<u8>, image: Seq<u8>, header: Seq<u8>, bank: Seq<u8>, m: EscapeDoorsManifest) -> bool {
    let ws = doors_writes(source, header, bank);
    &&& header.len() == 6
    &&& 0x33_0000 + bank.len() <= 0x33_8000
    &&& 0x07_8534 + 6 <= source.len()
    &&& writes_ok(image, ws)
    &&& consumer_ok(checksummed(writes_applied(image, ws, 2)), m)
}

/// Insert the escape-door pack: its six-byte header over the JP header, its
/// bank over the erased expanded bank, then the header checksum. On any
/// refusal the output is left as it was.
pub fn apply_escape_doors(
    source: &[u8],
    output: &mut Vec<u8>,
    build: &EscapeDoorsBuild,
    header: &[u8],
    bank: &[u8],
) -> (result: Result<EscapeDoorsSummary, Error>)
    requires
        manifest_shape_ok(build.manifest),
    ensures
        result is Ok <==> doors_insert_ok(source@, old(output)@, header@, bank@, build.manifest),
        result is Err ==> final(output)@ == old(output)@,
        result matches Ok(s) ==> {
            let ws = doors_writes(source@, header@, bank@);
            let applied = writes_applied(old(output)@, ws, 2);
            &&& final(output)@ == checksummed(applied)
            &&& s.checksum as int == crate::rom::spec_checksum(applied)
            &&& s == spec_summary(*build, bank@.len() as usize, s.checksum)
            &&& only_ranges_changed(old(output)@, final(output)@, write_ranges(ws))
        },
{
    if header.len() != 6 || bank.len() > 0x33_8000 - 0x33_0000 {
        return Err("escape-door pack ends outside its expanded bank or its header is not six bytes");
    }
    let w0 = header_write_of(source, 0x07_8534, header)?;
    let writes = vec![w0, bank_write_of(0x33_0000, bank)];
    assert(write_views(writes@) =~= doors_writes(source@, header@, bank@));
    let original = copy_bytes(output.as_slice());
    let checksum = insert_writes(output, &writes)?;
    match validate_consumer_binding(output.as_slice(), &build.manifest) {
        Ok(()) => {},
        Err(e) => {
            *output = original;
            return Err(e);
        },
    }
    Ok(summary(build, bank.len(), checksum))
}

} // verus!

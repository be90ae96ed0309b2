//! Bad-ending `ガーン` -> `뜨악` effect.
//!
//! The JP bad-ending group holds three mode-1 transfers. The active text lives
//! in the 21,152-byte high-pattern transfer, whose bytes stay untouched: the
//! Korean 160x32 effect is appended as eighty tiles and a source-checked sprite
//! definition is redirected to those new tiles.

use vstd::prelude::*;
use crate::hex::{Error, hex_equals, hex_fits, hex_is, hex_word, parse_hex, parse_u16_hex, spec_parse_hex};
use crate::text::{str_contains, string_is, seq_contains_run};
use crate::sets::{same_members, same_usize_members};
use crate::preview::{PixelBounds, bounds_are};
use crate::pack::{DecodedPack, SourcePack, checked_source_packs, first_id_index, pack_matches, position_of_id};
use crate::palette::{md_color, palette_declared, parse_md_palette, spec_md_color};
use crate::tiles::{all_nibbles, column_major_byte, encode_md_tiles_column_major};
use crate::preview::{RgbaImage, checker, checker_color, opaque_channel, push_opaque};
use crate::rom::{append_word, be16, be32, branch_word_target, read_be16, read_be32, relative_target, source_range, word_bytes};
use crate::sprite::{append_record, record_bytes, record_words_fit, sprite_size_word, spec_size_word};
use crate::tiles::MD_TILE_BYTES;

use crate::insert::{WriteView, bank_write, bank_write_of, checksummed, header_write, header_write_of, insert_writes, write_ranges, write_views, writes_applied, writes_ok};
use crate::rom::only_ranges_changed;

verus! {

pub const BAD_END_HEADER_OFFSETS: [usize; 3] = [0x09_61C0, 0x09_61C6, 0x09_61CC];
pub const BAD_END_VRAM_DESTINATIONS: [u16; 3] = [0x2000, 0x4000, 0xE000];
pub const BAD_END_DECODED_BYTES: [usize; 3] = [448, 21_152, 8_192];
pub const BAD_END_TARGET_HEADER_OFFSET: usize = 0x09_61C6;
pub const BAD_END_TARGET_VRAM: u16 = 0x4000;
pub const BAD_END_SOURCE_BYTES: usize = 21_152;
pub const BAD_END_SOURCE_TILES: usize = 661;
pub const BAD_END_BANK_OFFSET: usize = 0x29_8000;
pub const BAD_END_BANK_LIMIT: usize = 0x2A_0000;
pub const BAD_END_SPRITE_DEFINITION_OFFSET: usize = 0x09_77E6;
pub const BAD_END_SOURCE_SPRITES: usize = 8;
pub const BAD_END_TARGET_SPRITES: usize = 5;
pub const BAD_END_SURFACE_WIDTH: usize = 160;
pub const BAD_END_SURFACE_HEIGHT: usize = 32;
pub const BAD_END_EFFECT_TILES: usize = 80;
pub const PREVIEW_SCALE: usize = 4;

/// Counts reported after compiling the bad-ending effect.
pub struct BadEndGaanSummary {
    pub source_tiles: usize,
    pub appended_tiles: usize,
    pub protected_bytes: usize,
    pub companion_transfers: usize,
    pub target_sprites: usize,
    pub pack_bytes: usize,
    pub checksum: u16,
}

pub struct OutputSurface {
    pub width: usize,
    pub height: usize,
    pub content_box: PixelBounds,
    pub alpha_threshold: u8,
}

pub struct SpriteRecord {
    pub y: String,
    pub size: String,
    pub tile: String,
    pub x: String,
}

pub struct SourceSpriteDefinition {
    pub offset: String,
    pub sprites: Vec<SpriteRecord>,
}

pub struct ConsumerLoader {
    pub lea_offset: String,
    pub header_group_offset: String,
    pub loader_call_target: String,
}

pub struct SpriteOffsetBinding {
    pub pointer_offset: String,
    pub table_offset: String,
    pub subtype_index: usize,
    pub relative_offset: String,
}

pub struct TargetSpriteLayout {
    pub count: usize,
    pub base_x: String,
    pub base_y: String,
    pub x_step: usize,
    pub width_tiles: usize,
    pub height_tiles: usize,
    pub tile_attribute_flags: String,
}

/// The bad-ending asset manifest.
pub struct BadEndGaanManifest {
    pub schema_version: u32,
    pub asset_group_id: String,
    pub source_policy: String,
    pub master_asset: String,
    pub master_sha256: String,
    pub master_width: usize,
    pub master_height: usize,
    pub master_alpha_bounds: PixelBounds,
    pub output_surface: OutputSurface,
    pub palette_line_words: Vec<String>,
    pub transparent_palette_index: usize,
    pub source_effect_palette_indices: Vec<usize>,
    pub allowed_opaque_palette_indices: Vec<usize>,
    pub source_packs: Vec<SourcePack>,
    pub target_pack_id: String,
    pub consumer_loader: ConsumerLoader,
    pub sprite_offset_binding: SpriteOffsetBinding,
    pub source_sprite_definition: SourceSpriteDefinition,
    pub target_sprite_layout: TargetSpriteLayout,
}

pub open spec fn header_offset_at(i: int) -> nat {
    if i == 0 { 0x09_61C0 } else if i == 1 { 0x09_61C6 } else { 0x09_61CC }
}

pub open spec fn vram_at(i: int) -> nat {
    if i == 0 { 0x2000 } else if i == 1 { 0x4000 } else { 0xE000 }
}

pub open spec fn decoded_bytes_at(i: int) -> nat {
    if i == 0 { 448 } else if i == 1 { 21_152 } else { 8_192 }
}

/// The three JP transfers of the bad-ending group, in order.
pub open spec fn transfer_set_ok(packs: Seq<SourcePack>) -> bool {
    &&& packs.len() == 3
    &&& forall|i: int|
        0 <= i < 3 ==> hex_is(#[trigger] packs[i].header_offset@, header_offset_at(i)) && hex_is(
            packs[i].vram_destination@,
            vram_at(i),
        ) && packs[i].decoded_bytes == decoded_bytes_at(i)
}

/// Every fixed fact the bad-ending manifest must declare.
pub open spec fn manifest_shape_ok(m: BadEndGaanManifest) -> bool {
    &&& m.schema_version == 1
    &&& m.asset_group_id@ == "GFX-BAD-END-GAAN"@
    &&& seq_contains_run(m.source_policy@, "JP"@)
    &&& m.output_surface.width == 160
    &&& m.output_surface.height == 32
    &&& bounds_are(m.output_surface.content_box, 0, 0, 160, 32)
    &&& m.output_surface.alpha_threshold != 0
    &&& m.output_surface.alpha_threshold != 255
    &&& m.transparent_palette_index == 0
    &&& same_members(m.source_effect_palette_indices@, seq![0usize, 1, 5, 12, 15])
    &&& same_members(m.allowed_opaque_palette_indices@, seq![1usize, 5, 12, 15])
    &&& transfer_set_ok(m.source_packs@)
    &&& m.target_pack_id@ == "bad-end-patterns-high"@
    &&& m.source_packs@[1].id@ == m.target_pack_id@
    &&& hex_is(m.source_sprite_definition.offset@, 0x09_77E6)
    &&& m.source_sprite_definition.sprites@.len() == 8
    &&& hex_is(m.consumer_loader.lea_offset@, 0x09_43C6)
    &&& hex_is(m.consumer_loader.header_group_offset@, 0x09_61C0)
    &&& hex_is(m.consumer_loader.loader_call_target@, 0x000A72)
    &&& hex_is(m.sprite_offset_binding.pointer_offset@, 0x06_AFE8)
    &&& hex_is(m.sprite_offset_binding.table_offset@, 0x09_770C)
    &&& m.sprite_offset_binding.subtype_index == 3
    &&& hex_is(m.sprite_offset_binding.relative_offset@, 0x00DA)
    &&& m.target_sprite_layout.count == 5
    &&& hex_is(m.target_sprite_layout.base_x@, 0x00D0)
    &&& hex_is(m.target_sprite_layout.base_y@, 0x00C0)
    &&& m.target_sprite_layout.x_step == 32
    &&& m.target_sprite_layout.width_tiles == 4
    &&& m.target_sprite_layout.height_tiles == 4
    &&& hex_is(m.target_sprite_layout.tile_attribute_flags@, 0x4000)
}

fn transfer_set_matches(packs: &Vec<SourcePack>) -> (ok: bool)
    ensures
        ok == transfer_set_ok(packs@),
{
    if packs.len() != 3 {
        return false;
    }
    let mut i: usize = 0;
    while i < 3
        invariant
            packs@.len() == 3,
            i <= 3,
            forall|k: int|
                0 <= k < i ==> hex_is(#[trigger] packs@[k].header_offset@, header_offset_at(k))
                    && hex_is(packs@[k].vram_destination@, vram_at(k))
                    && packs@[k].decoded_bytes == decoded_bytes_at(k),
        decreases 3 - i,
    {
        let pack = &packs[i];
        if !hex_equals(&pack.header_offset, BAD_END_HEADER_OFFSETS[i])
            || !hex_equals(&pack.vram_destination, BAD_END_VRAM_DESTINATIONS[i] as usize)
            || pack.decoded_bytes != BAD_END_DECODED_BYTES[i] {
            return false;
        }
        i = i + 1;
    }
    true
}

/// Refuse a manifest whose identity, surface, palette roles, transfers,
/// consumer bindings or sprite layout drifted from the JP structure.
pub fn validate_manifest_shape(manifest: &BadEndGaanManifest) -> (result: Result<(), Error>)
    ensures
        result is Ok <==> manifest_shape_ok(*manifest),
{
    if manifest.schema_version != 1 || !string_is(&manifest.asset_group_id, "GFX-BAD-END-GAAN")
        || !str_contains(manifest.source_policy.as_str(), "JP") {
        return Err("unsupported bad-ending manifest identity");
    }
    let surface = &manifest.output_surface;
    let content = &surface.content_box;
    if surface.width != BAD_END_SURFACE_WIDTH || surface.height != BAD_END_SURFACE_HEIGHT
        || content.x != 0 || content.y != 0 || content.width != BAD_END_SURFACE_WIDTH
        || content.height != BAD_END_SURFACE_HEIGHT || surface.alpha_threshold == 0
        || surface.alpha_threshold == 255 {
        return Err("bad-ending output surface drifted");
    }
    if manifest.transparent_palette_index != 0 || !same_usize_members(
        manifest.source_effect_palette_indices.as_slice(),
        &[0, 1, 5, 12, 15],
    ) || !same_usize_members(manifest.allowed_opaque_palette_indices.as_slice(), &[1, 5, 12, 15]) {
        return Err("bad-ending palette roles drifted");
    }
    if !transfer_set_matches(&manifest.source_packs) || !string_is(
        &manifest.target_pack_id,
        "bad-end-patterns-high",
    ) || manifest.source_packs[1].id != manifest.target_pack_id {
        return Err("bad-ending JP transfer set drifted");
    }
    if !hex_equals(&manifest.source_sprite_definition.offset, BAD_END_SPRITE_DEFINITION_OFFSET)
        || manifest.source_sprite_definition.sprites.len() != BAD_END_SOURCE_SPRITES {
        return Err("bad-ending source sprite definition drifted");
    }
    let loader = &manifest.consumer_loader;
    let binding = &manifest.sprite_offset_binding;
    if !hex_equals(&loader.lea_offset, 0x09_43C6) || !hex_equals(
        &loader.header_group_offset,
        0x09_61C0,
    ) || !hex_equals(&loader.loader_call_target, 0x000A72) || !hex_equals(
        &binding.pointer_offset,
        0x06_AFE8,
    ) || !hex_equals(&binding.table_offset, 0x09_770C) || binding.subtype_index != 3
        || !hex_equals(&binding.relative_offset, 0x00DA) {
        return Err("bad-ending consumer binding declarations drifted");
    }
    let layout = &manifest.target_sprite_layout;
    if layout.count != BAD_END_TARGET_SPRITES || !hex_equals(&layout.base_x, 0x00D0)
        || !hex_equals(&layout.base_y, 0x00C0) || layout.x_step != 32 || layout.width_tiles != 4
        || layout.height_tiles != 4 || !hex_equals(&layout.tile_attribute_flags, 0x4000) {
        return Err("bad-ending target sprite layout drifted");
    }
    Ok(())
}

/// Every source sprite record consists of four 16-bit manifest numbers.
pub open spec fn records_fit(records: Seq<SpriteRecord>) -> bool {
    forall|i: int|
        0 <= i < records.len() ==> record_words_fit(
            #[trigger] records[i].y@,
            records[i].size@,
            records[i].tile@,
            records[i].x@,
        )
}

/// The bytes of a run of sprite records.
pub open spec fn records_bytes(records: Seq<SpriteRecord>) -> Seq<u8>
    decreases records.len(),
{
    if records.len() == 0 {
        Seq::empty()
    } else {
        let last = records.last();
        records_bytes(records.drop_last()) + record_bytes(last.y@, last.size@, last.tile@, last.x@)
    }
}

/// The JP sprite definition the manifest declares.
pub open spec fn source_definition_bytes(m: BadEndGaanManifest) -> Seq<u8> {
    let sprites = m.source_sprite_definition.sprites@;
    word_bytes(sprites.len() as u16) + records_bytes(sprites)
}

pub open spec fn source_definition_encodable(m: BadEndGaanManifest) -> bool {
    m.source_sprite_definition.sprites@.len() <= 0xFFFF && records_fit(
        m.source_sprite_definition.sprites@,
    )
}

/// Encode the declared JP sprite definition (count word, then four words per sprite).
#[verifier::spinoff_prover]
#[verifier::rlimit(30)]
pub fn encode_source_sprite_definition(manifest: &BadEndGaanManifest) -> (encoded: Result<
    Vec<u8>,
    Error,
>)
    ensures
        encoded is Ok <==> source_definition_encodable(*manifest),
        encoded matches Ok(bytes) ==> bytes@ == source_definition_bytes(*manifest),
{
    let sprites = &manifest.source_sprite_definition.sprites;
    if sprites.len() > 0xFFFF {
        return Err("bad-ending source sprite count is too large");
    }
    let mut output: Vec<u8> = Vec::new();
    append_word(&mut output, sprites.len() as u16);
    let mut i: usize = 0;
    while i < sprites.len()
        invariant
            sprites@ == manifest.source_sprite_definition.sprites@,
            sprites@.len() <= 0xFFFF,
            i <= sprites@.len(),
            records_fit(sprites@.take(i as int)),
            output@ == word_bytes(sprites@.len() as u16) + records_bytes(sprites@.take(i as int)),
        decreases sprites@.len() - i,
    {
        let sprite = &sprites[i];
        match append_record(&mut output, &sprite.y, &sprite.size, &sprite.tile, &sprite.x) {
            Ok(()) => {},
            Err(e) => {
                assert(sprites@.take(sprites@.len() as int) =~= sprites@);
                assert(!records_fit(sprites@)) by {
                    assert(!record_words_fit(sprites@[i as int].y@, sprites@[i as int].size@, sprites@[i as int].tile@, sprites@[i as int].x@));
                }
                return Err(e);
            },
        }
        proof {
            assert(sprites@.take(i + 1).drop_last() =~= sprites@.take(i as int));
            assert(sprites@.take(i + 1).last() == sprites@[i as int]);
            assert forall|k: int| 0 <= k < i + 1 implies record_words_fit(
                #[trigger] sprites@.take(i + 1)[k].y@,
                sprites@.take(i + 1)[k].size@,
                sprites@.take(i + 1)[k].tile@,
                sprites@.take(i + 1)[k].x@,
            ) by {
                if k < i {
                    assert(sprites@.take(i + 1)[k] == sprites@.take(i as int)[k]);
                }
            }
        }
        i = i + 1;
    }
    assert(sprites@.take(sprites@.len() as int) =~= sprites@);
    Ok(output)
}

/// The JP ROM still holds the declared sprite definition at its declared offset.
pub open spec fn source_definition_present(source: Seq<u8>, m: BadEndGaanManifest) -> bool {
    let bytes = source_definition_bytes(m);
    let offset = spec_parse_hex(m.source_sprite_definition.offset@);
    &&& source_definition_encodable(m)
    &&& offset is Some
    &&& offset.unwrap() <= usize::MAX
    &&& offset.unwrap() + bytes.len() <= source.len()
    &&& source.subrange(offset.unwrap() as int, (offset.unwrap() + bytes.len()) as int) == bytes
}

/// Refuse a JP ROM whose sprite definition no longer matches the manifest.
pub fn validate_source_sprite_definition(source: &[u8], manifest: &BadEndGaanManifest) -> (result:
    Result<(), Error>)
    ensures
        result is Ok <==> source_definition_present(source@, *manifest),
{
    let expected = encode_source_sprite_definition(manifest)?;
    let offset = parse_hex(manifest.source_sprite_definition.offset.as_str())?;
    let actual = source_range(source, offset, expected.len())?;
    if !crate::sets::bytes_equal(actual, expected.as_slice()) {
        return Err("bad-ending source sprite definition no longer matches JP ROM");
    }
    Ok(())
}

/// The JP consumer code still loads the group and owns the sprite definition:
/// `LEA d16(PC),A2` to the header group, `JSR abs.l` to the loader, the sprite
/// table pointer and the subtype's relative offset.
pub open spec fn consumer_bindings_ok(source: Seq<u8>, m: BadEndGaanManifest) -> bool {
    let lea = spec_parse_hex(m.consumer_loader.lea_offset@).unwrap() as int;
    let pointer = spec_parse_hex(m.sprite_offset_binding.pointer_offset@).unwrap() as int;
    let table = be32(source, pointer);
    let relative_at = table + m.sprite_offset_binding.subtype_index * 2;
    &&& lea + 10 <= source.len()
    &&& be16(source, lea) == 0x45FA
    &&& relative_target(lea, be16(source, lea + 2)) == spec_parse_hex(
        m.consumer_loader.header_group_offset@,
    ).unwrap()
    &&& be16(source, lea + 4) == 0x4EB9
    &&& be32(source, lea + 6) == spec_parse_hex(m.consumer_loader.loader_call_target@).unwrap()
    &&& pointer + 4 <= source.len()
    &&& table == spec_parse_hex(m.sprite_offset_binding.table_offset@).unwrap()
    &&& relative_at + 2 <= source.len()
    &&& be16(source, relative_at) == spec_parse_hex(m.sprite_offset_binding.relative_offset@).unwrap()
    &&& table + be16(source, relative_at) == spec_parse_hex(m.source_sprite_definition.offset@).unwrap()
}

/// Refuse a JP ROM whose consumer code no longer binds the effect as declared.
pub fn validate_consumer_bindings(source: &[u8], manifest: &BadEndGaanManifest) -> (result: Result<
    (),
    Error,
>)
    requires
        manifest_shape_ok(*manifest),
    ensures
        result is Ok <==> consumer_bindings_ok(source@, *manifest),
{
    let loader = &manifest.consumer_loader;
    let lea_offset = parse_hex(loader.lea_offset.as_str())?;
    let lea = source_range(source, lea_offset, 10)?;
    if read_be16(lea, 0) != 0x45FA {
        return Err("bad-ending consumer no longer loads its group with LEA d16(PC),A2");
    }
    let target = branch_word_target(lea_offset, read_be16(lea, 2));
    if target != parse_hex(loader.header_group_offset.as_str())? {
        return Err("bad-ending loader resolves elsewhere than its declared header group");
    }
    if read_be16(lea, 4) != 0x4EB9 {
        return Err("bad-ending group load is not followed by JSR abs.l");
    }
    let call_target = read_be32(lea, 6) as usize;
    if call_target != parse_hex(loader.loader_call_target.as_str())? {
        return Err("bad-ending graphics loader call drifted");
    }
    let binding = &manifest.sprite_offset_binding;
    let pointer_offset = parse_hex(binding.pointer_offset.as_str())?;
    let pointer = source_range(source, pointer_offset, 4)?;
    let table = read_be32(pointer, 0) as usize;
    if table != parse_hex(binding.table_offset.as_str())? {
        return Err("bad-ending sprite table pointer resolves elsewhere");
    }
    let relative_offset_address = table + binding.subtype_index * 2;
    let relative_bytes = source_range(source, relative_offset_address, 2)?;
    let relative = read_be16(relative_bytes, 0);
    if relative != parse_u16_hex(binding.relative_offset.as_str())? || table + relative as usize
        != parse_hex(manifest.source_sprite_definition.offset.as_str())? {
        return Err("bad-ending subtype 3 no longer owns the declared sprite definition");
    }
    Ok(())
}

/// One record of the Korean sprite definition: sprite `index` of the row of
/// 4x4-cell sprites that show the appended tiles starting at `base_tile`.
pub open spec fn target_record_bytes(m: BadEndGaanManifest, base_tile: int, index: int) -> Seq<u8> {
    let layout = m.target_sprite_layout;
    let tile = base_tile + index * (layout.width_tiles * layout.height_tiles);
    word_bytes(hex_word(layout.base_y@)) + word_bytes(
        spec_size_word(layout.width_tiles as int, layout.height_tiles as int) as u16,
    ) + word_bytes((hex_word(layout.tile_attribute_flags@) + tile) as u16) + word_bytes(
        (hex_word(layout.base_x@) + index * layout.x_step) as u16,
    )
}

pub open spec fn target_records_bytes(m: BadEndGaanManifest, base_tile: int, count: int) -> Seq<u8>
    decreases count,
{
    if count <= 0 {
        Seq::empty()
    } else {
        target_records_bytes(m, base_tile, count - 1) + target_record_bytes(m, base_tile, count - 1)
    }
}

/// First VRAM cell of the appended Korean tiles.
pub open spec fn appended_base_tile(source_payload_bytes: int) -> int {
    512int + source_payload_bytes / 32
}

/// The Korean sprite definition for a JP payload of `source_payload_bytes`.
pub open spec fn target_definition_bytes(m: BadEndGaanManifest, source_payload_bytes: int) -> Seq<u8> {
    word_bytes(m.target_sprite_layout.count as u16) + target_records_bytes(
        m,
        appended_base_tile(source_payload_bytes),
        m.target_sprite_layout.count as int,
    )
}

/// The Korean sprites fit the VDP: whole tiles and cell numbers below 0x800.
pub open spec fn target_definition_ok(source_payload_bytes: int) -> bool {
    source_payload_bytes % 32 == 0 && appended_base_tile(source_payload_bytes) + 4 * 16 <= 0x07FF
}

proof fn lemma_records_layout(m: BadEndGaanManifest, base_tile: int, n: int, i: int)
    requires
        0 <= i < n,
    ensures
        target_records_bytes(m, base_tile, n).len() == 8 * n,
        target_records_bytes(m, base_tile, n).subrange(8 * i, 8 * i + 8) == target_record_bytes(m, base_tile, i),
    decreases n,
{
    let prefix = target_records_bytes(m, base_tile, n - 1);
    let last = target_record_bytes(m, base_tile, n - 1);
    assert(last.len() == 8);
    if n - 1 > 0 {
        if i < n - 1 {
            lemma_records_layout(m, base_tile, n - 1, i);
            assert((prefix + last).subrange(8 * i, 8 * i + 8) =~= prefix.subrange(8 * i, 8 * i + 8));
        } else {
            lemma_records_layout(m, base_tile, n - 1, 0);
            assert((prefix + last).subrange(8 * i, 8 * i + 8) =~= last);
        }
    } else {
        assert(prefix.len() == 0);
        assert((prefix + last).subrange(0, 8) =~= last);
    }
}

proof fn lemma_u16_word(v: int)
    requires
        0 <= v < 0x1_0000,
    ensures
        (v as u16) as int == v,
{
}

proof fn lemma_word_bytes_be16(w: u16)
    ensures
        word_bytes(w).len() == 2,
        be16(word_bytes(w), 0) == w as int,
{
}

/// The Korean sprite definition lays its five sprites out left to right:
/// it declares five sprites, and sprite `i` shows the sixteen appended tiles
/// from `appended_base_tile + 16 * i` at X `0x00D0 + 32 * i` and Y `0x00C0`,
/// so the tile a sprite shows and its X grow together.
#[verifier::spinoff_prover]
pub proof fn lemma_target_sprites_left_to_right(m: BadEndGaanManifest, source_payload_bytes: int, i: int)
    requires
        manifest_shape_ok(m),
        source_payload_bytes >= 0,
        target_definition_ok(source_payload_bytes),
        0 <= i < 5,
    ensures
        target_definition_bytes(m, source_payload_bytes).len() == 42,
        be16(target_definition_bytes(m, source_payload_bytes), 0) == 5,
        be16(target_definition_bytes(m, source_payload_bytes), 2 + 8 * i) == 0x00C0,
        be16(target_definition_bytes(m, source_payload_bytes), 2 + 8 * i + 2) == 0x0F00,
        be16(target_definition_bytes(m, source_payload_bytes), 2 + 8 * i + 4) == 0x4000 + appended_base_tile(
            source_payload_bytes,
        ) + 16 * i,
        be16(target_definition_bytes(m, source_payload_bytes), 2 + 8 * i + 6) == 0x00D0 + 32 * i,
{
    let base = appended_base_tile(source_payload_bytes);
    let layout = m.target_sprite_layout;
    let d = target_definition_bytes(m, source_payload_bytes);
    let head = word_bytes(5u16);
    let records = target_records_bytes(m, base, 5);
    lemma_records_layout(m, base, 5, i);
    assert(d == head + records);
    let r = target_record_bytes(m, base, i);
    assert(hex_word(layout.base_y@) == 0x00C0);
    assert(hex_word(layout.base_x@) == 0x00D0);
    assert(hex_word(layout.tile_attribute_flags@) == 0x4000);
    let wy = hex_word(layout.base_y@);
    let ws = spec_size_word(4, 4) as u16;
    assert(layout.width_tiles * layout.height_tiles == 16);
    assert(i * (layout.width_tiles * layout.height_tiles) == i * 16);
    assert(512 <= base && base + 64 <= 0x07FF);
    let tile_word: int = 0x4000 + base + i * 16;
    assert(0 <= tile_word < 0x1_0000);
    let wt = tile_word as u16;
    lemma_u16_word(tile_word);
    let x_word: int = 0x00D0 + i * 32;
    let wx = x_word as u16;
    lemma_u16_word(x_word);
    assert(r == word_bytes(wy) + word_bytes(ws) + word_bytes(wt) + word_bytes(wx));
    lemma_word_bytes_be16(5u16);
    lemma_word_bytes_be16(wy);
    lemma_word_bytes_be16(ws);
    lemma_word_bytes_be16(wt);
    lemma_word_bytes_be16(wx);
    assert(d.subrange(2 + 8 * i, 2 + 8 * i + 8) =~= r);
    assert(d[2 + 8 * i] == r[0] && d[2 + 8 * i + 1] == r[1]);
    assert(d[2 + 8 * i + 2] == r[2] && d[2 + 8 * i + 3] == r[3]);
    assert(d[2 + 8 * i + 4] == r[4] && d[2 + 8 * i + 5] == r[5]);
    assert(d[2 + 8 * i + 6] == r[6] && d[2 + 8 * i + 7] == r[7]);
    assert(d[0] == head[0] && d[1] == head[1]);
}

/// Build the Korean sprite definition: five 4x4-cell sprites, 32 pixels
/// apart, showing the tiles appended after the JP payload.
pub fn build_target_sprite_definition(manifest: &BadEndGaanManifest, source_payload_bytes: usize) -> (definition:
    Result<Vec<u8>, Error>)
    requires
        manifest_shape_ok(*manifest),
    ensures
        definition is Ok <==> target_definition_ok(source_payload_bytes as int),
        definition matches Ok(bytes) ==> bytes@ == target_definition_bytes(
            *manifest,
            source_payload_bytes as int,
        ),
{
    if source_payload_bytes % MD_TILE_BYTES != 0 {
        return Err("bad-ending source payload is not tile-aligned");
    }
    let layout = &manifest.target_sprite_layout;
    let base_x = parse_u16_hex(layout.base_x.as_str())?;
    let base_y = parse_u16_hex(layout.base_y.as_str())?;
    let flags = parse_u16_hex(layout.tile_attribute_flags.as_str())?;
    assert(flags & 0x07FF == 0) by (bit_vector)
        requires
            flags == 0x4000u16,
    ;
    if flags & 0x07FF != 0 {
        return Err("bad-ending tile flags overlap the tile index");
    }
    let vram_base_tile = BAD_END_TARGET_VRAM as usize / MD_TILE_BYTES;
    let appended = vram_base_tile + source_payload_bytes / MD_TILE_BYTES;
    let sprite_tiles = layout.width_tiles * layout.height_tiles;
    let size = sprite_size_word(layout.width_tiles, layout.height_tiles)?;
    let mut output: Vec<u8> = Vec::new();
    append_word(&mut output, layout.count as u16);
    let mut index: usize = 0;
    while index < layout.count
        invariant
            manifest_shape_ok(*manifest),
            layout == manifest.target_sprite_layout,
            base_x as nat == spec_parse_hex(layout.base_x@).unwrap(),
            base_y as nat == spec_parse_hex(layout.base_y@).unwrap(),
            flags as nat == spec_parse_hex(layout.tile_attribute_flags@).unwrap(),
            flags == 0x4000,
            sprite_tiles == 16,
            size as int == spec_size_word(4, 4),
            appended == appended_base_tile(source_payload_bytes as int),
            index <= layout.count,
            index > 0 ==> appended + (index - 1) * 16 <= 0x07FF,
            output@ == word_bytes(layout.count as u16) + target_records_bytes(
                *manifest,
                appended as int,
                index as int,
            ),
        decreases layout.count - index,
    {
        let tile = appended + index * sprite_tiles;
        if tile > 0x07FF {
            return Err("bad-ending target tile exceeds the VDP tile index");
        }
        let x = base_x as usize + index * layout.x_step;
        if x > 0xFFFF {
            return Err("bad-ending target X exceeds u16");
        }
        let t = tile as u16;
        assert(flags | t == flags + t) by (bit_vector)
            requires
                flags == 0x4000u16,
                t <= 0x07FFu16,
        ;
        append_word(&mut output, base_y);
        append_word(&mut output, size);
        append_word(&mut output, flags | t);
        append_word(&mut output, x as u16);
        assert(output@ =~= word_bytes(layout.count as u16) + target_records_bytes(
            *manifest,
            appended as int,
            index + 1,
        ));
        index = index + 1;
    }
    Ok(output)
}

/// A compiled bad-ending effect before its pack is encoded.
pub struct BadEndGaanBuild {
    pub manifest: BadEndGaanManifest,
    pub palette: [u16; 16],
    pub source_payloads: Vec<Vec<u8>>,
    pub payload: Vec<u8>,
    pub surface: Vec<u8>,
    pub sprite_definition: Vec<u8>,
}

/// A build whose surface the preview can draw.
pub open spec fn build_wf(build: BadEndGaanBuild) -> bool {
    &&& build.surface@.len() == 160 * 32
    &&& all_nibbles(build.surface@)
    &&& build.source_payloads@.len() == 3
}

/// Index of the transfer that receives the Korean tiles.
pub open spec fn target_index(m: BadEndGaanManifest) -> int {
    first_id_index(m.source_packs@, m.target_pack_id@, 0)
}

/// Everything the bad-ending compiler requires of its inputs.
pub open spec fn build_inputs_ok(
    source: Seq<u8>,
    m: BadEndGaanManifest,
    decoded: Seq<DecodedPack>,
    surface: Seq<u8>,
) -> bool {
    &&& manifest_shape_ok(m)
    &&& palette_declared(m.palette_line_words@.map_values(|w: String| w@))
    &&& surface.len() == 160 * 32
    &&& all_nibbles(surface)
    &&& decoded.len() == 3
    &&& forall|i: int| 0 <= i < 3 ==> pack_matches(#[trigger] decoded[i], m.source_packs@[i])
    &&& decoded[target_index(m)].data@.len() == 21_152
    &&& source_definition_present(source, m)
    &&& consumer_bindings_ok(source, m)
}

/// Compile the bad-ending effect: check the JP transfers and consumers, append
/// the column-major tiles of the indexed 160x32 `surface` to the JP
/// high-pattern payload, and build the redirected sprite definition.
pub fn build_bad_end_gaan(
    source: &[u8],
    manifest: BadEndGaanManifest,
    decoded: &Vec<DecodedPack>,
    surface: Vec<u8>,
) -> (build: Result<BadEndGaanBuild, Error>)
    ensures
        build is Ok <==> build_inputs_ok(source@, manifest, decoded@, surface@),
        build matches Ok(b) ==> {
            &&& build_wf(b)
            &&& b.manifest == manifest
            &&& b.surface@ == surface@
            &&& forall|i: int| 0 <= i < 3 ==> #[trigger] b.source_payloads@[i]@ == decoded@[i].data@
            &&& b.payload@.len() == 21_152 + 80 * 32
            &&& b.payload@.subrange(0, 21_152) == decoded@[target_index(manifest)].data@
            &&& forall|j: int|
                21_152 <= j < b.payload@.len() ==> #[trigger] b.payload@[j] == column_major_byte(
                    surface@,
                    160,
                    32,
                    j - 21_152,
                )
            &&& b.sprite_definition@ == target_definition_bytes(manifest, 21_152)
            &&& forall|i: int|
                0 <= i < 16 ==> #[trigger] b.palette@[i] as nat == spec_parse_hex(
                    manifest.palette_line_words@[i]@,
                ).unwrap()
        },
{
    validate_manifest_shape(&manifest)?;
    let palette = parse_md_palette(&manifest.palette_line_words)?;
    let effect_tiles = encode_md_tiles_column_major(
        surface.as_slice(),
        BAD_END_SURFACE_WIDTH,
        BAD_END_SURFACE_HEIGHT,
    )?;
    let source_payloads = checked_source_packs(decoded, &manifest.source_packs)?;
    let target = match position_of_id(&manifest.source_packs, &manifest.target_pack_id) {
        Some(target) => target,
        None => {
            proof {
                crate::pack::lemma_first_id_index_le(manifest.source_packs@, manifest.target_pack_id@, 0, 1);
            }
            return Err("bad-ending target pack is absent");
        },
    };
    let source_payload = &source_payloads[target];
    if source_payload.len() != BAD_END_SOURCE_BYTES {
        return Err("bad-ending target payload length drifted");
    }
    let mut payload = source_payload.clone();
    payload.extend_from_slice(effect_tiles.as_slice());
    validate_source_sprite_definition(source, &manifest)?;
    validate_consumer_bindings(source, &manifest)?;
    let sprite_definition = build_target_sprite_definition(&manifest, source_payload.len())?;
    assert(payload@.subrange(0, 21_152) =~= decoded@[target_index(manifest)].data@);
    Ok(BadEndGaanBuild { manifest, palette, source_payloads, payload, surface, sprite_definition })
}

/// Summary of a build; `pack_bytes` is the size of its encoded pack bank.
pub open spec fn spec_summary(build: BadEndGaanBuild, pack_bytes: usize, checksum: u16) -> BadEndGaanSummary {
    BadEndGaanSummary {
        source_tiles: 661,
        appended_tiles: 80,
        protected_bytes: 21_152,
        companion_transfers: (build.source_payloads@.len() - 1) as usize,
        target_sprites: 5,
        pack_bytes,
        checksum,
    }
}

/// Report the counts of a build.
pub fn summary(build: &BadEndGaanBuild, pack_bytes: usize, checksum: u16) -> (s: BadEndGaanSummary)
    requires
        build.source_payloads@.len() >= 1,
    ensures
        s == spec_summary(*build, pack_bytes, checksum),
{
    BadEndGaanSummary {
        source_tiles: BAD_END_SOURCE_TILES,
        appended_tiles: BAD_END_EFFECT_TILES,
        protected_bytes: BAD_END_SOURCE_BYTES,
        companion_transfers: build.source_payloads.len() - 1,
        target_sprites: BAD_END_TARGET_SPRITES,
        pack_bytes,
        checksum,
    }
}

/// Colour of surface pixel (`x`, `y`) in the proof sheet.
pub open spec fn preview_color(build: BadEndGaanBuild, x: int, y: int) -> Seq<u8> {
    let index = build.surface@[y * 160 + x];
    if index as int == build.manifest.transparent_palette_index {
        checker(x, y, 210, 242)
    } else {
        spec_md_color(build.palette@[index as int])
    }
}

/// Byte `k` of the 640x128 proof sheet: each surface pixel as a 4x4 block.
pub open spec fn preview_byte(build: BadEndGaanBuild, k: int) -> u8 {
    let q = k / 4;
    let px = q % 640;
    let py = q / 640;
    opaque_channel(preview_color(build, px / 4, py / 4), k % 4)
}

/// Render the exact 160x32 indexed surface consumed by the five sprites,
/// scaled four times, with transparent pixels on a checkerboard.
pub fn write_bad_end_gaan_preview(build: &BadEndGaanBuild, pack_bytes: usize) -> (result: (
    RgbaImage,
    BadEndGaanSummary,
))
    requires
        build_wf(*build),
    ensures
        result.0.width == 640,
        result.0.height == 128,
        result.0.rgba@.len() == 640 * 128 * 4,
        forall|k: int| 0 <= k < 640 * 128 * 4 ==> #[trigger] result.0.rgba@[k] == preview_byte(*build, k),
        result.1 == spec_summary(*build, pack_bytes, 0),
{
    let preview_width = BAD_END_SURFACE_WIDTH * PREVIEW_SCALE;
    let preview_height = BAD_END_SURFACE_HEIGHT * PREVIEW_SCALE;
    let total = preview_width * preview_height;
    let mut rgba: Vec<u8> = Vec::with_capacity(total * 4);
    let mut q: usize = 0;
    while q < total
        invariant
            build_wf(*build),
            preview_width == 640,
            total == 640 * 128,
            q <= total,
            rgba@.len() == q * 4,
            forall|k: int| 0 <= k < q * 4 ==> #[trigger] rgba@[k] == preview_byte(*build, k),
        decreases total - q,
    {
        let x = (q % preview_width) / PREVIEW_SCALE;
        let y = (q / preview_width) / PREVIEW_SCALE;
        let index = build.surface[y * BAD_END_SURFACE_WIDTH + x];
        let color = if index as usize == build.manifest.transparent_palette_index {
            checker_color(x, y, 210, 242)
        } else {
            md_color(build.palette[index as usize])
        };
        let ghost before = rgba@;
        push_opaque(&mut rgba, color);
        assert forall|k: int| 0 <= k < (q + 1) * 4 implies #[trigger] rgba@[k] == preview_byte(*build, k) by {
            if k >= q * 4 {
                assert(k / 4 == q);
                let c = k - q * 4;
                assert(rgba@[before.len() + c] == opaque_channel(color@, c));
            } else {
                assert(rgba@[k] == before[k]);
            }
        }
        q = q + 1;
    }
    let image = RgbaImage { width: preview_width, height: preview_height, rgba };
    (image, summary(build, pack_bytes, 0))
}

/// The writes of the bad-ending insertion: the pack header over the JP
/// high-pattern header, the redirected sprite definition over the JP
/// definition at `sprite_at`, then the bank over the erased expanded bank.
pub open spec fn gaan_writes(source: Seq<u8>, header: Seq<u8>, bank: Seq<u8>, sprite_at: usize, sprite: Seq<u8>) -> Seq<WriteView> {
    seq![header_write(source, 0x09_61C6, header), header_write(source, sprite_at, sprite), bank_write(0x29_8000, bank)]
}

/// Where the manifest puts the JP sprite definition.
pub open spec fn gaan_sprite_at(m: BadEndGaanManifest) -> usize {
    spec_parse_hex(m.source_sprite_definition.offset@).unwrap() as usize
}

/// Everything the bad-ending insertion checks: a six-byte header, a bank
/// within 0x2A0000, a sprite-definition offset within `usize`, the JP bytes
/// in `source`, and every write finding its expected bytes.
pub open spec fn gaan_insert_ok(source: Seq<u8>, image: Seq<u8>, header: Seq<u8>, bank: Seq<u8>, m: BadEndGaanManifest, sprite: Seq<u8>) -> bool {
    let ws = gaan_writes(source, header, bank, gaan_sprite_at(m), sprite);
    &&& header.len() == 6
    &&& 0x29_8000 + bank.len() <= 0x2A_0000
    &&& 0x09_61C6 + 6 <= source.len()
    &&& hex_fits(m.source_sprite_definition.offset@, usize::MAX as nat)
    &&& gaan_sprite_at(m) + sprite.len() <= source.len()
    &&& writes_ok(image, ws)
}

/// Insert the bad-ending pack: its six-byte header over the JP header, the
/// redirected sprite definition over the JP one, its bank over the erased
/// expanded bank, then the header checksum. On any refusal the output is
/// left as it was.
pub fn apply_bad_end_gaan(
    source: &[u8],
    output: &mut Vec<u8>,
    build: &BadEndGaanBuild,
    header: &[u8],
    bank: &[u8],
) -> (result: Result<BadEndGaanSummary, Error>)
    requires
        build.source_payloads@.len() >= 1,
    ensures
        result is Ok <==> gaan_insert_ok(source@, old(output)@, header@, bank@, build.manifest, build.sprite_definition@),
        result is Err ==> final(output)@ == old(output)@,
        result matches Ok(s) ==> {
            let ws = gaan_writes(source@, header@, bank@, gaan_sprite_at(build.manifest), build.sprite_definition@);
            let applied = writes_applied(old(output)@, ws, 3);
            &&& final(output)@ == checksummed(applied)
            &&& s.checksum as int == crate::rom::spec_checksum(applied)
            &&& s == spec_summary(*build, bank@.len() as usize, s.checksum)
            &&& only_ranges_changed(old(output)@, final(output)@, write_ranges(ws))
        },
{
    if header.len() != 6 || bank.len() > BAD_END_BANK_LIMIT - BAD_END_BANK_OFFSET {
        return Err("bad-ending pack ends outside its expanded bank or its header is not six bytes");
    }
    let w0 = header_write_of(source, BAD_END_TARGET_HEADER_OFFSET, header)?;
    let sprite_at = parse_hex(build.manifest.source_sprite_definition.offset.as_str())?;
    let w1 = header_write_of(source, sprite_at, build.sprite_definition.as_slice())?;
    let writes = vec![w0, w1, bank_write_of(BAD_END_BANK_OFFSET, bank)];
    assert(write_views(writes@) =~= gaan_writes(source@, header@, bank@, gaan_sprite_at(build.manifest), build.sprite_definition@));
    let checksum = insert_writes(output, &writes)?;
    Ok(summary(build, bank.len(), checksum))
}

} // verus!

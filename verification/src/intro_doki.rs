//! Automatic-prologue `ドキッ` -> `두근!` sprite compiler.
//!
//! The JP scene loads three mode-1 transfers. Only the final six tiles of the
//! high-pattern transfer belong to the effect lettering. They are rebuilt as
//! a 24x16 Korean sprite while every other decoded byte stays JP-owned. The
//! sprite template changes from 2x3 to 3x2 tiles so the same six-tile budget
//! shows three readable Korean symbols.

use vstd::prelude::*;
use crate::hex::{Error, hex_equals, hex_fits, hex_is, parse_hex, parse_u16_hex, spec_parse_hex};
use crate::text::string_is;
use crate::sets::{contains_usize, same_members, same_usize_members};
use crate::pack::{DecodedPack, SourcePack, checked_source_packs, pack_matches};
use crate::palette::{declared_palette, md_color, palette_declared, parse_md_palette, spec_md_color};
use crate::preview::{PixelBounds, RgbaImage, checker, checker_color, opaque_channel, push_opaque};
use crate::rom::{be16, read_be16, word_bytes, only_ranges_changed};
use crate::sets::copy_bytes;
use crate::insert::{WriteView, bank_write, bank_write_of, checksummed, header_write, header_write_of, insert_writes, write_ranges, write_views, writes_applied, writes_ok};
use crate::tiles::{
    MD_TILE_BYTES, all_nibbles, column_major_byte, column_major_pixel_value, decode_md_tiles_column_major,
    encode_md_tiles_column_major, pixel_roles_are, pixel_roles_match,
};

verus! {

pub const DOKI_MAP_HEADER_OFFSET: usize = 0x08_D3E2;
pub const DOKI_PATTERN_HEADER_OFFSET: usize = 0x08_D3E8;
pub const DOKI_LOW_PATTERN_HEADER_OFFSET: usize = 0x08_D3EE;
pub const DOKI_PATTERN_VRAM: u16 = 0x4000;
pub const DOKI_PATTERN_BANK_OFFSET: usize = 0x28_0000;
pub const DOKI_PATTERN_BANK_LIMIT: usize = 0x28_8000;
pub const DOKI_MAP_DECODED_BYTES: usize = 2_176;
pub const DOKI_SOURCE_PATTERN_BYTES: usize = 7_424;
pub const DOKI_LOW_PATTERN_BYTES: usize = 3_136;
pub const DOKI_MUTABLE_TILE_START: usize = 226;
pub const DOKI_MUTABLE_TILE_END: usize = 232;
pub const DOKI_MUTABLE_BYTES: usize = 192;
pub const DOKI_SPRITE_COUNT_OFFSET: usize = 0x08_E168;
pub const DOKI_SPRITE_ENTRY_OFFSET: usize = 0x08_E16A;
pub const DOKI_SPRITE_SIZE_OFFSET: usize = 0x08_E16C;
pub const PREVIEW_SCALE: usize = 8;

/// The three JP transfers, in declaration order.
pub const DOKI_PACK_HEADERS: [usize; 3] = [0x08_D3E2, 0x08_D3E8, 0x08_D3EE];
pub const DOKI_PACK_VRAM: [u16; 3] = [0xE000, 0x4000, 0x2000];
pub const DOKI_PACK_BYTES: [usize; 3] = [2_176, 7_424, 3_136];

/// Counts reported after compiling the `두근!` sprite.
pub struct IntroDokiSummary {
    pub source_pattern_tiles: usize,
    pub rewritten_tiles: usize,
    pub protected_pattern_bytes: usize,
    pub companion_decoded_bytes: usize,
    pub pack_bytes: usize,
    pub checksum: u16,
}

/// A palette role of the reduced sprite and the JP role it becomes.
pub struct PaletteRoleRemap {
    pub from: usize,
    pub to: usize,
}

/// A reviewed single-pixel role change of the final sprite.
pub struct PixelRoleOverride {
    pub x: usize,
    pub y: usize,
    pub from: usize,
    pub to: usize,
}

/// The 24x16 sprite surface and the box the master is reduced into.
pub struct OutputSurface {
    pub width: usize,
    pub height: usize,
    pub content_box: PixelBounds,
    pub alpha_threshold: u8,
}

pub struct MutableTileRange {
    pub start: usize,
    pub end_exclusive: usize,
}

/// The JP sprite-list entry that shows the effect.
pub struct SpriteTemplate {
    pub count_offset: String,
    pub count: String,
    pub entry_offset: String,
    pub source_y: String,
    pub source_size_link: String,
    pub target_size_link: String,
    pub source_attribute: String,
    pub source_x: String,
}

/// The intro `두근!` asset manifest.
pub struct IntroDokiManifest {
    pub schema_version: u32,
    pub asset_group_id: String,
    pub master_asset: String,
    pub master_sha256: String,
    pub master_width: usize,
    pub master_height: usize,
    pub master_alpha_bounds: PixelBounds,
    pub output_surface: OutputSurface,
    pub palette_line_words: Vec<String>,
    pub transparent_palette_index: usize,
    pub source_palette_indices: Vec<usize>,
    pub allowed_opaque_palette_indices: Vec<usize>,
    pub final_palette_role_remap: Vec<PaletteRoleRemap>,
    pub final_opaque_palette_indices: Vec<usize>,
    pub final_pixel_role_overrides: Vec<PixelRoleOverride>,
    pub mutable_tile_range: MutableTileRange,
    pub sprite_template: SpriteTemplate,
    pub source_packs: Vec<SourcePack>,
}

/// The reviewed role remap: the reduced fill and outline roles become the
/// JP black fill (5) and blue-gray outline (1).
pub open spec fn expected_remap() -> Seq<(usize, usize)> {
    seq![(1usize, 5usize), (5, 5), (7, 1), (9, 1), (11, 1)]
}

/// The reviewed per-pixel role overrides as (x, y, from, to).
pub open spec fn expected_overrides() -> Seq<(usize, usize, usize, usize)> {
    seq![
        (5usize, 8usize, 1usize, 5usize),
        (3, 9, 1, 5),
        (7, 9, 5, 1),
        (17, 9, 1, 5),
        (19, 9, 5, 0),
        (1, 10, 1, 5),
        (4, 10, 5, 1),
        (19, 10, 5, 0),
        (2, 11, 5, 1),
        (3, 11, 5, 1),
    ]
}

pub const REMAP_FROM: [usize; 5] = [1, 5, 7, 9, 11];
pub const REMAP_TO: [usize; 5] = [5, 5, 1, 1, 1];
pub const OVERRIDE_X: [usize; 10] = [5, 3, 7, 17, 19, 1, 4, 19, 2, 3];
pub const OVERRIDE_Y: [usize; 10] = [8, 9, 9, 9, 9, 10, 10, 10, 11, 11];
pub const OVERRIDE_FROM: [usize; 10] = [1, 1, 5, 1, 5, 1, 5, 5, 5, 5];
pub const OVERRIDE_TO: [usize; 10] = [5, 5, 1, 5, 0, 5, 1, 0, 1, 1];

pub open spec fn remap_pairs(r: Seq<PaletteRoleRemap>) -> Seq<(usize, usize)> {
    r.map_values(|e: PaletteRoleRemap| (e.from, e.to))
}

pub open spec fn override_tuples(o: Seq<PixelRoleOverride>) -> Seq<(usize, usize, usize, usize)> {
    o.map_values(|e: PixelRoleOverride| (e.x, e.y, e.from, e.to))
}

/// The three transfers are declared in order with their ids, headers,
/// destinations and sizes.
pub open spec fn packs_ok(packs: Seq<SourcePack>) -> bool {
    &&& packs.len() == 3
    &&& packs[0].id@ == "intro-doki-map"@
    &&& packs[1].id@ == "intro-doki-high-patterns"@
    &&& packs[2].id@ == "intro-doki-low-patterns"@
    &&& forall|i: int|
        0 <= i < 3 ==> hex_is(#[trigger] packs[i].header_offset@, DOKI_PACK_HEADERS[i] as nat) && hex_is(
            packs[i].vram_destination@,
            DOKI_PACK_VRAM[i] as nat,
        ) && packs[i].decoded_bytes == DOKI_PACK_BYTES[i]
}

/// The JP sprite attribute names the first mutable tile on palette line 2
/// with no priority or flip bits.
pub open spec fn attribute_ok(word: u16) -> bool {
    &&& word & 0x07FF == 0x02E2
    &&& (word >> 13u16) & 0x03 == 2
    &&& word & 0x9800 == 0
}

/// The sprite template declares the JP one-entry list at its fixed offsets,
/// the 2x3 JP size and the 3x2 Korean size, both linking to sprite 4.
pub open spec fn template_ok(t: SpriteTemplate) -> bool {
    &&& hex_is(t.count_offset@, 0x08_E168)
    &&& hex_is(t.count@, 1)
    &&& hex_is(t.entry_offset@, 0x08_E16A)
    &&& hex_is(t.source_y@, 0x0080)
    &&& hex_is(t.source_size_link@, 0x0604)
    &&& hex_is(t.target_size_link@, 0x0904)
    &&& hex_fits(t.source_attribute@, u16::MAX as nat)
    &&& attribute_ok(spec_parse_hex(t.source_attribute@).unwrap() as u16)
    &&& hex_is(t.source_x@, 0x0080)
}

/// Every fixed fact the `두근!` manifest must declare.
pub open spec fn manifest_shape_ok(m: IntroDokiManifest) -> bool {
    let s = m.output_surface;
    let b = s.content_box;
    &&& m.schema_version == 1
    &&& m.asset_group_id@ == "GFX-INTRO-DOKI"@
    &&& s.width == 24
    &&& s.height == 16
    &&& b.x + b.width <= 24
    &&& b.y + b.height <= 16
    &&& b.width != 0
    &&& b.height != 0
    &&& s.alpha_threshold != 0
    &&& s.alpha_threshold != 255
    &&& m.transparent_palette_index == 0
    &&& m.allowed_opaque_palette_indices@.len() > 0
    &&& !m.allowed_opaque_palette_indices@.contains(0)
    &&& forall|k: int| 0 <= k < m.allowed_opaque_palette_indices@.len() ==> #[trigger] m.allowed_opaque_palette_indices@[k] < 16
    &&& same_members(m.source_palette_indices@, seq![0usize, 1, 5])
    &&& remap_pairs(m.final_palette_role_remap@) == expected_remap()
    &&& m.final_opaque_palette_indices@ == seq![1usize, 5]
    &&& override_tuples(m.final_pixel_role_overrides@) == expected_overrides()
    &&& m.mutable_tile_range.start == 226
    &&& m.mutable_tile_range.end_exclusive == 232
    &&& packs_ok(m.source_packs@)
    &&& template_ok(m.sprite_template)
}

fn remap_matches(remap: &Vec<PaletteRoleRemap>) -> (ok: bool)
    ensures
        ok == (remap_pairs(remap@) == expected_remap()),
{
    if remap.len() != 5 {
        proof {
            assert(remap_pairs(remap@).len() != expected_remap().len());
        }
        return false;
    }
    let mut i: usize = 0;
    while i < 5
        invariant
            remap@.len() == 5,
            i <= 5,
            forall|k: int| 0 <= k < i ==> #[trigger] remap_pairs(remap@)[k] == expected_remap()[k],
        decreases 5 - i,
    {
        assert(expected_remap()[i as int] == (REMAP_FROM[i as int], REMAP_TO[i as int]));
        if remap[i].from != REMAP_FROM[i] || remap[i].to != REMAP_TO[i] {
            assert(remap_pairs(remap@)[i as int] != expected_remap()[i as int]);
            return false;
        }
        i = i + 1;
    }
    assert(remap_pairs(remap@) =~= expected_remap());
    true
}

fn overrides_match(overrides: &Vec<PixelRoleOverride>) -> (ok: bool)
    ensures
        ok == (override_tuples(overrides@) == expected_overrides()),
{
    if overrides.len() != 10 {
        proof {
            assert(override_tuples(overrides@).len() != expected_overrides().len());
        }
        return false;
    }
    let mut i: usize = 0;
    while i < 10
        invariant
            overrides@.len() == 10,
            i <= 10,
            forall|k: int| 0 <= k < i ==> #[trigger] override_tuples(overrides@)[k] == expected_overrides()[k],
        decreases 10 - i,
    {
        assert(expected_overrides()[i as int] == (
            OVERRIDE_X[i as int],
            OVERRIDE_Y[i as int],
            OVERRIDE_FROM[i as int],
            OVERRIDE_TO[i as int],
        ));
        let o = &overrides[i];
        if o.x != OVERRIDE_X[i] || o.y != OVERRIDE_Y[i] || o.from != OVERRIDE_FROM[i] || o.to != OVERRIDE_TO[i] {
            assert(override_tuples(overrides@)[i as int] != expected_overrides()[i as int]);
            return false;
        }
        i = i + 1;
    }
    assert(override_tuples(overrides@) =~= expected_overrides());
    true
}

fn packs_match(packs: &Vec<SourcePack>) -> (ok: bool)
    ensures
        ok == packs_ok(packs@),
{
    if packs.len() != 3 || !string_is(&packs[0].id, "intro-doki-map") || !string_is(
        &packs[1].id,
        "intro-doki-high-patterns",
    ) || !string_is(&packs[2].id, "intro-doki-low-patterns") {
        return false;
    }
    let mut i: usize = 0;
    while i < 3
        invariant
            packs@.len() == 3,
            i <= 3,
            forall|k: int|
                0 <= k < i ==> hex_is(#[trigger] packs@[k].header_offset@, DOKI_PACK_HEADERS[k] as nat) && hex_is(
                    packs@[k].vram_destination@,
                    DOKI_PACK_VRAM[k] as nat,
                ) && packs@[k].decoded_bytes == DOKI_PACK_BYTES[k],
        decreases 3 - i,
    {
        let pack = &packs[i];
        if !hex_equals(&pack.header_offset, DOKI_PACK_HEADERS[i]) || !hex_equals(
            &pack.vram_destination,
            DOKI_PACK_VRAM[i] as usize,
        ) || pack.decoded_bytes != DOKI_PACK_BYTES[i] {
            return false;
        }
        i = i + 1;
    }
    true
}

fn template_matches(t: &SpriteTemplate) -> (ok: bool)
    ensures
        ok == template_ok(*t),
{
    if !hex_equals(&t.count_offset, DOKI_SPRITE_COUNT_OFFSET) || !hex_equals(&t.count, 1) || !hex_equals(
        &t.entry_offset,
        DOKI_SPRITE_ENTRY_OFFSET,
    ) || !hex_equals(&t.source_y, 0x0080) || !hex_equals(&t.source_size_link, 0x0604) || !hex_equals(
        &t.target_size_link,
        0x0904,
    ) || !hex_equals(&t.source_x, 0x0080) {
        return false;
    }
    match parse_u16_hex(t.source_attribute.as_str()) {
        Ok(attribute) => attribute & 0x07FF == 0x02E2 && (attribute >> 13) & 0x03 == 2 && attribute & 0x9800 == 0,
        Err(_) => false,
    }
}

/// Refuse a manifest whose identity, surface, palette roles, reviewed
/// remaps, mutable range, transfers or sprite template drifted.
pub fn validate_manifest_shape(manifest: &IntroDokiManifest) -> (result: Result<(), Error>)
    ensures
        result is Ok <==> manifest_shape_ok(*manifest),
{
    if manifest.schema_version != 1 || !string_is(&manifest.asset_group_id, "GFX-INTRO-DOKI") {
        return Err("unsupported intro doki manifest identity");
    }
    let surface = &manifest.output_surface;
    let b = &surface.content_box;
    if surface.width != 24 || surface.height != 16 || b.x > 24 || b.width > 24 - b.x || b.y > 16 || b.height > 16
        - b.y || b.width == 0 || b.height == 0 || surface.alpha_threshold == 0 || surface.alpha_threshold == 255 {
        return Err("intro doki output surface drifted from the six-tile sprite");
    }
    let allowed = &manifest.allowed_opaque_palette_indices;
    if manifest.transparent_palette_index != 0 || allowed.len() == 0 || contains_usize(allowed.as_slice(), 0) {
        return Err("intro doki palette admission is invalid");
    }
    let mut k: usize = 0;
    while k < allowed.len()
        invariant
            allowed@ == manifest.allowed_opaque_palette_indices@,
            k <= allowed@.len(),
            forall|j: int| 0 <= j < k ==> #[trigger] allowed@[j] < 16,
        decreases allowed@.len() - k,
    {
        if allowed[k] >= 16 {
            return Err("intro doki palette admission is invalid");
        }
        k = k + 1;
    }
    let expected_source: Vec<usize> = vec![0, 1, 5];
    if !same_usize_members(manifest.source_palette_indices.as_slice(), expected_source.as_slice()) {
        return Err("intro doki JP source palette roles drifted");
    }
    let final_opaque = &manifest.final_opaque_palette_indices;
    if !remap_matches(&manifest.final_palette_role_remap) || final_opaque.len() != 2 || final_opaque[0] != 1
        || final_opaque[1] != 5 {
        proof {
            if final_opaque@.len() == 2 && final_opaque@ == seq![1usize, 5] {
                assert(final_opaque@[0] == 1 && final_opaque@[1] == 5);
            }
        }
        return Err("intro doki final black-fill and blue-gray-outline roles drifted");
    }
    assert(final_opaque@ =~= seq![1usize, 5]);
    if !overrides_match(&manifest.final_pixel_role_overrides) {
        return Err("intro doki reviewed per-pixel role overrides drifted");
    }
    if manifest.mutable_tile_range.start != DOKI_MUTABLE_TILE_START || manifest.mutable_tile_range.end_exclusive
        != DOKI_MUTABLE_TILE_END {
        return Err("intro doki mutable range drifted from the final six JP tiles");
    }
    if !packs_match(&manifest.source_packs) {
        return Err("intro doki source declarations drifted from the JP consumer");
    }
    if !template_matches(&manifest.sprite_template) {
        return Err("intro doki sprite template drifted from the JP consumer");
    }
    Ok(())
}

/// The JP sprite-list words the template pins: count at 0x08E168 and the
/// entry's y, size/link, attribute and x words from 0x08E16A.
pub open spec fn template_present(rom: Seq<u8>, m: IntroDokiManifest, target: bool) -> bool {
    &&& rom.len() >= 0x08_E172
    &&& be16(rom, 0x08_E168) == 1
    &&& be16(rom, 0x08_E16A) == 0x0080
    &&& be16(rom, 0x08_E16C) == (if target { 0x0904int } else { 0x0604int })
    &&& be16(rom, 0x08_E16E) == spec_parse_hex(m.sprite_template.source_attribute@).unwrap()
    &&& be16(rom, 0x08_E170) == 0x0080
}

/// Refuse a ROM whose JP sprite list drifted from the template; `target`
/// selects the Korean 3x2 size word in place of the JP 2x3 one.
pub fn validate_sprite_template(rom: &[u8], manifest: &IntroDokiManifest, target: bool) -> (result: Result<
    (),
    Error,
>)
    requires
        manifest_shape_ok(*manifest),
    ensures
        result is Ok <==> template_present(rom@, *manifest, target),
{
    let attribute = match parse_u16_hex(manifest.sprite_template.source_attribute.as_str()) {
        Ok(a) => a,
        Err(e) => {
            return Err(e);
        },
    };
    if rom.len() < DOKI_SPRITE_COUNT_OFFSET + 2 || read_be16(rom, DOKI_SPRITE_COUNT_OFFSET) != 1 {
        return Err("intro doki sprite count drifted from the JP template");
    }
    let size: u16 = if target { 0x0904 } else { 0x0604 };
    let expected: [u16; 4] = [0x0080, size, attribute, 0x0080];
    let mut w: usize = 0;
    while w < 4
        invariant
            rom@.len() >= 0x08_E16A,
            be16(rom@, 0x08_E168) == 1,
            expected@ == seq![0x0080u16, size, attribute, 0x0080u16],
            attribute as nat == spec_parse_hex(manifest.sprite_template.source_attribute@).unwrap(),
            size == (if target { 0x0904u16 } else { 0x0604u16 }),
            w <= 4,
            forall|j: int| 0 <= j < w ==> rom@.len() >= 0x08_E16A + 2 * j + 2 && #[trigger] be16(rom@, 0x08_E16A + 2 * j) == expected@[j],
        decreases 4 - w,
    {
        let offset = DOKI_SPRITE_ENTRY_OFFSET + w * 2;
        if rom.len() < offset + 2 {
            return Err("intro doki sprite template lies outside the ROM");
        }
        if read_be16(rom, offset) != expected[w] {
            proof {
                if w == 0 {
                    assert(be16(rom@, 0x08_E16A) != 0x0080);
                } else if w == 1 {
                    assert(be16(rom@, 0x08_E16C) != size);
                } else if w == 2 {
                    assert(be16(rom@, 0x08_E16E) != attribute);
                } else {
                    assert(be16(rom@, 0x08_E170) != 0x0080);
                }
            }
            return Err("intro doki sprite word drifted from the JP template");
        }
        w = w + 1;
    }
    assert(be16(rom@, 0x08_E16Aint + 2 * 0) == expected@[0]);
    assert(be16(rom@, 0x08_E16Aint + 2 * 1) == expected@[1]);
    assert(be16(rom@, 0x08_E16Aint + 2 * 2) == expected@[2]);
    assert(be16(rom@, 0x08_E16Aint + 2 * 3) == expected@[3]);
    Ok(())
}

/// The reviewed role table: transparency stays, the reduced fill roles 1
/// and 5 become the JP black fill 5, the outline roles 7, 9 and 11 become
/// the JP blue-gray outline 1; any other index has no JP role.
pub open spec fn role_remap(p: u8) -> Option<u8> {
    if p == 0 {
        Some(0u8)
    } else if p == 1 || p == 5 {
        Some(5u8)
    } else if p == 7 || p == 9 || p == 11 {
        Some(1u8)
    } else {
        None
    }
}

/// Row-major position of override `o` in the 24-pixel-wide sprite.
pub open spec fn override_position(o: (usize, usize, usize, usize)) -> int {
    o.1 * 24 + o.0
}

/// The role the last of the first `n` overrides at pixel `i` assigns.
pub open spec fn last_override(o: Seq<(usize, usize, usize, usize)>, n: int, i: int) -> Option<usize>
    decreases n,
{
    if n <= 0 {
        None
    } else if override_position(o[n - 1]) == i {
        Some(o[n - 1].3)
    } else {
        last_override(o, n - 1, i)
    }
}

/// Pixel `i` after the role remap and the first `n` overrides.
pub open spec fn role_pixel(fit: Seq<u8>, n: int, i: int) -> u8 {
    match last_override(expected_overrides(), n, i) {
        Some(to) => to as u8,
        None => role_remap(fit[i]).unwrap(),
    }
}

/// The reduced sprite can take the JP roles: every pixel has a role, each
/// override finds the role it expects, and the final sprite uses exactly
/// transparency, outline and fill.
pub open spec fn roles_ok(fit: Seq<u8>) -> bool {
    &&& fit.len() == 384
    &&& forall|i: int| 0 <= i < 384 ==> #[trigger] role_remap(fit[i]) is Some
    &&& forall|k: int|
        0 <= k < 10 ==> role_pixel(fit, k, override_position(#[trigger] expected_overrides()[k]))
            == expected_overrides()[k].2
    &&& pixel_roles_are(Seq::new(384, |i: int| role_pixel(fit, 10, i)), seq![1usize, 5, 0])
}

fn remap_role(remap: &Vec<PaletteRoleRemap>, pixel: u8) -> (role: Result<u8, Error>)
    requires
        remap_pairs(remap@) == expected_remap(),
    ensures
        role is Ok <==> role_remap(pixel) is Some,
        role matches Ok(r) ==> r == role_remap(pixel).unwrap(),
{
    if pixel == 0 {
        return Ok(0);
    }
    assert(remap_pairs(remap@).len() == remap@.len());
    let mut k: usize = 0;
    while k < remap.len()
        invariant
            remap_pairs(remap@) == expected_remap(),
            remap@.len() == 5,
            k <= 5,
            pixel != 0,
            forall|j: int| 0 <= j < k ==> #[trigger] remap@[j].from != pixel as usize,
        decreases 5 - k,
    {
        assert(remap_pairs(remap@)[k as int] == expected_remap()[k as int]);
        if remap[k].from == pixel as usize {
            return Ok(remap[k].to as u8);
        }
        k = k + 1;
    }
    assert(remap_pairs(remap@)[0] == expected_remap()[0]);
    assert(remap_pairs(remap@)[1] == expected_remap()[1]);
    assert(remap_pairs(remap@)[2] == expected_remap()[2]);
    assert(remap_pairs(remap@)[3] == expected_remap()[3]);
    assert(remap_pairs(remap@)[4] == expected_remap()[4]);
    Err("intro doki palette index has no final JP-role mapping")
}

/// Give the reduced 24x16 sprite its final JP roles: remap each opaque
/// role, apply the reviewed single-pixel overrides in order, and check that
/// exactly transparency, outline and fill remain.
pub fn remap_to_source_palette_roles(pixels: Vec<u8>, manifest: &IntroDokiManifest) -> (remapped: Result<
    Vec<u8>,
    Error,
>)
    requires
        manifest_shape_ok(*manifest),
    ensures
        remapped is Ok <==> roles_ok(pixels@),
        remapped matches Ok(r) ==> r@ == Seq::new(384, |i: int| role_pixel(pixels@, 10, i)),
{
    if pixels.len() != 384 {
        return Err("intro doki reduced sprite has another size");
    }
    let mut out: Vec<u8> = Vec::with_capacity(384);
    let mut i: usize = 0;
    while i < 384
        invariant
            manifest_shape_ok(*manifest),
            pixels@.len() == 384,
            i <= 384,
            out@.len() == i,
            forall|q: int| 0 <= q < i ==> #[trigger] role_remap(pixels@[q]) is Some,
            forall|q: int| 0 <= q < i ==> #[trigger] out@[q] == role_remap(pixels@[q]).unwrap(),
        decreases 384 - i,
    {
        let role = remap_role(&manifest.final_palette_role_remap, pixels[i])?;
        out.push(role);
        i = i + 1;
    }
    let overrides = &manifest.final_pixel_role_overrides;
    assert(override_tuples(overrides@).len() == overrides@.len());
    let mut k: usize = 0;
    while k < 10
        invariant
            manifest_shape_ok(*manifest),
            overrides@ == manifest.final_pixel_role_overrides@,
            pixels@.len() == 384,
            forall|q: int| 0 <= q < 384 ==> #[trigger] role_remap(pixels@[q]) is Some,
            k <= 10,
            overrides@.len() == 10,
            out@.len() == 384,
            forall|q: int| 0 <= q < 384 ==> #[trigger] out@[q] == role_pixel(pixels@, k as int, q),
            forall|j: int|
                0 <= j < k ==> role_pixel(pixels@, j, override_position(#[trigger] expected_overrides()[j]))
                    == expected_overrides()[j].2,
        decreases 10 - k,
    {
        assert(override_tuples(overrides@)[k as int] == expected_overrides()[k as int]);
        let o = &overrides[k];
        let offset = o.y * 24 + o.x;
        assert(offset == override_position(expected_overrides()[k as int]));
        assert(offset < 384);
        if out[offset] as usize != o.from {
            return Err("intro doki pixel override found another palette role");
        }
        out.set(offset, o.to as u8);
        assert forall|q: int| 0 <= q < 384 implies #[trigger] out@[q] == role_pixel(pixels@, k + 1, q) by {
        }
        k = k + 1;
    }
    let expected: Vec<usize> = vec![1, 5, 0];
    assert(out@ =~= Seq::new(384, |q: int| role_pixel(pixels@, 10, q)));
    if !pixel_roles_match(out.as_slice(), expected.as_slice()) {
        return Err("intro doki final JP-role palette drifted");
    }
    Ok(out)
}

/// The 16x24 JP sprite the six mutable tiles hold.
pub open spec fn jp_sprite(tiles: Seq<u8>) -> Seq<u8> {
    Seq::new(384, |i: int| column_major_pixel_value(tiles, 16, 24, i))
}

/// The JP effect tiles use exactly the declared JP palette roles.
pub open spec fn source_tiles_ok(tiles: Seq<u8>, m: IntroDokiManifest) -> bool {
    &&& tiles.len() == 192
    &&& pixel_roles_are(jp_sprite(tiles), m.source_palette_indices@)
}

/// Refuse JP effect tiles whose palette roles drifted.
pub fn validate_source_effect_tiles(tiles: &[u8], manifest: &IntroDokiManifest) -> (result: Result<(), Error>)
    ensures
        result is Ok <==> source_tiles_ok(tiles@, *manifest),
{
    if tiles.len() != DOKI_MUTABLE_BYTES {
        return Err("intro doki JP effect tile payload length is invalid");
    }
    let pixels = decode_md_tiles_column_major(tiles, 16, 24)?;
    assert(pixels@ =~= jp_sprite(tiles@));
    if !pixel_roles_match(pixels.as_slice(), manifest.source_palette_indices.as_slice()) {
        return Err("intro doki JP effect palette drifted");
    }
    Ok(())
}

/// A compiled `두근!` sprite before its pack is encoded.
pub struct IntroDokiBuild {
    pub manifest: IntroDokiManifest,
    pub palette: [u16; 16],
    pub source_payload: Vec<u8>,
    pub payload: Vec<u8>,
    pub pixel_fit: Vec<u8>,
    pub companion_decoded_bytes: usize,
    pub target_size_link: [u8; 2],
}

/// A build whose sprites the preview can draw.
pub open spec fn build_wf(b: IntroDokiBuild) -> bool {
    &&& b.pixel_fit@.len() == 384
    &&& all_nibbles(b.pixel_fit@)
    &&& b.source_payload@.len() == 7_424
    &&& b.payload@.len() == 7_424
    &&& b.manifest.transparent_palette_index == 0
}

/// Everything the `두근!` compiler requires of its inputs: the ROM `source`
/// for the sprite template, the decoded JP transfers and the 24x16 sprite
/// `reduced` from the master.
pub open spec fn build_inputs_ok(source: Seq<u8>, m: IntroDokiManifest, decoded: Seq<DecodedPack>, reduced: Seq<u8>) -> bool {
    &&& manifest_shape_ok(m)
    &&& template_present(source, m, false)
    &&& palette_declared(m.palette_line_words@.map_values(|w: String| w@))
    &&& roles_ok(reduced)
    &&& decoded.len() == 3
    &&& forall|i: int| 0 <= i < 3 ==> pack_matches(#[trigger] decoded[i], m.source_packs@[i])
    &&& source_tiles_ok(decoded[1].data@.subrange(7_232, 7_424), m)
}

proof fn lemma_roles_are_nibbles(pixels: Seq<u8>)
    requires
        pixels.len() == 384,
        pixel_roles_are(pixels, seq![1usize, 5, 0]),
    ensures
        all_nibbles(pixels),
{
    assert forall|i: int| 0 <= i < pixels.len() implies #[trigger] pixels[i] < 16 by {
        let v = pixels[i] as usize;
        assert(crate::tiles::has_pixel(pixels, v as int));
        assert(seq![1usize, 5, 0].contains(v));
    }
}

/// Compile the `두근!` sprite: check the manifest and the JP sprite list,
/// give the reduced sprite its JP roles, check every JP transfer and the
/// JP effect tiles, and write the sprite's column-major tiles over the last
/// six tiles of the high-pattern transfer.
pub fn build_intro_doki(source: &[u8], manifest: IntroDokiManifest, decoded: &Vec<DecodedPack>, reduced: Vec<u8>) -> (build:
    Result<IntroDokiBuild, Error>)
    ensures
        build is Ok <==> build_inputs_ok(source@, manifest, decoded@, reduced@),
        build matches Ok(b) ==> {
            &&& build_wf(b)
            &&& b.manifest == manifest
            &&& b.palette@ == declared_palette(manifest.palette_line_words@)
            &&& b.pixel_fit@ == Seq::new(384, |i: int| role_pixel(reduced@, 10, i))
            &&& b.source_payload@ == decoded@[1].data@
            &&& b.payload@.subrange(0, 7_232) == b.source_payload@.subrange(0, 7_232)
            &&& forall|j: int|
                7_232 <= j < 7_424 ==> #[trigger] b.payload@[j] == column_major_byte(b.pixel_fit@, 24, 16, j - 7_232)
            &&& b.companion_decoded_bytes == decoded@[0].data@.len() + decoded@[2].data@.len()
            &&& b.target_size_link@ == word_bytes(0x0904)
        },
{
    validate_manifest_shape(&manifest)?;
    validate_sprite_template(source, &manifest, false)?;
    let palette = parse_md_palette(&manifest.palette_line_words)?;
    assert(palette@ =~= declared_palette(manifest.palette_line_words@));
    let pixel_fit = remap_to_source_palette_roles(reduced, &manifest)?;
    proof {
        lemma_roles_are_nibbles(pixel_fit@);
    }
    let encoded = encode_md_tiles_column_major(pixel_fit.as_slice(), 24, 16)?;
    let payloads = checked_source_packs(decoded, &manifest.source_packs)?;
    let companion_decoded_bytes = payloads[0].len() + payloads[2].len();
    let source_payload = payloads[1].clone();
    let mutable_start = DOKI_MUTABLE_TILE_START * MD_TILE_BYTES;
    let mutable_end = DOKI_MUTABLE_TILE_END * MD_TILE_BYTES;
    validate_source_effect_tiles(&source_payload.as_slice()[mutable_start..mutable_end], &manifest)?;
    let mut payload = source_payload.clone();
    let mut j: usize = 0;
    while j < DOKI_MUTABLE_BYTES
        invariant
            mutable_start == 7_232,
            payload@.len() == 7_424,
            source_payload@.len() == 7_424,
            encoded@.len() == 192,
            j <= 192,
            forall|q: int|
                0 <= q < 7_424 ==> #[trigger] payload@[q] == (if 7_232 <= q < 7_232 + j {
                    encoded@[q - 7_232]
                } else {
                    source_payload@[q]
                }),
        decreases 192 - j,
    {
        payload.set(mutable_start + j, encoded[j]);
        j = j + 1;
    }
    assert(payload@.subrange(0, 7_232) =~= source_payload@.subrange(0, 7_232));
    let target_size = parse_u16_hex(manifest.sprite_template.target_size_link.as_str())?;
    let target_size_link = [(target_size / 256) as u8, (target_size % 256) as u8];
    assert(target_size_link@ =~= word_bytes(0x0904));
    Ok(IntroDokiBuild {
        manifest,
        palette,
        source_payload,
        payload,
        pixel_fit,
        companion_decoded_bytes,
        target_size_link,
    })
}

/// Summary of a build; `pack_bytes` is the size of its encoded pack bank.
pub open spec fn spec_summary(b: IntroDokiBuild, pack_bytes: usize, checksum: u16) -> IntroDokiSummary {
    IntroDokiSummary {
        source_pattern_tiles: (b.source_payload@.len() / 32) as usize,
        rewritten_tiles: 6,
        protected_pattern_bytes: (b.source_payload@.len() - 192) as usize,
        companion_decoded_bytes: b.companion_decoded_bytes,
        pack_bytes,
        checksum,
    }
}

/// Report the counts of a build.
pub fn summary(b: &IntroDokiBuild, pack_bytes: usize, checksum: u16) -> (s: IntroDokiSummary)
    requires
        build_wf(*b),
    ensures
        s == spec_summary(*b, pack_bytes, checksum),
{
    IntroDokiSummary {
        source_pattern_tiles: b.source_payload.len() / MD_TILE_BYTES,
        rewritten_tiles: DOKI_MUTABLE_TILE_END - DOKI_MUTABLE_TILE_START,
        protected_pattern_bytes: b.source_payload.len() - DOKI_MUTABLE_BYTES,
        companion_decoded_bytes: b.companion_decoded_bytes,
        pack_bytes,
        checksum,
    }
}

/// Colour of comparison pixel (`x`, `y`): the JP 16x24 sprite in the left
/// 24x24 panel from column 4, the Korean 24x16 sprite in the right panel
/// from (28, 4), a grey checkerboard wherever neither is opaque.
pub open spec fn preview_color(b: IntroDokiBuild, x: int, y: int) -> Seq<u8> {
    let jp = jp_sprite(b.source_payload@.subrange(7_232, 7_424));
    if 4 <= x < 20 && 0 <= y < 24 && jp[y * 16 + x - 4] != 0 {
        spec_md_color(b.palette@[jp[y * 16 + x - 4] as int])
    } else if 28 <= x < 52 && 4 <= y < 20 && b.pixel_fit@[(y - 4) * 24 + x - 28] != 0 {
        spec_md_color(b.palette@[b.pixel_fit@[(y - 4) * 24 + x - 28] as int])
    } else {
        checker(x, y, 210, 242)
    }
}

/// Byte `k` of the 416x192 preview: the 52x24 comparison scaled 8 times.
pub open spec fn preview_byte(b: IntroDokiBuild, k: int) -> u8 {
    let q = k / 4;
    opaque_channel(preview_color(b, (q % 416) / 8, (q / 416) / 8), k % 4)
}

/// Render an 8x checker-backed JP/KR comparison of the exact six-tile
/// sprite, both in the JP palette line.
pub fn write_intro_doki_preview(b: &IntroDokiBuild, pack_bytes: usize) -> (result: (RgbaImage, IntroDokiSummary))
    requires
        build_wf(*b),
    ensures
        result.0.width == 416,
        result.0.height == 192,
        result.0.rgba@.len() == 416 * 192 * 4,
        forall|k: int| 0 <= k < 416 * 192 * 4 ==> #[trigger] result.0.rgba@[k] == preview_byte(*b, k),
        result.1 == spec_summary(*b, pack_bytes, 0),
{
    let tiles = &b.source_payload.as_slice()[DOKI_MUTABLE_TILE_START * MD_TILE_BYTES..DOKI_MUTABLE_TILE_END * MD_TILE_BYTES];
    let jp = match decode_md_tiles_column_major(tiles, 16, 24) {
        Ok(p) => p,
        Err(_) => {
            proof {
                assert(false);
            }
            Vec::new()
        },
    };
    assert(jp@ =~= jp_sprite(b.source_payload@.subrange(7_232, 7_424)));
    let preview_width: usize = 416;
    let total: usize = 416 * 192;
    let mut rgba: Vec<u8> = Vec::with_capacity(total * 4);
    let mut q: usize = 0;
    while q < total
        invariant
            build_wf(*b),
            jp@ == jp_sprite(b.source_payload@.subrange(7_232, 7_424)),
            jp@.len() == 384,
            all_nibbles(jp@),
            preview_width == 416,
            total == 416 * 192,
            q <= total,
            rgba@.len() == q * 4,
            forall|k: int| 0 <= k < q * 4 ==> #[trigger] rgba@[k] == preview_byte(*b, k),
        decreases total - q,
    {
        let x = (q % preview_width) / PREVIEW_SCALE;
        let y = (q / preview_width) / PREVIEW_SCALE;
        let color = if 4 <= x && x < 20 && y < 24 && jp[y * 16 + x - 4] != 0 {
            md_color(b.palette[jp[y * 16 + x - 4] as usize])
        } else if 28 <= x && x < 52 && 4 <= y && y < 20 && b.pixel_fit[(y - 4) * 24 + x - 28] != 0 {
            md_color(b.palette[b.pixel_fit[(y - 4) * 24 + x - 28] as usize])
        } else {
            checker_color(x, y, 210, 242)
        };
        assert(color@ =~= preview_color(*b, x as int, y as int));
        let ghost before = rgba@;
        push_opaque(&mut rgba, color);
        assert forall|k: int| 0 <= k < (q + 1) * 4 implies #[trigger] rgba@[k] == preview_byte(*b, k) by {
            if k >= q * 4 {
                assert(k / 4 == q);
                let c = k - q * 4;
                assert(rgba@[before.len() + c] == opaque_channel(color@, c));
            } else {
                assert(rgba@[k] == before[k]);
            }
        }
        q = q + 1;
    }
    let image = RgbaImage { width: preview_width, height: 192, rgba };
    (image, summary(b, pack_bytes, 0))
}

/// The writes of the doki insertion: the pattern header and the 3x2
/// sprite size link over the JP bytes, then the bank over the erased
/// expanded bank.
pub open spec fn doki_writes(source: Seq<u8>, header: Seq<u8>, size_link: Seq<u8>, bank: Seq<u8>) -> Seq<WriteView> {
    seq![header_write(source, 0x08_D3E8, header), header_write(source, 0x08_E16C, size_link), bank_write(0x28_0000, bank)]
}

/// Everything the doki insertion checks: a six-byte header, a bank that
/// ends within 0x288000, the JP bytes in `source`, every write finding its
/// expected bytes, and the written ROM carrying the 3x2 sprite template.
pub open spec fn doki_insert_ok(
    source: Seq<u8>,
    image: Seq<u8>,
    header: Seq<u8>,
    size_link: Seq<u8>,
    bank: Seq<u8>,
    m: IntroDokiManifest,
) -> bool {
    let ws = doki_writes(source, header, size_link, bank);
    &&& header.len() == 6
    &&& 0x28_0000 + bank.len() <= 0x28_8000
    &&& 0x08_D3E8 + 6 <= source.len()
    &&& 0x08_E16C + size_link.len() <= source.len()
    &&& writes_ok(image, ws)
    &&& template_present(checksummed(writes_applied(image, ws, 3)), m, true)
}

/// Insert the doki pattern pack and its 3x2 sprite size link, then the
/// header checksum, and check the written sprite template. On any refusal
/// the output is left as it was.
pub fn apply_intro_doki(
    source: &[u8],
    output: &mut Vec<u8>,
    build: &IntroDokiBuild,
    header: &[u8],
    bank: &[u8],
) -> (result: Result<IntroDokiSummary, Error>)
    requires
        manifest_shape_ok(build.manifest),
        build_wf(*build),
    ensures
        result is Ok <==> doki_insert_ok(source@, old(output)@, header@, build.target_size_link@, bank@, build.manifest),
        result is Err ==> final(output)@ == old(output)@,
        result matches Ok(s) ==> {
            let ws = doki_writes(source@, header@, build.target_size_link@, bank@);
            let applied = writes_applied(old(output)@, ws, 3);
            &&& final(output)@ == checksummed(applied)
            &&& s.checksum as int == crate::rom::spec_checksum(applied)
            &&& s == spec_summary(*build, bank@.len() as usize, s.checksum)
            &&& only_ranges_changed(old(output)@, final(output)@, write_ranges(ws))
        },
{
    if header.len() != 6 || bank.len() > DOKI_PATTERN_BANK_LIMIT - DOKI_PATTERN_BANK_OFFSET {
        return Err("intro doki pack ends outside its expanded bank or its header is not six bytes");
    }
    let w0 = header_write_of(source, DOKI_PATTERN_HEADER_OFFSET, header)?;
    let w1 = header_write_of(source, DOKI_SPRITE_SIZE_OFFSET, build.target_size_link.as_slice())?;
    let writes = vec![w0, w1, bank_write_of(DOKI_PATTERN_BANK_OFFSET, bank)];
    assert(write_views(writes@) =~= doki_writes(source@, header@, build.target_size_link@, bank@));
    let original = copy_bytes(output.as_slice());
    let checksum = insert_writes(output, &writes)?;
    match validate_sprite_template(output.as_slice(), &build.manifest, true) {
        Ok(()) => {},
        Err(e) => {
            *output = original;
            return Err(e);
        },
    }
    Ok(summary(build, bank.len(), checksum))
}

} // verus!

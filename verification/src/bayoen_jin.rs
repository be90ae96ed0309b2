//! Battle effect `じ〜ん` -> `찡…`.
//!
//! The effect occupies tiles 33..45 of one 66-tile battle-main transfer that
//! five headers alias. Its exact conditioned draw path stays a runtime gate,
//! but the source pack, mutable range, palette roles and tile layout are all
//! closed here.

use vstd::prelude::*;
use crate::hex::{Error, hex_equals, hex_is, parse_hex, parse_u16_hex, spec_parse_hex};
use crate::text::{byte_len, has_byte_len, seq_contains_run, str_contains, str_eq, string_is};
use crate::sets::{bytes_equal, same_members, same_usize_members, usize_slices_equal};
use crate::pack::DecodedPack;
use crate::palette::{md_color, palette_declared, parse_md_palette, spec_md_color};
use crate::preview::{RgbaImage, checker, checker_color, opaque_channel, push_opaque};
use crate::tiles::{
    MD_TILE_BYTES, all_nibbles, column_major_byte, column_major_pixel_value,
    decode_md_tiles_column_major, encode_md_tiles_column_major, pixel_roles_are, pixel_roles_match,
};
use crate::digest::{sha256_hex, sha256_hex_of};
use crate::font_effect::{blit_indexed_glyph, blitted, core_within, outline_role, outline_role_of, render_indexed_glyph};

use crate::insert::{WriteView, bank_write, bank_write_of, checksummed, header_write, header_write_of, insert_writes, write_ranges, write_views, writes_applied, writes_ok};
use crate::rom::only_ranges_changed;

verus! {

pub const JIN_VRAM_DESTINATION: u16 = 0x0680;
pub const JIN_BANK_OFFSET: usize = 0x2B_8000;
pub const JIN_BANK_LIMIT: usize = 0x2C_0000;
pub const JIN_SOURCE_BYTES: usize = 2_112;
pub const JIN_SOURCE_TILES: usize = 66;
pub const JIN_TILE_START: usize = 33;
pub const JIN_TILE_END: usize = 45;
pub const JIN_TILES: usize = 12;
pub const JIN_BYTES: usize = 384;
pub const JIN_WIDTH: usize = 48;
pub const JIN_HEIGHT: usize = 16;
pub const PREVIEW_SCALE: usize = 12;
pub const PREVIEW_GAP: usize = 8;

/// The five battle-main headers that alias the effect's transfer.
pub open spec fn jin_header_offset(k: int) -> int {
    0x07_80AC + 20 * k
}

/// Counts reported after compiling the battle effect.
pub struct BayoenJinSummary {
    pub source_tiles: usize,
    pub rewritten_tiles: usize,
    pub protected_bytes: usize,
    pub visible_pixels: usize,
    pub pack_bytes: usize,
    pub checksum: u16,
}

pub struct OutputSurface {
    pub width: usize,
    pub height: usize,
}

pub struct MutableTileRange {
    pub start: usize,
    pub end_exclusive: usize,
    pub source_sha256: String,
}

/// One transfer declared under several aliasing headers.
pub struct SourcePack {
    pub id: String,
    pub header_offsets: Vec<String>,
    pub vram_destination: String,
    pub decoded_bytes: usize,
    pub decoded_sha256: String,
}

/// The battle-effect asset manifest.
pub struct BayoenJinManifest {
    pub schema_version: u32,
    pub asset_group_id: String,
    pub source_policy: String,
    pub font_asset: String,
    pub font_sha256: String,
    pub jp_text: String,
    pub ko: String,
    pub output_surface: OutputSurface,
    pub palette_line_words: Vec<String>,
    pub transparent_palette_index: usize,
    pub source_palette_indices: Vec<usize>,
    pub target_palette_indices: Vec<usize>,
    pub mutable_tile_range: MutableTileRange,
    pub tile_layout: Vec<Vec<usize>>,
    pub source_pack: SourcePack,
}

/// Row `r` of the column-major 6x2 tile layout.
pub open spec fn layout_row_ok(row: Seq<usize>, r: int) -> bool {
    &&& row.len() == 6
    &&& forall|c: int| 0 <= c < 6 ==> #[trigger] row[c] == c * 2 + r
}

/// Every fixed fact the battle-effect manifest must declare.
pub open spec fn manifest_shape_ok(m: BayoenJinManifest) -> bool {
    &&& m.schema_version == 1
    &&& m.asset_group_id@ == "GFX-BATTLE-BAYOEN-JIN"@
    &&& seq_contains_run(m.source_policy@, "JP"@)
    &&& m.font_asset@ == "neodgm.ttf"@
    &&& m.jp_text@ == "じ〜ん"@
    &&& m.ko@ == "찡…"@
    &&& m.output_surface.width == 48
    &&& m.output_surface.height == 16
    &&& m.transparent_palette_index == 0
    &&& same_members(m.source_palette_indices@, seq![0usize, 13, 14, 15])
    &&& m.target_palette_indices@ == seq![13usize, 15, 14]
    &&& m.mutable_tile_range.start == 33
    &&& m.mutable_tile_range.end_exclusive == 45
    &&& byte_len(m.mutable_tile_range.source_sha256@) == 64
    &&& m.tile_layout@.len() == 2
    &&& layout_row_ok(m.tile_layout@[0]@, 0)
    &&& layout_row_ok(m.tile_layout@[1]@, 1)
    &&& m.source_pack.header_offsets@.len() == 5
    &&& forall|k: int| 0 <= k < 5 ==> #[trigger] hex_is(m.source_pack.header_offsets@[k]@, jin_header_offset(k) as nat)
    &&& m.source_pack.id@ == "battle-main-bayoen-jin"@
    &&& hex_is(m.source_pack.vram_destination@, 0x0680)
    &&& m.source_pack.decoded_bytes == 2_112
    &&& byte_len(m.source_pack.decoded_sha256@) == 64
}

fn layout_row_matches(row: &Vec<usize>, r: usize) -> (same: bool)
    requires
        r < 2,
    ensures
        same == layout_row_ok(row@, r as int),
{
    if row.len() != 6 {
        return false;
    }
    let mut c: usize = 0;
    while c < 6
        invariant
            row@.len() == 6,
            r < 2,
            c <= 6,
            forall|k: int| 0 <= k < c ==> #[trigger] row@[k] == k * 2 + r,
        decreases 6 - c,
    {
        if row[c] != c * 2 + r {
            return false;
        }
        c = c + 1;
    }
    true
}

/// Refuse a manifest whose identity, palette roles, tile range, layout or
/// source pack drifted from the JP structure.
pub fn validate_manifest_shape(manifest: &BayoenJinManifest) -> (result: Result<(), Error>)
    ensures
        result is Ok <==> manifest_shape_ok(*manifest),
{
    if manifest.schema_version != 1 || !string_is(&manifest.asset_group_id, "GFX-BATTLE-BAYOEN-JIN")
        || !str_contains(manifest.source_policy.as_str(), "JP") || !string_is(
        &manifest.font_asset,
        "neodgm.ttf",
    ) || !string_is(&manifest.jp_text, "じ〜ん") || !string_is(&manifest.ko, "찡…")
        || manifest.output_surface.width != JIN_WIDTH || manifest.output_surface.height
        != JIN_HEIGHT {
        return Err("unsupported Bayoen jin manifest identity");
    }
    if manifest.transparent_palette_index != 0 || !same_usize_members(
        manifest.source_palette_indices.as_slice(),
        &[0, 13, 14, 15],
    ) || !usize_slices_equal(manifest.target_palette_indices.as_slice(), &[13, 15, 14]) {
        return Err("Bayoen jin palette roles drifted");
    }
    let range = &manifest.mutable_tile_range;
    if range.start != JIN_TILE_START || range.end_exclusive != JIN_TILE_END || !has_byte_len(
        &range.source_sha256,
        64,
    ) {
        return Err("Bayoen jin mutable tile range drifted");
    }
    if manifest.tile_layout.len() != 2 || !layout_row_matches(&manifest.tile_layout[0], 0)
        || !layout_row_matches(&manifest.tile_layout[1], 1) {
        return Err("Bayoen jin tile layout drifted");
    }
    let pack = &manifest.source_pack;
    let offsets = &pack.header_offsets;
    let mut k: usize = 0;
    let mut all_match = offsets.len() == 5;
    while k < offsets.len()
        invariant
            *offsets == manifest.source_pack.header_offsets,
            k <= offsets@.len(),
            all_match == (offsets@.len() == 5 && forall|j: int|
                0 <= j < k ==> #[trigger] hex_is(offsets@[j]@, jin_header_offset(j) as nat)),
            forall|j: int| 0 <= j < k ==> crate::hex::hex_fits(#[trigger] offsets@[j]@, usize::MAX as nat),
        decreases offsets@.len() - k,
    {
        let parsed = match parse_hex(offsets[k].as_str()) {
            Ok(parsed) => parsed,
            Err(e) => {
                assert(!manifest_shape_ok(*manifest)) by {
                    if offsets@.len() == 5 {
                        assert(!hex_is(offsets@[k as int]@, jin_header_offset(k as int) as nat));
                    }
                }
                return Err(e);
            },
        };
        if k >= 5 || parsed != 0x07_80AC + 20 * k {
            all_match = false;
        }
        proof {
            if k < 5 && parsed == 0x07_80AC + 20 * k {
                assert(hex_is(offsets@[k as int]@, jin_header_offset(k as int) as nat));
            } else if k < 5 {
                assert(!hex_is(offsets@[k as int]@, jin_header_offset(k as int) as nat));
            }
        }
        k = k + 1;
    }
    let vram = parse_u16_hex(pack.vram_destination.as_str())?;
    if !string_is(&pack.id, "battle-main-bayoen-jin") || !all_match || vram != JIN_VRAM_DESTINATION
        || pack.decoded_bytes != JIN_SOURCE_BYTES || !has_byte_len(&pack.decoded_sha256, 64) {
        return Err("Bayoen jin source pack declaration drifted");
    }
    Ok(())
}

/// Alias `k` of the declaration decoded to `decoded`.
pub open spec fn alias_ok(decoded: DecodedPack, declaration: SourcePack, k: int) -> bool {
    &&& spec_parse_hex(declaration.header_offsets@[k]@) == Some(decoded.header_offset as nat)
    &&& spec_parse_hex(declaration.vram_destination@) == Some(decoded.vram_destination as nat)
    &&& decoded.data@.len() == declaration.decoded_bytes
    &&& sha256_hex_of(decoded.data@) == declaration.decoded_sha256@
}

/// Every aliasing header decodes the declared transfer, and all of them the
/// same bytes.
pub open spec fn aliases_ok(decoded: Seq<DecodedPack>, declaration: SourcePack) -> bool {
    &&& decoded.len() == declaration.header_offsets@.len()
    &&& decoded.len() > 0
    &&& forall|k: int| 0 <= k < decoded.len() ==> #[trigger] alias_ok(decoded[k], declaration, k)
    &&& forall|k: int| 0 <= k < decoded.len() ==> #[trigger] decoded[k].data@ == decoded[0].data@
}

/// Accept the JP transfer only when every alias decodes the declared,
/// identical bytes; yield those bytes. `decoded` holds one decoded transfer
/// per declared header, in order.
pub fn checked_source_pack(decoded: &Vec<DecodedPack>, declaration: &SourcePack) -> (payload: Result<
    Vec<u8>,
    Error,
>)
    ensures
        payload is Ok <==> aliases_ok(decoded@, *declaration),
        payload matches Ok(p) ==> p@ == decoded@[0].data@,
{
    let offsets = &declaration.header_offsets;
    if decoded.len() != offsets.len() {
        return Err("decoded aliases do not match the declared headers");
    }
    if decoded.len() == 0 {
        return Err("source pack declares no aliases");
    }
    let mut k: usize = 0;
    while k < decoded.len()
        invariant
            *offsets == declaration.header_offsets,
            decoded@.len() == offsets@.len(),
            decoded@.len() > 0,
            k <= decoded@.len(),
            forall|j: int| 0 <= j < k ==> #[trigger] alias_ok(decoded@[j], *declaration, j),
            forall|j: int| 0 <= j < k ==> #[trigger] decoded@[j].data@ == decoded@[0].data@,
        decreases decoded@.len() - k,
    {
        let alias = &decoded[k];
        let header_offset = match parse_hex(offsets[k].as_str()) {
            Ok(v) => v,
            Err(e) => {
                assert(!alias_ok(decoded@[k as int], *declaration, k as int));
                return Err(e);
            },
        };
        if header_offset != alias.header_offset {
            assert(!alias_ok(decoded@[k as int], *declaration, k as int));
            return Err("source alias was decoded from another header");
        }
        let vram = match parse_u16_hex(declaration.vram_destination.as_str()) {
            Ok(v) => v,
            Err(e) => {
                assert(!alias_ok(decoded@[k as int], *declaration, k as int));
                return Err(e);
            },
        };
        if alias.vram_destination != vram || alias.data.len() != declaration.decoded_bytes {
            assert(!alias_ok(decoded@[k as int], *declaration, k as int));
            return Err("source alias drifted");
        }
        let actual_hash = sha256_hex(alias.data.as_slice());
        if !str_eq(actual_hash.as_str(), declaration.decoded_sha256.as_str()) {
            assert(!alias_ok(decoded@[k as int], *declaration, k as int));
            return Err("source alias SHA-256 drifted");
        }
        if k > 0 && !bytes_equal(alias.data.as_slice(), decoded[k - 1].data.as_slice()) {
            assert(decoded@[k - 1].data@ == decoded@[0].data@);
            assert(decoded@[k as int].data@ != decoded@[0].data@);
            return Err("source alias decodes a different payload");
        }
        k = k + 1;
    }
    Ok(decoded[0].data.clone())
}

/// The row-major 48x16 surface that twelve column-major tiles decode to.
pub open spec fn decoded_surface(tiles: Seq<u8>) -> Seq<u8> {
    Seq::new(768, |i: int| column_major_pixel_value(tiles, 48, 16, i))
}

/// The twelve JP effect tiles are the declared ones and use exactly the
/// declared palette roles.
pub open spec fn source_tiles_ok(tiles: Seq<u8>, m: BayoenJinManifest) -> bool {
    &&& tiles.len() == 384
    &&& sha256_hex_of(tiles) == m.mutable_tile_range.source_sha256@
    &&& pixel_roles_are(decoded_surface(tiles), m.source_palette_indices@)
}

/// Refuse JP effect tiles whose length, SHA-256 or palette roles drifted.
pub fn validate_source_tiles(tiles: &[u8], manifest: &BayoenJinManifest) -> (result: Result<
    (),
    Error,
>)
    ensures
        result is Ok <==> source_tiles_ok(tiles@, *manifest),
{
    if tiles.len() != JIN_BYTES {
        return Err("Bayoen jin JP tile payload length is invalid");
    }
    let actual_hash = sha256_hex(tiles);
    if !str_eq(actual_hash.as_str(), manifest.mutable_tile_range.source_sha256.as_str()) {
        return Err("Bayoen jin JP tile SHA-256 mismatch");
    }
    let pixels = decode_md_tiles_column_major(tiles, JIN_WIDTH, JIN_HEIGHT)?;
    assert(pixels@ =~= decoded_surface(tiles@));
    if !pixel_roles_match(pixels.as_slice(), manifest.source_palette_indices.as_slice()) {
        return Err("Bayoen jin JP palette drifted");
    }
    Ok(())
}

/// The three dots of the large ellipsis in its 24x16 cell.
pub open spec fn ellipsis_at(x: int, y: int) -> bool {
    10 <= y < 13 && ((2 <= x < 5) || (10 <= x < 13) || (18 <= x < 21))
}

/// Core bitmap of the 24x16 ellipsis cell.
pub open spec fn ellipsis_core() -> Seq<bool> {
    Seq::new(384, |j: int| ellipsis_at(j % 24, j / 24))
}

/// Draw the outlined large ellipsis into the 48x16 surface at column
/// `destination_x`.
pub fn render_large_ellipsis(
    surface: &mut [u8],
    destination_x: usize,
    transparent: u8,
    core_index: u8,
    inner_index: u8,
    outer_index: u8,
) -> (result: Result<(), Error>)
    ensures
        result is Ok <==> (old(surface)@.len() == 768 && destination_x + 24 <= 48),
        final(surface)@.len() == old(surface)@.len(),
        result is Err ==> final(surface)@ == old(surface)@,
        result is Ok ==> forall|i: int|
            0 <= i < 768 ==> #[trigger] final(surface)@[i] == (if destination_x <= i % 48 < destination_x + 24 {
                outline_role(
                    ellipsis_core(),
                    24,
                    16,
                    i % 48 - destination_x,
                    i / 48,
                    transparent,
                    core_index,
                    inner_index,
                    outer_index,
                )
            } else {
                old(surface)@[i]
            }),
{
    if surface.len() != JIN_WIDTH * JIN_HEIGHT || destination_x > JIN_WIDTH - 24 {
        return Err("Bayoen jin ellipsis destination is invalid");
    }
    let mut core: Vec<bool> = Vec::with_capacity(384);
    let mut j: usize = 0;
    while j < 384
        invariant
            j <= 384,
            core@.len() == j,
            forall|q: int| 0 <= q < j ==> #[trigger] core@[q] == ellipsis_at(q % 24, q / 24),
        decreases 384 - j,
    {
        let x = j % 24;
        let y = j / 24;
        core.push(10 <= y && y < 13 && ((2 <= x && x < 5) || (10 <= x && x < 13) || (18 <= x && x < 21)));
        j = j + 1;
    }
    assert(core@ =~= ellipsis_core());
    let ghost before = surface@;
    let mut q: usize = 0;
    while q < 384
        invariant
            core@ == ellipsis_core(),
            surface@.len() == 768,
            before.len() == 768,
            destination_x + 24 <= 48,
            q <= 384,
            forall|i: int|
                0 <= i < 768 ==> #[trigger] surface@[i] == (if destination_x <= i % 48 < destination_x + 24
                    && (i / 48) * 24 + (i % 48 - destination_x) < q {
                    outline_role(
                        ellipsis_core(),
                        24,
                        16,
                        i % 48 - destination_x,
                        i / 48,
                        transparent,
                        core_index,
                        inner_index,
                        outer_index,
                    )
                } else {
                    before[i]
                }),
        decreases 384 - q,
    {
        let x = q % 24;
        let y = q / 24;
        let pixel = outline_role_of(
            core.as_slice(),
            24,
            16,
            x,
            y,
            transparent,
            core_index,
            inner_index,
            outer_index,
        );
        let target = y * JIN_WIDTH + destination_x + x;
        surface[target] = pixel;
        proof {
            crate::grid::lemma_row_col(y as int, destination_x + x, 48);
            assert forall|i: int|
                0 <= i < 768 implies #[trigger] surface@[i] == (if destination_x <= i % 48 < destination_x + 24
                    && (i / 48) * 24 + (i % 48 - destination_x) < q + 1 {
                    outline_role(
                        ellipsis_core(),
                        24,
                        16,
                        i % 48 - destination_x,
                        i / 48,
                        transparent,
                        core_index,
                        inner_index,
                        outer_index,
                    )
                } else {
                    before[i]
                }) by {
                crate::grid::lemma_split_index(i, 48, 16);
                if i != target {
                    if destination_x <= i % 48 < destination_x + 24 && (i / 48) * 24 + (i % 48 - destination_x) == q {
                        assert(i / 48 == y && i % 48 - destination_x == x);
                    }
                }
            }
        }
        q = q + 1;
    }
    Ok(())
}

/// Pixel `i` of the Korean 48x16 surface: the outlined `찡` cell at (2, 0)
/// and the outlined ellipsis at column 22, in the core 13, inner 15 and outer
/// 14 roles over transparent 0.
pub open spec fn target_pixel(core: Seq<bool>, i: int) -> u8 {
    let x = i % 48;
    let y = i / 48;
    if 22 <= x < 46 {
        outline_role(ellipsis_core(), 24, 16, x - 22, y, 0, 13, 15, 14)
    } else if 2 <= x < 18 {
        outline_role(core, 16, 16, x - 2, y, 0, 13, 15, 14)
    } else {
        0
    }
}

/// The Korean 48x16 surface rendered from the 16x16 core of `찡`.
pub open spec fn target_surface_of(core: Seq<bool>) -> Seq<u8> {
    Seq::new(768, |i: int| target_pixel(core, i))
}

/// The roles of the Korean surface, read from the core of `찡`: a pixel of
/// the `찡` cell (drawn from column 2) that lies on the core takes the core
/// index `target_palette_indices[0]`; one off the core but within one pixel
/// of it the inner index `[1]`; one farther off but within two pixels the
/// outer index `[2]`.
pub proof fn lemma_glyph_cell_roles(m: BayoenJinManifest, core: Seq<bool>, x: int, y: int)
    requires
        manifest_shape_ok(m),
        core.len() == 256,
        0 <= x < 16,
        0 <= y < 16,
    ensures
        core[y * 16 + x] ==> target_surface_of(core)[y * 48 + x + 2] == m.target_palette_indices@[0],
        !core[y * 16 + x] && core_within(core, 16, 16, x, y, 1) ==> target_surface_of(core)[y * 48 + x + 2]
            == m.target_palette_indices@[1],
        !core_within(core, 16, 16, x, y, 1) && core_within(core, 16, 16, x, y, 2) ==> target_surface_of(core)[y * 48
            + x + 2] == m.target_palette_indices@[2],
{
    crate::grid::lemma_row_col(y, x + 2, 48);
    crate::grid::lemma_index_bound(y, x + 2, 48, 16);
    if core[y * 16 + x] {
        assert(core_within(core, 16, 16, x, y, 1));
    }
}

/// The same roles for the ellipsis drawn from column 22: its dots take the
/// core index, their first ring the inner index and their second ring the
/// outer index.
pub proof fn lemma_ellipsis_roles(m: BayoenJinManifest, x: int, y: int)
    requires
        manifest_shape_ok(m),
        0 <= x < 24,
        0 <= y < 16,
    ensures
        forall|core: Seq<bool>| #![trigger target_surface_of(core)]
            ellipsis_core()[y * 24 + x] ==> target_surface_of(core)[y * 48 + x + 22] == m.target_palette_indices@[0],
        forall|core: Seq<bool>| #![trigger target_surface_of(core)]
            !ellipsis_core()[y * 24 + x] && core_within(ellipsis_core(), 24, 16, x, y, 1) ==> target_surface_of(
                core,
            )[y * 48 + x + 22] == m.target_palette_indices@[1],
        forall|core: Seq<bool>| #![trigger target_surface_of(core)]
            !core_within(ellipsis_core(), 24, 16, x, y, 1) && core_within(ellipsis_core(), 24, 16, x, y, 2)
                ==> target_surface_of(core)[y * 48 + x + 22] == m.target_palette_indices@[2],
{
    crate::grid::lemma_row_col(y, x + 22, 48);
    crate::grid::lemma_index_bound(y, x + 22, 48, 16);
    if ellipsis_core()[y * 24 + x] {
        assert(core_within(ellipsis_core(), 24, 16, x, y, 1));
    }
}

/// Render the Korean `찡…` surface from the core of `찡`, refusing one that
/// does not use exactly the transparent and the three target roles.
pub fn render_target_surface(core: &[bool], manifest: &BayoenJinManifest) -> (surface: Result<
    Vec<u8>,
    Error,
>)
    requires
        manifest_shape_ok(*manifest),
        core@.len() == 256,
    ensures
        surface is Ok <==> pixel_roles_are(target_surface_of(core@), seq![0usize, 13, 15, 14]),
        surface matches Ok(p) ==> p@ == target_surface_of(core@),
{
    let transparent = manifest.transparent_palette_index as u8;
    let roles = &manifest.target_palette_indices;
    let core_index = roles[0] as u8;
    let inner = roles[1] as u8;
    let outer = roles[2] as u8;
    let mut pixels: Vec<u8> = vec![transparent; JIN_WIDTH * JIN_HEIGHT];
    let glyph = render_indexed_glyph(core, transparent, core_index, inner, outer);
    let ghost blank = pixels@;
    blit_indexed_glyph(pixels.as_mut_slice(), JIN_WIDTH, JIN_HEIGHT, 2, 0, glyph.as_slice())?;
    let ghost with_glyph = pixels@;
    render_large_ellipsis(pixels.as_mut_slice(), 22, transparent, core_index, inner, outer)?;
    assert forall|i: int| 0 <= i < 768 implies #[trigger] pixels@[i] == target_pixel(core@, i) by {
        let x = i % 48;
        let y = i / 48;
        if !(22 <= x < 46) {
            assert(pixels@[i] == with_glyph[i]);
            assert(with_glyph[i] == blitted(blank, 48, 2, 0, glyph@, i));
            if 2 <= x < 18 {
                let g = y * 16 + (x - 2);
                crate::grid::lemma_split_index(i, 48, 16);
                assert(0 <= g < 256) by (nonlinear_arith)
                    requires
                        0 <= y < 16,
                        0 <= x - 2 < 16,
                        g == y * 16 + (x - 2),
                ;
                crate::grid::lemma_row_col(y, x - 2, 16);
            }
        }
    }
    assert(pixels@ =~= target_surface_of(core@));
    let expected: [usize; 4] = [transparent as usize, roles[0], roles[1], roles[2]];
    assert(expected@ =~= seq![0usize, 13, 15, 14]);
    if !pixel_roles_match(pixels.as_slice(), &expected) {
        return Err("Bayoen jin target palette roles are incomplete");
    }
    Ok(pixels)
}

/// Byte `q` of the rewritten transfer: the JP bytes with the twelve effect
/// tiles replaced by the column-major Korean tiles.
pub open spec fn payload_byte(source_payload: Seq<u8>, core: Seq<bool>, q: int) -> u8 {
    if 33 * 32 <= q < 45 * 32 {
        column_major_byte(target_surface_of(core), 48, 16, q - 33 * 32)
    } else {
        source_payload[q]
    }
}

/// A compiled battle effect before its pack is encoded.
pub struct BayoenJinBuild {
    pub manifest: BayoenJinManifest,
    pub palette: [u16; 16],
    pub source_payload: Vec<u8>,
    pub payload: Vec<u8>,
    pub source_surface: Vec<u8>,
    pub target_surface: Vec<u8>,
}

/// A build whose two surfaces the preview can draw.
pub open spec fn build_wf(build: BayoenJinBuild) -> bool {
    &&& build.source_surface@.len() == 768
    &&& build.target_surface@.len() == 768
    &&& all_nibbles(build.source_surface@)
    &&& all_nibbles(build.target_surface@)
}

/// Everything the battle-effect compiler requires of its inputs.
pub open spec fn build_inputs_ok(m: BayoenJinManifest, decoded: Seq<DecodedPack>, core: Seq<bool>) -> bool {
    &&& manifest_shape_ok(m)
    &&& palette_declared(m.palette_line_words@.map_values(|w: String| w@))
    &&& aliases_ok(decoded, m.source_pack)
    &&& source_tiles_ok(decoded[0].data@.subrange(1056, 1440), m)
    &&& pixel_roles_are(target_surface_of(core), seq![0usize, 13, 15, 14])
}

/// Compile the battle effect from its manifest, the transfer decoded at each
/// aliasing header and the 16x16 core of `찡`: check the JP transfer and its
/// effect tiles, render the Korean surface and replace tiles 33..45 with its
/// column-major encoding, leaving every other byte.
pub fn build_bayoen_jin(
    manifest: BayoenJinManifest,
    decoded: &Vec<DecodedPack>,
    glyph_core: &[bool],
) -> (build: Result<BayoenJinBuild, Error>)
    requires
        glyph_core@.len() == 256,
    ensures
        build is Ok <==> build_inputs_ok(manifest, decoded@, glyph_core@),
        build matches Ok(b) ==> {
            &&& build_wf(b)
            &&& b.manifest == manifest
            &&& b.source_payload@ == decoded@[0].data@
            &&& b.payload@.len() == 2_112
            &&& forall|q: int|
                0 <= q < 2_112 ==> #[trigger] b.payload@[q] == payload_byte(decoded@[0].data@, glyph_core@, q)
            &&& b.source_surface@ == decoded_surface(decoded@[0].data@.subrange(1056, 1440))
            &&& b.target_surface@ == target_surface_of(glyph_core@)
            &&& forall|i: int|
                0 <= i < 16 ==> #[trigger] b.palette@[i] as nat == spec_parse_hex(
                    manifest.palette_line_words@[i]@,
                ).unwrap()
        },
{
    validate_manifest_shape(&manifest)?;
    let palette = parse_md_palette(&manifest.palette_line_words)?;
    let source_payload = checked_source_pack(decoded, &manifest.source_pack)?;
    proof {
        assert(alias_ok(decoded@[0], manifest.source_pack, 0));
    }
    let mutable_start = JIN_TILE_START * MD_TILE_BYTES;
    let mutable_end = JIN_TILE_END * MD_TILE_BYTES;
    let source_tiles = &source_payload.as_slice()[mutable_start..mutable_end];
    validate_source_tiles(source_tiles, &manifest)?;
    let source_surface = decode_md_tiles_column_major(source_tiles, JIN_WIDTH, JIN_HEIGHT)?;
    assert(source_surface@ =~= decoded_surface(source_tiles@));
    let target_surface = render_target_surface(glyph_core, &manifest)?;
    proof {
        assert forall|i: int| 0 <= i < 768 implies #[trigger] target_surface@[i] < 16 by {
            assert(target_surface@[i] == target_pixel(glyph_core@, i));
        }
    }
    let target_tiles = encode_md_tiles_column_major(target_surface.as_slice(), JIN_WIDTH, JIN_HEIGHT)?;
    if target_tiles.len() != JIN_BYTES {
        return Err("Bayoen jin encoded tile length drifted");
    }
    let mut payload = source_payload.clone();
    let mut j: usize = 0;
    while j < JIN_BYTES
        invariant
            source_payload@ == decoded@[0].data@,
            source_payload@.len() == 2_112,
            payload@.len() == 2_112,
            mutable_start == 1056,
            target_tiles@.len() == 384,
            target_surface@ == target_surface_of(glyph_core@),
            forall|q: int|
                0 <= q < 384 ==> #[trigger] target_tiles@[q] == column_major_byte(target_surface@, 48, 16, q),
            j <= 384,
            forall|q: int|
                0 <= q < 2_112 ==> #[trigger] payload@[q] == (if 1056 <= q < 1056 + j {
                    payload_byte(decoded@[0].data@, glyph_core@, q)
                } else {
                    source_payload@[q]
                }),
        decreases 384 - j,
    {
        payload.set(mutable_start + j, target_tiles[j]);
        j = j + 1;
    }
    let total = payload.len();
    assert(payload@.subrange(0, 1056) =~= source_payload@.subrange(0, 1056));
    assert(payload@.subrange(1440, 2112) =~= source_payload@.subrange(1440, 2112));
    if !bytes_equal(&payload.as_slice()[0..mutable_start], &source_payload.as_slice()[0..mutable_start])
        || !bytes_equal(&payload.as_slice()[mutable_end..total], &source_payload.as_slice()[mutable_end..total]) {
        return Err("Bayoen jin compiler changed protected JP bytes");
    }
    Ok(BayoenJinBuild { manifest, palette, source_payload, payload, source_surface, target_surface })
}

/// Number of pixels that are not `transparent`.
pub open spec fn visible_count(pixels: Seq<u8>, transparent: int) -> nat
    decreases pixels.len(),
{
    if pixels.len() == 0 {
        0
    } else {
        visible_count(pixels.drop_last(), transparent) + if pixels.last() as int != transparent {
            1nat
        } else {
            0nat
        }
    }
}

/// Count the pixels of a surface that are not `transparent`.
pub fn count_visible(pixels: &[u8], transparent: usize) -> (count: usize)
    ensures
        count == visible_count(pixels@, transparent as int),
{
    let mut count: usize = 0;
    let mut i: usize = 0;
    while i < pixels.len()
        invariant
            i <= pixels@.len(),
            count <= i,
            count == visible_count(pixels@.take(i as int), transparent as int),
        decreases pixels@.len() - i,
    {
        assert(pixels@.take(i + 1).drop_last() =~= pixels@.take(i as int));
        if pixels[i] as usize != transparent {
            count = count + 1;
        }
        i = i + 1;
    }
    assert(pixels@.take(pixels@.len() as int) =~= pixels@);
    count
}

/// Summary of a build; `pack_bytes` is the size of its encoded pack bank.
pub open spec fn spec_summary(build: BayoenJinBuild, pack_bytes: usize, checksum: u16) -> BayoenJinSummary {
    BayoenJinSummary {
        source_tiles: 66,
        rewritten_tiles: 12,
        protected_bytes: 1_728,
        visible_pixels: visible_count(build.target_surface@, build.manifest.transparent_palette_index as int) as usize,
        pack_bytes,
        checksum,
    }
}

/// Report the counts of a build.
pub fn summary(build: &BayoenJinBuild, pack_bytes: usize, checksum: u16) -> (s: BayoenJinSummary)
    ensures
        s == spec_summary(*build, pack_bytes, checksum),
{
    BayoenJinSummary {
        source_tiles: JIN_SOURCE_TILES,
        rewritten_tiles: JIN_TILES,
        protected_bytes: JIN_SOURCE_BYTES - JIN_BYTES,
        visible_pixels: count_visible(build.target_surface.as_slice(), build.manifest.transparent_palette_index),
        pack_bytes,
        checksum,
    }
}

/// Colour of pixel (`x`, `y`) of one 48x16 panel.
pub open spec fn panel_color(build: BayoenJinBuild, pixels: Seq<u8>, x: int, y: int) -> Seq<u8> {
    let index = pixels[y * 48 + x];
    if index as int == build.manifest.transparent_palette_index {
        checker(x, y, 54, 76)
    } else {
        spec_md_color(build.palette@[index as int])
    }
}

/// Colour of logical pixel (`lx`, `ly`) of the 104x16 contact sheet: the JP
/// panel, an 8-pixel gap, the Korean panel.
pub open spec fn preview_color(build: BayoenJinBuild, lx: int, ly: int) -> Seq<u8> {
    if lx < 48 {
        panel_color(build, build.source_surface@, lx, ly)
    } else if 56 <= lx < 104 {
        panel_color(build, build.target_surface@, lx - 56, ly)
    } else {
        seq![28u8, 28, 28]
    }
}

/// Byte `k` of the 1248x192 preview: the contact sheet scaled twelve times.
pub open spec fn preview_byte(build: BayoenJinBuild, k: int) -> u8 {
    let q = k / 4;
    opaque_channel(preview_color(build, (q % 1248) / 12, (q / 1248) / 12), k % 4)
}

fn panel_color_of(build: &BayoenJinBuild, target: bool, x: usize, y: usize) -> (color: [u8; 3])
    requires
        build_wf(*build),
        x < 48,
        y < 16,
    ensures
        color@ == panel_color(
            *build,
            if target { build.target_surface@ } else { build.source_surface@ },
            x as int,
            y as int,
        ),
{
    proof {
        crate::grid::lemma_index_bound(y as int, x as int, 48, 16);
    }
    let index = if target {
        build.target_surface[y * JIN_WIDTH + x]
    } else {
        build.source_surface[y * JIN_WIDTH + x]
    };
    if index as usize == build.manifest.transparent_palette_index {
        checker_color(x, y, 54, 76)
    } else {
        md_color(build.palette[index as usize])
    }
}

/// Render the JP and Korean effect pixels side by side, scaled twelve times,
/// transparent pixels on a checkerboard.
pub fn write_bayoen_jin_preview(build: &BayoenJinBuild, pack_bytes: usize) -> (result: (
    RgbaImage,
    BayoenJinSummary,
))
    requires
        build_wf(*build),
    ensures
        result.0.width == 1248,
        result.0.height == 192,
        result.0.rgba@.len() == 1248 * 192 * 4,
        forall|k: int| 0 <= k < 1248 * 192 * 4 ==> #[trigger] result.0.rgba@[k] == preview_byte(*build, k),
        result.1 == spec_summary(*build, pack_bytes, 0),
{
    let contact_width = JIN_WIDTH * 2 + PREVIEW_GAP;
    let preview_width = contact_width * PREVIEW_SCALE;
    let preview_height = JIN_HEIGHT * PREVIEW_SCALE;
    let total = preview_width * preview_height;
    let mut rgba: Vec<u8> = Vec::with_capacity(total * 4);
    let mut q: usize = 0;
    while q < total
        invariant
            build_wf(*build),
            preview_width == 1248,
            total == 1248 * 192,
            q <= total,
            rgba@.len() == q * 4,
            forall|k: int| 0 <= k < q * 4 ==> #[trigger] rgba@[k] == preview_byte(*build, k),
        decreases total - q,
    {
        let lx = (q % preview_width) / PREVIEW_SCALE;
        let ly = (q / preview_width) / PREVIEW_SCALE;
        assert(lx < 104 && ly < 16);
        let color = if lx < JIN_WIDTH {
            panel_color_of(build, false, lx, ly)
        } else if JIN_WIDTH + PREVIEW_GAP <= lx {
            panel_color_of(build, true, lx - (JIN_WIDTH + PREVIEW_GAP), ly)
        } else {
            let gap = [28, 28, 28];
            assert(gap@ =~= seq![28u8, 28, 28]);
            gap
        };
        assert(color@ == preview_color(*build, lx as int, ly as int));
        let ghost before = rgba@;
        push_opaque(&mut rgba, color);
        assert forall|k: int| 0 <= k < (q + 1) * 4 implies #[trigger] rgba@[k] == preview_byte(*build, k) by {
            if k >= q * 4 {
                assert(k / 4 == q);
                let c = k - q * 4;
                assert(rgba@[before.len() + c] == opaque_channel(color@, c));
            } else {
                assert(rgba@[k] == before[k]);
            }
        }
        q = q + 1;
    }
    let image = RgbaImage { width: preview_width, height: preview_height, rgba };
    (image, summary(build, pack_bytes, 0))
}

/// The writes of the Bayoen jin insertion: the pack header over each JP
/// header it replaces, then the bank over the erased expanded bank.
pub open spec fn jin_writes(source: Seq<u8>, header: Seq<u8>, bank: Seq<u8>) -> Seq<WriteView> {
    seq![header_write(source, 0x07_80AC, header), header_write(source, 0x07_80C0, header), header_write(source, 0x07_80D4, header), header_write(source, 0x07_80E8, header), header_write(source, 0x07_80FC, header), bank_write(0x2B_8000, bank)]
}

/// Everything the Bayoen jin insertion checks: a six-byte header, a bank
/// within its expanded bank, the JP bytes in `source`, and every write
/// finding its expected bytes.
pub open spec fn jin_insert_ok(source: Seq<u8>, image: Seq<u8>, header: Seq<u8>, bank: Seq<u8>) -> bool {
    let ws = jin_writes(source, header, bank);
    &&& header.len() == 6
    &&& 0x2B_8000 + bank.len() <= 0x2C_0000
    &&& 0x07_80AC + 6 <= source.len()
    &&& 0x07_80C0 + 6 <= source.len()
    &&& 0x07_80D4 + 6 <= source.len()
    &&& 0x07_80E8 + 6 <= source.len()
    &&& 0x07_80FC + 6 <= source.len()
    &&& writes_ok(image, ws)
}

/// Insert the Bayoen jin pack: its six-byte header over the JP header, its
/// bank over the erased expanded bank, then the header checksum. On any
/// refusal the output is left as it was.
pub fn apply_bayoen_jin(
    source: &[u8],
    output: &mut Vec<u8>,
    build: &BayoenJinBuild,
    header: &[u8],
    bank: &[u8],
) -> (result: Result<BayoenJinSummary, Error>)
    ensures
        result is Ok <==> jin_insert_ok(source@, old(output)@, header@, bank@),
        result is Err ==> final(output)@ == old(output)@,
        result matches Ok(s) ==> {
            let ws = jin_writes(source@, header@, bank@);
            let applied = writes_applied(old(output)@, ws, 6);
            &&& final(output)@ == checksummed(applied)
            &&& s.checksum as int == crate::rom::spec_checksum(applied)
            &&& s == spec_summary(*build, bank@.len() as usize, s.checksum)
            &&& only_ranges_changed(old(output)@, final(output)@, write_ranges(ws))
        },
{
    if header.len() != 6 || bank.len() > 0x2C_0000 - 0x2B_8000 {
        return Err("Bayoen jin pack ends outside its expanded bank or its header is not six bytes");
    }
    let w0 = header_write_of(source, 0x07_80AC, header)?;
    let w1 = header_write_of(source, 0x07_80C0, header)?;
    let w2 = header_write_of(source, 0x07_80D4, header)?;
    let w3 = header_write_of(source, 0x07_80E8, header)?;
    let w4 = header_write_of(source, 0x07_80FC, header)?;
    let writes = vec![w0, w1, w2, w3, w4, bank_write_of(0x2B_8000, bank)];
    assert(write_views(writes@) =~= jin_writes(source@, header@, bank@));
    let checksum = insert_writes(output, &writes)?;
    Ok(summary(build, bank.len(), checksum))
}

} // verus!

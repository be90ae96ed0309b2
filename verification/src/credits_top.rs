//! Ending-credit page headings: every original page opens with the same
//! 22x2-tile, 176x16 column-major heading surface in tiles 1..45 of its first
//! transfer. Each exact JP page payload is checked, its heading is redrawn in
//! Korean with native 16x16 glyphs, and everything outside the heading stays
//! byte-exact.

use vstd::prelude::*;
use crate::hex::{Error, hex_equals, hex_is, spec_parse_hex, parse_hex};
use crate::text::{byte_len, has_byte_len, seq_contains_run, str_contains, string_is};
use crate::digest::{sha256_hex, sha256_hex_of};
use crate::pack::DecodedPack;
use crate::rom::{be16, source_range};
use crate::sets::bytes_equal;
use crate::font_effect::{NativeGlyph, glyphs_cover, is_whitespace, line_glyphs_visible, line_pixel, native_text_width, render_native_text_line, spec_is_whitespace, text_width, covers_text};
use crate::tiles::{all_nibbles, column_major_byte, column_major_pixel_value, decode_md_tiles_column_major, encode_md_tiles_column_major, nibble_roles_are, nibble_roles_match};
use crate::preview::{RgbaImage, opaque_channel, push_opaque};

use crate::insert::{lemma_write_views_push, ExpectedWrite, WriteView, bank_write, bank_write_of, checksummed, fixed_write_of, header_write, header_write_of, insert_writes, write_ranges, write_views, writes_applied, writes_ok};
use crate::rom::only_ranges_changed;
use crate::sets::copy_bytes;
use crate::credits_timed::{CreditsTimedBuild, CreditsTimedManifest, PatchView, output_ok, patch_views, patches_same_length};

verus! {

pub const PAGE_COUNT: usize = 10;
pub const HEADER_BYTES: usize = 6;
pub const LOADER_BYTES: usize = 12;
pub const SURFACE_WIDTH_PIXELS: usize = 176;
pub const SURFACE_HEIGHT_PIXELS: usize = 16;
pub const MUTABLE_START: usize = 32;
pub const MUTABLE_END: usize = 1_440;
pub const HEADER_OFFSETS: [usize; 10] = [
    0x09_DF7E, 0x09_DF9E, 0x09_DFBE, 0x09_DFF2, 0x09_E020, 0x09_E040, 0x09_E054, 0x09_E06E, 0x09_E088, 0x09_E096,
];
pub const LOADER_OFFSETS: [usize; 10] = [
    0x09_7C1E, 0x09_7CEC, 0x09_7D84, 0x09_7F74, 0x09_80FC, 0x09_8222, 0x09_8382, 0x09_841A, 0x09_85D0, 0x09_8678,
];

/// Counts reported after compiling the ending credits.
pub struct CreditsTopSummary {
    pub headings: usize,
    pub timed_lines: usize,
    pub relocated_timed_lines: usize,
    pub unique_glyphs: usize,
    pub decoded_bytes: usize,
    pub rewritten_tiles: usize,
    pub overwritten_timed_tiles: usize,
    pub appended_timed_tiles: usize,
    pub protected_bytes: usize,
    pub verified_loader_bytes: usize,
    pub verified_timed_consumer_bytes: usize,
    pub verified_generic_consumer_bytes: usize,
    pub verified_native_frame_consumer_bytes: usize,
    pub verified_remaining_consumer_bytes: usize,
    pub written_executable_bytes: usize,
    pub map_bank_bytes: usize,
    pub generic_table_bank_bytes: usize,
    pub native_frame_table_bank_bytes: usize,
    pub remaining_table_bank_bytes: usize,
    pub remaining_pack_bank_bytes: usize,
    pub pack_bank_bytes: usize,
    pub checksum: u16,
}

/// The heading surface inside each page's first transfer.
pub struct SurfaceDeclaration {
    pub width_tiles: usize,
    pub height_tiles: usize,
    pub storage: String,
    pub mutable_tile_start: usize,
    pub mutable_tile_end_exclusive: usize,
    pub source_palette_indices: Vec<u8>,
}

/// The shared bank the rebuilt pages are stored in.
pub struct TargetBankDeclaration {
    pub offset: String,
    pub limit: String,
    pub pointer_entry_bytes: usize,
    pub payload_start_alignment: String,
    pub fill_byte: String,
}

/// The JP routine every page loader calls.
pub struct ConsumerDeclaration {
    pub loader_target: String,
    pub loader_bytes: usize,
}

/// One credit page's heading.
pub struct PageDeclaration {
    pub id: String,
    pub page: usize,
    pub jp: String,
    pub ko: String,
    pub header_offset: String,
    pub header_sha256: String,
    pub decoded_bytes: usize,
    pub decoded_sha256: String,
    pub protected_prefix_sha256: String,
    pub mutable_heading_sha256: String,
    pub protected_suffix_sha256: String,
    pub loader_offset: String,
    pub loader_sha256: String,
}

/// The credit-heading asset manifest.
pub struct CreditsTopManifest {
    pub schema_version: u32,
    pub asset_group_id: String,
    pub source_policy: String,
    pub font_asset: String,
    pub font_sha256: String,
    pub render_mode: String,
    pub space_width_px: usize,
    pub surface: SurfaceDeclaration,
    pub target_bank: TargetBankDeclaration,
    pub consumer: ConsumerDeclaration,
    pub pages: Vec<PageDeclaration>,
}

/// Header offset of page `i`'s first transfer.
pub open spec fn header_offset_at(i: int) -> nat {
    seq![0x09_DF7Enat, 0x09_DF9E, 0x09_DFBE, 0x09_DFF2, 0x09_E020, 0x09_E040, 0x09_E054, 0x09_E06E, 0x09_E088, 0x09_E096][i]
}

/// Offset of page `i`'s typed first-transfer loader.
pub open spec fn loader_offset_at(i: int) -> nat {
    seq![0x09_7C1Enat, 0x09_7CEC, 0x09_7D84, 0x09_7F74, 0x09_80FC, 0x09_8222, 0x09_8382, 0x09_841A, 0x09_85D0, 0x09_8678][i]
}

/// `GFX-CREDITS-P0i-TOP` for page `i` below ten.
pub open spec fn page_id(i: int) -> Seq<char> {
    "GFX-CREDITS-P0"@ + seq![(i + 48) as char] + "-TOP"@
}

/// Page declaration `i` names its page, offsets and SHA-256 texts, and its
/// Korean heading fits the 176-pixel surface at native width.
pub open spec fn page_ok(p: PageDeclaration, i: int) -> bool {
    &&& p.page == i
    &&& p.id@ == page_id(i)
    &&& hex_is(p.header_offset@, header_offset_at(i))
    &&& hex_is(p.loader_offset@, loader_offset_at(i))
    &&& p.jp@.len() > 0
    &&& p.ko@.len() > 0
    &&& text_width(p.ko@, 8) <= 176
    &&& p.decoded_bytes >= 1_440
    &&& p.decoded_bytes % 32 == 0
    &&& byte_len(p.header_sha256@) == 64
    &&& byte_len(p.decoded_sha256@) == 64
    &&& byte_len(p.protected_prefix_sha256@) == 64
    &&& byte_len(p.mutable_heading_sha256@) == 64
    &&& byte_len(p.protected_suffix_sha256@) == 64
    &&& byte_len(p.loader_sha256@) == 64
}

/// Every fixed fact the credit-heading manifest must declare.
pub open spec fn manifest_shape_ok(m: CreditsTopManifest) -> bool {
    &&& m.schema_version == 1
    &&& m.asset_group_id@ == "GFX-CREDITS-TOP"@
    &&& seq_contains_run(m.source_policy@, "English VWF"@)
    &&& m.font_asset@ == "neodgm.ttf"@
    &&& byte_len(m.font_sha256@) == 64
    &&& m.render_mode@ == "jp_native_16x16_no_horizontal_scaling"@
    &&& m.space_width_px == 8
    &&& m.pages@.len() == 10
    &&& m.surface.width_tiles == 22
    &&& m.surface.height_tiles == 2
    &&& m.surface.storage@ == "column_major"@
    &&& m.surface.mutable_tile_start == 1
    &&& m.surface.mutable_tile_end_exclusive == 45
    &&& m.surface.source_palette_indices@ == seq![0u8, 15]
    &&& hex_is(m.target_bank.offset@, 0x30_0000)
    &&& hex_is(m.target_bank.limit@, 0x31_0000)
    &&& m.target_bank.pointer_entry_bytes == 2
    &&& hex_is(m.target_bank.payload_start_alignment@, 0x80)
    &&& hex_is(m.target_bank.fill_byte@, 0xFF)
    &&& hex_is(m.consumer.loader_target@, 0x0A72)
    &&& m.consumer.loader_bytes == 12
    &&& forall|i: int| 0 <= i < 10 ==> page_ok(#[trigger] m.pages@[i], i)
}

fn page_id_matches(id: &String, i: usize) -> (same: bool)
    requires
        i < 10,
    ensures
        same == (id@ == page_id(i as int)),
{
    let prefix = "GFX-CREDITS-P0";
    let suffix = "-TOP";
    proof {
        reveal_strlit("GFX-CREDITS-P0");
        reveal_strlit("-TOP");
    }
    let text = id.as_str();
    let n = text.unicode_len();
    let digit = (i as u8 + 48) as char;
    assert(page_id(i as int).len() == 19);
    if n != 19 {
        return false;
    }
    let mut j: usize = 0;
    while j < 14
        invariant
            prefix@ == "GFX-CREDITS-P0"@,
            prefix@.len() == 14,
            text@ == id@,
            text@.len() == 19,
            j <= 14,
            forall|q: int| 0 <= q < j ==> text@[q] == page_id(i as int)[q],
        decreases 14 - j,
    {
        if text.get_char(j) != prefix.get_char(j) {
            assert(text@[j as int] != page_id(i as int)[j as int]);
            return false;
        }
        j = j + 1;
    }
    if text.get_char(14) != digit {
        assert(text@[14] != page_id(i as int)[14]);
        return false;
    }
    assert forall|q: int| 0 <= q < 4 implies page_id(i as int)[15 + q] == suffix@[q] by {}
    let mut j: usize = 0;
    while j < 4
        invariant
            suffix@ == "-TOP"@,
            suffix@.len() == 4,
            page_id(i as int).len() == 19,
            forall|q: int| 0 <= q < 4 ==> page_id(i as int)[15 + q] == suffix@[q],
            text@ == id@,
            text@.len() == 19,
            j <= 4,
            forall|q: int| 0 <= q < 15 ==> text@[q] == page_id(i as int)[q],
            forall|q: int| 15 <= q < 15 + j ==> text@[q] == page_id(i as int)[q],
        decreases 4 - j,
    {
        if text.get_char(15 + j) != suffix.get_char(j) {
            assert(text@[15 + j] != page_id(i as int)[15 + j]);
            return false;
        }
        j = j + 1;
    }
    assert(text@ =~= page_id(i as int));
    true
}

/// Every character advances at least eight pixels.
proof fn lemma_width_at_least(chars: Seq<char>)
    ensures
        text_width(chars, 8) >= 8 * chars.len(),
    decreases chars.len(),
{
    if chars.len() > 0 {
        lemma_width_at_least(chars.drop_last());
    }
}

fn heading_fits(ko: &String) -> (fits: bool)
    ensures
        fits == (text_width(ko@, 8) <= 176),
{
    if ko.as_str().unicode_len() > 22 {
        proof {
            lemma_width_at_least(ko@);
        }
        return false;
    }
    native_text_width(ko.as_str(), 8) <= SURFACE_WIDTH_PIXELS
}

fn page_matches(p: &PageDeclaration, i: usize) -> (ok: bool)
    requires
        i < 10,
    ensures
        ok == page_ok(*p, i as int),
{
    let header = HEADER_OFFSETS[i];
    let loader = LOADER_OFFSETS[i];
    assert(header as nat == header_offset_at(i as int));
    assert(loader as nat == loader_offset_at(i as int));
    p.page == i && page_id_matches(&p.id, i) && hex_equals(&p.header_offset, header) && hex_equals(
        &p.loader_offset,
        loader,
    ) && p.jp.as_str().unicode_len() > 0 && p.ko.as_str().unicode_len() > 0 && heading_fits(&p.ko) && p.decoded_bytes
        >= MUTABLE_END && p.decoded_bytes % 32 == 0 && has_byte_len(&p.header_sha256, 64) && has_byte_len(
        &p.decoded_sha256,
        64,
    ) && has_byte_len(&p.protected_prefix_sha256, 64) && has_byte_len(&p.mutable_heading_sha256, 64) && has_byte_len(
        &p.protected_suffix_sha256,
        64,
    ) && has_byte_len(&p.loader_sha256, 64)
}

/// Refuse a manifest whose identity, surface, bank, consumer or pages
/// drifted from the JP credits.
pub fn validate_manifest_shape(manifest: &CreditsTopManifest) -> (result: Result<(), Error>)
    ensures
        result is Ok <==> manifest_shape_ok(*manifest),
{
    if manifest.schema_version != 1 || !string_is(&manifest.asset_group_id, "GFX-CREDITS-TOP") || !str_contains(
        manifest.source_policy.as_str(),
        "English VWF",
    ) || !string_is(&manifest.font_asset, "neodgm.ttf") || !has_byte_len(&manifest.font_sha256, 64) || !string_is(
        &manifest.render_mode,
        "jp_native_16x16_no_horizontal_scaling",
    ) || manifest.space_width_px != 8 || manifest.pages.len() != PAGE_COUNT {
        return Err("credit-heading manifest identity drifted");
    }
    let s = &manifest.surface;
    let roles: [u8; 2] = [0, 15];
    assert(roles@ == seq![0u8, 15]);
    if s.width_tiles != 22 || s.height_tiles != 2 || !string_is(&s.storage, "column_major") || s.mutable_tile_start
        != 1 || s.mutable_tile_end_exclusive != 45 || !bytes_equal(s.source_palette_indices.as_slice(), roles.as_slice()) {
        return Err("credit-heading surface contract drifted");
    }
    let b = &manifest.target_bank;
    if !hex_equals(&b.offset, 0x30_0000) || !hex_equals(&b.limit, 0x31_0000) || b.pointer_entry_bytes != 2
        || !hex_equals(&b.payload_start_alignment, 0x80) || !hex_equals(&b.fill_byte, 0xFF) {
        return Err("credit-heading target bank declaration drifted");
    }
    if !hex_equals(&manifest.consumer.loader_target, 0x0A72) || manifest.consumer.loader_bytes != LOADER_BYTES {
        return Err("credit-heading consumer declaration drifted");
    }
    let mut i: usize = 0;
    while i < PAGE_COUNT
        invariant
            manifest.pages@.len() == 10,
            i <= 10,
            forall|k: int| 0 <= k < i ==> page_ok(#[trigger] manifest.pages@[k], k),
        decreases 10 - i,
    {
        if !page_matches(&manifest.pages[i], i) {
            return Err("credit-heading page identity or geometry drifted");
        }
        i = i + 1;
    }
    Ok(())
}

/// The typed 68000 loader of a page: `LEA header.l, A2; JSR 0x00000A72.l`.
pub open spec fn loader_code(header: nat) -> Seq<u8> {
    seq![
        0x45u8,
        0xF9,
        ((header / 0x100_0000) % 256) as u8,
        ((header / 0x1_0000) % 256) as u8,
        ((header / 0x100) % 256) as u8,
        (header % 256) as u8,
        0x4E,
        0xB9,
        0x00,
        0x00,
        0x0A,
        0x72,
    ]
}

fn credit_loader(header: usize) -> (code: Vec<u8>)
    requires
        header < 0x1_0000_0000,
    ensures
        code@ == loader_code(header as nat),
{
    let code = vec![
        0x45u8,
        0xF9,
        ((header / 0x100_0000) % 256) as u8,
        ((header / 0x1_0000) % 256) as u8,
        ((header / 0x100) % 256) as u8,
        (header % 256) as u8,
        0x4E,
        0xB9,
        0x00,
        0x00,
        0x0A,
        0x72,
    ];
    assert(code@ =~= loader_code(header as nat));
    code
}

/// The JP first-transfer header of page `i`: its SHA-256, a mode-1
/// descriptor (0x80, 0x00) and a zero VRAM destination word.
pub open spec fn header_ok(rom: Seq<u8>, d: PageDeclaration, i: int) -> bool {
    let h = header_offset_at(i) as int;
    &&& rom.len() >= h + 6
    &&& sha256_hex_of(rom.subrange(h, h + 6)) == d.header_sha256@
    &&& rom[h] == 0x80
    &&& rom[h + 1] == 0
    &&& rom[h + 4] == 0
    &&& rom[h + 5] == 0
}

/// The decoded first transfer of page `i` is the declared one.
pub open spec fn decoded_ok(p: DecodedPack, d: PageDeclaration, i: int) -> bool {
    &&& p.header_offset == header_offset_at(i)
    &&& p.vram_destination == 0
    &&& p.data@.len() == d.decoded_bytes
    &&& sha256_hex_of(p.data@) == d.decoded_sha256@
}

/// The tile-0 prefix, the heading and the suffix hash as declared, and the
/// JP heading uses exactly the roles 0 and 15.
pub open spec fn ownership_ok(payload: Seq<u8>, d: PageDeclaration) -> bool {
    &&& sha256_hex_of(payload.subrange(0, 32)) == d.protected_prefix_sha256@
    &&& sha256_hex_of(payload.subrange(32, 1_440)) == d.mutable_heading_sha256@
    &&& sha256_hex_of(payload.subrange(1_440, payload.len() as int)) == d.protected_suffix_sha256@
    &&& nibble_roles_are(payload.subrange(32, 1_440), seq![0usize, 15])
}

/// Page `i`'s typed loader is the declared one and stands in the ROM.
pub open spec fn loader_ok(rom: Seq<u8>, d: PageDeclaration, i: int) -> bool {
    let code = loader_code(header_offset_at(i));
    let l = loader_offset_at(i) as int;
    &&& sha256_hex_of(code) == d.loader_sha256@
    &&& rom.len() >= l + 12
    &&& rom.subrange(l, l + 12) == code
}

fn checked_hash(data: &[u8], start: usize, end: usize, expected: &String) -> (same: bool)
    requires
        start <= end <= data@.len(),
    ensures
        same == (sha256_hex_of(data@.subrange(start as int, end as int)) == expected@),
{
    let part = &data[start..end];
    assert(part@ == data@.subrange(start as int, end as int));
    let hash = sha256_hex(part);
    crate::text::str_eq(hash.as_str(), expected.as_str())
}

/// Check page `i`'s JP header, its decoded first transfer and the hashes and
/// roles of its protected and heading bytes; yield the transfer's bytes.
pub fn checked_source_page(rom: &[u8], decoded: &DecodedPack, d: &PageDeclaration, i: usize) -> (payload: Result<
    Vec<u8>,
    Error,
>)
    requires
        i < 10,
        page_ok(*d, i as int),
    ensures
        payload is Ok <==> (header_ok(rom@, *d, i as int) && decoded_ok(*decoded, *d, i as int) && ownership_ok(
            decoded.data@,
            *d,
        )),
        payload matches Ok(p) ==> p@ == decoded.data@,
{
    let h = HEADER_OFFSETS[i];
    assert(h as nat == header_offset_at(i as int));
    let header = source_range(rom, h, HEADER_BYTES)?;
    if !checked_hash(rom, h, h + 6, &d.header_sha256) || header[0] != 0x80 || header[1] != 0 || header[4] != 0
        || header[5] != 0 {
        return Err("credit-heading JP first-transfer header drifted");
    }
    if decoded.header_offset != h || decoded.vram_destination != 0 || decoded.data.len() != d.decoded_bytes {
        return Err("credit-heading JP first transfer drifted");
    }
    let data = decoded.data.as_slice();
    assert(data@.subrange(0, data@.len() as int) =~= data@);
    if !checked_hash(data, 0, data.len(), &d.decoded_sha256) {
        return Err("credit-heading JP first transfer drifted");
    }
    if !checked_hash(data, 0, MUTABLE_START, &d.protected_prefix_sha256) || !checked_hash(
        data,
        MUTABLE_START,
        MUTABLE_END,
        &d.mutable_heading_sha256,
    ) || !checked_hash(data, MUTABLE_END, data.len(), &d.protected_suffix_sha256) {
        return Err("credit-heading protected or heading bytes drifted");
    }
    let roles: [usize; 2] = [0, 15];
    assert(roles@ == seq![0usize, 15]);
    let heading = &data[MUTABLE_START..MUTABLE_END];
    assert(heading@ == data@.subrange(32, 1_440));
    if !nibble_roles_match(heading, roles.as_slice()) {
        return Err("credit-heading JP heading uses unexpected palette roles");
    }
    Ok(decoded.data.clone())
}

/// Check page `i`'s typed first-transfer loader against the ROM.
pub fn validate_loader(rom: &[u8], d: &PageDeclaration, i: usize) -> (result: Result<(), Error>)
    requires
        i < 10,
    ensures
        result is Ok <==> loader_ok(rom@, *d, i as int),
{
    let h = HEADER_OFFSETS[i];
    let l = LOADER_OFFSETS[i];
    assert(h as nat == header_offset_at(i as int) && l as nat == loader_offset_at(i as int));
    let semantic = credit_loader(h);
    if !checked_hash(semantic.as_slice(), 0, LOADER_BYTES, &d.loader_sha256) {
        assert(semantic@.subrange(0, 12) =~= semantic@);
        return Err("credit-heading typed first-transfer loader drifted");
    }
    assert(semantic@.subrange(0, 12) =~= semantic@);
    let actual = source_range(rom, l, LOADER_BYTES)?;
    if !bytes_equal(actual, semantic.as_slice()) {
        return Err("credit-heading typed first-transfer loader drifted");
    }
    Ok(())
}

/// The Korean heading surface: the line centred on 176x16 with ink 15 on 0.
pub open spec fn heading_surface(glyphs: Seq<NativeGlyph>, ko: Seq<char>) -> Seq<u8> {
    Seq::new(
        176 * 16,
        |i: int| line_pixel(glyphs, ko, 176, (176 - text_width(ko, 8)) / 2, 8, 0, 15, ko.len() as int, i),
    )
}

/// The 1408 column-major bytes of the Korean heading.
pub open spec fn heading_bytes(glyphs: Seq<NativeGlyph>, ko: Seq<char>) -> Seq<u8> {
    Seq::new(1_408, |j: int| column_major_byte(heading_surface(glyphs, ko), 176, 16, j))
}

/// The page transfer with its heading tiles replaced.
pub open spec fn heading_target(payload: Seq<u8>, glyphs: Seq<NativeGlyph>, ko: Seq<char>) -> Seq<u8> {
    payload.subrange(0, 32) + heading_bytes(glyphs, ko) + payload.subrange(1_440, payload.len() as int)
}

proof fn lemma_line_two_roles(
    glyphs: Seq<NativeGlyph>,
    text: Seq<char>,
    width: int,
    start: int,
    space: int,
    k: int,
    i: int,
)
    ensures
        line_pixel(glyphs, text, width, start, space, 0, 15, k, i) == 0 || line_pixel(
            glyphs,
            text,
            width,
            start,
            space,
            0,
            15,
            k,
            i,
        ) == 15,
    decreases k,
{
    if k > 0 {
        lemma_line_two_roles(glyphs, text, width, start, space, k - 1, i);
    }
}

/// Redraw page `i`'s heading in Korean: the line is drawn with native 16x16
/// glyphs, centred, ink 15 on 0, and stored as 44 column-major tiles over
/// tiles 1..45 of the transfer.
pub fn compile_heading(glyphs: &[NativeGlyph], payload: &[u8], d: &PageDeclaration) -> (target: Result<Vec<u8>, Error>)
    requires
        page_ok(*d, d.page as int),
        d.page < 10,
        payload@.len() == d.decoded_bytes,
    ensures
        target is Ok <==> (glyphs_cover(glyphs@, d.ko@) && line_glyphs_visible(glyphs@, d.ko@)),
        target matches Ok(t) ==> t@ == heading_target(payload@, glyphs@, d.ko@),
{
    if !covers_text(glyphs, d.ko.as_str()) {
        return Err("credit heading has no glyph for a Korean character");
    }
    let ko = d.ko.as_str();
    proof {
        if ko@.len() > 22 {
            lemma_width_at_least(ko@);
        }
    }
    let surface = render_native_text_line(glyphs, ko, SURFACE_WIDTH_PIXELS, 8, 0, 15)?;
    assert(surface@ =~= heading_surface(glyphs@, d.ko@));
    proof {
        assert forall|i: int| 0 <= i < surface@.len() implies #[trigger] surface@[i] < 16 by {
            lemma_line_two_roles(glyphs@, d.ko@, 176, (176 - text_width(d.ko@, 8)) / 2, 8, d.ko@.len() as int, i);
        }
    }
    let encoded = match encode_md_tiles_column_major(surface.as_slice(), SURFACE_WIDTH_PIXELS, SURFACE_HEIGHT_PIXELS) {
        Ok(e) => e,
        Err(e) => {
            return Err(e);
        },
    };
    assert(encoded@ =~= heading_bytes(glyphs@, d.ko@));
    let mut target: Vec<u8> = Vec::with_capacity(payload.len());
    let mut k: usize = 0;
    while k < payload.len()
        invariant
            payload@.len() >= 1_440,
            encoded@ == heading_bytes(glyphs@, d.ko@),
            encoded@.len() == 1_408,
            k <= payload@.len(),
            target@.len() == k,
            forall|q: int| 0 <= q < k ==> #[trigger] target@[q] == heading_target(payload@, glyphs@, d.ko@)[q],
        decreases payload@.len() - k,
    {
        let byte = if MUTABLE_START <= k && k < MUTABLE_END { encoded[k - MUTABLE_START] } else { payload[k] };
        target.push(byte);
        k = k + 1;
    }
    assert(target@ =~= heading_target(payload@, glyphs@, d.ko@));
    Ok(target)
}

/// The Korean transfer keeps every JP byte outside the heading and its
/// heading uses exactly the roles 0 and 15.
pub open spec fn target_ownership_ok(source: Seq<u8>, target: Seq<u8>) -> bool {
    &&& source.len() == target.len()
    &&& source.len() >= 1_440
    &&& target.subrange(0, 32) == source.subrange(0, 32)
    &&& target.subrange(1_440, target.len() as int) == source.subrange(1_440, source.len() as int)
    &&& nibble_roles_are(target.subrange(32, 1_440), seq![0usize, 15])
}

/// Refuse a Korean transfer that changed protected JP bytes or whose heading
/// does not use exactly the roles 0 and 15.
pub fn validate_target_ownership(source: &[u8], target: &[u8]) -> (result: Result<(), Error>)
    ensures
        result is Ok <==> target_ownership_ok(source@, target@),
{
    if source.len() != target.len() || source.len() < MUTABLE_END {
        return Err("credit-heading compiler changed protected JP bytes");
    }
    let n = source.len();
    if !bytes_equal(&source[0..MUTABLE_START], &target[0..MUTABLE_START]) || !bytes_equal(
        &source[MUTABLE_END..n],
        &target[MUTABLE_END..n],
    ) {
        return Err("credit-heading compiler changed protected JP bytes");
    }
    let roles: [usize; 2] = [0, 15];
    assert(roles@ == seq![0usize, 15]);
    if !nibble_roles_match(&target[MUTABLE_START..MUTABLE_END], roles.as_slice()) {
        return Err("credit-heading Korean heading uses unexpected palette roles");
    }
    Ok(())
}

/// The characters of `text` that are not whitespace, in order.
pub open spec fn visible_of(text: Seq<char>) -> Seq<char>
    decreases text.len(),
{
    if text.len() == 0 {
        Seq::empty()
    } else if spec_is_whitespace(text.last()) {
        visible_of(text.drop_last())
    } else {
        visible_of(text.drop_last()).push(text.last())
    }
}

/// Each character of `s` once, in order of first occurrence.
pub open spec fn distinct_chars(s: Seq<char>) -> Seq<char>
    decreases s.len(),
{
    if s.len() == 0 {
        Seq::empty()
    } else if distinct_chars(s.drop_last()).contains(s.last()) {
        distinct_chars(s.drop_last())
    } else {
        distinct_chars(s.drop_last()).push(s.last())
    }
}

/// The visible Korean heading characters of the first `n` pages.
pub open spec fn heading_chars(pages: Seq<PageDeclaration>, n: int) -> Seq<char>
    decreases n,
{
    if n <= 0 {
        Seq::empty()
    } else {
        heading_chars(pages, n - 1) + visible_of(pages[n - 1].ko@)
    }
}

/// Add the visible characters of `text` not yet in `seen` to it.
pub(crate) fn add_visible_chars(seen: &mut Vec<char>, text: &str, Ghost(before): Ghost<Seq<char>>)
    requires
        old(seen)@ == distinct_chars(before),
    ensures
        final(seen)@ == distinct_chars(before + visible_of(text@)),
{
    let n = text.unicode_len();
    let mut k: usize = 0;
    assert(text@.take(0) =~= Seq::<char>::empty());
    assert(before + visible_of(text@.take(0)) =~= before);
    while k < n
        invariant
            n == text@.len(),
            k <= n,
            seen@ == distinct_chars(before + visible_of(text@.take(k as int))),
        decreases n - k,
    {
        let c = text.get_char(k);
        let ghost prior = before + visible_of(text@.take(k as int));
        assert(text@.take(k + 1).drop_last() =~= text@.take(k as int));
        if !is_whitespace(c) {
            assert((prior.push(c)).drop_last() =~= prior);
            assert(before + visible_of(text@.take(k + 1)) =~= prior.push(c));
            let mut found = false;
            let mut j: usize = 0;
            while j < seen.len()
                invariant
                    j <= seen@.len(),
                    found == exists|q: int| 0 <= q < j && seen@[q] == c,
                decreases seen@.len() - j,
            {
                if seen[j] == c {
                    found = true;
                }
                j = j + 1;
            }
            if !found {
                seen.push(c);
            }
        } else {
            assert(before + visible_of(text@.take(k + 1)) =~= prior);
        }
        k = k + 1;
    }
    assert(text@.take(n as int) =~= text@);
}

/// One page's JP and Korean first transfers and heading surfaces.
pub struct PageBuild {
    pub source: Vec<u8>,
    pub target: Vec<u8>,
    pub source_surface: Vec<u8>,
    pub target_surface: Vec<u8>,
}

/// The ten compiled page headings.
pub struct CreditsTopBuild {
    pub manifest: CreditsTopManifest,
    pub pages: Vec<PageBuild>,
    pub heading_glyphs: Vec<char>,
}

/// Everything page `i` requires: its header, decoded transfer, ownership
/// hashes and loader match the ROM and the declaration, and its Korean line
/// has visible glyphs and leaves a heading of roles 0 and 15.
pub open spec fn page_inputs_ok(rom: Seq<u8>, d: PageDeclaration, p: DecodedPack, glyphs: Seq<NativeGlyph>, i: int) -> bool {
    &&& header_ok(rom, d, i)
    &&& decoded_ok(p, d, i)
    &&& ownership_ok(p.data@, d)
    &&& loader_ok(rom, d, i)
    &&& glyphs_cover(glyphs, d.ko@)
    &&& line_glyphs_visible(glyphs, d.ko@)
    &&& nibble_roles_are(heading_bytes(glyphs, d.ko@), seq![0usize, 15])
}

/// Everything the heading compiler requires of the ROM, the manifest, the ten
/// decoded first transfers and the glyphs.
pub open spec fn build_inputs_ok(rom: Seq<u8>, m: CreditsTopManifest, decoded: Seq<DecodedPack>, glyphs: Seq<NativeGlyph>) -> bool {
    &&& manifest_shape_ok(m)
    &&& decoded.len() == 10
    &&& forall|i: int| 0 <= i < 10 ==> page_inputs_ok(rom, #[trigger] m.pages@[i], decoded[i], glyphs, i)
}

/// A heading surface whose every pixel is role 0 or 15.
pub open spec fn two_role_surface(s: Seq<u8>) -> bool {
    s.len() == 176 * 16 && forall|i: int| 0 <= i < 176 * 16 ==> (#[trigger] s[i] == 0 || s[i] == 15)
}

/// A build the preview can draw.
pub open spec fn build_wf(b: CreditsTopBuild) -> bool {
    &&& b.pages@.len() == 10
    &&& forall|r: int|
        0 <= r < 10 ==> two_role_surface((#[trigger] b.pages@[r]).source_surface@) && two_role_surface(
            b.pages@[r].target_surface@,
        )
}

fn two_role_surface_of(bytes: &[u8]) -> (surface: Vec<u8>)
    requires
        bytes@.len() == 1_408,
        nibble_roles_are(bytes@, seq![0usize, 15]),
    ensures
        two_role_surface(surface@),
        forall|i: int| 0 <= i < 176 * 16 ==> #[trigger] surface@[i] == column_major_pixel_value(bytes@, 176, 16, i),
{
    let surface = match decode_md_tiles_column_major(bytes, SURFACE_WIDTH_PIXELS, SURFACE_HEIGHT_PIXELS) {
        Ok(s) => s,
        Err(_) => {
            proof {
                assert(false);
            }
            Vec::new()
        },
    };
    proof {
        assert forall|i: int| 0 <= i < 176 * 16 implies (#[trigger] surface@[i] == 0 || surface@[i] == 15) by {
            let b = crate::tiles::column_major_byte_of_pixel(176, 16, i);
            crate::grid::lemma_split_index(i, 176, 16);
            let v = surface@[i];
            assert(0 <= b < 1_408) by {
                let y = i / 176;
                let x = i % 176;
                assert((x / 8) * 2 + y / 8 < 44);
            }
            assert(has_nibble_at(bytes@, b, v as int));
            assert(crate::tiles::has_nibble(bytes@, v as usize as int));
            assert(seq![0usize, 15].contains(v as usize));
        }
    }
    surface
}

spec fn has_nibble_at(bytes: Seq<u8>, b: int, v: int) -> bool {
    bytes[b] / 16 == v || bytes[b] % 16 == v
}

/// Compile the ten page headings: check the manifest, then for every page
/// its JP header, decoded first transfer, ownership hashes and typed loader,
/// redraw its heading in Korean and check the Korean transfer's ownership.
pub fn build_credits_top(rom: &[u8], manifest: CreditsTopManifest, decoded: &Vec<DecodedPack>, glyphs: &[NativeGlyph]) -> (build:
    Result<CreditsTopBuild, Error>)
    ensures
        build is Ok <==> build_inputs_ok(rom@, manifest, decoded@, glyphs@),
        build matches Ok(b) ==> {
            &&& build_wf(b)
            &&& b.manifest == manifest
            &&& b.heading_glyphs@ == distinct_chars(heading_chars(manifest.pages@, 10))
            &&& forall|r: int|
                0 <= r < 10 ==> {
                    let page = #[trigger] b.pages@[r];
                    let ko = manifest.pages@[r].ko@;
                    &&& page.source@ == decoded@[r].data@
                    &&& page.target@ == heading_target(decoded@[r].data@, glyphs@, ko)
                    &&& forall|i: int|
                        0 <= i < 176 * 16 ==> #[trigger] page.source_surface@[i] == column_major_pixel_value(
                            decoded@[r].data@.subrange(32, 1_440),
                            176,
                            16,
                            i,
                        )
                    &&& forall|i: int| 0 <= i < 176 * 16 ==> #[trigger] page.target_surface@[i] == heading_surface(glyphs@, ko)[i]
                }
        },
{
    validate_manifest_shape(&manifest)?;
    if decoded.len() != PAGE_COUNT {
        return Err("credit headings need the ten decoded first transfers");
    }
    let mut pages: Vec<PageBuild> = Vec::new();
    let mut seen: Vec<char> = Vec::new();
    let mut i: usize = 0;
    while i < PAGE_COUNT
        invariant
            manifest_shape_ok(manifest),
            decoded@.len() == 10,
            i <= 10,
            pages@.len() == i,
            seen@ == distinct_chars(heading_chars(manifest.pages@, i as int)),
            forall|k: int| 0 <= k < i ==> page_inputs_ok(rom@, #[trigger] manifest.pages@[k], decoded@[k], glyphs@, k),
            forall|r: int|
                0 <= r < i ==> {
                    let page = #[trigger] pages@[r];
                    let ko = manifest.pages@[r].ko@;
                    &&& two_role_surface(page.source_surface@)
                    &&& two_role_surface(page.target_surface@)
                    &&& page.source@ == decoded@[r].data@
                    &&& page.target@ == heading_target(decoded@[r].data@, glyphs@, ko)
                    &&& forall|q: int|
                        0 <= q < 176 * 16 ==> #[trigger] page.source_surface@[q] == column_major_pixel_value(
                            decoded@[r].data@.subrange(32, 1_440),
                            176,
                            16,
                            q,
                        )
                    &&& forall|q: int| 0 <= q < 176 * 16 ==> #[trigger] page.target_surface@[q] == heading_surface(glyphs@, ko)[q]
                },
        decreases 10 - i,
    {
        let d = &manifest.pages[i];
        assert(page_ok(manifest.pages@[i as int], i as int));
        let source = checked_source_page(rom, &decoded[i], d, i)?;
        validate_loader(rom, d, i)?;
        let target = compile_heading(glyphs, source.as_slice(), d)?;
        proof {
            assert(target@.subrange(32, 1_440) =~= heading_bytes(glyphs@, d.ko@));
            assert(target@.subrange(0, 32) =~= source@.subrange(0, 32));
            assert(target@.subrange(1_440, target@.len() as int) =~= source@.subrange(1_440, source@.len() as int));
        }
        validate_target_ownership(source.as_slice(), target.as_slice())?;
        let source_surface = two_role_surface_of(&source.as_slice()[MUTABLE_START..MUTABLE_END]);
        let target_surface = two_role_surface_of(&target.as_slice()[MUTABLE_START..MUTABLE_END]);
        proof {
            let surface = heading_surface(glyphs@, d.ko@);
            assert forall|q: int| 0 <= q < surface.len() implies #[trigger] surface[q] < 16 by {
                lemma_line_two_roles(glyphs@, d.ko@, 176, (176 - text_width(d.ko@, 8)) / 2, 8, d.ko@.len() as int, q);
            }
            crate::tiles::lemma_column_major_roundtrip(surface, 176, 16, heading_bytes(glyphs@, d.ko@));
        }
        let ghost before = heading_chars(manifest.pages@, i as int);
        add_visible_chars(&mut seen, d.ko.as_str(), Ghost(before));
        pages.push(PageBuild { source, target, source_surface, target_surface });
        i = i + 1;
    }
    Ok(CreditsTopBuild { manifest, pages, heading_glyphs: seen })
}

/// What the timed-name, generic, native-frame and remaining credit compilers
/// report of the same pages, and the glyphs they draw.
pub struct CreditLineCounts {
    pub timed_lines: usize,
    pub relocated_timed_lines: usize,
    pub glyphs: Vec<char>,
    pub rewritten_tiles: usize,
    pub overwritten_timed_tiles: usize,
    pub appended_timed_tiles: usize,
    pub verified_timed_consumer_bytes: usize,
    pub verified_generic_consumer_bytes: usize,
    pub verified_native_frame_consumer_bytes: usize,
    pub verified_remaining_consumer_bytes: usize,
    pub written_executable_bytes: usize,
    pub map_bank_bytes: usize,
    pub generic_table_bank_bytes: usize,
    pub native_frame_table_bank_bytes: usize,
    pub remaining_table_bank_bytes: usize,
    pub remaining_pack_bank_bytes: usize,
}

/// Bytes of the JP first transfers of the first `n` pages.
pub open spec fn decoded_total(pages: Seq<PageBuild>, n: int) -> int
    decreases n,
{
    if n <= 0 {
        0
    } else {
        decoded_total(pages, n - 1) + pages[n - 1].source@.len()
    }
}

/// The summary's sums fit and its protected bytes are not negative.
pub open spec fn summary_fits(b: CreditsTopBuild, lines: CreditLineCounts) -> bool {
    &&& b.pages@.len() == 10
    &&& decoded_total(b.pages@, 10) <= usize::MAX
    &&& 440 + lines.rewritten_tiles <= usize::MAX
    &&& (440 + lines.overwritten_timed_tiles) * 32 <= decoded_total(b.pages@, 10)
    &&& b.heading_glyphs@.len() + lines.glyphs@.len() <= usize::MAX
}

/// The counts a build reports together with the other credit compilers'.
pub open spec fn spec_summary(
    b: CreditsTopBuild,
    lines: CreditLineCounts,
    unique_glyphs: int,
    pack_bank_bytes: usize,
    checksum: u16,
) -> CreditsTopSummary {
    let decoded = decoded_total(b.pages@, 10);
    CreditsTopSummary {
        headings: 10,
        timed_lines: lines.timed_lines,
        relocated_timed_lines: lines.relocated_timed_lines,
        unique_glyphs: unique_glyphs as usize,
        decoded_bytes: decoded as usize,
        rewritten_tiles: (440 + lines.rewritten_tiles) as usize,
        overwritten_timed_tiles: lines.overwritten_timed_tiles,
        appended_timed_tiles: lines.appended_timed_tiles,
        protected_bytes: (decoded - (440 + lines.overwritten_timed_tiles) * 32) as usize,
        verified_loader_bytes: 120,
        verified_timed_consumer_bytes: lines.verified_timed_consumer_bytes,
        verified_generic_consumer_bytes: lines.verified_generic_consumer_bytes,
        verified_native_frame_consumer_bytes: lines.verified_native_frame_consumer_bytes,
        verified_remaining_consumer_bytes: lines.verified_remaining_consumer_bytes,
        written_executable_bytes: lines.written_executable_bytes,
        map_bank_bytes: lines.map_bank_bytes,
        generic_table_bank_bytes: lines.generic_table_bank_bytes,
        native_frame_table_bank_bytes: lines.native_frame_table_bank_bytes,
        remaining_table_bank_bytes: lines.remaining_table_bank_bytes,
        remaining_pack_bank_bytes: lines.remaining_pack_bank_bytes,
        pack_bank_bytes,
        checksum,
    }
}

/// Report the headings' counts together with the other credit compilers':
/// the unique glyphs are those of every heading and credit line.
pub fn summary(b: &CreditsTopBuild, lines: &CreditLineCounts, pack_bank_bytes: usize, checksum: u16) -> (s:
    CreditsTopSummary)
    requires
        summary_fits(*b, *lines),
    ensures
        s == spec_summary(
            *b,
            *lines,
            distinct_chars(b.heading_glyphs@ + lines.glyphs@).len() as int,
            pack_bank_bytes,
            checksum,
        ),
{
    let mut decoded: usize = 0;
    let mut r: usize = 0;
    while r < 10
        invariant
            summary_fits(*b, *lines),
            r <= 10,
            decoded == decoded_total(b.pages@, r as int),
        decreases 10 - r,
    {
        proof {
            lemma_decoded_total_grows(b.pages@, r as int + 1, 10);
        }
        decoded = decoded + b.pages[r].source.len();
        r = r + 1;
    }
    let mut all: Vec<char> = Vec::new();
    let mut k: usize = 0;
    while k < b.heading_glyphs.len()
        invariant
            k <= b.heading_glyphs@.len(),
            all@ == b.heading_glyphs@.take(k as int),
        decreases b.heading_glyphs@.len() - k,
    {
        all.push(b.heading_glyphs[k]);
        assert(b.heading_glyphs@.take(k + 1) =~= b.heading_glyphs@.take(k as int).push(b.heading_glyphs@[k as int]));
        k = k + 1;
    }
    let mut k: usize = 0;
    while k < lines.glyphs.len()
        invariant
            k <= lines.glyphs@.len(),
            b.heading_glyphs@.len() + lines.glyphs@.len() <= usize::MAX,
            all@ == b.heading_glyphs@ + lines.glyphs@.take(k as int),
        decreases lines.glyphs@.len() - k,
    {
        all.push(lines.glyphs[k]);
        assert(b.heading_glyphs@ + lines.glyphs@.take(k + 1) =~= (b.heading_glyphs@ + lines.glyphs@.take(k as int)).push(
            lines.glyphs@[k as int],
        ));
        k = k + 1;
    }
    assert(lines.glyphs@.take(k as int) =~= lines.glyphs@);
    let unique = distinct_count(&all);
    CreditsTopSummary {
        headings: PAGE_COUNT,
        timed_lines: lines.timed_lines,
        relocated_timed_lines: lines.relocated_timed_lines,
        unique_glyphs: unique,
        decoded_bytes: decoded,
        rewritten_tiles: 440 + lines.rewritten_tiles,
        overwritten_timed_tiles: lines.overwritten_timed_tiles,
        appended_timed_tiles: lines.appended_timed_tiles,
        protected_bytes: decoded - (440 + lines.overwritten_timed_tiles) * 32,
        verified_loader_bytes: 120,
        verified_timed_consumer_bytes: lines.verified_timed_consumer_bytes,
        verified_generic_consumer_bytes: lines.verified_generic_consumer_bytes,
        verified_native_frame_consumer_bytes: lines.verified_native_frame_consumer_bytes,
        verified_remaining_consumer_bytes: lines.verified_remaining_consumer_bytes,
        written_executable_bytes: lines.written_executable_bytes,
        map_bank_bytes: lines.map_bank_bytes,
        generic_table_bank_bytes: lines.generic_table_bank_bytes,
        native_frame_table_bank_bytes: lines.native_frame_table_bank_bytes,
        remaining_table_bank_bytes: lines.remaining_table_bank_bytes,
        remaining_pack_bank_bytes: lines.remaining_pack_bank_bytes,
        pack_bank_bytes,
        checksum,
    }
}

proof fn lemma_decoded_total_grows(pages: Seq<PageBuild>, n: int, m: int)
    requires
        0 <= n <= m,
    ensures
        decoded_total(pages, n) <= decoded_total(pages, m),
    decreases m - n,
{
    if n < m {
        lemma_decoded_total_grows(pages, n, m - 1);
    }
}

proof fn lemma_distinct_len(s: Seq<char>)
    ensures
        distinct_chars(s).len() <= s.len(),
    decreases s.len(),
{
    if s.len() > 0 {
        lemma_distinct_len(s.drop_last());
    }
}

/// Number of distinct characters of `chars`.
fn distinct_count(chars: &Vec<char>) -> (n: usize)
    ensures
        n == distinct_chars(chars@).len(),
{
    let mut seen: Vec<char> = Vec::new();
    let mut k: usize = 0;
    while k < chars.len()
        invariant
            k <= chars@.len(),
            seen@ == distinct_chars(chars@.take(k as int)),
        decreases chars@.len() - k,
    {
        let c = chars[k];
        assert(chars@.take(k + 1).drop_last() =~= chars@.take(k as int));
        let mut found = false;
        let mut j: usize = 0;
        while j < seen.len()
            invariant
                j <= seen@.len(),
                found == exists|q: int| 0 <= q < j && seen@[q] == c,
            decreases seen@.len() - j,
        {
            if seen[j] == c {
                found = true;
            }
            j = j + 1;
        }
        if !found {
            seen.push(c);
        }
        k = k + 1;
    }
    assert(chars@.take(k as int) =~= chars@);
    seen.len()
}

/// Colour of pixel (`x`, `y`) of the unscaled 368x232 sheet: row `y / 24`
/// shows page `y / 24`'s JP heading at x 0 and its Korean heading at x 192;
/// ink is white, everything else the dark background.
pub open spec fn preview_color(b: CreditsTopBuild, x: int, y: int) -> Seq<u8> {
    let row = y / 24;
    let ly = y % 24;
    let ink = if ly < 16 && x < 176 {
        b.pages@[row].source_surface@[ly * 176 + x] != 0
    } else if ly < 16 && 192 <= x < 368 {
        b.pages@[row].target_surface@[ly * 176 + x - 192] != 0
    } else {
        false
    };
    if ink {
        seq![255u8, 255u8, 255u8]
    } else {
        seq![30u8, 15u8, 18u8]
    }
}

/// Byte `k` of the 1104x696 preview: the sheet scaled three times.
pub open spec fn preview_byte(b: CreditsTopBuild, k: int) -> u8 {
    let q = k / 4;
    let x = (q % 1104) / 3;
    let y = (q / 1104) / 3;
    opaque_channel(preview_color(b, x, y), k % 4)
}

/// Render all ten JP and Korean heading surfaces side by side.
pub fn write_credits_top_preview(b: &CreditsTopBuild, lines: &CreditLineCounts, pack_bank_bytes: usize) -> (result: (
    RgbaImage,
    CreditsTopSummary,
))
    requires
        build_wf(*b),
        summary_fits(*b, *lines),
    ensures
        result.0.width == 1104,
        result.0.height == 696,
        result.0.rgba@.len() == 1104 * 696 * 4,
        forall|k: int| 0 <= k < 1104 * 696 * 4 ==> #[trigger] result.0.rgba@[k] == preview_byte(*b, k),
        result.1 == spec_summary(
            *b,
            *lines,
            distinct_chars(b.heading_glyphs@ + lines.glyphs@).len() as int,
            pack_bank_bytes,
            0,
        ),
{
    let total: usize = 1104 * 696;
    let mut rgba: Vec<u8> = Vec::with_capacity(total * 4);
    let mut q: usize = 0;
    while q < total
        invariant
            build_wf(*b),
            total == 1104 * 696,
            q <= total,
            rgba@.len() == q * 4,
            forall|k: int| 0 <= k < q * 4 ==> #[trigger] rgba@[k] == preview_byte(*b, k),
        decreases total - q,
    {
        let x = (q % 1104) / 3;
        let y = (q / 1104) / 3;
        let row = y / 24;
        let ly = y % 24;
        assert(row < 10);
        let ink = if ly < 16 && x < 176 {
            b.pages[row].source_surface[ly * 176 + x] != 0
        } else if ly < 16 && 192 <= x && x < 368 {
            b.pages[row].target_surface[ly * 176 + x - 192] != 0
        } else {
            false
        };
        let color: [u8; 3] = if ink { [255, 255, 255] } else { [30, 15, 18] };
        assert(color@ =~= preview_color(*b, x as int, y as int));
        let ghost before = rgba@;
        push_opaque(&mut rgba, color);
        assert forall|k: int| 0 <= k < (q + 1) * 4 implies #[trigger] rgba@[k] == preview_byte(*b, k) by {
            if k >= q * 4 {
                assert(k / 4 == q);
                let c = k - q * 4;
                assert(rgba@[before.len() + c] == opaque_channel(color@, c));
            } else {
                assert(rgba@[k] == before[k]);
            }
        }
        q = q + 1;
    }
    let image = RgbaImage { width: 1104, height: 696, rgba };
    (image, summary(b, lines, pack_bank_bytes, 0))
}

/// A stored mode-1 stream: runs of at most 0x7F bytes, each behind its
/// length byte, then a zero byte.
pub open spec fn stored_stream(p: Seq<u8>) -> Seq<u8>
    decreases p.len(),
{
    if p.len() == 0 {
        seq![0u8]
    } else if p.len() <= 0x7F {
        seq![p.len() as u8] + p + seq![0u8]
    } else {
        seq![0x7Fu8] + p.take(0x7F) + stored_stream(p.skip(0x7F))
    }
}

/// The shared bank after payload `k`: padded to an even length, its pointer
/// slot `k` set to the subheader's offset, then the subheader, the chain
/// terminator and the stored stream.
pub open spec fn bank_step(bank: Seq<u8>, p: Seq<u8>, k: int, terminator: Seq<u8>) -> Seq<u8> {
    let padded = if bank.len() % 2 == 1 {
        bank.push(0xFFu8)
    } else {
        bank
    };
    let sub = padded.len() as int;
    let comp = sub + 6 + terminator.len();
    padded.update(2 * k, (sub / 256) as u8).update(2 * k + 1, (sub % 256) as u8) + seq![
        0xC0u8,
        0x00,
        0x00,
        0x00,
        (comp / 256) as u8,
        (comp % 256) as u8,
    ] + terminator + stored_stream(p)
}

/// The shared bank after the first `n` payloads: a 0x80-byte pointer
/// table of erased bytes, then one entry per payload.
pub open spec fn shared_bank(ps: Seq<Vec<u8>>, terminator: Seq<u8>, n: int) -> Seq<u8>
    decreases n,
{
    if n <= 0 {
        Seq::new(0x80, |i: int| 0xFFu8)
    } else {
        bank_step(shared_bank(ps, terminator, n - 1), ps[n - 1]@, n - 1, terminator)
    }
}

/// The pack header of payload `k`: source pointer slot `k` of the bank at
/// 0x300000.
pub open spec fn shared_header(k: int) -> Seq<u8> {
    seq![0x80u8, 0x00, 0x30, (2 * k) as u8, 0x00, 0x00]
}

/// The shared bank can be built: one to 64 payloads, none empty, and a
/// bank that ends within 64 KiB.
pub open spec fn shared_bank_ok(ps: Seq<Vec<u8>>, terminator: Seq<u8>) -> bool {
    &&& 1 <= ps.len() <= 0x40
    &&& forall|k: int| 0 <= k < ps.len() ==> (#[trigger] ps[k])@.len() > 0
    &&& shared_bank(ps, terminator, ps.len() as int).len() <= 0x1_0000
}

proof fn lemma_stream_len(p: Seq<u8>)
    ensures
        stored_stream(p).len() >= 1,
        stored_stream(p).len() >= p.len(),
    decreases p.len(),
{
    if p.len() > 0x7F {
        lemma_stream_len(p.skip(0x7F));
    }
}

proof fn lemma_shared_len(ps: Seq<Vec<u8>>, terminator: Seq<u8>, n: int, m: int)
    requires
        0 <= n <= m <= ps.len(),
        ps.len() <= 0x40,
    ensures
        shared_bank(ps, terminator, n).len() <= shared_bank(ps, terminator, m).len(),
        shared_bank(ps, terminator, m).len() >= 0x80,
    decreases m,
{
    if m > 0 {
        lemma_shared_len(ps, terminator, if n == m { n - 1 } else { n }, m - 1);
        lemma_stream_len(ps[m - 1]@);
    }
}

/// Append `p[from..to]` to `bank`.
fn push_range(bank: &mut Vec<u8>, p: &[u8], from: usize, to: usize)
    requires
        from <= to <= p@.len(),
    ensures
        final(bank)@ == old(bank)@ + p@.subrange(from as int, to as int),
{
    let mut b: usize = from;
    while b < to
        invariant
            from <= b <= to,
            to <= p@.len(),
            bank@ == old(bank)@ + p@.subrange(from as int, b as int),
        decreases to - b,
    {
        bank.push(p[b]);
        b = b + 1;
        assert(bank@ =~= old(bank)@ + p@.subrange(from as int, b as int));
    }
}

/// Append a stored stream of `p`.
fn push_stored_stream(bank: &mut Vec<u8>, p: &[u8])
    ensures
        final(bank)@ == old(bank)@ + stored_stream(p@),
{
    let ghost start = bank@;
    let mut at: usize = 0;
    assert(p@.skip(0) =~= p@);
    while p.len() - at > 0x7F
        invariant
            at <= p@.len(),
            bank@ + stored_stream(p@.skip(at as int)) == start + stored_stream(p@),
        decreases p@.len() - at,
    {
        let ghost rest = p@.skip(at as int);
        let ghost before = bank@;
        bank.push(0x7F);
        push_range(bank, p, at, at + 0x7F);
        proof {
            assert(rest.take(0x7F) =~= p@.subrange(at as int, at + 0x7F));
            assert(rest.skip(0x7F) =~= p@.skip(at + 0x7F));
            assert(stored_stream(rest) == seq![0x7Fu8] + rest.take(0x7F) + stored_stream(rest.skip(0x7F)));
            assert(bank@ =~= before + seq![0x7Fu8] + rest.take(0x7F));
            assert(bank@ + stored_stream(p@.skip(at + 0x7F)) =~= before + stored_stream(rest));
        }
        at = at + 0x7F;
    }
    let ghost rest = p@.skip(at as int);
    let ghost before = bank@;
    let n = p.len() - at;
    if n > 0 {
        bank.push(n as u8);
        push_range(bank, p, at, p.len());
        assert(rest =~= p@.subrange(at as int, p@.len() as int));
    }
    bank.push(0);
    proof {
        if n > 0 {
            assert(bank@ =~= before + stored_stream(rest));
        } else {
            assert(rest.len() == 0);
            assert(bank@ =~= before + stored_stream(rest));
        }
    }
}

/// Lay several stored mode-1 streams out behind distinct pointer slots of
/// one bank at 0x300000, each subheader at an even offset; `terminator` is
/// the pack format's chain terminator. Yields each payload's pack header and
/// the bank.
#[verifier::rlimit(40)]
pub fn encode_shared_mode1_bank(payloads: &Vec<Vec<u8>>, terminator: &[u8]) -> (result: Result<
    (Vec<[u8; 6]>, Vec<u8>),
    Error,
>)
    requires
        terminator@.len() <= 0x100,
    ensures
        result is Ok <==> shared_bank_ok(payloads@, terminator@),
        result matches Ok((headers, bank)) ==> {
            &&& bank@ == shared_bank(payloads@, terminator@, payloads@.len() as int)
            &&& headers@.len() == payloads@.len()
            &&& forall|k: int| 0 <= k < headers@.len() ==> (#[trigger] headers@[k])@ == shared_header(k)
        },
{
    let n = payloads.len();
    if n == 0 || n > 0x40 {
        return Err("credit-heading pointer table must hold one to 64 payloads");
    }
    let mut bank: Vec<u8> = Vec::new();
    let mut f: usize = 0;
    while f < 0x80
        invariant
            f <= 0x80,
            bank@ =~= Seq::new(f as nat, |i: int| 0xFFu8),
        decreases 0x80 - f,
    {
        bank.push(0xFF);
        f = f + 1;
    }
    let mut headers: Vec<[u8; 6]> = Vec::new();
    let mut k: usize = 0;
    while k < n
        invariant
            n == payloads@.len(),
            1 <= n <= 0x40,
            terminator@.len() <= 0x100,
            k <= n,
            bank@ == shared_bank(payloads@, terminator@, k as int),
            bank@.len() <= 0x1_0000,
            bank@.len() >= 0x80,
            forall|j: int| 0 <= j < k ==> (#[trigger] payloads@[j])@.len() > 0,
            headers@.len() == k,
            forall|j: int| 0 <= j < k ==> (#[trigger] headers@[j])@ == shared_header(j),
        decreases n - k,
    {
        let p = &payloads[k];
        if p.len() == 0 {
            assert(payloads@[k as int]@.len() == 0);
            return Err("credit-heading shared payload must not be empty");
        }
        let ghost before = bank@;
        if bank.len() % 2 == 1 {
            bank.push(0xFF);
        }
        let sub = bank.len();
        let comp = sub + 6 + terminator.len();
        if sub > 0xFFFF || comp > 0xFFFF {
            proof {
                lemma_stream_len(p@);
                assert(shared_bank(payloads@, terminator@, k + 1).len() > 0x1_0000);
                lemma_shared_len(payloads@, terminator@, k + 1, n as int);
            }
            return Err("credit-heading stream escaped its source bank");
        }
        let slot = 2 * k;
        bank.set(slot, (sub / 256) as u8);
        bank.set(slot + 1, (sub % 256) as u8);
        bank.push(0xC0);
        bank.push(0x00);
        bank.push(0x00);
        bank.push(0x00);
        bank.push((comp / 256) as u8);
        bank.push((comp % 256) as u8);
        push_range(&mut bank, terminator, 0, terminator.len());
        push_stored_stream(&mut bank, p.as_slice());
        proof {
            assert(terminator@.subrange(0, terminator@.len() as int) =~= terminator@);
            let padded = if before.len() % 2 == 1 { before.push(0xFFu8) } else { before };
            assert(bank@ =~= bank_step(before, p@, k as int, terminator@));
        }
        if bank.len() > 0x1_0000 {
            proof {
                lemma_shared_len(payloads@, terminator@, k + 1, n as int);
            }
            return Err("credit-heading shared bank exceeds 64 KiB");
        }
        let header: [u8; 6] = [0x80, 0x00, 0x30, (2 * k) as u8, 0x00, 0x00];
        assert(header@ =~= shared_header(k as int));
        headers.push(header);
        k = k + 1;
    }
    Ok((headers, bank))
}

/// The writes of the credit insertion: each page's heading header over its
/// JP header, the timed relocated-map bank over erased bytes when it is not
/// empty, each timed typed patch over its JP instruction, the writes of the
/// other credit compilers, then the shared heading bank over erased bytes.
pub open spec fn credit_writes(
    source: Seq<u8>,
    headers: Seq<[u8; 6]>,
    bank: Seq<u8>,
    timed_bank: Seq<u8>,
    timed_patches: Seq<PatchView>,
    others: Seq<WriteView>,
) -> Seq<WriteView> {
    Seq::new(10, |k: int| header_write(source, header_offset_at(k) as usize, headers[k]@)) + (if timed_bank.len() > 0 {
        seq![bank_write(0x2F_8000, timed_bank)]
    } else {
        Seq::empty()
    }) + timed_patches.map_values(|p: PatchView| (p.0, p.1, p.2)) + others + seq![bank_write(0x30_0000, bank)]
}

/// Everything the credit insertion checks: ten headers, the shared bank
/// within 0x310000, the timed map bank before the generic table bank at
/// 0x2FA000, every JP header in `source`, every write finding its expected
/// bytes, and the written ROM keeping every page's loader and every timed
/// consumer.
pub open spec fn credit_insert_ok(
    source: Seq<u8>,
    image: Seq<u8>,
    b: CreditsTopBuild,
    headers: Seq<[u8; 6]>,
    bank: Seq<u8>,
    timed: CreditsTimedBuild,
    timed_lines: Seq<crate::credits_timed::LineDeclaration>,
    others: Seq<WriteView>,
) -> bool {
    let ws = credit_writes(source, headers, bank, timed.map_bank@, patch_views(timed.instruction_patches@), others);
    let out = checksummed(writes_applied(image, ws, ws.len() as int));
    &&& headers.len() == 10
    &&& 0x30_0000 + bank.len() <= 0x31_0000
    &&& 0x2F_8000 + timed.map_bank@.len() <= 0x2F_A000
    &&& 0x09_E096 + 6 <= source.len()
    &&& writes_ok(image, ws)
    &&& forall|k: int| 0 <= k < 10 ==> loader_ok(out, #[trigger] b.manifest.pages@[k], k)
    &&& output_ok(source, out, timed, timed_lines)
}

/// Check a written ROM: every page keeps its loader and every timed
/// consumer its bindings.
fn check_credit_output(
    source: &[u8],
    output: &[u8],
    build: &CreditsTopBuild,
    timed: &CreditsTimedBuild,
    timed_manifest: &CreditsTimedManifest,
) -> (result: Result<(), Error>)
    requires
        build.manifest.pages@.len() == 10,
        patches_same_length(patch_views(timed.instruction_patches@)),
        forall|k: int| 0 <= k < timed.lines@.len() ==> (#[trigger] timed.lines@[k]).target_logical_tiles@.len() <= 0xFFFF,
    ensures
        result is Ok <==> (forall|k: int| 0 <= k < 10 ==> loader_ok(output@, #[trigger] build.manifest.pages@[k], k))
            && output_ok(source@, output@, *timed, timed_manifest.lines@),
{
    let mut p: usize = 0;
    while p < 10
        invariant
            build.manifest.pages@.len() == 10,
            p <= 10,
            forall|j: int| 0 <= j < p ==> loader_ok(output@, #[trigger] build.manifest.pages@[j], j),
        decreases 10 - p,
    {
        match validate_loader(output, &build.manifest.pages[p], p) {
            Ok(()) => {},
            Err(e) => {
                assert(!loader_ok(output@, build.manifest.pages@[p as int], p as int));
                return Err(e);
            },
        }
        p = p + 1;
    }
    timed.validate_output_consumers(timed_manifest, source, output)
}

fn header_bytes(h: &[u8; 6]) -> (v: Vec<u8>)
    ensures
        v@ == h@,
{
    let v = vec![h[0], h[1], h[2], h[3], h[4], h[5]];
    assert(v@ =~= h@);
    v
}

/// Write the credit headings and every credit patch into the output ROM:
/// the ten heading headers over their JP headers, the timed map bank and
/// typed patches, the writes of the other credit compilers, the shared
/// heading bank, then the header checksum; the written ROM must keep every
/// loader and timed consumer. On any refusal the output is left as it was.
#[verifier::rlimit(60)]
#[verifier::spinoff_prover]
pub fn apply_credits_top(
    source: &[u8],
    output: &mut Vec<u8>,
    build: &CreditsTopBuild,
    headers: &Vec<[u8; 6]>,
    bank: &[u8],
    timed: &CreditsTimedBuild,
    timed_manifest: &CreditsTimedManifest,
    others: &Vec<ExpectedWrite>,
    lines: &CreditLineCounts,
) -> (result: Result<CreditsTopSummary, Error>)
    requires
        build.manifest.pages@.len() == 10,
        summary_fits(*build, *lines),
        patches_same_length(patch_views(timed.instruction_patches@)),
        forall|k: int| 0 <= k < timed.lines@.len() ==> (#[trigger] timed.lines@[k]).target_logical_tiles@.len() <= 0xFFFF,
    ensures
        result is Ok <==> credit_insert_ok(
            source@,
            old(output)@,
            *build,
            headers@,
            bank@,
            *timed,
            timed_manifest.lines@,
            write_views(others@),
        ),
        result is Err ==> final(output)@ == old(output)@,
        result matches Ok(s) ==> {
            let ws = credit_writes(
                source@,
                headers@,
                bank@,
                timed.map_bank@,
                patch_views(timed.instruction_patches@),
                write_views(others@),
            );
            let applied = writes_applied(old(output)@, ws, ws.len() as int);
            &&& final(output)@ == checksummed(applied)
            &&& s.checksum as int == crate::rom::spec_checksum(applied)
            &&& only_ranges_changed(old(output)@, final(output)@, write_ranges(ws))
        },
{
    if headers.len() != 10 || bank.len() > 0x1_0000 || timed.map_bank.len() > 0x2000 {
        return Err("credit packs end outside their expanded banks");
    }
    if source.len() < 0x09_E096 + 6 {
        return Err("credit heading headers lie outside the JP ROM");
    }
    let mut writes: Vec<ExpectedWrite> = Vec::new();
    let mut k: usize = 0;
    while k < 10
        invariant
            headers@.len() == 10,
            source@.len() >= 0x09_E096 + 6,
            k <= 10,
            write_views(writes@) =~= Seq::new(k as nat, |j: int| header_write(source@, header_offset_at(j) as usize, headers@[j]@)),
        decreases 10 - k,
    {
        let h = header_bytes(&headers[k]);
        assert(HEADER_OFFSETS[k as int] as nat == header_offset_at(k as int));
        let w = match header_write_of(source, HEADER_OFFSETS[k], h.as_slice()) {
            Ok(w) => w,
            Err(e) => {
                return Err(e);
            },
        };
        proof {
            lemma_write_views_push(writes@, w);
        }
        writes.push(w);
        k = k + 1;
    }
    let ghost phase1 = write_views(writes@);
    if timed.map_bank.len() > 0 {
        let w = bank_write_of(0x2F_8000, timed.map_bank.as_slice());
        proof {
            lemma_write_views_push(writes@, w);
        }
        writes.push(w);
    }
    let ghost phase2 = write_views(writes@);
    assert(phase2 =~= phase1 + (if timed.map_bank@.len() > 0 {
        seq![bank_write(0x2F_8000, timed.map_bank@)]
    } else {
        Seq::empty()
    }));
    let ghost tp = patch_views(timed.instruction_patches@).map_values(|p: PatchView| (p.0, p.1, p.2));
    let mut t: usize = 0;
    while t < timed.instruction_patches.len()
        invariant
            t <= timed.instruction_patches@.len(),
            tp == patch_views(timed.instruction_patches@).map_values(|p: PatchView| (p.0, p.1, p.2)),
            write_views(writes@) =~= phase2 + tp.take(t as int),
        decreases timed.instruction_patches@.len() - t,
    {
        let p = &timed.instruction_patches[t];
        let w = fixed_write_of(p.offset, p.source.as_slice(), p.target.as_slice());
        proof {
            lemma_write_views_push(writes@, w);
            assert(tp[t as int] == (p.offset, p.source@, p.target@));
        }
        writes.push(w);
        assert(tp.take(t + 1) =~= tp.take(t as int).push(tp[t as int]));
        t = t + 1;
    }
    assert(tp.take(tp.len() as int) =~= tp);
    let ghost phase3 = write_views(writes@);
    let mut o: usize = 0;
    while o < others.len()
        invariant
            o <= others@.len(),
            write_views(writes@) =~= phase3 + write_views(others@).take(o as int),
        decreases others@.len() - o,
    {
        let x = &others[o];
        let w = fixed_write_of(x.offset, x.expected.as_slice(), x.replacement.as_slice());
        proof {
            lemma_write_views_push(writes@, w);
            assert(write_views(others@)[o as int] == (x.offset, x.expected@, x.replacement@));
        }
        writes.push(w);
        assert(write_views(others@).take(o + 1) =~= write_views(others@).take(o as int).push(write_views(others@)[o as int]));
        o = o + 1;
    }
    assert(write_views(others@).take(others@.len() as int) =~= write_views(others@));
    let w = bank_write_of(0x30_0000, bank);
    proof {
        lemma_write_views_push(writes@, w);
    }
    writes.push(w);
    assert(write_views(writes@) =~= credit_writes(
        source@,
        headers@,
        bank@,
        timed.map_bank@,
        patch_views(timed.instruction_patches@),
        write_views(others@),
    ));
    let original = copy_bytes(output.as_slice());
    let checksum = insert_writes(output, &writes)?;
    match check_credit_output(source, output.as_slice(), build, timed, timed_manifest) {
        Ok(()) => {},
        Err(e) => {
            *output = original;
            return Err(e);
        },
    }
    Ok(summary(build, lines, bank.len(), checksum))
}

} // verus!

use md_gfx::credits_top::{
    ConsumerDeclaration, CreditLineCounts, CreditsTopManifest, PageDeclaration, SurfaceDeclaration,
    TargetBankDeclaration, build_credits_top, checked_source_page, compile_heading, summary,
    validate_loader, validate_manifest_shape, validate_target_ownership, write_credits_top_preview,
    encode_shared_mode1_bank, apply_credits_top,
};
use md_gfx::credits_timed::{CreditsTimedBuild, CreditsTimedManifest};
use md_gfx::insert::ExpectedWrite;
use md_gfx::digest::sha256_hex;
use md_gfx::font_effect::NativeGlyph;
use md_gfx::pack::DecodedPack;

const HEADERS: [usize; 10] = [
    0x09_DF7E, 0x09_DF9E, 0x09_DFBE, 0x09_DFF2, 0x09_E020, 0x09_E040, 0x09_E054, 0x09_E06E, 0x09_E088, 0x09_E096,
];
const LOADERS: [usize; 10] = [
    0x09_7C1E, 0x09_7CEC, 0x09_7D84, 0x09_7F74, 0x09_80FC, 0x09_8222, 0x09_8382, 0x09_841A, 0x09_85D0, 0x09_8678,
];
const KOREAN: [&str; 10] = ["가", "나다", "라 마", "바", "사", "아", "자", "차", "카", "타파하"];

fn s(text: &str) -> String {
    text.to_string()
}

fn loader(header: usize) -> Vec<u8> {
    let mut code = vec![0x45, 0xF9];
    code.extend_from_slice(&(header as u32).to_be_bytes());
    code.extend_from_slice(&[0x4E, 0xB9, 0x00, 0x00, 0x0A, 0x72]);
    code
}

/// Page `i`'s JP first transfer: tile 0 and the suffix hold `i`, the heading
/// alternates roles 0 and 15.
fn payload(i: usize) -> Vec<u8> {
    let mut data = vec![i as u8; 1_440 + 32 * (i + 1)];
    for (k, byte) in data[32..1_440].iter_mut().enumerate() {
        *byte = if k % 3 == 0 { 0xF0 } else { 0x00 };
    }
    data
}

fn rom() -> Vec<u8> {
    let mut rom = vec![0u8; 0x0A_0000];
    for (i, (&h, &l)) in HEADERS.iter().zip(LOADERS.iter()).enumerate() {
        rom[h..h + 6].copy_from_slice(&[0x80, 0x00, 0x12, i as u8, 0x00, 0x00]);
        rom[l..l + 12].copy_from_slice(&loader(h));
    }
    rom
}

fn page(i: usize, rom: &[u8]) -> PageDeclaration {
    let data = payload(i);
    PageDeclaration {
        id: format!("GFX-CREDITS-P{i:02}-TOP"),
        page: i,
        jp: s("スタッフ"),
        ko: s(KOREAN[i]),
        header_offset: format!("0x{:06X}", HEADERS[i]),
        header_sha256: sha256_hex(&rom[HEADERS[i]..HEADERS[i] + 6]),
        decoded_bytes: data.len(),
        decoded_sha256: sha256_hex(&data),
        protected_prefix_sha256: sha256_hex(&data[..32]),
        mutable_heading_sha256: sha256_hex(&data[32..1_440]),
        protected_suffix_sha256: sha256_hex(&data[1_440..]),
        loader_offset: format!("0x{:06X}", LOADERS[i]),
        loader_sha256: sha256_hex(&loader(HEADERS[i])),
    }
}

fn manifest(rom: &[u8]) -> CreditsTopManifest {
    CreditsTopManifest {
        schema_version: 1,
        asset_group_id: s("GFX-CREDITS-TOP"),
        source_policy: s("JP source, English VWF elsewhere"),
        font_asset: s("neodgm.ttf"),
        font_sha256: "b".repeat(64),
        render_mode: s("jp_native_16x16_no_horizontal_scaling"),
        space_width_px: 8,
        surface: SurfaceDeclaration {
            width_tiles: 22,
            height_tiles: 2,
            storage: s("column_major"),
            mutable_tile_start: 1,
            mutable_tile_end_exclusive: 45,
            source_palette_indices: vec![0, 15],
        },
        target_bank: TargetBankDeclaration {
            offset: s("0x300000"),
            limit: s("0x310000"),
            pointer_entry_bytes: 2,
            payload_start_alignment: s("0x80"),
            fill_byte: s("0xFF"),
        },
        consumer: ConsumerDeclaration { loader_target: s("0x00000A72"), loader_bytes: 12 },
        pages: (0..10).map(|i| page(i, rom)).collect(),
    }
}

fn decoded() -> Vec<DecodedPack> {
    (0..10).map(|i| DecodedPack { header_offset: HEADERS[i], vram_destination: 0, data: payload(i) }).collect()
}

/// Every Korean glyph is a full 16x16 block.
fn glyphs() -> Vec<NativeGlyph> {
    KOREAN.concat().chars().filter(|c| !c.is_whitespace()).map(|character| NativeGlyph { character, core: vec![true; 256] }).collect()
}

fn lines() -> CreditLineCounts {
    CreditLineCounts {
        timed_lines: 7,
        relocated_timed_lines: 4,
        glyphs: vec!['가', '힣'],
        rewritten_tiles: 30,
        overwritten_timed_tiles: 20,
        appended_timed_tiles: 10,
        verified_timed_consumer_bytes: 1,
        verified_generic_consumer_bytes: 2,
        verified_native_frame_consumer_bytes: 3,
        verified_remaining_consumer_bytes: 4,
        written_executable_bytes: 5,
        map_bank_bytes: 6,
        generic_table_bank_bytes: 7,
        native_frame_table_bank_bytes: 8,
        remaining_table_bank_bytes: 9,
        remaining_pack_bank_bytes: 10,
    }
}

#[test]
fn credits_top_manifest_shape_accepts_and_refuses() {
    let rom = rom();
    assert!(validate_manifest_shape(&manifest(&rom)).is_ok());
    let mut drifted = manifest(&rom);
    drifted.pages[3].id = s("GFX-CREDITS-P3-TOP");
    assert!(validate_manifest_shape(&drifted).is_err());
    let mut drifted = manifest(&rom);
    drifted.pages[9].ko = "가".repeat(12);
    assert!(validate_manifest_shape(&drifted).is_err());
    drifted.pages[9].ko = "가".repeat(11);
    assert!(validate_manifest_shape(&drifted).is_ok());
    let mut drifted = manifest(&rom);
    drifted.surface.source_palette_indices = vec![15, 0];
    assert!(validate_manifest_shape(&drifted).is_err());
}

#[test]
fn credits_top_source_page_and_loader_checks() {
    let rom = rom();
    let m = manifest(&rom);
    let packs = decoded();
    assert_eq!(checked_source_page(&rom, &packs[2], &m.pages[2], 2).unwrap(), payload(2));
    assert!(checked_source_page(&rom, &packs[2], &m.pages[3], 3).is_err());
    let mut data = payload(2);
    data[100] = 0x1F;
    let roles = DecodedPack { header_offset: HEADERS[2], vram_destination: 0, data };
    assert!(checked_source_page(&rom, &roles, &m.pages[2], 2).is_err());
    assert!(validate_loader(&rom, &m.pages[5], 5).is_ok());
    let mut drifted = rom.clone();
    drifted[LOADERS[5] + 11] = 0x74;
    assert!(validate_loader(&drifted, &m.pages[5], 5).is_err());
}

#[test]
fn credits_top_heading_keeps_the_protected_bytes() {
    let rom = rom();
    let m = manifest(&rom);
    let source = payload(1);
    let target = compile_heading(&glyphs(), &source, &m.pages[1]).unwrap();
    assert_eq!(target.len(), source.len());
    assert_eq!(&target[..32], &source[..32]);
    assert_eq!(&target[1_440..], &source[1_440..]);
    assert!(validate_target_ownership(&source, &target).is_ok());
    // `나다` is 32px wide, centred from x 72: tiles (column-major, two per
    // column) 9 and 10 of the heading start the first glyph.
    assert_eq!(target[32 + 9 * 2 * 32], 0xFF);
    assert_eq!(target[32 + 8 * 2 * 32], 0x00);
    let mut moved = target.clone();
    moved[0] ^= 1;
    assert!(validate_target_ownership(&source, &moved).is_err());
    assert!(compile_heading(&[], &source, &m.pages[1]).is_err());
}

#[test]
fn credits_top_build_preview_and_summary() {
    let rom = rom();
    let build = build_credits_top(&rom, manifest(&rom), &decoded(), &glyphs()).unwrap();
    assert_eq!(build.pages.len(), 10);
    assert_eq!(build.heading_glyphs, "가나다라마바사아자차카타파하".chars().collect::<Vec<_>>());
    let (image, report) = write_credits_top_preview(&build, &lines(), 4_096);
    assert_eq!((image.width, image.height), (1_104, 696));
    assert_eq!(report.headings, 10);
    assert_eq!(report.unique_glyphs, 15);
    let decoded_bytes: usize = (0..10).map(|i| payload(i).len()).sum();
    assert_eq!(report.decoded_bytes, decoded_bytes);
    assert_eq!(report.rewritten_tiles, 470);
    assert_eq!(report.protected_bytes, decoded_bytes - 460 * 32);
    assert_eq!(report.verified_loader_bytes, 120);
    assert_eq!(report.pack_bank_bytes, 4_096);
    assert_eq!(report.checksum, 0);
    assert_eq!(summary(&build, &lines(), 4_096, 0x1234).checksum, 0x1234);
    // Page 0's JP heading: pixel (0, 0) of byte 32 is role 15 (white ink).
    assert_eq!(&image.rgba[0..4], &[255, 255, 255, 255]);
    // The gap between the two columns is background.
    let at = |x: usize, y: usize| ((y * 3) * 1_104 + x * 3) * 4;
    assert_eq!(&image.rgba[at(180, 0)..at(180, 0) + 4], &[30, 15, 18, 255]);
    // Page 0's Korean `가` fills x 80..96 of its row.
    assert_eq!(&image.rgba[at(192 + 80, 5)..at(192 + 80, 5) + 4], &[255, 255, 255, 255]);
    assert_eq!(&image.rgba[at(192 + 79, 5)..at(192 + 79, 5) + 4], &[30, 15, 18, 255]);
}

#[test]
fn credits_top_build_refuses_a_drifted_page() {
    let rom = rom();
    let mut packs = decoded();
    packs[7].data[5] ^= 1;
    assert!(build_credits_top(&rom, manifest(&rom), &packs, &glyphs()).is_err());
    let mut nine = decoded();
    nine.pop();
    assert!(build_credits_top(&rom, manifest(&rom), &nine, &glyphs()).is_err());
}

#[test]
fn credits_top_shared_bank_lays_out_pointer_slots_and_streams() {
    let payloads = vec![vec![1u8, 2, 3], vec![9u8; 0x80]];
    let (headers, bank) = encode_shared_mode1_bank(&payloads, &[0x00, 0x00]).unwrap();
    assert_eq!(headers, vec![[0x80, 0x00, 0x30, 0x00, 0x00, 0x00], [0x80, 0x00, 0x30, 0x02, 0x00, 0x00]]);
    assert_eq!(&bank[0..4], &[0x00, 0x80, 0x00, 0x8E]);
    assert!(bank[4..0x80].iter().all(|&b| b == 0xFF));
    assert_eq!(&bank[0x80..0x8D], &[0xC0, 0, 0, 0, 0x00, 0x88, 0x00, 0x00, 3, 1, 2, 3, 0]);
    // The odd-length first entry is padded so the next subheader is even.
    assert_eq!(bank[0x8D], 0xFF);
    assert_eq!(&bank[0x8E..0x98], &[0xC0, 0, 0, 0, 0x00, 0x96, 0x00, 0x00, 0x7F, 9]);
    assert_eq!(bank[0x96 + 1 + 0x7F], 1);
    assert_eq!(bank[bank.len() - 1], 0);
    assert_eq!(bank.len(), 0x96 + 1 + 0x7F + 2 + 1);
    assert!(encode_shared_mode1_bank(&vec![], &[0, 0]).is_err());
    assert!(encode_shared_mode1_bank(&vec![vec![1u8], vec![]], &[0, 0]).is_err());
    assert!(encode_shared_mode1_bank(&vec![vec![0u8; 0x1_0000]], &[0, 0]).is_err());
}

fn empty_timed() -> (CreditsTimedBuild, CreditsTimedManifest) {
    let build = CreditsTimedBuild {
        lines: vec![],
        glyphs: vec![],
        rewritten_tiles: 0,
        overwritten_source_tiles: 0,
        appended_tiles: 0,
        relocated_lines: 0,
        verified_consumer_bytes: 0,
        map_bank: vec![],
        instruction_patches: vec![],
    };
    let manifest = CreditsTimedManifest {
        schema_version: 3,
        asset_group_id: s(""),
        source_policy: s(""),
        standalone_ascii_policy: s(""),
        preserved_complete_latin_names: vec![],
        font_asset: s(""),
        font_sha256: s(""),
        render_mode: s(""),
        space_width_px: 8,
        consumer: md_gfx::credits_timed::ConsumerDeclaration {
            draw_target: s(""),
            definition_count: 1,
            definition_record_bytes: 8,
            tile_index_mask: s(""),
            glyph_tiles: 4,
            blank_tile: 5,
        },
        target_map_bank: md_gfx::credits_timed::TargetMapBankDeclaration { offset: s(""), limit: s(""), fill_byte: s("") },
        lines: vec![],
    };
    (build, manifest)
}

#[test]
fn credits_top_apply_writes_headings_patches_and_bank() {
    let mut source = rom();
    source.resize(0x31_0000, 0xFF);
    let build = build_credits_top(&source, manifest(&source), &decoded(), &glyphs()).unwrap();
    let (timed, timed_manifest) = empty_timed();
    let headers: Vec<[u8; 6]> = (0..10).map(|i| [0x80, 0x00, 0x30, 2 * i as u8, 0x00, 0x00]).collect();
    let others = vec![ExpectedWrite { offset: 0x2F_C000, expected: vec![0xFF, 0xFF], replacement: vec![1, 2] }];
    let mut output = source.clone();
    let report = apply_credits_top(&source, &mut output, &build, &headers, &[5; 20], &timed, &timed_manifest, &others, &lines()).unwrap();
    assert_eq!(&output[HEADERS[3]..HEADERS[3] + 6], &headers[3]);
    assert_eq!(&output[0x30_0000..0x30_0014], &[5; 20]);
    assert_eq!(&output[0x2F_C000..0x2F_C002], &[1, 2]);
    assert_eq!(u16::from_be_bytes([output[0x18E], output[0x18F]]), report.checksum);
    // A bank over written bytes is refused and the output kept.
    let mut again = source.clone();
    again[0x30_0004] = 0;
    let before = again.clone();
    assert!(apply_credits_top(&source, &mut again, &build, &headers, &[5; 20], &timed, &timed_manifest, &others, &lines()).is_err());
    assert_eq!(again, before);
    assert!(apply_credits_top(&source, &mut again, &build, &headers[..9].to_vec(), &[5; 20], &timed, &timed_manifest, &others, &lines()).is_err());
}

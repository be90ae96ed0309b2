use md_gfx::digest::sha256_hex;
use md_gfx::font_effect::CompactGlyph;
use md_gfx::karaoke::{
    ByteRangeDeclaration, ConsumerDeclaration, KaraokeManifest, LineDeclaration, LyricRangeDeclaration,
    MapOwnership, MutableTileRangeDeclaration, PackDeclaration, PatternOwnership, PointerEntry,
    SourceGroupDeclaration, SurfaceDeclaration, TileRangeDeclaration, TimingRecord, LINE_SENDER, build_karaoke,
    canonicalize_tile_pattern, flip_tile_pattern, render_glyph, unique_lyric_chars, validate_consumer,
    validate_manifest_shape, write_karaoke_preview,
};
use md_gfx::pack::DecodedPack;

fn s(text: &str) -> String {
    text.to_string()
}

fn hex(value: usize) -> String {
    format!("0x{value:X}")
}

fn patterns() -> Vec<u8> {
    let mut data = vec![0x33u8; 47_072];
    for byte in &mut data[32..64] {
        *byte = 0x11;
    }
    for byte in &mut data[0x04FF * 32..0x05AD * 32] {
        *byte = 0x01;
    }
    data
}

fn map() -> Vec<u8> {
    let mut data = vec![0x44u8; 3_648];
    for w in 0..684 {
        let word: u16 = if w % 7 == 0 { 0x0500 } else { 0x0001 };
        data[0x08C0 + 2 * w] = (word >> 8) as u8;
        data[0x08C0 + 2 * w + 1] = word as u8;
    }
    data
}

fn entries() -> Vec<PointerEntry> {
    (0..9)
        .map(|k| PointerEntry {
            source_offset: hex(k * 152),
            destination_offset: hex(if k % 2 == 0 { 0 } else { 0x300 }),
        })
        .collect()
}

fn timings() -> Vec<TimingRecord> {
    (0..10)
        .map(|k| TimingRecord {
            timestamp: hex(0x10 + 0x20 * k),
            y: 0x60 - k as i16,
            limit: -2 - k as i16,
            step: hex(0x0001_0000 + k),
        })
        .collect()
}

fn pointer_bytes() -> Vec<u8> {
    let mut out = Vec::new();
    for k in 0..9usize {
        out.extend_from_slice(&((k * 152) as u16).to_be_bytes());
        out.extend_from_slice(&(if k % 2 == 0 { 0u16 } else { 0x300 }).to_be_bytes());
    }
    out
}

fn timing_bytes() -> Vec<u8> {
    let mut out = Vec::new();
    for k in 0..10usize {
        out.extend_from_slice(&((0x10 + 0x20 * k) as u16).to_be_bytes());
        out.extend_from_slice(&(0x60 - k as i16).to_be_bytes());
        out.extend_from_slice(&(-2 - k as i16).to_be_bytes());
        out.extend_from_slice(&((0x0001_0000 + k) as u32).to_be_bytes());
    }
    out
}

fn group_header() -> Vec<u8> {
    vec![0x80, 0x12, 0x34, 0x56, 0x00, 0x00, 0x00, 0x78, 0x9A, 0xBC, 0xA0, 0x00, 0xFF, 0xFF]
}

fn rom() -> Vec<u8> {
    let mut rom = vec![0u8; 0x09_0000];
    rom[0x08_A12C..0x08_A13A].copy_from_slice(&group_header());
    rom[0x08_FC7A..0x08_FC9E].copy_from_slice(&pointer_bytes());
    rom[0x08_FC9E..0x08_FCC8].copy_from_slice(&LINE_SENDER);
    rom[0x08_FCC8..0x08_FD2C].copy_from_slice(&timing_bytes());
    rom
}

fn pack(command: &str, vram: &str, ram: &str, bytes: usize, data: &[u8], bank: usize, limit: usize) -> PackDeclaration {
    PackDeclaration {
        command: s(command),
        vram_destination: s(vram),
        ram_destination: s(ram),
        decoded_bytes: bytes,
        decoded_sha256: sha256_hex(data),
        target_bank_offset: hex(bank),
        target_bank_limit: hex(limit),
    }
}

fn lines(ko: &[&str], jp: &str) -> Vec<LineDeclaration> {
    (0..9)
        .map(|k| LineDeclaration { id: format!("GFX-KARAOKE-LINE-{k:02}"), jp: s(jp), ko: s(ko[k % ko.len()]) })
        .collect()
}

fn manifest(lyrics: Vec<LineDeclaration>) -> KaraokeManifest {
    let p = patterns();
    let m = map();
    KaraokeManifest {
        schema_version: 1,
        asset_group_id: s("GFX-KARAOKE"),
        source_policy: s("JP owns the English VWF font, eleven-line maps and timing"),
        font_asset: s("../fonts/Galmuri11.ttf"),
        font_sha256: sha256_hex(b"font"),
        font_size_px: 12,
        coverage_threshold: 96,
        surface: SurfaceDeclaration {
            width_tiles: 38,
            height_tiles: 2,
            storage: s("row_major"),
            blank_tile_word: s("0x0001"),
            runtime_palette_or: s("0x4000"),
        },
        source_group: SourceGroupDeclaration {
            header_offset: s("0x08A12C"),
            header_bytes: 14,
            header_sha256: sha256_hex(&group_header()),
            terminator: s("0xFFFF"),
            pattern_pack: pack("0x80", "0x0000", "", 47_072, &p, 0x2E_0000, 0x2F_0000),
            map_pack: pack("0x00", "", "0xA000", 3_648, &m, 0x2F_0000, 0x2F_8000),
        },
        pattern_ownership: PatternOwnership {
            protected_prefix_tiles: TileRangeDeclaration {
                start: 0,
                end_exclusive: 0x04FF,
                source_sha256: sha256_hex(&p[..0x04FF * 32]),
            },
            mutable_lyric_tiles: MutableTileRangeDeclaration {
                start: 0x04FF,
                end_exclusive: 0x05AD,
                source_sha256: sha256_hex(&p[0x04FF * 32..0x05AD * 32]),
                source_palette_indices: vec![0, 1],
            },
            protected_suffix_tiles: TileRangeDeclaration {
                start: 0x05AD,
                end_exclusive: 1_471,
                source_sha256: sha256_hex(&p[0x05AD * 32..]),
            },
        },
        map_ownership: MapOwnership {
            protected_prefix: ByteRangeDeclaration {
                start: s("0x0"),
                end_exclusive: s("0x8C0"),
                source_sha256: sha256_hex(&m[..0x8C0]),
            },
            lyric_surfaces: LyricRangeDeclaration {
                start: s("0x8C0"),
                end_exclusive: s("0xE18"),
                bytes_per_line: 152,
                line_count: 9,
                source_sha256: sha256_hex(&m[0x8C0..0xE18]),
            },
            protected_suffix: ByteRangeDeclaration {
                start: s("0xE18"),
                end_exclusive: s("0xE40"),
                source_sha256: sha256_hex(&m[0xE18..]),
            },
        },
        consumer: ConsumerDeclaration {
            line_ram_base: s("0x00FFA8C0"),
            pointer_table_offset: s("0x08FC7A"),
            pointer_table_bytes: 36,
            pointer_table_sha256: sha256_hex(&pointer_bytes()),
            line_sender_offset: s("0x08FC9E"),
            line_sender_bytes: 42,
            line_sender_sha256: sha256_hex(&LINE_SENDER),
            line_sender_target: s("0x0008FFB0"),
            entries: entries(),
            timing_table_offset: s("0x08FCC8"),
            timing_table_bytes: 100,
            timing_table_sha256: sha256_hex(&timing_bytes()),
            timing_records: timings(),
        },
        lines: lyrics,
    }
}

fn glyph(character: char, width: usize, height: usize) -> CompactGlyph {
    CompactGlyph { character, width, height, coverage: vec![200u8; width * height] }
}

fn decoded() -> (DecodedPack, DecodedPack) {
    (
        DecodedPack { header_offset: 0x08_A12C, vram_destination: 0, data: patterns() },
        DecodedPack { header_offset: 0x08_A132, vram_destination: 0xA000, data: map() },
    )
}

#[test]
fn karaoke_manifest_shape_accepts_and_refuses() {
    assert!(validate_manifest_shape(&manifest(lines(&["가"], "あいう"))).is_ok());
    assert!(validate_manifest_shape(&manifest(lines(&["가나다라"], "あいう"))).is_err());
    assert!(validate_manifest_shape(&manifest(lines(&[" "], "あいう"))).is_err());
    assert!(validate_manifest_shape(&manifest(lines(&["가\u{7}"], "あいう"))).is_err());
    let mut wrong_id = manifest(lines(&["가"], "あいう"));
    wrong_id.lines[3].id = s("GFX-KARAOKE-LINE-3");
    assert!(validate_manifest_shape(&wrong_id).is_err());
    let mut unordered = manifest(lines(&["가"], "あいう"));
    unordered.consumer.timing_records[4].timestamp = s("0x0010");
    assert!(validate_manifest_shape(&unordered).is_err());
    let mut moved = manifest(lines(&["가"], "あいう"));
    moved.consumer.entries[1].destination_offset = s("0x0000");
    assert!(validate_manifest_shape(&moved).is_err());
}

#[test]
fn karaoke_flips_undo_themselves() {
    let tile: Vec<u8> = (0..32u8).map(|b| b.wrapping_mul(37)).collect();
    for (h, v) in [(false, false), (true, false), (false, true), (true, true)] {
        let flipped = flip_tile_pattern(&tile, h, v);
        assert_eq!(flip_tile_pattern(&flipped, h, v), tile);
    }
    let h = flip_tile_pattern(&tile, true, false);
    assert_eq!(h[0] >> 4, tile[3] & 0x0F);
    let v = flip_tile_pattern(&tile, false, true);
    assert_eq!(&v[0..4], &tile[28..32]);
}

#[test]
fn karaoke_canonical_form_is_the_least_flip() {
    let mut corner = vec![0x11u8; 32];
    corner[31] = 0x10;
    let (canonical, flags) = canonicalize_tile_pattern(&corner);
    assert_eq!(flags, 0x1800);
    assert_eq!(canonical[0], 0x01);
    let (same, none) = canonicalize_tile_pattern(&canonical);
    assert_eq!(none, 0x0000);
    assert_eq!(same, canonical);
    let symmetric = vec![0x11u8; 32];
    assert_eq!(canonicalize_tile_pattern(&symmetric).1, 0x0000);
}

#[test]
fn karaoke_glyph_cells_centre_the_ink() {
    let cell = render_glyph(&glyph('가', 4, 4), 96).unwrap();
    assert_eq!(cell[6 * 16 + 6], 0);
    assert_eq!(cell[9 * 16 + 9], 0);
    assert_eq!(cell[5 * 16 + 6], 1);
    assert!(render_glyph(&glyph('가', 17, 4), 96).is_err());
    let faint = CompactGlyph { character: '가', width: 2, height: 2, coverage: vec![96; 4] };
    assert!(render_glyph(&faint, 96).is_err());
}

#[test]
fn karaoke_unique_chars_are_sorted_and_distinct() {
    let lyrics = lines(&["나 가", "가가"], "あいう");
    assert_eq!(unique_lyric_chars(&lyrics), vec!['가', '나']);
}

#[test]
fn karaoke_consumer_must_match_the_rom() {
    let m = manifest(lines(&["가"], "あいう"));
    assert!(validate_consumer(&rom(), &m.consumer).is_ok());
    let mut drifted = rom();
    drifted[0x08_FC9E] = 0x4E;
    assert!(validate_consumer(&drifted, &m.consumer).is_err());
    assert!(validate_consumer(&rom()[..0x08_FD00], &m.consumer).is_err());
}

#[test]
fn karaoke_build_stores_one_quadrant_per_flip_class() {
    let m = manifest(lines(&["가", "나 가"], "あいう"));
    let (p, map) = decoded();
    let glyphs = vec![glyph('나', 2, 6), glyph('가', 4, 4)];
    let build = build_karaoke(&rom(), m, &p, &map, &glyphs).unwrap();
    assert_eq!(build.chars, vec!['가', '나']);
    assert_eq!(build.allocated_tiles, 2);
    assert_eq!(&build.glyph_words[0..4], &[0x1CFF, 0x0CFF, 0x14FF, 0x04FF]);
    let start = 0x08C0 + 2 * 16;
    assert_eq!(&build.target_map[start..start + 4], &[0x1C, 0xFF, 0x14, 0xFF]);
    let lower = 0x08C0 + 2 * (38 + 16);
    assert_eq!(&build.target_map[lower..lower + 4], &[0x0C, 0xFF, 0x04, 0xFF]);
    assert_eq!(&build.target_map[..0x08C0], &map.data[..0x08C0]);
    assert_eq!(&build.target_patterns[..0x04FF * 32], &p.data[..0x04FF * 32]);
    assert_eq!(build.target_patterns[0x0501 * 32], 0x11);
    assert_eq!(build.target_surfaces[0][6 * 304 + 16 * 8 + 6], 0);
    assert_eq!(build.target_surfaces[0][9 * 304 + 16 * 8 + 9], 0);
    assert_eq!(build.target_surfaces[0][5 * 304 + 16 * 8 + 6], 1);
    assert_eq!(build.target_surfaces[0][0], 1);
    assert_eq!(build.target_surfaces[1][5 * 304 + 16 * 8 + 7], 0);
    assert_eq!(build.source_surfaces[0][0], 0);

    let (image, summary) = write_karaoke_preview(&build, 900, 300).unwrap();
    assert_eq!((image.width, image.height), (1248, 416));
    let ink = ((2 * 6) * 1248 + 2 * (320 + 16 * 8 + 6)) * 4;
    assert_eq!(&image.rgba[ink..ink + 4], &[32, 24, 18, 255]);
    let gap = ((2 * 17) * 1248) * 4;
    assert_eq!(&image.rgba[gap..gap + 4], &[22, 20, 28, 255]);
    assert_eq!(summary.lines, 9);
    assert_eq!(summary.unique_glyphs, 2);
    assert_eq!(summary.source_pattern_bytes, 47_072);
    assert_eq!(summary.rewritten_pattern_tiles, 2);
    assert_eq!(summary.rewritten_map_bytes, 1_368);
    assert_eq!(summary.pattern_pack_bytes, 900);
    assert_eq!(summary.map_pack_bytes, 300);
}

#[test]
fn karaoke_build_refuses_missing_glyphs_and_full_atlas() {
    let (p, map) = decoded();
    let m = manifest(lines(&["가", "나 가"], "あいう"));
    assert!(build_karaoke(&rom(), m, &p, &map, &vec![glyph('가', 4, 4)]).is_err());

    let jp = "あいうえおかきくけこさしすせそたちつて";
    let mut texts: Vec<String> = Vec::new();
    let mut glyphs = Vec::new();
    let mut seed: u32 = 7;
    for line in 0..9u32 {
        let mut text = String::new();
        for cell in 0..19u32 {
            let c = char::from_u32(0xAC00 + line * 19 + cell).unwrap();
            text.push(c);
            let mut coverage = vec![0u8; 256];
            for value in coverage.iter_mut() {
                seed = seed.wrapping_mul(1_103_515_245).wrapping_add(12_345);
                *value = if (seed >> 16) % 3 == 0 { 255 } else { 0 };
            }
            glyphs.push(CompactGlyph { character: c, width: 16, height: 16, coverage });
        }
        texts.push(text);
    }
    let refs: Vec<&str> = texts.iter().map(|t| t.as_str()).collect();
    let crowded = manifest(lines(&refs, jp));
    assert!(build_karaoke(&rom(), crowded, &p, &map, &glyphs).is_err());
}

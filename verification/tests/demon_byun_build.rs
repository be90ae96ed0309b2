use md_gfx::demon_byun::{
    DemonByunManifest, MutableTileRange, OutputSurface, SpriteConsumer, SpriteRecord,
    build_demon_byun, decode_sparse_surface, draw_exclamation, encode_sparse_surface, summary,
    validate_layout, validate_manifest_shape, write_demon_byun_preview, apply_demon_byun,
};
use md_gfx::digest::sha256_hex;
use md_gfx::pack::{DecodedPack, SourcePack};

fn s(text: &str) -> String {
    text.to_string()
}

fn layout() -> Vec<Vec<Option<usize>>> {
    vec![
        vec![Some(0), Some(3), Some(6), Some(9), None],
        vec![Some(1), Some(4), Some(7), Some(10), Some(12)],
        vec![Some(2), Some(5), Some(8), Some(11), Some(13)],
    ]
}

fn record(size_link: &str, tile: &str) -> SpriteRecord {
    SpriteRecord { y: s("0x0010"), size_link: s(size_link), tile: s(tile), x: s("0x0080") }
}

fn payload() -> Vec<u8> {
    let mut data = vec![0x11u8; 3_552];
    for (i, byte) in data[1472..1984].iter_mut().enumerate() {
        *byte = match i % 3 {
            0 => 0x00,
            1 => 0xD0,
            _ => 0x0D,
        };
    }
    data
}

fn manifest(data: &[u8]) -> DemonByunManifest {
    DemonByunManifest {
        schema_version: 1,
        asset_group_id: s("GFX-EVENT-DEMON-BYUN"),
        source_policy: s("JP source owns the effect"),
        font_asset: s("neodgm.ttf"),
        font_sha256: s("0000000000000000000000000000000000000000000000000000000000000000"),
        jp_text: s("びゅんっ"),
        ko: s("휙!"),
        output_surface: OutputSurface { width: 40, height: 24 },
        palette_line_words: (0..16).map(|i| if i == 13 { s("0x0EEE") } else { s("0x0000") }).collect(),
        transparent_palette_index: 0,
        source_palette_indices: vec![13, 0],
        target_palette_index: 13,
        mutable_tile_range: MutableTileRange {
            start: 46,
            mapped_end_exclusive: 60,
            consumer_end_exclusive: 62,
            source_sha256: sha256_hex(&data[1472..1984]),
        },
        tile_layout: layout(),
        source_pack: SourcePack {
            id: s("demon-escape-byun"),
            header_offset: s("0x075FEE"),
            vram_destination: s("0x5600"),
            decoded_bytes: 3_552,
            decoded_sha256: sha256_hex(data),
        },
        sprite_consumer: SpriteConsumer {
            table_base: s("0x06A984"),
            table_entries: vec![s("0x06A98E"), s("0x06A990")],
            definition_offsets: vec![s("0x06AA1C"), s("0x06AA26")],
            records: vec![record("0x0E00", "0x02DE"), record("0x0500", "0x02EA")],
        },
    }
}

fn put_word(rom: &mut [u8], offset: usize, word: u16) {
    rom[offset] = (word >> 8) as u8;
    rom[offset + 1] = word as u8;
}

fn source_rom() -> Vec<u8> {
    let mut rom = vec![0u8; 0x07_0000];
    put_word(&mut rom, 0x06_A98E, 0x0098);
    put_word(&mut rom, 0x06_A990, 0x00A2);
    for (definition, size, tile) in [(0x06_AA1C, 0x0E00u16, 0x02DEu16), (0x06_AA26, 0x0500, 0x02EA)] {
        put_word(&mut rom, definition, 1);
        put_word(&mut rom, definition + 2, 0x0010);
        put_word(&mut rom, definition + 4, size);
        put_word(&mut rom, definition + 6, tile);
        put_word(&mut rom, definition + 8, 0x0080);
    }
    rom
}

fn glyph_core() -> Vec<bool> {
    (0..256).map(|i| (4..12).contains(&(i % 16)) && (4..12).contains(&(i / 16))).collect()
}

#[test]
fn manifest_shape_and_layout_are_checked() {
    let data = payload();
    let good = manifest(&data);
    assert!(validate_manifest_shape(&good).is_ok());
    assert!(validate_layout(&good).is_ok());
    let mut bad = manifest(&data);
    bad.tile_layout[0][4] = Some(12);
    assert!(validate_layout(&bad).is_err());
    assert!(validate_manifest_shape(&bad).is_err());
    let mut bad = manifest(&data);
    bad.ko = s("휙");
    assert!(validate_manifest_shape(&bad).is_err());
}

#[test]
fn sparse_surface_round_trips_through_the_jp_layout() {
    let data = payload();
    let m = manifest(&data);
    let mut pixels = vec![0u8; 960];
    for (i, p) in pixels.iter_mut().enumerate() {
        let (x, y) = (i % 40, i / 40);
        if !(x >= 32 && y < 8) {
            *p = ((x + 3 * y) % 16) as u8;
        }
    }
    let tiles = encode_sparse_surface(&pixels, &m).unwrap();
    assert_eq!(tiles.len(), 14 * 32);
    assert_eq!(decode_sparse_surface(&tiles, &m).unwrap(), pixels);
    // Tile 1 is the cell below tile 0: its first byte is row 8, columns 0 and 1.
    assert_eq!(tiles[32], (pixels[8 * 40] << 4) | pixels[8 * 40 + 1]);
    pixels[35] = 13;
    assert!(encode_sparse_surface(&pixels, &m).is_err());
    assert!(decode_sparse_surface(&tiles[..447], &m).is_err());
}

#[test]
fn exclamation_mark_is_a_bar_and_a_dot() {
    let mut surface = vec![0u8; 960];
    draw_exclamation(&mut surface, 13).unwrap();
    assert_eq!(surface[4 * 40 + 24], 13);
    assert_eq!(surface[14 * 40 + 27], 13);
    assert_eq!(surface[15 * 40 + 24], 0);
    assert_eq!(surface[17 * 40 + 25], 13);
    assert_eq!(surface[21 * 40 + 25], 0);
    assert_eq!(surface.iter().filter(|&&p| p == 13).count(), 4 * 11 + 4 * 4);
    let mut short = vec![0u8; 959];
    assert!(draw_exclamation(&mut short, 13).is_err());
}

#[test]
fn demon_byun_build_replaces_only_consumer_tiles() {
    let data = payload();
    let rom = source_rom();
    let decoded = DecodedPack { header_offset: 0x07_5FEE, vram_destination: 0x5600, data: data.clone() };
    let core = glyph_core();
    let build = build_demon_byun(&rom, manifest(&data), &decoded, &core).unwrap();
    assert_eq!(build.payload.len(), 3_552);
    assert_eq!(&build.payload[..1472], &data[..1472]);
    assert_eq!(&build.payload[1984..], &data[1984..]);
    assert!(build.payload[1920..1984].iter().all(|&b| b == 0));
    // The glyph core lands at (2, 4): surface pixel (6, 8) is core pixel (4, 4).
    assert_eq!(build.target_surface[8 * 40 + 6], 13);
    assert_eq!(build.target_surface[0], 0);
    assert_eq!(build.target_surface[4 * 40 + 24], 13);
    let m = manifest(&data);
    let back = decode_sparse_surface(&build.payload[1472..1920], &m).unwrap();
    assert_eq!(back, build.target_surface);
    let s = summary(&build, 123, 0xBEEF);
    assert_eq!(s.source_tiles, 111);
    assert_eq!(s.protected_source_bytes, 3_040);
    assert_eq!(s.consumer_sprites, 2);
    assert_eq!(s.pack_bytes, 123);
    assert_eq!(s.checksum, 0xBEEF);
    let (image, preview_summary) = write_demon_byun_preview(&build, 123);
    assert_eq!((image.width, image.height), (880, 240));
    assert_eq!(image.rgba.len(), 880 * 240 * 4);
    // The gap between the panels is dark grey.
    let gap = (5 * 880 + 44 * 10) * 4;
    assert_eq!(&image.rgba[gap..gap + 4], &[28, 28, 28, 255]);
    // Korean panel ink pixel (24, 4) uses palette entry 13 (white).
    let ink = ((4 * 10) * 880 + (48 + 24) * 10) * 4;
    assert_eq!(&image.rgba[ink..ink + 4], &[255, 255, 255, 255]);
    assert_eq!(preview_summary.checksum, 0);
}

#[test]
fn demon_byun_build_refuses_drifted_sources() {
    let data = payload();
    let rom = source_rom();
    let core = glyph_core();
    let wrong_vram = DecodedPack { header_offset: 0x07_5FEE, vram_destination: 0x5000, data: data.clone() };
    assert!(build_demon_byun(&rom, manifest(&data), &wrong_vram, &core).is_err());
    let decoded = DecodedPack { header_offset: 0x07_5FEE, vram_destination: 0x5600, data: data.clone() };
    let mut moved = rom.clone();
    put_word(&mut moved, 0x06_A990, 0x00A4);
    assert!(build_demon_byun(&moved, manifest(&data), &decoded, &core).is_err());
    let mut tampered = data.clone();
    tampered[1500] = 0x77;
    let tampered_pack = DecodedPack { header_offset: 0x07_5FEE, vram_destination: 0x5600, data: tampered.clone() };
    let mut m = manifest(&tampered);
    m.mutable_tile_range.source_sha256 = manifest(&data).mutable_tile_range.source_sha256;
    assert!(build_demon_byun(&rom, m, &tampered_pack, &core).is_err());
}

#[test]
fn demon_byun_apply_writes_header_bank_and_checksum() {
    let data = payload();
    let mut rom = source_rom();
    rom.resize(0x2D_0000, 0xFF);
    let decoded = DecodedPack { header_offset: 0x07_5FEE, vram_destination: 0x5600, data: data.clone() };
    let build = build_demon_byun(&rom, manifest(&data), &decoded, &glyph_core()).unwrap();
    let mut output = rom.clone();
    let s = apply_demon_byun(&rom, &mut output, &build, &[1, 2, 3, 4, 5, 6], &[9; 10]).unwrap();
    assert_eq!(&output[0x07_5FEE..0x07_5FF4], &[1, 2, 3, 4, 5, 6]);
    assert_eq!(&output[0x2C_8000..0x2C_800A], &[9; 10]);
    assert_eq!(output[0x2C_800A], 0xFF);
    assert_eq!(u16::from_be_bytes([output[0x18E], output[0x18F]]), s.checksum);
    // A header that is not six bytes, or a bank over unerased bytes, is refused.
    let mut again = rom.clone();
    assert!(apply_demon_byun(&rom, &mut again, &build, &[1, 2, 3, 4, 5], &[9; 10]).is_err());
    assert_eq!(again, rom);
    again[0x2C_8003] = 0;
    let before = again.clone();
    assert!(apply_demon_byun(&rom, &mut again, &build, &[1, 2, 3, 4, 5, 6], &[9; 10]).is_err());
    assert_eq!(again, before);
}

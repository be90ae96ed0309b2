use md_gfx::digest::sha256_hex;
use md_gfx::intro_doki::{
    IntroDokiManifest, MutableTileRange, OutputSurface, PaletteRoleRemap, PixelRoleOverride, SpriteTemplate,
    build_intro_doki, remap_to_source_palette_roles, validate_manifest_shape, validate_source_effect_tiles,
    validate_sprite_template, write_intro_doki_preview, apply_intro_doki,
};
use md_gfx::pack::{DecodedPack, SourcePack};
use md_gfx::preview::PixelBounds;

fn s(text: &str) -> String {
    text.to_string()
}

const OVERRIDES: [(usize, usize, usize, usize); 10] = [
    (5, 8, 1, 5),
    (3, 9, 1, 5),
    (7, 9, 5, 1),
    (17, 9, 1, 5),
    (19, 9, 5, 0),
    (1, 10, 1, 5),
    (4, 10, 5, 1),
    (19, 10, 5, 0),
    (2, 11, 5, 1),
    (3, 11, 5, 1),
];

fn payloads() -> Vec<Vec<u8>> {
    let map = vec![0x33u8; 2_176];
    let mut high = vec![0x77u8; 7_424];
    for (i, byte) in high[7_232..].iter_mut().enumerate() {
        *byte = if i % 2 == 0 { 0x15 } else { 0x00 };
    }
    let low = vec![0x44u8; 3_136];
    vec![map, high, low]
}

fn pack(id: &str, header: &str, vram: &str, data: &[u8]) -> SourcePack {
    SourcePack {
        id: s(id),
        header_offset: s(header),
        vram_destination: s(vram),
        decoded_bytes: data.len(),
        decoded_sha256: sha256_hex(data),
    }
}

fn manifest(data: &[Vec<u8>]) -> IntroDokiManifest {
    let mut words: Vec<String> = (0..16).map(|_| s("0x0000")).collect();
    words[1] = s("0x000E");
    words[5] = s("0x0E00");
    IntroDokiManifest {
        schema_version: 1,
        asset_group_id: s("GFX-INTRO-DOKI"),
        master_asset: s("intro_doki.png"),
        master_sha256: s("0000"),
        master_width: 96,
        master_height: 64,
        master_alpha_bounds: PixelBounds { x: 0, y: 0, width: 96, height: 64 },
        output_surface: OutputSurface {
            width: 24,
            height: 16,
            content_box: PixelBounds { x: 0, y: 2, width: 24, height: 12 },
            alpha_threshold: 128,
        },
        palette_line_words: words,
        transparent_palette_index: 0,
        source_palette_indices: vec![5, 1, 0],
        allowed_opaque_palette_indices: vec![1, 5, 7, 9, 11],
        final_palette_role_remap: [(1, 5), (5, 5), (7, 1), (9, 1), (11, 1)]
            .iter()
            .map(|&(from, to)| PaletteRoleRemap { from, to })
            .collect(),
        final_opaque_palette_indices: vec![1, 5],
        final_pixel_role_overrides: OVERRIDES
            .iter()
            .map(|&(x, y, from, to)| PixelRoleOverride { x, y, from, to })
            .collect(),
        mutable_tile_range: MutableTileRange { start: 226, end_exclusive: 232 },
        sprite_template: SpriteTemplate {
            count_offset: s("0x08E168"),
            count: s("0x0001"),
            entry_offset: s("0x08E16A"),
            source_y: s("0x0080"),
            source_size_link: s("0x0604"),
            target_size_link: s("0x0904"),
            source_attribute: s("0x42E2"),
            source_x: s("0x0080"),
        },
        source_packs: vec![
            pack("intro-doki-map", "0x08D3E2", "0xE000", &data[0]),
            pack("intro-doki-high-patterns", "0x08D3E8", "0x4000", &data[1]),
            pack("intro-doki-low-patterns", "0x08D3EE", "0x2000", &data[2]),
        ],
    }
}

fn decoded(data: &[Vec<u8>]) -> Vec<DecodedPack> {
    vec![
        DecodedPack { header_offset: 0x08_D3E2, vram_destination: 0xE000, data: data[0].clone() },
        DecodedPack { header_offset: 0x08_D3E8, vram_destination: 0x4000, data: data[1].clone() },
        DecodedPack { header_offset: 0x08_D3EE, vram_destination: 0x2000, data: data[2].clone() },
    ]
}

fn rom(size_word: u16) -> Vec<u8> {
    let mut rom = vec![0u8; 0x08_E180];
    for (i, word) in [1u16, 0x0080, size_word, 0x42E2, 0x0080].iter().enumerate() {
        rom[0x08_E168 + 2 * i] = (word >> 8) as u8;
        rom[0x08_E168 + 2 * i + 1] = *word as u8;
    }
    rom
}

/// A reduced sprite whose roles survive every reviewed override.
fn reduced() -> Vec<u8> {
    let mut pixels = vec![0u8; 384];
    for &(x, y, from, _) in OVERRIDES.iter() {
        pixels[y * 24 + x] = if from == 1 { 7 } else { 1 };
    }
    pixels
}

#[test]
fn doki_manifest_shape_accepts_and_refuses() {
    let data = payloads();
    assert!(validate_manifest_shape(&manifest(&data)).is_ok());

    let mut reordered = manifest(&data);
    reordered.source_packs.swap(0, 2);
    assert!(validate_manifest_shape(&reordered).is_err());

    let mut moved = manifest(&data);
    moved.final_pixel_role_overrides[3].x = 16;
    assert!(validate_manifest_shape(&moved).is_err());

    let mut remapped = manifest(&data);
    remapped.final_palette_role_remap[2].to = 5;
    assert!(validate_manifest_shape(&remapped).is_err());

    let mut flipped = manifest(&data);
    flipped.sprite_template.source_attribute = s("0x4AE2");
    assert!(validate_manifest_shape(&flipped).is_err());

    let mut transparent = manifest(&data);
    transparent.allowed_opaque_palette_indices.push(0);
    assert!(validate_manifest_shape(&transparent).is_err());
}

#[test]
fn doki_sprite_template_reads_both_sizes() {
    let m = manifest(&payloads());
    assert!(validate_sprite_template(&rom(0x0604), &m, false).is_ok());
    assert!(validate_sprite_template(&rom(0x0604), &m, true).is_err());
    assert!(validate_sprite_template(&rom(0x0904), &m, true).is_ok());
    assert!(validate_sprite_template(&rom(0x0604)[..0x08_E170], &m, false).is_err());
}

#[test]
fn doki_roles_remap_then_override() {
    let m = manifest(&payloads());
    let fit = remap_to_source_palette_roles(reduced(), &m).unwrap();
    assert_eq!(fit[8 * 24 + 5], 5);
    assert_eq!(fit[9 * 24 + 7], 1);
    assert_eq!(fit[9 * 24 + 19], 0);
    assert_eq!(fit[11 * 24 + 3], 1);
    assert_eq!(fit[0], 0);

    let mut wrong_from = reduced();
    wrong_from[8 * 24 + 5] = 1;
    assert!(remap_to_source_palette_roles(wrong_from, &m).is_err());
    let mut no_role = reduced();
    no_role[0] = 3;
    assert!(remap_to_source_palette_roles(no_role, &m).is_err());
    assert!(remap_to_source_palette_roles(vec![0u8; 383], &m).is_err());
}

#[test]
fn doki_source_effect_tiles_need_exact_roles() {
    let data = payloads();
    let m = manifest(&data);
    assert!(validate_source_effect_tiles(&data[1][7_232..], &m).is_ok());
    let mut drifted = data[1][7_232..].to_vec();
    drifted[7] = 0x22;
    assert!(validate_source_effect_tiles(&drifted, &m).is_err());
    assert!(validate_source_effect_tiles(&data[1][7_200..], &m).is_err());
}

#[test]
fn doki_build_rewrites_the_last_six_tiles() {
    let data = payloads();
    let build = build_intro_doki(&rom(0x0604), manifest(&data), &decoded(&data), reduced()).unwrap();
    assert_eq!(build.payload.len(), 7_424);
    assert_eq!(&build.payload[..7_232], &data[1][..7_232]);
    assert_ne!(&build.payload[7_232..], &data[1][7_232..]);
    // Column-major: tile 2 holds rows 0..8 of columns 8..16; (5, 8) sits in
    // tile 1, row 0, right nibble of byte 2.
    assert_eq!(build.payload[7_232 + 32 + 2], 0x05);
    assert_eq!(build.companion_decoded_bytes, 5_312);
    assert_eq!(build.target_size_link, [0x09, 0x04]);

    let (image, summary) = write_intro_doki_preview(&build, 321);
    assert_eq!((image.width, image.height), (416, 192));
    assert_eq!(&image.rgba[0..4], &[210, 210, 210, 255]);
    let jp = (4 * 8) * 4;
    assert_eq!(&image.rgba[jp..jp + 4], &[255, 0, 0, 255]);
    let kr = ((12 * 8) * 416 + 33 * 8) * 4;
    assert_eq!(&image.rgba[kr..kr + 4], &[0, 0, 255, 255]);
    assert_eq!(summary.source_pattern_tiles, 232);
    assert_eq!(summary.rewritten_tiles, 6);
    assert_eq!(summary.protected_pattern_bytes, 7_232);
    assert_eq!(summary.companion_decoded_bytes, 5_312);
    assert_eq!(summary.pack_bytes, 321);
    assert_eq!(summary.checksum, 0);
}

#[test]
fn doki_build_refuses_drifted_inputs() {
    let data = payloads();
    assert!(build_intro_doki(&rom(0x0904), manifest(&data), &decoded(&data), reduced()).is_err());
    let mut changed = decoded(&data);
    changed[2].data[0] = 0;
    assert!(build_intro_doki(&rom(0x0604), manifest(&data), &changed, reduced()).is_err());
    let mut letters = payloads();
    letters[1][7_300] = 0x22;
    assert!(build_intro_doki(&rom(0x0604), manifest(&letters), &decoded(&letters), reduced()).is_err());
}

#[test]
fn doki_apply_writes_header_size_link_and_bank() {
    let data = payloads();
    let mut source = rom(0x0604);
    source.resize(0x28_8000, 0xFF);
    let build = build_intro_doki(&source, manifest(&data), &decoded(&data), reduced()).unwrap();
    let mut output = source.clone();
    let s = apply_intro_doki(&source, &mut output, &build, &[7; 6], &[3; 12]).unwrap();
    assert_eq!(&output[0x08_D3E8..0x08_D3EE], &[7; 6]);
    assert_eq!(&output[0x08_E16C..0x08_E16E], &[0x09, 0x04]);
    assert_eq!(&output[0x28_0000..0x28_000C], &[3; 12]);
    assert_eq!(u16::from_be_bytes([output[0x18E], output[0x18F]]), s.checksum);
    let mut again = source.clone();
    assert!(apply_intro_doki(&source, &mut again, &build, &[7; 7], &[3; 12]).is_err());
    assert_eq!(again, source);
}

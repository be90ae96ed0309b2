use md_gfx::digest::sha256_hex;
use md_gfx::intro_pokan::{
    IntroPokanManifest, OutputSurface, PaletteRoles, TilemapPlan, build_intro_pokan, compile_indexed_surface,
    fit_bounds_within, render_indexed_surface, validate_manifest_shape, validate_protected_surface,
    write_intro_pokan_preview, apply_intro_pokan,
};
use md_gfx::pack::{DecodedPack, SourcePack};
use md_gfx::preview::PixelBounds;

fn s(text: &str) -> String {
    text.to_string()
}

fn bounds(x: usize, y: usize, width: usize, height: usize) -> PixelBounds {
    PixelBounds { x, y, width, height }
}

/// Map: cell 0 draws the decoration tile, cell 65 (inside the content box)
/// the letter tile, every other transmitted cell the background tile.
fn source_map() -> Vec<u8> {
    let mut map = Vec::new();
    for cell in 0..1055 {
        let tile: u16 = match cell {
            0 => 0x0101,
            65 => 0x0102,
            _ => 0x0100,
        };
        let word = 0x2000 | tile;
        map.push((word >> 8) as u8);
        map.push(word as u8);
    }
    map
}

/// 106 patterns: background (0), decoration (1), letters (2), then blanks.
fn source_patterns() -> Vec<u8> {
    let mut patterns = vec![0u8; 3_392];
    for byte in &mut patterns[32..64] {
        *byte = 0x11;
    }
    for byte in &mut patterns[64..96] {
        *byte = 0x22;
    }
    patterns
}

fn manifest(map: &[u8], patterns: &[u8]) -> IntroPokanManifest {
    let mut words: Vec<String> = (0..16).map(|_| s("0x0000")).collect();
    words[1] = s("0x000E");
    words[2] = s("0x00E0");
    words[3] = s("0x0EEE");
    IntroPokanManifest {
        schema_version: 1,
        asset_group_id: s("GFX-INTRO-POKAN"),
        master_asset: s("intro_pokan.png"),
        master_sha256: s("0000"),
        master_width: 4,
        master_height: 4,
        master_alpha_bounds: bounds(0, 0, 4, 4),
        output_surface: OutputSurface {
            width: 512,
            height: 136,
            tile_columns: 64,
            tile_rows: 17,
            transmitted_cells: 1055,
            content_box: bounds(8, 8, 16, 16),
        },
        tilemap: TilemapPlan { base_tile: s("0x0100"), palette_line: 1, next_pattern_vram: s("0x4000") },
        palette_line_words: words,
        source_palette_roles: PaletteRoles { background: 0, decoration: vec![1], jp_text: vec![2] },
        allowed_composite_palette_indices: vec![0, 1, 2, 3],
        source_packs: vec![
            SourcePack {
                id: s("intro-pokan-map"),
                header_offset: s("0x08D33A"),
                vram_destination: s("0xE000"),
                decoded_bytes: 2_110,
                decoded_sha256: sha256_hex(map),
            },
            SourcePack {
                id: s("intro-pokan-patterns"),
                header_offset: s("0x08D340"),
                vram_destination: s("0x2000"),
                decoded_bytes: 3_392,
                decoded_sha256: sha256_hex(patterns),
            },
        ],
    }
}

fn decoded(map: &[u8], patterns: &[u8]) -> Vec<DecodedPack> {
    vec![
        DecodedPack { header_offset: 0x08_D33A, vram_destination: 0xE000, data: map.to_vec() },
        DecodedPack { header_offset: 0x08_D340, vram_destination: 0x2000, data: patterns.to_vec() },
    ]
}

fn white_master() -> Vec<u8> {
    vec![255u8; 4 * 4 * 4]
}

#[test]
fn pokan_manifest_shape_accepts_and_refuses() {
    let map = source_map();
    let patterns = source_patterns();
    assert!(validate_manifest_shape(&manifest(&map, &patterns)).is_ok());

    let mut swapped = manifest(&map, &patterns);
    swapped.source_packs.swap(0, 1);
    assert!(validate_manifest_shape(&swapped).is_ok());

    let mut overlap = manifest(&map, &patterns);
    overlap.source_palette_roles.jp_text = vec![1];
    assert!(validate_manifest_shape(&overlap).is_err());

    let mut missing = manifest(&map, &patterns);
    missing.allowed_composite_palette_indices = vec![0, 1, 3];
    assert!(validate_manifest_shape(&missing).is_err());

    let mut line = manifest(&map, &patterns);
    line.tilemap.palette_line = 2;
    assert!(validate_manifest_shape(&line).is_err());

    let mut wide = manifest(&map, &patterns);
    wide.output_surface.content_box = bounds(500, 0, 16, 16);
    assert!(validate_manifest_shape(&wide).is_err());
}

#[test]
fn pokan_render_draws_named_patterns() {
    let surface = render_indexed_surface(&source_map(), &source_patterns()).unwrap();
    assert_eq!(surface.pixels.len(), 512 * 136);
    assert_eq!(surface.pixels[0], 1);
    assert_eq!(surface.pixels[7 * 512 + 7], 1);
    assert_eq!(surface.pixels[8], 0);
    assert_eq!(surface.pixels[8 * 512 + 8], 2);
    assert_eq!(surface.pixels[16], 0);
    assert!(surface.owned[16 * 8 * 512 + 30 * 8]);
    assert!(!surface.owned[16 * 8 * 512 + 31 * 8]);
    assert!(!surface.owned[135 * 512 + 511]);
}

#[test]
fn pokan_render_refuses_bad_words() {
    let patterns = source_patterns();
    let mut flipped = source_map();
    flipped[0] |= 0x08;
    assert!(render_indexed_surface(&flipped, &patterns).is_err());
    let mut outside = source_map();
    outside[2] = 0x21;
    outside[3] = 0x69;
    assert!(render_indexed_surface(&outside, &patterns).is_ok());
    outside[2] = 0x21;
    outside[3] = 0x6A;
    assert!(render_indexed_surface(&outside, &patterns).is_err());
    assert!(render_indexed_surface(&source_map()[..2108], &patterns).is_err());
}

#[test]
fn pokan_compile_then_render_gives_the_surface_back() {
    let map = source_map();
    let patterns = source_patterns();
    let surface = render_indexed_surface(&map, &patterns).unwrap();
    let m = manifest(&map, &patterns);
    let (new_map, new_patterns) = compile_indexed_surface(&surface.pixels, &surface.owned, &m).unwrap();
    assert_eq!(new_map.len(), 2_110);
    assert_eq!(new_patterns.len(), 3 * 32);
    assert_eq!(&new_map[0..6], &[0x21, 0x00, 0x21, 0x01, 0x21, 0x01]);
    assert_eq!(&new_map[130..132], &[0x21, 0x02]);
    let rebuilt = render_indexed_surface(&new_map, &new_patterns).unwrap();
    assert_eq!(rebuilt.pixels, surface.pixels);
    assert_eq!(rebuilt.owned, surface.owned);
}

#[test]
fn pokan_compile_refuses_unowned_and_too_many_patterns() {
    let map = source_map();
    let patterns = source_patterns();
    let m = manifest(&map, &patterns);
    let surface = render_indexed_surface(&map, &patterns).unwrap();
    let mut owned = surface.owned.clone();
    owned[3] = false;
    assert!(compile_indexed_surface(&surface.pixels, &owned, &m).is_err());

    let mut noisy = surface.pixels.clone();
    for cell in 0..300usize {
        let x = (cell % 64) * 8;
        let y = (cell / 64) * 8;
        noisy[y * 512 + x] = (cell % 16) as u8;
        noisy[y * 512 + x + 1] = ((cell / 16) % 16) as u8;
        noisy[(y + 1) * 512 + x] = ((cell / 256) % 16) as u8;
    }
    assert!(compile_indexed_surface(&noisy, &surface.owned, &m).is_err());
}

#[test]
fn pokan_fit_keeps_small_masters_and_scales_large_ones() {
    assert_eq!(fit_bounds_within(&bounds(0, 0, 4, 4), &bounds(8, 8, 16, 16)).unwrap(), (4, 4));
    assert_eq!(fit_bounds_within(&bounds(0, 0, 64, 16), &bounds(0, 0, 32, 32)).unwrap(), (32, 8));
    assert_eq!(fit_bounds_within(&bounds(0, 0, 10, 40), &bounds(0, 0, 32, 20)).unwrap(), (5, 20));
    assert!(fit_bounds_within(&bounds(0, 0, 0, 4), &bounds(0, 0, 32, 20)).is_err());
    assert!(fit_bounds_within(&bounds(0, 0, 1000, 1), &bounds(0, 0, 32, 20)).is_err());
}

#[test]
fn pokan_protected_surface_counts_outside_pixels() {
    let map = source_map();
    let patterns = source_patterns();
    let m = manifest(&map, &patterns);
    let source = vec![0u8; 512 * 136];
    let mut target = source.clone();
    target[10 * 512 + 10] = 3;
    assert_eq!(validate_protected_surface(&source, &target, &m).unwrap(), 512 * 136 - 256);
    target[0] = 3;
    assert!(validate_protected_surface(&source, &target, &m).is_err());
}

#[test]
fn pokan_build_composites_and_rebuilds() {
    let map = source_map();
    let patterns = source_patterns();
    let build = build_intro_pokan(manifest(&map, &patterns), &decoded(&map, &patterns), &white_master()).unwrap();
    let pixels = &build.target_surface.pixels;
    assert_eq!(pixels[0], 1);
    assert_eq!(pixels[8], 0);
    assert_eq!(pixels[8 * 512 + 8], 0);
    assert_eq!(pixels[14 * 512 + 14], 3);
    assert_eq!(pixels[17 * 512 + 17], 3);
    assert_eq!(pixels[13 * 512 + 14], 0);
    assert_eq!(pixels[18 * 512 + 18], 0);
    assert_eq!(build.source_pattern_tiles, 106);
    assert_eq!(build.protected_pixels, 512 * 136 - 256);
    assert_eq!(build.map_payload.len(), 2_110);
    assert_eq!(build.pattern_payload.len(), 6 * 32);

    let (image, summary) = write_intro_pokan_preview(&build, 700, 900);
    assert_eq!((image.width, image.height), (1024, 272));
    assert_eq!(&image.rgba[0..4], &[255, 0, 0, 255]);
    let white = ((28 * 1024) + 28) * 4;
    assert_eq!(&image.rgba[white..white + 4], &[255, 255, 255, 255]);
    let outside = ((271 * 1024) + 1023) * 4;
    assert_eq!(&image.rgba[outside..outside + 4], &[0, 0, 0, 255]);
    assert_eq!(summary.output_pattern_tiles, 6);
    assert_eq!(summary.map_bytes, 2_110);
    assert_eq!(summary.map_pack_bytes, 700);
    assert_eq!(summary.pattern_pack_bytes, 900);
    assert_eq!(summary.checksum, 0);
}

#[test]
fn pokan_build_refuses_drifted_inputs() {
    let map = source_map();
    let patterns = source_patterns();
    let mut wrong_hash = decoded(&map, &patterns);
    wrong_hash[1].data[100] ^= 1;
    assert!(build_intro_pokan(manifest(&map, &patterns), &wrong_hash, &white_master()).is_err());

    let mut no_letters = patterns.clone();
    for byte in &mut no_letters[64..96] {
        *byte = 0x11;
    }
    let m = manifest(&map, &no_letters);
    assert!(build_intro_pokan(m, &decoded(&map, &no_letters), &white_master()).is_err());

    let mut off_map = manifest(&map, &patterns);
    off_map.output_surface.content_box = bounds(490, 126, 22, 10);
    off_map.master_alpha_bounds = bounds(0, 0, 4, 4);
    assert!(build_intro_pokan(off_map, &decoded(&map, &patterns), &white_master()).is_err());
}

#[test]
fn pokan_apply_writes_headers_banks_and_checksum() {
    let map = source_map();
    let patterns = source_patterns();
    let build = build_intro_pokan(manifest(&map, &patterns), &decoded(&map, &patterns), &white_master()).unwrap();
    let mut source = vec![0u8; 0x28_0000];
    source[0x08_D33A..0x08_D346].copy_from_slice(&[1, 2, 3, 4, 5, 6, 7, 8, 9, 10, 11, 12]);
    for b in &mut source[0x27_0000..] {
        *b = 0xFF;
    }
    let mut output = source.clone();
    let summary = apply_intro_pokan(&source, &mut output, &build, &[0xA1; 6], &[0xB2; 6], &[0xC3; 16], &[0xD4; 8]).unwrap();
    assert_eq!(&output[0x08_D33A..0x08_D340], &[0xA1; 6]);
    assert_eq!(&output[0x08_D340..0x08_D346], &[0xB2; 6]);
    assert_eq!(&output[0x27_0000..0x27_0010], &[0xC3; 16]);
    assert_eq!(output[0x27_0010], 0xFF);
    assert_eq!(&output[0x27_8000..0x27_8008], &[0xD4; 8]);
    assert_eq!(summary.map_pack_bytes, 16);
    assert_eq!(summary.pattern_pack_bytes, 8);
    assert_eq!(u16::from_be_bytes([output[0x18E], output[0x18F]]), summary.checksum);
    assert_eq!(output[0x1000], 0);

    // A header whose JP bytes drifted is refused and nothing is written.
    let mut drifted = source.clone();
    drifted[0x08_D33A] = 0x77;
    let before = drifted.clone();
    assert!(apply_intro_pokan(&source, &mut drifted, &build, &[0xA1; 6], &[0xB2; 6], &[0xC3; 16], &[0xD4; 8]).is_err());
    assert_eq!(drifted, before);
    // A map bank past the pattern bank is refused.
    let mut again = source.clone();
    assert!(apply_intro_pokan(&source, &mut again, &build, &[0xA1; 6], &[0xB2; 6], &vec![0xC3; 0x8001], &[0xD4; 8]).is_err());
    assert_eq!(again, source);
}

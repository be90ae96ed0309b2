use std::collections::{HashMap, HashSet};

use md_gfx::digest::sha256_hex;
use md_gfx::exam_card::{
    ExamCardManifest, OutputSurface, RenderStyle, ScoreDigits, SharedExamSourceManifest, SpriteRecord,
    SuffixSuppression, TargetBanks, TextBlock, TilemapPlan, build_exam_card, compile_preserving_source_prefix,
    erase_source_text, render_indexed_surface, validate_manifest_shape, validate_protected_surface,
    validate_score_digits, validate_shared_sources, validate_suffix_source_and_build_patch,
    write_exam_card_preview,
};
use md_gfx::font_effect::NativeGlyph;
use md_gfx::pack::{DecodedPack, SourcePack};
use md_gfx::preview::PixelBounds;

const PARCHMENT: u8 = 7;

fn s(text: &str) -> String {
    text.to_string()
}

fn bounds(x: usize, y: usize, width: usize, height: usize) -> PixelBounds {
    PixelBounds { x, y, width, height }
}

#[allow(clippy::too_many_arguments)]
fn block(
    id: &str,
    jp: &str,
    ko: &str,
    source: PixelBounds,
    roles: Vec<usize>,
    pixels: usize,
    content: PixelBounds,
    style: RenderStyle,
    glyph_size: usize,
) -> TextBlock {
    TextBlock {
        id: s(id),
        jp_text: s(jp),
        ko: s(ko),
        source_bounds: source,
        source_palette_indices: roles.clone(),
        expected_source_pixels: pixels,
        content_box: content,
        style,
        glyph_size,
        space_width: 8,
        target_palette_indices: roles,
    }
}

fn manifest() -> ExamCardManifest {
    let mut words: Vec<String> = (0..16).map(|_| s("0x0000")).collect();
    words[3] = s("0x000E");
    words[4] = s("0x00E0");
    words[5] = s("0x0E00");
    words[6] = s("0x0EEE");
    words[7] = s("0x0ACE");
    words[8] = s("0x0024");
    words[9] = s("0x0666");
    ExamCardManifest {
        schema_version: 1,
        asset_group_id: s("GFX-EXAM-CARD"),
        source_policy: s("JP-source result card"),
        source_pack_manifest: s("graphics_text/exam_seals.json"),
        font_asset: s("neodgm.ttf"),
        font_sha256: "a".repeat(64),
        target_banks: TargetBanks { pattern_pack_offset: s("0x2A8000"), map_pack_offset: s("0x2B0000") },
        output_surface: OutputSurface {
            width: 512,
            height: 512,
            tile_columns: 64,
            tile_rows: 64,
            paper_crop: bounds(64, 0, 192, 224),
        },
        tilemap: TilemapPlan {
            base_tile: s("0x0100"),
            palette_line: 1,
            priority: true,
            next_pattern_vram: s("0x4000"),
        },
        palette_line_words: words,
        background_palette_indices: vec![7, 8],
        blocks: vec![
            block(
                "GFX-EXAM-CARD-HEADING",
                "卒園試験",
                "졸업시험",
                bounds(112, 24, 96, 24),
                vec![3, 4, 5, 6],
                1_406,
                bounds(112, 24, 96, 24),
                RenderStyle::HeadingGraded,
                22,
            ),
            block(
                "GFX-EXAM-CARD-RESULT",
                "結果",
                "결과",
                bounds(144, 56, 32, 16),
                vec![2],
                286,
                bounds(144, 56, 32, 16),
                RenderStyle::BodyCrisp,
                16,
            ),
            block(
                "GFX-EXAM-CARD-SCORE-STEM",
                "あなたのせいせき",
                "성적은",
                bounds(96, 72, 128, 16),
                vec![1],
                538,
                bounds(96, 72, 128, 24),
                RenderStyle::BodyCrisp,
                16,
            ),
            block(
                "GFX-EXAM-CARD-COPULA",
                "です",
                "점입니다",
                bounds(192, 96, 32, 16),
                vec![1],
                117,
                bounds(176, 96, 64, 16),
                RenderStyle::BodyCrisp,
                16,
            ),
        ],
        score_digits: ScoreDigits {
            sprite_table_offset: s("0x0976A8"),
            digits: 10,
            source_y: s("0x0080"),
            source_size_link: s("0x0500"),
            source_first_tile: s("0xA24A"),
            tiles_per_digit: 4,
            source_x: s("0x0080"),
            preview_text: s("100"),
            preview_x: 128,
            preview_y: 96,
            preview_advance: 16,
        },
        suffix_suppression: SuffixSuppression {
            routine_offset: s("0x095D5E"),
            sprite_definition_offset: s("0x09769E"),
            draw_call_target: s("0x00001856"),
            sprite_record: SpriteRecord { y: s("0x00E0"), size_link: s("0x0500"), tile: s("0xA272"), x: s("0x0130") },
        },
    }
}

/// The JP plane: parchment with one index-8 fleck at (111, 23), each
/// phrase's letter pixels as the first pixels of its source box, row by row,
/// and, below the paper, cells with spare patterns so that the plane uses
/// exactly 110 distinct patterns.
fn jp_plane() -> Vec<u8> {
    let mut plane = vec![PARCHMENT; 512 * 512];
    plane[23 * 512 + 111] = 8;
    let letters = [((112, 24, 96), 1_406, 3u8), ((144, 56, 32), 286, 2), ((96, 72, 128), 538, 1), ((192, 96, 32), 117, 1)];
    for ((x0, y0, width), count, role) in letters {
        for j in 0..count {
            plane[(y0 + j / width) * 512 + x0 + j % width] = role;
        }
    }
    let distinct: HashSet<Vec<u8>> = (0..4096).map(|cell| cell_pattern(&plane, cell)).collect();
    for k in 0..110 - distinct.len() {
        let cell = 2_560 + k;
        for j in 0..8 {
            if (k + 1) >> j & 1 == 1 {
                plane[(cell / 64) * 8 * 512 + (cell % 64) * 8 + j] = 9;
            }
        }
    }
    plane
}

fn cell_pattern(plane: &[u8], cell: usize) -> Vec<u8> {
    let (tx, ty) = (cell % 64, cell / 64);
    let mut pattern = Vec::new();
    for ly in 0..8 {
        for px in 0..4 {
            let at = (ty * 8 + ly) * 512 + tx * 8 + px * 2;
            pattern.push((plane[at] << 4) | plane[at + 1]);
        }
    }
    pattern
}

/// Compile the JP plane into its 110 low patterns and map.
fn jp_transfers(plane: &[u8]) -> (Vec<u8>, Vec<u8>) {
    let mut patterns: Vec<Vec<u8>> = Vec::new();
    let mut index: HashMap<Vec<u8>, usize> = HashMap::new();
    let mut map = Vec::new();
    for cell in 0..4096 {
        let pattern = cell_pattern(plane, cell);
        let next = patterns.len();
        let t = *index.entry(pattern.clone()).or_insert(next);
        if t == next {
            patterns.push(pattern);
        }
        map.extend_from_slice(&(0xA000u16 | (0x0100 + t as u16)).to_be_bytes());
    }
    assert_eq!(patterns.len(), 110);
    (map, patterns.concat())
}

fn high_patterns() -> Vec<u8> {
    let mut high = vec![0u8; 6_144];
    for (t, chunk) in high.chunks_mut(32).enumerate() {
        if t >= 74 {
            chunk[0] = 0x90 | (t as u8 & 0x0F);
        }
    }
    high
}

fn rom() -> Vec<u8> {
    let mut rom = vec![0u8; 0x09_76A8 + 100];
    let routine = [0x45, 0xF9, 0x00, 0x09, 0x76, 0x9E, 0x42, 0x41, 0x42, 0x42, 0x42, 0x43, 0x4E, 0xB9, 0x00, 0x00, 0x18, 0x56, 0x4E, 0x75];
    rom[0x09_5D5E..0x09_5D5E + 20].copy_from_slice(&routine);
    rom[0x09_769E..0x09_76A8].copy_from_slice(&[0x00, 0x01, 0x00, 0xE0, 0x05, 0x00, 0xA2, 0x72, 0x01, 0x30]);
    for d in 0..10usize {
        let at = 0x09_76A8 + d * 10;
        let tile = 0xA24A + d as u16 * 4;
        let record = [1u16, 0x0080, 0x0500, tile, 0x0080];
        for (k, word) in record.iter().enumerate() {
            rom[at + k * 2..at + k * 2 + 2].copy_from_slice(&word.to_be_bytes());
        }
    }
    rom
}

fn shared(low: &[u8], high: &[u8], map: &[u8], window: &[u8]) -> SharedExamSourceManifest {
    let pack = |id: &str, header: &str, vram: &str, data: &[u8]| SourcePack {
        id: s(id),
        header_offset: s(header),
        vram_destination: s(vram),
        decoded_bytes: data.len(),
        decoded_sha256: sha256_hex(data),
    };
    SharedExamSourceManifest {
        source_packs: vec![
            pack("exam-patterns-low", "0x0961A6", "0x2000", low),
            pack("exam-patterns-high", "0x0961AC", "0x4000", high),
            pack("exam-map", "0x0961B2", "0xE000", map),
            pack("exam-window", "0x0961B8", "0xD000", window),
        ],
    }
}

fn decoded(low: &[u8], high: &[u8], map: &[u8], window: &[u8]) -> Vec<DecodedPack> {
    vec![
        DecodedPack { header_offset: 0x09_61A6, vram_destination: 0x2000, data: low.to_vec() },
        DecodedPack { header_offset: 0x09_61AC, vram_destination: 0x4000, data: high.to_vec() },
        DecodedPack { header_offset: 0x09_61B2, vram_destination: 0xE000, data: map.to_vec() },
        DecodedPack { header_offset: 0x09_61B8, vram_destination: 0xD000, data: window.to_vec() },
    ]
}

/// Each Korean glyph is an 8x8 square in the middle of its 16x16 cell.
fn glyphs() -> Vec<NativeGlyph> {
    let mut core = vec![false; 256];
    for y in 4..12 {
        for x in 4..12 {
            core[y * 16 + x] = true;
        }
    }
    "졸업시험결과성적은점입니다".chars().map(|character| NativeGlyph { character, core: core.clone() }).collect()
}

#[test]
fn exam_card_manifest_shape_accepts_and_refuses() {
    assert!(validate_manifest_shape(&manifest()).is_ok());
    let mut drifted = manifest();
    drifted.blocks[3].ko = s("입니다");
    assert!(validate_manifest_shape(&drifted).is_err());
    let mut drifted = manifest();
    drifted.background_palette_indices = vec![8, 7, 7];
    assert!(validate_manifest_shape(&drifted).is_ok());
    drifted.background_palette_indices = vec![7];
    assert!(validate_manifest_shape(&drifted).is_err());
    let mut drifted = manifest();
    drifted.blocks[0].style = RenderStyle::BodyCrisp;
    assert!(validate_manifest_shape(&drifted).is_err());
    let mut drifted = manifest();
    drifted.suffix_suppression.sprite_record.tile = s("0xA273");
    assert!(validate_manifest_shape(&drifted).is_err());
}

#[test]
fn exam_card_shared_sources_must_be_the_four_exam_transfers() {
    let (low, high, map, window) = (vec![0u8; 3_520], vec![0u8; 6_144], vec![0u8; 8_192], vec![0u8; 4_096]);
    assert!(validate_shared_sources(&shared(&low, &high, &map, &window)).is_ok());
    let mut swapped = shared(&low, &high, &map, &window);
    swapped.source_packs.swap(0, 1);
    assert!(validate_shared_sources(&swapped).is_err());
}

#[test]
fn exam_card_render_applies_flips_and_attributes() {
    let mut patterns = vec![0u8; 3_520];
    // Tile 0: pixel (0, 0) is 5, everything else 0.
    patterns[0] = 0x50;
    let mut map = Vec::new();
    for cell in 0..4096usize {
        let tile = (cell % 110) as u16;
        let flips: u16 = if cell == 0 { 0x1800 } else { 0 };
        map.extend_from_slice(&(0xA000u16 | flips | (0x0100 + tile)).to_be_bytes());
    }
    let plane = render_indexed_surface(&map, &patterns).unwrap();
    assert_eq!(plane.len(), 512 * 512);
    // Cell 0 is drawn flipped both ways: the 5 lands at (7, 7).
    assert_eq!(plane[7 * 512 + 7], 5);
    assert_eq!(plane[0], 0);
    // Cell 110 draws tile 0 unflipped.
    assert_eq!(plane[(110 / 64) * 8 * 512 + (110 % 64) * 8], 5);

    let mut low_priority = map.clone();
    low_priority[2 * 5] &= 0x7F;
    assert!(render_indexed_surface(&low_priority, &patterns).is_err());
    let mut outside = map.clone();
    outside[2 * 5..2 * 5 + 2].copy_from_slice(&0xA000u16.to_be_bytes());
    assert!(render_indexed_surface(&outside, &patterns).is_err());
    // Tile 109 is only named by cells 109, 219, ...; name tile 0 there instead.
    let mut unused = map.clone();
    for cell in (109..4096).step_by(110) {
        unused[2 * cell..2 * cell + 2].copy_from_slice(&0xA100u16.to_be_bytes());
    }
    assert!(render_indexed_surface(&unused, &patterns).is_err());
    // With appended patterns the JP tiles need not all be used.
    let mut longer = patterns.clone();
    longer.extend_from_slice(&[0u8; 32]);
    assert!(render_indexed_surface(&unused, &longer).is_ok());
}

#[test]
fn exam_card_compile_appends_changed_cells_and_keeps_the_prefix() {
    let plane = jp_plane();
    let (map, low) = jp_transfers(&plane);
    let source = render_indexed_surface(&map, &low).unwrap();
    assert_eq!(source, plane);
    let mut target = source.clone();
    // Two cells get the same new pattern, a third another one.
    for cell in [0usize, 1] {
        target[(cell / 64) * 8 * 512 + (cell % 64) * 8] = 9;
    }
    target[8 * 512] = 10;
    let (new_map, patterns, appended, changed) = compile_preserving_source_prefix(&map, &low, &source, &target).unwrap();
    assert_eq!(appended, 2);
    assert_eq!(changed, 3);
    assert_eq!(&patterns[..3_520], &low[..]);
    assert_eq!(patterns.len(), 3_520 + 64);
    assert_eq!(&new_map[0..2], &(0xA000u16 | 0x016E).to_be_bytes());
    assert_eq!(&new_map[2..4], &(0xA000u16 | 0x016E).to_be_bytes());
    assert_eq!(&new_map[128..130], &(0xA000u16 | 0x016F).to_be_bytes());
    assert_eq!(&new_map[4..128], &map[4..128]);
    assert_eq!(&new_map[130..], &map[130..]);
    assert_eq!(render_indexed_surface(&new_map, &patterns).unwrap(), target);

    let mut bad = target.clone();
    bad[3] = 16;
    assert!(compile_preserving_source_prefix(&map, &low, &source, &bad).is_err());
}

#[test]
fn exam_card_compile_refuses_more_than_146_new_patterns() {
    let plane = jp_plane();
    let (map, low) = jp_transfers(&plane);
    let source = render_indexed_surface(&map, &low).unwrap();
    let mut target = source.clone();
    for cell in 0..147usize {
        let at = (cell / 64) * 8 * 512 + (cell % 64) * 8;
        target[at] = (cell % 16) as u8;
        target[at + 1] = (cell / 16) as u8;
        target[at + 2] = 9;
    }
    assert!(compile_preserving_source_prefix(&map, &low, &source, &target).is_err());
}

#[test]
fn exam_card_erase_takes_the_first_parchment_on_the_nearest_ring() {
    let plane = jp_plane();
    let m = manifest();
    let (erased, total) = erase_source_text(&plane, &m).unwrap();
    assert_eq!(total, 1_406 + 286 + 538 + 117);
    // (112, 24): ring 1 starts at (111, 23), the index-8 fleck.
    assert_eq!(erased[24 * 512 + 112], 8);
    assert_eq!(erased[24 * 512 + 113], 7);
    assert!((24..48).all(|y| (112..208).all(|x| erased[y * 512 + x] == 7 || erased[y * 512 + x] == 8)));
    let mut miscounted = plane.clone();
    miscounted[40 * 512 + 200] = 3;
    assert!(erase_source_text(&miscounted, &m).is_err());
}

#[test]
fn exam_card_protected_pixels_are_outside_the_writable_boxes() {
    let plane = jp_plane();
    let m = manifest();
    let protected = validate_protected_surface(&plane, &plane, &m).unwrap();
    assert_eq!(protected, 512 * 512 - (96 * 24 + 32 * 16 + 128 * 24 + 64 * 16));
    let mut moved = plane.clone();
    moved[0] = 1;
    assert!(validate_protected_surface(&plane, &moved, &m).is_err());
    let mut inside = plane.clone();
    inside[30 * 512 + 150] = 1;
    assert!(validate_protected_surface(&plane, &inside, &m).is_ok());
}

#[test]
fn exam_card_digits_and_suffix_patch() {
    let m = manifest();
    let rom = rom();
    let high = high_patterns();
    assert!(validate_score_digits(&rom, &high, &m).is_ok());
    let (expected, replacement) = validate_suffix_source_and_build_patch(&rom, &high, &m).unwrap();
    assert_eq!(expected, vec![0x45, 0xF9]);
    assert_eq!(replacement, vec![0x4E, 0x75]);
    let mut drifted = rom.clone();
    drifted[0x09_76A8 + 5 * 10 + 7] ^= 1;
    assert!(validate_score_digits(&drifted, &high, &m).is_err());
    let mut drifted = rom.clone();
    drifted[0x09_5D5E + 13] = 0xB8;
    assert!(validate_suffix_source_and_build_patch(&drifted, &high, &m).is_err());
    assert!(validate_suffix_source_and_build_patch(&rom, &high[..117 * 32], &m).is_err());
    assert!(validate_score_digits(&rom[..0x09_76A8 + 99], &high, &m).is_err());
}

#[test]
fn exam_card_build_draws_korean_and_reconstructs_the_target() {
    let plane = jp_plane();
    let (map, low) = jp_transfers(&plane);
    let high = high_patterns();
    let window = vec![0u8; 4_096];
    let build = build_exam_card(
        &rom(),
        manifest(),
        &shared(&low, &high, &map, &window),
        &decoded(&low, &high, &map, &window),
        &glyphs(),
    )
    .unwrap();
    assert_eq!(build.source_surface, plane);
    let t = &build.target_surface;
    // Heading: line starts at x 116, top at y 25; the scaled 22px core spans
    // cell pixels 6..=16, ringed by role 4, then roles 5/6 in a checkerboard.
    assert_eq!(t[31 * 512 + 122], 3);
    assert_eq!(t[35 * 512 + 121], 4);
    assert_eq!(t[35 * 512 + 120], 5);
    assert_eq!(t[36 * 512 + 120], 6);
    // Erased letters outside the glyphs became parchment.
    assert_eq!(t[24 * 512 + 112], 8);
    // Body text `결과` starts at x 144; its core square starts at (148, 60).
    assert_eq!(t[60 * 512 + 148], 2);
    assert_eq!(t[60 * 512 + 147], 7);
    // `점입니다` fills its 64px box from x 176.
    assert_eq!(t[100 * 512 + 180], 1);
    assert_eq!(build.source_text_pixels, 2_347);
    assert_eq!(build.protected_pixels, 512 * 512 - 6_912);
    assert_eq!(&build.patterns[..3_520], &low[..]);
    assert_eq!(build.patterns.len(), 3_520 + 32 * build.appended_tiles);
    assert!(build.changed_cells >= build.appended_tiles && build.appended_tiles > 0);
    assert_eq!(&render_indexed_surface(&build.map, &build.patterns).unwrap(), t);
    assert_eq!(build.suffix_replacement, vec![0x4E, 0x75]);

    let (image, summary) = write_exam_card_preview(&build, 1_000, 2_000);
    assert_eq!((image.width, image.height), (1_176, 672));
    assert_eq!(summary.blocks, 4);
    assert_eq!(summary.source_pattern_tiles, 110);
    assert_eq!(summary.typed_code_bytes, 2);
    assert_eq!((summary.pattern_pack_bytes, summary.map_pack_bytes, summary.checksum), (1_000, 2_000, 0));
    // The gap between the panels is dark grey.
    assert_eq!(&image.rgba[(192 * 3) * 4..(192 * 3) * 4 + 4], &[28, 28, 28, 255]);
    // Top-left paper pixel of the JP panel: parchment 0x0ACE.
    assert_eq!(&image.rgba[0..4], &[255, 218, 182, 255]);
    // The score's first digit sprite pixel (128, 96) on both panels.
    let at = |x: usize, y: usize| ((y * 3) * 1_176 + x * 3) * 4;
    assert_eq!(image.rgba[at(128 - 64, 96)], image.rgba[at(200 + 128 - 64, 96)]);
    assert_ne!(&image.rgba[at(128 - 64, 96)..at(128 - 64, 96) + 3], &[255, 218, 182]);
}

#[test]
fn exam_card_build_refuses_missing_glyphs_and_drifted_packs() {
    let plane = jp_plane();
    let (map, low) = jp_transfers(&plane);
    let high = high_patterns();
    let window = vec![0u8; 4_096];
    let mut few = glyphs();
    few.retain(|g| g.character != '험');
    assert!(build_exam_card(&rom(), manifest(), &shared(&low, &high, &map, &window), &decoded(&low, &high, &map, &window), &few).is_err());
    let mut packs = decoded(&low, &high, &map, &window);
    packs[3].data[0] = 1;
    assert!(build_exam_card(&rom(), manifest(), &shared(&low, &high, &map, &window), &packs, &glyphs()).is_err());
}

use md_gfx::credits_timed::{
    ConsumerDeclaration, CountPatchDeclaration, CreditsTimedManifest, LineDeclaration,
    ProtectedTrailingDefinitionDeclaration, SegmentDeclaration, TargetMapBankDeclaration, assemble_count_instruction,
    PatchKind, build_relocation_patches, build_target_map, extract_line_surface, map_record_tiles, render_segment,
    validate_consumer, validate_declared_map, validate_manifest_shape, compile_credits_timed, compile_line,
    append_relocated, write_in_place, CreditLinePreview, write_credits_timed_preview,
};
use md_gfx::font_effect::NativeGlyph;
use md_gfx::digest::sha256_hex;

fn s(text: &str) -> String {
    text.to_string()
}

fn hash() -> String {
    "0123456789abcdef".repeat(4)
}

fn segment(start: usize, cells: usize, target_cells: usize, ko: &str) -> SegmentDeclaration {
    SegmentDeclaration {
        jp: s("スタッフ"),
        ko: s(ko),
        source_tile_start: start,
        source_tile_end_exclusive: start + 4 * cells,
        target_cells,
        source_sha256: hash(),
    }
}

fn count(offset: &str, source_count: u16, target_count: u16) -> CountPatchDeclaration {
    CountPatchDeclaration { offset: s(offset), profile: s("cmpi_word_d0"), displacement: None, source_count, target_count }
}

fn in_place(id: &str, page: usize, cells: usize) -> LineDeclaration {
    LineDeclaration {
        id: s(id),
        page,
        jp: s("なまえ"),
        ko: s("이름"),
        ascii_classification: None,
        placement: s("in_place"),
        source_map_order: s("left_to_right"),
        source_logical_tiles: (0..cells).map(|c| 100 + 4 * c).collect(),
        source_map_offset: s("0x020000"),
        source_map_bytes: cells * 10,
        source_map_sha256: hash(),
        map_pointer_offset: s("0x010004"),
        draw_call_offset: s("0x010010"),
        consumer_window_offset: s("0x010000"),
        consumer_window_bytes: 64,
        consumer_window_sha256: hash(),
        target_map_profile: None,
        target_first_x: None,
        target_x_step: None,
        count_patch: None,
        draw_count_patches: vec![],
        protected_trailing_definition: None,
        segments: vec![segment(100, cells, cells, "가나다")],
    }
}

/// A relocated line of `cells` JP cells whose Korean takes one more cell.
fn relocated(id: &str, page: usize, cells: usize) -> LineDeclaration {
    let mut line = in_place(id, page, cells);
    line.placement = s("relocated");
    line.segments = vec![segment(100, cells, cells + 1, "가나다라")];
    line.count_patch = Some(count("0x010020", cells as u16, cells as u16 + 1));
    line.target_map_profile = Some(s("consumer_positioned_left_to_right"));
    line
}

fn manifest() -> CreditsTimedManifest {
    let mut p02 = in_place("GFX-CREDITS-P02-L02", 2, 6);
    p02.ascii_classification = Some(s("embedded_mixed_name_token"));
    let mut p03 = relocated("GFX-CREDITS-P03-L01", 3, 5);
    p03.ascii_classification = Some(s("protected_embedded_latin_suffix"));
    p03.source_map_bytes = 60;
    p03.count_patch = Some(count("0x010020", 6, 7));
    p03.target_map_profile = Some(s("static_centered_right_to_left"));
    p03.source_map_order = s("right_to_left");
    p03.target_first_x = Some(s("0x0100"));
    p03.target_x_step = Some(16);
    p03.protected_trailing_definition = Some(ProtectedTrailingDefinitionDeclaration {
        text: s("ss"),
        source_record_sha256: hash(),
        source_tile_start: 61,
        source_tile_end_exclusive: 63,
        source_pattern_sha256: hash(),
        width_tiles: 2,
        height_tiles: 1,
        y_offset_px: 8,
    });
    let mut p05 = relocated("GFX-CREDITS-P05-L01", 5, 4);
    p05.ascii_classification = Some(s("embedded_mixed_name_token"));
    p05.draw_count_patches = vec![CountPatchDeclaration {
        offset: s("0x010030"),
        profile: s("move_word_immediate_to_displacement_a0"),
        displacement: Some(s("0x0010")),
        source_count: 4,
        target_count: 5,
    }];
    CreditsTimedManifest {
        schema_version: 3,
        asset_group_id: s("GFX-CREDITS-TIMED-CELLS"),
        source_policy: s("JP cells, English VWF names elsewhere"),
        standalone_ascii_policy: s(
            "preserve_unmapped_standalone_ascii_escape_doors_owned_by_escape_doors_manifest",
        ),
        preserved_complete_latin_names: vec![s("Jemini"), s("RIU"), s("TAKIN")],
        font_asset: s("neodgm.ttf"),
        font_sha256: hash(),
        render_mode: s("jp_native_16x16_no_horizontal_scaling"),
        space_width_px: 8,
        consumer: ConsumerDeclaration {
            draw_target: s("0x00001856"),
            definition_count: 1,
            definition_record_bytes: 8,
            tile_index_mask: s("0x07FF"),
            glyph_tiles: 4,
            blank_tile: 5,
        },
        target_map_bank: TargetMapBankDeclaration { offset: s("0x2F8000"), limit: s("0x300000"), fill_byte: s("0xFF") },
        lines: vec![
            in_place("GFX-CREDITS-P01-L01", 1, 8),
            relocated("GFX-CREDITS-P02-L01", 2, 5),
            p02,
            p03,
            relocated("GFX-CREDITS-P03-L02", 3, 5),
            p05,
            in_place("GFX-CREDITS-P05-L02", 5, 9),
        ],
    }
}

#[test]
fn credits_timed_manifest_shape_accepts_the_seven_lines() {
    assert!(validate_manifest_shape(&manifest()).is_ok());
}

#[test]
fn credits_timed_manifest_shape_refuses_drift() {
    let mut m = manifest();
    m.lines[0].segments[0].ko = s("A");
    assert!(validate_manifest_shape(&m).is_err());
    let mut m = manifest();
    m.lines[0].segments[0].ko = s("가나다라마바사아자");
    assert!(validate_manifest_shape(&m).is_err());
    let mut m = manifest();
    m.lines[4].ascii_classification = Some(s("embedded_mixed_name_token"));
    assert!(validate_manifest_shape(&m).is_err());
    let mut m = manifest();
    m.lines[3].protected_trailing_definition = None;
    m.lines[3].source_map_bytes = 50;
    assert!(validate_manifest_shape(&m).is_err());
    let mut m = manifest();
    m.lines[1].source_logical_tiles[2] = 5;
    assert!(validate_manifest_shape(&m).is_err());
    let mut m = manifest();
    m.lines[1].count_patch = Some(count("0x01003E", 5, 6));
    assert!(validate_manifest_shape(&m).is_err());
    let mut m = manifest();
    m.lines[1].count_patch = Some(count("0x01003C", 5, 6));
    assert!(validate_manifest_shape(&m).is_ok());
    let mut m = manifest();
    m.lines[3].target_x_step = Some(0);
    assert!(validate_manifest_shape(&m).is_err());
    let mut m = manifest();
    m.lines[6].segments[0].target_cells = 8;
    assert!(validate_manifest_shape(&m).is_err());
    let mut m = manifest();
    m.font_sha256 = "0123456789ABCDEF".repeat(4);
    assert!(validate_manifest_shape(&m).is_err());
}

#[test]
fn credits_timed_count_instructions_are_typed_68000() {
    let cmpi = count("0x0", 0x0102, 0);
    assert_eq!(assemble_count_instruction(&cmpi, 0x0102).unwrap(), vec![0x0C, 0x40, 0x01, 0x02]);
    let mut moved = cmpi;
    moved.profile = s("move_word_immediate_to_displacement_a0");
    assert!(assemble_count_instruction(&moved, 7).is_err());
    moved.displacement = Some(s("0x0010"));
    assert_eq!(assemble_count_instruction(&moved, 7).unwrap(), vec![0x31, 0x7C, 0x00, 0x07, 0x00, 0x10]);
    moved.profile = s("addq");
    assert!(assemble_count_instruction(&moved, 7).is_err());
}

fn record(tile: u16) -> Vec<u8> {
    [1u16, 0x0078, 0x0500, tile, 0x00A0].iter().flat_map(|w| w.to_be_bytes()).collect()
}

#[test]
fn credits_timed_map_records_follow_the_source_order() {
    let mut line = relocated("GFX-CREDITS-P03-L01", 3, 3);
    line.source_logical_tiles = vec![100, 104, 108];
    line.source_map_order = s("right_to_left");
    assert_eq!(map_record_tiles(&line).unwrap(), vec![108, 104, 100]);
    let map: Vec<u8> = [108u16, 104, 100].iter().flat_map(|&t| record(t)).collect();
    assert!(validate_declared_map(&map, &[108, 104, 100], &line).is_ok());
    assert!(validate_declared_map(&map, &[100, 104, 108], &line).is_err());
    let mut flipped = map.clone();
    flipped[6] = 0x08;
    assert!(validate_declared_map(&flipped, &[108, 104, 100], &line).is_err());
    line.source_map_order = s("top_down");
    assert!(map_record_tiles(&line).is_err());
}

#[test]
fn credits_timed_consumer_binds_map_and_draw_call() {
    let mut line = relocated("GFX-CREDITS-P02-L01", 2, 3);
    line.source_logical_tiles = vec![100, 104, 108];
    let mut rom = vec![0u8; 0x03_0000];
    let map: Vec<u8> = [100u16, 104, 108].iter().flat_map(|&t| record(t)).collect();
    rom[0x02_0000..0x02_0000 + 30].copy_from_slice(&map);
    rom[0x01_0004..0x01_000A].copy_from_slice(&[0x45, 0xF9, 0x00, 0x02, 0x00, 0x00]);
    rom[0x01_0010..0x01_0016].copy_from_slice(&[0x4E, 0xB9, 0x00, 0x00, 0x18, 0x56]);
    rom[0x01_0020..0x01_0024].copy_from_slice(&[0x0C, 0x40, 0x00, 0x03]);
    line.source_map_bytes = 30;
    line.source_map_sha256 = sha256_hex(&map);
    line.consumer_window_sha256 = sha256_hex(&rom[0x01_0000..0x01_0040]);
    assert!(validate_consumer(&rom, &line).is_ok());

    let mut wrong_call = rom.clone();
    wrong_call[0x01_0015] = 0x58;
    line.consumer_window_sha256 = sha256_hex(&wrong_call[0x01_0000..0x01_0040]);
    assert!(validate_consumer(&wrong_call, &line).is_err());
    line.consumer_window_sha256 = sha256_hex(&rom[0x01_0000..0x01_0040]);

    let mut wrong_count = rom.clone();
    wrong_count[0x01_0023] = 0x04;
    line.consumer_window_sha256 = sha256_hex(&wrong_count[0x01_0000..0x01_0040]);
    assert!(validate_consumer(&wrong_count, &line).is_err());
    line.consumer_window_sha256 = sha256_hex(&rom[0x01_0000..0x01_0040]);

    line.draw_call_offset = s("0x01003C");
    assert!(validate_consumer(&rom, &line).is_err());
}

#[test]
fn credits_timed_segment_renders_centred_column_major_cells() {
    let glyphs = vec![NativeGlyph { character: '가', core: vec![true; 256] }];
    let seg = segment(100, 2, 2, "가");
    let tiles = render_segment(&glyphs, &seg).unwrap();
    assert_eq!(tiles.len(), 8 * 32);
    // The 16px glyph is centred on 32px: x 8..24, tiles 2..6 in column order.
    assert_eq!(tiles[0], 0x00);
    assert_eq!(tiles[2 * 32], 0xFF);
    assert_eq!(tiles[6 * 32], 0x00);
    assert!(render_segment(&[], &seg).is_err());
    let blank = vec![NativeGlyph { character: '가', core: vec![false; 256] }];
    assert!(render_segment(&blank, &seg).is_err());
}

#[test]
fn credits_timed_line_surface_reads_cells_and_blanks() {
    let mut payload = vec![0u8; 32 * 12];
    payload[8 * 32] = 0xF0;
    let surface = extract_line_surface(&payload, &[8, 5]).unwrap();
    assert_eq!(surface.len(), 32 * 16);
    assert_eq!(surface[0], 15);
    assert_eq!(surface[1], 0);
    assert!(surface[16..].iter().take(16).all(|&p| p == 0));
    assert!(extract_line_surface(&payload, &[9]).is_err());
}

#[test]
fn credits_timed_relocated_map_and_patches() {
    let mut line = relocated("GFX-CREDITS-P03-L01", 3, 3);
    line.target_map_profile = Some(s("static_centered_right_to_left"));
    line.source_map_order = s("right_to_left");
    line.target_first_x = Some(s("0x0100"));
    line.target_x_step = Some(16);
    let mut source_map = record(0x8100);
    source_map.extend(record(0x0200));
    let map = build_target_map(&line, &source_map, &[0x300, 0x304]).unwrap();
    assert_eq!(map.len(), 20);
    // Records list the cells right to left: cell 1 at x 0x110, then cell 0 at 0x100.
    assert_eq!(&map[6..10], &[0x83, 0x04, 0x01, 0x10]);
    assert_eq!(&map[16..20], &[0x83, 0x00, 0x01, 0x00]);
    assert!(build_target_map(&line, &source_map, &[0x800]).is_err());
    line.target_x_step = Some(0xFF80);
    assert!(build_target_map(&line, &source_map, &[0x300, 0x304]).is_err());

    let patches = build_relocation_patches(&line, 0x2F_8000).unwrap();
    assert_eq!(patches.len(), 2);
    assert!(matches!(patches[0].kind, PatchKind::SpriteCount));
    assert_eq!(patches[0].offset, 0x01_0020);
    assert_eq!(patches[0].source, vec![0x0C, 0x40, 0x00, 0x03]);
    assert_eq!(patches[0].target, vec![0x0C, 0x40, 0x00, 0x04]);
    assert!(matches!(patches[1].kind, PatchKind::MapPointer));
    assert_eq!(patches[1].source, vec![0x45, 0xF9, 0x00, 0x02, 0x00, 0x00]);
    assert_eq!(patches[1].target, vec![0x45, 0xF9, 0x00, 0x2F, 0x80, 0x00]);
    assert!(build_relocation_patches(&line, 0x1_0000_0000).is_err());
}

#[test]
fn credits_timed_compile_needs_ten_pages_each_side() {
    let source_pages = vec![Vec::<u8>::new(); 10];
    let mut target_pages = vec![Vec::<u8>::new(); 9];
    let result = compile_credits_timed(&[], &source_pages, &mut target_pages, &manifest(), &[]);
    assert_eq!(result.err(), Some("credit-name compiler requires ten source and target pages"));
    assert_eq!(target_pages, vec![Vec::<u8>::new(); 9]);
}

#[test]
fn credits_timed_compile_leaves_pages_alone_on_refusal() {
    let source_pages = vec![vec![0u8; 64]; 10];
    let mut target_pages = vec![vec![7u8; 64]; 10];
    let mut m = manifest();
    m.schema_version = 2;
    assert!(compile_credits_timed(&[0u8; 16], &source_pages, &mut target_pages, &m, &[]).is_err());
    assert_eq!(target_pages, vec![vec![7u8; 64]; 10]);
}

fn glyph() -> Vec<NativeGlyph> {
    vec![NativeGlyph { character: '가', core: vec![true; 256] }]
}

#[test]
fn credits_timed_in_place_segments_overwrite_their_cells() {
    let seg = segment(2, 2, 2, "가");
    let mut target = vec![0u8; 10 * 32];
    let source = vec![0u8; 10 * 32];
    let n = write_in_place(&mut target, &source, &vec![seg], &glyph()).unwrap();
    assert_eq!(n, 8);
    assert_eq!(&target[..64], &[0u8; 64][..]);
    // The glyph is centred on two cells: tiles 2..6 of the segment carry it.
    assert_eq!(target[64], 0x00);
    assert_eq!(target[64 + 64], 0xFF);
    // A cell that already differs from the JP one is refused.
    let mut changed = vec![0u8; 10 * 32];
    changed[70] = 1;
    assert!(write_in_place(&mut changed, &source, &vec![segment(2, 2, 2, "가")], &glyph()).is_err());
}

#[test]
fn credits_timed_relocated_segments_append_whole_cells() {
    let segs = vec![segment(0, 1, 2, "가"), segment(4, 1, 2, "가")];
    let mut page = vec![0u8; 10 * 32];
    let tiles = append_relocated(&mut page, &segs, &glyph()).unwrap();
    assert_eq!(page.len(), 10 * 32 + 4 * 128);
    // Two cells at tiles 10 and 14, a blank cell, then two cells at 18 and 22.
    assert_eq!(tiles, vec![10, 14, 5, 18, 22]);
    let mut unaligned = vec![0u8; 33];
    assert!(append_relocated(&mut unaligned, &segs, &glyph()).is_err());
}

#[test]
fn credits_timed_compile_line_writes_an_in_place_line() {
    let mut line = in_place("GFX-CREDITS-P01-L01", 1, 2);
    line.source_logical_tiles = vec![4, 8];
    line.segments = vec![segment(4, 2, 2, "가")];
    let source_page = vec![0u8; 12 * 32];
    line.segments[0].source_sha256 = sha256_hex(&source_page[128..384]);
    let mut target = source_page.clone();
    let compiled = compile_line(&[], &source_page, &mut target, 0, &line, &glyph()).unwrap();
    assert_eq!(compiled.overwritten, 8);
    assert_eq!(compiled.appended, 0);
    assert!(compiled.patches.is_empty());
    assert_eq!(compiled.build.target_logical_tiles, vec![4, 8]);
    assert_eq!(compiled.build.source_width, 32);
    assert!(compiled.build.source_surface.iter().all(|&p| p == 0));
    assert!(compiled.build.target_surface.iter().any(|&p| p == 15));
    assert_eq!(target[128 + 64], 0xFF);
    // A drifted JP hash refuses the line.
    line.segments[0].source_sha256 = hash();
    let mut again = source_page.clone();
    assert!(compile_line(&[], &source_page, &mut again, 0, &line, &glyph()).is_err());
}

fn preview_row(source_width: usize, target_width: usize) -> CreditLinePreview {
    let mut source_surface = vec![0u8; source_width * 16];
    source_surface[0] = 15;
    let mut target_surface = vec![0u8; target_width * 16];
    target_surface[0] = 15;
    CreditLinePreview { source_surface, source_width, target_surface, target_width }
}

#[test]
fn credits_timed_preview_aligns_rows_and_scales_three_times() {
    let rows = vec![preview_row(16, 32), preview_row(32, 16)];
    let image = write_credits_timed_preview(&rows).unwrap();
    assert_eq!((image.width, image.height), (240, 120));
    let at = |x: usize, y: usize| &image.rgba[(y * 240 + x) * 4..(y * 240 + x) * 4 + 4];
    assert_eq!(at(0, 0), &[30, 15, 18, 255]);
    // Row 0's JP surface is right-aligned to the widest (32): its ink is at x 16.
    assert_eq!(at(48, 0), &[255, 255, 255, 255]);
    assert_eq!(at(50, 2), &[255, 255, 255, 255]);
    assert_eq!(at(51, 0), &[30, 15, 18, 255]);
    // The Korean surface starts 16 pixels after the widest JP one.
    assert_eq!(at(144, 0), &[255, 255, 255, 255]);
    // Row 1 starts 24 logical pixels down.
    assert_eq!(at(0, 72), &[255, 255, 255, 255]);
    let mut bad = preview_row(16, 16);
    bad.target_surface[5] = 7;
    assert!(write_credits_timed_preview(&vec![bad]).is_err());
    assert!(write_credits_timed_preview(&vec![]).is_err());
}

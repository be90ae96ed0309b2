use md_gfx::bayoen_jin::{count_visible, render_large_ellipsis};
use md_gfx::escape_doors::{ConsumerBinding, SpriteDefinition, SpriteRecord as DoorRecord, encode_sprite_definition};
use md_gfx::exam_seals::{SpriteRecord as SealRecord, validate_tile_coverage};
use md_gfx::font_effect::{
    NativeGlyph, blit_indexed_glyph, find_glyph, native_text_width, nearest_core_distance,
    render_compact_8x16_glyph, render_indexed_glyph, render_native_text_line,
};
use md_gfx::intro_bechi::{collect_visible, decode_effect_surface, encode_effect_surface};

fn s(text: &str) -> String {
    text.to_string()
}

#[test]
fn native_text_width_counts_cells_and_spaces() {
    assert_eq!(native_text_width("", 8), 0);
    assert_eq!(native_text_width("ab", 8), 32);
    assert_eq!(native_text_width("a b", 8), 40);
    assert_eq!(native_text_width("가\u{3000}나", 4), 36);
}

#[test]
fn compact_glyph_centres_narrow_and_reduces_wide_rasters() {
    // A 2x2 raster is centred: rows 7..9, columns 3..5.
    let narrow = render_compact_8x16_glyph(2, 2, &[255, 0, 0, 255], 127, 0, 15).unwrap();
    assert_eq!(narrow.len(), 128);
    assert_eq!(narrow[7 * 8 + 3], 15);
    assert_eq!(narrow[7 * 8 + 4], 0);
    assert_eq!(narrow[8 * 8 + 4], 15);
    assert_eq!(narrow.iter().filter(|&&p| p == 15).count(), 2);
    // A 16-column raster is reduced two columns to one.
    let mut wide = vec![0u8; 16];
    wide[15] = 200;
    let reduced = render_compact_8x16_glyph(16, 1, &wide, 127, 0, 15).unwrap();
    assert_eq!(reduced[7 * 8 + 7], 15);
    assert_eq!(reduced.iter().filter(|&&p| p == 15).count(), 1);
    assert!(render_compact_8x16_glyph(2, 2, &[0, 0, 0, 0], 127, 0, 15).is_err());
    assert!(render_compact_8x16_glyph(2, 2, &[255, 0, 0, 255], 127, 3, 3).is_err());
    assert!(render_compact_8x16_glyph(17, 1, &[255; 17], 127, 0, 15).is_err());
}

#[test]
fn outlined_glyph_has_inner_and_outer_rings() {
    let mut core = vec![false; 256];
    core[8 * 16 + 8] = true;
    assert_eq!(nearest_core_distance(&core, 16, 16, 8, 8, 2), Some(0));
    assert_eq!(nearest_core_distance(&core, 16, 16, 10, 7, 2), Some(2));
    assert_eq!(nearest_core_distance(&core, 16, 16, 0, 0, 2), None);
    let glyph = render_indexed_glyph(&core, 0, 13, 15, 14);
    assert_eq!(glyph[8 * 16 + 8], 13);
    assert_eq!(glyph[7 * 16 + 9], 15);
    assert_eq!(glyph[6 * 16 + 10], 14);
    assert_eq!(glyph[5 * 16 + 11], 0);
    assert_eq!(glyph.iter().filter(|&&p| p == 15).count(), 8);
    assert_eq!(glyph.iter().filter(|&&p| p == 14).count(), 16);
}

#[test]
fn glyph_blit_respects_its_surface() {
    let glyph: Vec<u8> = (0..256).map(|i| (i % 16) as u8).collect();
    let mut surface = vec![9u8; 20 * 18];
    blit_indexed_glyph(&mut surface, 20, 18, 4, 2, &glyph).unwrap();
    assert_eq!(surface[2 * 20 + 4], 0);
    assert_eq!(surface[2 * 20 + 19], 15);
    assert_eq!(surface[17 * 20 + 4], 0);
    assert_eq!(surface[0], 9);
    assert_eq!(surface[2 * 20 + 3], 9);
    assert!(blit_indexed_glyph(&mut surface, 20, 18, 5, 2, &glyph).is_err());
}

#[test]
fn native_line_centres_glyph_cells() {
    let dot: Vec<bool> = (0..256).map(|i| i == 0).collect();
    let glyphs = vec![NativeGlyph { character: '가', core: dot.clone() }, NativeGlyph { character: '나', core: dot }];
    assert_eq!(find_glyph(&glyphs, '나'), Some(1));
    assert_eq!(find_glyph(&glyphs, '다'), None);
    let line = render_native_text_line(&glyphs, "가 나", 48, 8, 0, 15).unwrap();
    assert_eq!(line.len(), 48 * 16);
    // Text width 40 in 48 columns: the first cell starts at column 4.
    assert_eq!(line[4], 15);
    assert_eq!(line[28], 15);
    assert_eq!(line.iter().filter(|&&p| p == 15).count(), 2);
    assert!(render_native_text_line(&glyphs, "가나", 24, 8, 0, 15).is_err());
    assert!(render_native_text_line(&glyphs, "가 나", 32, 8, 0, 15).is_err());
}

#[test]
fn ellipsis_has_three_outlined_dots() {
    let mut surface = vec![0u8; 48 * 16];
    render_large_ellipsis(&mut surface, 22, 0, 13, 15, 14).unwrap();
    // Dot cores at columns 24..27, 32..35 and 40..43, rows 10..13.
    assert_eq!(surface[10 * 48 + 24], 13);
    assert_eq!(surface[12 * 48 + 42], 13);
    assert_eq!(surface[10 * 48 + 23], 15);
    assert_eq!(surface[10 * 48 + 22], 14);
    assert_eq!(surface[0], 0);
    assert_eq!(surface.iter().filter(|&&p| p == 13).count(), 27);
    assert_eq!(count_visible(&surface, 0), surface.iter().filter(|&&p| p != 0).count());
    assert!(render_large_ellipsis(&mut surface, 25, 0, 13, 15, 14).is_err());
}

#[test]
fn impact_sprite_round_trips_through_its_map() {
    let pixels: Vec<u8> = (0..960).map(|i| ((i * 7 + i / 24) % 16) as u8).collect();
    let tiles = encode_effect_surface(&pixels).unwrap();
    assert_eq!(tiles.len(), 480);
    assert_eq!(decode_effect_surface(&tiles).unwrap(), pixels);
    // Tile 4 is the second lettering column: its first byte holds pixels (8, 0) and (9, 0).
    assert_eq!(tiles[4 * 32], (pixels[8] << 4) | pixels[9]);
    // Tile 12 starts the burst's bottom row at (0, 32).
    assert_eq!(tiles[12 * 32], (pixels[32 * 24] << 4) | pixels[32 * 24 + 1]);
    let mut bad = pixels.clone();
    bad[100] = 16;
    assert!(encode_effect_surface(&bad).is_err());
    assert!(decode_effect_surface(&tiles[..479]).is_err());
}

#[test]
fn visible_pixels_skip_the_transparent_role() {
    assert_eq!(collect_visible(&[0, 5, 0, 12, 5], 0, 5, 0), vec![5, 12, 5]);
    assert_eq!(collect_visible(&[0, 5, 0, 12, 5], 2, 4, 0), vec![12]);
}

#[test]
fn door_definitions_pick_their_central_tile_word() {
    let mut records: Vec<DoorRecord> = (0..9)
        .map(|_| DoorRecord { y: s("0x0001"), size_link: s("0x0F00"), tile_words: vec![s("0xA000")], x: s("0x0002") })
        .collect();
    records[4].tile_words = vec![s("0xA2FE"), s("0xA307"), s("0xA310")];
    let consumer = ConsumerBinding {
        type_pointer_table_offset: s("0x06AD18"),
        type_pointer_entry_offset: s("0x06AD94"),
        object_type: s("0x1F"),
        definition_table_offset: s("0x06721A"),
        definition_table_sha256: s(""),
        sprite_count: 9,
        records,
        definitions: Vec::<SpriteDefinition>::new(),
    };
    let bytes = encode_sprite_definition(&consumer, 1).unwrap();
    assert_eq!(bytes.len(), 74);
    assert_eq!(&bytes[..2], &[0, 9]);
    assert_eq!(&bytes[2..10], &[0, 1, 0x0F, 0, 0xA0, 0, 0, 2]);
    assert_eq!(&bytes[2 + 4 * 8 + 4..2 + 4 * 8 + 6], &[0xA3, 0x07]);
    assert!(encode_sprite_definition(&consumer, 3).is_err());
}

#[test]
fn seal_sprites_own_their_range_once() {
    let record = |size: &str, tile: &str| SealRecord { y: s("0x0000"), size_link: s(size), tile: s(tile), x: s("0x0000") };
    // 4x4 cells at transfer tiles 0..16 and 16..32 (VRAM tiles 512..).
    let records = vec![record("0x0F00", "0xA200"), record("0x0F00", "0xA210")];
    assert!(validate_tile_coverage(&records, 0, 32).is_ok());
    assert!(validate_tile_coverage(&records, 0, 31).is_err());
    let overlapping = vec![record("0x0F00", "0xA200"), record("0x0F00", "0xA20F")];
    assert!(validate_tile_coverage(&overlapping, 0, 31).is_err());
    let wrong_flags = vec![record("0x0F00", "0x8200")];
    assert!(validate_tile_coverage(&wrong_flags, 0, 16).is_err());
    let before_transfer = vec![record("0x0F00", "0xA100")];
    assert!(validate_tile_coverage(&before_transfer, 0, 16).is_err());
}

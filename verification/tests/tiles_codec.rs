use md_gfx::tiles::{decode_md_tiles_column_major, encode_md_tiles_column_major};

#[test]
fn column_major_roundtrip_16x16() {
    let mut pixels = vec![0u8; 16 * 16];
    for (i, p) in pixels.iter_mut().enumerate() {
        *p = (i % 16) as u8;
    }
    let tiles = encode_md_tiles_column_major(&pixels, 16, 16).unwrap();
    assert_eq!(tiles.len(), 128);
    // First byte: pixels (0,0) and (1,0) of tile 0.
    assert_eq!(tiles[0], 0x01);
    // Tile 1 is the lower-left tile (column-major): its first byte is row 8.
    assert_eq!(tiles[32], pixels[8 * 16] << 4 | pixels[8 * 16 + 1]);
    let back = decode_md_tiles_column_major(&tiles, 16, 16).unwrap();
    assert_eq!(back, pixels);
}

#[test]
fn column_major_rejects_bad_shapes() {
    assert!(encode_md_tiles_column_major(&[0u8; 12], 4, 3).is_err());
    assert!(encode_md_tiles_column_major(&[16u8; 64], 8, 8).is_err());
    assert!(decode_md_tiles_column_major(&[0u8; 31], 8, 8).is_err());
}

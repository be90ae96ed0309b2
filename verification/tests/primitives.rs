use md_gfx::digest::sha256_hex;
use md_gfx::hex::{hex_equals, parse_hex, parse_u16_hex, parse_u8_hex};
use md_gfx::insert::{ExpectedWrite, insert_pack, insert_writes};
use md_gfx::palette::{md_color, nearest_palette_index, parse_md_palette};
use md_gfx::rom::{
    apply_expected_write, branch_word_target, calculate_checksum, read_be16, read_be32,
    source_range, validate_only_ranges_changed,
};
use md_gfx::sets::{same_usize_members, usize_slices_equal};
use md_gfx::sprite::{sprite_size_word, sprite_tile_count};
use md_gfx::text::{has_byte_len, str_contains, str_eq};

#[test]
fn hex_numbers_parse_with_prefix_only() {
    assert_eq!(parse_hex("0x1F"), Ok(31));
    assert_eq!(parse_hex("0X0961c0"), Ok(0x0961C0));
    assert!(parse_hex("1F").is_err());
    assert!(parse_hex("0x").is_err());
    assert!(parse_hex("0xG1").is_err());
    assert!(parse_hex("0x1FFFFFFFFFFFFFFFFF").is_err());
    assert_eq!(parse_u16_hex("0xFFFF"), Ok(0xFFFF));
    assert!(parse_u16_hex("0x10000").is_err());
    assert_eq!(parse_u8_hex("0xFF"), Ok(0xFF));
    assert!(parse_u8_hex("0x100").is_err());
    assert!(hex_equals(&"0x5600".to_string(), 0x5600));
    assert!(!hex_equals(&"5600".to_string(), 0x5600));
}

#[test]
fn big_endian_words_and_branches() {
    let bytes = [0x12, 0x34, 0x56, 0x78];
    assert_eq!(read_be16(&bytes, 0), 0x1234);
    assert_eq!(read_be32(&bytes, 0), 0x1234_5678);
    // A forward and a backward PC-relative displacement.
    assert_eq!(branch_word_target(0x1000, 0x0010), 0x1012);
    assert_eq!(branch_word_target(0x1000, 0xFFFE), 0x1000);
    assert!(source_range(&bytes, 3, 2).is_err());
    assert_eq!(source_range(&bytes, 1, 2), Ok(&bytes[1..3]));
}

#[test]
fn checksum_sums_words_from_0x200() {
    let mut rom = vec![0u8; 0x204];
    rom[0x200] = 0x12;
    rom[0x201] = 0x34;
    rom[0x202] = 0xFF;
    rom[0x203] = 0xFF;
    assert_eq!(calculate_checksum(&rom), 0x1233);
    assert_eq!(calculate_checksum(&[0u8; 0x100]), 0);
    // A trailing odd byte is not part of any word.
    rom.push(0x77);
    assert_eq!(calculate_checksum(&rom), 0x1233);
}

#[test]
fn expected_writes_refuse_foreign_bytes() {
    let mut rom = vec![1u8, 2, 3, 4];
    assert!(apply_expected_write(&mut rom, 1, &[2, 3], &[9, 9]).is_ok());
    assert_eq!(rom, vec![1, 9, 9, 4]);
    assert!(apply_expected_write(&mut rom, 1, &[2, 3], &[7, 7]).is_err());
    assert_eq!(rom, vec![1, 9, 9, 4]);
    assert!(apply_expected_write(&mut rom, 3, &[4, 0], &[0, 0]).is_err());
}

#[test]
fn only_declared_ranges_may_change() {
    let baseline = [0u8, 0, 0, 0, 0];
    let output = [0u8, 5, 5, 0, 0];
    assert!(validate_only_ranges_changed(&baseline, &output, &[(1, 3)]).is_ok());
    assert!(validate_only_ranges_changed(&baseline, &output, &[(1, 2)]).is_err());
    assert!(validate_only_ranges_changed(&baseline, &output[..4], &[(0, 5)]).is_err());
}

#[test]
fn palette_words_scale_three_bit_levels() {
    assert_eq!(md_color(0x0EEE), [255, 255, 255]);
    assert_eq!(md_color(0x0000), [0, 0, 0]);
    // Red level 1, green level 2, blue level 3.
    assert_eq!(md_color(0x0642), [36, 72, 109]);
    let mut words: Vec<String> = (0..16).map(|_| "0x0000".to_string()).collect();
    words[1] = "0x0EEE".to_string();
    let palette = parse_md_palette(&words).unwrap();
    assert_eq!(palette[1], 0x0EEE);
    words[2] = "0x0001".to_string();
    assert!(parse_md_palette(&words).is_err());
    assert!(parse_md_palette(&words[..15].to_vec()).is_err());
}

#[test]
fn nearest_palette_entry_prefers_earliest_tie() {
    let mut palette = [0u16; 16];
    palette[3] = 0x000E;
    palette[5] = 0x000E;
    palette[7] = 0x0E00;
    assert_eq!(nearest_palette_index([250, 0, 0], &palette, &[7, 5, 3]), Ok(5));
    assert_eq!(nearest_palette_index([0, 0, 250], &palette, &[3, 7]), Ok(7));
    assert!(nearest_palette_index([0, 0, 0], &palette, &[]).is_err());
    assert!(nearest_palette_index([0, 0, 0], &palette, &[16]).is_err());
}

#[test]
fn sha256_matches_the_standard_vector() {
    assert_eq!(
        sha256_hex(b"abc"),
        "ba7816bf8f01cfea414140de5dae2223b00361a396177a9cb410ff61f20015ad"
    );
}

#[test]
fn sprite_size_words_and_cells() {
    assert_eq!(sprite_tile_count(0x0F00), 16);
    assert_eq!(sprite_tile_count(0x0500), 4);
    assert_eq!(sprite_tile_count(0x0001), 1);
    assert_eq!(sprite_size_word(4, 4), Ok(0x0F00));
    assert_eq!(sprite_size_word(2, 1), Ok(0x0400));
    assert!(sprite_size_word(5, 1).is_err());
    assert!(sprite_size_word(0, 1).is_err());
}

#[test]
fn text_and_member_predicates() {
    assert!(str_eq("휙!", "휙!"));
    assert!(!str_eq("휙", "휙!"));
    assert!(str_contains("keeps JP lettering", "JP"));
    assert!(!str_contains("JP", "English"));
    assert!(has_byte_len(&"휙".to_string(), 3));
    assert!(same_usize_members(&[13, 0, 13], &[0, 13]));
    assert!(!same_usize_members(&[13], &[0, 13]));
    assert!(usize_slices_equal(&[13, 15, 14], &[13, 15, 14]));
    assert!(!usize_slices_equal(&[13, 14, 15], &[13, 15, 14]));
}

#[test]
fn insertion_changes_only_declared_ranges() {
    let mut source = vec![0u8; 0x400];
    source[0x300..0x306].copy_from_slice(&[1, 2, 3, 4, 5, 6]);
    let mut output = source.clone();
    output.resize(0x480, 0xFF);
    let baseline = output.clone();
    let header = [9u8, 9, 9, 9, 9, 9];
    let bank = [0x10u8, 0x20, 0x30, 0x40];
    let checksum = insert_pack(&source, &mut output, &[0x300], &header, 0x400, &bank, 0x480, 0xFF).unwrap();
    assert_eq!(&output[0x300..0x306], &header);
    assert_eq!(&output[0x400..0x404], &bank);
    assert_eq!(calculate_checksum(&output), checksum);
    assert_eq!(output[0x18E], (checksum >> 8) as u8);
    assert_eq!(output[0x18F], checksum as u8);
    for i in 0..output.len() {
        let declared = (0x300..0x306).contains(&i) || (0x400..0x404).contains(&i) || (0x18E..0x190).contains(&i);
        if !declared {
            assert_eq!(output[i], baseline[i], "byte {i:#x} changed");
        }
    }
}

#[test]
fn insertion_refuses_a_used_bank_or_drifted_header() {
    let source = vec![0u8; 0x400];
    let mut output = source.clone();
    output.resize(0x480, 0x00);
    assert!(insert_pack(&source, &mut output, &[0x300], &[1, 1], 0x400, &[2, 2], 0x480, 0xFF).is_err());
    let mut output = source.clone();
    output.resize(0x480, 0xFF);
    output[0x300] = 7;
    assert!(insert_pack(&source, &mut output, &[0x300], &[1, 1], 0x400, &[2, 2], 0x480, 0xFF).is_err());
    let mut output = source.clone();
    output.resize(0x480, 0xFF);
    assert!(insert_pack(&source, &mut output, &[0x300], &[1, 1], 0x47F, &[2, 2], 0x480, 0xFF).is_err());
}

#[test]
fn insert_writes_checks_each_write_and_restores_on_refusal() {
    let mut output = vec![0u8; 0x400];
    output[0x300] = 7;
    let writes = vec![
        ExpectedWrite { offset: 0x300, expected: vec![7, 0], replacement: vec![1, 2] },
        ExpectedWrite { offset: 0x301, expected: vec![2], replacement: vec![9] },
    ];
    let checksum = insert_writes(&mut output, &writes).unwrap();
    assert_eq!(&output[0x300..0x302], &[1, 9]);
    assert_eq!(checksum, 0x0109);
    assert_eq!(&output[0x18E..0x190], &[0x01, 0x09]);

    let mut refused = vec![0u8; 0x400];
    let bad = vec![
        ExpectedWrite { offset: 0x300, expected: vec![0], replacement: vec![5] },
        ExpectedWrite { offset: 0x310, expected: vec![1], replacement: vec![6] },
    ];
    assert!(insert_writes(&mut refused, &bad).is_err());
    assert_eq!(refused, vec![0u8; 0x400]);
}

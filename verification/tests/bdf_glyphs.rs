use md_gfx::bdf::{BdfGlyphRecord, decode_bdf_glyph};

fn record(width: i32, rows: &[&str]) -> BdfGlyphRecord {
    BdfGlyphRecord {
        encoding: Some(0x41),
        device_width: Some([6, 0]),
        bounding_box: Some([width, rows.len() as i32, 1, -2]),
        bitmap: rows.iter().map(|row| row.to_string()).collect(),
        reading_bitmap: true,
    }
}

#[test]
fn bdf_glyph_unpacks_rows_leftmost_bit_first() {
    let glyph = decode_bdf_glyph(&record(5, &["88", "F8", "50"])).unwrap();
    assert_eq!((glyph.width, glyph.height, glyph.x_offset, glyph.y_offset), (5, 3, 1, -2));
    assert_eq!(glyph.device_width, [6, 0]);
    assert_eq!(glyph.pixels, vec![
        true, false, false, false, true,
        true, true, true, true, true,
        false, true, false, true, false,
    ]);
}

#[test]
fn bdf_glyph_refuses_malformed_records() {
    // A bit right of a 5-pixel box.
    assert!(decode_bdf_glyph(&record(5, &["8C"])).is_err());
    // Rows that are not two hexadecimal digits.
    assert!(decode_bdf_glyph(&record(8, &["8"])).is_err());
    assert!(decode_bdf_glyph(&record(8, &["G0"])).is_err());
    // A box wider than 8, or a height that differs from the bitmap.
    assert!(decode_bdf_glyph(&record(9, &["00"])).is_err());
    let mut short = record(8, &["00", "00"]);
    short.bounding_box = Some([8, 3, 0, 0]);
    assert!(decode_bdf_glyph(&short).is_err());
    let mut bare = record(8, &["00"]);
    bare.device_width = None;
    assert!(decode_bdf_glyph(&bare).is_err());
    // Lower-case digits are accepted.
    assert_eq!(decode_bdf_glyph(&record(8, &["ff"])).unwrap().pixels, vec![true; 8]);
}

use md_gfx::bdf::read_verified_bdf_glyphs;
use md_gfx::bdf_text::{ascii_fields_of, parse_i32};
use md_gfx::digest::sha256_hex;

const TINY_FONT: &str = "STARTFONT 2.1\n\
FAMILY_NAME \"Tiny\"\n\
FONT_VERSION \"1.0\"\n\
CHARS 2\n\
STARTCHAR A\n\
ENCODING 65\n\
DWIDTH 6 0\n\
BBX 5 3 0 -1\n\
BITMAP\n\
88\n\
F8\n\
50\n\
ENDCHAR\n\
STARTCHAR B\n\
ENCODING 66\n\
DWIDTH 8 0\n\
BBX 8 1 0 0\n\
BITMAP\n\
FF\n\
ENDCHAR\n\
ENDFONT\n";

fn read(text: &str, required: &[u32]) -> Result<Vec<(u32, md_gfx::bdf::BdfGlyph)>, &'static str> {
    let digest = sha256_hex(text.as_bytes());
    read_verified_bdf_glyphs(text.as_bytes(), &digest, "Tiny", "1.0", &required.to_vec())
}

fn chars(text: &str) -> Vec<char> {
    text.chars().collect()
}

#[test]
fn bdf_reader_keeps_only_required_glyphs() {
    let glyphs = read(TINY_FONT, &[65]).unwrap();
    assert_eq!(glyphs.len(), 1);
    let (code, glyph) = &glyphs[0];
    assert_eq!(*code, 65);
    assert_eq!((glyph.width, glyph.height, glyph.x_offset, glyph.y_offset), (5, 3, 0, -1));
    assert_eq!(glyph.device_width, [6, 0]);
    assert_eq!(glyph.pixels[..5], [true, false, false, false, true]);

    let both = read(TINY_FONT, &[66, 65]).unwrap();
    let mut codes: Vec<u32> = both.iter().map(|(code, _)| *code).collect();
    codes.sort();
    assert_eq!(codes, vec![65, 66]);
    let b = &both.iter().find(|(code, _)| *code == 66).unwrap().1;
    assert_eq!(b.pixels, vec![true; 8]);
    assert_eq!(b.device_width, [8, 0]);
}

#[test]
fn bdf_reader_accepts_crlf_lines() {
    let text = TINY_FONT.replace('\n', "\r\n");
    let glyphs = read(&text, &[65, 66]).unwrap();
    assert_eq!(glyphs.len(), 2);
}

#[test]
fn bdf_reader_checks_digest_text_and_properties() {
    let bytes = TINY_FONT.as_bytes();
    let wrong = "0".repeat(64);
    assert!(read_verified_bdf_glyphs(bytes, &wrong, "Tiny", "1.0", &vec![65]).is_err());
    let digest = sha256_hex(bytes);
    assert!(read_verified_bdf_glyphs(bytes, &digest, "Other", "1.0", &vec![65]).is_err());
    assert!(read_verified_bdf_glyphs(bytes, &digest, "Tiny", "2.0", &vec![65]).is_err());
    let not_text: Vec<u8> = vec![0xFF, 0xFE, 0x41];
    let not_text_digest = sha256_hex(&not_text);
    assert!(read_verified_bdf_glyphs(&not_text, &not_text_digest, "Tiny", "1.0", &vec![]).is_err());
}

#[test]
fn bdf_reader_refuses_missing_duplicate_and_broken_records() {
    // A required glyph the font lacks.
    assert!(read(TINY_FONT, &[67]).is_err());
    // The same code point twice.
    let twice = TINY_FONT.replace("ENCODING 66", "ENCODING 65");
    assert!(read(&twice, &[65]).is_err());
    // ...which is fine when that code point is not required.
    assert_eq!(read(&twice, &[]).unwrap().len(), 0);
    // A record opened inside another.
    let nested = TINY_FONT.replacen("ENDCHAR\n", "", 1);
    assert!(read(&nested, &[65]).is_err());
    // A font that ends inside a record.
    let open = TINY_FONT.replace("ENDCHAR\nENDFONT\n", "");
    assert!(read(&open, &[65]).is_err());
    // Malformed fields, even in glyphs nobody asked for.
    assert!(read(&TINY_FONT.replace("ENCODING 66", "ENCODING x"), &[65]).is_err());
    assert!(read(&TINY_FONT.replace("DWIDTH 8 0", "DWIDTH 8 0 0"), &[65]).is_err());
    assert!(read(&TINY_FONT.replace("BBX 8 1 0 0", "BBX 8 1 0"), &[65]).is_err());
    // A required glyph whose rows do not fit its box.
    assert!(read(&TINY_FONT.replace("F8", "FC"), &[65]).is_err());
    // A negative encoding is no code point: the record is skipped.
    let negative = TINY_FONT.replace("ENCODING 66", "ENCODING -1");
    assert_eq!(read(&negative, &[65]).unwrap().len(), 1);
}

#[test]
fn bdf_integers_read_as_str_parse_does() {
    assert_eq!(parse_i32(&chars("65")), Some(65));
    assert_eq!(parse_i32(&chars("+7")), Some(7));
    assert_eq!(parse_i32(&chars("-2")), Some(-2));
    assert_eq!(parse_i32(&chars("-2147483648")), Some(i32::MIN));
    assert_eq!(parse_i32(&chars("2147483647")), Some(i32::MAX));
    assert_eq!(parse_i32(&chars("2147483648")), None);
    assert_eq!(parse_i32(&chars("-")), None);
    assert_eq!(parse_i32(&chars("")), None);
    assert_eq!(parse_i32(&chars(" 1")), None);
    assert_eq!(parse_i32(&chars("00012")), Some(12));
}

#[test]
fn bdf_fields_split_at_ascii_whitespace() {
    let fields = ascii_fields_of(&chars("  5 \t3  0 -1 "));
    let texts: Vec<String> = fields.iter().map(|f| f.iter().collect()).collect();
    assert_eq!(texts, vec!["5", "3", "0", "-1"]);
    assert!(ascii_fields_of(&chars("   ")).is_empty());
}

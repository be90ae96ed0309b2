//! Bitmap fonts in BDF text: reading the glyph records a font declares,
//! checking them, and unpacking their pixels.

use vstd::prelude::*;
use crate::hex::{Error, all_hex_digits, hex_digit, hex_digit_value, hex_digits_value, is_hex_digit};
use crate::bdf_text::{
    chars_of, has_prefix, i32_fields, i32_text, line_is, parse_i32, parse_i32_fields,
    starts_with, tail_from,
};
use crate::digest::{sha256_hex, sha256_hex_of};
use crate::text::str_eq;
use vstd::utf8::{decode_utf8, valid_utf8};

verus! {

/// A decoded glyph: its device width, box and row-major pixels.
pub struct BdfGlyph {
    pub device_width: [i32; 2],
    pub width: usize,
    pub height: usize,
    pub x_offset: i32,
    pub y_offset: i32,
    pub pixels: Vec<bool>,
}

/// The fields one `STARTCHAR`..`ENDCHAR` record declares.
pub struct BdfGlyphRecord {
    pub encoding: Option<u32>,
    pub device_width: Option<[i32; 2]>,
    pub bounding_box: Option<[i32; 4]>,
    pub bitmap: Vec<String>,
    pub reading_bitmap: bool,
}

/// What a glyph record holds, as plain values.
pub struct RecordView {
    pub encoding: Option<u32>,
    pub device_width: Option<Seq<i32>>,
    pub bounding_box: Option<Seq<i32>>,
    pub bitmap: Seq<Seq<char>>,
    pub reading_bitmap: bool,
}

impl View for BdfGlyphRecord {
    type V = RecordView;

    open spec fn view(&self) -> RecordView {
        RecordView {
            encoding: self.encoding,
            device_width: match self.device_width {
                Some(a) => Some(a@),
                None => None,
            },
            bounding_box: match self.bounding_box {
                Some(a) => Some(a@),
                None => None,
            },
            bitmap: self.bitmap@.map_values(|row: String| row@),
            reading_bitmap: self.reading_bitmap,
        }
    }
}

/// Weight of bit `x` of a bitmap row, leftmost pixel first.
pub open spec fn bit_weight(x: int) -> nat {
    seq![128nat, 64, 32, 16, 8, 4, 2, 1][x]
}

/// A bitmap row of a glyph `width` pixels wide: two hexadecimal digits with
/// no bit set right of the box.
pub open spec fn row_ok(row: Seq<char>, width: int) -> bool {
    &&& row.len() == 2
    &&& all_hex_digits(row)
    &&& hex_digits_value(row) % bit_weight(width - 1) == 0
}

/// The record decodes: it has a device width and a box at most 8 pixels
/// wide, one row per pixel of height, and well-formed rows.
pub open spec fn record_ok(r: RecordView) -> bool {
    &&& r.device_width is Some
    &&& r.device_width->0.len() == 2
    &&& r.bounding_box is Some
    &&& r.bounding_box->0.len() == 4
    &&& 0 < r.bounding_box->0[0] <= 8
    &&& 0 < r.bounding_box->0[1]
    &&& r.bitmap.len() == r.bounding_box->0[1]
    &&& forall|y: int| 0 <= y < r.bitmap.len() ==> row_ok(#[trigger] r.bitmap[y], r.bounding_box->0[0] as int)
}

/// Pixel (`x`, `y`) of the record: bit `x` of row `y`.
pub open spec fn record_pixel(r: RecordView, x: int, y: int) -> bool {
    (hex_digits_value(r.bitmap[y]) / bit_weight(x)) % 2 == 1
}

/// `g` is what record `r` decodes to.
pub open spec fn decodes_to(r: RecordView, g: BdfGlyph) -> bool {
    let b = r.bounding_box->0;
    &&& g.device_width@ == r.device_width->0
    &&& g.width == b[0] && g.height == b[1]
    &&& g.x_offset == b[2] && g.y_offset == b[3]
    &&& g.pixels@.len() == g.width * g.height
    &&& forall|y: int, x: int|
        0 <= y < g.height && 0 <= x < g.width ==> #[trigger] g.pixels@[y * g.width + x] == record_pixel(r, x, y)
}

fn bitmap_row(row: &String, width: usize) -> (value: Option<u8>)
    requires
        0 < width <= 8,
    ensures
        value is Some <==> row_ok(row@, width as int),
        value matches Some(v) ==> v as nat == hex_digits_value(row@),
{
    let text = row.as_str();
    if text.unicode_len() != 2 {
        return None;
    }
    let high = match hex_digit(text.get_char(0)) {
        Some(d) => d,
        None => {
            assert(!all_hex_digits(row@)) by {
                assert(!is_hex_digit(row@[0]));
            }
            return None;
        },
    };
    let low = match hex_digit(text.get_char(1)) {
        Some(d) => d,
        None => {
            assert(!all_hex_digits(row@)) by {
                assert(!is_hex_digit(row@[1]));
            }
            return None;
        },
    };
    let value = high * 16 + low;
    proof {
        let d = row@.drop_last();
        assert(d =~= seq![row@[0]]);
        assert(d.drop_last() =~= Seq::<char>::empty());
        assert(hex_digits_value(d.drop_last()) == 0);
        assert(d.last() == row@[0]);
        assert(hex_digits_value(d) == hex_digits_value(d.drop_last()) * 16 + hex_digit_value(d.last()));
        assert(hex_digits_value(row@) == hex_digits_value(d) * 16 + hex_digit_value(row@.last()));
        assert(hex_digits_value(row@) == hex_digit_value(row@[0]) * 16 + hex_digit_value(row@[1]));
        assert(all_hex_digits(row@)) by {
            assert forall|i: int| 0 <= i < row@.len() implies is_hex_digit(#[trigger] row@[i]) by {}
        }
    }
    let weights: [u8; 8] = [128, 64, 32, 16, 8, 4, 2, 1];
    assert(weights@[width - 1] as nat == bit_weight(width - 1));
    if value % weights[width - 1] != 0 {
        return None;
    }
    Some(value)
}

/// Decode a glyph record: check its device width, box and rows, and unpack
/// its pixels row-major, leftmost bit first.
pub fn decode_bdf_glyph(record: &BdfGlyphRecord) -> (glyph: Result<BdfGlyph, Error>)
    ensures
        glyph is Ok <==> record_ok(record@),
        glyph matches Ok(g) ==> decodes_to(record@, g),
{
    let device_width = match record.device_width {
        Some(d) => d,
        None => {
            return Err("BDF glyph has no DWIDTH");
        },
    };
    let b = match record.bounding_box {
        Some(b) => b,
        None => {
            return Err("BDF glyph has no BBX");
        },
    };
    if b[0] <= 0 || b[1] <= 0 || b[0] > 8 || record.bitmap.len() != b[1] as usize {
        return Err("BDF glyph has an unsupported BBX or bitmap height");
    }
    let width = b[0] as usize;
    let height = b[1] as usize;
    let weights: [u8; 8] = [128, 64, 32, 16, 8, 4, 2, 1];
    let mut pixels: Vec<bool> = Vec::new();
    let mut y: usize = 0;
    while y < height
        invariant
            0 < width <= 8,
            width == b[0],
            height == b[1],
            record.bounding_box == Some(b),
            record.bitmap@.len() == height,
            weights@ == seq![128u8, 64, 32, 16, 8, 4, 2, 1],
            y <= height,
            pixels@.len() == y * width,
            forall|j: int| 0 <= j < y ==> row_ok((#[trigger] record.bitmap@[j])@, width as int),
            forall|yy: int, x: int|
                0 <= yy < y && 0 <= x < width ==> #[trigger] pixels@[yy * width + x] == record_pixel(record@, x, yy),
        decreases height - y,
    {
        let row = match bitmap_row(&record.bitmap[y], width) {
            Some(v) => v,
            None => {
                assert(!record_ok(record@)) by {
                    assert(!row_ok(record@.bitmap[y as int], width as int));
                }
                return Err("BDF glyph has a malformed bitmap row or pixels outside its BBX width");
            },
        };
        assert(record@.bitmap[y as int] == record.bitmap@[y as int]@);
        let ghost before = pixels@;
        let mut x: usize = 0;
        while x < width
            invariant
                0 < width <= 8,
                weights@ == seq![128u8, 64, 32, 16, 8, 4, 2, 1],
                x <= width,
                y < height,
                row as nat == hex_digits_value(record@.bitmap[y as int]),
                before.len() == y * width,
                pixels@.len() == y * width + x,
                forall|q: int| 0 <= q < before.len() ==> pixels@[q] == before[q],
                forall|xx: int| 0 <= xx < x ==> #[trigger] pixels@[y * width + xx] == record_pixel(record@, xx, y as int),
            decreases width - x,
        {
            assert(weights@[x as int] as nat == bit_weight(x as int));
            pixels.push((row / weights[x]) % 2 == 1);
            x = x + 1;
        }
        proof {
            assert forall|yy: int, xx: int|
                0 <= yy < y + 1 && 0 <= xx < width implies #[trigger] pixels@[yy * width + xx] == record_pixel(record@, xx, yy) by {
                if yy < y {
                    assert(yy * width + xx < y * width) by (nonlinear_arith)
                        requires yy < y, xx < width;
                    assert(pixels@[yy * width + xx] == before[yy * width + xx]);
                }
            }
            assert((y + 1) * width == y * width + width) by (nonlinear_arith);
        }
        y = y + 1;
    }
    let g = BdfGlyph { device_width, width, height, x_offset: b[2], y_offset: b[3], pixels };
    assert(g.pixels@.len() == g.width * g.height) by {
        assert(height * width == width * height) by (nonlinear_arith);
    }
    assert(forall|yy: int, x: int|
        0 <= yy < g.height && 0 <= x < g.width ==> #[trigger] g.pixels@[yy * g.width + x] == record_pixel(record@, x, yy));
    Ok(g)
}

/// The reader's state after some lines: the glyph records kept, by code
/// point; the record being read; and whether reading has failed.
pub struct BdfScan {
    pub glyphs: Map<int, RecordView>,
    pub current: Option<RecordView>,
    pub failed: bool,
}

pub open spec fn empty_record() -> RecordView {
    RecordView {
        encoding: None,
        device_width: None,
        bounding_box: None,
        bitmap: Seq::empty(),
        reading_bitmap: false,
    }
}

/// `code` is the code point of one of the required characters.
pub open spec fn is_required(required: Seq<u32>, code: int) -> bool {
    exists|i: int| 0 <= i < required.len() && (#[trigger] required[i]) as int == code
}

/// One line of the font. A record runs from `STARTCHAR` to `ENDCHAR`; inside
/// it `ENCODING`, `DWIDTH` and `BBX` set fields, `BITMAP` starts the rows, and
/// at `ENDCHAR` a record whose code point is required must decode and must be
/// the first for that code point. Lines outside records are skipped.
pub open spec fn scan_line(s: BdfScan, line: Seq<char>, required: Seq<u32>) -> BdfScan {
    if s.failed {
        s
    } else if starts_with(line, "STARTCHAR "@) {
        if s.current is Some {
            BdfScan { failed: true, ..s }
        } else {
            BdfScan { current: Some(empty_record()), ..s }
        }
    } else if s.current is None {
        s
    } else {
        let r = s.current->0;
        if starts_with(line, "ENCODING "@) {
            match i32_text(line.skip("ENCODING "@.len() as int)) {
                Some(v) => BdfScan {
                    current: Some(RecordView { encoding: if v >= 0 { Some(v as u32) } else { None }, ..r }),
                    ..s
                },
                None => BdfScan { failed: true, ..s },
            }
        } else if starts_with(line, "DWIDTH "@) {
            match i32_fields(line.skip("DWIDTH "@.len() as int), 2) {
                Some(f) => BdfScan { current: Some(RecordView { device_width: Some(f), ..r }), ..s },
                None => BdfScan { failed: true, ..s },
            }
        } else if starts_with(line, "BBX "@) {
            match i32_fields(line.skip("BBX "@.len() as int), 4) {
                Some(f) => BdfScan { current: Some(RecordView { bounding_box: Some(f), ..r }), ..s },
                None => BdfScan { failed: true, ..s },
            }
        } else if line == "BITMAP"@ {
            BdfScan { current: Some(RecordView { reading_bitmap: true, ..r }), ..s }
        } else if line == "ENDCHAR"@ {
            if r.encoding is Some && is_required(required, r.encoding->0 as int) {
                let code = r.encoding->0 as int;
                if !record_ok(r) || s.glyphs.contains_key(code) {
                    BdfScan { current: None, failed: true, ..s }
                } else {
                    BdfScan { glyphs: s.glyphs.insert(code, r), current: None, ..s }
                }
            } else {
                BdfScan { current: None, ..s }
            }
        } else if r.reading_bitmap {
            BdfScan { current: Some(RecordView { bitmap: r.bitmap.push(line), ..r }), ..s }
        } else {
            s
        }
    }
}

/// The reader's state after the given lines.
pub open spec fn scan_lines(lines: Seq<Seq<char>>, required: Seq<u32>) -> BdfScan
    decreases lines.len(),
{
    if lines.len() == 0 {
        BdfScan { glyphs: Map::empty(), current: None, failed: false }
    } else {
        scan_line(scan_lines(lines.drop_last(), required), lines.last(), required)
    }
}

/// The lines read without failure, close every record, and give a glyph
/// for every required character.
pub open spec fn bdf_lines_ok(lines: Seq<Seq<char>>, required: Seq<u32>) -> bool {
    let s = scan_lines(lines, required);
    &&& !s.failed
    &&& s.current is None
    &&& forall|k: int| 0 <= k < required.len() ==> s.glyphs.contains_key((#[trigger] required[k]) as int)
}

/// A property line such as `FAMILY_NAME "Misaki"`: the key with its
/// opening quote, the value, and a closing quote.
pub open spec fn quoted_property(key_quote: Seq<char>, value: Seq<char>) -> Seq<char> {
    key_quote + value + "\""@
}

/// The font file checks out: its digest is the expected one, it is UTF-8
/// text, it names the expected family and version, and its glyph records
/// read as `bdf_lines_ok` asks.
pub open spec fn bdf_read_ok(
    bytes: Seq<u8>,
    expected_sha256: Seq<char>,
    family: Seq<char>,
    version: Seq<char>,
    required: Seq<u32>,
) -> bool {
    &&& sha256_hex_of(bytes) == expected_sha256
    &&& valid_utf8(bytes)
    &&& text_lines_of(decode_utf8(bytes)).contains(quoted_property("FAMILY_NAME \""@, family))
    &&& text_lines_of(decode_utf8(bytes)).contains(quoted_property("FONT_VERSION \""@, version))
    &&& bdf_lines_ok(text_lines_of(decode_utf8(bytes)), required)
}

/// The decoded glyphs are exactly the records kept: one entry per code
/// point, each decoded from the record kept for it.
pub open spec fn glyph_table(glyphs: Seq<(u32, BdfGlyph)>, kept: Map<int, RecordView>) -> bool {
    &&& forall|i: int|
        0 <= i < glyphs.len() ==> kept.contains_key((#[trigger] glyphs[i]).0 as int) && decodes_to(
            kept[glyphs[i].0 as int],
            glyphs[i].1,
        )
    &&& forall|i: int, j: int|
        0 <= i < j < glyphs.len() ==> (#[trigger] glyphs[i]).0 as int != (#[trigger] glyphs[j]).0 as int
    &&& forall|code: int|
        #[trigger] kept.contains_key(code) ==> exists|i: int| 0 <= i < glyphs.len() && (#[trigger] glyphs[i]).0 as int == code
}

spec fn reader_matches(glyphs: Seq<(u32, BdfGlyph)>, current: Option<BdfGlyphRecord>, s: BdfScan) -> bool {
    &&& !s.failed
    &&& match current {
        Some(c) => s.current == Some(c@),
        None => s.current is None,
    }
    &&& glyph_table(glyphs, s.glyphs)
}

/// Lines of a text, as `str::lines` splits them.
pub uninterp spec fn text_lines_of(text: Seq<char>) -> Seq<Seq<char>>;

/// Trusted: `std::str::from_utf8`. Claims that it succeeds exactly on valid
/// UTF-8 and that the text it gives is what those bytes decode to.
#[verifier::external_body]
fn utf8_text(bytes: &[u8]) -> (text: Option<String>)
    ensures
        text is Some <==> valid_utf8(bytes@),
        text matches Some(t) ==> t@ == decode_utf8(bytes@),
{
    match std::str::from_utf8(bytes) {
        Ok(t) => Some(t.to_string()),
        Err(_) => None,
    }
}

/// Trusted: `str::lines`. Claims only that the lines are a function of the
/// text (named `text_lines_of`); where lines end is not stated.
#[verifier::external_body]
fn text_lines(text: &str) -> (lines: Vec<String>)
    ensures
        lines@.map_values(|l: String| l@) == text_lines_of(text@),
{
    text.lines().map(|line| line.to_string()).collect()
}

fn find_required(required: &Vec<u32>, code: u32) -> (found: bool)
    ensures
        found == is_required(required@, code as int),
{
    let mut k: usize = 0;
    while k < required.len()
        invariant
            k <= required@.len(),
            forall|j: int| 0 <= j < k ==> (#[trigger] required@[j]) as int != code as int,
        decreases required@.len() - k,
    {
        if required[k] == code {
            assert(required@[k as int] as int == code as int);
            return true;
        }
        k = k + 1;
    }
    false
}

fn has_glyph(glyphs: &Vec<(u32, BdfGlyph)>, code: u32) -> (found: bool)
    ensures
        found == exists|i: int| 0 <= i < glyphs@.len() && (#[trigger] glyphs@[i]).0 as int == code as int,
{
    let mut i: usize = 0;
    while i < glyphs.len()
        invariant
            i <= glyphs@.len(),
            forall|j: int| 0 <= j < i ==> (#[trigger] glyphs@[j]).0 as int != code as int,
        decreases glyphs@.len() - i,
    {
        if glyphs[i].0 == code {
            assert(glyphs@[i as int].0 as int == code as int);
            return true;
        }
        i = i + 1;
    }
    false
}

proof fn lemma_scan_failed_stays(lines: Seq<Seq<char>>, required: Seq<u32>, i: int, j: int)
    requires
        0 <= i <= j <= lines.len(),
        scan_lines(lines.take(i), required).failed,
    ensures
        scan_lines(lines.take(j), required).failed,
    decreases j - i,
{
    if i < j {
        lemma_scan_failed_stays(lines, required, i, j - 1);
        assert(lines.take(j).drop_last() =~= lines.take(j - 1));
    }
}

fn new_record() -> (r: BdfGlyphRecord)
    ensures
        r@ == empty_record(),
{
    let r = BdfGlyphRecord {
        encoding: None,
        device_width: None,
        bounding_box: None,
        bitmap: Vec::new(),
        reading_bitmap: false,
    };
    assert(r@.bitmap =~= Seq::<Seq<char>>::empty());
    r
}

/// Read one line: the exact counterpart of `scan_line` on the reader's
/// executable state.
fn scan_step(
    glyphs: &mut Vec<(u32, BdfGlyph)>,
    current: Option<BdfGlyphRecord>,
    line: &String,
    chars: &Vec<char>,
    required: &Vec<u32>,
    Ghost(s): Ghost<BdfScan>,
) -> (next: Result<Option<BdfGlyphRecord>, Error>)
    requires
        chars@ == line@,
        reader_matches(old(glyphs)@, current, s),
    ensures
        next is Err <==> scan_line(s, line@, required@).failed,
        next matches Ok(c) ==> reader_matches(final(glyphs)@, c, scan_line(s, line@, required@)),
        next is Err ==> final(glyphs)@ == old(glyphs)@,
{
    if has_prefix(chars, "STARTCHAR ") {
        if current.is_some() {
            return Err("BDF has nested glyph records");
        }
        return Ok(Some(new_record()));
    }
    let mut rec = match current {
        None => {
            return Ok(None);
        },
        Some(r) => r,
    };
    let ghost r = rec@;
    if has_prefix(chars, "ENCODING ") {
        let rest = tail_from(chars, "ENCODING ".unicode_len());
        match parse_i32(&rest) {
            None => {
                return Err("BDF has an invalid ENCODING");
            },
            Some(v) => {
                rec.encoding = if v >= 0 {
                    Some(v as u32)
                } else {
                    None
                };
            },
        }
        assert(rec@ == RecordView { encoding: rec@.encoding, ..r });
        return Ok(Some(rec));
    }
    if has_prefix(chars, "DWIDTH ") {
        let rest = tail_from(chars, "DWIDTH ".unicode_len());
        match parse_i32_fields(&rest, 2) {
            None => {
                return Err("BDF has an invalid DWIDTH");
            },
            Some(v) => {
                let pair: [i32; 2] = [v[0], v[1]];
                assert(pair@ =~= v@);
                rec.device_width = Some(pair);
            },
        }
        assert(rec@ == RecordView { device_width: rec@.device_width, ..r });
        return Ok(Some(rec));
    }
    if has_prefix(chars, "BBX ") {
        let rest = tail_from(chars, "BBX ".unicode_len());
        match parse_i32_fields(&rest, 4) {
            None => {
                return Err("BDF has an invalid BBX");
            },
            Some(v) => {
                let quad: [i32; 4] = [v[0], v[1], v[2], v[3]];
                assert(quad@ =~= v@);
                rec.bounding_box = Some(quad);
            },
        }
        assert(rec@ == RecordView { bounding_box: rec@.bounding_box, ..r });
        return Ok(Some(rec));
    }
    if line_is(chars, "BITMAP") {
        rec.reading_bitmap = true;
        assert(rec@ == RecordView { reading_bitmap: true, ..r });
        return Ok(Some(rec));
    }
    if line_is(chars, "ENDCHAR") {
        let code = match rec.encoding {
            None => {
                return Ok(None);
            },
            Some(code) => code,
        };
        if !find_required(required, code) {
            return Ok(None);
        }
        let glyph = match decode_bdf_glyph(&rec) {
            Ok(g) => g,
            Err(e) => {
                return Err(e);
            },
        };
        if has_glyph(glyphs, code) {
            return Err("BDF duplicates a required glyph");
        }
        let ghost before = glyphs@;
        glyphs.push((code, glyph));
        proof {
            let kept = s.glyphs.insert(code as int, r);
            assert(!s.glyphs.contains_key(code as int));
            assert forall|i: int| 0 <= i < glyphs@.len() implies kept.contains_key((#[trigger] glyphs@[i]).0 as int)
                && decodes_to(kept[glyphs@[i].0 as int], glyphs@[i].1) by {
                if i < before.len() {
                    assert(glyphs@[i] == before[i]);
                    assert(s.glyphs.contains_key(before[i].0 as int));
                }
            }
            assert forall|i: int, j: int| 0 <= i < j < glyphs@.len() implies (#[trigger] glyphs@[i]).0 as int
                != (#[trigger] glyphs@[j]).0 as int by {
                assert(glyphs@[i] == before[i]);
                if j < before.len() {
                    assert(glyphs@[j] == before[j]);
                } else {
                    assert(s.glyphs.contains_key(before[i].0 as int));
                }
            }
            assert forall|c: int| #[trigger] kept.contains_key(c) implies exists|i: int|
                0 <= i < glyphs@.len() && (#[trigger] glyphs@[i]).0 as int == c by {
                if c == code as int {
                    assert(glyphs@[before.len() as int].0 as int == c);
                } else {
                    assert(s.glyphs.contains_key(c));
                    let i = choose|i: int| 0 <= i < before.len() && (#[trigger] before[i]).0 as int == c;
                    assert(glyphs@[i] == before[i]);
                }
            }
        }
        return Ok(None);
    }
    if rec.reading_bitmap {
        let ghost old_rows = rec.bitmap@;
        rec.bitmap.push(line.clone());
        assert(rec.bitmap@.map_values(|row: String| row@) =~= old_rows.map_values(|row: String| row@).push(line@));
        assert(rec@ == RecordView { bitmap: r.bitmap.push(line@), ..r });
    }
    Ok(Some(rec))
}

fn lines_contain(lines: &Vec<String>, wanted: &String) -> (found: bool)
    ensures
        found == lines@.map_values(|l: String| l@).contains(wanted@),
{
    let ghost views = lines@.map_values(|l: String| l@);
    let mut i: usize = 0;
    while i < lines.len()
        invariant
            i <= lines@.len(),
            views == lines@.map_values(|l: String| l@),
            forall|j: int| 0 <= j < i ==> (#[trigger] views[j]) != wanted@,
        decreases lines@.len() - i,
    {
        if str_eq(lines[i].as_str(), wanted.as_str()) {
            assert(views[i as int] == wanted@);
            return true;
        }
        i = i + 1;
    }
    false
}

/// Read the glyphs of the required code points from a BDF font file, after
/// checking its SHA-256 digest, that it is UTF-8 text, and its
/// `FAMILY_NAME` and `FONT_VERSION` properties. Every required code point
/// gets exactly one glyph; a record that repeats one, does not decode, or a
/// font that nests records or ends inside one, is refused.
pub fn read_verified_bdf_glyphs(
    bytes: &[u8],
    expected_sha256: &str,
    family: &str,
    version: &str,
    required: &Vec<u32>,
) -> (glyphs: Result<Vec<(u32, BdfGlyph)>, Error>)
    ensures
        glyphs is Ok <==> bdf_read_ok(bytes@, expected_sha256@, family@, version@, required@),
        glyphs matches Ok(g) ==> glyph_table(
            g@,
            scan_lines(text_lines_of(decode_utf8(bytes@)), required@).glyphs,
        ),
{
    let actual = sha256_hex(bytes);
    if !str_eq(actual.as_str(), expected_sha256) {
        return Err("BDF SHA-256 differs from the manifest");
    }
    let text = match utf8_text(bytes) {
        Some(t) => t,
        None => {
            return Err("BDF is not UTF-8 text");
        },
    };
    let lines = text_lines(text.as_str());
    let ghost all = lines@.map_values(|l: String| l@);
    let mut family_line = String::from_str("FAMILY_NAME \"");
    family_line.append(family);
    family_line.append("\"");
    let mut version_line = String::from_str("FONT_VERSION \"");
    version_line.append(version);
    version_line.append("\"");
    if !lines_contain(&lines, &family_line) || !lines_contain(&lines, &version_line) {
        return Err("BDF family or version differs from the manifest");
    }
    let mut glyphs: Vec<(u32, BdfGlyph)> = Vec::new();
    let mut current: Option<BdfGlyphRecord> = None;
    let mut i: usize = 0;
    assert(all.take(0) =~= Seq::<Seq<char>>::empty());
    assert(glyph_table(glyphs@, Map::empty()));
    while i < lines.len()
        invariant
            i <= lines@.len(),
            all == lines@.map_values(|l: String| l@),
            all == text_lines_of(decode_utf8(bytes@)),
            reader_matches(glyphs@, current, scan_lines(all.take(i as int), required@)),
        decreases lines@.len() - i,
    {
        let chars = chars_of(lines[i].as_str());
        let ghost s = scan_lines(all.take(i as int), required@);
        assert(all.take(i + 1).drop_last() =~= all.take(i as int));
        assert(all.take(i + 1).last() == lines@[i as int]@);
        match scan_step(&mut glyphs, current, &lines[i], &chars, required, Ghost(s)) {
            Ok(next) => {
                current = next;
            },
            Err(e) => {
                proof {
                    lemma_scan_failed_stays(all, required@, i + 1, all.len() as int);
                    assert(all.take(all.len() as int) =~= all);
                }
                return Err(e);
            },
        }
        i = i + 1;
    }
    assert(all.take(lines@.len() as int) =~= all);
    if current.is_some() {
        return Err("BDF ends inside a glyph record");
    }
    let ghost kept = scan_lines(all, required@).glyphs;
    let mut k: usize = 0;
    while k < required.len()
        invariant
            k <= required@.len(),
            kept == scan_lines(all, required@).glyphs,
            all == text_lines_of(decode_utf8(bytes@)),
            glyph_table(glyphs@, kept),
            forall|j: int| 0 <= j < k ==> kept.contains_key((#[trigger] required@[j]) as int),
        decreases required@.len() - k,
    {
        if !has_glyph(&glyphs, required[k]) {
            assert(!kept.contains_key(required@[k as int] as int));
            assert(!bdf_lines_ok(all, required@));
            return Err("BDF is missing required glyphs");
        }
        k = k + 1;
    }
    assert(bdf_lines_ok(all, required@));
    Ok(glyphs)
}

} // verus!

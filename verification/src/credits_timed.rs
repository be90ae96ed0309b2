//! Timed ending-credit names: the seven fixed-cell name lines drawn by the JP
//! sprite consumer. This module holds their manifest contract, the checks of
//! each line's JP sprite definitions and consumer bindings, and the typed
//! count and map-pointer patches of relocated lines.

use vstd::prelude::*;
use crate::hex::{Error, hex_equals, hex_fits, hex_is, parse_hex, parse_u16_hex, spec_parse_hex};
use crate::text::{byte_len, has_byte_len, seq_contains_run, str_contains, string_is};
use crate::digest::{sha256_hex, sha256_hex_of};
use crate::rom::{be16, read_be16, source_range, written};
use crate::sets::{bytes_equal, copy_bytes};
use crate::preview::{RgbaImage, opaque_channel, push_opaque};
use crate::font_effect::{NativeGlyph, covers_text, glyphs_cover, is_whitespace, line_glyphs_visible, line_pixel, render_native_text_line, spec_is_whitespace, text_width};
use crate::credits_top::{add_visible_chars, distinct_chars, visible_of};
use crate::tiles::{column_major_byte, column_major_pixel_value, encode_md_tiles_column_major, nibble_roles_are, nibble_roles_match};

verus! {

pub const LINE_COUNT: usize = 7;
pub const GLYPH_TILES: usize = 4;
pub const DEFINITION_BYTES: usize = 10;
pub const BLANK_TILE: usize = 5;
pub const DRAW_TARGET: usize = 0x0000_1856;
pub const MAP_BANK_OFFSET: usize = 0x2F_8000;
pub const MAP_BANK_LIMIT: usize = 0x30_0000;

/// The JP sprite routine every name line calls.
pub struct ConsumerDeclaration {
    pub draw_target: String,
    pub definition_count: usize,
    pub definition_record_bytes: usize,
    pub tile_index_mask: String,
    pub glyph_tiles: usize,
    pub blank_tile: usize,
}

/// The bank relocated sprite maps are stored in.
pub struct TargetMapBankDeclaration {
    pub offset: String,
    pub limit: String,
    pub fill_byte: String,
}

/// A typed count operand of a relocated line's consumer.
pub struct CountPatchDeclaration {
    pub offset: String,
    pub profile: String,
    pub displacement: Option<String>,
    pub source_count: u16,
    pub target_count: u16,
}

/// A protected JP sprite kept after a line's name.
pub struct ProtectedTrailingDefinitionDeclaration {
    pub text: String,
    pub source_record_sha256: String,
    pub source_tile_start: usize,
    pub source_tile_end_exclusive: usize,
    pub source_pattern_sha256: String,
    pub width_tiles: usize,
    pub height_tiles: usize,
    pub y_offset_px: usize,
}

/// A run of JP glyph tiles and the Korean text replacing it.
pub struct SegmentDeclaration {
    pub jp: String,
    pub ko: String,
    pub source_tile_start: usize,
    pub source_tile_end_exclusive: usize,
    pub target_cells: usize,
    pub source_sha256: String,
}

/// One timed credit-name line.
pub struct LineDeclaration {
    pub id: String,
    pub page: usize,
    pub jp: String,
    pub ko: String,
    pub ascii_classification: Option<String>,
    pub placement: String,
    pub source_map_order: String,
    pub source_logical_tiles: Vec<usize>,
    pub source_map_offset: String,
    pub source_map_bytes: usize,
    pub source_map_sha256: String,
    pub map_pointer_offset: String,
    pub draw_call_offset: String,
    pub consumer_window_offset: String,
    pub consumer_window_bytes: usize,
    pub consumer_window_sha256: String,
    pub target_map_profile: Option<String>,
    pub target_first_x: Option<String>,
    pub target_x_step: Option<usize>,
    pub count_patch: Option<CountPatchDeclaration>,
    pub draw_count_patches: Vec<CountPatchDeclaration>,
    pub protected_trailing_definition: Option<ProtectedTrailingDefinitionDeclaration>,
    pub segments: Vec<SegmentDeclaration>,
}

/// The timed credit-name asset manifest.
pub struct CreditsTimedManifest {
    pub schema_version: u32,
    pub asset_group_id: String,
    pub source_policy: String,
    pub standalone_ascii_policy: String,
    pub preserved_complete_latin_names: Vec<String>,
    pub font_asset: String,
    pub font_sha256: String,
    pub render_mode: String,
    pub space_width_px: usize,
    pub consumer: ConsumerDeclaration,
    pub target_map_bank: TargetMapBankDeclaration,
    pub lines: Vec<LineDeclaration>,
}

/// A lowercase hexadecimal SHA-256 text.
#[verifier::opaque]
pub open spec fn sha256_text(s: Seq<char>) -> bool {
    &&& byte_len(s) == 64
    &&& forall|i: int| 0 <= i < s.len() ==> ('0' <= #[trigger] s[i] <= '9' || 'a' <= s[i] <= 'f')
}

fn is_sha256_text(value: &String) -> (ok: bool)
    ensures
        ok == sha256_text(value@),
{
    reveal(sha256_text);
    if !has_byte_len(value, 64) {
        return false;
    }
    let text = value.as_str();
    let n = text.unicode_len();
    let mut i: usize = 0;
    while i < n
        invariant
            n == text@.len(),
            text@ == value@,
            i <= n,
            forall|j: int| 0 <= j < i ==> ('0' <= #[trigger] text@[j] <= '9' || 'a' <= text@[j] <= 'f'),
        decreases n - i,
    {
        let c = text.get_char(i);
        if !(('0' <= c && c <= '9') || ('a' <= c && c <= 'f')) {
            assert(!sha256_text(value@)) by {
                reveal(sha256_text);
                assert(!('0' <= value@[i as int] <= '9' || 'a' <= value@[i as int] <= 'f'));
            }
            return false;
        }
        i = i + 1;
    }
    true
}

/// The text is one ASCII letter once surrounding whitespace is trimmed.
#[verifier::opaque]
pub open spec fn single_ascii_letter(s: Seq<char>) -> bool {
    exists|i: int|
        0 <= i < s.len() && !spec_is_whitespace(#[trigger] s[i]) && (('a' <= s[i] <= 'z') || ('A' <= s[i] <= 'Z'))
            && forall|j: int| 0 <= j < s.len() && j != i ==> spec_is_whitespace(s[j])
}

fn is_single_ascii_letter(value: &String) -> (single: bool)
    ensures
        single == single_ascii_letter(value@),
{
    reveal(single_ascii_letter);
    let text = value.as_str();
    let n = text.unicode_len();
    let mut visible: usize = 0;
    let mut at: usize = 0;
    let mut i: usize = 0;
    while i < n
        invariant
            n == text@.len(),
            text@ == value@,
            i <= n,
            visible <= i,
            visible == 0 ==> forall|j: int| 0 <= j < i ==> spec_is_whitespace(text@[j]),
            visible == 1 ==> at < i && !spec_is_whitespace(text@[at as int]) && forall|j: int|
                0 <= j < i && j != at ==> spec_is_whitespace(text@[j]),
            visible >= 2 ==> exists|a: int, b: int|
                0 <= a < b < i && !spec_is_whitespace(text@[a]) && !spec_is_whitespace(text@[b]),
        decreases n - i,
    {
        let c = text.get_char(i);
        if !is_whitespace(c) {
            if visible == 1 {
                assert(!spec_is_whitespace(text@[at as int]) && !spec_is_whitespace(text@[i as int]));
            }
            if visible == 0 {
                at = i;
            }
            if visible < 2 {
                visible = visible + 1;
            }
        }
        i = i + 1;
    }
    if visible != 1 {
        proof {
            if single_ascii_letter(value@) {
                let k = choose|k: int|
                    0 <= k < text@.len() && !spec_is_whitespace(#[trigger] text@[k]) && (('a' <= text@[k] <= 'z') || (
                    'A' <= text@[k] <= 'Z')) && forall|j: int| 0 <= j < text@.len() && j != k ==> spec_is_whitespace(text@[j]);
                if visible >= 2 {
                    let (a, b) = choose|a: int, b: int|
                        0 <= a < b < n && !spec_is_whitespace(text@[a]) && !spec_is_whitespace(text@[b]);
                    if a != k {
                        assert(spec_is_whitespace(text@[a]));
                    } else {
                        assert(spec_is_whitespace(text@[b]));
                    }
                }
            }
        }
        return false;
    }
    let c = text.get_char(at);
    let letter = ('a' <= c && c <= 'z') || ('A' <= c && c <= 'Z');
    proof {
        if letter {
            assert(single_ascii_letter(value@)) by {
                assert(!spec_is_whitespace(text@[at as int]));
            }
        } else if single_ascii_letter(value@) {
            let k = choose|k: int|
                0 <= k < text@.len() && !spec_is_whitespace(#[trigger] text@[k]) && (('a' <= text@[k] <= 'z') || ('A'
                    <= text@[k] <= 'Z')) && forall|j: int| 0 <= j < text@.len() && j != k ==> spec_is_whitespace(text@[j]);
            if k != at {
                assert(spec_is_whitespace(text@[at as int]));
            }
        }
    }
    letter
}

/// The typed 68000 instruction of a count patch holding `count`:
/// `CMPI.W #count, D0` or `MOVE.W #count, d16(A0)`.
pub open spec fn count_instruction(c: CountPatchDeclaration, count: u16) -> Option<Seq<u8>> {
    if c.profile@ == "cmpi_word_d0"@ {
        if c.displacement is None {
            Some(seq![0x0Cu8, 0x40, (count / 256) as u8, (count % 256) as u8])
        } else {
            None
        }
    } else if c.profile@ == "move_word_immediate_to_displacement_a0"@ {
        match c.displacement {
            Some(d) => if hex_fits(d@, 0xFFFF) {
                let v = spec_parse_hex(d@).unwrap();
                Some(seq![0x31u8, 0x7C, (count / 256) as u8, (count % 256) as u8, (v / 256) as u8, (v % 256) as u8])
            } else {
                None
            },
            None => None,
        }
    } else {
        None
    }
}

/// Assemble a count patch's typed instruction holding `count`.
pub fn assemble_count_instruction(c: &CountPatchDeclaration, count: u16) -> (code: Result<Vec<u8>, Error>)
    ensures
        code is Ok <==> count_instruction(*c, count) is Some,
        code matches Ok(v) ==> v@ == count_instruction(*c, count)->0,
{
    if string_is(&c.profile, "cmpi_word_d0") {
        if c.displacement.is_some() {
            return Err("comparison count patch unexpectedly declares a displacement");
        }
        let code = vec![0x0Cu8, 0x40, (count / 256) as u8, (count % 256) as u8];
        assert(code@ =~= count_instruction(*c, count)->0);
        Ok(code)
    } else if string_is(&c.profile, "move_word_immediate_to_displacement_a0") {
        match &c.displacement {
            Some(d) => {
                let v = parse_u16_hex(d.as_str())?;
                let code = vec![0x31u8, 0x7C, (count / 256) as u8, (count % 256) as u8, (v / 256) as u8, (v % 256) as u8];
                assert(code@ =~= count_instruction(*c, count)->0);
                Ok(code)
            },
            None => Err("count-field displacement is absent"),
        }
    } else {
        Err("unsupported typed count profile")
    }
}

fn width_of(text: &str, space_width: usize) -> (width: u128)
    requires
        space_width <= 16,
    ensures
        width == text_width(text@, space_width as int),
{
    let n = text.unicode_len();
    let mut width: u128 = 0;
    let mut i: usize = 0;
    while i < n
        invariant
            n == text@.len(),
            space_width <= 16,
            i <= n,
            width == text_width(text@.take(i as int), space_width as int),
            width <= 16 * i,
        decreases n - i,
    {
        assert(text@.take(i + 1).drop_last() =~= text@.take(i as int));
        let c = text.get_char(i);
        if is_whitespace(c) {
            width = width + space_width as u128;
        } else {
            width = width + 16;
        }
        i = i + 1;
    }
    assert(text@.take(n as int) =~= text@);
    width
}

/// The four-tile glyph cells a segment declares, in order.
pub open spec fn segment_cells(s: SegmentDeclaration) -> Seq<usize> {
    Seq::new(
        ((s.source_tile_end_exclusive - s.source_tile_start) / 4) as nat,
        |k: int| (s.source_tile_start + 4 * k) as usize,
    )
}

/// The glyph cells of the first `n` segments.
pub open spec fn declared_tiles(segments: Seq<SegmentDeclaration>, n: int) -> Seq<usize>
    decreases n,
{
    if n <= 0 {
        Seq::empty()
    } else {
        declared_tiles(segments, n - 1) + segment_cells(segments[n - 1])
    }
}

/// The map's logical tiles other than the blank tile.
pub open spec fn mapped_tiles(tiles: Seq<usize>) -> Seq<usize>
    decreases tiles.len(),
{
    if tiles.len() == 0 {
        Seq::empty()
    } else if tiles.last() == 5 {
        mapped_tiles(tiles.drop_last())
    } else {
        mapped_tiles(tiles.drop_last()).push(tiles.last())
    }
}

/// A segment: non-empty texts that are not single letters, a non-empty run of
/// whole four-tile cells after the previous segment, a Korean text within its
/// cells at native width, and a SHA-256 text.
#[verifier::opaque]
pub open spec fn segment_ok(s: SegmentDeclaration, previous_end: Option<usize>, space_width: int) -> bool {
    &&& s.jp@.len() > 0
    &&& s.ko@.len() > 0
    &&& !single_ascii_letter(s.jp@)
    &&& !single_ascii_letter(s.ko@)
    &&& s.source_tile_end_exclusive > s.source_tile_start
    &&& (s.source_tile_end_exclusive - s.source_tile_start) % 4 == 0
    &&& s.target_cells != 0
    &&& (previous_end matches Some(end) ==> s.source_tile_start >= end)
    &&& text_width(s.ko@, space_width) <= s.target_cells * 16
    &&& sha256_text(s.source_sha256@)
}

/// End of the segment before segment `k`.
pub open spec fn previous_end(segments: Seq<SegmentDeclaration>, k: int) -> Option<usize> {
    if k == 0 {
        None
    } else {
        Some(segments[k - 1].source_tile_end_exclusive)
    }
}

pub open spec fn segments_ok(segments: Seq<SegmentDeclaration>, space_width: int) -> bool {
    forall|k: int| 0 <= k < segments.len() ==> segment_ok(#[trigger] segments[k], previous_end(segments, k), space_width)
}

fn segment_matches(s: &SegmentDeclaration, previous: Option<usize>) -> (ok: bool)
    ensures
        ok == segment_ok(*s, previous, 8),
        ok ==> s.source_tile_end_exclusive > s.source_tile_start,
{
    reveal(segment_ok);
    if s.jp.as_str().unicode_len() == 0 || s.ko.as_str().unicode_len() == 0 || is_single_ascii_letter(&s.jp)
        || is_single_ascii_letter(&s.ko) || s.source_tile_end_exclusive <= s.source_tile_start || (
    s.source_tile_end_exclusive - s.source_tile_start) % 4 != 0 || s.target_cells == 0 {
        return false;
    }
    match previous {
        Some(end) => {
            if s.source_tile_start < end {
                return false;
            }
        },
        None => {},
    }
    width_of(s.ko.as_str(), 8) <= (s.target_cells as u128) * 16 && is_sha256_text(&s.source_sha256)
}

/// Check every segment and gather the glyph cells they declare.
fn segments_match(segments: &Vec<SegmentDeclaration>) -> (declared: Option<Vec<usize>>)
    ensures
        declared is Some <==> segments_ok(segments@, 8),
        declared matches Some(d) ==> d@ == declared_tiles(segments@, segments@.len() as int),
{
    let mut declared: Vec<usize> = Vec::new();
    let mut k: usize = 0;
    while k < segments.len()
        invariant
            k <= segments@.len(),
            declared@ == declared_tiles(segments@, k as int),
            forall|j: int| 0 <= j < k ==> segment_ok(#[trigger] segments@[j], previous_end(segments@, j), 8),
        decreases segments@.len() - k,
    {
        let s = &segments[k];
        let previous = if k == 0 { None } else { Some(segments[k - 1].source_tile_end_exclusive) };
        if !segment_matches(s, previous) {
            return None;
        }
        let start = s.source_tile_start;
        let count = (s.source_tile_end_exclusive - start) / 4;
        let ghost before = declared@;
        let mut c: usize = 0;
        while c < count
            invariant
                s == &segments@[k as int],
                start == s.source_tile_start,
                count == (s.source_tile_end_exclusive - start) / 4,
                start + 4 * count <= s.source_tile_end_exclusive,
                c <= count,
                declared@ == before + segment_cells(*s).take(c as int),
            decreases count - c,
        {
            declared.push(start + 4 * c);
            assert(segment_cells(*s).take(c + 1) =~= segment_cells(*s).take(c as int).push((start + 4 * c) as usize));
            c = c + 1;
        }
        assert(segment_cells(*s).take(count as int) =~= segment_cells(*s));
        k = k + 1;
    }
    Some(declared)
}

fn mapped_of(tiles: &Vec<usize>) -> (mapped: Vec<usize>)
    ensures
        mapped@ == mapped_tiles(tiles@),
{
    let mut mapped: Vec<usize> = Vec::new();
    let mut k: usize = 0;
    while k < tiles.len()
        invariant
            k <= tiles@.len(),
            mapped@ == mapped_tiles(tiles@.take(k as int)),
        decreases tiles@.len() - k,
    {
        assert(tiles@.take(k + 1).drop_last() =~= tiles@.take(k as int));
        if tiles[k] != BLANK_TILE {
            mapped.push(tiles[k]);
        }
        k = k + 1;
    }
    assert(tiles@.take(k as int) =~= tiles@);
    mapped
}

fn usize_vec_equal(a: &Vec<usize>, b: &Vec<usize>) -> (same: bool)
    ensures
        same == (a@ == b@),
{
    crate::sets::usize_slices_equal(a.as_slice(), b.as_slice())
}

/// Line `k`'s fixed id, page, cell count and placement.
pub open spec fn expected_line_ok(l: LineDeclaration, k: int) -> bool {
    &&& k == 0 ==> l.id@ == "GFX-CREDITS-P01-L01"@ && l.page == 1 && l.source_logical_tiles@.len() == 8
        && l.placement@ == "in_place"@
    &&& k == 1 ==> l.id@ == "GFX-CREDITS-P02-L01"@ && l.page == 2 && l.source_logical_tiles@.len() == 5
        && l.placement@ == "relocated"@
    &&& k == 2 ==> l.id@ == "GFX-CREDITS-P02-L02"@ && l.page == 2 && l.source_logical_tiles@.len() == 6
        && l.placement@ == "in_place"@
    &&& k == 3 ==> l.id@ == "GFX-CREDITS-P03-L01"@ && l.page == 3 && l.source_logical_tiles@.len() == 5
        && l.placement@ == "relocated"@
    &&& k == 4 ==> l.id@ == "GFX-CREDITS-P03-L02"@ && l.page == 3 && l.source_logical_tiles@.len() == 5
        && l.placement@ == "relocated"@
    &&& k == 5 ==> l.id@ == "GFX-CREDITS-P05-L01"@ && l.page == 5 && l.source_logical_tiles@.len() == 4
        && l.placement@ == "relocated"@
    &&& k == 6 ==> l.id@ == "GFX-CREDITS-P05-L02"@ && l.page == 5 && l.source_logical_tiles@.len() == 9
        && l.placement@ == "in_place"@
}

/// 1 when the line keeps a protected trailing sprite, else 0.
pub open spec fn protected_count(l: LineDeclaration) -> int {
    if l.protected_trailing_definition is Some {
        1
    } else {
        0
    }
}

/// The embedded-ASCII classification each line declares.
pub open spec fn classification_ok(l: LineDeclaration) -> bool {
    if l.id@ == "GFX-CREDITS-P02-L02"@ || l.id@ == "GFX-CREDITS-P05-L01"@ {
        l.ascii_classification matches Some(c) && c@ == "embedded_mixed_name_token"@
    } else if l.id@ == "GFX-CREDITS-P03-L01"@ {
        l.ascii_classification matches Some(c) && c@ == "protected_embedded_latin_suffix"@
    } else {
        l.ascii_classification is None
    }
}

/// Only `GFX-CREDITS-P03-L01` keeps its JP `ss` sprite, a 2x1-tile record
/// of tiles 61..63, 8 pixels down.
pub open spec fn trailing_ok(l: LineDeclaration) -> bool {
    match l.protected_trailing_definition {
        Some(p) => {
            &&& l.id@ == "GFX-CREDITS-P03-L01"@
            &&& p.text@ == "ss"@
            &&& p.source_tile_start == 61
            &&& p.source_tile_end_exclusive == 63
            &&& p.width_tiles == 2
            &&& p.height_tiles == 1
            &&& p.y_offset_px == 8
            &&& sha256_text(p.source_record_sha256@)
            &&& sha256_text(p.source_pattern_sha256@)
        },
        None => l.id@ != "GFX-CREDITS-P03-L01"@,
    }
}

/// The line's identity, texts, geometry and map size.
pub open spec fn line_basic_ok(l: LineDeclaration, k: int) -> bool {
    &&& expected_line_ok(l, k)
    &&& l.jp@.len() > 0
    &&& l.ko@.len() > 0
    &&& !single_ascii_letter(l.jp@)
    &&& !single_ascii_letter(l.ko@)
    &&& l.source_map_bytes == (l.source_logical_tiles@.len() + protected_count(l)) * 10
    &&& l.consumer_window_bytes != 0
    &&& l.segments@.len() > 0
    &&& (l.source_map_order@ == "left_to_right"@ || l.source_map_order@ == "right_to_left"@)
}

/// Native cells of the first `n` Korean segments.
pub open spec fn cells_upto(segments: Seq<SegmentDeclaration>, n: int) -> int
    decreases n,
{
    if n <= 0 {
        0
    } else {
        cells_upto(segments, n - 1) + segments[n - 1].target_cells
    }
}

/// Native cells of the Korean line: its segments and one blank cell
/// between each two.
pub open spec fn target_cells_total(l: LineDeclaration) -> int {
    cells_upto(l.segments@, l.segments@.len() as int) + l.segments@.len() - 1
}

/// An in-place line keeps its cell count, every segment its own, and
/// declares no relocation.
pub open spec fn in_place_ok(l: LineDeclaration) -> bool {
    &&& target_cells_total(l) == l.source_logical_tiles@.len()
    &&& l.target_map_profile is None
    &&& l.target_first_x is None
    &&& l.target_x_step is None
    &&& l.count_patch is None
    &&& l.draw_count_patches@.len() == 0
    &&& forall|k: int|
        0 <= k < l.segments@.len() ==> ((#[trigger] l.segments@[k]).source_tile_end_exclusive
            - l.segments@[k].source_tile_start) / 4 == l.segments@[k].target_cells
}

/// The typed patch at `offset` lies inside the line's consumer window.
pub open spec fn in_window(l: LineDeclaration, offset: Seq<char>, bytes: int) -> bool {
    &&& hex_fits(offset, usize::MAX as nat)
    &&& hex_fits(l.consumer_window_offset@, usize::MAX as nat)
    &&& spec_parse_hex(l.consumer_window_offset@).unwrap() <= spec_parse_hex(offset).unwrap()
    &&& spec_parse_hex(offset).unwrap() + bytes <= spec_parse_hex(l.consumer_window_offset@).unwrap()
        + l.consumer_window_bytes
}

/// A typed count patch with the counts of `c` whose instruction lies in the
/// consumer window.
pub open spec fn count_patch_ok(l: LineDeclaration, d: CountPatchDeclaration, source_count: u16, target_count: u16) -> bool {
    &&& d.source_count == source_count
    &&& d.target_count == target_count
    &&& count_instruction(d, d.source_count) is Some
    &&& in_window(l, d.offset@, count_instruction(d, d.source_count)->0.len() as int)
}

/// The relocated map's layout profile.
pub open spec fn profile_ok(l: LineDeclaration) -> bool {
    match l.target_map_profile {
        Some(p) => if p@ == "static_centered_right_to_left"@ {
            &&& l.source_map_order@ == "right_to_left"@
            &&& (l.target_first_x matches Some(x) && hex_fits(x@, 0xFFFF))
            &&& (l.target_x_step matches Some(step) && step != 0)
        } else if p@ == "consumer_positioned_left_to_right"@ {
            &&& l.source_map_order@ == "left_to_right"@
            &&& l.target_first_x is None
            &&& l.target_x_step is None
        } else {
            false
        },
        None => false,
    }
}

/// A relocated line's typed count patches and map profile.
pub open spec fn relocated_ok(l: LineDeclaration) -> bool {
    match l.count_patch {
        Some(c) => {
            &&& c.source_count == l.source_logical_tiles@.len() + protected_count(l)
            &&& c.target_count == target_cells_total(l) + protected_count(l)
            &&& count_patch_ok(l, c, c.source_count, c.target_count)
            &&& forall|k: int|
                0 <= k < l.draw_count_patches@.len() ==> count_patch_ok(
                    l,
                    #[trigger] l.draw_count_patches@[k],
                    c.source_count,
                    c.target_count,
                )
            &&& profile_ok(l)
        },
        None => false,
    }
}

/// Every check of name line `k`.
pub open spec fn line_ok(l: LineDeclaration, k: int, font_sha256: Seq<char>) -> bool {
    &&& line_basic_ok(l, k)
    &&& classification_ok(l)
    &&& trailing_ok(l)
    &&& sha256_text(l.source_map_sha256@)
    &&& sha256_text(l.consumer_window_sha256@)
    &&& sha256_text(font_sha256)
    &&& segments_ok(l.segments@, 8)
    &&& mapped_tiles(l.source_logical_tiles@) == declared_tiles(l.segments@, l.segments@.len() as int)
    &&& (l.placement@ == "in_place"@ ==> in_place_ok(l))
    &&& (l.placement@ == "relocated"@ ==> relocated_ok(l))
}

/// Every fixed fact the timed credit-name manifest must declare.
pub open spec fn manifest_shape_ok(m: CreditsTimedManifest) -> bool {
    let names = m.preserved_complete_latin_names@;
    &&& m.schema_version == 3
    &&& m.asset_group_id@ == "GFX-CREDITS-TIMED-CELLS"@
    &&& seq_contains_run(m.source_policy@, "English VWF"@)
    &&& m.standalone_ascii_policy@ == "preserve_unmapped_standalone_ascii_escape_doors_owned_by_escape_doors_manifest"@
    &&& names.len() == 3
    &&& names[0]@ == "Jemini"@
    &&& names[1]@ == "RIU"@
    &&& names[2]@ == "TAKIN"@
    &&& m.font_asset@ == "neodgm.ttf"@
    &&& byte_len(m.font_sha256@) == 64
    &&& m.render_mode@ == "jp_native_16x16_no_horizontal_scaling"@
    &&& m.space_width_px == 8
    &&& m.lines@.len() == 7
    &&& hex_is(m.consumer.draw_target@, 0x1856)
    &&& m.consumer.definition_count == 1
    &&& m.consumer.definition_record_bytes == 8
    &&& hex_is(m.consumer.tile_index_mask@, 0x07FF)
    &&& m.consumer.glyph_tiles == 4
    &&& m.consumer.blank_tile == 5
    &&& hex_is(m.target_map_bank.offset@, 0x2F_8000)
    &&& hex_is(m.target_map_bank.limit@, 0x30_0000)
    &&& hex_is(m.target_map_bank.fill_byte@, 0xFF)
    &&& forall|k: int| 0 <= k < 7 ==> line_ok(#[trigger] m.lines@[k], k, m.font_sha256@)
}

fn expected_matches(l: &LineDeclaration, k: usize) -> (ok: bool)
    requires
        k < 7,
    ensures
        ok == expected_line_ok(*l, k as int),
{
    let n = l.source_logical_tiles.len();
    let ok = if k == 0 {
        string_is(&l.id, "GFX-CREDITS-P01-L01") && l.page == 1 && n == 8 && string_is(&l.placement, "in_place")
    } else if k == 1 {
        string_is(&l.id, "GFX-CREDITS-P02-L01") && l.page == 2 && n == 5 && string_is(&l.placement, "relocated")
    } else if k == 2 {
        string_is(&l.id, "GFX-CREDITS-P02-L02") && l.page == 2 && n == 6 && string_is(&l.placement, "in_place")
    } else if k == 3 {
        string_is(&l.id, "GFX-CREDITS-P03-L01") && l.page == 3 && n == 5 && string_is(&l.placement, "relocated")
    } else if k == 4 {
        string_is(&l.id, "GFX-CREDITS-P03-L02") && l.page == 3 && n == 5 && string_is(&l.placement, "relocated")
    } else if k == 5 {
        string_is(&l.id, "GFX-CREDITS-P05-L01") && l.page == 5 && n == 4 && string_is(&l.placement, "relocated")
    } else {
        string_is(&l.id, "GFX-CREDITS-P05-L02") && l.page == 5 && n == 9 && string_is(&l.placement, "in_place")
    };
    ok
}

fn classification_matches(l: &LineDeclaration) -> (ok: bool)
    ensures
        ok == classification_ok(*l),
{
    if string_is(&l.id, "GFX-CREDITS-P02-L02") || string_is(&l.id, "GFX-CREDITS-P05-L01") {
        match &l.ascii_classification {
            Some(c) => string_is(c, "embedded_mixed_name_token"),
            None => false,
        }
    } else if string_is(&l.id, "GFX-CREDITS-P03-L01") {
        match &l.ascii_classification {
            Some(c) => string_is(c, "protected_embedded_latin_suffix"),
            None => false,
        }
    } else {
        l.ascii_classification.is_none()
    }
}

fn trailing_matches(l: &LineDeclaration) -> (ok: bool)
    ensures
        ok == trailing_ok(*l),
{
    match &l.protected_trailing_definition {
        Some(p) => string_is(&l.id, "GFX-CREDITS-P03-L01") && string_is(&p.text, "ss") && p.source_tile_start == 61
            && p.source_tile_end_exclusive == 63 && p.width_tiles == 2 && p.height_tiles == 1 && p.y_offset_px == 8
            && is_sha256_text(&p.source_record_sha256) && is_sha256_text(&p.source_pattern_sha256),
        None => !string_is(&l.id, "GFX-CREDITS-P03-L01"),
    }
}

fn basic_matches(l: &LineDeclaration, k: usize) -> (ok: bool)
    requires
        k < 7,
    ensures
        ok == line_basic_ok(*l, k as int),
{
    if !expected_matches(l, k) || l.jp.as_str().unicode_len() == 0 || l.ko.as_str().unicode_len() == 0
        || is_single_ascii_letter(&l.jp) || is_single_ascii_letter(&l.ko) {
        return false;
    }
    let protected: usize = if l.protected_trailing_definition.is_some() { 1 } else { 0 };
    let tiles = l.source_logical_tiles.len();
    assert(tiles <= 9);
    l.source_map_bytes == (tiles + protected) * DEFINITION_BYTES && l.consumer_window_bytes != 0 && l.segments.len() > 0
        && (string_is(&l.source_map_order, "left_to_right") || string_is(&l.source_map_order, "right_to_left"))
}

fn total_cells(l: &LineDeclaration) -> (total: Option<usize>)
    requires
        l.segments@.len() > 0,
    ensures
        total matches Some(t) ==> t == target_cells_total(*l),
        total is None ==> target_cells_total(*l) > usize::MAX,
{
    let mut sum: usize = 0;
    let mut k: usize = 0;
    while k < l.segments.len()
        invariant
            k <= l.segments@.len(),
            sum == cells_upto(l.segments@, k as int),
        decreases l.segments@.len() - k,
    {
        if sum > usize::MAX - l.segments[k].target_cells {
            proof {
                lemma_cells_grow(l.segments@, k + 1, l.segments@.len() as int);
            }
            return None;
        }
        sum = sum + l.segments[k].target_cells;
        k = k + 1;
    }
    if sum > usize::MAX - (l.segments.len() - 1) {
        return None;
    }
    Some(sum + (l.segments.len() - 1))
}

proof fn lemma_cells_grow(segments: Seq<SegmentDeclaration>, n: int, m: int)
    requires
        0 <= n <= m,
    ensures
        cells_upto(segments, n) <= cells_upto(segments, m),
    decreases m - n,
{
    if n < m {
        lemma_cells_grow(segments, n, m - 1);
    }
}

fn in_place_matches(l: &LineDeclaration) -> (ok: bool)
    requires
        l.segments@.len() > 0,
    ensures
        ok == in_place_ok(*l),
{
    let _tiles = l.source_logical_tiles.len();
    match total_cells(l) {
        Some(t) => {
            if t != l.source_logical_tiles.len() {
                return false;
            }
        },
        None => {
            return false;
        },
    }
    if l.target_map_profile.is_some() || l.target_first_x.is_some() || l.target_x_step.is_some()
        || l.count_patch.is_some() || l.draw_count_patches.len() != 0 {
        return false;
    }
    let mut k: usize = 0;
    while k < l.segments.len()
        invariant
            k <= l.segments@.len(),
            forall|j: int|
                0 <= j < k ==> ((#[trigger] l.segments@[j]).source_tile_end_exclusive - l.segments@[j].source_tile_start) / 4
                    == l.segments@[j].target_cells,
        decreases l.segments@.len() - k,
    {
        let s = &l.segments[k];
        if s.source_tile_end_exclusive < s.source_tile_start || (s.source_tile_end_exclusive - s.source_tile_start) / 4
            != s.target_cells {
            return false;
        }
        k = k + 1;
    }
    true
}

fn window_holds(l: &LineDeclaration, offset: &String, bytes: usize) -> (ok: bool)
    ensures
        ok == in_window(*l, offset@, bytes as int),
{
    let at = match parse_hex(offset.as_str()) {
        Ok(v) => v,
        Err(_) => {
            return false;
        },
    };
    let start = match parse_hex(l.consumer_window_offset.as_str()) {
        Ok(v) => v,
        Err(_) => {
            return false;
        },
    };
    at >= start && (at - start) as u128 + bytes as u128 <= l.consumer_window_bytes as u128
}

fn count_patch_matches(l: &LineDeclaration, d: &CountPatchDeclaration, source_count: u16, target_count: u16) -> (ok: bool)
    ensures
        ok == count_patch_ok(*l, *d, source_count, target_count),
{
    if d.source_count != source_count || d.target_count != target_count {
        return false;
    }
    match assemble_count_instruction(d, d.source_count) {
        Ok(code) => window_holds(l, &d.offset, code.len()),
        Err(_) => false,
    }
}

fn profile_matches(l: &LineDeclaration) -> (ok: bool)
    ensures
        ok == profile_ok(*l),
{
    match &l.target_map_profile {
        Some(p) => {
            if string_is(p, "static_centered_right_to_left") {
                string_is(&l.source_map_order, "right_to_left") && match &l.target_first_x {
                    Some(x) => parse_u16_hex(x.as_str()).is_ok(),
                    None => false,
                } && match l.target_x_step {
                    Some(step) => step != 0,
                    None => false,
                }
            } else if string_is(p, "consumer_positioned_left_to_right") {
                string_is(&l.source_map_order, "left_to_right") && l.target_first_x.is_none() && l.target_x_step.is_none()
            } else {
                false
            }
        },
        None => false,
    }
}

fn relocated_matches(l: &LineDeclaration) -> (ok: bool)
    requires
        l.segments@.len() > 0,
        l.source_logical_tiles@.len() <= 9,
    ensures
        ok == relocated_ok(*l),
{
    let c = match &l.count_patch {
        Some(c) => c,
        None => {
            return false;
        },
    };
    let protected: usize = if l.protected_trailing_definition.is_some() { 1 } else { 0 };
    let total = match total_cells(l) {
        Some(t) => t,
        None => {
            return false;
        },
    };
    if c.source_count as usize != l.source_logical_tiles.len() + protected || c.target_count as u128 != total as u128
        + protected as u128 {
        return false;
    }
    if !count_patch_matches(l, c, c.source_count, c.target_count) {
        return false;
    }
    let mut k: usize = 0;
    while k < l.draw_count_patches.len()
        invariant
            l.count_patch == Some(*c),
            k <= l.draw_count_patches@.len(),
            forall|j: int|
                0 <= j < k ==> count_patch_ok(*l, #[trigger] l.draw_count_patches@[j], c.source_count, c.target_count),
        decreases l.draw_count_patches@.len() - k,
    {
        if !count_patch_matches(l, &l.draw_count_patches[k], c.source_count, c.target_count) {
            return false;
        }
        k = k + 1;
    }
    profile_matches(l)
}

/// Check name line `k` of the manifest.
fn line_matches(l: &LineDeclaration, k: usize, font_sha256: &String) -> (ok: bool)
    requires
        k < 7,
    ensures
        ok == line_ok(*l, k as int, font_sha256@),
{
    if !basic_matches(l, k) || !classification_matches(l) || !trailing_matches(l) || !is_sha256_text(
        &l.source_map_sha256,
    ) || !is_sha256_text(&l.consumer_window_sha256) || !is_sha256_text(font_sha256) {
        return false;
    }
    let declared = match segments_match(&l.segments) {
        Some(d) => d,
        None => {
            return false;
        },
    };
    let mapped = mapped_of(&l.source_logical_tiles);
    if !usize_vec_equal(&mapped, &declared) {
        return false;
    }
    proof {
        reveal_strlit("in_place");
        reveal_strlit("relocated");
        assert(expected_line_ok(*l, k as int));
        assert(l.placement@ == "in_place"@ || l.placement@ == "relocated"@);
        assert("in_place"@ != "relocated"@) by {
            assert("in_place"@[0] != "relocated"@[0]);
        }
        assert(l.source_logical_tiles@.len() <= 9);
    }
    if string_is(&l.placement, "in_place") {
        in_place_matches(l)
    } else {
        relocated_matches(l)
    }
}

/// Refuse a manifest whose identity, consumer, map bank or any name line
/// drifted from the JP credits.
pub fn validate_manifest_shape(manifest: &CreditsTimedManifest) -> (result: Result<(), Error>)
    ensures
        result is Ok <==> manifest_shape_ok(*manifest),
{
    let names = &manifest.preserved_complete_latin_names;
    if manifest.schema_version != 3 || !string_is(&manifest.asset_group_id, "GFX-CREDITS-TIMED-CELLS") || !str_contains(
        manifest.source_policy.as_str(),
        "English VWF",
    ) || !string_is(
        &manifest.standalone_ascii_policy,
        "preserve_unmapped_standalone_ascii_escape_doors_owned_by_escape_doors_manifest",
    ) || names.len() != 3 || !string_is(&names[0], "Jemini") || !string_is(&names[1], "RIU") || !string_is(
        &names[2],
        "TAKIN",
    ) || !string_is(&manifest.font_asset, "neodgm.ttf") || !has_byte_len(&manifest.font_sha256, 64) || !string_is(
        &manifest.render_mode,
        "jp_native_16x16_no_horizontal_scaling",
    ) || manifest.space_width_px != 8 || manifest.lines.len() != LINE_COUNT {
        return Err("timed credit-name manifest identity drifted");
    }
    let c = &manifest.consumer;
    if !hex_equals(&c.draw_target, DRAW_TARGET) || c.definition_count != 1 || c.definition_record_bytes != 8
        || !hex_equals(&c.tile_index_mask, 0x07FF) || c.glyph_tiles != GLYPH_TILES || c.blank_tile != BLANK_TILE {
        return Err("timed credit-name consumer declaration drifted");
    }
    let b = &manifest.target_map_bank;
    if !hex_equals(&b.offset, MAP_BANK_OFFSET) || !hex_equals(&b.limit, MAP_BANK_LIMIT) || !hex_equals(&b.fill_byte, 0xFF) {
        return Err("timed credit-name target map bank drifted");
    }
    let mut k: usize = 0;
    while k < LINE_COUNT
        invariant
            manifest.lines@.len() == 7,
            k <= 7,
            forall|j: int| 0 <= j < k ==> line_ok(#[trigger] manifest.lines@[j], j, manifest.font_sha256@),
        decreases 7 - k,
    {
        if !line_matches(&manifest.lines[k], k, &manifest.font_sha256) {
            return Err("timed credit-name line identity, geometry or patch policy drifted");
        }
        k = k + 1;
    }
    Ok(())
}

/// `LEA address.l, A2`.
pub open spec fn lea_a2(address: nat) -> Seq<u8> {
    seq![
        0x45u8,
        0xF9,
        ((address / 0x100_0000) % 256) as u8,
        ((address / 0x1_0000) % 256) as u8,
        ((address / 0x100) % 256) as u8,
        (address % 256) as u8,
    ]
}

/// `JSR 0x00001856.l`, the JP sprite-draw call.
pub open spec fn jsr_draw() -> Seq<u8> {
    seq![0x4Eu8, 0xB9, 0x00, 0x00, 0x18, 0x56]
}

fn lea_a2_code(address: usize) -> (code: Vec<u8>)
    requires
        address <= u32::MAX,
    ensures
        code@ == lea_a2(address as nat),
{
    let code = vec![
        0x45u8,
        0xF9,
        ((address / 0x100_0000) % 256) as u8,
        ((address / 0x1_0000) % 256) as u8,
        ((address / 0x100) % 256) as u8,
        (address % 256) as u8,
    ];
    assert(code@ =~= lea_a2(address as nat));
    code
}

/// The logical tiles in the order the JP sprite records list them.
pub open spec fn record_tiles(l: LineDeclaration) -> Option<Seq<usize>> {
    if l.source_map_order@ == "left_to_right"@ {
        Some(l.source_logical_tiles@)
    } else if l.source_map_order@ == "right_to_left"@ {
        Some(l.source_logical_tiles@.reverse())
    } else {
        None
    }
}

/// Record `k` of a sprite map: one 2x2 sprite at y 0x78 drawing `tile`.
pub open spec fn record_ok(map: Seq<u8>, k: int, tile: usize) -> bool {
    let at = k * 10;
    &&& be16(map, at) == 1
    &&& be16(map, at + 2) == 0x0078
    &&& (be16(map, at + 4) as u16) & 0x0F00 == 0x0500
    &&& (be16(map, at + 6) as u16) & 0xF800 == 0
    &&& (be16(map, at + 6) as u16) & 0x07FF == tile
}

/// A line's sprite map: one record per tile, then the protected record
/// when the line keeps one.
pub open spec fn declared_map_ok(map: Seq<u8>, tiles: Seq<usize>, l: LineDeclaration) -> bool {
    &&& map.len() == (tiles.len() + protected_count(l)) * 10
    &&& forall|k: int| 0 <= k < tiles.len() ==> record_ok(map, k, #[trigger] tiles[k])
    &&& (l.protected_trailing_definition matches Some(p) ==> sha256_hex_of(
        map.subrange((tiles.len() * 10) as int, map.len() as int),
    ) == p.source_record_sha256@)
}

/// The line's tiles in the JP record order.
pub fn map_record_tiles(l: &LineDeclaration) -> (tiles: Result<Vec<usize>, Error>)
    ensures
        tiles is Ok <==> record_tiles(*l) is Some,
        tiles matches Ok(t) ==> t@ == record_tiles(*l)->0,
{
    if string_is(&l.source_map_order, "left_to_right") {
        Ok(l.source_logical_tiles.clone())
    } else if string_is(&l.source_map_order, "right_to_left") {
        let n = l.source_logical_tiles.len();
        let mut reversed: Vec<usize> = Vec::with_capacity(n);
        let mut k: usize = 0;
        while k < n
            invariant
                n == l.source_logical_tiles@.len(),
                k <= n,
                reversed@.len() == k,
                forall|j: int| 0 <= j < k ==> #[trigger] reversed@[j] == l.source_logical_tiles@[n - 1 - j],
            decreases n - k,
        {
            reversed.push(l.source_logical_tiles[n - 1 - k]);
            k = k + 1;
        }
        assert(reversed@ =~= l.source_logical_tiles@.reverse());
        Ok(reversed)
    } else {
        Err("unsupported source map order")
    }
}

/// Check each record of a sprite map against its declared tile.
pub fn validate_map_records(map: &[u8], tiles: &[usize]) -> (result: Result<(), Error>)
    ensures
        result is Ok <==> (map@.len() == tiles@.len() * 10 && forall|k: int|
            0 <= k < tiles@.len() ==> record_ok(map@, k, #[trigger] tiles@[k])),
{
    let n = map.len();
    if tiles.len() > n / DEFINITION_BYTES || n != tiles.len() * DEFINITION_BYTES {
        return Err("credit-name map length drifted");
    }
    let mut k: usize = 0;
    while k < tiles.len()
        invariant
            n == map@.len(),
            map@.len() == tiles@.len() * 10,
            k <= tiles@.len(),
            forall|j: int| 0 <= j < k ==> record_ok(map@, j, #[trigger] tiles@[j]),
        decreases tiles@.len() - k,
    {
        assert(k * 10 + 10 <= map@.len()) by (nonlinear_arith)
            requires
                k < tiles@.len(),
                map@.len() == tiles@.len() * 10,
        ;
        let at = k * DEFINITION_BYTES;
        let count = read_be16(map, at);
        let y = read_be16(map, at + 2);
        let size_link = read_be16(map, at + 4);
        let tile_word = read_be16(map, at + 6);
        if count != 1 || y != 0x0078 || size_link & 0x0F00 != 0x0500 || tile_word & 0xF800 != 0 || (tile_word & 0x07FF)
            as usize != tiles[k] {
            assert(!record_ok(map@, k as int, tiles@[k as int]));
            return Err("credit-name definition is not its declared one-cell 2x2 sprite");
        }
        k = k + 1;
    }
    Ok(())
}

/// Check a line's sprite map: its records, then its protected record.
pub fn validate_declared_map(map: &[u8], tiles: &[usize], l: &LineDeclaration) -> (result: Result<(), Error>)
    ensures
        result is Ok <==> declared_map_ok(map@, tiles@, *l),
{
    let protected: usize = if l.protected_trailing_definition.is_some() { 1 } else { 0 };
    if map.len() as u128 != (tiles.len() as u128 + protected as u128) * 10 {
        return Err("credit-name map length drifted");
    }
    let visible = tiles.len() * DEFINITION_BYTES;
    validate_map_records(&map[0..visible], tiles)?;
    proof {
        assert forall|k: int| 0 <= k < tiles@.len() implies record_ok(map@, k, #[trigger] tiles@[k]) == record_ok(
            map@.subrange(0, visible as int),
            k,
            tiles@[k],
        ) by {
            assert(k * 10 + 10 <= visible) by (nonlinear_arith)
                requires
                    k < tiles@.len(),
                    visible == tiles@.len() * 10,
            ;
        }
    }
    match &l.protected_trailing_definition {
        Some(p) => {
            let record = &map[visible..map.len()];
            let hash = sha256_hex(record);
            if !crate::text::str_eq(hash.as_str(), p.source_record_sha256.as_str()) {
                return Err("credit-name protected trailing sprite record drifted");
            }
        },
        None => {},
    }
    Ok(())
}

/// `bytes` stand in the ROM at `offset`.
pub open spec fn rom_has(rom: Seq<u8>, offset: int, bytes: Seq<u8>) -> bool {
    rom.len() >= offset + bytes.len() && rom.subrange(offset, offset + bytes.len()) == bytes
}

/// A count patch's typed source instruction stands in the ROM.
pub open spec fn count_source_present(rom: Seq<u8>, c: CountPatchDeclaration) -> bool {
    &&& count_instruction(c, c.source_count) is Some
    &&& hex_fits(c.offset@, usize::MAX as nat)
    &&& rom_has(rom, spec_parse_hex(c.offset@).unwrap() as int, count_instruction(c, c.source_count)->0)
}

/// The line's JP sprite map, consumer window, typed map pointer, draw call
/// and count instructions are the declared ones.
pub open spec fn consumer_ok(rom: Seq<u8>, l: LineDeclaration) -> bool {
    let m = spec_parse_hex(l.source_map_offset@).unwrap() as int;
    let w = spec_parse_hex(l.consumer_window_offset@).unwrap() as int;
    let p = spec_parse_hex(l.map_pointer_offset@).unwrap() as int;
    let d = spec_parse_hex(l.draw_call_offset@).unwrap() as int;
    let map = rom.subrange(m, m + l.source_map_bytes);
    &&& hex_fits(l.source_map_offset@, usize::MAX as nat)
    &&& rom.len() >= m + l.source_map_bytes
    &&& sha256_hex_of(map) == l.source_map_sha256@
    &&& record_tiles(l) is Some
    &&& declared_map_ok(map, record_tiles(l)->0, l)
    &&& hex_fits(l.consumer_window_offset@, usize::MAX as nat)
    &&& rom.len() >= w + l.consumer_window_bytes
    &&& sha256_hex_of(rom.subrange(w, w + l.consumer_window_bytes)) == l.consumer_window_sha256@
    &&& m <= u32::MAX
    &&& hex_fits(l.map_pointer_offset@, usize::MAX as nat)
    &&& rom_has(rom, p, lea_a2(m as nat))
    &&& hex_fits(l.draw_call_offset@, usize::MAX as nat)
    &&& rom_has(rom, d, jsr_draw())
    &&& w <= p && p + 6 <= w + l.consumer_window_bytes
    &&& w <= d && d + 6 <= w + l.consumer_window_bytes
    &&& (l.count_patch matches Some(c) ==> count_source_present(rom, c))
    &&& forall|k: int| 0 <= k < l.draw_count_patches@.len() ==> count_source_present(rom, #[trigger] l.draw_count_patches@[k])
}

fn rom_holds(rom: &[u8], offset: usize, bytes: &[u8]) -> (ok: bool)
    ensures
        ok == rom_has(rom@, offset as int, bytes@),
{
    match source_range(rom, offset, bytes.len()) {
        Ok(actual) => bytes_equal(actual, bytes),
        Err(_) => false,
    }
}

fn count_source_holds(rom: &[u8], c: &CountPatchDeclaration) -> (ok: bool)
    ensures
        ok == count_source_present(rom@, *c),
{
    let code = match assemble_count_instruction(c, c.source_count) {
        Ok(code) => code,
        Err(_) => {
            return false;
        },
    };
    match parse_hex(c.offset.as_str()) {
        Ok(offset) => rom_holds(rom, offset, code.as_slice()),
        Err(_) => false,
    }
}

/// Check a name line's JP sprite map and its consumer: the map's hash and
/// records, the consumer window's hash, the typed map pointer and draw call
/// inside the window, and the typed count instructions.
pub fn validate_consumer(rom: &[u8], l: &LineDeclaration) -> (result: Result<(), Error>)
    ensures
        result is Ok <==> consumer_ok(rom@, *l),
{
    let map_offset = parse_hex(l.source_map_offset.as_str())?;
    let map = source_range(rom, map_offset, l.source_map_bytes)?;
    let hash = sha256_hex(map);
    if !crate::text::str_eq(hash.as_str(), l.source_map_sha256.as_str()) {
        return Err("credit-name sprite-definition SHA-256 drifted");
    }
    let tiles = map_record_tiles(l)?;
    validate_declared_map(map, tiles.as_slice(), l)?;
    let window = parse_hex(l.consumer_window_offset.as_str())?;
    let consumer = source_range(rom, window, l.consumer_window_bytes)?;
    let hash = sha256_hex(consumer);
    if !crate::text::str_eq(hash.as_str(), l.consumer_window_sha256.as_str()) {
        return Err("credit-name consumer window drifted");
    }
    if map_offset > 0xFFFF_FFFF {
        return Err("credit-name map address does not fit in 32 bits");
    }
    let pointer = lea_a2_code(map_offset);
    let pointer_offset = parse_hex(l.map_pointer_offset.as_str())?;
    if !rom_holds(rom, pointer_offset, pointer.as_slice()) {
        return Err("credit-name typed map-pointer instruction drifted");
    }
    let draw = vec![0x4Eu8, 0xB9, 0x00, 0x00, 0x18, 0x56];
    assert(draw@ =~= jsr_draw());
    let draw_offset = parse_hex(l.draw_call_offset.as_str())?;
    if !rom_holds(rom, draw_offset, draw.as_slice()) {
        return Err("credit-name typed sprite-draw call drifted");
    }
    let end = window as u128 + l.consumer_window_bytes as u128;
    if pointer_offset < window || pointer_offset as u128 + 6 > end || draw_offset < window || draw_offset as u128 + 6 > end {
        return Err("credit-name typed bindings escape the declared consumer window");
    }
    match &l.count_patch {
        Some(c) => {
            if !count_source_holds(rom, c) {
                return Err("credit-name typed count instruction drifted");
            }
        },
        None => {},
    }
    let mut k: usize = 0;
    while k < l.draw_count_patches.len()
        invariant
            k <= l.draw_count_patches@.len(),
            forall|j: int| 0 <= j < k ==> count_source_present(rom@, #[trigger] l.draw_count_patches@[j]),
        decreases l.draw_count_patches@.len() - k,
    {
        if !count_source_holds(rom, &l.draw_count_patches[k]) {
            return Err("credit-name typed draw-count instruction drifted");
        }
        k = k + 1;
    }
    Ok(())
}

/// The Korean segment's surface: the line centred on `target_cells` native
/// cells, ink 15 on 0.
pub open spec fn segment_surface(glyphs: Seq<NativeGlyph>, seg: SegmentDeclaration) -> Seq<u8> {
    let width = seg.target_cells * 16;
    Seq::new(
        (width * 16) as nat,
        |i: int| line_pixel(glyphs, seg.ko@, width, (width - text_width(seg.ko@, 8)) / 2, 8, 0, 15, seg.ko@.len() as int, i),
    )
}

/// The column-major tiles of the Korean segment.
pub open spec fn segment_tiles(glyphs: Seq<NativeGlyph>, seg: SegmentDeclaration) -> Seq<u8> {
    let width = seg.target_cells * 16;
    Seq::new((width * 8) as nat, |j: int| column_major_byte(segment_surface(glyphs, seg), width, 16, j))
}

/// The segment can be drawn: it has a glyph for every visible character,
/// visible glyphs, a line within its cells, and tiles of roles 0 and 15.
pub open spec fn segment_renders(glyphs: Seq<NativeGlyph>, seg: SegmentDeclaration) -> bool {
    &&& seg.target_cells > 0
    &&& glyphs_cover(glyphs, seg.ko@)
    &&& text_width(seg.ko@, 8) <= seg.target_cells * 16
    &&& line_glyphs_visible(glyphs, seg.ko@)
    &&& nibble_roles_are(segment_tiles(glyphs, seg), seq![0usize, 15])
}

proof fn lemma_segment_two_roles(glyphs: Seq<NativeGlyph>, text: Seq<char>, width: int, start: int, k: int, i: int)
    ensures
        line_pixel(glyphs, text, width, start, 8, 0, 15, k, i) < 16,
    decreases k,
{
    if k > 0 {
        lemma_segment_two_roles(glyphs, text, width, start, k - 1, i);
    }
}

/// Draw a Korean segment on its native cells and encode it as column-major
/// tiles of roles 0 and 15.
#[verifier::spinoff_prover]
#[verifier::rlimit(30)]
pub fn render_segment(glyphs: &[NativeGlyph], seg: &SegmentDeclaration) -> (tiles: Result<Vec<u8>, Error>)
    requires
        seg.target_cells * 256 <= usize::MAX,
    ensures
        tiles is Ok <==> segment_renders(glyphs@, *seg),
        tiles matches Ok(t) ==> t@ == segment_tiles(glyphs@, *seg),
{
    let width = seg.target_cells * 16;
    if width == 0 {
        return Err("credit segment has no native cells");
    }
    if !covers_text(glyphs, seg.ko.as_str()) {
        return Err("credit segment has no glyph for a Korean character");
    }
    if width_of(seg.ko.as_str(), 8) > width as u128 {
        return Err("credit segment is wider than its native cells");
    }
    proof {
        lemma_text_width_lower(seg.ko@);
    }
    let surface = render_native_text_line(glyphs, seg.ko.as_str(), width, 8, 0, 15)?;
    assert(surface@ =~= segment_surface(glyphs@, *seg));
    proof {
        assert forall|i: int| 0 <= i < surface@.len() implies #[trigger] surface@[i] < 16 by {
            lemma_segment_two_roles(
                glyphs@,
                seg.ko@,
                width as int,
                (width - text_width(seg.ko@, 8)) / 2,
                seg.ko@.len() as int,
                i,
            );
        }
    }
    let encoded = match encode_md_tiles_column_major(surface.as_slice(), width, 16) {
        Ok(e) => e,
        Err(e) => {
            return Err(e);
        },
    };
    assert(encoded@ =~= segment_tiles(glyphs@, *seg));
    let roles: [usize; 2] = [0, 15];
    assert(roles@ == seq![0usize, 15]);
    if !nibble_roles_match(encoded.as_slice(), roles.as_slice()) {
        return Err("credit segment uses unexpected palette roles");
    }
    Ok(encoded)
}

proof fn lemma_text_width_lower(chars: Seq<char>)
    ensures
        text_width(chars, 8) >= 8 * chars.len(),
    decreases chars.len(),
{
    if chars.len() > 0 {
        lemma_text_width_lower(chars.drop_last());
    }
}

/// Pixel `i` of a name line drawn from the glyph cells `tiles` of a page
/// transfer: blank cells draw role 0.
pub open spec fn line_surface_pixel(payload: Seq<u8>, tiles: Seq<usize>, i: int) -> u8 {
    let width = (tiles.len() * 16) as int;
    let x = i % width;
    let y = i / width;
    let t = tiles[x / 16];
    if t == 5 {
        0
    } else {
        column_major_pixel_value(payload.subrange(t * 32, t * 32 + 128), 16, 16, y * 16 + x % 16)
    }
}

/// Every non-blank glyph cell lies inside the page transfer.
pub open spec fn line_cells_present(payload: Seq<u8>, tiles: Seq<usize>) -> bool {
    forall|c: int| 0 <= c < tiles.len() && #[trigger] tiles[c] != 5 ==> tiles[c] * 32 + 128 <= payload.len()
}

/// Draw a name line from its glyph cells in a page transfer.
#[verifier::spinoff_prover]
#[verifier::rlimit(30)]
pub fn extract_line_surface(payload: &[u8], tiles: &[usize]) -> (surface: Result<Vec<u8>, Error>)
    requires
        tiles@.len() * 256 <= usize::MAX,
    ensures
        surface is Ok <==> line_cells_present(payload@, tiles@),
        surface matches Ok(s) ==> s@.len() == tiles@.len() * 256 && forall|i: int|
            0 <= i < s@.len() ==> #[trigger] s@[i] == line_surface_pixel(payload@, tiles@, i),
{
    let n = tiles.len();
    let mut c: usize = 0;
    while c < n
        invariant
            n == tiles@.len(),
            c <= n,
            forall|j: int| 0 <= j < c && #[trigger] tiles@[j] != 5 ==> tiles@[j] * 32 + 128 <= payload@.len(),
        decreases n - c,
    {
        let t = tiles[c];
        if t != BLANK_TILE && (payload.len() < 128 || t > (payload.len() - 128) / 32) {
            assert(!line_cells_present(payload@, tiles@)) by {
                assert(tiles@[c as int] != 5);
            }
            return Err("credit-name visible pattern cell lies outside its page");
        }
        c = c + 1;
    }
    let width = n * 16;
    let total = width * 16;
    let mut surface: Vec<u8> = Vec::with_capacity(total);
    let mut i: usize = 0;
    while i < total
        invariant
            n == tiles@.len(),
            width == n * 16,
            total == width * 16,
            total <= usize::MAX,
            line_cells_present(payload@, tiles@),
            i <= total,
            surface@.len() == i,
            forall|q: int| 0 <= q < i ==> #[trigger] surface@[q] == line_surface_pixel(payload@, tiles@, q),
        decreases total - i,
    {
        let x = i % width;
        let y = i / width;
        proof {
            crate::grid::lemma_split_index(i as int, width as int, 16);
            assert(x / 16 < n) by {
                assert(x < n * 16);
            }
        }
        let t = tiles[x / 16];
        let pixel = if t == BLANK_TILE {
            0u8
        } else {
            let _payload_len = payload.len();
            assert(tiles@[(x / 16) as int] != 5 ==> tiles@[(x / 16) as int] * 32 + 128 <= payload@.len());
            let cell = &payload[t * 32..t * 32 + 128];
            let b = ((x % 16) / 8) * 2 * 32 + (y / 8) * 32 + (y % 8) * 4 + (x % 8) / 2;
            assert(b == crate::tiles::column_major_byte_of_pixel(16, 16, y * 16 + x % 16)) by {
                crate::grid::lemma_row_col(y as int, (x % 16) as int, 16);
            }
            crate::tiles::unpack_pixel(cell[b], (x % 16) % 2 == 0)
        };
        surface.push(pixel);
        i = i + 1;
    }
    Ok(surface)
}

/// The relocated map lists the Korean cells right to left at fixed x
/// positions.
pub open spec fn static_profile(l: LineDeclaration) -> bool {
    l.target_map_profile matches Some(p) && p@ == "static_centered_right_to_left"@
}

/// The relocated map lists the Korean cells left to right and the consumer
/// positions them.
pub open spec fn consumer_profile(l: LineDeclaration) -> bool {
    l.target_map_profile matches Some(p) && p@ == "consumer_positioned_left_to_right"@
}

/// First x of a static relocated map.
pub open spec fn first_x(l: LineDeclaration) -> int {
    spec_parse_hex(l.target_first_x->0@).unwrap() as int
}

/// Cell of record `j` of a relocated map of `n` cells.
pub open spec fn display_index(l: LineDeclaration, n: int, j: int) -> int {
    if static_profile(l) {
        n - 1 - j
    } else {
        j
    }
}

/// A relocated record: the template record with the target tile in its tile
/// word and, for a static map, the cell's x position.
pub open spec fn target_record(template: Seq<u8>, tile: usize, x: Option<int>) -> Seq<u8> {
    let w = ((be16(template, 6) as u16) & 0xF800) | (tile as u16);
    let (x_high, x_low) = match x {
        Some(v) => ((v / 256) as u8, (v % 256) as u8),
        None => (template[8], template[9]),
    };
    seq![template[0], template[1], template[2], template[3], template[4], template[5], (w / 256) as u8, (w % 256) as u8, x_high, x_low]
}

/// x position of record `j`'s cell, for a static map.
pub open spec fn record_x(l: LineDeclaration, n: int, j: int) -> Option<int> {
    if static_profile(l) {
        Some(first_x(l) + display_index(l, n, j) * (l.target_x_step->0 as int))
    } else {
        None
    }
}

/// The relocated map can be built: a template record, a known profile, the
/// static profile's x positions, tiles within the consumer's mask, and x
/// positions within 16 bits.
pub open spec fn target_map_ok(l: LineDeclaration, source_map: Seq<u8>, tiles: Seq<usize>) -> bool {
    &&& source_map.len() >= 10
    &&& (static_profile(l) || consumer_profile(l))
    &&& static_profile(l) ==> (l.target_first_x matches Some(x) && hex_fits(x@, 0xFFFF)) && l.target_x_step is Some
    &&& forall|j: int| 0 <= j < tiles.len() ==> #[trigger] tiles[j] <= 0x07FF
    &&& static_profile(l) ==> forall|j: int|
        0 <= j < tiles.len() ==> #[trigger] record_x(l, tiles.len() as int, j)->0 <= 0xFFFF
}

/// Byte `k` of the relocated map: its records, then the protected record.
pub open spec fn target_map_byte(l: LineDeclaration, source_map: Seq<u8>, tiles: Seq<usize>, k: int) -> u8 {
    let n = tiles.len() as int;
    if k < n * 10 {
        let j = k / 10;
        target_record(source_map.subrange(0, 10), tiles[display_index(l, n, j)], record_x(l, n, j))[k % 10]
    } else {
        source_map[source_map.len() - 10 + (k - n * 10)]
    }
}

/// Build a relocated line's sprite map from its template record.
#[verifier::spinoff_prover]
pub fn build_target_map(l: &LineDeclaration, source_map: &[u8], tiles: &[usize]) -> (map: Result<Vec<u8>, Error>)
    requires
        tiles@.len() * 10 + 10 <= usize::MAX,
    ensures
        map is Ok <==> target_map_ok(*l, source_map@, tiles@),
        map matches Ok(m) ==> m@.len() == (tiles@.len() + protected_count(*l)) * 10 && forall|k: int|
            0 <= k < m@.len() ==> #[trigger] m@[k] == target_map_byte(*l, source_map@, tiles@, k),
{
    if source_map.len() < DEFINITION_BYTES {
        return Err("credit-name source map lacks a template record");
    }
    let is_static = match &l.target_map_profile {
        Some(p) => if string_is(p, "static_centered_right_to_left") {
            true
        } else if string_is(p, "consumer_positioned_left_to_right") {
            false
        } else {
            return Err("credit-name line has an unsupported target map profile");
        },
        None => {
            return Err("credit-name line has an unsupported target map profile");
        },
    };
    assert(is_static == static_profile(*l));
    proof {
        reveal_strlit("static_centered_right_to_left");
        reveal_strlit("consumer_positioned_left_to_right");
        if is_static {
            assert(!consumer_profile(*l)) by {
                assert("static_centered_right_to_left"@[0] != "consumer_positioned_left_to_right"@[0]);
            }
        }
    }
    let mut first: u16 = 0;
    let mut step: usize = 0;
    if is_static {
        first = match &l.target_first_x {
            Some(x) => parse_u16_hex(x.as_str())?,
            None => {
                return Err("credit-name target first x is absent");
            },
        };
        step = match l.target_x_step {
            Some(s) => s,
            None => {
                return Err("credit-name target x step is absent");
            },
        };
    }
    let template_word = read_be16(source_map, 6);
    let n = tiles.len();
    let mut out: Vec<u8> = Vec::with_capacity(n * 10 + 10);
    let mut j: usize = 0;
    while j < n
        invariant
            n == tiles@.len(),
            n * 10 + 10 <= usize::MAX,
            source_map@.len() >= 10,
            is_static == static_profile(*l),
            is_static || consumer_profile(*l),
            is_static ==> first as int == first_x(*l) && step == l.target_x_step->0 && (l.target_first_x matches Some(
                x,
            ) && hex_fits(x@, 0xFFFF)) && l.target_x_step is Some,
            template_word as int == be16(source_map@, 6),
            j <= n,
            out@.len() == j * 10,
            forall|q: int| 0 <= q < j ==> #[trigger] tiles@[display_index(*l, n as int, q)] <= 0x07FF,
            is_static ==> forall|q: int| 0 <= q < j ==> #[trigger] record_x(*l, n as int, q)->0 <= 0xFFFF,
            forall|k: int| 0 <= k < out@.len() ==> #[trigger] out@[k] == target_map_byte(*l, source_map@, tiles@, k),
        decreases n - j,
    {
        let d = if is_static { n - 1 - j } else { j };
        assert(d == display_index(*l, n as int, j as int));
        let tile = tiles[d];
        if tile > 0x07FF {
            proof {
                if is_static {
                    assert(tiles@[n - 1 - j] > 0x07FF);
                } else {
                    assert(tiles@[j as int] > 0x07FF);
                }
            }
            return Err("credit-name target tile exceeds the consumer mask");
        }
        let word = (template_word & 0xF800) | (tile as u16);
        let (x_high, x_low) = if is_static {
            assert((d as u128) * (step as u128) <= 0xFFFF_FFFF_FFFF_FFFFu128 * 0xFFFF_FFFF_FFFF_FFFFu128) by (nonlinear_arith)
                requires
                    d <= 0xFFFF_FFFF_FFFF_FFFFu128,
                    step <= 0xFFFF_FFFF_FFFF_FFFFu128,
            ;
            let x = first as u128 + d as u128 * step as u128;
            if x > 0xFFFF {
                assert(record_x(*l, n as int, j as int)->0 > 0xFFFF);
                return Err("credit-name target x does not fit in 16 bits");
            }
            ((x / 256) as u8, (x % 256) as u8)
        } else {
            (source_map[8], source_map[9])
        };
        let ghost before = out@;
        out.push(source_map[0]);
        out.push(source_map[1]);
        out.push(source_map[2]);
        out.push(source_map[3]);
        out.push(source_map[4]);
        out.push(source_map[5]);
        out.push((word / 256) as u8);
        out.push((word % 256) as u8);
        out.push(x_high);
        out.push(x_low);
        proof {
            let rec = target_record(source_map@.subrange(0, 10), tiles@[d as int], record_x(*l, n as int, j as int));
            assert(be16(source_map@.subrange(0, 10), 6) == be16(source_map@, 6));
            assert forall|k: int| 0 <= k < out@.len() implies #[trigger] out@[k] == target_map_byte(
                *l,
                source_map@,
                tiles@,
                k,
            ) by {
                if k >= j * 10 {
                    assert(k / 10 == j);
                    assert(out@[k] == rec[k % 10]);
                } else {
                    assert(out@[k] == before[k]);
                }
            }
            assert forall|q: int| 0 <= q < j + 1 implies #[trigger] tiles@[display_index(*l, n as int, q)] <= 0x07FF by {}
        }
        j = j + 1;
    }
    proof {
        assert forall|q: int| 0 <= q < n implies #[trigger] tiles@[q] <= 0x07FF by {
            if is_static {
                assert(tiles@[display_index(*l, n as int, n - 1 - q)] <= 0x07FF);
            } else {
                assert(tiles@[display_index(*l, n as int, q)] <= 0x07FF);
            }
        }
    }
    if l.protected_trailing_definition.is_some() {
        let length = source_map.len();
        let start = length - 10;
        let mut k: usize = 0;
        while k < 10
            invariant
                n == tiles@.len(),
                source_map@.len() >= 10,
                length == source_map@.len(),
                start == source_map@.len() - 10,
                out@.len() == n * 10 + k,
                k <= 10,
                forall|q: int| 0 <= q < out@.len() ==> #[trigger] out@[q] == target_map_byte(*l, source_map@, tiles@, q),
            decreases 10 - k,
        {
            out.push(source_map[start + k]);
            k = k + 1;
        }
    }
    Ok(out)
}

/// What a typed instruction patch changes.
pub enum PatchKind {
    SpriteCount,
    DrawCount,
    MapPointer,
}

/// A typed 68000 instruction of the JP consumer and its replacement.
pub struct InstructionPatch {
    pub offset: usize,
    pub source: Vec<u8>,
    pub target: Vec<u8>,
    pub kind: PatchKind,
}

/// A count patch's source and target instructions can be assembled at a
/// parsed offset.
pub open spec fn count_patch_assembles(c: CountPatchDeclaration) -> bool {
    &&& count_instruction(c, c.source_count) is Some
    &&& count_instruction(c, c.target_count) is Some
    &&& hex_fits(c.offset@, usize::MAX as nat)
}

/// The count patch of `c` as an instruction patch.
pub open spec fn count_patch_is(p: InstructionPatch, c: CountPatchDeclaration) -> bool {
    &&& p.offset == spec_parse_hex(c.offset@).unwrap()
    &&& p.source@ == count_instruction(c, c.source_count)->0
    &&& p.target@ == count_instruction(c, c.target_count)->0
}

/// The relocation patches can be built.
pub open spec fn relocation_ok(l: LineDeclaration, target_map_offset: usize) -> bool {
    &&& l.count_patch is Some
    &&& count_patch_assembles(l.count_patch->0)
    &&& hex_fits(l.source_map_offset@, u32::MAX as nat)
    &&& target_map_offset <= u32::MAX
    &&& forall|k: int| 0 <= k < l.draw_count_patches@.len() ==> count_patch_assembles(#[trigger] l.draw_count_patches@[k])
    &&& hex_fits(l.map_pointer_offset@, usize::MAX as nat)
}

fn count_patch_of(c: &CountPatchDeclaration, kind: PatchKind) -> (patch: Result<InstructionPatch, Error>)
    ensures
        patch is Ok <==> count_patch_assembles(*c),
        patch matches Ok(p) ==> count_patch_is(p, *c) && p.kind == kind,
{
    let source = assemble_count_instruction(c, c.source_count)?;
    let target = assemble_count_instruction(c, c.target_count)?;
    let offset = parse_hex(c.offset.as_str())?;
    Ok(InstructionPatch { offset, source, target, kind })
}

/// The typed patches of a relocated line whose map moves to
/// `target_map_offset`: its sprite count, its draw counts, and its map
/// pointer.
pub fn build_relocation_patches(l: &LineDeclaration, target_map_offset: usize) -> (patches: Result<
    Vec<InstructionPatch>,
    Error,
>)
    ensures
        patches is Ok <==> relocation_ok(*l, target_map_offset),
        patches matches Ok(ps) ==> {
            let n = l.draw_count_patches@.len() as int;
            &&& ps@.len() == n + 2
            &&& count_patch_is(ps@[0], l.count_patch->0)
            &&& ps@[0].kind == PatchKind::SpriteCount
            &&& forall|k: int|
                0 <= k < n ==> count_patch_is(#[trigger] ps@[k + 1], l.draw_count_patches@[k]) && ps@[k + 1].kind
                    == PatchKind::DrawCount
            &&& ps@[n + 1].offset == spec_parse_hex(l.map_pointer_offset@).unwrap()
            &&& ps@[n + 1].source@ == lea_a2(spec_parse_hex(l.source_map_offset@).unwrap())
            &&& ps@[n + 1].target@ == lea_a2(target_map_offset as nat)
            &&& ps@[n + 1].kind == PatchKind::MapPointer
        },
{
    let c = match &l.count_patch {
        Some(c) => c,
        None => {
            return Err("relocated credit-name line lacks a count patch");
        },
    };
    let first = count_patch_of(c, PatchKind::SpriteCount)?;
    let source_address = parse_hex(l.source_map_offset.as_str())?;
    if source_address > 0xFFFF_FFFF || target_map_offset > 0xFFFF_FFFF {
        return Err("credit-name map address exceeds 32 bits");
    }
    let source_pointer = lea_a2_code(source_address);
    let target_pointer = lea_a2_code(target_map_offset);
    let mut patches: Vec<InstructionPatch> = Vec::new();
    patches.push(first);
    let n = l.draw_count_patches.len();
    let mut k: usize = 0;
    while k < n
        invariant
            n == l.draw_count_patches@.len(),
            k <= n,
            patches@.len() == k + 1,
            count_patch_is(patches@[0], *c),
            patches@[0].kind == PatchKind::SpriteCount,
            forall|q: int|
                0 <= q < k ==> count_patch_is(#[trigger] patches@[q + 1], l.draw_count_patches@[q]) && patches@[q + 1].kind
                    == PatchKind::DrawCount,
            forall|q: int| 0 <= q < k ==> count_patch_assembles(#[trigger] l.draw_count_patches@[q]),
        decreases n - k,
    {
        let patch = count_patch_of(&l.draw_count_patches[k], PatchKind::DrawCount)?;
        patches.push(patch);
        k = k + 1;
    }
    let pointer_offset = parse_hex(l.map_pointer_offset.as_str())?;
    patches.push(InstructionPatch { offset: pointer_offset, source: source_pointer, target: target_pointer, kind: PatchKind::MapPointer });
    Ok(patches)
}

/// The protected `ss` sprite of a line, when it has one, is the declared
/// 2x1-tile record of tiles 61..63 shown 8 pixels down.
pub open spec fn trailing_fixed(l: LineDeclaration) -> bool {
    l.protected_trailing_definition matches Some(p) ==> p.width_tiles == 2 && p.height_tiles == 1 && p.y_offset_px
        == 8 && p.source_tile_start == 61 && p.source_tile_end_exclusive == 63
}

/// The preview of a line can carry its protected JP sprite: its tiles lie
/// in the source page.
pub open spec fn protected_preview_ok(source_page: Seq<u8>, l: LineDeclaration) -> bool {
    l.protected_trailing_definition is Some ==> 63 * 32 <= source_page.len()
}

/// Pixel (`x`, `y`) of a line preview: the name surface, then the
/// protected JP sprite, 8 pixels down, to its right.
pub open spec fn preview_pixel(source_page: Seq<u8>, base: Seq<u8>, base_width: int, x: int, y: int) -> u8 {
    if x < base_width {
        base[y * base_width + x]
    } else if 8 <= y < 16 {
        column_major_pixel_value(source_page.subrange(1_952, 2_016), 16, 8, (y - 8) * 16 + (x - base_width))
    } else {
        0
    }
}

/// Width of a line preview.
pub open spec fn preview_width(l: LineDeclaration, base_width: int) -> int {
    if l.protected_trailing_definition is Some {
        base_width + 16
    } else {
        base_width
    }
}

/// Append the protected JP sprite of a line to its name surface.
#[verifier::spinoff_prover]
#[verifier::rlimit(30)]
pub fn append_protected_preview(source_page: &[u8], base: Vec<u8>, base_width: usize, l: &LineDeclaration) -> (preview:
    Result<(Vec<u8>, usize), Error>)
    requires
        base@.len() == base_width * 16,
        base_width <= 0x10_0000,
        trailing_fixed(*l),
    ensures
        preview is Ok <==> protected_preview_ok(source_page@, *l),
        preview matches Ok((surface, width)) ==> {
            &&& width == preview_width(*l, base_width as int)
            &&& surface@.len() == width * 16
            &&& forall|i: int|
                0 <= i < surface@.len() ==> #[trigger] surface@[i] == preview_pixel(
                    source_page@,
                    base@,
                    base_width as int,
                    i % (width as int),
                    i / (width as int),
                )
        },
{
    if l.protected_trailing_definition.is_none() {
        proof {
            assert forall|i: int| 0 <= i < base@.len() implies #[trigger] base@[i] == preview_pixel(
                source_page@,
                base@,
                base_width as int,
                i % (base_width as int),
                i / (base_width as int),
            ) by {
                crate::grid::lemma_split_index(i, base_width as int, 16);
            }
        }
        return Ok((base, base_width));
    }
    if source_page.len() < 63 * 32 {
        return Err("credit-name protected suffix patterns lie outside their page");
    }
    let tiles = &source_page[61 * 32..63 * 32];
    let width = base_width + 16;
    let total = width * 16;
    let mut surface: Vec<u8> = Vec::with_capacity(total);
    let mut i: usize = 0;
    while i < total
        invariant
            base@.len() == base_width * 16,
            base_width <= 0x10_0000,
            tiles@ == source_page@.subrange(1_952, 2_016),
            source_page@.len() >= 2_016,
            width == base_width + 16,
            total == width * 16,
            i <= total,
            surface@.len() == i,
            forall|q: int|
                0 <= q < i ==> #[trigger] surface@[q] == preview_pixel(
                    source_page@,
                    base@,
                    base_width as int,
                    q % (width as int),
                    q / (width as int),
                ),
        decreases total - i,
    {
        let x = i % width;
        let y = i / width;
        proof {
            crate::grid::lemma_split_index(i as int, width as int, 16);
        }
        let pixel = if x < base_width {
            proof {
                crate::grid::lemma_index_bound(y as int, x as int, base_width as int, 16);
            }
            base[y * base_width + x]
        } else if y >= 8 {
            let sy = y - 8;
            let sx = x - base_width;
            let b = (sx / 8) * 32 + (sy % 8) * 4 + (sx % 8) / 2;
            proof {
                assert(sy < 8 && sx < 16);
                crate::grid::lemma_row_col(sy as int, sx as int, 16);
                assert(sy / 8 == 0 && sy % 8 == sy);
                let q = (sy * 16 + sx) as int;
                assert(q / 16 == sy && q % 16 == sx);
                assert(((sx / 8) as int) * (8int / 8) == sx / 8);
                assert(b == crate::tiles::column_major_byte_of_pixel(16, 8, q));
                assert(b < 64);
            }
            crate::tiles::unpack_pixel(tiles[b], sx % 2 == 0)
        } else {
            0u8
        };
        surface.push(pixel);
        i = i + 1;
    }
    Ok((surface, width))
}
/// The JP cell bytes of every segment and of the protected sprite hash as
/// declared.
pub open spec fn line_sources_ok(source_page: Seq<u8>, l: LineDeclaration) -> bool {
    &&& forall|k: int|
        0 <= k < l.segments@.len() ==> {
            let s = #[trigger] l.segments@[k];
            &&& s.source_tile_start <= s.source_tile_end_exclusive
            &&& s.source_tile_end_exclusive * 32 <= source_page.len()
            &&& sha256_hex_of(source_page.subrange(s.source_tile_start * 32, s.source_tile_end_exclusive * 32))
                == s.source_sha256@
        }
    &&& (l.protected_trailing_definition matches Some(p) ==> p.source_tile_start <= p.source_tile_end_exclusive
        && p.source_tile_end_exclusive * 32 <= source_page.len() && sha256_hex_of(
        source_page.subrange(p.source_tile_start * 32, p.source_tile_end_exclusive * 32),
    ) == p.source_pattern_sha256@)
}

fn range_hash_matches(page: &[u8], start_tile: usize, end_tile: usize, expected: &String) -> (ok: bool)
    ensures
        ok == (start_tile <= end_tile && end_tile * 32 <= page@.len() && sha256_hex_of(
            page@.subrange(start_tile * 32, end_tile * 32),
        ) == expected@),
{
    if start_tile > end_tile || end_tile > page.len() / 32 {
        return false;
    }
    let bytes = &page[start_tile * 32..end_tile * 32];
    let hash = sha256_hex(bytes);
    crate::text::str_eq(hash.as_str(), expected.as_str())
}

/// Check the JP cell bytes of a line's segments and protected sprite.
pub fn check_line_sources(source_page: &[u8], l: &LineDeclaration) -> (result: Result<(), Error>)
    ensures
        result is Ok <==> line_sources_ok(source_page@, *l),
{
    let mut k: usize = 0;
    while k < l.segments.len()
        invariant
            k <= l.segments@.len(),
            forall|j: int|
                0 <= j < k ==> {
                    let s = #[trigger] l.segments@[j];
                    &&& s.source_tile_start <= s.source_tile_end_exclusive
                    &&& s.source_tile_end_exclusive * 32 <= source_page@.len()
                    &&& sha256_hex_of(source_page@.subrange(s.source_tile_start * 32, s.source_tile_end_exclusive * 32))
                        == s.source_sha256@
                },
        decreases l.segments@.len() - k,
    {
        let s = &l.segments[k];
        if !range_hash_matches(source_page, s.source_tile_start, s.source_tile_end_exclusive, &s.source_sha256) {
            return Err("credit-name JP segment pattern SHA-256 drifted");
        }
        k = k + 1;
    }
    match &l.protected_trailing_definition {
        Some(p) => {
            if !range_hash_matches(source_page, p.source_tile_start, p.source_tile_end_exclusive, &p.source_pattern_sha256) {
                return Err("credit-name protected pattern SHA-256 drifted");
            }
        },
        None => {},
    }
    Ok(())
}

/// A page after the first `n` Korean segments overwrite their JP cells.
pub open spec fn overwritten(page: Seq<u8>, segs: Seq<SegmentDeclaration>, glyphs: Seq<NativeGlyph>, n: int) -> Seq<u8>
    decreases n,
{
    if n <= 0 {
        page
    } else {
        written(
            overwritten(page, segs, glyphs, n - 1),
            segs[n - 1].source_tile_start * 32,
            segment_tiles(glyphs, segs[n - 1]),
        )
    }
}

/// Each segment renders and, when it is written, its JP cells in the target
/// page still hold the JP bytes.
pub open spec fn in_place_write_ok(target: Seq<u8>, source: Seq<u8>, segs: Seq<SegmentDeclaration>, glyphs: Seq<NativeGlyph>) -> bool {
    forall|k: int|
        0 <= k < segs.len() ==> {
            let s = #[trigger] segs[k];
            &&& overwritten(target, segs, glyphs, k).subrange(s.source_tile_start * 32, s.source_tile_end_exclusive * 32)
                == source.subrange(s.source_tile_start * 32, s.source_tile_end_exclusive * 32)
            &&& segment_renders(glyphs, s)
        }
}

/// JP tiles the segments overwrite.
pub open spec fn overwritten_tiles(segs: Seq<SegmentDeclaration>, n: int) -> int
    decreases n,
{
    if n <= 0 {
        0
    } else {
        overwritten_tiles(segs, n - 1) + segs[n - 1].source_tile_end_exclusive - segs[n - 1].source_tile_start
    }
}

/// A segment that keeps its cell count, within the JP source page.
pub open spec fn in_place_segment_fits(s: SegmentDeclaration, source_len: int) -> bool {
    &&& s.source_tile_start < s.source_tile_end_exclusive
    &&& (s.source_tile_end_exclusive - s.source_tile_start) % 4 == 0
    &&& (s.source_tile_end_exclusive - s.source_tile_start) / 4 == s.target_cells
    &&& s.source_tile_end_exclusive * 32 <= source_len
    &&& s.target_cells <= 9
}

proof fn lemma_overwritten_len(page: Seq<u8>, segs: Seq<SegmentDeclaration>, glyphs: Seq<NativeGlyph>, n: int, source_len: int)
    requires
        0 <= n <= segs.len(),
        page.len() >= source_len,
        forall|k: int| 0 <= k < segs.len() ==> in_place_segment_fits(#[trigger] segs[k], source_len),
    ensures
        overwritten(page, segs, glyphs, n).len() == page.len(),
    decreases n,
{
    if n > 0 {
        lemma_overwritten_len(page, segs, glyphs, n - 1, source_len);
        let s = segs[n - 1];
        assert(in_place_segment_fits(s, source_len));
        assert(segment_tiles(glyphs, s).len() == (s.source_tile_end_exclusive - s.source_tile_start) * 32) by (nonlinear_arith)
            requires
                segment_tiles(glyphs, s).len() == s.target_cells * 16 * 8,
                (s.source_tile_end_exclusive - s.source_tile_start) / 4 == s.target_cells,
                (s.source_tile_end_exclusive - s.source_tile_start) % 4 == 0,
        ;
    }
}

/// Copy `bytes` over `target` from `start` on.
fn overwrite_at(target: &mut Vec<u8>, start: usize, bytes: &[u8])
    requires
        start + bytes@.len() <= old(target)@.len(),
    ensures
        final(target)@ == written(old(target)@, start as int, bytes@),
{
    let ghost before = target@;
    assert(start + bytes@.len() <= target.len());
    let mut b: usize = 0;
    while b < bytes.len()
        invariant
            start + bytes@.len() <= before.len(),
            start + bytes@.len() <= usize::MAX,
            target@.len() == before.len(),
            b <= bytes@.len(),
            forall|q: int|
                0 <= q < target@.len() ==> #[trigger] target@[q] == if start <= q < start + b {
                    bytes@[q - start]
                } else {
                    before[q]
                },
        decreases bytes@.len() - b,
    {
        target.set(start + b, bytes[b]);
        b = b + 1;
    }
    assert(target@ =~= written(before, start as int, bytes@));
}

/// Overwrite each segment's JP cells in the target page with its Korean
/// tiles; returns the number of overwritten tiles.
#[verifier::rlimit(100)]
#[verifier::spinoff_prover]
pub fn write_in_place(
    target: &mut Vec<u8>,
    source: &[u8],
    segs: &Vec<SegmentDeclaration>,
    glyphs: &[NativeGlyph],
) -> (overwritten_count: Result<usize, Error>)
    requires
        old(target)@.len() >= source@.len(),
        segs@.len() * 36 <= usize::MAX,
        forall|k: int| 0 <= k < segs@.len() ==> in_place_segment_fits(#[trigger] segs@[k], source@.len() as int),
    ensures
        overwritten_count is Ok <==> in_place_write_ok(old(target)@, source@, segs@, glyphs@),
        overwritten_count matches Ok(n) ==> final(target)@ == overwritten(old(target)@, segs@, glyphs@, segs@.len() as int)
            && n == overwritten_tiles(segs@, segs@.len() as int),
{
    let ghost start_page = target@;
    let source_len = source.len();
    let mut count: usize = 0;
    let mut k: usize = 0;
    while k < segs.len()
        invariant
            start_page == old(target)@,
            start_page.len() >= source@.len(),
            source_len == source@.len(),
            segs@.len() * 36 <= usize::MAX,
            forall|j: int| 0 <= j < segs@.len() ==> in_place_segment_fits(#[trigger] segs@[j], source@.len() as int),
            k <= segs@.len(),
            target@ == overwritten(start_page, segs@, glyphs@, k as int),
            target@.len() == start_page.len(),
            count == overwritten_tiles(segs@, k as int),
            count <= k * 36,
            forall|j: int|
                0 <= j < k ==> {
                    let s = #[trigger] segs@[j];
                    &&& overwritten(start_page, segs@, glyphs@, j).subrange(s.source_tile_start * 32, s.source_tile_end_exclusive * 32)
                        == source@.subrange(s.source_tile_start * 32, s.source_tile_end_exclusive * 32)
                    &&& segment_renders(glyphs@, s)
                },
        decreases segs@.len() - k,
    {
        let s = &segs[k];
        assert(in_place_segment_fits(*s, source@.len() as int));
        assert(s.source_tile_end_exclusive * 32 <= source_len);
        let start = s.source_tile_start * 32;
        let end = s.source_tile_end_exclusive * 32;
        let same = bytes_equal(&target.as_slice()[start..end], &source[start..end]);
        if !same {
            proof {
                assert(!in_place_write_ok(start_page, source@, segs@, glyphs@)) by {
                    assert(target@.subrange(start as int, end as int) != source@.subrange(start as int, end as int));
                }
            }
            return Err("credit-name target segment overlaps an earlier credit mutation");
        }
        let rendered = render_segment(glyphs, s);
        let encoded = match rendered {
            Ok(t) => t,
            Err(e) => {
                proof {
                    assert(!in_place_write_ok(start_page, source@, segs@, glyphs@)) by {
                        assert(!segment_renders(glyphs@, segs@[k as int]));
                    }
                }
                return Err(e);
            },
        };
        assert(encoded@.len() == end - start) by (nonlinear_arith)
            requires
                encoded@.len() == s.target_cells * 16 * 8,
                (s.source_tile_end_exclusive - s.source_tile_start) / 4 == s.target_cells,
                (s.source_tile_end_exclusive - s.source_tile_start) % 4 == 0,
                start == s.source_tile_start * 32,
                end == s.source_tile_end_exclusive * 32,
        ;
        overwrite_at(target, start, encoded.as_slice());
        assert(count + (s.source_tile_end_exclusive - s.source_tile_start) <= (k + 1) * 36) by (nonlinear_arith)
            requires
                count <= k * 36,
                (s.source_tile_end_exclusive - s.source_tile_start) / 4 == s.target_cells,
                (s.source_tile_end_exclusive - s.source_tile_start) % 4 == 0,
                s.target_cells <= 9,
        ;
        assert((k + 1) * 36 <= segs@.len() * 36) by (nonlinear_arith)
            requires k < segs@.len(),
        ;
        count = count + (s.source_tile_end_exclusive - s.source_tile_start);
        proof {
            lemma_overwritten_len(start_page, segs@, glyphs@, k + 1, source@.len() as int);
        }
        k = k + 1;
    }
    Ok(count)
}

/// Bytes the first `n` segments of a relocated line append.
pub open spec fn appended_bytes(glyphs: Seq<NativeGlyph>, segs: Seq<SegmentDeclaration>, n: int) -> Seq<u8>
    decreases n,
{
    if n <= 0 {
        Seq::empty()
    } else {
        appended_bytes(glyphs, segs, n - 1) + segment_tiles(glyphs, segs[n - 1])
    }
}

/// Logical tiles of the first `n` segments of a relocated line whose first
/// appended tile is `first`: each segment's cells, a blank cell between two.
pub open spec fn relocated_tiles(segs: Seq<SegmentDeclaration>, first: int, n: int) -> Seq<usize>
    decreases n,
{
    if n <= 0 {
        Seq::empty()
    } else {
        let prev = relocated_tiles(segs, first, n - 1);
        let lead = if n > 1 {
            prev.push(5usize)
        } else {
            prev
        };
        let base = first + 4 * cells_upto(segs, n - 1);
        lead + Seq::new(segs[n - 1].target_cells as nat, |c: int| (base + 4 * c) as usize)
    }
}

/// Every segment of a line renders.
pub open spec fn segments_render(glyphs: Seq<NativeGlyph>, segs: Seq<SegmentDeclaration>) -> bool {
    forall|k: int| 0 <= k < segs.len() ==> segment_renders(glyphs, #[trigger] segs[k])
}

proof fn lemma_appended_len(glyphs: Seq<NativeGlyph>, segs: Seq<SegmentDeclaration>, n: int)
    requires
        0 <= n <= segs.len(),
    ensures
        appended_bytes(glyphs, segs, n).len() == 128 * cells_upto(segs, n),
    decreases n,
{
    if n > 0 {
        lemma_appended_len(glyphs, segs, n - 1);
    }
}

proof fn lemma_relocated_len(segs: Seq<SegmentDeclaration>, first: int, n: int)
    requires
        0 <= n <= segs.len(),
    ensures
        relocated_tiles(segs, first, n).len() == cells_upto(segs, n) + if n > 0 { n - 1 } else { 0 },
    decreases n,
{
    if n > 0 {
        lemma_relocated_len(segs, first, n - 1);
    }
}

/// Append the Korean tiles of a relocated line's segments to its page and
/// return the line's logical tiles there.
#[verifier::rlimit(60)]
pub fn append_relocated(target: &mut Vec<u8>, segs: &Vec<SegmentDeclaration>, glyphs: &[NativeGlyph]) -> (tiles: Result<
    Vec<usize>,
    Error,
>)
    requires
        segs@.len() <= 0xFFFF,
        forall|k: int| 0 <= k < segs@.len() ==> (#[trigger] segs@[k]).target_cells <= 0xFFFF,
    ensures
        tiles is Ok <==> {
            &&& old(target)@.len() % 32 == 0
            &&& segments_render(glyphs@, segs@)
            &&& old(target)@.len() + appended_bytes(glyphs@, segs@, segs@.len() as int).len() <= usize::MAX
        },
        tiles matches Ok(t) ==> {
            &&& final(target)@ == old(target)@ + appended_bytes(glyphs@, segs@, segs@.len() as int)
            &&& t@ == relocated_tiles(segs@, (old(target)@.len() / 32) as int, segs@.len() as int)
        },
{
    if target.len() % 32 != 0 {
        return Err("credit-name target page is not tile-aligned");
    }
    let ghost start = target@;
    let ghost first: int = (start.len() / 32) as int;
    let mut tiles: Vec<usize> = Vec::new();
    let mut k: usize = 0;
    while k < segs.len()
        invariant
            start == old(target)@,
            start.len() % 32 == 0,
            first == start.len() / 32,
            segs@.len() <= 0xFFFF,
            forall|j: int| 0 <= j < segs@.len() ==> (#[trigger] segs@[j]).target_cells <= 0xFFFF,
            k <= segs@.len(),
            target@ == start + appended_bytes(glyphs@, segs@, k as int),
            start.len() + appended_bytes(glyphs@, segs@, k as int).len() <= usize::MAX,
            tiles@ == relocated_tiles(segs@, first, k as int),
            forall|j: int| 0 <= j < k ==> segment_renders(glyphs@, #[trigger] segs@[j]),
        decreases segs@.len() - k,
    {
        let s = &segs[k];
        proof {
            lemma_appended_len(glyphs@, segs@, k as int);
            lemma_appended_len(glyphs@, segs@, k + 1);
        }
        let rendered = render_segment(glyphs, s);
        let encoded = match rendered {
            Ok(e) => e,
            Err(e) => {
                assert(!segment_renders(glyphs@, segs@[k as int]));
                return Err(e);
            },
        };
        if encoded.len() > usize::MAX - target.len() {
            proof {
                lemma_cells_grow(segs@, k + 1, segs@.len() as int);
                lemma_appended_len(glyphs@, segs@, segs@.len() as int);
            }
            return Err("credit-name target page outgrows the address space");
        }
        let first_tile = target.len() / 32;
        assert(first_tile == first + 4 * cells_upto(segs@, k as int));
        if k != 0 {
            tiles.push(BLANK_TILE);
        }
        let ghost lead = tiles@;
        let mut c: usize = 0;
        while c < s.target_cells
            invariant
                s.target_cells <= 0xFFFF,
                first_tile * 32 + 128 * s.target_cells <= usize::MAX,
                c <= s.target_cells,
                tiles@.len() == lead.len() + c,
                forall|q: int| 0 <= q < lead.len() ==> tiles@[q] == lead[q],
                forall|q: int| lead.len() <= q < lead.len() + c ==> #[trigger] tiles@[q] == first_tile + 4 * (q - lead.len()),
            decreases s.target_cells - c,
        {
            tiles.push(first_tile + c * GLYPH_TILES);
            c = c + 1;
        }
        assert(tiles@ =~= relocated_tiles(segs@, first, k + 1));
        let mut b: usize = 0;
        let ghost before = target@;
        while b < encoded.len()
            invariant
                before.len() + encoded@.len() <= usize::MAX,
                b <= encoded@.len(),
                target@ == before + encoded@.subrange(0, b as int),
            decreases encoded@.len() - b,
        {
            target.push(encoded[b]);
            b = b + 1;
            assert(target@ =~= before + encoded@.subrange(0, b as int));
        }
        assert(target@ =~= start + appended_bytes(glyphs@, segs@, k + 1));
        k = k + 1;
    }
    proof {
        lemma_appended_len(glyphs@, segs@, segs@.len() as int);
    }
    Ok(tiles)
}

proof fn lemma_cells_bounds(segs: Seq<SegmentDeclaration>, n: int)
    requires
        0 <= n <= segs.len(),
        forall|j: int| 0 <= j < n ==> (#[trigger] segs[j]).target_cells >= 1,
    ensures
        cells_upto(segs, n) >= n,
        forall|j: int| 0 <= j < n ==> (#[trigger] segs[j]).target_cells <= cells_upto(segs, n),
    decreases n,
{
    if n > 0 {
        lemma_cells_bounds(segs, n - 1);
    }
}

/// Sizes every checked line keeps within.
#[verifier::opaque]
pub open spec fn line_bounded(l: LineDeclaration) -> bool {
    &&& l.page < 10
    &&& l.source_logical_tiles@.len() <= 9
    &&& trailing_fixed(l)
    &&& 1 <= l.segments@.len() <= 0xFFFF
    &&& target_cells_total(l) <= 0xFFFF
    &&& forall|j: int| 0 <= j < l.segments@.len() ==> 1 <= (#[trigger] l.segments@[j]).target_cells <= 0xFFFF
    &&& (l.placement@ == "in_place"@ || l.placement@ == "relocated"@)
    &&& l.placement@ == "in_place"@ ==> forall|j: int|
        0 <= j < l.segments@.len() ==> {
            let s = #[trigger] l.segments@[j];
            &&& s.source_tile_start < s.source_tile_end_exclusive
            &&& (s.source_tile_end_exclusive - s.source_tile_start) % 4 == 0
            &&& (s.source_tile_end_exclusive - s.source_tile_start) / 4 == s.target_cells
            &&& s.target_cells <= 9
        }
}

proof fn lemma_line_bounds(l: LineDeclaration, k: int, font_sha256: Seq<char>)
    requires
        0 <= k < 7,
        line_ok(l, k, font_sha256),
    ensures
        line_bounded(l),
{
    reveal(line_bounded);
    reveal(segment_ok);
    reveal_strlit("in_place");
    reveal_strlit("relocated");
    let segs = l.segments@;
    let n = segs.len() as int;
    assert forall|j: int| 0 <= j < n implies (#[trigger] segs[j]).target_cells >= 1 by {
        assert(segment_ok(segs[j], previous_end(segs, j), 8));
    }
    lemma_cells_bounds(segs, n);
    if l.placement@ == "relocated"@ {
        assert(relocated_ok(l));
    }
}

/// An instruction patch as plain values: offset, JP bytes, Korean bytes,
/// kind.
pub type PatchView = (usize, Seq<u8>, Seq<u8>, PatchKind);

pub open spec fn patch_view(p: InstructionPatch) -> PatchView {
    (p.offset, p.source@, p.target@, p.kind)
}

pub open spec fn patch_views(ps: Seq<InstructionPatch>) -> Seq<PatchView> {
    ps.map_values(|p: InstructionPatch| patch_view(p))
}

/// The count patch `c` of the given kind as plain values.
pub open spec fn count_view(c: CountPatchDeclaration, kind: PatchKind) -> PatchView {
    (
        spec_parse_hex(c.offset@).unwrap() as usize,
        count_instruction(c, c.source_count)->0,
        count_instruction(c, c.target_count)->0,
        kind,
    )
}

/// The typed patches of a relocated line whose map moves to `offset`: its
/// sprite count, its draw counts, and its map pointer.
pub open spec fn relocation_views(l: LineDeclaration, offset: usize) -> Seq<PatchView> {
    let n = l.draw_count_patches@.len();
    seq![count_view(l.count_patch->0, PatchKind::SpriteCount)] + Seq::new(
        n,
        |k: int| count_view(l.draw_count_patches@[k], PatchKind::DrawCount),
    ) + seq![
        (
            spec_parse_hex(l.map_pointer_offset@).unwrap() as usize,
            lea_a2(spec_parse_hex(l.source_map_offset@).unwrap()),
            lea_a2(offset as nat),
            PatchKind::MapPointer,
        ),
    ]
}

proof fn lemma_relocation_views(l: LineDeclaration, offset: usize, ps: Seq<InstructionPatch>)
    requires
        relocation_ok(l, offset),
        ({
            let n = l.draw_count_patches@.len() as int;
            &&& ps.len() == n + 2
            &&& count_patch_is(ps[0], l.count_patch->0)
            &&& ps[0].kind == PatchKind::SpriteCount
            &&& forall|k: int|
                0 <= k < n ==> count_patch_is(#[trigger] ps[k + 1], l.draw_count_patches@[k]) && ps[k + 1].kind
                    == PatchKind::DrawCount
            &&& ps[n + 1].offset == spec_parse_hex(l.map_pointer_offset@).unwrap()
            &&& ps[n + 1].source@ == lea_a2(spec_parse_hex(l.source_map_offset@).unwrap())
            &&& ps[n + 1].target@ == lea_a2(offset as nat)
            &&& ps[n + 1].kind == PatchKind::MapPointer
        }),
    ensures
        patch_views(ps) == relocation_views(l, offset),
{
    let n = l.draw_count_patches@.len() as int;
    let v = relocation_views(l, offset);
    assert forall|k: int| 0 <= k < ps.len() implies patch_views(ps)[k] == v[k] by {
        if k == 0 {
        } else if k <= n {
            assert(count_patch_is(ps[(k - 1) + 1], l.draw_count_patches@[k - 1]));
            assert(count_patch_assembles(l.draw_count_patches@[k - 1]));
        } else {
        }
    }
    assert(patch_views(ps) =~= v);
}

/// What compiling one timed line makes: its page, its logical tiles, its
/// relocated map, its typed patches, and the tiles it overwrote or appended.
pub struct LineOutcome {
    pub page: Seq<u8>,
    pub tiles: Seq<usize>,
    pub map: Option<Seq<u8>>,
    pub map_offset: int,
    pub patches: Seq<PatchView>,
    pub overwritten: int,
    pub appended: int,
}

/// The line's JP sprite map lies inside the ROM.
pub open spec fn source_map_present(rom: Seq<u8>, l: LineDeclaration) -> bool {
    &&& hex_fits(l.source_map_offset@, usize::MAX as nat)
    &&& spec_parse_hex(l.source_map_offset@).unwrap() + l.source_map_bytes <= rom.len()
}

/// The line's JP sprite map.
pub open spec fn source_map_of(rom: Seq<u8>, l: LineDeclaration) -> Seq<u8> {
    let at = spec_parse_hex(l.source_map_offset@).unwrap() as int;
    rom.subrange(at, at + l.source_map_bytes)
}

/// The relocated sprite map of a line with logical tiles `tiles`.
pub open spec fn relocated_map(l: LineDeclaration, source_map: Seq<u8>, tiles: Seq<usize>) -> Seq<u8> {
    Seq::new(((tiles.len() + protected_count(l)) * 10) as nat, |k: int| target_map_byte(l, source_map, tiles, k))
}

/// The JP line can be read from its page: its cells are present, its
/// protected sprite too, and its cell bytes hash as declared.
pub open spec fn line_source_ok(source_page: Seq<u8>, target_page: Seq<u8>, l: LineDeclaration) -> bool {
    &&& target_page.len() >= source_page.len()
    &&& line_cells_present(source_page, l.source_logical_tiles@)
    &&& protected_preview_ok(source_page, l)
    &&& line_sources_ok(source_page, l)
}

/// Compiling line `l` onto `target_page`, when the map bank already holds
/// `bank_len` bytes; `None` when the line is refused.
#[verifier::opaque]
pub open spec fn line_outcome(
    rom: Seq<u8>,
    source_page: Seq<u8>,
    target_page: Seq<u8>,
    bank_len: int,
    l: LineDeclaration,
    glyphs: Seq<NativeGlyph>,
) -> Option<LineOutcome> {
    let segs = l.segments@;
    let n = segs.len() as int;
    if !line_source_ok(source_page, target_page, l) {
        None
    } else if l.placement@ == "in_place"@ {
        let page = overwritten(target_page, segs, glyphs, n);
        if in_place_write_ok(target_page, source_page, segs, glyphs) && line_cells_present(
            page,
            l.source_logical_tiles@,
        ) {
            Some(
                LineOutcome {
                    page,
                    tiles: l.source_logical_tiles@,
                    map: None,
                    map_offset: 0,
                    patches: Seq::empty(),
                    overwritten: overwritten_tiles(segs, n),
                    appended: 0,
                },
            )
        } else {
            None
        }
    } else if l.placement@ == "relocated"@ {
        let added = appended_bytes(glyphs, segs, n);
        let tiles = relocated_tiles(segs, (target_page.len() / 32) as int, n);
        let smap = source_map_of(rom, l);
        let map = relocated_map(l, smap, tiles);
        let offset = 0x2F_8000 + bank_len;
        let page = target_page + added;
        if {
            &&& target_page.len() % 32 == 0
            &&& segments_render(glyphs, segs)
            &&& target_page.len() + added.len() <= usize::MAX
            &&& source_map_present(rom, l)
            &&& target_map_ok(l, smap, tiles)
            &&& offset + map.len() <= 0x30_0000
            &&& relocation_ok(l, offset as usize)
            &&& line_cells_present(page, tiles)
        } {
            Some(
                LineOutcome {
                    page,
                    tiles,
                    map: Some(map),
                    map_offset: offset,
                    patches: relocation_views(l, offset as usize),
                    overwritten: 0,
                    appended: (added.len() / 32) as int,
                },
            )
        } else {
            None
        }
    } else {
        None
    }
}

proof fn lemma_overwritten_tiles(segs: Seq<SegmentDeclaration>, n: int)
    requires
        0 <= n <= segs.len(),
        forall|j: int|
            0 <= j < n ==> {
                let s = #[trigger] segs[j];
                &&& s.source_tile_start < s.source_tile_end_exclusive
                &&& (s.source_tile_end_exclusive - s.source_tile_start) % 4 == 0
                &&& (s.source_tile_end_exclusive - s.source_tile_start) / 4 == s.target_cells
            },
    ensures
        overwritten_tiles(segs, n) == 4 * cells_upto(segs, n),
    decreases n,
{
    if n > 0 {
        lemma_overwritten_tiles(segs, n - 1);
        let s = segs[n - 1];
        assert(s.source_tile_start < s.source_tile_end_exclusive);
    }
}

/// Pixel `i` of the preview of a line drawn from the cells `tiles` of
/// `page`, with its protected sprite from `source_page`.
pub open spec fn line_preview_pixel(source_page: Seq<u8>, page: Seq<u8>, tiles: Seq<usize>, l: LineDeclaration, i: int) -> u8 {
    let base_width = (tiles.len() * 16) as int;
    let base = Seq::new((tiles.len() * 256) as nat, |q: int| line_surface_pixel(page, tiles, q));
    let width = preview_width(l, base_width);
    preview_pixel(source_page, base, base_width, i % width, i / width)
}

/// A line preview: its surface holds the pixels of `line_preview_pixel`.
pub open spec fn preview_is(surface: Seq<u8>, width: usize, source_page: Seq<u8>, page: Seq<u8>, tiles: Seq<usize>, l: LineDeclaration) -> bool {
    &&& width == preview_width(l, (tiles.len() * 16) as int)
    &&& surface.len() == width * 16
    &&& forall|i: int| 0 <= i < surface.len() ==> #[trigger] surface[i] == line_preview_pixel(source_page, page, tiles, l, i)
}

/// One compiled timed line: its JP and Korean previews, its logical tiles
/// in the target page, and its relocated map when it has one.
pub struct LineBuild {
    pub source_surface: Vec<u8>,
    pub source_width: usize,
    pub target_surface: Vec<u8>,
    pub target_width: usize,
    pub target_logical_tiles: Vec<usize>,
    pub target_map_offset: Option<usize>,
    pub target_map: Option<Vec<u8>>,
}

/// A line build shows the line's outcome: its tiles, its relocated map and
/// where it stands, and its JP and Korean previews.
pub open spec fn line_build_is(b: LineBuild, out: LineOutcome, source_page: Seq<u8>, l: LineDeclaration) -> bool {
    &&& b.target_logical_tiles@ == out.tiles
    &&& (b.target_map matches Some(m) ==> out.map == Some(m@))
    &&& (b.target_map is None <==> out.map is None)
    &&& (b.target_map_offset matches Some(o) ==> o == out.map_offset)
    &&& (b.target_map_offset is None <==> out.map is None)
    &&& preview_is(b.source_surface@, b.source_width, source_page, source_page, l.source_logical_tiles@, l)
    &&& preview_is(b.target_surface@, b.target_width, source_page, out.page, out.tiles, l)
}

/// A compiled line with the typed patches and tile counts it adds.
pub struct LineCompile {
    pub build: LineBuild,
    pub patches: Vec<InstructionPatch>,
    pub overwritten: usize,
    pub appended: usize,
}

fn line_preview(source_page: &[u8], page: &[u8], tiles: &Vec<usize>, l: &LineDeclaration) -> (preview: Result<(Vec<u8>, usize), Error>)
    requires
        tiles@.len() <= 0xFFFF,
        trailing_fixed(*l),
    ensures
        preview is Ok <==> line_cells_present(page@, tiles@) && protected_preview_ok(source_page@, *l),
        preview matches Ok((surface, width)) ==> preview_is(surface@, width, source_page@, page@, tiles@, *l),
{
    let base = extract_line_surface(page, tiles.as_slice())?;
    let ghost expected = Seq::new((tiles@.len() * 256) as nat, |q: int| line_surface_pixel(page@, tiles@, q));
    assert(base@ =~= expected);
    let result = append_protected_preview(source_page, base, tiles.len() * 16, l);
    match result {
        Ok((surface, width)) => {
            assert forall|i: int| 0 <= i < surface@.len() implies #[trigger] surface@[i] == line_preview_pixel(
                source_page@,
                page@,
                tiles@,
                *l,
                i,
            ) by {}
            Ok((surface, width))
        },
        Err(e) => Err(e),
    }
}

/// Compile one timed line onto its target page: check its JP cells, write
/// its Korean segments in place or append them and relocate its map, and
/// draw both previews.
#[verifier::rlimit(60)]
#[verifier::spinoff_prover]
pub fn compile_line(
    rom: &[u8],
    source_page: &[u8],
    target_page: &mut Vec<u8>,
    bank_len: usize,
    l: &LineDeclaration,
    glyphs: &[NativeGlyph],
) -> (compiled: Result<LineCompile, Error>)
    requires
        line_bounded(*l),
        bank_len <= 0x8000,
    ensures
        compiled is Ok <==> line_outcome(rom@, source_page@, old(target_page)@, bank_len as int, *l, glyphs@) is Some,
        compiled matches Ok(c) ==> {
            let out = line_outcome(rom@, source_page@, old(target_page)@, bank_len as int, *l, glyphs@)->0;
            &&& final(target_page)@ == out.page
            &&& line_build_is(c.build, out, source_page@, *l)
            &&& patch_views(c.patches@) == out.patches
            &&& c.overwritten == out.overwritten
            &&& c.appended == out.appended
            &&& c.overwritten <= 0x40000
            &&& c.appended <= 0x40000
            &&& (c.build.target_map matches Some(m) ==> bank_len + m@.len() <= 0x8000)
            &&& c.build.target_logical_tiles@.len() <= 0xFFFF
        },
{
    proof {
        reveal(line_outcome);
        reveal(line_bounded);
        reveal_strlit("in_place");
        reveal_strlit("relocated");
    }
    if target_page.len() < source_page.len() {
        return Err("credit-name target page is shorter than its JP source");
    }
    let (source_surface, source_width) = line_preview(source_page, source_page, &l.source_logical_tiles, l)?;
    check_line_sources(source_page, l)?;
    let ghost start_page = target_page@;
    let segs = &l.segments;
    let is_in_place = string_is(&l.placement, "in_place");
    if is_in_place {
        proof {
            assert forall|k: int| 0 <= k < segs@.len() implies in_place_segment_fits(#[trigger] segs@[k], source_page@.len() as int) by {
                assert(line_sources_ok(source_page@, *l));
                let s = segs@[k];
                assert(s.source_tile_end_exclusive * 32 <= source_page@.len());
            }
        }
        let count = write_in_place(target_page, source_page, segs, glyphs)?;
        proof {
            lemma_overwritten_tiles(segs@, segs@.len() as int);
            lemma_cells_grow(segs@, segs@.len() as int, segs@.len() as int);
        }
        let tiles = l.source_logical_tiles.clone();
        assert(tiles@ == l.source_logical_tiles@);
        let (target_surface, target_width) = line_preview(source_page, target_page.as_slice(), &tiles, l)?;
        let build = LineBuild {
            source_surface,
            source_width,
            target_surface,
            target_width,
            target_logical_tiles: tiles,
            target_map_offset: None,
            target_map: None,
        };
        let patches: Vec<InstructionPatch> = Vec::new();
        assert(patch_views(patches@) =~= Seq::empty());
        return Ok(LineCompile { build, patches, overwritten: count, appended: 0 });
    }
    if !string_is(&l.placement, "relocated") {
        return Err("credit-name line has an unsupported placement profile");
    }
    let start_len = target_page.len();
    let tiles = append_relocated(target_page, segs, glyphs)?;
    proof {
        lemma_appended_len(glyphs@, segs@, segs@.len() as int);
        lemma_relocated_len(segs@, (start_page.len() / 32) as int, segs@.len() as int);
        assert(cells_upto(segs@, segs@.len() as int) <= 0xFFFF);
    }
    let appended = (target_page.len() - start_len) / 32;
    let map_offset = parse_hex(l.source_map_offset.as_str())?;
    let source_map = source_range(rom, map_offset, l.source_map_bytes)?;
    let map = build_target_map(l, source_map, tiles.as_slice())?;
    let relocated_offset = MAP_BANK_OFFSET + bank_len;
    if map.len() > MAP_BANK_LIMIT - relocated_offset {
        return Err("credit-name relocated map exceeds its declared target bank");
    }
    let patches = build_relocation_patches(l, relocated_offset)?;
    proof {
        lemma_relocation_views(*l, relocated_offset, patches@);
    }
    let (target_surface, target_width) = line_preview(source_page, target_page.as_slice(), &tiles, l)?;
    assert(map@ =~= relocated_map(*l, source_map@, tiles@));
    let build = LineBuild {
        source_surface,
        source_width,
        target_surface,
        target_width,
        target_logical_tiles: tiles,
        target_map_offset: Some(relocated_offset),
        target_map: Some(map),
    };
    Ok(LineCompile { build, patches, overwritten: 0, appended })
}

/// What compiling the first timed lines has produced: the pages, the map
/// bank, the typed patches, each line's outcome, and the tile counts.
pub struct TimedProgress {
    pub pages: Seq<Seq<u8>>,
    pub map_bank: Seq<u8>,
    pub patches: Seq<PatchView>,
    pub outcomes: Seq<LineOutcome>,
    pub overwritten: int,
    pub appended: int,
    pub relocated: int,
}

/// The pages of a list as plain byte sequences.
pub open spec fn pages_view(pages: Seq<Vec<u8>>) -> Seq<Seq<u8>> {
    pages.map_values(|p: Vec<u8>| p@)
}

/// Compiling the first `n` lines, in order, onto `target_pages`; `None` when
/// one of them is refused.
pub open spec fn timed_progress(
    rom: Seq<u8>,
    source_pages: Seq<Seq<u8>>,
    target_pages: Seq<Seq<u8>>,
    lines: Seq<LineDeclaration>,
    glyphs: Seq<NativeGlyph>,
    n: int,
) -> Option<TimedProgress>
    decreases n,
{
    if n <= 0 {
        Some(
            TimedProgress {
                pages: target_pages,
                map_bank: Seq::empty(),
                patches: Seq::empty(),
                outcomes: Seq::empty(),
                overwritten: 0,
                appended: 0,
                relocated: 0,
            },
        )
    } else {
        match timed_progress(rom, source_pages, target_pages, lines, glyphs, n - 1) {
            None => None,
            Some(p) => {
                let l = lines[n - 1];
                if l.page >= source_pages.len() || l.page >= p.pages.len() {
                    None
                } else {
                    match line_outcome(rom, source_pages[l.page as int], p.pages[l.page as int], p.map_bank.len() as int, l, glyphs) {
                        None => None,
                        Some(o) => Some(
                            TimedProgress {
                                pages: p.pages.update(l.page as int, o.page),
                                map_bank: match o.map {
                                    Some(m) => p.map_bank + m,
                                    None => p.map_bank,
                                },
                                patches: p.patches + o.patches,
                                outcomes: p.outcomes.push(o),
                                overwritten: p.overwritten + o.overwritten,
                                appended: p.appended + o.appended,
                                relocated: p.relocated + if o.map is Some {
                                    1int
                                } else {
                                    0
                                },
                            },
                        ),
                    }
                }
            },
        }
    }
}

/// No two typed patches write the same byte.
pub open spec fn patches_disjoint(ps: Seq<PatchView>) -> bool {
    forall|i: int, j: int|
        0 <= i < j < ps.len() ==> (#[trigger] ps[i]).0 + ps[i].2.len() <= (#[trigger] ps[j]).0 || ps[j].0
            + ps[j].2.len() <= ps[i].0
}

/// The visible Korean characters of the first `m` segments.
pub open spec fn segment_chars(segs: Seq<SegmentDeclaration>, m: int) -> Seq<char>
    decreases m,
{
    if m <= 0 {
        Seq::empty()
    } else {
        segment_chars(segs, m - 1) + visible_of(segs[m - 1].ko@)
    }
}

/// The visible Korean characters of the first `n` lines.
pub open spec fn timed_chars(lines: Seq<LineDeclaration>, n: int) -> Seq<char>
    decreases n,
{
    if n <= 0 {
        Seq::empty()
    } else {
        timed_chars(lines, n - 1) + segment_chars(lines[n - 1].segments@, lines[n - 1].segments@.len() as int)
    }
}

/// Consumer window bytes of the first `n` lines.
pub open spec fn consumer_bytes(lines: Seq<LineDeclaration>, n: int) -> int
    decreases n,
{
    if n <= 0 {
        0
    } else {
        consumer_bytes(lines, n - 1) + lines[n - 1].consumer_window_bytes
    }
}

/// Everything the timed credit-name compiler checks: ten pages each side,
/// the manifest, every line's JP consumer, every line compiled in order,
/// typed patches that do not overlap, and a consumer byte total within
/// `usize`.
pub open spec fn timed_ok(
    rom: Seq<u8>,
    source_pages: Seq<Seq<u8>>,
    target_pages: Seq<Seq<u8>>,
    m: CreditsTimedManifest,
    glyphs: Seq<NativeGlyph>,
) -> bool {
    &&& source_pages.len() == 10
    &&& target_pages.len() == 10
    &&& manifest_shape_ok(m)
    &&& forall|k: int| 0 <= k < 7 ==> consumer_ok(rom, #[trigger] m.lines@[k])
    &&& timed_progress(rom, source_pages, target_pages, m.lines@, glyphs, 7) is Some
    &&& patches_disjoint(timed_progress(rom, source_pages, target_pages, m.lines@, glyphs, 7)->0.patches)
    &&& consumer_bytes(m.lines@, 7) <= usize::MAX
}

/// The compiled timed credit names.
pub struct CreditsTimedBuild {
    pub lines: Vec<LineBuild>,
    pub glyphs: Vec<char>,
    pub rewritten_tiles: usize,
    pub overwritten_source_tiles: usize,
    pub appended_tiles: usize,
    pub relocated_lines: usize,
    pub verified_consumer_bytes: usize,
    pub map_bank: Vec<u8>,
    pub instruction_patches: Vec<InstructionPatch>,
}

fn patches_apart(p: &InstructionPatch, q: &InstructionPatch) -> (apart: bool)
    ensures
        apart == (p.offset + p.target@.len() <= q.offset || q.offset + q.target@.len() <= p.offset),
{
    (p.offset <= q.offset && p.target.len() <= q.offset - p.offset) || (q.offset <= p.offset && q.target.len()
        <= p.offset - q.offset)
}

/// Whether no two typed patches write the same byte.
fn patches_overlap_free(ps: &Vec<InstructionPatch>) -> (ok: bool)
    ensures
        ok == patches_disjoint(patch_views(ps@)),
{
    let ghost v = patch_views(ps@);
    let n = ps.len();
    let mut i: usize = 0;
    while i < n
        invariant
            n == ps@.len(),
            v == patch_views(ps@),
            i <= n,
            forall|a: int, b: int|
                0 <= a < i && a < b < n ==> (#[trigger] v[a]).0 + v[a].2.len() <= (#[trigger] v[b]).0 || v[b].0
                    + v[b].2.len() <= v[a].0,
        decreases n - i,
    {
        let mut j: usize = i + 1;
        while j < n
            invariant
                n == ps@.len(),
                v == patch_views(ps@),
                i < n,
                i + 1 <= j <= n,
                forall|a: int, b: int|
                    0 <= a < i && a < b < n ==> (#[trigger] v[a]).0 + v[a].2.len() <= (#[trigger] v[b]).0 || v[b].0
                        + v[b].2.len() <= v[a].0,
                forall|b: int|
                    i < b < j ==> v[i as int].0 + v[i as int].2.len() <= (#[trigger] v[b]).0 || v[b].0 + v[b].2.len()
                        <= v[i as int].0,
            decreases n - j,
        {
            if !patches_apart(&ps[i], &ps[j]) {
                assert(!patches_disjoint(v)) by {
                    assert(v[i as int] == patch_view(ps@[i as int]));
                    assert(v[j as int] == patch_view(ps@[j as int]));
                }
                return false;
            }
            assert(v[j as int] == patch_view(ps@[j as int]));
            assert(v[i as int] == patch_view(ps@[i as int]));
            j = j + 1;
        }
        i = i + 1;
    }
    true
}

/// Append the bytes of `m` to `bank`.
fn push_bytes(bank: &mut Vec<u8>, m: &Vec<u8>)
    ensures
        final(bank)@ == old(bank)@ + m@,
{
    let mut b: usize = 0;
    while b < m.len()
        invariant
            b <= m@.len(),
            bank@ == old(bank)@ + m@.subrange(0, b as int),
        decreases m@.len() - b,
    {
        bank.push(m[b]);
        b = b + 1;
        assert(bank@ =~= old(bank)@ + m@.subrange(0, b as int));
    }
    assert(m@.subrange(0, m@.len() as int) =~= m@);
}

/// Add the visible Korean characters of a line's segments to `seen`.
fn add_segment_chars(seen: &mut Vec<char>, segs: &Vec<SegmentDeclaration>, Ghost(before): Ghost<Seq<char>>)
    requires
        old(seen)@ == distinct_chars(before),
    ensures
        final(seen)@ == distinct_chars(before + segment_chars(segs@, segs@.len() as int)),
{
    let mut k: usize = 0;
    assert(before + segment_chars(segs@, 0) =~= before);
    while k < segs.len()
        invariant
            k <= segs@.len(),
            seen@ == distinct_chars(before + segment_chars(segs@, k as int)),
        decreases segs@.len() - k,
    {
        let ghost prefix = before + segment_chars(segs@, k as int);
        add_visible_chars(seen, segs[k].ko.as_str(), Ghost(prefix));
        assert(prefix + visible_of(segs@[k as int].ko@) =~= before + segment_chars(segs@, k + 1));
        k = k + 1;
    }
}

/// The timed lines compiled so far: pages, map bank, typed patches, line
/// builds and counts all show `timed_progress` after `k` lines.
pub open spec fn progress_shown(
    rom: Seq<u8>,
    source_pages: Seq<Seq<u8>>,
    start: Seq<Seq<u8>>,
    lines: Seq<LineDeclaration>,
    glyphs: Seq<NativeGlyph>,
    k: int,
    pages: Seq<Seq<u8>>,
    bank: Seq<u8>,
    patches: Seq<InstructionPatch>,
    builds: Seq<LineBuild>,
    overwritten: int,
    appended: int,
    relocated: int,
) -> bool {
    let p = timed_progress(rom, source_pages, start, lines, glyphs, k);
    &&& p is Some
    &&& pages == p->0.pages
    &&& bank == p->0.map_bank
    &&& patch_views(patches) == p->0.patches
    &&& overwritten == p->0.overwritten
    &&& appended == p->0.appended
    &&& relocated == p->0.relocated
    &&& p->0.outcomes.len() == k
    &&& builds.len() == k
    &&& forall|j: int|
        0 <= j < k ==> line_build_is(
            #[trigger] builds[j],
            p->0.outcomes[j],
            source_pages[lines[j].page as int],
            lines[j],
        )
}

/// The exec state of the timed compiler between lines.
pub struct TimedState {
    pub map_bank: Vec<u8>,
    pub patches: Vec<InstructionPatch>,
    pub builds: Vec<LineBuild>,
    pub seen: Vec<char>,
    pub overwritten: usize,
    pub appended: usize,
    pub relocated: usize,
}

/// The state shows the first `k` lines compiled, within its bounds.
pub open spec fn state_shows(
    rom: Seq<u8>,
    source_pages: Seq<Seq<u8>>,
    start: Seq<Seq<u8>>,
    lines: Seq<LineDeclaration>,
    glyphs: Seq<NativeGlyph>,
    k: int,
    pages: Seq<Seq<u8>>,
    st: TimedState,
) -> bool {
    &&& progress_shown(
        rom,
        source_pages,
        start,
        lines,
        glyphs,
        k,
        pages,
        st.map_bank@,
        st.patches@,
        st.builds@,
        st.overwritten as int,
        st.appended as int,
        st.relocated as int,
    )
    &&& st.map_bank@.len() <= 0x8000
    &&& st.overwritten <= k * 0x40000
    &&& st.appended <= k * 0x40000
    &&& st.relocated <= k
    &&& st.seen@ == distinct_chars(timed_chars(lines, k))
    &&& forall|j: int| 0 <= j < k ==> (#[trigger] st.builds@[j]).target_logical_tiles@.len() <= 0xFFFF
}

/// Compile line `k` onto its page and record it in the state.
#[verifier::rlimit(100)]
#[verifier::spinoff_prover]
fn compile_step(
    source_rom: &[u8],
    source_pages: &Vec<Vec<u8>>,
    target_pages: &mut Vec<Vec<u8>>,
    st: &mut TimedState,
    lines: &Vec<LineDeclaration>,
    k: usize,
    glyphs: &[NativeGlyph],
    Ghost(start): Ghost<Seq<Seq<u8>>>,
) -> (result: Result<(), Error>)
    requires
        k < 7,
        lines@.len() == 7,
        forall|j: int| 0 <= j < 7 ==> line_bounded(#[trigger] lines@[j]),
        source_pages@.len() == 10,
        old(target_pages)@.len() == 10,
        state_shows(source_rom@, pages_view(source_pages@), start, lines@, glyphs@, k as int, pages_view(old(target_pages)@), *old(st)),
    ensures
        final(target_pages)@.len() == 10,
        result is Ok ==> state_shows(source_rom@, pages_view(source_pages@), start, lines@, glyphs@, k + 1, pages_view(final(target_pages)@), *final(st)),
        result is Err ==> timed_progress(source_rom@, pages_view(source_pages@), start, lines@, glyphs@, k + 1) is None,
{
    let ghost rom = source_rom@;
    let ghost src = pages_view(source_pages@);
    let l = &lines[k];
    assert(line_bounded(lines@[k as int]));
    let ghost p = timed_progress(rom, src, start, lines@, glyphs@, k as int)->0;
    proof {
        reveal(line_bounded);
    }
    let at = l.page;
    let source_page = &source_pages[at];
    assert(src[at as int] == source_page@);
    let mut page: Vec<u8> = Vec::new();
    target_pages.set_and_swap(at, &mut page);
    assert(page@ == p.pages[at as int]);
    let compiled = match compile_line(source_rom, source_page.as_slice(), &mut page, st.map_bank.len(), l, glyphs) {
        Ok(c) => c,
        Err(e) => {
            target_pages.set(at, page);
            assert(p.pages.len() == 10);
            assert(timed_progress(rom, src, start, lines@, glyphs@, k + 1) is None);
            return Err(e);
        },
    };
    let ghost o = line_outcome(rom, src[at as int], p.pages[at as int], p.map_bank.len() as int, *l, glyphs@)->0;
    target_pages.set(at, page);
    assert(pages_view(target_pages@) =~= p.pages.update(at as int, o.page));
    let LineCompile { build, patches: line_patches, overwritten: o_count, appended: a_count } = compiled;
    match &build.target_map {
        Some(m) => {
            push_bytes(&mut st.map_bank, m);
            st.relocated = st.relocated + 1;
        },
        None => {},
    }
    let ghost old_patches = st.patches@;
    let mut line_patches = line_patches;
    st.patches.append(&mut line_patches);
    assert(patch_views(st.patches@) =~= patch_views(old_patches) + o.patches);
    st.overwritten = st.overwritten + o_count;
    st.appended = st.appended + a_count;
    add_segment_chars(&mut st.seen, &l.segments, Ghost(timed_chars(lines@, k as int)));
    let ghost old_builds = st.builds@;
    st.builds.push(build);
    proof {
        let q = timed_progress(rom, src, start, lines@, glyphs@, k + 1)->0;
        assert(q.outcomes == p.outcomes.push(o));
        assert forall|j: int| 0 <= j < k + 1 implies line_build_is(
            #[trigger] st.builds@[j],
            q.outcomes[j],
            src[lines@[j].page as int],
            lines@[j],
        ) by {
            if j < k {
                assert(st.builds@[j] == old_builds[j]);
            }
        }
        assert forall|j: int| 0 <= j < k + 1 implies (#[trigger] st.builds@[j]).target_logical_tiles@.len() <= 0xFFFF by {
            if j < k {
                assert(st.builds@[j] == old_builds[j]);
            }
        }
    }
    Ok(())
}

/// Compile the seven timed credit-name lines onto their target pages: check
/// the manifest and every JP consumer, compile each line in order, and
/// refuse typed patches that overlap.
#[verifier::rlimit(100)]
#[verifier::spinoff_prover]
pub fn compile_credits_timed(
    source_rom: &[u8],
    source_pages: &Vec<Vec<u8>>,
    target_pages: &mut Vec<Vec<u8>>,
    manifest: &CreditsTimedManifest,
    glyphs: &[NativeGlyph],
) -> (build: Result<CreditsTimedBuild, Error>)
    ensures
        (source_pages@.len() != 10 || old(target_pages)@.len() != 10) ==> (build matches Err(e) && e@
            == "credit-name compiler requires ten source and target pages"@),
        build is Err ==> final(target_pages)@ == old(target_pages)@,
        build is Ok <==> timed_ok(
            source_rom@,
            pages_view(source_pages@),
            pages_view(old(target_pages)@),
            *manifest,
            glyphs@,
        ),
        build matches Ok(b) ==> {
            let p = timed_progress(
                source_rom@,
                pages_view(source_pages@),
                pages_view(old(target_pages)@),
                manifest.lines@,
                glyphs@,
                7,
            )->0;
            &&& pages_view(final(target_pages)@) == p.pages
            &&& pages_owned(pages_view(old(target_pages)@), pages_view(final(target_pages)@), manifest.lines@, 7)
            &&& b.map_bank@ == p.map_bank
            &&& 0x2F_8000 + b.map_bank@.len() <= 0x30_0000
            &&& patch_views(b.instruction_patches@).to_multiset() == p.patches.to_multiset()
            &&& offsets_increasing(patch_views(b.instruction_patches@))
            &&& patches_disjoint(patch_views(b.instruction_patches@))
            &&& b.overwritten_source_tiles == p.overwritten
            &&& b.appended_tiles == p.appended
            &&& b.rewritten_tiles == p.overwritten + p.appended
            &&& b.relocated_lines == p.relocated
            &&& b.verified_consumer_bytes == consumer_bytes(manifest.lines@, 7)
            &&& chars_increasing(b.glyphs@)
            &&& forall|c: char| #[trigger] b.glyphs@.contains(c) <==> timed_chars(manifest.lines@, 7).contains(c)
            &&& b.lines@.len() == 7
            &&& patches_same_length(patch_views(b.instruction_patches@))
            &&& forall|k: int| 0 <= k < 7 ==> (#[trigger] b.lines@[k]).target_logical_tiles@.len() <= 0xFFFF
            &&& forall|k: int|
                0 <= k < 7 ==> line_build_is(
                    #[trigger] b.lines@[k],
                    p.outcomes[k],
                    source_pages@[manifest.lines@[k].page as int]@,
                    manifest.lines@[k],
                )
        },
{
    if source_pages.len() != 10 || target_pages.len() != 10 {
        let e = "credit-name compiler requires ten source and target pages";
        proof {
            reveal_strlit("credit-name compiler requires ten source and target pages");
        }
        return Err(e);
    }
    validate_manifest_shape(manifest)?;
    let lines = &manifest.lines;
    validate_consumers(source_rom, lines)?;
    let ghost start = pages_view(target_pages@);
    let mut work = copy_pages(target_pages);
    let mut st = TimedState {
        map_bank: Vec::new(),
        patches: Vec::new(),
        builds: Vec::new(),
        seen: Vec::new(),
        overwritten: 0,
        appended: 0,
        relocated: 0,
    };
    assert(patch_views(st.patches@) =~= Seq::empty());
    assert(st.seen@ =~= distinct_chars(timed_chars(lines@, 0)));
    proof {
        assert forall|j: int| 0 <= j < 7 implies line_bounded(#[trigger] lines@[j]) by {
            assert(line_ok(lines@[j], j, manifest.font_sha256@));
            lemma_line_bounds(lines@[j], j, manifest.font_sha256@);
        }
    }
    let mut k: usize = 0;
    while k < 7
        invariant
            lines@.len() == 7,
            forall|j: int| 0 <= j < 7 ==> line_bounded(#[trigger] lines@[j]),
            source_pages@.len() == 10,
            work@.len() == 10,
            target_pages@ == old(target_pages)@,
            old(target_pages)@.len() == 10,
            k <= 7,
            lines@ == manifest.lines@,
            start == pages_view(old(target_pages)@),
            state_shows(source_rom@, pages_view(source_pages@), start, lines@, glyphs@, k as int, pages_view(work@), st),
        decreases 7 - k,
    {
        match compile_step(source_rom, source_pages, &mut work, &mut st, lines, k, glyphs, Ghost(start)) {
            Ok(()) => {},
            Err(e) => {
                proof {
                    lemma_progress_stops(source_rom@, pages_view(source_pages@), start, lines@, glyphs@, k + 1, 7);
                }
                return Err(e);
            },
        }
        k = k + 1;
    }
    let TimedState { map_bank, patches, builds, seen, overwritten, appended, relocated } = st;
    proof {
        lemma_progress_patches(source_rom@, pages_view(source_pages@), start, lines@, glyphs@, 7);
    }
    if !patches_overlap_free(&patches) {
        return Err("timed-credit typed instruction patches overlap");
    }
    let ghost generated = patches@;
    let patches = sort_patches(patches);
    proof {
        lemma_same_length_perm(patch_views(patches@), patch_views(generated));
        lemma_distinct_contains(timed_chars(lines@, 7));
        lemma_timed_ownership(source_rom@, pages_view(source_pages@), start, lines@, glyphs@, 7);
    }
    let glyph_chars = sorted_chars(&seen);
    let consumer_total = match total_consumer_bytes(lines) {
        Some(t) => t,
        None => {
            return Err("credit-name consumer windows exceed the address space");
        },
    };
    *target_pages = work;
    Ok(
        CreditsTimedBuild {
            lines: builds,
            glyphs: glyph_chars,
            rewritten_tiles: overwritten + appended,
            overwritten_source_tiles: overwritten,
            appended_tiles: appended,
            relocated_lines: relocated,
            verified_consumer_bytes: consumer_total,
            map_bank,
            instruction_patches: patches,
        },
    )
}

/// Check every line's JP consumer.
fn validate_consumers(rom: &[u8], lines: &Vec<LineDeclaration>) -> (result: Result<(), Error>)
    ensures
        result is Ok <==> forall|j: int| 0 <= j < lines@.len() ==> consumer_ok(rom@, #[trigger] lines@[j]),
{
    let mut k: usize = 0;
    while k < lines.len()
        invariant
            k <= lines@.len(),
            forall|j: int| 0 <= j < k ==> consumer_ok(rom@, #[trigger] lines@[j]),
        decreases lines@.len() - k,
    {
        validate_consumer(rom, &lines[k])?;
        k = k + 1;
    }
    Ok(())
}

/// The consumer window bytes of all lines, when the total fits `usize`.
fn total_consumer_bytes(lines: &Vec<LineDeclaration>) -> (total: Option<usize>)
    ensures
        total is Some <==> consumer_bytes(lines@, lines@.len() as int) <= usize::MAX,
        total matches Some(t) ==> t == consumer_bytes(lines@, lines@.len() as int),
{
    let mut sum: usize = 0;
    let mut j: usize = 0;
    while j < lines.len()
        invariant
            j <= lines@.len(),
            sum == consumer_bytes(lines@, j as int),
        decreases lines@.len() - j,
    {
        if lines[j].consumer_window_bytes > usize::MAX - sum {
            proof {
                lemma_consumer_bytes_grow(lines@, j + 1, lines@.len() as int);
            }
            return None;
        }
        sum = sum + lines[j].consumer_window_bytes;
        j = j + 1;
    }
    Some(sum)
}

proof fn lemma_relocation_same_length(l: LineDeclaration, offset: usize)
    requires
        relocation_ok(l, offset),
    ensures
        patches_same_length(relocation_views(l, offset)),
        targets_nonempty(relocation_views(l, offset)),
{
    let v = relocation_views(l, offset);
    let n = l.draw_count_patches@.len() as int;
    assert forall|i: int| 0 <= i < v.len() implies (#[trigger] v[i]).1.len() == v[i].2.len() && v[i].2.len() > 0 by {
        if 1 <= i <= n {
            assert(count_patch_assembles(l.draw_count_patches@[i - 1]));
        }
    }
}

proof fn lemma_progress_patches(
    rom: Seq<u8>,
    source_pages: Seq<Seq<u8>>,
    target_pages: Seq<Seq<u8>>,
    lines: Seq<LineDeclaration>,
    glyphs: Seq<NativeGlyph>,
    n: int,
)
    requires
        timed_progress(rom, source_pages, target_pages, lines, glyphs, n) is Some,
    ensures
        patches_same_length(timed_progress(rom, source_pages, target_pages, lines, glyphs, n)->0.patches),
        targets_nonempty(timed_progress(rom, source_pages, target_pages, lines, glyphs, n)->0.patches),
    decreases n,
{
    reveal(line_outcome);
    if n > 0 {
        lemma_progress_patches(rom, source_pages, target_pages, lines, glyphs, n - 1);
        let p = timed_progress(rom, source_pages, target_pages, lines, glyphs, n - 1)->0;
        let l = lines[n - 1];
        let o = line_outcome(rom, source_pages[l.page as int], p.pages[l.page as int], p.map_bank.len() as int, l, glyphs)->0;
        if o.map is Some {
            lemma_relocation_same_length(l, (0x2F_8000 + p.map_bank.len()) as usize);
        }
        let q = p.patches + o.patches;
        assert forall|i: int| 0 <= i < q.len() implies (#[trigger] q[i]).1.len() == q[i].2.len() && q[i].2.len() > 0 by {
            if i >= p.patches.len() {
                assert(q[i] == o.patches[i - p.patches.len()]);
            }
        }
    }
}

proof fn lemma_progress_stops(
    rom: Seq<u8>,
    source_pages: Seq<Seq<u8>>,
    target_pages: Seq<Seq<u8>>,
    lines: Seq<LineDeclaration>,
    glyphs: Seq<NativeGlyph>,
    n: int,
    m: int,
)
    requires
        0 <= n <= m,
        timed_progress(rom, source_pages, target_pages, lines, glyphs, n) is None,
    ensures
        timed_progress(rom, source_pages, target_pages, lines, glyphs, m) is None,
    decreases m - n,
{
    if n < m {
        lemma_progress_stops(rom, source_pages, target_pages, lines, glyphs, n, m - 1);
    }
}

proof fn lemma_consumer_bytes_grow(lines: Seq<LineDeclaration>, n: int, m: int)
    requires
        0 <= n <= m,
    ensures
        consumer_bytes(lines, n) <= consumer_bytes(lines, m),
    decreases m - n,
{
    if n < m {
        lemma_consumer_bytes_grow(lines, n, m - 1);
    }
}

/// The JP consumer window at `at` with the first `n` typed patches that lie
/// inside it applied in order, each checked against the bytes it replaces;
/// `None` on a mismatch.
pub open spec fn patched_window(window: Seq<u8>, at: int, ps: Seq<PatchView>, n: int) -> Option<Seq<u8>>
    decreases n,
{
    if n <= 0 {
        Some(window)
    } else {
        match patched_window(window, at, ps, n - 1) {
            None => None,
            Some(w) => {
                let p = ps[n - 1];
                if at <= p.0 && p.0 + p.2.len() <= at + window.len() {
                    let r = p.0 - at;
                    if w.subrange(r, r + p.1.len()) == p.1 {
                        Some(written(w, r, p.2))
                    } else {
                        None
                    }
                } else {
                    Some(w)
                }
            },
        }
    }
}

/// Every typed patch replaces as many bytes as it reads.
pub open spec fn patches_same_length(ps: Seq<PatchView>) -> bool {
    forall|i: int| 0 <= i < ps.len() ==> (#[trigger] ps[i]).1.len() == ps[i].2.len()
}

/// The output keeps line `l`'s JP sprite map, its consumer window differs
/// from the JP one only by the typed patches, and its draw call stands.
pub open spec fn line_output_ok(rom: Seq<u8>, out: Seq<u8>, ps: Seq<PatchView>, l: LineDeclaration) -> bool {
    let at = spec_parse_hex(l.consumer_window_offset@).unwrap() as int;
    let end = at + l.consumer_window_bytes;
    &&& source_map_present(rom, l)
    &&& source_map_present(out, l)
    &&& source_map_of(out, l) == source_map_of(rom, l)
    &&& hex_fits(l.consumer_window_offset@, usize::MAX as nat)
    &&& end <= rom.len()
    &&& end <= out.len()
    &&& patched_window(rom.subrange(at, end), at, ps, ps.len() as int) matches Some(w) && out.subrange(at, end) == w
    &&& hex_fits(l.draw_call_offset@, usize::MAX as nat)
    &&& rom_has(out, spec_parse_hex(l.draw_call_offset@).unwrap() as int, jsr_draw())
}

/// A relocated line's map stands in the output and is its declared map.
pub open spec fn relocated_output_ok(out: Seq<u8>, b: LineBuild, l: LineDeclaration) -> bool {
    match (b.target_map_offset, b.target_map) {
        (Some(o), Some(m)) => {
            &&& rom_has(out, o as int, m@)
            &&& (static_profile(l) || consumer_profile(l))
            &&& declared_map_ok(
                m@,
                if static_profile(l) {
                    b.target_logical_tiles@.reverse()
                } else {
                    b.target_logical_tiles@
                },
                l,
            )
        },
        _ => true,
    }
}

/// Everything the output check of the timed credit names asks.
pub open spec fn output_ok(rom: Seq<u8>, out: Seq<u8>, b: CreditsTimedBuild, lines: Seq<LineDeclaration>) -> bool {
    &&& forall|k: int| 0 <= k < lines.len() ==> line_output_ok(rom, out, patch_views(b.instruction_patches@), #[trigger] lines[k])
    &&& forall|k: int|
        0 <= k < lines.len() && k < b.lines@.len() ==> relocated_output_ok(out, #[trigger] b.lines@[k], lines[k])
}

/// Apply the typed patches inside the window at `at`, checking each against
/// the bytes it replaces.
fn apply_window_patches(window: &mut Vec<u8>, at: usize, ps: &Vec<InstructionPatch>) -> (ok: bool)
    requires
        patches_same_length(patch_views(ps@)),
    ensures
        ok == patched_window(old(window)@, at as int, patch_views(ps@), ps@.len() as int) is Some,
        ok ==> final(window)@ == patched_window(old(window)@, at as int, patch_views(ps@), ps@.len() as int)->0,
{
    let ghost start = window@;
    let ghost v = patch_views(ps@);
    let n = ps.len();
    let len = window.len();
    let mut i: usize = 0;
    while i < n
        invariant
            n == ps@.len(),
            v == patch_views(ps@),
            patches_same_length(v),
            len == start.len(),
            start == old(window)@,
            window@.len() == len,
            i <= n,
            patched_window(start, at as int, v, i as int) == Some(window@),
        decreases n - i,
    {
        let p = &ps[i];
        assert(v[i as int] == patch_view(ps@[i as int]));
        assert(v[i as int].1.len() == v[i as int].2.len());
        if at <= p.offset && p.offset - at <= len && p.target.len() <= len - (p.offset - at) {
            let r = p.offset - at;
            let same = bytes_equal(&window.as_slice()[r..r + p.source.len()], p.source.as_slice());
            if !same {
                proof {
                    assert(patched_window(start, at as int, v, i + 1) is None);
                    lemma_window_stops(start, at as int, v, i + 1, n as int);
                }
                return false;
            }
            let ghost before = window@;
            let mut b: usize = 0;
            while b < p.target.len()
                invariant
                    r + p.target@.len() <= before.len(),
                    before.len() == len,
                    window@.len() == before.len(),
                    b <= p.target@.len(),
                    forall|x: int|
                        0 <= x < window@.len() ==> #[trigger] window@[x] == if r <= x < r + b {
                            p.target@[x - r]
                        } else {
                            before[x]
                        },
                decreases p.target@.len() - b,
            {
                window.set(r + b, p.target[b]);
                b = b + 1;
            }
            assert(window@ =~= written(before, r as int, p.target@));
        }
        i = i + 1;
    }
    true
}

proof fn lemma_window_stops(window: Seq<u8>, at: int, ps: Seq<PatchView>, n: int, m: int)
    requires
        0 <= n <= m,
        patched_window(window, at, ps, n) is None,
    ensures
        patched_window(window, at, ps, m) is None,
    decreases m - n,
{
    if n < m {
        lemma_window_stops(window, at, ps, n, m - 1);
    }
}

/// Check the output around one line: its JP map, its consumer window and
/// its draw call.
fn check_line_output(rom: &[u8], out: &[u8], ps: &Vec<InstructionPatch>, l: &LineDeclaration) -> (result: Result<(), Error>)
    requires
        patches_same_length(patch_views(ps@)),
    ensures
        result is Ok <==> line_output_ok(rom@, out@, patch_views(ps@), *l),
{
    let map_at = parse_hex(l.source_map_offset.as_str())?;
    let source_map = source_range(rom, map_at, l.source_map_bytes)?;
    let output_map = source_range(out, map_at, l.source_map_bytes)?;
    if !bytes_equal(output_map, source_map) {
        return Err("credit-name output changed its protected JP sprite map");
    }
    let at = parse_hex(l.consumer_window_offset.as_str())?;
    let source_window = source_range(rom, at, l.consumer_window_bytes)?;
    let output_window = source_range(out, at, l.consumer_window_bytes)?;
    let mut expected = copy_bytes(source_window);
    if !apply_window_patches(&mut expected, at, ps) {
        return Err("typed source patch does not match its JP consumer window");
    }
    if !bytes_equal(output_window, expected.as_slice()) {
        return Err("credit-name output consumer differs outside its typed count/map-pointer edits");
    }
    let draw_at = parse_hex(l.draw_call_offset.as_str())?;
    let draw = source_range(out, draw_at, 6)?;
    let jsr: [u8; 6] = [0x4E, 0xB9, 0x00, 0x00, 0x18, 0x56];
    assert(jsr@ =~= jsr_draw());
    if !bytes_equal(draw, jsr.as_slice()) {
        return Err("credit-name output sprite-draw call drifted");
    }
    Ok(())
}

/// Check a relocated line's map in the output.
fn check_relocated_output(out: &[u8], b: &LineBuild, l: &LineDeclaration) -> (result: Result<(), Error>)
    requires
        b.target_logical_tiles@.len() <= 0xFFFF,
    ensures
        result is Ok <==> relocated_output_ok(out@, *b, *l),
{
    match (&b.target_map_offset, &b.target_map) {
        (Some(o), Some(m)) => {
            let actual = source_range(out, *o, m.len())?;
            if !bytes_equal(actual, m.as_slice()) {
                return Err("credit-name relocated sprite map drifted");
            }
            let is_static = match &l.target_map_profile {
                Some(p) => if string_is(p, "static_centered_right_to_left") {
                    true
                } else if string_is(p, "consumer_positioned_left_to_right") {
                    false
                } else {
                    return Err("credit-name line has no valid relocated-map profile");
                },
                None => {
                    return Err("credit-name line has no valid relocated-map profile");
                },
            };
            proof {
                reveal_strlit("static_centered_right_to_left");
                reveal_strlit("consumer_positioned_left_to_right");
            }
            assert(is_static == static_profile(*l));
            let tiles = &b.target_logical_tiles;
            let n = tiles.len();
            let mut records: Vec<usize> = Vec::with_capacity(n);
            let mut k: usize = 0;
            while k < n
                invariant
                    n == tiles@.len(),
                    k <= n,
                    records@.len() == k,
                    forall|j: int|
                        0 <= j < k ==> #[trigger] records@[j] == if is_static {
                            tiles@[n - 1 - j]
                        } else {
                            tiles@[j]
                        },
                decreases n - k,
            {
                if is_static {
                    records.push(tiles[n - 1 - k]);
                } else {
                    records.push(tiles[k]);
                }
                k = k + 1;
            }
            if is_static {
                assert(records@ =~= tiles@.reverse());
            } else {
                assert(records@ =~= tiles@);
            }
            validate_declared_map(m.as_slice(), records.as_slice(), l)
        },
        _ => Ok(()),
    }
}

impl CreditsTimedBuild {
    /// Check a written ROM against the timed build: every JP map and draw
    /// call kept, every consumer window changed only by the typed patches,
    /// every relocated map in place.
    pub fn validate_output_consumers(&self, manifest: &CreditsTimedManifest, source_rom: &[u8], output: &[u8]) -> (result:
        Result<(), Error>)
        requires
            patches_same_length(patch_views(self.instruction_patches@)),
            forall|k: int| 0 <= k < self.lines@.len() ==> (#[trigger] self.lines@[k]).target_logical_tiles@.len() <= 0xFFFF,
        ensures
            result is Ok <==> output_ok(source_rom@, output@, *self, manifest.lines@),
    {
        let lines = &manifest.lines;
        let mut k: usize = 0;
        while k < lines.len()
            invariant
                patches_same_length(patch_views(self.instruction_patches@)),
                lines@ == manifest.lines@,
                k <= lines@.len(),
                forall|j: int|
                    0 <= j < k ==> line_output_ok(source_rom@, output@, patch_views(self.instruction_patches@), #[trigger] lines@[j]),
            decreases lines@.len() - k,
        {
            match check_line_output(source_rom, output, &self.instruction_patches, &lines[k]) {
                Ok(()) => {},
                Err(e) => {
                    assert(!line_output_ok(source_rom@, output@, patch_views(self.instruction_patches@), lines@[k as int]));
                    return Err(e);
                },
            }
            k = k + 1;
        }
        let mut k: usize = 0;
        while k < lines.len() && k < self.lines.len()
            invariant
                lines@ == manifest.lines@,
                forall|j: int| 0 <= j < lines@.len() ==> line_output_ok(source_rom@, output@, patch_views(self.instruction_patches@), #[trigger] lines@[j]),
                forall|j: int| 0 <= j < self.lines@.len() ==> (#[trigger] self.lines@[j]).target_logical_tiles@.len() <= 0xFFFF,
                k <= lines@.len(),
                forall|j: int| 0 <= j < k && j < self.lines@.len() ==> relocated_output_ok(output@, #[trigger] self.lines@[j], lines@[j]),
            decreases lines@.len() - k,
        {
            match check_relocated_output(output, &self.lines[k], &lines[k]) {
                Ok(()) => {},
                Err(e) => {
                    assert(!relocated_output_ok(output@, self.lines@[k as int], lines@[k as int]));
                    return Err(e);
                },
            }
            k = k + 1;
        }
        Ok(())
    }
}

/// Typed patches in strictly increasing offset order.
pub open spec fn offsets_increasing(v: Seq<PatchView>) -> bool {
    forall|i: int, j: int| 0 <= i < j < v.len() ==> (#[trigger] v[i]).0 < (#[trigger] v[j]).0
}

/// Every typed patch writes at least one byte.
pub open spec fn targets_nonempty(v: Seq<PatchView>) -> bool {
    forall|i: int| 0 <= i < v.len() ==> (#[trigger] v[i]).2.len() > 0
}

proof fn lemma_views_insert(v: Seq<InstructionPatch>, i: int, x: InstructionPatch)
    requires
        0 <= i <= v.len(),
    ensures
        patch_views(v.insert(i, x)) == patch_views(v).insert(i, patch_view(x)),
{
    assert(patch_views(v.insert(i, x)) =~= patch_views(v).insert(i, patch_view(x)));
}

/// Order typed patches that do not overlap by their offsets.
#[verifier::rlimit(60)]
#[verifier::spinoff_prover]
fn sort_patches(ps: Vec<InstructionPatch>) -> (sorted: Vec<InstructionPatch>)
    requires
        patches_disjoint(patch_views(ps@)),
        targets_nonempty(patch_views(ps@)),
    ensures
        patch_views(sorted@).to_multiset() == patch_views(ps@).to_multiset(),
        offsets_increasing(patch_views(sorted@)),
        patches_disjoint(patch_views(sorted@)),
{
    broadcast use vstd::multiset::group_multiset_axioms;
    let ghost gv = patch_views(ps@);
    let mut rem = ps;
    let mut out: Vec<InstructionPatch> = Vec::new();
    assert(patch_views(rem@) =~= gv.subrange(0, rem@.len() as int));
    assert(patch_views(out@) =~= Seq::<PatchView>::empty());
    proof {
        vstd::seq_lib::to_multiset_len(patch_views(out@));
        vstd::multiset::lemma_multiset_empty_len(patch_views(out@).to_multiset());
        assert(gv.subrange(0, gv.len() as int) =~= gv);
    }
    assert(patch_views(out@).to_multiset().add(patch_views(rem@).to_multiset()) =~= gv.to_multiset());
    while rem.len() > 0
        invariant
            gv.len() >= rem@.len(),
            patch_views(rem@) == gv.subrange(0, rem@.len() as int),
            patch_views(out@).to_multiset().add(patch_views(rem@).to_multiset()) == gv.to_multiset(),
            offsets_increasing(patch_views(out@)),
            patches_disjoint(patch_views(out@)),
            forall|i: int|
                0 <= i < out@.len() ==> exists|j: int| rem@.len() <= j < gv.len() && #[trigger] patch_views(out@)[i] == gv[j],
            patches_disjoint(gv),
            targets_nonempty(gv),
        decreases rem@.len(),
    {
        let ghost old_rem = rem@;
        let ghost ov = patch_views(out@);
        let x = match rem.pop() {
            Some(x) => x,
            None => {
                return out;
            },
        };
        let ghost r = rem@.len() as int;
        assert(patch_view(x) == gv[r]) by {
            assert(patch_views(old_rem)[r] == gv.subrange(0, r + 1)[r]);
        }
        assert(patch_views(rem@) =~= gv.subrange(0, r));
        assert(gv.subrange(0, r + 1) =~= gv.subrange(0, r).push(gv[r]));
        let mut pos: usize = 0;
        while pos < out.len() && out[pos].offset < x.offset
            invariant
                pos <= out@.len(),
                ov == patch_views(out@),
                forall|q: int| 0 <= q < pos ==> (#[trigger] ov[q]).0 < x.offset,
            decreases out@.len() - pos,
        {
            assert(ov[pos as int] == patch_view(out@[pos as int]));
            pos = pos + 1;
        }
        proof {
            if pos < out@.len() {
                assert(ov[pos as int] == patch_view(out@[pos as int]));
                let j = choose|j: int| r + 1 <= j < gv.len() && ov[pos as int] == gv[j];
                assert(gv[r].0 + gv[r].2.len() <= gv[j].0 || gv[j].0 + gv[j].2.len() <= gv[r].0);
                assert(ov[pos as int].0 > x.offset);
            }
        }
        let ghost xv = patch_view(x);
        let ghost xg = x;
        let ghost before_out = out@;
        out.insert(pos, x);
        proof {
            lemma_views_insert(before_out, pos as int, xg);
            let nv = patch_views(out@);
            assert(nv =~= ov.insert(pos as int, xv));
            assert forall|i: int| 0 <= i < nv.len() implies exists|j: int|
                r <= j < gv.len() && #[trigger] nv[i] == gv[j] by {
                if i < pos {
                    assert(nv[i] == ov[i]);
                } else if i == pos {
                    assert(nv[i] == gv[r]);
                } else {
                    assert(nv[i] == ov[i - 1]);
                }
            }
            assert forall|a: int, b: int| 0 <= a < b < nv.len() implies (#[trigger] nv[a]).0 < (#[trigger] nv[b]).0
                && (nv[a].0 + nv[a].2.len() <= nv[b].0 || nv[b].0 + nv[b].2.len() <= nv[a].0) by {
                if a != pos && b != pos {
                    let a0 = if a < pos { a } else { a - 1 };
                    let b0 = if b < pos { b } else { b - 1 };
                    assert(nv[a] == ov[a0] && nv[b] == ov[b0]);
                } else {
                    let o = if a == pos { b } else { a };
                    let o0 = if o < pos { o } else { o - 1 };
                    assert(nv[o] == ov[o0]);
                    let j = choose|j: int| r + 1 <= j < gv.len() && ov[o0] == gv[j];
                    assert(gv[r].0 + gv[r].2.len() <= gv[j].0 || gv[j].0 + gv[j].2.len() <= gv[r].0);
                    if o0 >= pos as int && pos < ov.len() {
                        assert(ov[pos as int].0 > xv.0);
                        assert(ov[pos as int].0 <= ov[o0].0);
                    }
                }
            }
            vstd::seq_lib::to_multiset_insert(ov, pos as int, xv);
            vstd::seq_lib::to_multiset_build(gv.subrange(0, r), gv[r]);
            assert(nv.to_multiset() == ov.to_multiset().insert(xv));
            assert(gv.subrange(0, r).push(gv[r]).to_multiset() == gv.subrange(0, r).to_multiset().insert(gv[r]));
            assert(patch_views(old_rem) == gv.subrange(0, r).push(gv[r]));
            assert(patch_views(old_rem).to_multiset() == patch_views(rem@).to_multiset().insert(xv));
            assert(nv.to_multiset().add(patch_views(rem@).to_multiset()) =~= ov.to_multiset().add(
                patch_views(old_rem).to_multiset(),
            ));
        }
    }
    assert(patch_views(rem@) =~= Seq::<PatchView>::empty());
    proof {
        vstd::seq_lib::to_multiset_len(patch_views(rem@));
        vstd::multiset::lemma_multiset_empty_len(patch_views(rem@).to_multiset());
    }
    assert(patch_views(out@).to_multiset().add(patch_views(rem@).to_multiset()) =~= patch_views(out@).to_multiset());
    out
}

/// Characters in strictly increasing order.
pub open spec fn chars_increasing(v: Seq<char>) -> bool {
    forall|i: int, j: int| 0 <= i < j < v.len() ==> (#[trigger] v[i]) < (#[trigger] v[j])
}

proof fn lemma_distinct_contains(s: Seq<char>)
    ensures
        forall|c: char| #[trigger] distinct_chars(s).contains(c) <==> s.contains(c),
    decreases s.len(),
{
    if s.len() > 0 {
        let t = s.drop_last();
        let x = s.last();
        lemma_distinct_contains(t);
        assert(s[s.len() - 1] == x);
        assert forall|c: char| #[trigger] distinct_chars(s).contains(c) <==> s.contains(c) by {
            let d = distinct_chars(t);
            if c == x {
                if !d.contains(x) {
                    assert(d.push(x)[d.len() as int] == x);
                }
            } else {
                if s.contains(c) {
                    let i = choose|i: int| 0 <= i < s.len() && s[i] == c;
                    assert(t[i] == c);
                }
                if t.contains(c) {
                    let i = choose|i: int| 0 <= i < t.len() && t[i] == c;
                    assert(s[i] == c);
                }
                if !d.contains(x) {
                    if d.push(x).contains(c) {
                        let i = choose|i: int| 0 <= i < d.push(x).len() && d.push(x)[i] == c;
                        assert(d[i] == c);
                    }
                    if d.contains(c) {
                        let i = choose|i: int| 0 <= i < d.len() && d[i] == c;
                        assert(d.push(x)[i] == c);
                    }
                }
            }
        }
    }
}

/// The characters of `chars`, each once, in increasing order.
fn sorted_chars(chars: &Vec<char>) -> (sorted: Vec<char>)
    ensures
        chars_increasing(sorted@),
        forall|c: char| #[trigger] sorted@.contains(c) <==> chars@.contains(c),
{
    let mut sorted: Vec<char> = Vec::new();
    let mut k: usize = 0;
    while k < chars.len()
        invariant
            k <= chars@.len(),
            chars_increasing(sorted@),
            forall|c: char| #[trigger] sorted@.contains(c) <==> chars@.take(k as int).contains(c),
        decreases chars@.len() - k,
    {
        let c = chars[k];
        assert(chars@.take(k + 1) =~= chars@.take(k as int).push(c));
        let mut pos: usize = 0;
        while pos < sorted.len() && sorted[pos] < c
            invariant
                pos <= sorted@.len(),
                forall|q: int| 0 <= q < pos ==> (#[trigger] sorted@[q]) < c,
            decreases sorted@.len() - pos,
        {
            pos = pos + 1;
        }
        if pos < sorted.len() && sorted[pos] == c {
            assert forall|d: char| #[trigger] sorted@.contains(d) <==> chars@.take(k + 1).contains(d) by {
                if d == c {
                    assert(sorted@[pos as int] == c);
                    assert(chars@.take(k + 1)[k as int] == c);
                }
                if chars@.take(k + 1).contains(d) && d != c {
                    let i = choose|i: int| 0 <= i < k + 1 && #[trigger] chars@.take(k + 1)[i] == d;
                    assert(chars@.take(k as int)[i] == d);
                }
            }
        } else {
            let ghost before = sorted@;
            sorted.insert(pos, c);
            assert forall|d: char| #[trigger] sorted@.contains(d) <==> chars@.take(k + 1).contains(d) by {
                if d == c {
                    assert(sorted@[pos as int] == c);
                    assert(chars@.take(k + 1)[k as int] == c);
                } else {
                    if sorted@.contains(d) {
                        let i = choose|i: int| 0 <= i < sorted@.len() && sorted@[i] == d;
                        if i < pos {
                            assert(before[i] == d);
                        } else {
                            assert(before[i - 1] == d);
                        }
                        assert(before.contains(d));
                        assert(chars@.take(k as int).contains(d));
                        let j = choose|j: int| 0 <= j < k && #[trigger] chars@.take(k as int)[j] == d;
                        assert(chars@.take(k + 1)[j] == d);
                    }
                    if chars@.take(k + 1).contains(d) {
                        let i = choose|i: int| 0 <= i < k + 1 && #[trigger] chars@.take(k + 1)[i] == d;
                        assert(chars@.take(k as int)[i] == d);
                        assert(before.contains(d));
                        let j = choose|j: int| 0 <= j < before.len() && before[j] == d;
                        if j < pos {
                            assert(sorted@[j] == d);
                        } else {
                            assert(sorted@[j + 1] == d);
                        }
                    }
                }
            }
            assert forall|a: int, b: int| 0 <= a < b < sorted@.len() implies (#[trigger] sorted@[a]) < (#[trigger] sorted@[b]) by {
                if pos < before.len() {
                    assert(before[pos as int] > c);
                }
                if a < pos && b < pos {
                    assert(sorted@[a] == before[a] && sorted@[b] == before[b]);
                } else if a < pos && b == pos {
                    assert(sorted@[a] == before[a]);
                } else if a < pos {
                    assert(sorted@[a] == before[a] && sorted@[b] == before[b - 1]);
                } else if a == pos {
                    assert(sorted@[b] == before[b - 1]);
                    if b - 1 > pos {
                        assert(before[pos as int] < before[b - 1]);
                    }
                } else {
                    assert(sorted@[a] == before[a - 1] && sorted@[b] == before[b - 1]);
                }
            }
        }
        k = k + 1;
    }
    assert(chars@.take(k as int) =~= chars@);
    sorted
}

/// A fresh copy of every page.
fn copy_pages(pages: &Vec<Vec<u8>>) -> (copy: Vec<Vec<u8>>)
    ensures
        copy@.len() == pages@.len(),
        pages_view(copy@) == pages_view(pages@),
{
    let mut copy: Vec<Vec<u8>> = Vec::new();
    let mut k: usize = 0;
    while k < pages.len()
        invariant
            k <= pages@.len(),
            copy@.len() == k,
            forall|j: int| 0 <= j < k ==> (#[trigger] copy@[j])@ == pages@[j]@,
        decreases pages@.len() - k,
    {
        copy.push(copy_bytes(pages[k].as_slice()));
        k = k + 1;
    }
    assert(pages_view(copy@) =~= pages_view(pages@));
    copy
}

proof fn lemma_same_length_perm(a: Seq<PatchView>, b: Seq<PatchView>)
    requires
        a.to_multiset() == b.to_multiset(),
        patches_same_length(b),
    ensures
        patches_same_length(a),
{
    assert forall|i: int| 0 <= i < a.len() implies (#[trigger] a[i]).1.len() == a[i].2.len() by {
        vstd::seq_lib::to_multiset_contains(a, a[i]);
        vstd::seq_lib::to_multiset_contains(b, a[i]);
        assert(a.contains(a[i]));
        let j = choose|j: int| 0 <= j < b.len() && b[j] == a[i];
    }
}

/// Byte `x` of page `q` lies in a JP segment that one of the first `n`
/// lines rewrites in place.
pub open spec fn in_place_byte(lines: Seq<LineDeclaration>, n: int, q: int, x: int) -> bool {
    exists|k: int, j: int|
        0 <= k < n && lines[k].page == q && lines[k].placement@ == "in_place"@ && 0 <= j < lines[k].segments@.len()
            && (#[trigger] lines[k].segments@[j]).source_tile_start * 32 <= x
            < lines[k].segments@[j].source_tile_end_exclusive * 32
}

/// Every page keeps its bytes outside the in-place segments of the first
/// `n` lines and gains a suffix of whole tiles.
pub open spec fn pages_owned(start: Seq<Seq<u8>>, pages: Seq<Seq<u8>>, lines: Seq<LineDeclaration>, n: int) -> bool {
    &&& pages.len() == start.len()
    &&& forall|q: int|
        0 <= q < pages.len() ==> {
            &&& (#[trigger] pages[q]).len() >= start[q].len()
            &&& (pages[q].len() - start[q].len()) % 32 == 0
            &&& forall|x: int|
                0 <= x < start[q].len() && !in_place_byte(lines, n, q, x) ==> #[trigger] pages[q][x] == start[q][x]
        }
}

proof fn lemma_overwritten_keeps(
    page: Seq<u8>,
    segs: Seq<SegmentDeclaration>,
    glyphs: Seq<NativeGlyph>,
    n: int,
    source_len: int,
    x: int,
)
    requires
        0 <= n <= segs.len(),
        page.len() >= source_len,
        forall|k: int| 0 <= k < segs.len() ==> in_place_segment_fits(#[trigger] segs[k], source_len),
        0 <= x < page.len(),
        forall|j: int|
            0 <= j < n ==> !((#[trigger] segs[j]).source_tile_start * 32 <= x < segs[j].source_tile_end_exclusive * 32),
    ensures
        overwritten(page, segs, glyphs, n).len() == page.len(),
        overwritten(page, segs, glyphs, n)[x] == page[x],
    decreases n,
{
    lemma_overwritten_len(page, segs, glyphs, n, source_len);
    if n > 0 {
        lemma_overwritten_keeps(page, segs, glyphs, n - 1, source_len, x);
        lemma_overwritten_len(page, segs, glyphs, n - 1, source_len);
        let s = segs[n - 1];
        assert(in_place_segment_fits(s, source_len));
        assert(!(s.source_tile_start * 32 <= x < s.source_tile_end_exclusive * 32));
        assert(segment_tiles(glyphs, s).len() == (s.source_tile_end_exclusive - s.source_tile_start) * 32) by (nonlinear_arith)
            requires
                segment_tiles(glyphs, s).len() == s.target_cells * 16 * 8,
                (s.source_tile_end_exclusive - s.source_tile_start) / 4 == s.target_cells,
                (s.source_tile_end_exclusive - s.source_tile_start) % 4 == 0,
        ;
    }
}

/// Compiling the timed lines keeps each page outside its in-place segments
/// and only appends whole tiles to it.
#[verifier::rlimit(100)]
#[verifier::spinoff_prover]
pub proof fn lemma_timed_ownership(
    rom: Seq<u8>,
    source_pages: Seq<Seq<u8>>,
    target_pages: Seq<Seq<u8>>,
    lines: Seq<LineDeclaration>,
    glyphs: Seq<NativeGlyph>,
    n: int,
)
    requires
        0 <= n <= lines.len(),
        forall|k: int| 0 <= k < n ==> line_bounded(#[trigger] lines[k]),
        timed_progress(rom, source_pages, target_pages, lines, glyphs, n) is Some,
    ensures
        pages_owned(target_pages, timed_progress(rom, source_pages, target_pages, lines, glyphs, n)->0.pages, lines, n),
    decreases n,
{
    reveal(line_outcome);
    reveal_strlit("in_place");
    reveal_strlit("relocated");
    if n == 0 {
        return;
    }
    lemma_timed_ownership(rom, source_pages, target_pages, lines, glyphs, n - 1);
    let p = timed_progress(rom, source_pages, target_pages, lines, glyphs, n - 1)->0;
    let l = lines[n - 1];
    assert(line_bounded(l));
    reveal(line_bounded);
    let at = l.page as int;
    let before = p.pages[at];
    let src = source_pages[at];
    let o = line_outcome(rom, src, before, p.map_bank.len() as int, l, glyphs)->0;
    let pages = p.pages.update(at, o.page);
    let segs = l.segments@;
    assert forall|q: int| 0 <= q < pages.len() implies {
        &&& (#[trigger] pages[q]).len() >= target_pages[q].len()
        &&& (pages[q].len() - target_pages[q].len()) % 32 == 0
        &&& forall|x: int|
            0 <= x < target_pages[q].len() && !in_place_byte(lines, n, q, x) ==> #[trigger] pages[q][x]
                == target_pages[q][x]
    } by {
        assert(p.pages[q].len() >= target_pages[q].len());
        if q == at {
            if l.placement@ == "in_place"@ {
                assert forall|k: int| 0 <= k < segs.len() implies in_place_segment_fits(#[trigger] segs[k], src.len() as int) by {
                    assert(line_sources_ok(src, l));
                    let s = segs[k];
                    assert(s.source_tile_end_exclusive * 32 <= src.len());
                }
                lemma_overwritten_len(before, segs, glyphs, segs.len() as int, src.len() as int);
                assert forall|x: int|
                    0 <= x < target_pages[q].len() && !in_place_byte(lines, n, q, x) implies #[trigger] pages[q][x]
                        == target_pages[q][x] by {
                    assert forall|j: int| 0 <= j < segs.len() implies !((#[trigger] segs[j]).source_tile_start * 32 <= x
                        < segs[j].source_tile_end_exclusive * 32) by {
                        if segs[j].source_tile_start * 32 <= x < segs[j].source_tile_end_exclusive * 32 {
                            assert(lines[n - 1].segments@[j] == segs[j]);
                            assert(in_place_byte(lines, n, q, x));
                        }
                    }
                    lemma_overwritten_keeps(before, segs, glyphs, segs.len() as int, src.len() as int, x);
                    if in_place_byte(lines, n - 1, q, x) {
                        let (k, j) = choose|k: int, j: int|
                            0 <= k < n - 1 && lines[k].page == q && lines[k].placement@ == "in_place"@ && 0 <= j
                                < lines[k].segments@.len() && (#[trigger] lines[k].segments@[j]).source_tile_start * 32
                                <= x < lines[k].segments@[j].source_tile_end_exclusive * 32;
                        assert(in_place_byte(lines, n, q, x));
                    }
                }
            } else {
                lemma_appended_len(glyphs, segs, segs.len() as int);
                assert forall|x: int|
                    0 <= x < target_pages[q].len() && !in_place_byte(lines, n, q, x) implies #[trigger] pages[q][x]
                        == target_pages[q][x] by {
                    assert(pages[q][x] == before[x]);
                    if in_place_byte(lines, n - 1, q, x) {
                        let (k, j) = choose|k: int, j: int|
                            0 <= k < n - 1 && lines[k].page == q && lines[k].placement@ == "in_place"@ && 0 <= j
                                < lines[k].segments@.len() && (#[trigger] lines[k].segments@[j]).source_tile_start * 32
                                <= x < lines[k].segments@[j].source_tile_end_exclusive * 32;
                        assert(in_place_byte(lines, n, q, x));
                    }
                }
            }
        } else {
            assert forall|x: int|
                0 <= x < target_pages[q].len() && !in_place_byte(lines, n, q, x) implies #[trigger] pages[q][x]
                    == target_pages[q][x] by {
                if in_place_byte(lines, n - 1, q, x) {
                    let (k, j) = choose|k: int, j: int|
                        0 <= k < n - 1 && lines[k].page == q && lines[k].placement@ == "in_place"@ && 0 <= j
                            < lines[k].segments@.len() && (#[trigger] lines[k].segments@[j]).source_tile_start * 32
                            <= x < lines[k].segments@[j].source_tile_end_exclusive * 32;
                    assert(in_place_byte(lines, n, q, x));
                }
            }
        }
    }
}

/// One row of the credit-name preview: the JP surface and the Korean
/// surface, each 16 pixels high.
pub struct CreditLinePreview {
    pub source_surface: Vec<u8>,
    pub source_width: usize,
    pub target_surface: Vec<u8>,
    pub target_width: usize,
}

/// The widest JP surface of the first `n` rows.
pub open spec fn max_source(rows: Seq<CreditLinePreview>, n: int) -> int
    decreases n,
{
    if n <= 0 {
        0
    } else if rows[n - 1].source_width > max_source(rows, n - 1) {
        rows[n - 1].source_width as int
    } else {
        max_source(rows, n - 1)
    }
}

/// The widest Korean surface of the first `n` rows.
pub open spec fn max_target(rows: Seq<CreditLinePreview>, n: int) -> int
    decreases n,
{
    if n <= 0 {
        0
    } else if rows[n - 1].target_width > max_target(rows, n - 1) {
        rows[n - 1].target_width as int
    } else {
        max_target(rows, n - 1)
    }
}

/// A surface of `width` x 16 pixels of roles 0 and 15.
pub open spec fn two_role_rows(surface: Seq<u8>, width: int) -> bool {
    &&& surface.len() == width * 16
    &&& forall|i: int| 0 <= i < surface.len() ==> (#[trigger] surface[i] == 0 || surface[i] == 15)
}

/// Every row's surfaces have their declared size and roles 0 and 15.
pub open spec fn rows_ok(rows: Seq<CreditLinePreview>) -> bool {
    forall|r: int|
        0 <= r < rows.len() ==> two_role_rows((#[trigger] rows[r]).source_surface@, rows[r].source_width as int)
            && two_role_rows(rows[r].target_surface@, rows[r].target_width as int)
}

/// Palette role at logical pixel (`x`, `y`): each row's JP surface
/// right-aligned to the widest, a 16-pixel gap, its Korean surface; rows 24
/// pixels apart.
pub open spec fn preview_role(rows: Seq<CreditLinePreview>, x: int, y: int) -> u8 {
    let smax = max_source(rows, rows.len() as int);
    let r = y / 24;
    let ly = y % 24;
    if ly >= 16 || r >= rows.len() {
        0
    } else {
        let row = rows[r];
        let left = smax - row.source_width;
        if left <= x < smax {
            row.source_surface@[ly * row.source_width + (x - left)]
        } else if smax + 16 <= x < smax + 16 + row.target_width {
            row.target_surface@[ly * row.target_width + (x - smax - 16)]
        } else {
            0
        }
    }
}

/// Logical size of the preview.
pub open spec fn preview_logical_width(rows: Seq<CreditLinePreview>) -> int {
    max_source(rows, rows.len() as int) + 16 + max_target(rows, rows.len() as int)
}

pub open spec fn preview_logical_height(rows: Seq<CreditLinePreview>) -> int {
    rows.len() * 16 + (rows.len() - 1) * 8
}

/// Byte `k` of the preview scaled three times: ink white, background
/// dark red.
pub open spec fn credit_preview_byte(rows: Seq<CreditLinePreview>, k: int) -> u8 {
    let w = preview_logical_width(rows) * 3;
    let q = k / 4;
    let role = preview_role(rows, (q % w) / 3, (q / w) / 3);
    opaque_channel(if role == 15 { seq![255u8, 255u8, 255u8] } else { seq![30u8, 15u8, 18u8] }, k % 4)
}

proof fn lemma_max_bounds(rows: Seq<CreditLinePreview>, n: int)
    requires
        0 <= n <= rows.len(),
    ensures
        forall|r: int| 0 <= r < n ==> (#[trigger] rows[r]).source_width <= max_source(rows, n),
        forall|r: int| 0 <= r < n ==> (#[trigger] rows[r]).target_width <= max_target(rows, n),
        0 <= max_source(rows, n),
        0 <= max_target(rows, n),
        n > 0 ==> exists|r: int| 0 <= r < n && (#[trigger] rows[r]).source_width == max_source(rows, n),
        n > 0 ==> exists|r: int| 0 <= r < n && (#[trigger] rows[r]).target_width == max_target(rows, n),
    decreases n,
{
    if n > 0 {
        lemma_max_bounds(rows, n - 1);
    }
}

fn surface_two_role(surface: &Vec<u8>, width: usize) -> (ok: bool)
    ensures
        ok == two_role_rows(surface@, width as int),
{
    if width > surface.len() / 16 || surface.len() != width * 16 {
        return false;
    }
    let mut i: usize = 0;
    while i < surface.len()
        invariant
            i <= surface@.len(),
            forall|j: int| 0 <= j < i ==> (#[trigger] surface@[j] == 0 || surface@[j] == 15),
        decreases surface@.len() - i,
    {
        if surface[i] != 0 && surface[i] != 15 {
            return false;
        }
        i = i + 1;
    }
    true
}

/// Draw the credit-name preview: each row's JP surface right-aligned to
/// the widest, then its Korean surface, scaled three times.
#[verifier::rlimit(60)]
#[verifier::spinoff_prover]
pub fn write_credits_timed_preview(rows: &Vec<CreditLinePreview>) -> (image: Result<RgbaImage, Error>)
    ensures
        image is Ok <==> rows@.len() > 0 && rows_ok(rows@) && preview_logical_width(rows@) * 3 * preview_logical_height(rows@)
            * 3 * 4 <= usize::MAX,
        image matches Ok(img) ==> {
            &&& img.width == preview_logical_width(rows@) * 3
            &&& img.height == preview_logical_height(rows@) * 3
            &&& img.rgba@.len() == img.width * img.height * 4
            &&& forall|k: int| 0 <= k < img.rgba@.len() ==> #[trigger] img.rgba@[k] == credit_preview_byte(rows@, k)
        },
{
    let n = rows.len();
    if n == 0 {
        return Err("credit-name preview has no lines");
    }
    let mut smax: usize = 0;
    let mut tmax: usize = 0;
    let mut r: usize = 0;
    while r < n
        invariant
            n == rows@.len(),
            r <= n,
            smax == max_source(rows@, r as int),
            tmax == max_target(rows@, r as int),
            forall|j: int| 0 <= j < r ==> two_role_rows((#[trigger] rows@[j]).source_surface@, rows@[j].source_width as int)
                && two_role_rows(rows@[j].target_surface@, rows@[j].target_width as int),
        decreases n - r,
    {
        let row = &rows[r];
        if !surface_two_role(&row.source_surface, row.source_width) || !surface_two_role(&row.target_surface, row.target_width) {
            assert(!rows_ok(rows@)) by {
                assert(rows@[r as int] == *row);
            }
            return Err("credit-name preview surface has another size or palette role");
        }
        if row.source_width > smax {
            smax = row.source_width;
        }
        if row.target_width > tmax {
            tmax = row.target_width;
        }
        r = r + 1;
    }
    proof {
        lemma_max_bounds(rows@, n as int);
    }
    let ghost lwi = preview_logical_width(rows@);
    let ghost lhi = preview_logical_height(rows@);
    assert(lwi >= 16 && lhi >= 16);
    if smax > usize::MAX - 16 || tmax > usize::MAX - 16 - smax || n > (usize::MAX - 8) / 24 {
        proof {
            assert(lwi * 3 * lhi * 3 * 4 >= lwi) by (nonlinear_arith) requires lwi >= 16, lhi >= 16;
            assert(lwi * 3 * lhi * 3 * 4 >= lhi) by (nonlinear_arith) requires lwi >= 16, lhi >= 16;
        }
        return Err("credit-name preview is too large");
    }
    let lw = smax + 16 + tmax;
    let lh = n * 24 - 8;
    assert(lw == lwi && lh == lhi);
    let width = match lw.checked_mul(3) {
        Some(v) => v,
        None => {
            assert(lwi * 3 * lhi * 3 * 4 >= lwi * 3) by (nonlinear_arith) requires lwi >= 16, lhi >= 16;
            return Err("credit-name preview is too large");
        },
    };
    let height = match lh.checked_mul(3) {
        Some(v) => v,
        None => {
            assert(lwi * 3 * lhi * 3 * 4 >= lhi * 3) by (nonlinear_arith) requires lwi >= 16, lhi >= 16;
            return Err("credit-name preview is too large");
        },
    };
    let total = match width.checked_mul(height) {
        Some(v) => v,
        None => {
            assert(lwi * 3 * lhi * 3 * 4 >= (lwi * 3) * (lhi * 3)) by (nonlinear_arith) requires lwi >= 16, lhi >= 16;
            return Err("credit-name preview is too large");
        },
    };
    if total > usize::MAX / 4 {
        assert(lwi * 3 * lhi * 3 * 4 == (lwi * 3) * (lhi * 3) * 4) by (nonlinear_arith);
        return Err("credit-name preview is too large");
    }
    assert(lwi * 3 * lhi * 3 * 4 == total * 4) by (nonlinear_arith)
        requires total == (lwi * 3) * (lhi * 3);
    let mut rgba: Vec<u8> = Vec::with_capacity(total * 4);
    let mut q: usize = 0;
    while q < total
        invariant
            n == rows@.len(),
            n > 0,
            rows_ok(rows@),
            smax == max_source(rows@, n as int),
            tmax == max_target(rows@, n as int),
            forall|j: int| 0 <= j < n ==> (#[trigger] rows@[j]).source_width <= smax && rows@[j].target_width <= tmax,
            width == preview_logical_width(rows@) * 3,
            height == preview_logical_height(rows@) * 3,
            total == width * height,
            total * 4 <= usize::MAX,
            q <= total,
            rgba@.len() == q * 4,
            forall|k: int| 0 <= k < q * 4 ==> #[trigger] rgba@[k] == credit_preview_byte(rows@, k),
        decreases total - q,
    {
        let x = (q % width) / 3;
        let y = (q / width) / 3;
        let row_index = y / 24;
        let ly = y % 24;
        let role: u8 = if ly >= 16 || row_index >= n {
            0
        } else {
            let row = &rows[row_index];
            let _slen = row.source_surface.len();
            let _tlen = row.target_surface.len();
            let left = smax - row.source_width;
            if left <= x && x < smax {
                proof {
                    assert(two_role_rows(row.source_surface@, row.source_width as int));
                    assert(ly * row.source_width + (x - left) < row.source_width * 16) by (nonlinear_arith)
                        requires ly < 16, x - left < row.source_width;
                }
                row.source_surface[ly * row.source_width + (x - left)]
            } else if smax + 16 <= x && x - (smax + 16) < row.target_width {
                proof {
                    assert(two_role_rows(row.target_surface@, row.target_width as int));
                    assert(ly * row.target_width + (x - smax - 16) < row.target_width * 16) by (nonlinear_arith)
                        requires ly < 16, x - smax - 16 < row.target_width;
                }
                row.target_surface[ly * row.target_width + (x - (smax + 16))]
            } else {
                0
            }
        };
        assert(role == preview_role(rows@, x as int, y as int));
        let color: [u8; 3] = if role == 15 { [255, 255, 255] } else { [30, 15, 18] };
        let ghost before = rgba@;
        push_opaque(&mut rgba, color);
        assert forall|k: int| 0 <= k < (q + 1) * 4 implies #[trigger] rgba@[k] == credit_preview_byte(rows@, k) by {
            if k >= q * 4 {
                assert(k / 4 == q);
                let c = k - q * 4;
                assert(rgba@[before.len() + c] == opaque_channel(color@, c));
                if role == 15 {
                    assert(color@ =~= seq![255u8, 255u8, 255u8]);
                } else {
                    assert(color@ =~= seq![30u8, 15u8, 18u8]);
                }
            } else {
                assert(rgba@[k] == before[k]);
            }
        }
        q = q + 1;
    }
    Ok(RgbaImage { width, height, rgba })
}

/// The preview rows of a timed build, then `additional` rows from the other
/// credit compilers, copied.
pub fn timed_preview_rows(b: &CreditsTimedBuild, additional: &Vec<CreditLinePreview>) -> (rows: Vec<CreditLinePreview>)
    ensures
        rows@.len() == b.lines@.len() + additional@.len(),
        forall|r: int|
            0 <= r < b.lines@.len() ==> (#[trigger] rows@[r]).source_surface@ == b.lines@[r].source_surface@
                && rows@[r].source_width == b.lines@[r].source_width && rows@[r].target_surface@
                == b.lines@[r].target_surface@ && rows@[r].target_width == b.lines@[r].target_width,
        forall|r: int|
            0 <= r < additional@.len() ==> (#[trigger] rows@[b.lines@.len() + r]).source_surface@
                == additional@[r].source_surface@ && rows@[b.lines@.len() + r].source_width == additional@[r].source_width
                && rows@[b.lines@.len() + r].target_surface@ == additional@[r].target_surface@ && rows@[b.lines@.len()
                + r].target_width == additional@[r].target_width,
{
    let mut rows: Vec<CreditLinePreview> = Vec::new();
    let mut k: usize = 0;
    while k < b.lines.len()
        invariant
            k <= b.lines@.len(),
            rows@.len() == k,
            forall|r: int|
                0 <= r < k ==> (#[trigger] rows@[r]).source_surface@ == b.lines@[r].source_surface@ && rows@[r].source_width
                    == b.lines@[r].source_width && rows@[r].target_surface@ == b.lines@[r].target_surface@
                    && rows@[r].target_width == b.lines@[r].target_width,
        decreases b.lines@.len() - k,
    {
        let l = &b.lines[k];
        rows.push(CreditLinePreview {
            source_surface: copy_bytes(l.source_surface.as_slice()),
            source_width: l.source_width,
            target_surface: copy_bytes(l.target_surface.as_slice()),
            target_width: l.target_width,
        });
        k = k + 1;
    }
    let mut j: usize = 0;
    while j < additional.len()
        invariant
            j <= additional@.len(),
            rows@.len() == b.lines@.len() + j,
            forall|r: int|
                0 <= r < b.lines@.len() ==> (#[trigger] rows@[r]).source_surface@ == b.lines@[r].source_surface@
                    && rows@[r].source_width == b.lines@[r].source_width && rows@[r].target_surface@
                    == b.lines@[r].target_surface@ && rows@[r].target_width == b.lines@[r].target_width,
            forall|r: int|
                0 <= r < j ==> (#[trigger] rows@[b.lines@.len() + r]).source_surface@ == additional@[r].source_surface@
                    && rows@[b.lines@.len() + r].source_width == additional@[r].source_width && rows@[b.lines@.len()
                    + r].target_surface@ == additional@[r].target_surface@ && rows@[b.lines@.len() + r].target_width
                    == additional@[r].target_width,
        decreases additional@.len() - j,
    {
        let l = &additional[j];
        rows.push(CreditLinePreview {
            source_surface: copy_bytes(l.source_surface.as_slice()),
            source_width: l.source_width,
            target_surface: copy_bytes(l.target_surface.as_slice()),
            target_width: l.target_width,
        });
        j = j + 1;
    }
    rows
}

} // verus!

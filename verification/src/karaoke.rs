//! Madou Ondo karaoke lyric compiler.
//!
//! The JP game already owns the useful layout: nine 38x2 tile surfaces,
//! selected by one table and sent by one unchanged routine. Korean keeps that
//! execution path and timing data, replaces only the JP-owned lyric patterns
//! and maps, and writes both packs into expanded ROM. Each 16x16 Korean glyph
//! is split into four quadrant tiles; a quadrant is stored once, in the least
//! of its four flips, and the map names it with the flip that restores it.

use vstd::prelude::*;
use crate::hex::{Error, hex_equals, hex_fits, hex_is, parse_hex, parse_u16_hex, parse_u32_hex, spec_parse_hex};
use crate::text::{byte_len, has_byte_len, seq_contains_run, str_contains, string_is};
use crate::font_effect::{is_whitespace, spec_is_whitespace};
use crate::digest::{sha256_hex, sha256_hex_of};
use crate::pack::DecodedPack;
use crate::rom::{source_range, word_bytes};
use crate::sets::bytes_equal;
use crate::tiles::{nibble_roles_are, nibble_roles_match, distinct_tiles, lemma_distinct_step, lemma_distinct_no_duplicates};
use crate::tiles::{MD_TILE_BYTES, nibble, pack_nibbles, pack_pair, unpack_pixel};
use crate::rom::{be16, read_be16};
use crate::font_effect::CompactGlyph;
use crate::tiles::{all_nibbles, column_major_byte, column_major_pixel, encode_md_tiles_column_major};
use crate::preview::{RgbaImage, opaque_channel, push_opaque};

use crate::insert::{WriteView, bank_write, bank_write_of, checksummed, header_write, header_write_of, insert_writes, write_ranges, write_views, writes_applied, writes_ok};
use crate::rom::only_ranges_changed;
use crate::sets::copy_bytes;

verus! {

pub const GROUP_HEADER_OFFSET: usize = 0x08_A12C;
pub const GROUP_HEADER_BYTES: usize = 14;
pub const PATTERN_HEADER_OFFSET: usize = 0x08_A12C;
pub const MAP_HEADER_OFFSET: usize = 0x08_A132;
pub const PATTERN_BANK_OFFSET: usize = 0x2E_0000;
pub const PATTERN_BANK_LIMIT: usize = 0x2F_0000;
pub const MAP_BANK_OFFSET: usize = 0x2F_0000;
pub const MAP_BANK_LIMIT: usize = 0x2F_8000;
pub const PATTERN_BYTES: usize = 47_072;
pub const PATTERN_TILES: usize = 1_471;
pub const MUTABLE_TILE_START: usize = 0x04FF;
pub const MUTABLE_TILE_END: usize = 0x05AD;
pub const MAP_BYTES: usize = 3_648;
pub const MAP_LYRIC_START: usize = 0x08C0;
pub const MAP_LYRIC_END: usize = 0x0E18;
pub const MAP_SUFFIX_END: usize = 0x0E40;
pub const LINE_COUNT: usize = 9;
pub const LINE_WIDTH_TILES: usize = 38;
pub const LINE_HEIGHT_TILES: usize = 2;
pub const LINE_BYTES: usize = 152;
pub const LINE_WIDTH_PIXELS: usize = 304;
pub const LINE_HEIGHT_PIXELS: usize = 16;
pub const LINE_WIDTH_CELLS: usize = 19;
pub const POINTER_TABLE_OFFSET: usize = 0x08_FC7A;
pub const POINTER_TABLE_BYTES: usize = 36;
pub const LINE_SENDER_OFFSET: usize = 0x08_FC9E;
pub const LINE_SENDER_BYTES: usize = 42;
pub const TIMING_TABLE_OFFSET: usize = 0x08_FCC8;
pub const TIMING_TABLE_BYTES: usize = 100;
pub const PREVIEW_SCALE: usize = 2;

/// Horizontal and vertical flip bits of a map word.
pub const FLIP_H: u16 = 0x0800;
pub const FLIP_V: u16 = 0x1000;

/// Pixel (`x`, `y`) of a 32-byte 8x8 pattern.
pub open spec fn tile_pixel(t: Seq<u8>, x: int, y: int) -> u8 {
    nibble(t[y * 4 + x / 2], x % 2 == 0)
}

/// Column `x` or row `y` read from a pattern drawn flipped.
pub open spec fn flip_coord(c: int, flip: bool) -> int {
    if flip { 7 - c } else { c }
}

/// The pattern `t` mirrored horizontally and/or vertically.
pub open spec fn flipped_tile(t: Seq<u8>, horizontal: bool, vertical: bool) -> Seq<u8> {
    Seq::new(
        32,
        |b: int|
            pack_nibbles(
                tile_pixel(t, flip_coord((b % 4) * 2, horizontal), flip_coord(b / 4, vertical)),
                tile_pixel(t, flip_coord((b % 4) * 2 + 1, horizontal), flip_coord(b / 4, vertical)),
            ),
    )
}

/// Pixel (`x`, `y`) of a flipped pattern is the mirrored pixel of the
/// original.
pub proof fn lemma_flipped_pixel(t: Seq<u8>, horizontal: bool, vertical: bool, x: int, y: int)
    requires
        t.len() == 32,
        0 <= x < 8,
        0 <= y < 8,
    ensures
        tile_pixel(flipped_tile(t, horizontal, vertical), x, y) == tile_pixel(
            t,
            flip_coord(x, horizontal),
            flip_coord(y, vertical),
        ),
{
    let b = y * 4 + x / 2;
    assert(b / 4 == y && b % 4 == x / 2);
    let l = tile_pixel(t, flip_coord((b % 4) * 2, horizontal), flip_coord(y, vertical));
    let r = tile_pixel(t, flip_coord((b % 4) * 2 + 1, horizontal), flip_coord(y, vertical));
    assert(l < 16 && r < 16);
    assert(nibble(pack_nibbles(l, r), true) == l && nibble(pack_nibbles(l, r), false) == r);
    if x % 2 == 0 {
        assert((b % 4) * 2 == x);
    } else {
        assert((b % 4) * 2 + 1 == x);
    }
}

/// A pattern is its pixels: two 32-byte patterns with equal pixels are equal.
proof fn lemma_tile_from_pixels(a: Seq<u8>, b: Seq<u8>)
    requires
        a.len() == 32,
        b.len() == 32,
        forall|x: int, y: int| 0 <= x < 8 && 0 <= y < 8 ==> #[trigger] tile_pixel(a, x, y) == tile_pixel(b, x, y),
    ensures
        a == b,
{
    assert forall|k: int| 0 <= k < 32 implies a[k] == b[k] by {
        let x = (k % 4) * 2;
        let y = k / 4;
        assert(y * 4 + x / 2 == k);
        assert(y * 4 + (x + 1) / 2 == k);
        assert(tile_pixel(a, x, y) == tile_pixel(b, x, y));
        assert(tile_pixel(a, x + 1, y) == tile_pixel(b, x + 1, y));
        assert(a[k] == pack_nibbles(nibble(a[k], true), nibble(a[k], false)));
        assert(b[k] == pack_nibbles(nibble(b[k], true), nibble(b[k], false)));
    }
    assert(a =~= b);
}

/// Drawing a flipped pattern with the same flips gives the pattern back.
pub proof fn lemma_flip_involution(t: Seq<u8>, horizontal: bool, vertical: bool)
    requires
        t.len() == 32,
    ensures
        flipped_tile(flipped_tile(t, horizontal, vertical), horizontal, vertical) == t,
{
    let f = flipped_tile(t, horizontal, vertical);
    assert forall|x: int, y: int| 0 <= x < 8 && 0 <= y < 8 implies #[trigger] tile_pixel(
        flipped_tile(f, horizontal, vertical),
        x,
        y,
    ) == tile_pixel(t, x, y) by {
        lemma_flipped_pixel(f, horizontal, vertical, x, y);
        lemma_flipped_pixel(t, horizontal, vertical, flip_coord(x, horizontal), flip_coord(y, vertical));
    }
    lemma_tile_from_pixels(flipped_tile(f, horizontal, vertical), t);
}

pub(crate) fn read_tile_pixel(t: &[u8], x: usize, y: usize) -> (pixel: u8)
    requires
        t@.len() == 32,
        x < 8,
        y < 8,
    ensures
        pixel == tile_pixel(t@, x as int, y as int),
        pixel < 16,
{
    unpack_pixel(t[y * 4 + x / 2], x % 2 == 0)
}

/// Mirror a pattern horizontally and/or vertically.
pub fn flip_tile_pattern(t: &[u8], horizontal: bool, vertical: bool) -> (flipped: Vec<u8>)
    requires
        t@.len() == 32,
    ensures
        flipped@ == flipped_tile(t@, horizontal, vertical),
{
    let mut flipped: Vec<u8> = Vec::with_capacity(MD_TILE_BYTES);
    let mut b: usize = 0;
    while b < MD_TILE_BYTES
        invariant
            t@.len() == 32,
            b <= 32,
            flipped@.len() == b,
            forall|k: int| 0 <= k < b ==> #[trigger] flipped@[k] == flipped_tile(t@, horizontal, vertical)[k],
        decreases 32 - b,
    {
        let lx = (b % 4) * 2;
        let y = b / 4;
        let sy = if vertical { 7 - y } else { y };
        let left_x = if horizontal { 7 - lx } else { lx };
        let right_x = if horizontal { 7 - (lx + 1) } else { lx + 1 };
        let left = read_tile_pixel(t, left_x, sy);
        let right = read_tile_pixel(t, right_x, sy);
        flipped.push(pack_pair(left, right));
        b = b + 1;
    }
    assert(flipped@ =~= flipped_tile(t@, horizontal, vertical));
    flipped
}

/// `a` sorts strictly before `b`, byte by byte.
pub open spec fn lex_less(a: Seq<u8>, b: Seq<u8>) -> bool {
    exists|i: int| 0 <= i < a.len() && i < b.len() && a.take(i) == b.take(i) && #[trigger] a[i] < b[i]
}

/// Candidate `k` of a pattern: itself, mirrored horizontally, vertically,
/// or both, with map flip flags `k * 0x800`.
pub open spec fn candidate(t: Seq<u8>, k: int) -> Seq<u8> {
    flipped_tile(t, k == 1 || k == 3, k >= 2)
}

/// `k` is the candidate with the least (bytes, flags) key.
pub open spec fn is_canonical_choice(t: Seq<u8>, k: int) -> bool {
    &&& 0 <= k < 4
    &&& forall|j: int| 0 <= j < 4 ==> !lex_less(#[trigger] candidate(t, j), candidate(t, k))
    &&& forall|j: int| 0 <= j < k ==> #[trigger] candidate(t, j) != candidate(t, k)
}

/// Index of the least of the first `n` candidates, the earliest on a tie.
pub open spec fn best_of(t: Seq<u8>, n: int) -> int
    decreases n,
{
    if n <= 1 {
        0
    } else {
        let b = best_of(t, n - 1);
        if lex_less(candidate(t, n - 1), candidate(t, b)) {
            n - 1
        } else {
            b
        }
    }
}

/// The stored form of a pattern: its least flip.
pub open spec fn canonical_pattern(t: Seq<u8>) -> Seq<u8> {
    candidate(t, best_of(t, 4))
}

fn bytes_less(a: &[u8], b: &[u8]) -> (less: bool)
    requires
        a@.len() == 32,
        b@.len() == 32,
    ensures
        less == lex_less(a@, b@),
{
    let mut i: usize = 0;
    while i < 32
        invariant
            a@.len() == 32,
            b@.len() == 32,
            i <= 32,
            a@.take(i as int) == b@.take(i as int),
        decreases 32 - i,
    {
        if a[i] < b[i] {
            return true;
        }
        if a[i] > b[i] {
            proof {
                assert forall|j: int| 0 <= j < 32 && a@.take(j) == b@.take(j) implies !(#[trigger] a@[j] < b@[j]) by {
                    if j < i {
                        assert(a@.take(i as int)[j] == b@.take(i as int)[j]);
                    } else if j > i {
                        assert(a@.take(j)[i as int] == b@.take(j)[i as int]);
                    }
                }
            }
            return false;
        }
        assert(a@.take(i + 1) =~= a@.take(i as int).push(a@[i as int]));
        assert(b@.take(i + 1) =~= b@.take(i as int).push(b@[i as int]));
        i = i + 1;
    }
    assert(a@.take(32) =~= a@);
    assert(b@.take(32) =~= b@);
    proof {
        assert forall|j: int| 0 <= j < 32 && a@.take(j) == b@.take(j) implies !(#[trigger] a@[j] < b@[j]) by {
            assert(a@[j] == b@[j]);
        }
    }
    false
}

proof fn lemma_lex_total(a: Seq<u8>, b: Seq<u8>)
    requires
        a.len() == 32,
        b.len() == 32,
        !lex_less(a, b),
        !lex_less(b, a),
    ensures
        a == b,
{
    assert forall|k: int| 0 <= k < 32 implies a[k] == b[k] by {
        lemma_prefix_equal(a, b, k + 1);
        assert(a.take(k + 1)[k] == a[k]);
    }
    assert(a =~= b);
}

proof fn lemma_prefix_equal(a: Seq<u8>, b: Seq<u8>, n: int)
    requires
        a.len() == 32,
        b.len() == 32,
        0 <= n <= 32,
        !lex_less(a, b),
        !lex_less(b, a),
    ensures
        a.take(n) == b.take(n),
    decreases n,
{
    if n > 0 {
        lemma_prefix_equal(a, b, n - 1);
        let i = n - 1;
        if a[i] < b[i] {
            assert(lex_less(a, b));
        } else if b[i] < a[i] {
            assert(lex_less(b, a));
        }
        assert(a.take(n) =~= a.take(n - 1).push(a[i]));
        assert(b.take(n) =~= b.take(n - 1).push(b[i]));
    }
}

proof fn lemma_lex_trans(a: Seq<u8>, b: Seq<u8>, c: Seq<u8>)
    requires
        a.len() == 32,
        b.len() == 32,
        c.len() == 32,
        lex_less(a, b) || a == b,
        lex_less(b, c) || b == c,
    ensures
        lex_less(a, c) || a == c,
{
    if a != b && b != c {
        let i = choose|i: int| 0 <= i < a.len() && i < b.len() && a.take(i) == b.take(i) && #[trigger] a[i] < b[i];
        let j = choose|j: int| 0 <= j < b.len() && j < c.len() && b.take(j) == c.take(j) && #[trigger] b[j] < c[j];
        if i < j {
            assert(b.take(j)[i] == c.take(j)[i]);
            assert(a.take(i) =~= c.take(i)) by {
                assert forall|k: int| 0 <= k < i implies a.take(i)[k] == c.take(i)[k] by {
                    assert(a.take(i)[k] == b.take(i)[k]);
                    assert(b.take(j)[k] == c.take(j)[k]);
                }
            }
            assert(a[i] < c[i]);
        } else if j < i {
            assert(a.take(i)[j] == b.take(i)[j]);
            assert(a.take(j) =~= c.take(j)) by {
                assert forall|k: int| 0 <= k < j implies a.take(j)[k] == c.take(j)[k] by {
                    assert(a.take(i)[k] == b.take(i)[k]);
                    assert(b.take(j)[k] == c.take(j)[k]);
                }
            }
            assert(a[j] < c[j]);
        } else {
            assert(a.take(i) =~= c.take(i)) by {
                assert forall|k: int| 0 <= k < i implies a.take(i)[k] == c.take(i)[k] by {
                    assert(a.take(i)[k] == b.take(i)[k]);
                    assert(b.take(j)[k] == c.take(j)[k]);
                }
            }
            assert(a[i] < c[i]);
        }
    }
}

proof fn lemma_lex_asym(a: Seq<u8>, b: Seq<u8>)
    requires
        a.len() == 32,
        b.len() == 32,
        lex_less(a, b),
    ensures
        !lex_less(b, a),
        a != b,
{
    let i = choose|i: int| 0 <= i < a.len() && i < b.len() && a.take(i) == b.take(i) && #[trigger] a[i] < b[i];
    if lex_less(b, a) {
        let j = choose|j: int| 0 <= j < b.len() && j < a.len() && b.take(j) == a.take(j) && #[trigger] b[j] < a[j];
        if i < j {
            assert(b.take(j)[i] == a.take(j)[i]);
        } else if j < i {
            assert(a.take(i)[j] == b.take(i)[j]);
        }
    }
}

/// The least of a pattern's four flips, and the map flip flags that draw it
/// back as the pattern.
pub fn canonicalize_tile_pattern(t: &[u8]) -> (result: (Vec<u8>, u16))
    requires
        t@.len() == 32,
    ensures
        result.1 % 0x800 == 0,
        result.1 <= 0x1800,
        result.1 / 0x800 == best_of(t@, 4),
        is_canonical_choice(t@, (result.1 / 0x800) as int),
        result.0@ == canonical_pattern(t@),
{
    let mut candidates: Vec<Vec<u8>> = Vec::with_capacity(4);
    let mut k: usize = 0;
    while k < 4
        invariant
            t@.len() == 32,
            k <= 4,
            candidates@.len() == k,
            forall|j: int| 0 <= j < k ==> #[trigger] candidates@[j]@ == candidate(t@, j),
        decreases 4 - k,
    {
        candidates.push(flip_tile_pattern(t, k == 1 || k == 3, k >= 2));
        k = k + 1;
    }
    let mut best: usize = 0;
    let mut k: usize = 1;
    while k < 4
        invariant
            t@.len() == 32,
            candidates@.len() == 4,
            forall|j: int| 0 <= j < 4 ==> #[trigger] candidates@[j]@ == candidate(t@, j),
            1 <= k <= 4,
            best < k,
            best == best_of(t@, k as int),
            forall|j: int| 0 <= j < k ==> !lex_less(#[trigger] candidate(t@, j), candidate(t@, best as int)),
            forall|j: int| 0 <= j < best ==> lex_less(candidate(t@, best as int), #[trigger] candidate(t@, j)),
        decreases 4 - k,
    {
        proof {
            assert(candidates@[k as int]@.len() == 32);
            assert(candidates@[best as int]@.len() == 32);
        }
        if bytes_less(candidates[k].as_slice(), candidates[best].as_slice()) {
            proof {
                let ck = candidate(t@, k as int);
                let cb = candidate(t@, best as int);
                assert forall|j: int| 0 <= j < k + 1 implies !lex_less(#[trigger] candidate(t@, j), ck) by {
                    if j < k {
                        if lex_less(candidate(t@, j), ck) {
                            lemma_lex_trans(candidate(t@, j), ck, cb);
                            lemma_lex_asym(ck, cb);
                            if candidate(t@, j) == cb {
                                lemma_lex_asym(cb, ck);
                            }
                        }
                    } else {
                        if lex_less(ck, ck) {
                            lemma_lex_asym(ck, ck);
                        }
                    }
                }
                assert forall|j: int| 0 <= j < k implies lex_less(ck, #[trigger] candidate(t@, j)) by {
                    let cj = candidate(t@, j);
                    assert(!lex_less(cj, cb));
                    if !lex_less(cb, cj) {
                        lemma_lex_total(cb, cj);
                    }
                    lemma_lex_trans(ck, cb, cj);
                    if ck == cj {
                        lemma_lex_asym(ck, cb);
                    }
                }
            }
            best = k;
        }
        k = k + 1;
    }
    proof {
        assert forall|j: int| 0 <= j < best implies #[trigger] candidate(t@, j) != candidate(t@, best as int) by {
            lemma_lex_asym(candidate(t@, best as int), candidate(t@, j));
        }
    }
    let flags = (best as u16) * 0x0800;
    let canonical = candidates[best].clone();
    (canonical, flags)
}

/// Flipping twice flips by the axes flipped an odd number of times.
pub proof fn lemma_flip_compose(t: Seq<u8>, h1: bool, v1: bool, h2: bool, v2: bool)
    requires
        t.len() == 32,
    ensures
        flipped_tile(flipped_tile(t, h1, v1), h2, v2) == flipped_tile(t, h1 != h2, v1 != v2),
{
    let f = flipped_tile(t, h1, v1);
    assert forall|x: int, y: int| 0 <= x < 8 && 0 <= y < 8 implies #[trigger] tile_pixel(flipped_tile(f, h2, v2), x, y)
        == tile_pixel(flipped_tile(t, h1 != h2, v1 != v2), x, y) by {
        lemma_flipped_pixel(f, h2, v2, x, y);
        lemma_flipped_pixel(t, h1, v1, flip_coord(x, h2), flip_coord(y, v2));
        lemma_flipped_pixel(t, h1 != h2, v1 != v2, x, y);
    }
    lemma_tile_from_pixels(flipped_tile(f, h2, v2), flipped_tile(t, h1 != h2, v1 != v2));
}

/// Flipping by no axis leaves a pattern unchanged.
pub proof fn lemma_flip_identity(t: Seq<u8>)
    requires
        t.len() == 32,
    ensures
        flipped_tile(t, false, false) == t,
{
    assert forall|x: int, y: int| 0 <= x < 8 && 0 <= y < 8 implies #[trigger] tile_pixel(flipped_tile(t, false, false), x, y)
        == tile_pixel(t, x, y) by {
        lemma_flipped_pixel(t, false, false, x, y);
    }
    lemma_tile_from_pixels(flipped_tile(t, false, false), t);
}

/// The candidate index whose flips are those of `k` and `j` combined.
pub open spec fn combined_flip(k: int, j: int) -> int {
    let h = (k == 1 || k == 3) != (j == 1 || j == 3);
    let v = (k >= 2) != (j >= 2);
    (if h { 1int } else { 0int }) + (if v { 2int } else { 0int })
}

/// A canonical pattern is its own canonical form: its only canonical
/// choice is to leave it unflipped, flags 0.
pub proof fn lemma_canonical_is_fixed(t: Seq<u8>, k: int)
    requires
        t.len() == 32,
        is_canonical_choice(t, k),
    ensures
        candidate(candidate(t, k), 0) == candidate(t, k),
        is_canonical_choice(candidate(t, k), 0),
        forall|j: int| is_canonical_choice(candidate(t, k), j) ==> j == 0,
{
    let c = candidate(t, k);
    assert forall|j: int| 0 <= j < 4 implies #[trigger] candidate(c, j) == candidate(t, combined_flip(k, j)) by {
        lemma_flip_compose(t, k == 1 || k == 3, k >= 2, j == 1 || j == 3, j >= 2);
    }
    assert(candidate(c, 0) == c);
    assert forall|j: int| 0 <= j < 4 implies !lex_less(#[trigger] candidate(c, j), candidate(c, 0)) by {
        assert(candidate(c, j) == candidate(t, combined_flip(k, j)));
        assert(!lex_less(candidate(t, combined_flip(k, j)), candidate(t, k)));
    }
    assert forall|j: int| is_canonical_choice(c, j) implies j == 0 by {
        if j != 0 {
            assert(candidate(c, 0) != candidate(c, j));
            assert(!lex_less(candidate(c, 0), candidate(c, j)));
            assert(!lex_less(candidate(c, j), candidate(c, 0)));
            lemma_lex_total(candidate(c, 0), candidate(c, j));
            assert(false);
        }
    }
}

/// Drawing a quadrant's chosen flip with its flags gives the quadrant back.
pub proof fn lemma_canonical_restores(t: Seq<u8>, k: int)
    requires
        t.len() == 32,
        0 <= k < 4,
    ensures
        flipped_tile(candidate(t, k), k == 1 || k == 3, k >= 2) == t,
{
    lemma_flip_involution(t, k == 1 || k == 3, k >= 2);
}

/// Map word of tile (`tx`, `ty`) of lyric line `line`: the JP sender writes
/// the top row of 38 words, then the bottom row.
pub open spec fn line_word(map: Seq<u8>, line: int, tx: int, ty: int) -> u16 {
    be16(map, 0x08C0 + line * 152 + (ty * 38 + tx) * 2) as u16
}

/// The pattern a map word names.
pub open spec fn word_tile(patterns: Seq<u8>, word: u16) -> Seq<u8> {
    let tile = (word & 0x07FF) as int;
    patterns.subrange(tile * 32, tile * 32 + 32)
}

/// Pixel `i` of the 304x16 surface of lyric line `line`.
pub open spec fn surface_pixel(patterns: Seq<u8>, map: Seq<u8>, line: int, i: int) -> u8 {
    let x = i % 304;
    let y = i / 304;
    let w = line_word(map, line, x / 8, y / 8);
    tile_pixel(word_tile(patterns, w), flip_coord(x % 8, w & 0x0800 != 0), flip_coord(y % 8, w & 0x1000 != 0))
}

/// Lyric line `line` can be drawn: every word names a tile of the patterns.
pub open spec fn surface_ok(patterns: Seq<u8>, map: Seq<u8>, line: int) -> bool {
    &&& patterns.len() >= 47_072
    &&& patterns.len() % 32 == 0
    &&& map.len() == 3_648
    &&& 0 <= line < 9
    &&& forall|tx: int, ty: int|
        0 <= tx < 38 && 0 <= ty < 2 ==> (#[trigger] line_word(map, line, tx, ty) & 0x07FF) < patterns.len() / 32
}

/// Draw lyric line `line` as its 304x16 surface of palette indices.
pub fn render_surface(patterns: &[u8], map: &[u8], line: usize) -> (surface: Result<Vec<u8>, Error>)
    ensures
        surface is Ok <==> surface_ok(patterns@, map@, line as int),
        surface matches Ok(s) ==> s@.len() == 304 * 16 && forall|i: int|
            0 <= i < 304 * 16 ==> #[trigger] s@[i] == surface_pixel(patterns@, map@, line as int, i),
{
    if patterns.len() < PATTERN_BYTES || patterns.len() % MD_TILE_BYTES != 0 || map.len() != MAP_BYTES || line
        >= LINE_COUNT {
        return Err("karaoke surface inputs are invalid");
    }
    let tiles = patterns.len() / MD_TILE_BYTES;
    let start = MAP_LYRIC_START + line * LINE_BYTES;
    let mut cell: usize = 0;
    while cell < 76
        invariant
            patterns@.len() >= 47_072,
            patterns@.len() % 32 == 0,
            tiles == patterns@.len() / 32,
            map@.len() == 3_648,
            line < 9,
            start == 0x08C0 + line * 152,
            cell <= 76,
            forall|tx: int, ty: int|
                0 <= tx < 38 && 0 <= ty < 2 && ty * 38 + tx < cell ==> (#[trigger] line_word(map@, line as int, tx, ty)
                    & 0x07FF) < tiles,
        decreases 76 - cell,
    {
        let word = read_be16(map, start + cell * 2);
        if (word & 0x07FF) as usize >= tiles {
            proof {
                let tx = cell % 38;
                let ty = cell / 38;
                assert(ty * 38 + tx == cell);
                assert(line_word(map@, line as int, tx as int, ty as int) == word);
            }
            return Err("karaoke surface references a tile outside the pack");
        }
        proof {
            assert forall|tx: int, ty: int|
                0 <= tx < 38 && 0 <= ty < 2 && ty * 38 + tx < cell + 1 implies (#[trigger] line_word(
                map@,
                line as int,
                tx,
                ty,
            ) & 0x07FF) < tiles by {
                if ty * 38 + tx == cell {
                    assert(line_word(map@, line as int, tx, ty) == word);
                }
            }
        }
        cell = cell + 1;
    }
    let total = LINE_WIDTH_PIXELS * LINE_HEIGHT_PIXELS;
    let mut surface: Vec<u8> = Vec::with_capacity(total);
    let mut i: usize = 0;
    while i < total
        invariant
            surface_ok(patterns@, map@, line as int),
            tiles == patterns@.len() / 32,
            start == 0x08C0 + line * 152,
            total == 304 * 16,
            i <= total,
            surface@.len() == i,
            forall|q: int| 0 <= q < i ==> #[trigger] surface@[q] == surface_pixel(patterns@, map@, line as int, q),
        decreases total - i,
    {
        let x = i % LINE_WIDTH_PIXELS;
        let y = i / LINE_WIDTH_PIXELS;
        let word = read_be16(map, start + ((y / 8) * LINE_WIDTH_TILES + x / 8) * 2);
        assert(word == line_word(map@, line as int, (x / 8) as int, (y / 8) as int));
        let tile = (word & 0x07FF) as usize;
        let sx = if word & FLIP_H != 0 { 7 - x % 8 } else { x % 8 };
        let sy = if word & FLIP_V != 0 { 7 - y % 8 } else { y % 8 };
        let offset = tile * MD_TILE_BYTES;
        assert(offset + 32 <= patterns@.len()) by (nonlinear_arith)
            requires
                tile < tiles,
                tiles == patterns@.len() / 32,
                offset == tile * 32,
        ;
        let pixel = read_tile_pixel(&patterns[offset..offset + MD_TILE_BYTES], sx, sy);
        surface.push(pixel);
        i = i + 1;
    }
    Ok(surface)
}

/// The least flip's index is one of the four candidates.
pub proof fn lemma_best_of_range(t: Seq<u8>, n: int)
    requires
        n >= 1,
    ensures
        0 <= best_of(t, n) < n,
    decreases n,
{
    if n > 1 {
        lemma_best_of_range(t, n - 1);
    }
}

/// Pixel `i` of a glyph's 16x16 cell: the rasterised glyph centred in the
/// cell, ink (role 0) where its coverage exceeds the threshold, the field
/// (role 1) elsewhere.
pub open spec fn glyph_cell_pixel(g: CompactGlyph, threshold: u8, i: int) -> u8 {
    let w = g.width as int;
    let h = g.height as int;
    let gx = i % 16 - (16 - w) / 2;
    let gy = i / 16 - (16 - h) / 2;
    if 0 <= gx < w && 0 <= gy < h && g.coverage@[gy * w + gx] > threshold {
        0
    } else {
        1
    }
}

/// A glyph's 16x16 cell.
pub open spec fn glyph_cell(g: CompactGlyph, threshold: u8) -> Seq<u8> {
    Seq::new(256, |i: int| glyph_cell_pixel(g, threshold, i))
}

/// The glyph fits its unscaled 16x16 cell and leaves some ink in it.
pub open spec fn glyph_fits(g: CompactGlyph, threshold: u8) -> bool {
    &&& 0 < g.width <= 16
    &&& 0 < g.height <= 16
    &&& g.coverage@.len() == g.width * g.height
    &&& exists|i: int| 0 <= i < 256 && #[trigger] glyph_cell_pixel(g, threshold, i) == 0
}

/// Draw a rasterised glyph into its 16x16 cell of field and ink roles.
pub fn render_glyph(g: &CompactGlyph, threshold: u8) -> (cell: Result<Vec<u8>, Error>)
    ensures
        cell is Ok <==> glyph_fits(*g, threshold),
        cell matches Ok(c) ==> c@ == glyph_cell(*g, threshold),
{
    if g.width == 0 || g.height == 0 || g.width > 16 || g.height > 16 {
        return Err("karaoke glyph lies outside its unscaled 16x16 cell");
    }
    let w = g.width;
    let h = g.height;
    assert(w * h <= 256) by (nonlinear_arith)
        requires
            w <= 16,
            h <= 16,
    ;
    if g.coverage.len() != w * h {
        return Err("karaoke glyph coverage does not match its size");
    }
    let ox = (16 - w) / 2;
    let oy = (16 - h) / 2;
    let mut cell: Vec<u8> = Vec::with_capacity(256);
    let mut inked = false;
    let mut i: usize = 0;
    while i < 256
        invariant
            w == g.width,
            h == g.height,
            0 < w <= 16,
            0 < h <= 16,
            g.coverage@.len() == w * h,
            ox == (16 - w) / 2,
            oy == (16 - h) / 2,
            i <= 256,
            cell@.len() == i,
            forall|q: int| 0 <= q < i ==> #[trigger] cell@[q] == glyph_cell_pixel(*g, threshold, q),
            inked <==> exists|q: int| 0 <= q < i && #[trigger] glyph_cell_pixel(*g, threshold, q) == 0,
        decreases 256 - i,
    {
        let x = i % 16;
        let y = i / 16;
        let pixel: u8 = if x >= ox && x - ox < w && y >= oy && y - oy < h {
            let gx = x - ox;
            let gy = y - oy;
            assert(gy * w + gx < w * h && w * h <= 256) by (nonlinear_arith)
                requires
                    gx < w,
                    gy < h,
                    w <= 16,
                    h <= 16,
            ;
            if g.coverage[gy * w + gx] > threshold {
                0
            } else {
                1
            }
        } else {
            1
        };
        assert(pixel == glyph_cell_pixel(*g, threshold, i as int));
        cell.push(pixel);
        if pixel == 0 {
            inked = true;
        }
        i = i + 1;
    }
    assert(cell@ =~= glyph_cell(*g, threshold));
    if !inked {
        return Err("karaoke glyph rendered blank");
    }
    Ok(cell)
}

/// Quadrant `q` of a 16x16 cell as a pattern: top-left, bottom-left,
/// top-right, bottom-right, the column-major tile order.
pub open spec fn quadrant(cell: Seq<u8>, q: int) -> Seq<u8> {
    Seq::new(32, |b: int| column_major_byte(cell, 16, 16, q * 32 + b))
}

/// A quadrant of pure field, which the map leaves on the blank tile.
pub open spec fn blank_quadrant(p: Seq<u8>) -> bool {
    forall|b: int| 0 <= b < 32 ==> #[trigger] p[b] == 0x11
}

/// Pixel (`x`, `y`) of quadrant `q` is cell pixel (`x + 8 * (q / 2)`,
/// `y + 8 * (q % 2)`).
pub proof fn lemma_quadrant_pixel(cell: Seq<u8>, q: int, x: int, y: int)
    requires
        cell.len() == 256,
        all_nibbles(cell),
        0 <= q < 4,
        0 <= x < 8,
        0 <= y < 8,
    ensures
        tile_pixel(quadrant(cell, q), x, y) == cell[(y + 8 * (q % 2)) * 16 + x + 8 * (q / 2)],
{
    let b = y * 4 + x / 2;
    let j = q * 32 + b;
    assert(j / 32 == q && j % 32 == b);
    let p = column_major_pixel(16, 16, j);
    assert(p == (y + 8 * (q % 2)) * 16 + (q / 2) * 8 + (x / 2) * 2) by {
        assert(b % 4 == x / 2 && b / 4 == y);
    }
    let l = cell[p];
    let r = cell[p + 1];
    assert(l < 16 && r < 16);
    assert(nibble(pack_nibbles(l, r), true) == l && nibble(pack_nibbles(l, r), false) == r);
}

/// Counts reported after compiling the karaoke lyrics.
pub struct KaraokeSummary {
    pub lines: usize,
    pub unique_glyphs: usize,
    pub source_pattern_bytes: usize,
    pub rewritten_pattern_tiles: usize,
    pub rewritten_map_bytes: usize,
    pub pattern_pack_bytes: usize,
    pub map_pack_bytes: usize,
    pub checksum: u16,
}

/// The 38x2 lyric surface contract.
pub struct SurfaceDeclaration {
    pub width_tiles: usize,
    pub height_tiles: usize,
    pub storage: String,
    pub blank_tile_word: String,
    pub runtime_palette_or: String,
}

/// One mode-1 transfer of the JP group, and where its Korean pack goes.
pub struct PackDeclaration {
    pub command: String,
    pub vram_destination: String,
    pub ram_destination: String,
    pub decoded_bytes: usize,
    pub decoded_sha256: String,
    pub target_bank_offset: String,
    pub target_bank_limit: String,
}

/// The JP transfer group: pattern pack, RAM map pack and terminator.
pub struct SourceGroupDeclaration {
    pub header_offset: String,
    pub header_bytes: usize,
    pub header_sha256: String,
    pub terminator: String,
    pub pattern_pack: PackDeclaration,
    pub map_pack: PackDeclaration,
}

pub struct TileRangeDeclaration {
    pub start: usize,
    pub end_exclusive: usize,
    pub source_sha256: String,
}

pub struct MutableTileRangeDeclaration {
    pub start: usize,
    pub end_exclusive: usize,
    pub source_sha256: String,
    pub source_palette_indices: Vec<u8>,
}

/// Which pattern tiles stay JP-owned and which hold lyrics.
pub struct PatternOwnership {
    pub protected_prefix_tiles: TileRangeDeclaration,
    pub mutable_lyric_tiles: MutableTileRangeDeclaration,
    pub protected_suffix_tiles: TileRangeDeclaration,
}

pub struct ByteRangeDeclaration {
    pub start: String,
    pub end_exclusive: String,
    pub source_sha256: String,
}

pub struct LyricRangeDeclaration {
    pub start: String,
    pub end_exclusive: String,
    pub bytes_per_line: usize,
    pub line_count: usize,
    pub source_sha256: String,
}

/// Which map bytes stay JP-owned and which hold the nine lyric surfaces.
pub struct MapOwnership {
    pub protected_prefix: ByteRangeDeclaration,
    pub lyric_surfaces: LyricRangeDeclaration,
    pub protected_suffix: ByteRangeDeclaration,
}

/// One entry of the JP line pointer table.
pub struct PointerEntry {
    pub source_offset: String,
    pub destination_offset: String,
}

/// One record of the JP lyric timing table.
pub struct TimingRecord {
    pub timestamp: String,
    pub y: i16,
    pub limit: i16,
    pub step: String,
}

/// The JP routine, tables and line sender that display the lyrics.
pub struct ConsumerDeclaration {
    pub line_ram_base: String,
    pub pointer_table_offset: String,
    pub pointer_table_bytes: usize,
    pub pointer_table_sha256: String,
    pub line_sender_offset: String,
    pub line_sender_bytes: usize,
    pub line_sender_sha256: String,
    pub line_sender_target: String,
    pub entries: Vec<PointerEntry>,
    pub timing_table_offset: String,
    pub timing_table_bytes: usize,
    pub timing_table_sha256: String,
    pub timing_records: Vec<TimingRecord>,
}

/// One lyric line: its id and its JP and Korean text.
pub struct LineDeclaration {
    pub id: String,
    pub jp: String,
    pub ko: String,
}

/// The karaoke asset manifest; the font size is in whole pixels.
pub struct KaraokeManifest {
    pub schema_version: u32,
    pub asset_group_id: String,
    pub source_policy: String,
    pub font_asset: String,
    pub font_sha256: String,
    pub font_size_px: u32,
    pub coverage_threshold: u8,
    pub surface: SurfaceDeclaration,
    pub source_group: SourceGroupDeclaration,
    pub pattern_ownership: PatternOwnership,
    pub map_ownership: MapOwnership,
    pub consumer: ConsumerDeclaration,
    pub lines: Vec<LineDeclaration>,
}

/// A SHA-256 declaration of 64 hexadecimal digits' length.
pub open spec fn hash_len_ok(h: String) -> bool {
    byte_len(h@) == 64
}

/// The character of decimal digit `d`.
pub open spec fn decimal_digit(d: int) -> char {
    (d + 48) as char
}

/// The id of lyric line `k`: `GFX-KARAOKE-LINE-` and two decimal digits.
pub open spec fn line_id(k: int) -> Seq<char> {
    "GFX-KARAOKE-LINE-"@ + seq![decimal_digit(k / 10), decimal_digit(k % 10)]
}

/// `char::is_control`: the C0 and C1 control characters.
pub open spec fn spec_is_control(c: char) -> bool {
    (c as u32) <= 0x1F || (0x7F <= (c as u32) && (c as u32) <= 0x9F)
}

/// Lyric line `k` is declared: its id, non-empty JP and Korean text, and
/// Korean text of at most 19 characters, no longer than the JP, without
/// control characters.
pub open spec fn line_ok(l: LineDeclaration, k: int) -> bool {
    &&& l.id@ == line_id(k)
    &&& l.jp@.len() > 0
    &&& l.ko@.len() > 0
    &&& l.ko@.len() <= 19
    &&& l.ko@.len() <= l.jp@.len()
    &&& forall|j: int| 0 <= j < l.ko@.len() ==> !spec_is_control(#[trigger] l.ko@[j])
}

/// Character `c` is drawn in some Korean lyric.
pub open spec fn lyric_char(lines: Seq<LineDeclaration>, c: char) -> bool {
    !spec_is_whitespace(c) && exists|k: int| 0 <= k < lines.len() && #[trigger] lines[k].ko@.contains(c)
}

pub open spec fn identity_ok(m: KaraokeManifest) -> bool {
    &&& m.schema_version == 1
    &&& m.asset_group_id@ == "GFX-KARAOKE"@
    &&& seq_contains_run(m.source_policy@, "English VWF font, eleven-line maps"@)
    &&& m.font_asset@ == "../fonts/Galmuri11.ttf"@
    &&& hash_len_ok(m.font_sha256)
    &&& m.font_size_px == 12
    &&& m.coverage_threshold == 96
    &&& m.lines@.len() == 9
}

pub open spec fn surface_declaration_ok(s: SurfaceDeclaration) -> bool {
    &&& s.width_tiles == 38
    &&& s.height_tiles == 2
    &&& s.storage@ == "row_major"@
    &&& hex_is(s.blank_tile_word@, 1)
    &&& hex_is(s.runtime_palette_or@, 0x4000)
}

/// A pack declaration: its command, destination (VRAM for command 0x80,
/// RAM otherwise), size, hash and target bank.
pub open spec fn pack_declaration_ok(p: PackDeclaration, command: nat, destination: nat, bytes: nat, bank: nat, limit: nat) -> bool {
    &&& hex_is(p.command@, command)
    &&& hex_is((if command == 0x80 { p.vram_destination } else { p.ram_destination })@, destination)
    &&& p.decoded_bytes == bytes
    &&& hash_len_ok(p.decoded_sha256)
    &&& hex_is(p.target_bank_offset@, bank)
    &&& hex_is(p.target_bank_limit@, limit)
}

pub open spec fn group_ok(g: SourceGroupDeclaration) -> bool {
    &&& hex_is(g.header_offset@, 0x08_A12C)
    &&& g.header_bytes == 14
    &&& hash_len_ok(g.header_sha256)
    &&& hex_is(g.terminator@, 0xFFFF)
    &&& pack_declaration_ok(g.pattern_pack, 0x80, 0, 47_072, 0x2E_0000, 0x2F_0000)
    &&& pack_declaration_ok(g.map_pack, 0x00, 0xA000, 3_648, 0x2F_0000, 0x2F_8000)
}

pub open spec fn pattern_ownership_ok(p: PatternOwnership) -> bool {
    &&& p.protected_prefix_tiles.start == 0
    &&& p.protected_prefix_tiles.end_exclusive == 0x04FF
    &&& p.mutable_lyric_tiles.start == 0x04FF
    &&& p.mutable_lyric_tiles.end_exclusive == 0x05AD
    &&& p.protected_suffix_tiles.start == 0x05AD
    &&& p.protected_suffix_tiles.end_exclusive == 1_471
    &&& p.mutable_lyric_tiles.source_palette_indices@ == seq![0u8, 1]
    &&& hash_len_ok(p.protected_prefix_tiles.source_sha256)
    &&& hash_len_ok(p.mutable_lyric_tiles.source_sha256)
    &&& hash_len_ok(p.protected_suffix_tiles.source_sha256)
}

pub open spec fn map_ownership_ok(m: MapOwnership) -> bool {
    &&& hex_is(m.protected_prefix.start@, 0)
    &&& hex_is(m.protected_prefix.end_exclusive@, 0x08C0)
    &&& hex_is(m.lyric_surfaces.start@, 0x08C0)
    &&& hex_is(m.lyric_surfaces.end_exclusive@, 0x0E18)
    &&& m.lyric_surfaces.bytes_per_line == 152
    &&& m.lyric_surfaces.line_count == 9
    &&& hex_is(m.protected_suffix.start@, 0x0E18)
    &&& hex_is(m.protected_suffix.end_exclusive@, 0x0E40)
    &&& hash_len_ok(m.protected_prefix.source_sha256)
    &&& hash_len_ok(m.lyric_surfaces.source_sha256)
    &&& hash_len_ok(m.protected_suffix.source_sha256)
}

/// Pointer entry `k` sends line `k` from its 152-byte slot to the top or
/// bottom half of the plane.
pub open spec fn entry_ok(e: PointerEntry, k: int) -> bool {
    &&& hex_is(e.source_offset@, (k * 152) as nat)
    &&& hex_is(e.destination_offset@, if k % 2 == 0 { 0 } else { 0x0300 })
}

/// Every timing record's step parses as a long word.
pub open spec fn steps_fit(records: Seq<TimingRecord>) -> bool {
    forall|k: int| 0 <= k < records.len() ==> hex_fits(#[trigger] records[k].step@, u32::MAX as nat)
}

/// Every pointer entry `k` is declared for line `k`.
pub open spec fn entries_ok(entries: Seq<PointerEntry>) -> bool {
    forall|k: int| 0 <= k < entries.len() ==> entry_ok(#[trigger] entries[k], k)
}

pub open spec fn consumer_declaration_ok(c: ConsumerDeclaration) -> bool {
    &&& hex_is(c.line_ram_base@, 0x00FF_A8C0)
    &&& hex_is(c.pointer_table_offset@, 0x08_FC7A)
    &&& c.pointer_table_bytes == 36
    &&& hash_len_ok(c.pointer_table_sha256)
    &&& hex_is(c.line_sender_offset@, 0x08_FC9E)
    &&& c.line_sender_bytes == 42
    &&& hash_len_ok(c.line_sender_sha256)
    &&& hex_is(c.line_sender_target@, 0x0008_FFB0)
    &&& c.entries@.len() == 9
    &&& hex_is(c.timing_table_offset@, 0x08_FCC8)
    &&& c.timing_table_bytes == 100
    &&& hash_len_ok(c.timing_table_sha256)
    &&& c.timing_records@.len() == 10
    &&& entries_ok(c.entries@)
    &&& steps_fit(c.timing_records@)
    &&& forall|k: int| 0 <= k < 10 ==> hex_fits(#[trigger] c.timing_records@[k].timestamp@, usize::MAX as nat)
    &&& forall|k: int|
        1 <= k < 10 ==> spec_parse_hex(#[trigger] c.timing_records@[k].timestamp@).unwrap() > spec_parse_hex(
            c.timing_records@[k - 1].timestamp@,
        ).unwrap()
}

/// Every fixed fact the karaoke manifest must declare.
pub open spec fn manifest_shape_ok(m: KaraokeManifest) -> bool {
    &&& identity_ok(m)
    &&& surface_declaration_ok(m.surface)
    &&& group_ok(m.source_group)
    &&& pattern_ownership_ok(m.pattern_ownership)
    &&& map_ownership_ok(m.map_ownership)
    &&& consumer_declaration_ok(m.consumer)
    &&& forall|k: int| 0 <= k < 9 ==> line_ok(#[trigger] m.lines@[k], k)
    &&& exists|c: char| lyric_char(m.lines@, c)
}

/// `char::is_control`.
pub fn is_control(c: char) -> (control: bool)
    ensures
        control == spec_is_control(c),
{
    let v = c as u32;
    v <= 0x1F || (0x7F <= v && v <= 0x9F)
}

fn line_id_matches(id: &String, k: usize) -> (same: bool)
    requires
        k < 100,
    ensures
        same == (id@ == line_id(k as int)),
{
    let prefix = "GFX-KARAOKE-LINE-";
    proof {
        reveal_strlit("GFX-KARAOKE-LINE-");
    }
    let text = id.as_str();
    let n = text.unicode_len();
    let expected_tens = ((k / 10) as u8 + 48) as char;
    let expected_ones = ((k % 10) as u8 + 48) as char;
    assert(expected_tens == decimal_digit((k / 10) as int));
    assert(expected_ones == decimal_digit((k % 10) as int));
    assert(line_id(k as int).len() == 19);
    if n != 19 {
        return false;
    }
    let mut j: usize = 0;
    while j < 17
        invariant
            prefix@ == "GFX-KARAOKE-LINE-"@,
            prefix@.len() == 17,
            text@ == id@,
            text@.len() == 19,
            j <= 17,
            forall|q: int| 0 <= q < j ==> text@[q] == line_id(k as int)[q],
        decreases 17 - j,
    {
        if text.get_char(j) != prefix.get_char(j) {
            assert(text@[j as int] != line_id(k as int)[j as int]);
            return false;
        }
        j = j + 1;
    }
    if text.get_char(17) != expected_tens || text.get_char(18) != expected_ones {
        assert(text@[17] != line_id(k as int)[17] || text@[18] != line_id(k as int)[18]);
        return false;
    }
    assert(text@ =~= line_id(k as int));
    true
}

fn line_matches(l: &LineDeclaration, k: usize) -> (ok: bool)
    requires
        k < 100,
    ensures
        ok == line_ok(*l, k as int),
{
    if !line_id_matches(&l.id, k) {
        return false;
    }
    let jp = l.jp.as_str().unicode_len();
    let ko = l.ko.as_str();
    let n = ko.unicode_len();
    if jp == 0 || n == 0 || n > LINE_WIDTH_CELLS || n > jp {
        return false;
    }
    let mut j: usize = 0;
    while j < n
        invariant
            n == ko@.len(),
            ko@ == l.ko@,
            j <= n,
            forall|q: int| 0 <= q < j ==> !spec_is_control(#[trigger] ko@[q]),
        decreases n - j,
    {
        if is_control(ko.get_char(j)) {
            return false;
        }
        j = j + 1;
    }
    true
}

fn pack_declaration_matches(p: &PackDeclaration, command: u8, destination: u16, bytes: usize, bank: usize, limit: usize) -> (ok:
    bool)
    ensures
        ok == pack_declaration_ok(*p, command as nat, destination as nat, bytes as nat, bank as nat, limit as nat),
{
    let declared = if command == 0x80 {
        &p.vram_destination
    } else {
        &p.ram_destination
    };
    hex_equals(&p.command, command as usize) && hex_equals(declared, destination as usize) && p.decoded_bytes == bytes
        && has_byte_len(&p.decoded_sha256, 64) && hex_equals(&p.target_bank_offset, bank) && hex_equals(
        &p.target_bank_limit,
        limit,
    )
}

fn consumer_declaration_matches(c: &ConsumerDeclaration) -> (ok: bool)
    ensures
        ok == consumer_declaration_ok(*c),
{
    if !hex_equals(&c.line_ram_base, 0x00FF_A8C0) || !hex_equals(&c.pointer_table_offset, POINTER_TABLE_OFFSET)
        || c.pointer_table_bytes != POINTER_TABLE_BYTES || !has_byte_len(&c.pointer_table_sha256, 64)
        || !hex_equals(&c.line_sender_offset, LINE_SENDER_OFFSET) || c.line_sender_bytes != LINE_SENDER_BYTES
        || !has_byte_len(&c.line_sender_sha256, 64) || !hex_equals(&c.line_sender_target, 0x0008_FFB0)
        || c.entries.len() != LINE_COUNT || !hex_equals(&c.timing_table_offset, TIMING_TABLE_OFFSET)
        || c.timing_table_bytes != TIMING_TABLE_BYTES || !has_byte_len(&c.timing_table_sha256, 64)
        || c.timing_records.len() != 10 {
        return false;
    }
    let mut k: usize = 0;
    while k < LINE_COUNT
        invariant
            c.entries@.len() == 9,
            k <= 9,
            forall|j: int| 0 <= j < k ==> entry_ok(#[trigger] c.entries@[j], j),
        decreases 9 - k,
    {
        let destination: usize = if k % 2 == 0 { 0 } else { 0x0300 };
        if !hex_equals(&c.entries[k].source_offset, k * LINE_BYTES) || !hex_equals(
            &c.entries[k].destination_offset,
            destination,
        ) {
            return false;
        }
        k = k + 1;
    }
    let mut previous: usize = 0;
    let mut k: usize = 0;
    while k < 10
        invariant
            c.timing_records@.len() == 10,
            k <= 10,
            forall|j: int| 0 <= j < k ==> hex_fits(#[trigger] c.timing_records@[j].timestamp@, usize::MAX as nat),
            forall|j: int| 0 <= j < k ==> hex_fits(#[trigger] c.timing_records@[j].step@, u32::MAX as nat),
            forall|j: int|
                1 <= j < k ==> spec_parse_hex(#[trigger] c.timing_records@[j].timestamp@).unwrap() > spec_parse_hex(
                    c.timing_records@[j - 1].timestamp@,
                ).unwrap(),
            k > 0 ==> previous as nat == spec_parse_hex(c.timing_records@[k - 1].timestamp@).unwrap(),
        decreases 10 - k,
    {
        let timestamp = match parse_hex(c.timing_records[k].timestamp.as_str()) {
            Ok(t) => t,
            Err(_) => {
                return false;
            },
        };
        if k != 0 && timestamp <= previous {
            return false;
        }
        if parse_u32_hex(c.timing_records[k].step.as_str()).is_err() {
            return false;
        }
        previous = timestamp;
        k = k + 1;
    }
    true
}

/// Refuse a manifest whose identity, surface contract, transfer group,
/// ownership ranges, consumer declaration or lyric lines drifted.
pub fn validate_manifest_shape(manifest: &KaraokeManifest) -> (result: Result<(), Error>)
    ensures
        result is Ok <==> manifest_shape_ok(*manifest),
{
    if manifest.schema_version != 1 || !string_is(&manifest.asset_group_id, "GFX-KARAOKE") || !str_contains(
        manifest.source_policy.as_str(),
        "English VWF font, eleven-line maps",
    ) || !string_is(&manifest.font_asset, "../fonts/Galmuri11.ttf") || !has_byte_len(&manifest.font_sha256, 64)
        || manifest.font_size_px != 12 || manifest.coverage_threshold != 96 || manifest.lines.len() != LINE_COUNT {
        return Err("karaoke manifest identity drifted");
    }
    let surface = &manifest.surface;
    if surface.width_tiles != LINE_WIDTH_TILES || surface.height_tiles != LINE_HEIGHT_TILES || !string_is(
        &surface.storage,
        "row_major",
    ) || !hex_equals(&surface.blank_tile_word, 1) || !hex_equals(&surface.runtime_palette_or, 0x4000) {
        return Err("karaoke surface contract drifted");
    }
    let group = &manifest.source_group;
    if !hex_equals(&group.header_offset, GROUP_HEADER_OFFSET) || group.header_bytes != GROUP_HEADER_BYTES
        || !has_byte_len(&group.header_sha256, 64) || !hex_equals(&group.terminator, 0xFFFF) {
        return Err("karaoke source group declaration drifted");
    }
    if !pack_declaration_matches(&group.pattern_pack, 0x80, 0, PATTERN_BYTES, PATTERN_BANK_OFFSET, PATTERN_BANK_LIMIT) {
        return Err("karaoke pattern pack declaration drifted");
    }
    if !pack_declaration_matches(&group.map_pack, 0x00, 0xA000, MAP_BYTES, MAP_BANK_OFFSET, MAP_BANK_LIMIT) {
        return Err("karaoke map pack declaration drifted");
    }
    let pattern = &manifest.pattern_ownership;
    let indices = &pattern.mutable_lyric_tiles.source_palette_indices;
    if pattern.protected_prefix_tiles.start != 0 || pattern.protected_prefix_tiles.end_exclusive != MUTABLE_TILE_START
        || pattern.mutable_lyric_tiles.start != MUTABLE_TILE_START || pattern.mutable_lyric_tiles.end_exclusive
        != MUTABLE_TILE_END || pattern.protected_suffix_tiles.start != MUTABLE_TILE_END
        || pattern.protected_suffix_tiles.end_exclusive != PATTERN_TILES || indices.len() != 2 || indices[0] != 0
        || indices[1] != 1 {
        proof {
            if indices@.len() == 2 && indices@ == seq![0u8, 1] {
                assert(indices@[0] == 0 && indices@[1] == 1);
            }
        }
        return Err("karaoke pattern ownership drifted");
    }
    assert(indices@ =~= seq![0u8, 1]);
    if !has_byte_len(&pattern.protected_prefix_tiles.source_sha256, 64) || !has_byte_len(
        &pattern.mutable_lyric_tiles.source_sha256,
        64,
    ) || !has_byte_len(&pattern.protected_suffix_tiles.source_sha256, 64) {
        return Err("karaoke pattern ownership hash is invalid");
    }
    let map = &manifest.map_ownership;
    if !hex_equals(&map.protected_prefix.start, 0) || !hex_equals(&map.protected_prefix.end_exclusive, MAP_LYRIC_START)
        || !hex_equals(&map.lyric_surfaces.start, MAP_LYRIC_START) || !hex_equals(
        &map.lyric_surfaces.end_exclusive,
        MAP_LYRIC_END,
    ) || map.lyric_surfaces.bytes_per_line != LINE_BYTES || map.lyric_surfaces.line_count != LINE_COUNT
        || !hex_equals(&map.protected_suffix.start, MAP_LYRIC_END) || !hex_equals(
        &map.protected_suffix.end_exclusive,
        MAP_SUFFIX_END,
    ) {
        return Err("karaoke map ownership drifted");
    }
    if !has_byte_len(&map.protected_prefix.source_sha256, 64) || !has_byte_len(&map.lyric_surfaces.source_sha256, 64)
        || !has_byte_len(&map.protected_suffix.source_sha256, 64) {
        return Err("karaoke map ownership hash is invalid");
    }
    if !consumer_declaration_matches(&manifest.consumer) {
        return Err("karaoke consumer declaration drifted");
    }
    let lines = &manifest.lines;
    let mut any_glyph = false;
    let mut k: usize = 0;
    while k < LINE_COUNT
        invariant
            lines@ == manifest.lines@,
            lines@.len() == 9,
            k <= 9,
            forall|j: int| 0 <= j < k ==> line_ok(#[trigger] lines@[j], j),
            any_glyph <==> exists|j: int, q: int|
                0 <= j < k && 0 <= q < lines@[j].ko@.len() && !spec_is_whitespace(#[trigger] lines@[j].ko@[q]),
        decreases 9 - k,
    {
        if !line_matches(&lines[k], k) {
            return Err("karaoke line declaration drifted");
        }
        let ko = lines[k].ko.as_str();
        let n = ko.unicode_len();
        let mut q: usize = 0;
        let ghost before = any_glyph;
        while q < n
            invariant
                n == ko@.len(),
                ko@ == lines@[k as int].ko@,
                q <= n,
                any_glyph <==> (before || exists|p: int| 0 <= p < q && !spec_is_whitespace(#[trigger] ko@[p])),
            decreases n - q,
        {
            if !is_whitespace(ko.get_char(q)) {
                any_glyph = true;
            }
            q = q + 1;
        }
        proof {
            if any_glyph && !before {
                let p = choose|p: int| 0 <= p < q && !spec_is_whitespace(#[trigger] ko@[p]);
                assert(!spec_is_whitespace(lines@[k as int].ko@[p]));
            }
            if !any_glyph {
                assert forall|j: int, p: int| 0 <= j < k + 1 && 0 <= p < lines@[j].ko@.len() implies spec_is_whitespace(
                    #[trigger] lines@[j].ko@[p],
                ) by {
                    if j == k {
                        assert(spec_is_whitespace(ko@[p]));
                    }
                }
            }
        }
        k = k + 1;
    }
    if !any_glyph {
        proof {
            assert forall|c: char| !lyric_char(manifest.lines@, c) by {
                if lyric_char(manifest.lines@, c) {
                    let j = choose|j: int| 0 <= j < lines@.len() && #[trigger] lines@[j].ko@.contains(c);
                    let p = choose|p: int| 0 <= p < lines@[j].ko@.len() && lines@[j].ko@[p] == c;
                    assert(spec_is_whitespace(lines@[j].ko@[p]));
                }
            }
        }
        return Err("karaoke declares no Korean glyphs");
    }
    proof {
        let (j, p) = choose|j: int, p: int|
            0 <= j < 9 && 0 <= p < lines@[j].ko@.len() && !spec_is_whitespace(#[trigger] lines@[j].ko@[p]);
        assert(lines@[j].ko@.contains(lines@[j].ko@[p]));
        assert(lyric_char(manifest.lines@, lines@[j].ko@[p]));
    }
    Ok(())
}

/// The JP transfer group header: pattern pack to VRAM 0, map pack to RAM
/// 0xA000, then the terminator.
pub open spec fn group_present(source: Seq<u8>, m: KaraokeManifest) -> bool {
    let h = source.subrange(0x08_A12C, 0x08_A12Cint + 14);
    &&& source.len() >= 0x08_A12C + 14
    &&& sha256_hex_of(h) == m.source_group.header_sha256@
    &&& h[0] == 0x80
    &&& h[6] == 0x00
    &&& be16(h, 4) == 0
    &&& be16(h, 10) == 0xA000
    &&& be16(h, 12) == 0xFFFF
}

/// Refuse a ROM whose JP transfer group drifted.
pub fn validate_source_group(source: &[u8], manifest: &KaraokeManifest) -> (result: Result<(), Error>)
    ensures
        result is Ok <==> group_present(source@, *manifest),
{
    let header = source_range(source, GROUP_HEADER_OFFSET, GROUP_HEADER_BYTES)?;
    let hash = sha256_hex(header);
    if !string_is(&hash, manifest.source_group.header_sha256.as_str()) {
        return Err("karaoke JP transfer group SHA-256 drifted");
    }
    if header[0] != 0x80 || header[6] != 0x00 || read_be16(header, 4) != 0 || read_be16(header, 10) != 0xA000
        || read_be16(header, 12) != 0xFFFF {
        return Err("karaoke JP pattern/map/terminator contract drifted");
    }
    Ok(())
}

/// A decoded JP transfer of the group is the declared one.
pub open spec fn pack_checked(decoded: DecodedPack, header: nat, destination: nat, bytes: nat, sha: Seq<char>) -> bool {
    &&& decoded.header_offset == header
    &&& decoded.vram_destination == destination
    &&& decoded.data@.len() == bytes
    &&& sha256_hex_of(decoded.data@) == sha
}

fn checked_pack(decoded: &DecodedPack, header: usize, destination: u16, bytes: usize, sha: &String) -> (payload:
    Result<Vec<u8>, Error>)
    ensures
        payload is Ok <==> pack_checked(*decoded, header as nat, destination as nat, bytes as nat, sha@),
        payload matches Ok(p) ==> p@ == decoded.data@,
{
    if decoded.header_offset != header {
        return Err("karaoke transfer was decoded from another header");
    }
    let hash = sha256_hex(decoded.data.as_slice());
    if decoded.vram_destination != destination || decoded.data.len() != bytes || !string_is(&hash, sha.as_str()) {
        return Err("karaoke JP transfer drifted");
    }
    Ok(decoded.data.clone())
}

/// A lyric-region map word of the JP source: the blank tile, or a plain
/// mutable lyric tile.
pub open spec fn source_word_ok(w: u16) -> bool {
    w == 1 || (0x04FF <= (w & 0x07FF) < 0x05AD && w & 0xE000 == 0)
}

/// The JP patterns and map: each owned range has its declared hash, the
/// lyric tiles use palette roles 0 and 1 only, tile 1 is the solid
/// palette-1 field, and the lyric maps name only blank or lyric tiles.
pub open spec fn source_ownership_ok(patterns: Seq<u8>, map: Seq<u8>, m: KaraokeManifest) -> bool {
    let po = m.pattern_ownership;
    let mo = m.map_ownership;
    &&& patterns.len() == 47_072
    &&& map.len() == 3_648
    &&& sha256_hex_of(patterns.subrange(0, 0x04FFint * 32)) == po.protected_prefix_tiles.source_sha256@
    &&& sha256_hex_of(patterns.subrange(0x04FFint * 32, 0x05ADint * 32)) == po.mutable_lyric_tiles.source_sha256@
    &&& sha256_hex_of(patterns.subrange(0x05ADint * 32, 47_072)) == po.protected_suffix_tiles.source_sha256@
    &&& nibble_roles_are(patterns.subrange(0x04FFint * 32, 0x05ADint * 32), seq![0usize, 1])
    &&& forall|b: int| 32 <= b < 64 ==> #[trigger] patterns[b] == 0x11
    &&& sha256_hex_of(map.subrange(0, 0x08C0)) == mo.protected_prefix.source_sha256@
    &&& sha256_hex_of(map.subrange(0x08C0, 0x0E18)) == mo.lyric_surfaces.source_sha256@
    &&& sha256_hex_of(map.subrange(0x0E18, 0x0E40)) == mo.protected_suffix.source_sha256@
    &&& forall|w: int| 0 <= w < 684 ==> #[trigger] source_word_ok(be16(map, 0x08C0 + 2 * w) as u16)
}

fn slice_hash_is(bytes: &[u8], expected: &String) -> (same: bool)
    ensures
        same == (sha256_hex_of(bytes@) == expected@),
{
    let hash = sha256_hex(bytes);
    string_is(&hash, expected.as_str())
}

/// Refuse JP patterns or map whose owned ranges, lyric roles, blank tile or
/// lyric words drifted.
pub fn validate_source_ownership(patterns: &[u8], map: &[u8], manifest: &KaraokeManifest) -> (result: Result<
    (),
    Error,
>)
    ensures
        result is Ok <==> source_ownership_ok(patterns@, map@, *manifest),
{
    if patterns.len() != PATTERN_BYTES || map.len() != MAP_BYTES {
        return Err("karaoke decoded source lengths drifted");
    }
    let po = &manifest.pattern_ownership;
    let lyric_start = MUTABLE_TILE_START * MD_TILE_BYTES;
    let lyric_end = MUTABLE_TILE_END * MD_TILE_BYTES;
    if !slice_hash_is(&patterns[0..lyric_start], &po.protected_prefix_tiles.source_sha256) || !slice_hash_is(
        &patterns[lyric_start..lyric_end],
        &po.mutable_lyric_tiles.source_sha256,
    ) || !slice_hash_is(&patterns[lyric_end..PATTERN_BYTES], &po.protected_suffix_tiles.source_sha256) {
        return Err("karaoke JP pattern range SHA-256 mismatch");
    }
    let roles: Vec<usize> = vec![0, 1];
    if !nibble_roles_match(&patterns[lyric_start..lyric_end], roles.as_slice()) {
        return Err("karaoke JP lyric patterns use unexpected palette roles");
    }
    let mut b: usize = 32;
    while b < 64
        invariant
            patterns@.len() == 47_072,
            32 <= b <= 64,
            forall|q: int| 32 <= q < b ==> #[trigger] patterns@[q] == 0x11,
        decreases 64 - b,
    {
        if patterns[b] != 0x11 {
            return Err("karaoke JP blank tile 0x001 is not the solid palette-1 field");
        }
        b = b + 1;
    }
    let mo = &manifest.map_ownership;
    if !slice_hash_is(&map[0..MAP_LYRIC_START], &mo.protected_prefix.source_sha256) || !slice_hash_is(
        &map[MAP_LYRIC_START..MAP_LYRIC_END],
        &mo.lyric_surfaces.source_sha256,
    ) || !slice_hash_is(&map[MAP_LYRIC_END..MAP_SUFFIX_END], &mo.protected_suffix.source_sha256) {
        return Err("karaoke JP map range SHA-256 mismatch");
    }
    let mut w: usize = 0;
    while w < 684
        invariant
            map@.len() == 3_648,
            w <= 684,
            forall|q: int| 0 <= q < w ==> #[trigger] source_word_ok(be16(map@, 0x08C0 + 2 * q) as u16),
        decreases 684 - w,
    {
        let value = read_be16(map, MAP_LYRIC_START + 2 * w);
        let tile = value & 0x07FF;
        if value != 1 && (tile < 0x04FF || tile >= 0x05AD || value & 0xE000 != 0) {
            assert(!source_word_ok(be16(map@, 0x08C0 + 2 * w) as u16));
            return Err("karaoke JP lyric map word is outside its tile ownership");
        }
        w = w + 1;
    }
    Ok(())
}

/// The JP typed line sender at 0x08FC9E, as 68000 code: `LSL.W #2,D0`;
/// `LEA (-40,PC,D0.W),A3` (the pointer table); `LEA $00FFA8C0,A2`;
/// `ADDA.W (A3)+,A2`; `MOVE.W #$D602,D0`; `ADD.W (A3),D0`;
/// `MOVE.W #$0025,D1`; `MOVE.W #$0001,D2`; `MOVE.L #$01000000,D3`;
/// `MOVE.W #$4000,D5`; `BRA.W $08FFB0`.
pub const LINE_SENDER: [u8; 42] = [
    0xE5, 0x48, 0x47, 0xFB, 0x00, 0xD8, 0x45, 0xF9, 0x00, 0xFF, 0xA8, 0xC0, 0xD4, 0xDB, 0x30, 0x3C, 0xD6, 0x02, 0xD0,
    0x53, 0x32, 0x3C, 0x00, 0x25, 0x34, 0x3C, 0x00, 0x01, 0x26, 0x3C, 0x01, 0x00, 0x00, 0x00, 0x3A, 0x3C, 0x40, 0x00,
    0x60, 0x00, 0x02, 0xEA,
];

/// The word a manifest number denotes, as two big-endian bytes.
pub open spec fn hex_bytes16(text: Seq<char>) -> Seq<u8> {
    word_bytes(spec_parse_hex(text).unwrap() as u16)
}

/// The big-endian bytes of a long word.
pub open spec fn long_bytes(v: int) -> Seq<u8> {
    seq![(v / 0x100_0000) as u8, ((v / 0x1_0000) % 256) as u8, ((v / 256) % 256) as u8, (v % 256) as u8]
}

/// The JP line pointer table the declaration describes: per line, its
/// source offset and destination offset as words.
pub open spec fn pointer_table(c: ConsumerDeclaration) -> Seq<u8> {
    Seq::new(
        36,
        |b: int|
            if b % 4 < 2 {
                hex_bytes16(c.entries@[b / 4].source_offset@)[b % 2]
            } else {
                hex_bytes16(c.entries@[b / 4].destination_offset@)[b % 2]
            },
    )
}

/// The ten bytes of one timing record: timestamp, y and limit words and a
/// step long word.
pub open spec fn record_bytes(r: TimingRecord) -> Seq<u8> {
    hex_bytes16(r.timestamp@) + word_bytes(r.y as u16) + word_bytes(r.limit as u16) + long_bytes(
        spec_parse_hex(r.step@).unwrap() as int,
    )
}

/// The JP timing table the declaration describes.
pub open spec fn timing_table(c: ConsumerDeclaration) -> Seq<u8> {
    Seq::new(100, |b: int| record_bytes(c.timing_records@[b / 10])[b % 10])
}

/// The ROM holds the declared pointer table, the JP line sender and the
/// declared timing table, each matching its declared hash.
pub open spec fn consumer_present(rom: Seq<u8>, c: ConsumerDeclaration) -> bool {
    &&& sha256_hex_of(pointer_table(c)) == c.pointer_table_sha256@
    &&& rom.len() >= 0x08_FD2C
    &&& rom.subrange(0x08_FC7A, 0x08_FC9E) == pointer_table(c)
    &&& rom.subrange(0x08_FC9E, 0x08_FCC8) == LINE_SENDER@
    &&& sha256_hex_of(LINE_SENDER@) == c.line_sender_sha256@
    &&& forall|k: int| 0 <= k < 10 ==> hex_fits(#[trigger] c.timing_records@[k].timestamp@, u16::MAX as nat)
    &&& sha256_hex_of(timing_table(c)) == c.timing_table_sha256@
    &&& rom.subrange(0x08_FCC8, 0x08_FD2C) == timing_table(c)
}

fn push_word(out: &mut Vec<u8>, word: u16)
    ensures
        final(out)@ == old(out)@ + word_bytes(word),
{
    crate::rom::append_word(out, word);
}

fn semantic_pointer_table(c: &ConsumerDeclaration) -> (table: Result<Vec<u8>, Error>)
    requires
        c.entries@.len() == 9,
        entries_ok(c.entries@),
    ensures
        table is Ok <==> sha256_hex_of(pointer_table(*c)) == c.pointer_table_sha256@,
        table matches Ok(t) ==> t@ == pointer_table(*c),
{
    let mut out: Vec<u8> = Vec::with_capacity(POINTER_TABLE_BYTES);
    let mut k: usize = 0;
    while k < LINE_COUNT
        invariant
            c.entries@.len() == 9,
            entries_ok(c.entries@),
            k <= 9,
            out@.len() == 4 * k,
            forall|b: int| 0 <= b < 4 * k ==> #[trigger] out@[b] == pointer_table(*c)[b],
        decreases 9 - k,
    {
        assert(entry_ok(c.entries@[k as int], k as int));
        let source = parse_u16_hex(c.entries[k].source_offset.as_str()).unwrap();
        let destination = parse_u16_hex(c.entries[k].destination_offset.as_str()).unwrap();
        let ghost before = out@;
        push_word(&mut out, source);
        push_word(&mut out, destination);
        assert forall|b: int| 0 <= b < 4 * (k + 1) implies #[trigger] out@[b] == pointer_table(*c)[b] by {
            if b >= 4 * k {
                assert(b / 4 == k);
            } else {
                assert(out@[b] == before[b]);
            }
        }
        k = k + 1;
    }
    assert(out@ =~= pointer_table(*c));
    let hash = sha256_hex(out.as_slice());
    if !string_is(&hash, c.pointer_table_sha256.as_str()) {
        return Err("karaoke semantic pointer declaration hash drifted");
    }
    Ok(out)
}

fn record_bytes_of(r: &TimingRecord) -> (bytes: Result<Vec<u8>, Error>)
    requires
        hex_fits(r.step@, u32::MAX as nat),
    ensures
        bytes is Ok <==> hex_fits(r.timestamp@, u16::MAX as nat),
        bytes matches Ok(b) ==> b@ == record_bytes(*r),
{
    let timestamp = parse_u16_hex(r.timestamp.as_str())?;
    let step = parse_u32_hex(r.step.as_str()).unwrap();
    let mut out: Vec<u8> = Vec::with_capacity(10);
    push_word(&mut out, timestamp);
    push_word(&mut out, r.y as u16);
    push_word(&mut out, r.limit as u16);
    out.push((step / 0x100_0000) as u8);
    out.push(((step / 0x1_0000) % 256) as u8);
    out.push(((step / 256) % 256) as u8);
    out.push((step % 256) as u8);
    assert(out@ =~= record_bytes(*r));
    Ok(out)
}

fn semantic_timing_table(c: &ConsumerDeclaration) -> (table: Result<Vec<u8>, Error>)
    requires
        c.timing_records@.len() == 10,
        steps_fit(c.timing_records@),
    ensures
        table is Ok <==> (forall|k: int| 0 <= k < 10 ==> hex_fits(#[trigger] c.timing_records@[k].timestamp@, u16::MAX as nat))
            && sha256_hex_of(timing_table(*c)) == c.timing_table_sha256@,
        table matches Ok(t) ==> t@ == timing_table(*c),
{
    let mut out: Vec<u8> = Vec::with_capacity(TIMING_TABLE_BYTES);
    let mut k: usize = 0;
    while k < 10
        invariant
            c.timing_records@.len() == 10,
            steps_fit(c.timing_records@),
            k <= 10,
            out@.len() == 10 * k,
            forall|j: int| 0 <= j < k ==> hex_fits(#[trigger] c.timing_records@[j].timestamp@, u16::MAX as nat),
            forall|b: int| 0 <= b < 10 * k ==> #[trigger] out@[b] == timing_table(*c)[b],
        decreases 10 - k,
    {
        assert(hex_fits(c.timing_records@[k as int].step@, u32::MAX as nat));
        let mut bytes = record_bytes_of(&c.timing_records[k])?;
        let ghost before = out@;
        out.append(&mut bytes);
        assert forall|b: int| 0 <= b < 10 * (k + 1) implies #[trigger] out@[b] == timing_table(*c)[b] by {
            if b >= 10 * k {
                assert(b / 10 == k);
            } else {
                assert(out@[b] == before[b]);
            }
        }
        k = k + 1;
    }
    assert(out@ =~= timing_table(*c));
    let hash = sha256_hex(out.as_slice());
    if !string_is(&hash, c.timing_table_sha256.as_str()) {
        return Err("karaoke semantic timing declaration hash drifted");
    }
    Ok(out)
}

/// Refuse a ROM whose JP pointer table, line sender or timing table drifted
/// from the declaration.
pub fn validate_consumer(rom: &[u8], c: &ConsumerDeclaration) -> (result: Result<(), Error>)
    requires
        consumer_declaration_ok(*c),
    ensures
        result is Ok <==> consumer_present(rom@, *c),
{
    let pointers = semantic_pointer_table(c)?;
    let actual = source_range(rom, POINTER_TABLE_OFFSET, POINTER_TABLE_BYTES)?;
    if !bytes_equal(actual, pointers.as_slice()) {
        return Err("karaoke pointer table drifted");
    }
    let sender = source_range(rom, LINE_SENDER_OFFSET, LINE_SENDER_BYTES)?;
    let expected_sender = LINE_SENDER;
    if !slice_hash_is(sender, &c.line_sender_sha256) || !bytes_equal(sender, &expected_sender) {
        return Err("karaoke typed line sender drifted");
    }
    let timing = semantic_timing_table(c)?;
    let actual_timing = source_range(rom, TIMING_TABLE_OFFSET, TIMING_TABLE_BYTES)?;
    if !bytes_equal(actual_timing, timing.as_slice()) {
        return Err("karaoke timing table drifted");
    }
    Ok(())
}

/// Characters in strictly increasing code-point order.
pub open spec fn chars_sorted(u: Seq<char>) -> bool {
    forall|i: int, j: int| 0 <= i < j < u.len() ==> #[trigger] u[i] < #[trigger] u[j]
}

/// `u` lists each drawn lyric character once, in code-point order.
pub open spec fn unique_chars_are(lines: Seq<LineDeclaration>, u: Seq<char>) -> bool {
    &&& chars_sorted(u)
    &&& forall|c: char| u.contains(c) <==> lyric_char(lines, c)
}

fn insert_sorted(u: &mut Vec<char>, c: char)
    requires
        chars_sorted(old(u)@),
    ensures
        chars_sorted(final(u)@),
        forall|d: char| #[trigger] final(u)@.contains(d) <==> (old(u)@.contains(d) || d == c),
{
    let n = u.len();
    let mut p: usize = 0;
    while p < n
        invariant
            n == u@.len(),
            u@ == old(u)@,
            chars_sorted(u@),
            p <= n,
            forall|i: int| 0 <= i < p ==> #[trigger] u@[i] < c,
        ensures
            p <= n,
            p < n ==> u@[p as int] >= c,
            forall|i: int| 0 <= i < p ==> #[trigger] u@[i] < c,
        decreases n - p,
    {
        if u[p] >= c {
            break;
        }
        p = p + 1;
    }
    let ghost before = u@;
    if p < n && u[p] == c {
        assert(before[p as int] == c);
        assert(before.contains(c));
        return;
    }
    assert(p < n ==> c < before[p as int]);
    u.insert(p, c);
    proof {
        assert(u@ =~= before.insert(p as int, c));
        assert forall|i: int, j: int| 0 <= i < j < u@.len() implies #[trigger] u@[i] < #[trigger] u@[j] by {
            if i < p && j == p {
            } else if i < p && j > p {
                assert(u@[j] == before[j - 1]);
                assert(u@[i] == before[i]);
            } else if i == p && j > p {
                assert(u@[j] == before[j - 1]);
                if j - 1 > p {
                    assert(before[p as int] < before[j - 1]);
                }
            } else if i > p {
                assert(u@[i] == before[i - 1] && u@[j] == before[j - 1]);
            } else {
                assert(u@[i] == before[i] && u@[j] == before[j]);
            }
        }
        assert forall|d: char| #[trigger] u@.contains(d) <==> (before.contains(d) || d == c) by {
            if u@.contains(d) {
                let i = choose|i: int| 0 <= i < u@.len() && #[trigger] u@[i] == d;
                if i < p {
                    assert(before[i] == d);
                    assert(before.contains(d));
                } else if i > p {
                    assert(before[i - 1] == d);
                    assert(before.contains(d));
                }
            }
            if before.contains(d) {
                let i = choose|i: int| 0 <= i < before.len() && #[trigger] before[i] == d;
                if i < p {
                    assert(u@[i] == d);
                } else {
                    assert(u@[i + 1] == d);
                }
                assert(u@.contains(d));
            }
            if d == c {
                assert(u@[p as int] == c);
                assert(u@.contains(d));
            }
        }
    }
}

/// Character `c` occurs in the Korean text of one of the first `k` lines.
pub open spec fn in_first_lines(lines: Seq<LineDeclaration>, k: int, c: char) -> bool {
    exists|j: int| 0 <= j < k && #[trigger] lines[j].ko@.contains(c)
}

proof fn lemma_in_first_lines_step(lines: Seq<LineDeclaration>, k: int, c: char)
    requires
        0 <= k < lines.len(),
    ensures
        in_first_lines(lines, k + 1, c) <==> (in_first_lines(lines, k, c) || lines[k].ko@.contains(c)),
{
    if in_first_lines(lines, k + 1, c) {
        let j = choose|j: int| 0 <= j < k + 1 && #[trigger] lines[j].ko@.contains(c);
        if j < k {
            assert(in_first_lines(lines, k, c));
        }
    }
    if in_first_lines(lines, k, c) {
        let j = choose|j: int| 0 <= j < k && #[trigger] lines[j].ko@.contains(c);
        assert(0 <= j < k + 1);
    }
    if lines[k].ko@.contains(c) {
        assert(0 <= k < k + 1 && lines[k].ko@.contains(c));
    }
}

proof fn lemma_take_contains(s: Seq<char>, q: int, d: char)
    requires
        0 <= q < s.len(),
    ensures
        s.take(q + 1).contains(d) <==> (s.take(q).contains(d) || d == s[q]),
{
    if s.take(q + 1).contains(d) {
        let i = choose|i: int| 0 <= i < q + 1 && #[trigger] s.take(q + 1)[i] == d;
        if i < q {
            assert(s.take(q)[i] == d);
        }
    }
    if s.take(q).contains(d) {
        let i = choose|i: int| 0 <= i < q && #[trigger] s.take(q)[i] == d;
        assert(s.take(q + 1)[i] == d);
    }
    if d == s[q] {
        assert(s.take(q + 1)[q] == d);
    }
}

/// The drawn lyric characters, each once, in code-point order.
pub fn unique_lyric_chars(lines: &Vec<LineDeclaration>) -> (u: Vec<char>)
    ensures
        unique_chars_are(lines@, u@),
{
    let mut u: Vec<char> = Vec::new();
    let mut k: usize = 0;
    while k < lines.len()
        invariant
            k <= lines@.len(),
            chars_sorted(u@),
            forall|c: char| #[trigger] u@.contains(c) <==> (!spec_is_whitespace(c) && in_first_lines(lines@, k as int, c)),
        decreases lines@.len() - k,
    {
        let ko = lines[k].ko.as_str();
        let n = ko.unicode_len();
        let mut q: usize = 0;
        while q < n
            invariant
                n == ko@.len(),
                ko@ == lines@[k as int].ko@,
                k < lines@.len(),
                q <= n,
                chars_sorted(u@),
                forall|c: char|
                    #[trigger] u@.contains(c) <==> (!spec_is_whitespace(c) && (in_first_lines(lines@, k as int, c) || ko@.take(
                        q as int,
                    ).contains(c))),
            decreases n - q,
        {
            let c = ko.get_char(q);
            let ghost before = u@;
            if !is_whitespace(c) {
                insert_sorted(&mut u, c);
            }
            proof {
                assert forall|d: char|
                    #[trigger] u@.contains(d) <==> (!spec_is_whitespace(d) && (in_first_lines(lines@, k as int, d) || ko@.take(
                        q + 1,
                    ).contains(d))) by {
                    lemma_take_contains(ko@, q as int, d);
                    assert(before.contains(d) <==> (!spec_is_whitespace(d) && (in_first_lines(lines@, k as int, d)
                        || ko@.take(q as int).contains(d))));
                    if spec_is_whitespace(c) {
                        assert(u@ == before);
                    } else {
                        assert(u@.contains(d) <==> (before.contains(d) || d == c));
                    }
                }
            }
            q = q + 1;
        }
        proof {
            assert(ko@.take(n as int) =~= ko@);
            assert forall|c: char| #[trigger] u@.contains(c) <==> (!spec_is_whitespace(c) && in_first_lines(lines@, k + 1, c)) by {
                lemma_in_first_lines_step(lines@, k as int, c);
                assert(u@.contains(c) <==> (!spec_is_whitespace(c) && (in_first_lines(lines@, k as int, c) || ko@.take(
                    n as int,
                ).contains(c))));
            }
        }
        k = k + 1;
    }
    proof {
        assert forall|c: char| #[trigger] u@.contains(c) <==> lyric_char(lines@, c) by {
            assert(in_first_lines(lines@, lines@.len() as int, c) == (exists|j: int|
                0 <= j < lines@.len() && #[trigger] lines@[j].ko@.contains(c)));
        }
    }
    u
}

/// Position of the first rasterised glyph for `c` at or after `from`
/// (`len` when there is none).
pub open spec fn compact_position(glyphs: Seq<CompactGlyph>, c: char, from: int) -> int
    decreases glyphs.len() - from,
{
    if from < 0 || from >= glyphs.len() {
        glyphs.len() as int
    } else if glyphs[from].character == c {
        from
    } else {
        compact_position(glyphs, c, from + 1)
    }
}

proof fn lemma_compact_position(glyphs: Seq<CompactGlyph>, c: char, from: int)
    requires
        0 <= from <= glyphs.len(),
    ensures
        from <= compact_position(glyphs, c, from) <= glyphs.len(),
        compact_position(glyphs, c, from) < glyphs.len() ==> glyphs[compact_position(glyphs, c, from)].character == c,
    decreases glyphs.len() - from,
{
    if from < glyphs.len() && glyphs[from].character != c {
        lemma_compact_position(glyphs, c, from + 1);
    }
}

/// The rasterised glyph of `c`.
pub open spec fn glyph_of(glyphs: Seq<CompactGlyph>, c: char) -> CompactGlyph {
    glyphs[compact_position(glyphs, c, 0)]
}

/// The 16x16 cells of the unique characters, in order.
pub open spec fn glyph_cells(glyphs: Seq<CompactGlyph>, u: Seq<char>, threshold: u8) -> Seq<Seq<u8>> {
    Seq::new(u.len(), |k: int| glyph_cell(glyph_of(glyphs, u[k]), threshold))
}

/// Every unique character has a rasterised glyph that fits its cell.
pub open spec fn glyphs_ok(glyphs: Seq<CompactGlyph>, u: Seq<char>, threshold: u8) -> bool {
    forall|k: int|
        0 <= k < u.len() ==> compact_position(glyphs, #[trigger] u[k], 0) < glyphs.len() && glyph_fits(
            glyph_of(glyphs, u[k]),
            threshold,
        )
}

/// Quadrant slot `s` of the cells: quadrant `s % 4` of character `s / 4`.
pub open spec fn slot_quadrant(cells: Seq<Seq<u8>>, s: int) -> Seq<u8> {
    quadrant(cells[s / 4], s % 4)
}

/// The stored forms of the non-blank quadrants of the first `n` slots.
pub open spec fn quad_entries(cells: Seq<Seq<u8>>, n: int) -> Seq<Seq<u8>>
    decreases n,
{
    if n <= 0 {
        Seq::empty()
    } else if blank_quadrant(slot_quadrant(cells, n - 1)) {
        quad_entries(cells, n - 1)
    } else {
        quad_entries(cells, n - 1).push(canonical_pattern(slot_quadrant(cells, n - 1)))
    }
}

/// The patterns written into the lyric tiles, from tile 0x4FF on: each
/// stored quadrant once, in order of first use.
pub open spec fn allocated(cells: Seq<Seq<u8>>) -> Seq<Seq<u8>> {
    distinct_tiles(quad_entries(cells, 4 * cells.len() as int))
}

/// Position of pattern `x` in `a`.
pub open spec fn position_in(a: Seq<Seq<u8>>, x: Seq<u8>) -> int {
    choose|t: int| 0 <= t < a.len() && a[t] == x
}

/// The map word of slot `s`: the blank tile for a blank quadrant, else the
/// lyric tile holding its stored form, with the flips that restore it.
pub open spec fn slot_word(cells: Seq<Seq<u8>>, s: int) -> u16 {
    let p = slot_quadrant(cells, s);
    if blank_quadrant(p) {
        1
    } else {
        (0x04FF + position_in(allocated(cells), canonical_pattern(p)) + best_of(p, 4) * 0x800) as u16
    }
}

/// `a` is a prefix of `b`.
pub open spec fn is_prefix(a: Seq<Seq<u8>>, b: Seq<Seq<u8>>) -> bool {
    a.len() <= b.len() && forall|i: int| 0 <= i < a.len() ==> #[trigger] a[i] == b[i]
}

proof fn lemma_quad_prefix(cells: Seq<Seq<u8>>, n: int, m: int)
    requires
        0 <= n <= m,
    ensures
        is_prefix(distinct_tiles(quad_entries(cells, n)), distinct_tiles(quad_entries(cells, m))),
    decreases m - n,
{
    if n < m {
        lemma_quad_prefix(cells, n, m - 1);
        let p = slot_quadrant(cells, m - 1);
        if !blank_quadrant(p) {
            lemma_distinct_step(quad_entries(cells, m - 1), canonical_pattern(p));
        }
    }
}

/// A pattern present in a duplicate-free run sits at its one position.
proof fn lemma_position_in(a: Seq<Seq<u8>>, t: int)
    requires
        a.no_duplicates(),
        0 <= t < a.len(),
    ensures
        position_in(a, a[t]) == t,
{
    let x = a[t];
    let u = choose|u: int| 0 <= u < a.len() && a[u] == x;
    assert(0 <= u < a.len() && a[u] == x);
}

proof fn lemma_flag_word(tile: u16, k: u16)
    requires
        tile < 0x0800,
        k < 4,
    ensures
        tile | ((k * 0x0800) as u16) == (tile + k * 0x0800) as u16,
        ((tile + k * 0x0800) as u16) & 0x07FF == tile,
        (((tile + k * 0x0800) as u16) & 0x0800 != 0) == (k == 1 || k == 3),
        (((tile + k * 0x0800) as u16) & 0x1000 != 0) == (k >= 2),
        ((tile + k * 0x0800) as u16) & 0xE000 == 0,
{
    assert(tile | ((k * 0x0800) as u16) == (tile + k * 0x0800) as u16 && ((tile + k * 0x0800) as u16) & 0x07FF == tile
        && (((tile + k * 0x0800) as u16) & 0x0800 != 0) == (k == 1 || k == 3) && (((tile + k * 0x0800) as u16) & 0x1000
        != 0) == (k >= 2) && ((tile + k * 0x0800) as u16) & 0xE000 == 0) by (bit_vector)
        requires
            tile < 0x0800,
            k < 4,
    ;
}

/// `flat` is the concatenation of the 32-byte patterns of `a`.
pub open spec fn flattens(flat: Seq<u8>, a: Seq<Seq<u8>>) -> bool {
    &&& flat.len() == 32 * a.len()
    &&& forall|t: int| 0 <= t < a.len() ==> #[trigger] a[t].len() == 32
    &&& forall|k: int| 0 <= k < flat.len() ==> #[trigger] flat[k] == a[k / 32][k % 32]
}

fn find_tile(flat: &Vec<u8>, pattern: &Vec<u8>) -> (found: Option<usize>)
    requires
        flat@.len() % 32 == 0,
    ensures
        found matches Some(j) ==> j < flat@.len() / 32 && flat@.subrange(j * 32, j * 32 + 32) == pattern@,
        found is None ==> forall|j: int|
            0 <= j < flat@.len() / 32 ==> #[trigger] flat@.subrange(j * 32, j * 32 + 32) != pattern@,
{
    let n = flat.len();
    let count = n / MD_TILE_BYTES;
    let mut j: usize = 0;
    while j < count
        invariant
            n == flat@.len(),
            count == n / 32,
            n % 32 == 0,
            j <= count,
            forall|k: int| 0 <= k < j ==> #[trigger] flat@.subrange(k * 32, k * 32 + 32) != pattern@,
        decreases count - j,
    {
        assert(j * 32 + 32 <= n) by (nonlinear_arith)
            requires
                j < count,
                count == n / 32,
                n % 32 == 0,
        ;
        let start = j * MD_TILE_BYTES;
        if bytes_equal(&flat.as_slice()[start..start + MD_TILE_BYTES], pattern.as_slice()) {
            return Some(j);
        }
        j = j + 1;
    }
    None
}

fn is_blank_pattern(p: &[u8]) -> (blank: bool)
    requires
        p@.len() == 32,
    ensures
        blank == blank_quadrant(p@),
{
    let mut b: usize = 0;
    while b < 32
        invariant
            p@.len() == 32,
            b <= 32,
            forall|q: int| 0 <= q < b ==> #[trigger] p@[q] == 0x11,
        decreases 32 - b,
    {
        if p[b] != 0x11 {
            return false;
        }
        b = b + 1;
    }
    true
}

proof fn lemma_slot(k: int, q: int)
    requires
        0 <= k,
        0 <= q < 4,
    ensures
        (4 * k + q) / 4 == k,
        (4 * k + q) % 4 == q,
{
}

/// The stored-pattern run after slot pattern `quad` is seen.
pub open spec fn entries_after(entries: Seq<Seq<u8>>, quad: Seq<u8>) -> Seq<Seq<u8>> {
    if blank_quadrant(quad) {
        entries
    } else {
        entries.push(canonical_pattern(quad))
    }
}

/// Store one quadrant: a blank one maps to the blank tile; another is
/// looked up by its least flip among the stored patterns and appended when
/// new. Yields its map word.
fn store_quadrant(quad: &[u8], flat: &mut Vec<u8>, Ghost(entries): Ghost<Seq<Seq<u8>>>) -> (word: Result<u16, Error>)
    requires
        quad@.len() == 32,
        flattens(old(flat)@, distinct_tiles(entries)),
        distinct_tiles(entries).len() <= 174,
    ensures
        word is Ok <==> distinct_tiles(entries_after(entries, quad@)).len() <= 174,
        word matches Ok(w) ==> {
            let next = distinct_tiles(entries_after(entries, quad@));
            &&& flattens(final(flat)@, next)
            &&& blank_quadrant(quad@) ==> w == 1
            &&& !blank_quadrant(quad@) ==> {
                &&& 0x04FF <= (w & 0x07FF) < 0x04FF + next.len()
                &&& next[(w & 0x07FF) - 0x04FF] == canonical_pattern(quad@)
                &&& w == ((w & 0x07FF) + best_of(quad@, 4) * 0x0800) as u16
            }
        },
{
    if is_blank_pattern(quad) {
        return Ok(1);
    }
    let ghost distinct = distinct_tiles(entries);
    let (canonical, flags) = canonicalize_tile_pattern(quad);
    proof {
        lemma_distinct_step(entries, canonical@);
        assert(entries_after(entries, quad@) == entries.push(canonical@));
    }
    let count = flat.len() / MD_TILE_BYTES;
    let index = match find_tile(flat, &canonical) {
        Some(t) => {
            proof {
                assert(flat@.subrange(t * 32, t * 32 + 32) =~= distinct[t as int]);
                assert(distinct.contains(canonical@));
            }
            t
        },
        None => {
            proof {
                assert forall|t: int| 0 <= t < distinct.len() implies distinct[t] != canonical@ by {
                    assert(flat@.subrange(t * 32, t * 32 + 32) =~= distinct[t]);
                }
            }
            if count >= 174 {
                return Err("karaoke quadrant atlas needs more than the JP-owned lyric tiles");
            }
            let ghost before = flat@;
            let mut b: usize = 0;
            while b < MD_TILE_BYTES
                invariant
                    canonical@.len() == 32,
                    b <= 32,
                    flat@ == before + canonical@.take(b as int),
                decreases 32 - b,
            {
                flat.push(canonical[b]);
                assert(canonical@.take(b + 1) =~= canonical@.take(b as int).push(canonical@[b as int]));
                b = b + 1;
            }
            proof {
                assert(canonical@.take(32) =~= canonical@);
                let next = distinct.push(canonical@);
                assert forall|j: int| 0 <= j < flat@.len() implies #[trigger] flat@[j] == next[j / 32][j % 32] by {
                    if j < before.len() {
                        assert(flat@[j] == before[j]);
                    } else {
                        assert(j / 32 == count);
                    }
                }
            }
            count
        },
    };
    proof {
        lemma_flag_word((0x04FF + index) as u16, flags / 0x0800);
        assert(flags == (flags / 0x0800) * 0x0800);
    }
    Ok(((0x04FF + index) as u16) | flags)
}

/// Allocate the quadrant tiles of the unique characters' glyph cells: each
/// non-blank quadrant is stored in its least flip, once, from tile 0x4FF
/// on; at most 174 lyric tiles exist. Yields the four map words of every
/// character and the stored patterns in allocation order.
pub fn allocate_glyph_tiles(u: &Vec<char>, glyphs: &Vec<CompactGlyph>, threshold: u8) -> (atlas: Result<
    (Vec<u16>, Vec<u8>),
    Error,
>)
    ensures
        atlas is Ok <==> (glyphs_ok(glyphs@, u@, threshold) && allocated(glyph_cells(glyphs@, u@, threshold)).len()
            <= 174),
        atlas matches Ok((words, flat)) ==> {
            let cells = glyph_cells(glyphs@, u@, threshold);
            &&& words@.len() == 4 * u@.len()
            &&& forall|s: int| 0 <= s < words@.len() ==> #[trigger] words@[s] == slot_word(cells, s)
            &&& flattens(flat@, allocated(cells))
        },
{
    let ghost cells = glyph_cells(glyphs@, u@, threshold);
    let ghost full = allocated(cells);
    proof {
        lemma_distinct_no_duplicates(quad_entries(cells, 4 * u@.len() as int));
    }
    let mut words: Vec<u16> = Vec::new();
    let mut flat: Vec<u8> = Vec::new();
    let mut k: usize = 0;
    while k < u.len()
        invariant
            cells == glyph_cells(glyphs@, u@, threshold),
            full == allocated(cells),
            full.no_duplicates(),
            k <= u@.len(),
            distinct_tiles(quad_entries(cells, 4 * k as int)).len() <= 174,
            flattens(flat@, distinct_tiles(quad_entries(cells, 4 * k as int))),
            words@.len() == 4 * k,
            forall|s: int| 0 <= s < 4 * k ==> #[trigger] words@[s] == slot_word(cells, s),
            forall|j: int|
                0 <= j < k ==> compact_position(glyphs@, #[trigger] u@[j], 0) < glyphs@.len() && glyph_fits(
                    glyph_of(glyphs@, u@[j]),
                    threshold,
                ),
        decreases u@.len() - k,
    {
        proof {
            lemma_compact_position(glyphs@, u@[k as int], 0);
        }
        let c = u[k];
        let mut position: usize = 0;
        while position < glyphs.len() && glyphs[position].character != c
            invariant
                position <= glyphs@.len(),
                compact_position(glyphs@, c, 0) == compact_position(glyphs@, c, position as int),
            decreases glyphs@.len() - position,
        {
            position = position + 1;
        }
        if position >= glyphs.len() {
            return Err("karaoke glyph was not rasterised");
        }
        let cell = render_glyph(&glyphs[position], threshold)?;
        proof {
            assert(cell@ == cells[k as int]);
            assert forall|i: int| 0 <= i < cell@.len() implies #[trigger] cell@[i] < 16 by {}
        }
        let encoded = encode_md_tiles_column_major(cell.as_slice(), 16, 16)?;
        let mut q: usize = 0;
        while q < 4
            invariant
                cells == glyph_cells(glyphs@, u@, threshold),
                full == allocated(cells),
                full.no_duplicates(),
                k < u@.len(),
                cell@ == cells[k as int],
                encoded@.len() == 128,
                forall|j: int| 0 <= j < 128 ==> #[trigger] encoded@[j] == column_major_byte(cell@, 16, 16, j),
                q <= 4,
                distinct_tiles(quad_entries(cells, 4 * k + q)).len() <= 174,
                flattens(flat@, distinct_tiles(quad_entries(cells, 4 * k + q))),
                words@.len() == 4 * k + q,
                forall|s: int| 0 <= s < 4 * k + q ==> #[trigger] words@[s] == slot_word(cells, s),
            decreases 4 - q,
        {
            let start = q * MD_TILE_BYTES;
            let quad = &encoded.as_slice()[start..start + MD_TILE_BYTES];
            let ghost slot = 4 * k + q;
            proof {
                lemma_slot(k as int, q as int);
                assert(quad@ =~= quadrant(cell@, q as int));
                assert(quad@ == slot_quadrant(cells, slot));
                assert(quad_entries(cells, slot + 1) == entries_after(quad_entries(cells, slot), quad@));
                lemma_quad_prefix(cells, slot + 1, 4 * u@.len() as int);
                lemma_quad_prefix(cells, slot + 1, 4 * u@.len() as int);
            }
            let word = match store_quadrant(quad, &mut flat, Ghost(quad_entries(cells, slot))) {
                Ok(w) => w,
                Err(e) => {
                    return Err(e);
                },
            };
            proof {
                if !blank_quadrant(quad@) {
                    let next = distinct_tiles(quad_entries(cells, slot + 1));
                    let t = (word & 0x07FF) - 0x04FF;
                    assert(full[t] == next[t]);
                    lemma_position_in(full, t);
                }
            }
            words.push(word);
            q = q + 1;
        }
        proof {
            assert(glyph_fits(glyph_of(glyphs@, u@[k as int]), threshold));
        }
        k = k + 1;
    }
    Ok((words, flat))
}

/// Index of `c` among the unique characters.
pub open spec fn char_index(u: Seq<char>, c: char) -> int {
    choose|k: int| 0 <= k < u.len() && u[k] == c
}

/// First map column of a line's Korean text: the JP text's cells, centred
/// in the 38 columns.
pub open spec fn line_origin(l: LineDeclaration) -> int {
    19 - l.jp@.len()
}

/// Korean character cell `d / 2` of a line covers map column `d` past the
/// origin when it is drawn.
pub open spec fn drawn_cell(l: LineDeclaration, d: int, cells_done: int) -> bool {
    0 <= d && d / 2 < cells_done && d / 2 < l.ko@.len() && !spec_is_whitespace(l.ko@[d / 2])
}

/// Map word (`tx`, `ty`) of a Korean lyric line: the quadrant word of the
/// character drawn there, else the blank tile.
pub open spec fn target_line_word(l: LineDeclaration, u: Seq<char>, cells: Seq<Seq<u8>>, tx: int, ty: int) -> u16 {
    let d = tx - line_origin(l);
    if drawn_cell(l, d, l.ko@.len() as int) {
        slot_word(cells, 4 * char_index(u, l.ko@[d / 2]) + (d % 2) * 2 + ty)
    } else {
        1
    }
}

/// Byte `b` of the Korean map: the lyric region holds the nine Korean
/// lines, every other byte stays JP.
pub open spec fn target_map_byte(
    source: Seq<u8>,
    lines: Seq<LineDeclaration>,
    u: Seq<char>,
    cells: Seq<Seq<u8>>,
    b: int,
) -> u8 {
    if 0x08C0 <= b < 0x0E18 {
        let r = b - 0x08C0;
        let w = (r % 152) / 2;
        word_bytes(target_line_word(lines[r / 152], u, cells, w % 38, w / 38))[r % 2]
    } else {
        source[b]
    }
}

/// Byte `b` of the Korean patterns: the lyric tiles hold the stored
/// quadrants and then the blank field, every other byte stays JP.
pub open spec fn target_pattern_byte(source: Seq<u8>, a: Seq<Seq<u8>>, b: int) -> u8 {
    if 0x04FF * 32 <= b < 0x05AD * 32 {
        let r = b - 0x04FF * 32;
        if r < 32 * a.len() {
            a[r / 32][r % 32]
        } else {
            0x11
        }
    } else {
        source[b]
    }
}

/// Every line's JP text fits the 19 cells of a lyric line.
pub open spec fn jp_fits(lines: Seq<LineDeclaration>) -> bool {
    forall|k: int| 0 <= k < lines.len() ==> (#[trigger] lines[k]).jp@.len() <= 19
}

fn char_position(u: &Vec<char>, c: char) -> (k: usize)
    requires
        chars_sorted(u@),
        u@.contains(c),
    ensures
        k < u@.len(),
        u@[k as int] == c,
        k == char_index(u@, c),
{
    let mut k: usize = 0;
    while k < u.len()
        invariant
            k <= u@.len(),
            chars_sorted(u@),
            u@.contains(c),
            forall|j: int| 0 <= j < k ==> u@[j] != c,
        decreases u@.len() - k,
    {
        if u[k] == c {
            proof {
                let j = char_index(u@, c);
                if j != k {
                    if j < k {
                        assert(u@[j] < u@[k as int]);
                    } else {
                        assert(u@[k as int] < u@[j]);
                    }
                }
            }
            return k;
        }
        k = k + 1;
    }
    proof {
        let j = choose|j: int| 0 <= j < u@.len() && u@[j] == c;
        assert(u@[j] != c);
    }
    0
}

/// The 76 map words of Korean lyric line `l`.
fn line_words(l: &LineDeclaration, k: usize, u: &Vec<char>, words: &Vec<u16>, Ghost(cells): Ghost<Seq<Seq<u8>>>, Ghost(lines): Ghost<Seq<LineDeclaration>>) -> (out: Vec<u16>)
    requires
        0 <= k < lines.len(),
        lines[k as int] == *l,
        line_ok(*l, k as int),
        l.jp@.len() <= 19,
        unique_chars_are(lines, u@),
        words@.len() == 4 * u@.len(),
        forall|s: int| 0 <= s < words@.len() ==> #[trigger] words@[s] == slot_word(cells, s),
    ensures
        out@.len() == 76,
        forall|tx: int, ty: int|
            0 <= tx < 38 && 0 <= ty < 2 ==> #[trigger] out@[ty * 38 + tx] == target_line_word(*l, u@, cells, tx, ty),
{
    let origin = 19 - l.jp.as_str().unicode_len();
    let ko = l.ko.as_str();
    let n = ko.unicode_len();
    let mut out: Vec<u16> = vec![1u16; 76];
    let mut j: usize = 0;
    while j < n
        invariant
            0 <= k < lines.len(),
            lines[k as int] == *l,
            n == ko@.len(),
            ko@ == l.ko@,
            n <= l.jp@.len(),
            l.jp@.len() <= 19,
            origin == line_origin(*l),
            unique_chars_are(lines, u@),
            words@.len() == 4 * u@.len(),
            forall|s: int| 0 <= s < words@.len() ==> #[trigger] words@[s] == slot_word(cells, s),
            j <= n,
            out@.len() == 76,
            forall|tx: int, ty: int|
                0 <= tx < 38 && 0 <= ty < 2 ==> #[trigger] out@[ty * 38 + tx] == (if drawn_cell(
                    *l,
                    tx - origin,
                    j as int,
                ) {
                    slot_word(cells, 4 * char_index(u@, l.ko@[(tx - origin) / 2]) + ((tx - origin) % 2) * 2 + ty)
                } else {
                    1
                }),
        decreases n - j,
    {
        let c = ko.get_char(j);
        if !is_whitespace(c) {
            proof {
                assert(lines[k as int].ko@.contains(c)) by {
                    assert(lines[k as int].ko@[j as int] == c);
                }
                assert(lyric_char(lines, c));
            }
            let position = char_position(u, c);
            let tx = origin + 2 * j;
            let word_count = words.len();
            proof {
                assert(tx + 1 < 38);
                assert(4 * position + 3 < word_count);
            }
            out.set(tx, words[4 * position]);
            out.set(tx + 1, words[4 * position + 2]);
            out.set(38 + tx, words[4 * position + 1]);
            out.set(38 + tx + 1, words[4 * position + 3]);
        }
        proof {
            assert forall|px: int, py: int| 0 <= px < 38 && 0 <= py < 2 implies #[trigger] out@[py * 38 + px] == (if drawn_cell(
                *l,
                px - origin,
                j + 1,
            ) {
                slot_word(cells, 4 * char_index(u@, l.ko@[(px - origin) / 2]) + ((px - origin) % 2) * 2 + py)
            } else {
                1
            }) by {
                let d = px - origin;
                if 0 <= d && d / 2 == j {
                    assert(l.ko@[d / 2] == c);
                }
            }
        }
        j = j + 1;
    }
    out
}

/// The Korean map: the JP map with the nine lyric lines rewritten.
fn build_target_map(
    source: &Vec<u8>,
    lines: &Vec<LineDeclaration>,
    u: &Vec<char>,
    words: &Vec<u16>,
    Ghost(cells): Ghost<Seq<Seq<u8>>>,
) -> (map: Vec<u8>)
    requires
        source@.len() == 3_648,
        lines@.len() == 9,
        forall|k: int| 0 <= k < 9 ==> line_ok(#[trigger] lines@[k], k),
        jp_fits(lines@),
        unique_chars_are(lines@, u@),
        words@.len() == 4 * u@.len(),
        forall|s: int| 0 <= s < words@.len() ==> #[trigger] words@[s] == slot_word(cells, s),
    ensures
        map@.len() == 3_648,
        forall|b: int| 0 <= b < 3_648 ==> #[trigger] map@[b] == target_map_byte(source@, lines@, u@, cells, b),
{
    let mut map = source.clone();
    let mut k: usize = 0;
    while k < LINE_COUNT
        invariant
            source@.len() == 3_648,
            lines@.len() == 9,
            forall|j: int| 0 <= j < 9 ==> line_ok(#[trigger] lines@[j], j),
            jp_fits(lines@),
            unique_chars_are(lines@, u@),
            words@.len() == 4 * u@.len(),
            forall|s: int| 0 <= s < words@.len() ==> #[trigger] words@[s] == slot_word(cells, s),
            k <= 9,
            map@.len() == 3_648,
            forall|b: int|
                0 <= b < 3_648 ==> #[trigger] map@[b] == (if 0x08C0 <= b < 0x08C0 + 152 * k {
                    target_map_byte(source@, lines@, u@, cells, b)
                } else {
                    source@[b]
                }),
        decreases 9 - k,
    {
        assert(line_ok(lines@[k as int], k as int));
        assert(lines@[k as int].jp@.len() <= 19);
        let lw = line_words(&lines[k], k, u, words, Ghost(cells), Ghost(lines@));
        let start = MAP_LYRIC_START + k * LINE_BYTES;
        let mut w: usize = 0;
        while w < 76
            invariant
                source@.len() == 3_648,
                lines@.len() == 9,
                k < 9,
                start == 0x08C0 + 152 * k,
                lw@.len() == 76,
                forall|tx: int, ty: int|
                    0 <= tx < 38 && 0 <= ty < 2 ==> #[trigger] lw@[ty * 38 + tx] == target_line_word(
                        lines@[k as int],
                        u@,
                        cells,
                        tx,
                        ty,
                    ),
                w <= 76,
                map@.len() == 3_648,
                forall|b: int|
                    0 <= b < 3_648 ==> #[trigger] map@[b] == (if 0x08C0 <= b < start + 2 * w {
                        target_map_byte(source@, lines@, u@, cells, b)
                    } else {
                        source@[b]
                    }),
            decreases 76 - w,
        {
            let word = lw[w];
            proof {
                let tx = (w % 38) as int;
                let ty = (w / 38) as int;
                assert(ty * 38 + tx == w);
                assert(word == target_line_word(lines@[k as int], u@, cells, tx, ty));
            }
            let ghost before = map@;
            map.set(start + 2 * w, (word / 256) as u8);
            map.set(start + 2 * w + 1, (word % 256) as u8);
            proof {
                assert forall|b: int| 0 <= b < 3_648 implies #[trigger] map@[b] == (if 0x08C0 <= b < start + 2 * (w + 1) {
                    target_map_byte(source@, lines@, u@, cells, b)
                } else {
                    source@[b]
                }) by {
                    if b == start + 2 * w || b == start + 2 * w + 1 {
                        let r = b - 0x08C0;
                        assert(r / 152 == k);
                        assert((r % 152) / 2 == w);
                    } else {
                        assert(map@[b] == before[b]);
                    }
                }
            }
            w = w + 1;
        }
        k = k + 1;
    }
    map
}

/// The Korean patterns: the JP patterns with the lyric tiles holding the
/// stored quadrants, then the blank field.
fn build_target_patterns(source: &Vec<u8>, flat: &Vec<u8>, Ghost(a): Ghost<Seq<Seq<u8>>>) -> (patterns: Vec<u8>)
    requires
        source@.len() == 47_072,
        flattens(flat@, a),
        a.len() <= 174,
    ensures
        patterns@.len() == 47_072,
        forall|b: int| 0 <= b < 47_072 ==> #[trigger] patterns@[b] == target_pattern_byte(source@, a, b),
{
    let mut patterns = source.clone();
    let start = MUTABLE_TILE_START * MD_TILE_BYTES;
    let mut r: usize = 0;
    while r < 174 * 32
        invariant
            source@.len() == 47_072,
            flattens(flat@, a),
            a.len() <= 174,
            start == 0x04FF * 32,
            r <= 174 * 32,
            patterns@.len() == 47_072,
            forall|b: int|
                0 <= b < 47_072 ==> #[trigger] patterns@[b] == (if start <= b < start + r {
                    target_pattern_byte(source@, a, b)
                } else {
                    source@[b]
                }),
        decreases 174 * 32 - r,
    {
        let byte = if r < flat.len() {
            flat[r]
        } else {
            0x11
        };
        patterns.set(start + r, byte);
        r = r + 1;
    }
    patterns
}

/// Pixel `i` of a Korean lyric line as laid out: the pixel of the glyph
/// cell of the character drawn over it, the field (role 1) elsewhere.
pub open spec fn lyric_pixel(l: LineDeclaration, u: Seq<char>, cells: Seq<Seq<u8>>, i: int) -> u8 {
    let x = i % 304;
    let y = i / 304;
    let d = x / 8 - line_origin(l);
    if drawn_cell(l, d, l.ko@.len() as int) {
        cells[char_index(u, l.ko@[d / 2])][y * 16 + (d % 2) * 8 + x % 8]
    } else {
        1
    }
}

/// The Korean patterns and map compiled from the JP ones.
pub open spec fn target_patterns(source: Seq<u8>, cells: Seq<Seq<u8>>) -> Seq<u8> {
    Seq::new(47_072, |b: int| target_pattern_byte(source, allocated(cells), b))
}

pub open spec fn target_map(source: Seq<u8>, lines: Seq<LineDeclaration>, u: Seq<char>, cells: Seq<Seq<u8>>) -> Seq<u8> {
    Seq::new(3_648, |b: int| target_map_byte(source, lines, u, cells, b))
}

proof fn lemma_distinct_contains(tiles: Seq<Seq<u8>>, i: int)
    requires
        0 <= i < tiles.len(),
    ensures
        distinct_tiles(tiles).contains(tiles[i]),
    decreases tiles.len(),
{
    if i < tiles.len() - 1 {
        lemma_distinct_contains(tiles.drop_last(), i);
        let earlier = distinct_tiles(tiles.drop_last());
        let t = choose|t: int| 0 <= t < earlier.len() && earlier[t] == tiles[i];
        if !earlier.contains(tiles.last()) {
            assert(earlier.push(tiles.last())[t] == tiles[i]);
        }
    } else {
        let earlier = distinct_tiles(tiles.drop_last());
        if !earlier.contains(tiles.last()) {
            assert(earlier.push(tiles.last())[earlier.len() as int] == tiles.last());
        }
    }
}

proof fn lemma_quad_entry(cells: Seq<Seq<u8>>, s: int, n: int)
    requires
        0 <= s < n,
        !blank_quadrant(slot_quadrant(cells, s)),
    ensures
        quad_entries(cells, n).contains(canonical_pattern(slot_quadrant(cells, s))),
    decreases n,
{
    let x = canonical_pattern(slot_quadrant(cells, s));
    if s < n - 1 {
        lemma_quad_entry(cells, s, n - 1);
        let e = quad_entries(cells, n - 1);
        let t = choose|t: int| 0 <= t < e.len() && e[t] == x;
        if !blank_quadrant(slot_quadrant(cells, n - 1)) {
            assert(e.push(canonical_pattern(slot_quadrant(cells, n - 1)))[t] == x);
        }
    } else {
        let e = quad_entries(cells, n - 1);
        assert(e.push(x)[e.len() as int] == x);
    }
}

/// The word of a non-blank slot names a lyric tile that holds the slot's
/// stored form.
proof fn lemma_slot_word(cells: Seq<Seq<u8>>, s: int)
    requires
        0 <= s < 4 * cells.len(),
        allocated(cells).len() <= 174,
        !blank_quadrant(slot_quadrant(cells, s)),
    ensures
        ({
            let p = slot_quadrant(cells, s);
            let w = slot_word(cells, s);
            let t = position_in(allocated(cells), canonical_pattern(p));
            &&& 0 <= t < allocated(cells).len()
            &&& allocated(cells)[t] == canonical_pattern(p)
            &&& w & 0x07FF == 0x04FF + t
            &&& (w & 0x0800 != 0) == (best_of(p, 4) == 1 || best_of(p, 4) == 3)
            &&& (w & 0x1000 != 0) == (best_of(p, 4) >= 2)
            &&& w & 0xE000 == 0
        }),
{
    let p = slot_quadrant(cells, s);
    lemma_quad_entry(cells, s, 4 * cells.len() as int);
    let e = quad_entries(cells, 4 * cells.len() as int);
    let i = choose|i: int| 0 <= i < e.len() && e[i] == canonical_pattern(p);
    lemma_distinct_contains(e, i);
    let t = position_in(allocated(cells), canonical_pattern(p));
    lemma_best_of_range(p, 4);
    lemma_flag_word((0x04FF + t) as u16, best_of(p, 4) as u16);
}

proof fn lemma_word_of_bytes(w: u16)
    ensures
        be16(word_bytes(w), 0) == w,
{
}

proof fn lemma_blank_word()
    ensures
        1u16 & 0x07FF == 1,
        1u16 & 0x0800 == 0,
        1u16 & 0x1000 == 0,
{
    assert(1u16 & 0x07FF == 1 && 1u16 & 0x0800 == 0 && 1u16 & 0x1000 == 0) by (bit_vector);
}

proof fn lemma_line_word_is(
    source_map: Seq<u8>,
    lines: Seq<LineDeclaration>,
    u: Seq<char>,
    cells: Seq<Seq<u8>>,
    line: int,
    tx: int,
    ty: int,
)
    requires
        source_map.len() == 3_648,
        lines.len() == 9,
        0 <= line < 9,
        0 <= tx < 38,
        0 <= ty < 2,
    ensures
        line_word(target_map(source_map, lines, u, cells), line, tx, ty) == target_line_word(lines[line], u, cells, tx, ty),
{
    let tm = target_map(source_map, lines, u, cells);
    let b = 0x08C0 + line * 152 + (ty * 38 + tx) * 2;
    let r = b - 0x08C0;
    assert(r / 152 == line && (r % 152) / 2 == ty * 38 + tx && r % 2 == 0);
    assert((r + 1) / 152 == line && ((r + 1) % 152) / 2 == ty * 38 + tx && (r + 1) % 2 == 1);
    assert((ty * 38 + tx) % 38 == tx && (ty * 38 + tx) / 38 == ty);
    let w = target_line_word(lines[line], u, cells, tx, ty);
    assert(tm[b] == word_bytes(w)[0] && tm[b + 1] == word_bytes(w)[1]);
}

/// Pixel (`lx`, `ly`) of map cell (`tx`, `ty`) of a compiled Korean line,
/// read through its word's tile and flips.
proof fn lemma_word_pixel(
    source_patterns: Seq<u8>,
    lines: Seq<LineDeclaration>,
    u: Seq<char>,
    cells: Seq<Seq<u8>>,
    line: int,
    tx: int,
    ty: int,
    lx: int,
    ly: int,
)
    requires
        source_patterns.len() == 47_072,
        forall|b: int| 32 <= b < 64 ==> #[trigger] source_patterns[b] == 0x11,
        lines.len() == 9,
        0 <= line < 9,
        line_ok(lines[line], line),
        lines[line].jp@.len() <= 19,
        unique_chars_are(lines, u),
        cells.len() == u.len(),
        forall|k: int| 0 <= k < cells.len() ==> (#[trigger] cells[k]).len() == 256 && all_nibbles(cells[k]),
        allocated(cells).len() <= 174,
        0 <= tx < 38,
        0 <= ty < 2,
        0 <= lx < 8,
        0 <= ly < 8,
    ensures
        ({
            let l = lines[line];
            let w = target_line_word(l, u, cells, tx, ty);
            let d = tx - line_origin(l);
            &&& (w & 0x07FF) < 1_471
            &&& tile_pixel(
                word_tile(target_patterns(source_patterns, cells), w),
                flip_coord(lx, w & 0x0800 != 0),
                flip_coord(ly, w & 0x1000 != 0),
            ) == (if drawn_cell(l, d, l.ko@.len() as int) {
                cells[char_index(u, l.ko@[d / 2])][(ty * 8 + ly) * 16 + (d % 2) * 8 + lx]
            } else {
                1
            })
        }),
{
    let tp = target_patterns(source_patterns, cells);
    let a = allocated(cells);
    let l = lines[line];
    let w = target_line_word(l, u, cells, tx, ty);
    let d = tx - line_origin(l);
    if drawn_cell(l, d, l.ko@.len() as int) {
        let c = l.ko@[d / 2];
        assert(l.ko@.contains(c));
        assert(lyric_char(lines, c));
        let k = char_index(u, c);
        assert(0 <= k < u.len() && u[k] == c);
        let q = (d % 2) * 2 + ty;
        let sl = 4 * k + q;
        lemma_slot(k, q);
        let p = slot_quadrant(cells, sl);
        assert(p == quadrant(cells[k], q));
        assert(cells[k].len() == 256 && all_nibbles(cells[k]));
        lemma_quadrant_pixel(cells[k], q, lx, ly);
        assert((ly + 8 * (q % 2)) * 16 + lx + 8 * (q / 2) == (ty * 8 + ly) * 16 + (d % 2) * 8 + lx);
        if blank_quadrant(p) {
            assert(w == 1);
            lemma_blank_word();
            assert(word_tile(tp, w) =~= source_patterns.subrange(32, 64));
            assert(p[ly * 4 + lx / 2] == 0x11);
        } else {
            lemma_slot_word(cells, sl);
            let t = position_in(a, canonical_pattern(p));
            let kf = best_of(p, 4);
            lemma_best_of_range(p, 4);
            assert(word_tile(tp, w) =~= a[t]) by {
                assert forall|j: int| 0 <= j < 32 implies #[trigger] word_tile(tp, w)[j] == a[t][j] by {
                    let b = (0x04FF + t) * 32 + j;
                    assert((b - 0x04FF * 32) / 32 == t && (b - 0x04FF * 32) % 32 == j);
                }
            }
            let h = kf == 1 || kf == 3;
            let v = kf >= 2;
            assert(a[t] == flipped_tile(p, h, v));
            lemma_flipped_pixel(p, h, v, flip_coord(lx, h), flip_coord(ly, v));
        }
    } else {
        assert(w == 1);
        lemma_blank_word();
        assert(word_tile(tp, w) =~= source_patterns.subrange(32, 64));
    }
}

/// Drawing a compiled Korean lyric line gives the glyph layout: every pixel
/// under a drawn character is that character's glyph-cell pixel, every
/// other pixel is the field.
pub proof fn lemma_lyrics_render(
    source_patterns: Seq<u8>,
    source_map: Seq<u8>,
    lines: Seq<LineDeclaration>,
    u: Seq<char>,
    cells: Seq<Seq<u8>>,
    line: int,
    i: int,
)
    requires
        source_patterns.len() == 47_072,
        source_map.len() == 3_648,
        forall|b: int| 32 <= b < 64 ==> #[trigger] source_patterns[b] == 0x11,
        lines.len() == 9,
        forall|k: int| 0 <= k < 9 ==> line_ok(#[trigger] lines[k], k),
        jp_fits(lines),
        unique_chars_are(lines, u),
        cells.len() == u.len(),
        forall|k: int| 0 <= k < cells.len() ==> (#[trigger] cells[k]).len() == 256 && all_nibbles(cells[k]),
        allocated(cells).len() <= 174,
        0 <= line < 9,
        0 <= i < 304 * 16,
    ensures
        surface_ok(target_patterns(source_patterns, cells), target_map(source_map, lines, u, cells), line),
        surface_pixel(target_patterns(source_patterns, cells), target_map(source_map, lines, u, cells), line, i)
            == lyric_pixel(lines[line], u, cells, i),
{
    let tp = target_patterns(source_patterns, cells);
    let tm = target_map(source_map, lines, u, cells);
    assert(line_ok(lines[line], line));
    assert(lines[line].jp@.len() <= 19);
    assert forall|tx: int, ty: int| 0 <= tx < 38 && 0 <= ty < 2 implies (#[trigger] line_word(tm, line, tx, ty) & 0x07FF)
        < tp.len() / 32 by {
        lemma_line_word_is(source_map, lines, u, cells, line, tx, ty);
        lemma_word_pixel(source_patterns, lines, u, cells, line, tx, ty, 0, 0);
    }
    let x = i % 304;
    let y = i / 304;
    lemma_line_word_is(source_map, lines, u, cells, line, x / 8, y / 8);
    lemma_word_pixel(source_patterns, lines, u, cells, line, x / 8, y / 8, x % 8, y % 8);
    assert((y / 8) * 8 + y % 8 == y);
}

proof fn lemma_sorted_unique(a: Seq<char>, b: Seq<char>)
    requires
        chars_sorted(a),
        chars_sorted(b),
        forall|c: char| #![trigger a.contains(c)] #![trigger b.contains(c)] a.contains(c) <==> b.contains(c),
    ensures
        a == b,
    decreases a.len(),
{
    if a.len() == 0 {
        if b.len() > 0 {
            assert(b.contains(b[0]));
        }
        assert(a =~= b);
    } else {
        assert(a.contains(a[0]));
        assert(b.len() > 0);
        assert(b.contains(b[0]));
        let j = choose|j: int| 0 <= j < b.len() && b[j] == a[0];
        let i = choose|i: int| 0 <= i < a.len() && a[i] == b[0];
        if j > 0 {
            assert(b[0] < b[j]);
            if i > 0 {
                assert(a[0] < a[i]);
            }
        }
        assert(a[0] == b[0]);
        let ta = a.drop_first();
        let tb = b.drop_first();
        assert forall|c: char| #![trigger ta.contains(c)] #![trigger tb.contains(c)] ta.contains(c) <==> tb.contains(c) by {
            if ta.contains(c) {
                let x = choose|x: int| 0 <= x < ta.len() && ta[x] == c;
                assert(a[x + 1] == c && a[0] < a[x + 1]);
                assert(a.contains(c));
                let y = choose|y: int| 0 <= y < b.len() && b[y] == c;
                assert(y != 0);
                assert(tb[y - 1] == c);
            }
            if tb.contains(c) {
                let x = choose|x: int| 0 <= x < tb.len() && tb[x] == c;
                assert(b[x + 1] == c && b[0] < b[x + 1]);
                assert(b.contains(c));
                let y = choose|y: int| 0 <= y < a.len() && a[y] == c;
                assert(y != 0);
                assert(ta[y - 1] == c);
            }
        }
        assert forall|p: int, q: int| 0 <= p < q < ta.len() implies #[trigger] ta[p] < #[trigger] ta[q] by {
            assert(a[p + 1] < a[q + 1]);
        }
        assert forall|p: int, q: int| 0 <= p < q < tb.len() implies #[trigger] tb[p] < #[trigger] tb[q] by {
            assert(b[p + 1] < b[q + 1]);
        }
        lemma_sorted_unique(ta, tb);
        assert(a =~= b) by {
            assert forall|k: int| 0 <= k < a.len() implies a[k] == b[k] by {
                if k > 0 {
                    assert(ta[k - 1] == tb[k - 1]);
                }
            }
        }
    }
}

/// The drawn lyric characters, each once, in code-point order.
pub open spec fn lyric_chars(lines: Seq<LineDeclaration>) -> Seq<char> {
    choose|u: Seq<char>| unique_chars_are(lines, u)
}

proof fn lemma_lyric_chars(lines: Seq<LineDeclaration>, u: Seq<char>)
    requires
        unique_chars_are(lines, u),
    ensures
        lyric_chars(lines) == u,
{
    let v = lyric_chars(lines);
    assert(unique_chars_are(lines, v));
    assert forall|c: char| #![trigger u.contains(c)] #![trigger v.contains(c)] u.contains(c) <==> v.contains(c) by {}
    lemma_sorted_unique(u, v);
}

/// Every lyric map word of the Korean map is plain (no priority or palette
/// bits) and names the blank tile or a tile some glyph quadrant uses.
pub open spec fn words_admitted(map: Seq<u8>, words: Seq<u16>) -> bool {
    forall|w: int|
        0 <= w < 684 ==> {
            let v = #[trigger] be16(map, 0x08C0 + 2 * w) as u16;
            &&& v & 0xE000 == 0
            &&& (v & 0x07FF == 1 || exists|s: int| 0 <= s < words.len() && #[trigger] (words[s] & 0x07FF) == v & 0x07FF)
        }
}

fn lyric_words_admitted(map: &Vec<u8>, words: &Vec<u16>) -> (ok: bool)
    requires
        map@.len() == 3_648,
    ensures
        ok == words_admitted(map@, words@),
{
    let mut w: usize = 0;
    while w < 684
        invariant
            map@.len() == 3_648,
            w <= 684,
            forall|j: int|
                0 <= j < w ==> {
                    let v = #[trigger] be16(map@, 0x08C0 + 2 * j) as u16;
                    &&& v & 0xE000 == 0
                    &&& (v & 0x07FF == 1 || exists|s: int| 0 <= s < words@.len() && #[trigger] (words@[s] & 0x07FF) == v & 0x07FF)
                },
        decreases 684 - w,
    {
        let value = read_be16(map.as_slice(), MAP_LYRIC_START + 2 * w);
        let tile = value & 0x07FF;
        if value & 0xE000 != 0 {
            return false;
        }
        if tile != 1 {
            let mut s: usize = 0;
            let mut found = false;
            while s < words.len()
                invariant
                    s <= words@.len(),
                    found <==> exists|t: int| 0 <= t < s && #[trigger] (words@[t] & 0x07FF) == tile,
                decreases words@.len() - s,
            {
                if words[s] & 0x07FF == tile {
                    found = true;
                }
                s = s + 1;
            }
            if !found {
                return false;
            }
        }
        w = w + 1;
    }
    true
}

/// The lyric words of a compiled Korean map are admitted.
proof fn lemma_target_words_admitted(
    source_map: Seq<u8>,
    lines: Seq<LineDeclaration>,
    u: Seq<char>,
    cells: Seq<Seq<u8>>,
    words: Seq<u16>,
)
    requires
        source_map.len() == 3_648,
        lines.len() == 9,
        forall|k: int| 0 <= k < 9 ==> line_ok(#[trigger] lines[k], k),
        jp_fits(lines),
        unique_chars_are(lines, u),
        cells.len() == u.len(),
        allocated(cells).len() <= 174,
        words.len() == 4 * u.len(),
        forall|s: int| 0 <= s < words.len() ==> #[trigger] words[s] == slot_word(cells, s),
    ensures
        words_admitted(target_map(source_map, lines, u, cells), words),
{
    let tm = target_map(source_map, lines, u, cells);
    assert forall|w: int| 0 <= w < 684 implies {
        let v = #[trigger] be16(tm, 0x08C0 + 2 * w) as u16;
        &&& v & 0xE000 == 0
        &&& (v & 0x07FF == 1 || exists|s: int| 0 <= s < words.len() && #[trigger] (words[s] & 0x07FF) == v & 0x07FF)
    } by {
        let line = w / 76;
        let within = w % 76;
        let tx = within % 38;
        let ty = within / 38;
        assert(0x08C0 + line * 152 + (ty * 38 + tx) * 2 == 0x08C0 + 2 * w);
        lemma_line_word_is(source_map, lines, u, cells, line, tx, ty);
        let l = lines[line];
        assert(line_ok(l, line));
        let d = tx - line_origin(l);
        let v = target_line_word(l, u, cells, tx, ty);
        lemma_blank_word();
        assert(1u16 & 0xE000 == 0) by (bit_vector);
        if drawn_cell(l, d, l.ko@.len() as int) {
            let c = l.ko@[d / 2];
            assert(l.ko@.contains(c));
            assert(lyric_char(lines, c));
            let k = char_index(u, c);
            let q = (d % 2) * 2 + ty;
            let sl = 4 * k + q;
            assert(0 <= sl < words.len());
            assert(words[sl] == v);
            if !blank_quadrant(slot_quadrant(cells, sl)) {
                lemma_slot_word(cells, sl);
            }
        }
    }
}

/// Draw all nine lyric lines.
pub fn render_all_surfaces(patterns: &[u8], map: &[u8]) -> (surfaces: Result<Vec<Vec<u8>>, Error>)
    ensures
        surfaces is Ok <==> forall|line: int| 0 <= line < 9 ==> #[trigger] surface_ok(patterns@, map@, line),
        surfaces matches Ok(v) ==> v@.len() == 9 && forall|line: int|
            0 <= line < 9 ==> (#[trigger] v@[line])@.len() == 304 * 16 && forall|i: int|
                0 <= i < 304 * 16 ==> #[trigger] v@[line]@[i] == surface_pixel(patterns@, map@, line, i),
{
    let mut surfaces: Vec<Vec<u8>> = Vec::with_capacity(LINE_COUNT);
    let mut line: usize = 0;
    while line < LINE_COUNT
        invariant
            line <= 9,
            surfaces@.len() == line,
            forall|j: int| 0 <= j < line ==> #[trigger] surface_ok(patterns@, map@, j),
            forall|j: int|
                0 <= j < line ==> (#[trigger] surfaces@[j])@.len() == 304 * 16 && forall|i: int|
                    0 <= i < 304 * 16 ==> #[trigger] surfaces@[j]@[i] == surface_pixel(patterns@, map@, j, i),
        decreases 9 - line,
    {
        let surface = render_surface(patterns, map, line)?;
        surfaces.push(surface);
        line = line + 1;
    }
    Ok(surfaces)
}

/// The JP lyric lines can be drawn once their map words are owned.
proof fn lemma_source_surfaces_ok(patterns: Seq<u8>, map: Seq<u8>, m: KaraokeManifest, line: int)
    requires
        source_ownership_ok(patterns, map, m),
        0 <= line < 9,
    ensures
        surface_ok(patterns, map, line),
{
    assert forall|tx: int, ty: int| 0 <= tx < 38 && 0 <= ty < 2 implies (#[trigger] line_word(map, line, tx, ty) & 0x07FF)
        < patterns.len() / 32 by {
        let w = line * 76 + ty * 38 + tx;
        assert(0x08C0 + line * 152 + (ty * 38 + tx) * 2 == 0x08C0 + 2 * w);
        assert(source_word_ok(be16(map, 0x08C0 + 2 * w) as u16));
        lemma_blank_word();
    }
}

/// A compiled karaoke build before its packs are encoded.
pub struct KaraokeBuild {
    pub manifest: KaraokeManifest,
    pub chars: Vec<char>,
    pub glyph_words: Vec<u16>,
    pub allocated_tiles: usize,
    pub source_patterns: Vec<u8>,
    pub source_map: Vec<u8>,
    pub target_patterns: Vec<u8>,
    pub target_map: Vec<u8>,
    pub source_surfaces: Vec<Vec<u8>>,
    pub target_surfaces: Vec<Vec<u8>>,
}

/// The glyph cells of a manifest's lyric characters.
pub open spec fn manifest_cells(m: KaraokeManifest, glyphs: Seq<CompactGlyph>) -> Seq<Seq<u8>> {
    glyph_cells(glyphs, lyric_chars(m.lines@), m.coverage_threshold)
}

/// Everything the karaoke compiler requires of its inputs: the ROM `source`
/// for the transfer group and consumer, the decoded JP pattern and map
/// transfers, and the rasterised glyphs of the lyric characters.
pub open spec fn build_inputs_ok(
    source: Seq<u8>,
    m: KaraokeManifest,
    patterns: DecodedPack,
    map: DecodedPack,
    glyphs: Seq<CompactGlyph>,
) -> bool {
    let cells = manifest_cells(m, glyphs);
    &&& manifest_shape_ok(m)
    &&& group_present(source, m)
    &&& consumer_present(source, m.consumer)
    &&& pack_checked(patterns, 0x08_A12C, 0, 47_072, m.source_group.pattern_pack.decoded_sha256@)
    &&& pack_checked(map, 0x08_A132, 0xA000, 3_648, m.source_group.map_pack.decoded_sha256@)
    &&& source_ownership_ok(patterns.data@, map.data@, m)
    &&& glyphs_ok(glyphs, lyric_chars(m.lines@), m.coverage_threshold)
    &&& allocated(cells).len() <= 174
    &&& nibble_roles_are(target_patterns(patterns.data@, cells).subrange(0x04FFint * 32, 0x05ADint * 32), seq![0usize, 1])
}

/// Compile the karaoke lyrics: check the manifest, the JP transfer group,
/// consumer and decoded transfers, allocate the quadrant tiles of the
/// Korean glyphs, rewrite the lyric tiles and the nine lyric maps, check
/// the Korean ownership, and draw every JP and Korean line.
pub fn build_karaoke(
    source: &[u8],
    manifest: KaraokeManifest,
    decoded_patterns: &DecodedPack,
    decoded_map: &DecodedPack,
    glyphs: &Vec<CompactGlyph>,
) -> (build: Result<KaraokeBuild, Error>)
    requires
        jp_fits(manifest.lines@),
    ensures
        build is Ok <==> build_inputs_ok(source@, manifest, *decoded_patterns, *decoded_map, glyphs@),
        build matches Ok(b) ==> {
            let cells = manifest_cells(manifest, glyphs@);
            let u = lyric_chars(manifest.lines@);
            let p = decoded_patterns.data@;
            let m = decoded_map.data@;
            &&& b.manifest == manifest
            &&& b.chars@ == u
            &&& b.glyph_words@.len() == 4 * u.len()
            &&& forall|s: int| 0 <= s < b.glyph_words@.len() ==> #[trigger] b.glyph_words@[s] == slot_word(cells, s)
            &&& b.allocated_tiles == allocated(cells).len()
            &&& b.source_patterns@ == p
            &&& b.source_map@ == m
            &&& b.target_patterns@ == target_patterns(p, cells)
            &&& b.target_map@ == target_map(m, manifest.lines@, u, cells)
            &&& b.source_surfaces@.len() == 9
            &&& b.target_surfaces@.len() == 9
            &&& forall|line: int|
                0 <= line < 9 ==> (#[trigger] b.source_surfaces@[line])@.len() == 304 * 16 && forall|i: int|
                    0 <= i < 304 * 16 ==> #[trigger] b.source_surfaces@[line]@[i] == surface_pixel(p, m, line, i)
            &&& forall|line: int|
                0 <= line < 9 ==> (#[trigger] b.target_surfaces@[line])@.len() == 304 * 16 && forall|i: int|
                    0 <= i < 304 * 16 ==> #[trigger] b.target_surfaces@[line]@[i] == lyric_pixel(
                        manifest.lines@[line],
                        u,
                        cells,
                        i,
                    )
        },
{
    validate_manifest_shape(&manifest)?;
    validate_source_group(source, &manifest)?;
    validate_consumer(source, &manifest.consumer)?;
    let source_patterns = checked_pack(
        decoded_patterns,
        PATTERN_HEADER_OFFSET,
        0,
        PATTERN_BYTES,
        &manifest.source_group.pattern_pack.decoded_sha256,
    )?;
    let source_map = checked_pack(
        decoded_map,
        MAP_HEADER_OFFSET,
        0xA000,
        MAP_BYTES,
        &manifest.source_group.map_pack.decoded_sha256,
    )?;
    validate_source_ownership(source_patterns.as_slice(), source_map.as_slice(), &manifest)?;
    let chars = unique_lyric_chars(&manifest.lines);
    proof {
        lemma_lyric_chars(manifest.lines@, chars@);
    }
    let (words, flat) = allocate_glyph_tiles(&chars, glyphs, manifest.coverage_threshold)?;
    let ghost cells = manifest_cells(manifest, glyphs@);
    let ghost u = chars@;
    let target_patterns_v = build_target_patterns(&source_patterns, &flat, Ghost(allocated(cells)));
    let target_map_v = build_target_map(&source_map, &manifest.lines, &chars, &words, Ghost(cells));
    assert(target_patterns_v@ =~= target_patterns(source_patterns@, cells));
    assert(target_map_v@ =~= target_map(source_map@, manifest.lines@, u, cells));
    let roles: Vec<usize> = vec![0, 1];
    let lyric_start = MUTABLE_TILE_START * MD_TILE_BYTES;
    let lyric_end = MUTABLE_TILE_END * MD_TILE_BYTES;
    if !nibble_roles_match(&target_patterns_v.as_slice()[lyric_start..lyric_end], roles.as_slice()) {
        return Err("karaoke Korean patterns use unexpected palette roles");
    }
    proof {
        lemma_target_words_admitted(source_map@, manifest.lines@, u, cells, words@);
    }
    if !lyric_words_admitted(&target_map_v, &words) {
        return Err("karaoke Korean map word uses an undeclared tile");
    }
    let source_surfaces = match render_all_surfaces(source_patterns.as_slice(), source_map.as_slice()) {
        Ok(v) => v,
        Err(e) => {
            proof {
                assert forall|line: int| 0 <= line < 9 implies #[trigger] surface_ok(source_patterns@, source_map@, line) by {
                    lemma_source_surfaces_ok(source_patterns@, source_map@, manifest, line);
                }
            }
            return Err(e);
        },
    };
    proof {
        assert forall|k: int| 0 <= k < cells.len() implies (#[trigger] cells[k]).len() == 256 && all_nibbles(cells[k]) by {
            assert forall|i: int| 0 <= i < cells[k].len() implies #[trigger] cells[k][i] < 16 by {}
        }
    }
    let target_surfaces = match render_all_surfaces(target_patterns_v.as_slice(), target_map_v.as_slice()) {
        Ok(v) => v,
        Err(e) => {
            proof {
                assert forall|line: int| 0 <= line < 9 implies #[trigger] surface_ok(target_patterns_v@, target_map_v@, line) by {
                    lemma_lyrics_render(source_patterns@, source_map@, manifest.lines@, u, cells, line, 0);
                }
            }
            return Err(e);
        },
    };
    proof {
        assert forall|line: int| 0 <= line < 9 implies forall|i: int|
            0 <= i < 304 * 16 ==> #[trigger] (#[trigger] target_surfaces@[line])@[i] == lyric_pixel(manifest.lines@[line], u, cells, i) by {
            assert forall|i: int| 0 <= i < 304 * 16 implies #[trigger] target_surfaces@[line]@[i] == lyric_pixel(
                manifest.lines@[line],
                u,
                cells,
                i,
            ) by {
                lemma_lyrics_render(source_patterns@, source_map@, manifest.lines@, u, cells, line, i);
            }
        }
    }
    let allocated_tiles = flat.len() / MD_TILE_BYTES;
    Ok(KaraokeBuild {
        manifest,
        chars,
        glyph_words: words,
        allocated_tiles,
        source_patterns,
        source_map,
        target_patterns: target_patterns_v,
        target_map: target_map_v,
        source_surfaces,
        target_surfaces,
    })
}

/// Summary of a build; the pack sizes are those of its encoded banks.
pub open spec fn spec_summary(b: KaraokeBuild, pattern_pack_bytes: usize, map_pack_bytes: usize, checksum: u16) -> KaraokeSummary {
    KaraokeSummary {
        lines: b.manifest.lines@.len() as usize,
        unique_glyphs: b.chars@.len() as usize,
        source_pattern_bytes: b.source_patterns@.len() as usize,
        rewritten_pattern_tiles: b.allocated_tiles,
        rewritten_map_bytes: 1_368,
        pattern_pack_bytes,
        map_pack_bytes,
        checksum,
    }
}

/// Report the counts of a build.
pub fn summary(b: &KaraokeBuild, pattern_pack_bytes: usize, map_pack_bytes: usize, checksum: u16) -> (s:
    KaraokeSummary)
    ensures
        s == spec_summary(*b, pattern_pack_bytes, map_pack_bytes, checksum),
{
    KaraokeSummary {
        lines: b.manifest.lines.len(),
        unique_glyphs: b.chars.len(),
        source_pattern_bytes: b.source_patterns.len(),
        rewritten_pattern_tiles: b.allocated_tiles,
        rewritten_map_bytes: MAP_LYRIC_END - MAP_LYRIC_START,
        pattern_pack_bytes,
        map_pack_bytes,
        checksum,
    }
}

/// Preview colours of the ink (role 0) and field (role 1).
pub open spec fn role_color(v: u8) -> Seq<u8> {
    if v == 0 {
        seq![32u8, 24u8, 18u8]
    } else {
        seq![252u8, 216u8, 48u8]
    }
}

/// Colour of preview pixel (`x`, `y`) of the 624x208 comparison: line `y /
/// 24` of the JP surfaces on the left and of the Korean ones from column
/// 320, on a dark background.
pub open spec fn preview_color(b: KaraokeBuild, x: int, y: int) -> Seq<u8> {
    let line = y / 24;
    let ly = y % 24;
    if ly < 16 && x < 304 {
        role_color(b.source_surfaces@[line]@[ly * 304 + x])
    } else if ly < 16 && 320 <= x < 624 {
        role_color(b.target_surfaces@[line]@[ly * 304 + x - 320])
    } else {
        seq![22u8, 20u8, 28u8]
    }
}

/// Every surface pixel is ink or field.
pub open spec fn surfaces_two_role(b: KaraokeBuild) -> bool {
    &&& forall|line: int, i: int| 0 <= line < 9 && 0 <= i < 304 * 16 ==> #[trigger] b.source_surfaces@[line]@[i] <= 1
    &&& forall|line: int, i: int| 0 <= line < 9 && 0 <= i < 304 * 16 ==> #[trigger] b.target_surfaces@[line]@[i] <= 1
}

/// Byte `k` of the 1248x416 preview: the comparison scaled twice.
pub open spec fn preview_byte(b: KaraokeBuild, k: int) -> u8 {
    let q = k / 4;
    opaque_channel(preview_color(b, (q % 1248) / 2, (q / 1248) / 2), k % 4)
}

/// The surfaces of a finished build.
pub open spec fn build_wf(b: KaraokeBuild) -> bool {
    &&& b.source_surfaces@.len() == 9
    &&& b.target_surfaces@.len() == 9
    &&& forall|line: int| 0 <= line < 9 ==> (#[trigger] b.source_surfaces@[line])@.len() == 304 * 16
    &&& forall|line: int| 0 <= line < 9 ==> (#[trigger] b.target_surfaces@[line])@.len() == 304 * 16
}

fn role_rgb(v: u8) -> (color: Result<[u8; 3], Error>)
    ensures
        color is Ok <==> v <= 1,
        color matches Ok(c) ==> c@ == role_color(v),
{
    if v == 0 {
        let c = [32u8, 24, 18];
        assert(c@ =~= role_color(v));
        Ok(c)
    } else if v == 1 {
        let c = [252u8, 216, 48];
        assert(c@ =~= role_color(v));
        Ok(c)
    } else {
        Err("karaoke preview encountered an undeclared palette index")
    }
}

/// Render all nine JP and Korean lyric surfaces side by side, twice
/// enlarged.
pub fn write_karaoke_preview(b: &KaraokeBuild, pattern_pack_bytes: usize, map_pack_bytes: usize) -> (result: Result<
    (RgbaImage, KaraokeSummary),
    Error,
>)
    requires
        build_wf(*b),
    ensures
        result is Ok <==> surfaces_two_role(*b),
        result matches Ok((image, s)) ==> {
            &&& image.width == 1248
            &&& image.height == 416
            &&& image.rgba@.len() == 1248 * 416 * 4
            &&& forall|k: int| 0 <= k < 1248 * 416 * 4 ==> #[trigger] image.rgba@[k] == preview_byte(*b, k)
            &&& s == spec_summary(*b, pattern_pack_bytes, map_pack_bytes, 0)
        },
{
    let mut line: usize = 0;
    while line < LINE_COUNT
        invariant
            build_wf(*b),
            line <= 9,
            forall|j: int, i: int| 0 <= j < line && 0 <= i < 304 * 16 ==> #[trigger] b.source_surfaces@[j]@[i] <= 1,
            forall|j: int, i: int| 0 <= j < line && 0 <= i < 304 * 16 ==> #[trigger] b.target_surfaces@[j]@[i] <= 1,
        decreases 9 - line,
    {
        let mut i: usize = 0;
        while i < 304 * 16
            invariant
                build_wf(*b),
                line < 9,
                i <= 304 * 16,
                forall|j: int, p: int| 0 <= j < line && 0 <= p < 304 * 16 ==> #[trigger] b.source_surfaces@[j]@[p] <= 1,
                forall|j: int, p: int| 0 <= j < line && 0 <= p < 304 * 16 ==> #[trigger] b.target_surfaces@[j]@[p] <= 1,
                forall|p: int| 0 <= p < i ==> #[trigger] b.source_surfaces@[line as int]@[p] <= 1,
                forall|p: int| 0 <= p < i ==> #[trigger] b.target_surfaces@[line as int]@[p] <= 1,
            decreases 304 * 16 - i,
        {
            if b.source_surfaces[line][i] > 1 || b.target_surfaces[line][i] > 1 {
                proof {
                    assert(b.source_surfaces@[line as int]@[i as int] > 1 || b.target_surfaces@[line as int]@[i as int] > 1);
                }
                return Err("karaoke preview encountered an undeclared palette index");
            }
            i = i + 1;
        }
        line = line + 1;
    }
    let total: usize = 1248 * 416;
    let mut rgba: Vec<u8> = Vec::with_capacity(total * 4);
    let mut q: usize = 0;
    while q < total
        invariant
            build_wf(*b),
            surfaces_two_role(*b),
            total == 1248 * 416,
            q <= total,
            rgba@.len() == q * 4,
            forall|k: int| 0 <= k < q * 4 ==> #[trigger] rgba@[k] == preview_byte(*b, k),
        decreases total - q,
    {
        let x = (q % 1248) / PREVIEW_SCALE;
        let y = (q / 1248) / PREVIEW_SCALE;
        let line = y / 24;
        let ly = y % 24;
        proof {
            assert(line < 9);
            if ly < 16 && x < 304 {
                assert(b.source_surfaces@[line as int]@[ly * 304 + x] <= 1);
            }
            if ly < 16 && 320 <= x < 624 {
                assert(b.target_surfaces@[line as int]@[ly * 304 + x - 320] <= 1);
            }
        }
        let color = if ly < 16 && x < 304 {
            match role_rgb(b.source_surfaces[line][ly * 304 + x]) {
                Ok(c) => c,
                Err(_) => [0u8, 0, 0],
            }
        } else if ly < 16 && 320 <= x && x < 624 {
            match role_rgb(b.target_surfaces[line][ly * 304 + x - 320]) {
                Ok(c) => c,
                Err(_) => [0u8, 0, 0],
            }
        } else {
            [22u8, 20, 28]
        };
        assert(color@ =~= preview_color(*b, x as int, y as int));
        let ghost before = rgba@;
        push_opaque(&mut rgba, color);
        assert forall|k: int| 0 <= k < (q + 1) * 4 implies #[trigger] rgba@[k] == preview_byte(*b, k) by {
            if k >= q * 4 {
                assert(k / 4 == q);
                let c = k - q * 4;
                assert(rgba@[before.len() + c] == opaque_channel(color@, c));
            } else {
                assert(rgba@[k] == before[k]);
            }
        }
        q = q + 1;
    }
    let image = RgbaImage { width: 1248, height: 416, rgba };
    Ok((image, summary(b, pattern_pack_bytes, map_pack_bytes, 0)))
}

/// The writes of the karaoke insertion: the pattern and map headers over
/// the JP group headers, then both banks over erased expanded banks.
pub open spec fn karaoke_writes(source: Seq<u8>, pattern_header: Seq<u8>, map_header: Seq<u8>, pattern_bank: Seq<u8>, map_bank: Seq<u8>) -> Seq<WriteView> {
    seq![
        header_write(source, 0x08_A12C, pattern_header),
        header_write(source, 0x08_A132, map_header),
        bank_write(0x2E_0000, pattern_bank),
        bank_write(0x2F_0000, map_bank),
    ]
}

/// Everything the karaoke insertion checks: two six-byte headers, banks
/// within their expanded banks, the JP headers in `source`, every write
/// finding its expected bytes, and the written ROM keeping the lyric
/// consumer and the group terminator `FF FF` after the two headers.
pub open spec fn karaoke_insert_ok(
    source: Seq<u8>,
    image: Seq<u8>,
    pattern_header: Seq<u8>,
    map_header: Seq<u8>,
    pattern_bank: Seq<u8>,
    map_bank: Seq<u8>,
    c: ConsumerDeclaration,
) -> bool {
    let ws = karaoke_writes(source, pattern_header, map_header, pattern_bank, map_bank);
    let out = checksummed(writes_applied(image, ws, 4));
    &&& pattern_header.len() == 6
    &&& map_header.len() == 6
    &&& 0x2E_0000 + pattern_bank.len() <= 0x2F_0000
    &&& 0x2F_0000 + map_bank.len() <= 0x2F_8000
    &&& 0x08_A132 + 6 <= source.len()
    &&& writes_ok(image, ws)
    &&& consumer_present(out, c)
    &&& out.subrange(0x08_A138, 0x08_A13A) == seq![0xFFu8, 0xFF]
}

/// Insert the karaoke pattern and map packs: both six-byte headers over the
/// JP group headers, both banks over erased expanded banks, then the header
/// checksum; the written ROM must keep its lyric consumer and group
/// terminator. On any refusal the output is left as it was.
pub fn apply_karaoke(
    source: &[u8],
    output: &mut Vec<u8>,
    build: &KaraokeBuild,
    pattern_header: &[u8],
    map_header: &[u8],
    pattern_bank: &[u8],
    map_bank: &[u8],
) -> (result: Result<KaraokeSummary, Error>)
    requires
        consumer_declaration_ok(build.manifest.consumer),
    ensures
        result is Ok <==> karaoke_insert_ok(
            source@,
            old(output)@,
            pattern_header@,
            map_header@,
            pattern_bank@,
            map_bank@,
            build.manifest.consumer,
        ),
        result is Err ==> final(output)@ == old(output)@,
        result matches Ok(s) ==> {
            let ws = karaoke_writes(source@, pattern_header@, map_header@, pattern_bank@, map_bank@);
            let applied = writes_applied(old(output)@, ws, 4);
            &&& final(output)@ == checksummed(applied)
            &&& s.checksum as int == crate::rom::spec_checksum(applied)
            &&& s == spec_summary(*build, pattern_bank@.len() as usize, map_bank@.len() as usize, s.checksum)
            &&& only_ranges_changed(old(output)@, final(output)@, write_ranges(ws))
        },
{
    if pattern_header.len() != 6 || map_header.len() != 6 || pattern_bank.len() > PATTERN_BANK_LIMIT
        - PATTERN_BANK_OFFSET || map_bank.len() > MAP_BANK_LIMIT - MAP_BANK_OFFSET {
        return Err("karaoke packs end outside their expanded banks or a header is not six bytes");
    }
    let w0 = header_write_of(source, PATTERN_HEADER_OFFSET, pattern_header)?;
    let w1 = header_write_of(source, MAP_HEADER_OFFSET, map_header)?;
    let writes = vec![w0, w1, bank_write_of(PATTERN_BANK_OFFSET, pattern_bank), bank_write_of(MAP_BANK_OFFSET, map_bank)];
    assert(write_views(writes@) =~= karaoke_writes(source@, pattern_header@, map_header@, pattern_bank@, map_bank@));
    let original = copy_bytes(output.as_slice());
    let checksum = insert_writes(output, &writes)?;
    let kept = match validate_consumer(output.as_slice(), &build.manifest.consumer) {
        Ok(()) => output.len() >= 0x08_A13A && output[0x08_A138] == 0xFF && output[0x08_A139] == 0xFF,
        Err(_) => false,
    };
    if !kept {
        proof {
            if output@.len() >= 0x08_A13A && output@.subrange(0x08_A138, 0x08_A13A) == seq![0xFFu8, 0xFF] {
                assert(output@.subrange(0x08_A138, 0x08_A13A)[0] == output@[0x08_A138]);
                assert(output@.subrange(0x08_A138, 0x08_A13A)[1] == output@[0x08_A139]);
            }
        }
        *output = original;
        return Err("karaoke output lost its lyric consumer or group terminator");
    }
    assert(output@.subrange(0x08_A138, 0x08_A13A) =~= seq![0xFFu8, 0xFF]);
    Ok(summary(build, pattern_bank.len(), map_bank.len(), checksum))
}

} // verus!

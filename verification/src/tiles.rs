//! Mega Drive 4bpp pattern tiles: 8x8 pixels, 32 bytes, two pixels per byte
//! with the left pixel in the high nibble.

use vstd::prelude::*;
use crate::hex::Error;

verus! {

/// Bytes of one 8x8 pattern tile.
pub const MD_TILE_BYTES: usize = 32;

/// One pattern byte holding a left and a right 4-bit pixel.
pub open spec fn pack_nibbles(left: u8, right: u8) -> u8 {
    (left as int * 16 + right as int) as u8
}

/// The pixel that a pattern byte holds at an even (`high`) or odd column.
pub open spec fn nibble(byte: u8, high: bool) -> u8 {
    if high { (byte / 16) as u8 } else { (byte % 16) as u8 }
}

/// Every pixel is a 4-bit palette index.
pub open spec fn all_nibbles(pixels: Seq<u8>) -> bool {
    forall|i: int| 0 <= i < pixels.len() ==> #[trigger] pixels[i] < 16
}

/// Index into a row-major surface of the left pixel that byte `j` of a
/// column-major tile run encodes (tiles run down each 8-pixel column first).
pub open spec fn column_major_pixel(width: int, height: int, j: int) -> int {
    let tile = j / 32;
    let within = j % 32;
    let th = height / 8;
    let x = (tile / th) * 8 + (within % 4) * 2;
    let y = (tile % th) * 8 + within / 4;
    y * width + x
}

/// Byte `j` of the column-major encoding of a surface.
pub open spec fn column_major_byte(pixels: Seq<u8>, width: int, height: int, j: int) -> u8 {
    let i = column_major_pixel(width, height, j);
    pack_nibbles(pixels[i], pixels[i + 1])
}

/// Byte of a column-major tile run that holds row-major pixel `i`.
pub open spec fn column_major_byte_of_pixel(width: int, height: int, i: int) -> int {
    let y = i / width;
    let x = i % width;
    let tile = (x / 8) * (height / 8) + y / 8;
    tile * 32 + (y % 8) * 4 + (x % 8) / 2
}

/// Pixel `i` of the row-major surface decoded from a column-major tile run.
pub open spec fn column_major_pixel_value(tiles: Seq<u8>, width: int, height: int, i: int) -> u8 {
    nibble(tiles[column_major_byte_of_pixel(width, height, i)], (i % width) % 2 == 0)
}

pub open spec fn surface_shape_ok(width: int, height: int) -> bool {
    width % 8 == 0 && height % 8 == 0
}

proof fn lemma_pack(left: u8, right: u8)
    requires
        left < 16,
        right < 16,
    ensures
        (left << 4u8) | right == pack_nibbles(left, right),
        ((left << 4u8) | right) as int == left as int * 16 + right as int,
{
    assert((left << 4u8) | right == left * 16 + right) by (bit_vector)
        requires
            left < 16,
            right < 16,
    ;
}

/// Pack two 4-bit pixels into one pattern byte.
pub fn pack_pair(left: u8, right: u8) -> (byte: u8)
    requires
        left < 16,
        right < 16,
    ensures
        byte == pack_nibbles(left, right),
        byte as int == left as int * 16 + right as int,
{
    proof {
        lemma_pack(left, right);
    }
    (left << 4) | right
}

/// The 4-bit pixel held at an even (`high`) or odd column of a pattern byte.
pub fn unpack_pixel(byte: u8, high: bool) -> (pixel: u8)
    ensures
        pixel == nibble(byte, high),
        pixel < 16,
{
    if high {
        byte / 16
    } else {
        byte % 16
    }
}

proof fn lemma_column_major_bounds(j: int, tw: int, th: int)
    requires
        0 <= j < tw * th * 32,
        tw > 0,
        th > 0,
    ensures
        0 <= column_major_pixel(tw * 8, th * 8, j),
        column_major_pixel(tw * 8, th * 8, j) + 1 < tw * 8 * (th * 8),
{
    let tile = j / 32;
    let within = j % 32;
    assert(tile < tw * th) by (nonlinear_arith)
        requires
            0 <= j < tw * th * 32,
            tile == j / 32,
    ;
    let tx = tile / th;
    let ty = tile % th;
    assert(0 <= tx < tw && 0 <= ty < th) by (nonlinear_arith)
        requires
            0 <= tile < tw * th,
            th > 0,
            tx == tile / th,
            ty == tile % th,
    ;
    assert((th * 8) / 8 == th);
    let x = tx * 8 + (within % 4) * 2;
    let y = ty * 8 + within / 4;
    assert(0 <= x && x + 1 < tw * 8);
    assert(0 <= y && y < th * 8);
    assert(0 <= y * (tw * 8) + x && y * (tw * 8) + x + 1 < tw * 8 * (th * 8)) by (nonlinear_arith)
        requires
            0 <= x,
            x + 1 < tw * 8,
            0 <= y < th * 8,
    ;
}

/// Encode a row-major surface of 4-bit pixels as column-major pattern tiles.
pub fn encode_md_tiles_column_major(pixels: &[u8], width: usize, height: usize) -> (encoded:
    Result<Vec<u8>, Error>)
    ensures
        encoded is Ok <==> (surface_shape_ok(width as int, height as int) && pixels@.len()
            == width * height && all_nibbles(pixels@)),
        encoded matches Ok(tiles) ==> {
            &&& tiles@.len() == width * height / 2
            &&& forall|j: int|
                0 <= j < tiles@.len() ==> #[trigger] tiles@[j] == column_major_byte(
                    pixels@,
                    width as int,
                    height as int,
                    j,
                )
        },
{
    if width % 8 != 0 || height % 8 != 0 {
        return Err("surface is not a whole number of tiles");
    }
    let area = match width.checked_mul(height) {
        Some(area) => area,
        None => {
            assert(pixels@.len() == pixels.len());
            return Err("surface length does not match its dimensions");
        },
    };
    if pixels.len() != area {
        return Err("surface length does not match its dimensions");
    }
    let mut i: usize = 0;
    while i < pixels.len()
        invariant
            i <= pixels@.len(),
            forall|k: int| 0 <= k < i ==> #[trigger] pixels@[k] < 16,
        decreases pixels@.len() - i,
    {
        if pixels[i] >= 16 {
            return Err("surface holds a palette index above 15");
        }
        i = i + 1;
    }
    let tw = width / 8;
    let th = height / 8;
    let total = pixels.len() / 2;
    assert(total == tw * th * 32) by (nonlinear_arith)
        requires
            width == tw * 8,
            height == th * 8,
            pixels@.len() == width * height,
            total == pixels@.len() / 2,
    ;
    let mut tiles: Vec<u8> = Vec::with_capacity(total);
    let mut j: usize = 0;
    while j < total
        invariant
            width == tw * 8,
            height == th * 8,
            total == tw * th * 32,
            pixels@.len() == width * height,
            width * height <= usize::MAX,
            all_nibbles(pixels@),
            j <= total,
            tiles@.len() == j,
            forall|k: int|
                0 <= k < j ==> #[trigger] tiles@[k] == column_major_byte(
                    pixels@,
                    width as int,
                    height as int,
                    k,
                ),
        decreases total - j,
    {
        assert(tw > 0 && th > 0) by (nonlinear_arith)
            requires
                j < total,
                total == tw * th * 32,
                tw >= 0,
                th >= 0,
        ;
        proof {
            lemma_column_major_bounds(j as int, tw as int, th as int);
        }
        let tile = j / 32;
        let within = j % 32;
        let x = (tile / th) * 8 + (within % 4) * 2;
        let y = (tile % th) * 8 + within / 4;
        assert(y * width + x == column_major_pixel(width as int, height as int, j as int));
        let index = y * width + x;
        let byte = pack_pair(pixels[index], pixels[index + 1]);
        tiles.push(byte);
        j = j + 1;
    }
    assert(total == width * height / 2);
    Ok(tiles)
}

proof fn lemma_pixel_byte_bounds(i: int, tw: int, th: int)
    requires
        0 <= i < tw * 8 * (th * 8),
        tw > 0,
        th > 0,
    ensures
        0 <= column_major_byte_of_pixel(tw * 8, th * 8, i) < tw * th * 32,
{
    let width = tw * 8;
    let height = th * 8;
    let y = i / width;
    let x = i % width;
    assert(0 <= y < height && 0 <= x < width) by (nonlinear_arith)
        requires
            0 <= i < width * height,
            width > 0,
            y == i / width,
            x == i % width,
    ;
    assert(height / 8 == th);
    let tile = (x / 8) * th + y / 8;
    assert(0 <= tile < tw * th) by (nonlinear_arith)
        requires
            0 <= x < tw * 8,
            0 <= y < th * 8,
            tile == (x / 8) * th + y / 8,
            th > 0,
    ;
    assert(0 <= tile * 32 + (y % 8) * 4 + (x % 8) / 2 < tw * th * 32) by (nonlinear_arith)
        requires
            0 <= tile < tw * th,
            0 <= y,
            0 <= x,
    ;
}

/// Decode column-major pattern tiles into a row-major surface.
pub fn decode_md_tiles_column_major(tiles: &[u8], width: usize, height: usize) -> (decoded:
    Result<Vec<u8>, Error>)
    ensures
        decoded is Ok <==> (surface_shape_ok(width as int, height as int) && tiles@.len() * 2
            == width * height && width * height <= usize::MAX),
        decoded matches Ok(pixels) ==> {
            &&& pixels@.len() == width * height
            &&& all_nibbles(pixels@)
            &&& forall|i: int|
                0 <= i < pixels@.len() ==> #[trigger] pixels@[i] == column_major_pixel_value(
                    tiles@,
                    width as int,
                    height as int,
                    i,
                )
        },
{
    if width % 8 != 0 || height % 8 != 0 {
        return Err("surface is not a whole number of tiles");
    }
    let total = match width.checked_mul(height) {
        Some(total) => total,
        None => {
            return Err("surface dimensions overflow");
        },
    };
    if tiles.len() > total / 2 || tiles.len() * 2 != total {
        return Err("tile run length does not match its surface");
    }
    let tw = width / 8;
    let th = height / 8;
    let mut pixels: Vec<u8> = Vec::with_capacity(total);
    let mut i: usize = 0;
    while i < total
        invariant
            width == tw * 8,
            height == th * 8,
            total == width * height,
            tiles@.len() * 2 == total,
            i <= total,
            pixels@.len() == i,
            all_nibbles(pixels@),
            forall|k: int|
                0 <= k < i ==> #[trigger] pixels@[k] == column_major_pixel_value(
                    tiles@,
                    width as int,
                    height as int,
                    k,
                ),
        decreases total - i,
    {
        assert(tw > 0 && th > 0) by (nonlinear_arith)
            requires
                i < total,
                total == tw * 8 * (th * 8),
                tw >= 0,
                th >= 0,
        ;
        proof {
            lemma_pixel_byte_bounds(i as int, tw as int, th as int);
            assert(tiles@.len() == tw * th * 32) by (nonlinear_arith)
                requires
                    tiles@.len() * 2 == tw * 8 * (th * 8),
            ;
        }
        let y = i / width;
        let x = i % width;
        let tile = (x / 8) * th + y / 8;
        let index = tile * 32 + (y % 8) * 4 + (x % 8) / 2;
        let pixel = unpack_pixel(tiles[index], x % 2 == 0);
        pixels.push(pixel);
        i = i + 1;
    }
    Ok(pixels)
}

/// Some byte holds `value` in one of its two nibbles.
pub open spec fn has_nibble(bytes: Seq<u8>, value: int) -> bool {
    exists|i: int| 0 <= i < bytes.len() && (#[trigger] bytes[i] / 16 == value || bytes[i] % 16 == value)
}

/// Some pixel equals `value`.
pub open spec fn has_pixel(pixels: Seq<u8>, value: int) -> bool {
    exists|i: int| 0 <= i < pixels.len() && #[trigger] pixels[i] == value
}

/// The set of nibbles in `bytes` is exactly the set of `expected` indices.
pub open spec fn nibble_roles_are(bytes: Seq<u8>, expected: Seq<usize>) -> bool {
    forall|v: usize| has_nibble(bytes, v as int) <==> expected.contains(v)
}

/// The set of pixel values is exactly the set of `expected` indices.
pub open spec fn pixel_roles_are(pixels: Seq<u8>, expected: Seq<usize>) -> bool {
    forall|v: usize| has_pixel(pixels, v as int) <==> expected.contains(v)
}

fn presence_matches(present: &[bool], expected: &[usize]) -> (same: bool)
    ensures
        same == ((forall|v: int| 0 <= v < present@.len() ==> (#[trigger] present@[v] <==> expected@.contains(v as usize)))
            && forall|k: int| 0 <= k < expected@.len() ==> #[trigger] expected@[k] < present@.len()),
{
    let mut k: usize = 0;
    while k < expected.len()
        invariant
            k <= expected@.len(),
            forall|j: int| 0 <= j < k ==> #[trigger] expected@[j] < present@.len(),
        decreases expected@.len() - k,
    {
        if expected[k] >= present.len() {
            return false;
        }
        k = k + 1;
    }
    let mut v: usize = 0;
    while v < present.len()
        invariant
            v <= present@.len(),
            forall|j: int| 0 <= j < expected@.len() ==> #[trigger] expected@[j] < present@.len(),
            forall|w: int| 0 <= w < v ==> (#[trigger] present@[w] <==> expected@.contains(w as usize)),
        decreases present@.len() - v,
    {
        if present[v] != crate::sets::contains_usize(expected, v) {
            return false;
        }
        v = v + 1;
    }
    true
}

/// The nibbles used by `bytes` are exactly the `expected` palette indices.
pub fn nibble_roles_match(bytes: &[u8], expected: &[usize]) -> (same: bool)
    ensures
        same == nibble_roles_are(bytes@, expected@),
{
    let mut present = [false; 16];
    let mut i: usize = 0;
    while i < bytes.len()
        invariant
            i <= bytes@.len(),
            forall|v: int| 0 <= v < 16 ==> (#[trigger] present@[v] <==> has_nibble(bytes@.take(i as int), v)),
        decreases bytes@.len() - i,
    {
        let b = bytes[i];
        proof {
            assert forall|v: int| 0 <= v < 16 implies has_nibble(bytes@.take(i as int), v) ==> has_nibble(bytes@.take(i + 1), v) by {
                if has_nibble(bytes@.take(i as int), v) {
                    let j = choose|j: int| 0 <= j < i && (#[trigger] bytes@.take(i as int)[j] / 16 == v || bytes@.take(i as int)[j] % 16 == v);
                    assert(bytes@.take(i + 1)[j] == bytes@.take(i as int)[j]);
                }
            }
            assert forall|v: int| 0 <= v < 16 implies has_nibble(bytes@.take(i + 1), v) ==> (has_nibble(bytes@.take(i as int), v) || b / 16 == v || b % 16 == v) by {
                if has_nibble(bytes@.take(i + 1), v) {
                    let j = choose|j: int| 0 <= j < i + 1 && (#[trigger] bytes@.take(i + 1)[j] / 16 == v || bytes@.take(i + 1)[j] % 16 == v);
                    if j < i {
                        assert(bytes@.take(i as int)[j] == bytes@.take(i + 1)[j]);
                    }
                }
            }
            assert(bytes@.take(i + 1)[i as int] == b);
        }
        present[(b / 16) as usize] = true;
        present[(b % 16) as usize] = true;
        i = i + 1;
    }
    assert(bytes@.take(bytes@.len() as int) =~= bytes@);
    let same = presence_matches(&present, expected);
    proof {
        if same {
            assert forall|v: usize| has_nibble(bytes@, v as int) <==> expected@.contains(v) by {
                if v < 16 {
                    assert(present@[v as int] <==> has_nibble(bytes@, v as int));
                    assert(present@[v as int] <==> expected@.contains(v));
                }
                if has_nibble(bytes@, v as int) {
                    let j = choose|j: int| 0 <= j < bytes@.len() && (#[trigger] bytes@[j] / 16 == v || bytes@[j] % 16 == v);
                    assert(v < 16);
                }
                if expected@.contains(v) {
                    let k = choose|k: int| 0 <= k < expected@.len() && expected@[k] == v;
                    assert(expected@[k] < 16);
                }
            }
        } else {
            if exists|k: int| 0 <= k < expected@.len() && !(#[trigger] expected@[k] < 16) {
                let k = choose|k: int| 0 <= k < expected@.len() && !(#[trigger] expected@[k] < 16);
                assert(expected@.contains(expected@[k]));
                assert(!has_nibble(bytes@, expected@[k] as int));
            } else {
                let v = choose|v: int| 0 <= v < 16 && !(#[trigger] present@[v] <==> expected@.contains(v as usize));
                assert(has_nibble(bytes@, v) != expected@.contains(v as usize));
            }
        }
    }
    same
}

/// The pixel values of `pixels` are exactly the `expected` palette indices.
pub fn pixel_roles_match(pixels: &[u8], expected: &[usize]) -> (same: bool)
    ensures
        same == pixel_roles_are(pixels@, expected@),
{
    let mut present = [false; 256];
    let mut i: usize = 0;
    while i < pixels.len()
        invariant
            i <= pixels@.len(),
            forall|v: int| 0 <= v < 256 ==> (#[trigger] present@[v] <==> has_pixel(pixels@.take(i as int), v)),
        decreases pixels@.len() - i,
    {
        let b = pixels[i];
        proof {
            assert forall|v: int| 0 <= v < 256 implies has_pixel(pixels@.take(i as int), v) ==> has_pixel(pixels@.take(i + 1), v) by {
                if has_pixel(pixels@.take(i as int), v) {
                    let j = choose|j: int| 0 <= j < i && #[trigger] pixels@.take(i as int)[j] == v;
                    assert(pixels@.take(i + 1)[j] == pixels@.take(i as int)[j]);
                }
            }
            assert forall|v: int| 0 <= v < 256 implies has_pixel(pixels@.take(i + 1), v) ==> (has_pixel(pixels@.take(i as int), v) || b == v) by {
                if has_pixel(pixels@.take(i + 1), v) {
                    let j = choose|j: int| 0 <= j < i + 1 && #[trigger] pixels@.take(i + 1)[j] == v;
                    if j < i {
                        assert(pixels@.take(i as int)[j] == pixels@.take(i + 1)[j]);
                    }
                }
            }
            assert(pixels@.take(i + 1)[i as int] == b);
        }
        present[b as usize] = true;
        i = i + 1;
    }
    assert(pixels@.take(pixels@.len() as int) =~= pixels@);
    let same = presence_matches(&present, expected);
    proof {
        if same {
            assert forall|v: usize| has_pixel(pixels@, v as int) <==> expected@.contains(v) by {
                if v < 256 {
                    assert(present@[v as int] <==> has_pixel(pixels@, v as int));
                    assert(present@[v as int] <==> expected@.contains(v));
                }
                if has_pixel(pixels@, v as int) {
                    let j = choose|j: int| 0 <= j < pixels@.len() && #[trigger] pixels@[j] == v;
                    assert(v < 256);
                }
                if expected@.contains(v) {
                    let k = choose|k: int| 0 <= k < expected@.len() && expected@[k] == v;
                    assert(expected@[k] < 256);
                }
            }
        } else {
            if exists|k: int| 0 <= k < expected@.len() && !(#[trigger] expected@[k] < 256) {
                let k = choose|k: int| 0 <= k < expected@.len() && !(#[trigger] expected@[k] < 256);
                assert(expected@.contains(expected@[k]));
                assert(!has_pixel(pixels@, expected@[k] as int));
            } else {
                let v = choose|v: int| 0 <= v < 256 && !(#[trigger] present@[v] <==> expected@.contains(v as usize));
                assert(has_pixel(pixels@, v) != expected@.contains(v as usize));
            }
        }
    }
    same
}

/// Each pattern once, in order of first occurrence.
pub open spec fn distinct_tiles(tiles: Seq<Seq<u8>>) -> Seq<Seq<u8>>
    decreases tiles.len(),
{
    if tiles.len() == 0 {
        Seq::empty()
    } else {
        let earlier = distinct_tiles(tiles.drop_last());
        if earlier.contains(tiles.last()) {
            earlier
        } else {
            earlier.push(tiles.last())
        }
    }
}

/// Appending a pattern extends the distinct run exactly when it is new.
pub proof fn lemma_distinct_step(tiles: Seq<Seq<u8>>, t: Seq<u8>)
    ensures
        distinct_tiles(tiles.push(t)) == (if distinct_tiles(tiles).contains(t) {
            distinct_tiles(tiles)
        } else {
            distinct_tiles(tiles).push(t)
        }),
{
    assert(tiles.push(t).drop_last() =~= tiles);
}

/// The distinct run holds no pattern twice.
pub proof fn lemma_distinct_no_duplicates(tiles: Seq<Seq<u8>>)
    ensures
        distinct_tiles(tiles).no_duplicates(),
    decreases tiles.len(),
{
    if tiles.len() > 0 {
        lemma_distinct_no_duplicates(tiles.drop_last());
    }
}

/// The distinct run of a prefix is no longer than that of the whole.
pub proof fn lemma_distinct_grows(tiles: Seq<Seq<u8>>, n: int)
    requires
        0 <= n <= tiles.len(),
    ensures
        distinct_tiles(tiles.take(n)).len() <= distinct_tiles(tiles).len(),
    decreases tiles.len() - n,
{
    if n < tiles.len() {
        lemma_distinct_grows(tiles, n + 1);
        assert(tiles.take(n + 1).drop_last() =~= tiles.take(n));
    } else {
        assert(tiles.take(n) =~= tiles);
    }
}

/// Decoding the column-major encoding of a 4-bit surface gives the surface
/// back: every pixel is read from the byte and nibble it was packed into.
pub proof fn lemma_column_major_roundtrip(pixels: Seq<u8>, width: int, height: int, tiles: Seq<u8>)
    requires
        width > 0,
        height > 0,
        surface_shape_ok(width, height),
        pixels.len() == width * height,
        all_nibbles(pixels),
        tiles.len() == width * height / 2,
        forall|j: int| 0 <= j < tiles.len() ==> #[trigger] tiles[j] == column_major_byte(pixels, width, height, j),
    ensures
        forall|i: int|
            0 <= i < width * height ==> #[trigger] column_major_pixel_value(tiles, width, height, i) == pixels[i],
{
    assert forall|i: int| 0 <= i < width * height implies #[trigger] column_major_pixel_value(
        tiles,
        width,
        height,
        i,
    ) == pixels[i] by {
        let th = height / 8;
        let y = i / width;
        let x = i % width;
        crate::grid::lemma_split_index(i, width, height);
        assert(th > 0 && th * 8 == height);
        let tile = (x / 8) * th + y / 8;
        let within = (y % 8) * 4 + (x % 8) / 2;
        let b = column_major_byte_of_pixel(width, height, i);
        assert(b == tile * 32 + within);
        assert(0 <= within < 32);
        assert(0 <= y / 8 < th) by {
            assert(y < height);
        }
        crate::grid::lemma_row_col(tile, within, 32);
        assert(b / 32 == tile && b % 32 == within) by {
            assert(tile * 32 == 32 * tile) by (nonlinear_arith);
        }
        crate::grid::lemma_row_col(x / 8, y / 8, th);
        assert(within % 4 == (x % 8) / 2 && within / 4 == y % 8);
        let px = (tile / th) * 8 + (within % 4) * 2;
        let py = (tile % th) * 8 + within / 4;
        assert(py == y);
        assert(px == x - x % 2);
        assert(column_major_pixel(width, height, b) == y * width + x - x % 2);
        assert(0 <= b < tiles.len()) by {
            assert(x / 8 < width / 8);
            assert(tile < (width / 8) * th) by (nonlinear_arith)
                requires
                    tile == (x / 8) * th + y / 8,
                    x / 8 < width / 8,
                    y / 8 < th,
                    0 <= x / 8,
                    0 <= y / 8,
            ;
            assert((width / 8) * th * 32 == width * height / 2) by (nonlinear_arith)
                requires
                    th * 8 == height,
                    width % 8 == 0,
                    width > 0,
            ;
            assert(b < tile * 32 + 32);
            assert(tile * 32 + 32 <= (width / 8) * th * 32) by (nonlinear_arith)
                requires
                    tile < (width / 8) * th,
            ;
        }
        let l = y * width + x - x % 2;
        assert(0 <= l && l + 1 < width * height) by {
            assert(x - x % 2 + 1 < width) by {
                assert(width % 2 == 0);
            }
            crate::grid::lemma_index_bound(y, x - x % 2 + 1, width, height);
        }
        assert(pixels[l] < 16 && pixels[l + 1] < 16);
        assert(nibble(pack_nibbles(pixels[l], pixels[l + 1]), true) == pixels[l]);
        assert(nibble(pack_nibbles(pixels[l], pixels[l + 1]), false) == pixels[l + 1]);
    }
}

} // verus!

//! Glyph placement shared by the effect compilers: native 16x16 text lines,
//! outlined glyph cells and compact 8x16 lettering.
//!
//! Glyph bitmaps come from the repository font and are handed in as plain
//! coverage or core-pixel maps.

use vstd::prelude::*;
use crate::hex::Error;

verus! {

/// Side of a native glyph cell.
pub const NATIVE_GLYPH_SIZE: usize = 16;

/// Literal white that proof sheets use for the ending-credit ink role.
pub const CREDIT_PREVIEW_INK: [u8; 4] = [255, 255, 255, 255];

/// Unicode `White_Space`, as `char::is_whitespace` defines it.
pub open spec fn spec_is_whitespace(c: char) -> bool {
    ('\u{9}' <= c && c <= '\u{d}') || c == ' ' || c == '\u{85}' || c == '\u{a0}' || c == '\u{1680}'
        || ('\u{2000}' <= c && c <= '\u{200a}') || c == '\u{2028}' || c == '\u{2029}' || c
        == '\u{202f}' || c == '\u{205f}' || c == '\u{3000}'
}

/// `char::is_whitespace`.
pub fn is_whitespace(c: char) -> (white: bool)
    ensures
        white == spec_is_whitespace(c),
{
    ('\u{9}' <= c && c <= '\u{d}') || c == ' ' || c == '\u{85}' || c == '\u{a0}' || c == '\u{1680}'
        || ('\u{2000}' <= c && c <= '\u{200a}') || c == '\u{2028}' || c == '\u{2029}' || c
        == '\u{202f}' || c == '\u{205f}' || c == '\u{3000}'
}

/// Advance of one character: whitespace takes `space_width`, any other
/// character a full native cell.
pub open spec fn advance(c: char, space_width: int) -> int {
    if spec_is_whitespace(c) { space_width } else { 16 }
}

/// Horizontal budget of a line of native glyphs.
pub open spec fn text_width(chars: Seq<char>, space_width: int) -> int
    decreases chars.len(),
{
    if chars.len() == 0 {
        0
    } else {
        text_width(chars.drop_last(), space_width) + advance(chars.last(), space_width)
    }
}

proof fn lemma_text_width_prefix(chars: Seq<char>, space_width: int, k: int)
    requires
        0 <= space_width,
        0 <= k <= chars.len(),
    ensures
        0 <= text_width(chars.take(k), space_width) <= k * (space_width + 16),
    decreases k,
{
    if k > 0 {
        lemma_text_width_prefix(chars, space_width, k - 1);
        assert(chars.take(k).drop_last() =~= chars.take(k - 1));
        assert(k * (space_width + 16) == (k - 1) * (space_width + 16) + space_width + 16)
            by (nonlinear_arith);
    }
}

/// The exact horizontal budget of an unscaled native-font line: every visible
/// glyph keeps its 16-pixel cell and whitespace takes `space_width`.
pub fn native_text_width(text: &str, space_width: usize) -> (width: usize)
    requires
        text@.len() * (space_width + 16) <= usize::MAX,
    ensures
        width as int == text_width(text@, space_width as int),
{
    let n = text.unicode_len();
    let mut width: usize = 0;
    let mut i: usize = 0;
    while i < n
        invariant
            n == text@.len(),
            n * (space_width + 16) <= usize::MAX,
            i <= n,
            width as int == text_width(text@.take(i as int), space_width as int),
        decreases n - i,
    {
        proof {
            lemma_text_width_prefix(text@, space_width as int, i + 1);
            assert(text@.take(i + 1).drop_last() =~= text@.take(i as int));
            assert((i + 1) * (space_width + 16) <= n * (space_width + 16)) by (nonlinear_arith)
                requires
                    i + 1 <= n,
            ;
        }
        let c = text.get_char(i);
        if is_whitespace(c) {
            width = width + space_width;
        } else {
            width = width + NATIVE_GLYPH_SIZE;
        }
        i = i + 1;
    }
    assert(text@.take(n as int) =~= text@);
    width
}

/// First source column of compact column `tx` when `width` source columns are
/// reduced to eight.
pub open spec fn compact_start(tx: int, width: int) -> int {
    tx * width / 8
}

/// One past the last source column of compact column `tx` (rounded up).
pub open spec fn compact_end(tx: int, width: int) -> int {
    ((tx + 1) * width + 7) / 8
}

/// Some coverage value of row `y` in `[start, end)` exceeds the threshold.
pub open spec fn row_run_inked(coverage: Seq<u8>, width: int, y: int, start: int, end: int, threshold: u8) -> bool {
    exists|k: int| start <= k < end && #[trigger] coverage[y * width + k] > threshold
}

/// Compact cell pixel (`x`, `y`) is inked: rows are centred vertically; a
/// narrow glyph is centred horizontally, a wide one is reduced by coverage.
pub open spec fn compact_inked(coverage: Seq<u8>, width: int, height: int, threshold: u8, x: int, y: int) -> bool {
    let origin_y = (16 - height) / 2;
    let row = y - origin_y;
    &&& 0 <= row < height
    &&& if width <= 8 {
        let origin_x = (8 - width) / 2;
        let col = x - origin_x;
        0 <= col < width && coverage[row * width + col] > threshold
    } else {
        row_run_inked(coverage, width, row, compact_start(x, width), compact_end(x, width), threshold)
    }
}

/// Cell pixel `i` (row-major, eight per row) is inked.
pub open spec fn compact_index_inked(coverage: Seq<u8>, width: int, height: int, threshold: u8, i: int) -> bool {
    compact_inked(coverage, width, height, threshold, i % 8, i / 8)
}

pub open spec fn compact_pixel(coverage: Seq<u8>, width: int, height: int, threshold: u8, background: u8, ink: u8, i: int) -> u8 {
    if compact_inked(coverage, width, height, threshold, i % 8, i / 8) { ink } else { background }
}

pub open spec fn compact_roles_ok(background: u8, ink: u8) -> bool {
    background < 16 && ink < 16 && background != ink
}

pub open spec fn compact_size_ok(width: int, height: int) -> bool {
    0 < width <= 16 && 0 < height <= 16
}

fn run_inked(coverage: &[u8], width: usize, y: usize, start: usize, end: usize, threshold: u8) -> (inked: bool)
    requires
        start <= end <= width,
        (y + 1) * width <= coverage.len(),
    ensures
        inked == row_run_inked(coverage@, width as int, y as int, start as int, end as int, threshold),
{
    let mut k = start;
    while k < end
        invariant
            start <= k <= end <= width,
            (y + 1) * width <= coverage.len(),
            forall|j: int| start <= j < k ==> !(#[trigger] coverage@[y * width + j] > threshold),
        decreases end - k,
    {
        assert(y * width + k < (y + 1) * width) by (nonlinear_arith)
            requires
                k < width,
        ;
        if coverage[y * width + k] > threshold {
            return true;
        }
        k = k + 1;
    }
    false
}

/// Reduce a rasterised glyph (`width` x `height` coverage bytes) into the
/// one-column 8x16 cell: centred rows, narrow glyphs centred, wide glyphs
/// reduced by coverage, so that no rectangular background is introduced.
pub fn render_compact_8x16_glyph(
    width: usize,
    height: usize,
    coverage: &[u8],
    coverage_threshold: u8,
    background_index: u8,
    ink_index: u8,
) -> (glyph: Result<Vec<u8>, Error>)
    requires
        coverage@.len() == width * height,
    ensures
        glyph is Ok <==> (compact_roles_ok(background_index, ink_index) && compact_size_ok(
            width as int,
            height as int,
        ) && exists|i: int|
            0 <= i < 128 && #[trigger] compact_index_inked(
                coverage@,
                width as int,
                height as int,
                coverage_threshold,
                i,
            )),
        glyph matches Ok(g) ==> g@.len() == 128 && forall|i: int|
            0 <= i < 128 ==> #[trigger] g@[i] == compact_pixel(
                coverage@,
                width as int,
                height as int,
                coverage_threshold,
                background_index,
                ink_index,
                i,
            ),
{
    if background_index >= 16 || ink_index >= 16 || background_index == ink_index {
        return Err("compact glyph uses invalid palette roles");
    }
    if width == 0 || height == 0 || width > 16 || height > 16 {
        return Err("compact glyph is outside its reducible 16x16 source cell");
    }
    let origin_y = (16 - height) / 2;
    assert(width * height <= 256) by (nonlinear_arith)
        requires
            width <= 16,
            height <= 16,
    ;
    let mut surface: Vec<u8> = Vec::with_capacity(128);
    let mut any_ink = false;
    let mut i: usize = 0;
    while i < 128
        invariant
            compact_roles_ok(background_index, ink_index),
            compact_size_ok(width as int, height as int),
            coverage@.len() == width * height,
            width * height <= 256,
            origin_y == (16 - height) / 2,
            i <= 128,
            surface@.len() == i,
            any_ink == exists|j: int|
                0 <= j < i && #[trigger] compact_index_inked(
                    coverage@,
                    width as int,
                    height as int,
                    coverage_threshold,
                    j,
                ),
            forall|j: int|
                0 <= j < i ==> #[trigger] surface@[j] == compact_pixel(
                    coverage@,
                    width as int,
                    height as int,
                    coverage_threshold,
                    background_index,
                    ink_index,
                    j,
                ),
        decreases 128 - i,
    {
        let x = i % 8;
        let y = i / 8;
        let mut inked = false;
        if y >= origin_y && y - origin_y < height {
            let row = y - origin_y;
            assert((row + 1) * width <= width * height) by (nonlinear_arith)
                requires
                    row < height,
            ;
            if width <= 8 {
                let origin_x = (8 - width) / 2;
                if x >= origin_x && x - origin_x < width {
                    assert(row * width <= 256) by (nonlinear_arith)
                        requires
                            row < height,
                            width * height <= 256,
                    ;
                    assert(row * width + (x - origin_x) < width * height) by (nonlinear_arith)
                        requires
                            row < height,
                            x - origin_x < width,
                    ;
                    inked = coverage[row * width + (x - origin_x)] > coverage_threshold;
                }
            } else {
                assert(x * width <= 128 && (x + 1) * width + 7 <= 256) by (nonlinear_arith)
                    requires
                        x < 8,
                        width <= 16,
                ;
                let start = x * width / 8;
                let end = ((x + 1) * width + 7) / 8;
                assert(start <= end <= width) by (nonlinear_arith)
                    requires
                        x < 8,
                        width <= 16,
                        start == x * width / 8,
                        end == ((x + 1) * width + 7) / 8,
                ;
                inked = run_inked(coverage, width, row, start, end, coverage_threshold);
            }
        }
        assert(inked == compact_inked(coverage@, width as int, height as int, coverage_threshold, (i % 8) as int, (i / 8) as int));
        assert(inked == compact_index_inked(coverage@, width as int, height as int, coverage_threshold, i as int));
        if inked {
            surface.push(ink_index);
            any_ink = true;
        } else {
            surface.push(background_index);
        }
        i = i + 1;
    }
    if !any_ink {
        return Err("compact glyph rendered blank");
    }
    Ok(surface)
}

/// `surface` after copying the 16x16 `glyph` to (`x`, `y`).
pub open spec fn blitted(before: Seq<u8>, width: int, x: int, y: int, glyph: Seq<u8>, i: int) -> u8 {
    let row = i / width;
    let col = i % width;
    if y <= row < y + 16 && x <= col < x + 16 {
        glyph[(row - y) * 16 + (col - x)]
    } else {
        before[i]
    }
}

/// Copy a 16x16 indexed glyph cell into a surface at (`x`, `y`).
pub fn blit_indexed_glyph(
    surface: &mut [u8],
    surface_width: usize,
    surface_height: usize,
    x: usize,
    y: usize,
    glyph: &[u8],
) -> (result: Result<(), Error>)
    requires
        glyph@.len() == 256,
        surface_width * surface_height <= usize::MAX,
        x + 16 <= usize::MAX,
        y + 16 <= usize::MAX,
    ensures
        result is Ok <==> (old(surface)@.len() == surface_width * surface_height && x + 16
            <= surface_width && y + 16 <= surface_height),
        result is Err ==> final(surface)@ == old(surface)@,
        result is Ok ==> final(surface)@.len() == old(surface)@.len() && forall|i: int|
            0 <= i < old(surface)@.len() ==> #[trigger] final(surface)@[i] == blitted(
                old(surface)@,
                surface_width as int,
                x as int,
                y as int,
                glyph@,
                i,
            ),
{
    if surface.len() != surface_width * surface_height || x + 16 > surface_width || y + 16
        > surface_height {
        return Err("indexed glyph destination is outside its surface");
    }
    let ghost before = surface@;
    let mut gy: usize = 0;
    while gy < 16
        invariant
            surface@.len() == before.len(),
            before.len() == surface_width * surface_height,
            surface_width * surface_height <= usize::MAX,
            x + 16 <= surface_width,
            y + 16 <= surface_height,
            glyph@.len() == 256,
            gy <= 16,
            forall|i: int|
                0 <= i < before.len() ==> #[trigger] surface@[i] == (if i / (surface_width as int) < y + gy {
                    blitted(before, surface_width as int, x as int, y as int, glyph@, i)
                } else {
                    before[i]
                }),
        decreases 16 - gy,
    {
        let mut gx: usize = 0;
        while gx < 16
            invariant
                surface@.len() == before.len(),
                before.len() == surface_width * surface_height,
                surface_width * surface_height <= usize::MAX,
                x + 16 <= surface_width,
                y + 16 <= surface_height,
                glyph@.len() == 256,
                gy < 16,
                gx <= 16,
                forall|i: int|
                    0 <= i < before.len() ==> #[trigger] surface@[i] == (if i / (surface_width as int) < y + gy
                        || (i / (surface_width as int) == y + gy && x <= i % (surface_width as int) < x + gx) {
                        blitted(before, surface_width as int, x as int, y as int, glyph@, i)
                    } else {
                        before[i]
                    }),
            decreases 16 - gx,
        {
            proof {
                crate::grid::lemma_index_bound((y + gy) as int, (x + gx) as int, surface_width as int, surface_height as int);
                crate::grid::lemma_row_col((y + gy) as int, (x + gx) as int, surface_width as int);
            }
            let destination = (y + gy) * surface_width + x + gx;
            surface[destination] = glyph[gy * 16 + gx];
            proof {
                assert forall|i: int| 0 <= i < before.len() implies #[trigger] surface@[i] == (if i / (surface_width as int) < y + gy
                        || (i / (surface_width as int) == y + gy && x <= i % (surface_width as int) < x + gx + 1) {
                        blitted(before, surface_width as int, x as int, y as int, glyph@, i)
                    } else {
                        before[i]
                    }) by {
                    if i == destination as int {
                    } else {
                        crate::grid::lemma_split_index(i, surface_width as int, surface_height as int);
                        if i / (surface_width as int) == y + gy && i % (surface_width as int) == x + gx {
                            assert(i == (y + gy) * surface_width + x + gx);
                        }
                    }
                }
            }
            gx = gx + 1;
        }
        proof {
            assert forall|i: int| 0 <= i < before.len() implies #[trigger] surface@[i] == (if i / (surface_width as int) < y + gy + 1 {
                    blitted(before, surface_width as int, x as int, y as int, glyph@, i)
                } else {
                    before[i]
                }) by {
                crate::grid::lemma_split_index(i, surface_width as int, surface_height as int);
            }
        }
        gy = gy + 1;
    }
    proof {
        assert forall|i: int| 0 <= i < before.len() implies #[trigger] surface@[i] == blitted(before, surface_width as int, x as int, y as int, glyph@, i) by {
            crate::grid::lemma_split_index(i, surface_width as int, surface_height as int);
        }
    }
    Ok(())
}

/// Some core pixel lies within Chebyshev distance `d` of (`x`, `y`).
pub open spec fn core_within(core: Seq<bool>, width: int, height: int, x: int, y: int, d: int) -> bool {
    exists|cx: int, cy: int|
        0 <= cx < width && 0 <= cy < height && x - d <= cx <= x + d && y - d <= cy <= y + d
            && #[trigger] core[cy * width + cx]
}

fn core_within_exec(core: &[bool], width: usize, height: usize, x: usize, y: usize, d: usize) -> (found: bool)
    requires
        core@.len() == width * height,
        width * height <= usize::MAX,
        x < width,
        y < height,
        d <= 16,
        width + 16 <= usize::MAX,
        height + 16 <= usize::MAX,
    ensures
        found == core_within(core@, width as int, height as int, x as int, y as int, d as int),
{
    let low_y = if y >= d { y - d } else { 0 };
    let high_y = if y + d < height { y + d } else { height - 1 };
    let low_x = if x >= d { x - d } else { 0 };
    let high_x = if x + d < width { x + d } else { width - 1 };
    let mut cy = low_y;
    while cy <= high_y
        invariant
            core@.len() == width * height,
            width * height <= usize::MAX,
            low_y <= cy <= high_y + 1,
            high_y < height,
            high_x < width,
            low_x <= x <= high_x,
            x <= low_x + d,
            high_x <= x + d,
            y <= low_y + d,
            high_y <= y + d,
            forall|px: int, py: int|
                low_y <= py < cy && low_x <= px <= high_x ==> !#[trigger] core@[py * width + px],
        decreases high_y + 1 - cy,
    {
        let mut cx = low_x;
        while cx <= high_x
            invariant
                core@.len() == width * height,
                width * height <= usize::MAX,
                low_y <= cy <= high_y,
                high_y < height,
                high_x < width,
                low_x <= x <= high_x,
                x <= low_x + d,
                high_x <= x + d,
                y <= low_y + d,
                high_y <= y + d,
                low_x <= cx <= high_x + 1,
                forall|px: int, py: int|
                    low_y <= py < cy && low_x <= px <= high_x ==> !#[trigger] core@[py * width + px],
                forall|px: int| low_x <= px < cx ==> !#[trigger] core@[cy * width + px],
            decreases high_x + 1 - cx,
        {
            proof {
                crate::grid::lemma_index_bound(cy as int, cx as int, width as int, height as int);
            }
            if core[cy * width + cx] {
                assert(core@[cy * width + cx]);
                assert(x - d <= cx <= x + d && y - d <= cy <= y + d);
                assert(core_within(core@, width as int, height as int, x as int, y as int, d as int));
                return true;
            }
            cx = cx + 1;
        }
        cy = cy + 1;
    }
    proof {
        if core_within(core@, width as int, height as int, x as int, y as int, d as int) {
            let (px, py) = choose|cx: int, cy: int|
                0 <= cx < width && 0 <= cy < height && x - d <= cx <= x + d && y - d <= cy <= y
                    + d && #[trigger] core@[cy * width + cx];
            assert(!core@[py * width + px]);
        }
    }
    false
}

/// Smallest Chebyshev distance, up to `max_distance`, from (`x`, `y`) to a
/// core pixel.
pub fn nearest_core_distance(
    core: &[bool],
    width: usize,
    height: usize,
    x: usize,
    y: usize,
    max_distance: usize,
) -> (distance: Option<usize>)
    requires
        core@.len() == width * height,
        width * height <= usize::MAX,
        x < width,
        y < height,
        max_distance <= 16,
        width + 16 <= usize::MAX,
        height + 16 <= usize::MAX,
    ensures
        distance is None <==> !core_within(core@, width as int, height as int, x as int, y as int, max_distance as int),
        distance matches Some(d) ==> d <= max_distance && core_within(
            core@,
            width as int,
            height as int,
            x as int,
            y as int,
            d as int,
        ) && forall|e: int| 0 <= e < d ==> !core_within(core@, width as int, height as int, x as int, y as int, e),
{
    let mut d: usize = 0;
    while d <= max_distance
        invariant
            core@.len() == width * height,
            width * height <= usize::MAX,
            x < width,
            y < height,
            max_distance <= 16,
            width + 16 <= usize::MAX,
            height + 16 <= usize::MAX,
            d <= max_distance + 1,
            forall|e: int| 0 <= e < d ==> !core_within(core@, width as int, height as int, x as int, y as int, e),
        decreases max_distance + 1 - d,
    {
        if core_within_exec(core, width, height, x, y, d) {
            return Some(d);
        }
        d = d + 1;
    }
    None
}

/// Role of surface pixel (`x`, `y`) when a core bitmap is drawn with an inner
/// and an outer outline ring.
pub open spec fn outline_role(
    core: Seq<bool>,
    width: int,
    height: int,
    x: int,
    y: int,
    transparent: u8,
    core_index: u8,
    inner_index: u8,
    outer_index: u8,
) -> u8 {
    if core[y * width + x] {
        core_index
    } else if core_within(core, width, height, x, y, 1) {
        inner_index
    } else if core_within(core, width, height, x, y, 2) {
        outer_index
    } else {
        transparent
    }
}

/// Role of a surface pixel given the nearest-core distance found for it.
pub fn outline_role_of(
    core: &[bool],
    width: usize,
    height: usize,
    x: usize,
    y: usize,
    transparent: u8,
    core_index: u8,
    inner_index: u8,
    outer_index: u8,
) -> (role: u8)
    requires
        core@.len() == width * height,
        width * height <= usize::MAX,
        x < width,
        y < height,
        width + 16 <= usize::MAX,
        height + 16 <= usize::MAX,
    ensures
        role == outline_role(core@, width as int, height as int, x as int, y as int, transparent, core_index, inner_index, outer_index),
{
    proof {
        crate::grid::lemma_index_bound(y as int, x as int, width as int, height as int);
    }
    if core[y * width + x] {
        core_index
    } else {
        proof {
            if core_within(core@, width as int, height as int, x as int, y as int, 0) {
                let (px, py) = choose|cx: int, cy: int|
                    0 <= cx < width && 0 <= cy < height && x <= cx <= x && y <= cy <= y
                        && #[trigger] core@[cy * width + cx];
                assert(px == x && py == y);
            }
        }
        match nearest_core_distance(core, width, height, x, y, 2) {
            Some(1) => inner_index,
            Some(2) => outer_index,
            _ => transparent,
        }
    }
}

/// Render one 16x16 glyph core with clipped inner and outer outlines; each
/// glyph keeps to its own cell so that letters can move as separate sprites.
pub fn render_indexed_glyph(
    core: &[bool],
    transparent: u8,
    core_index: u8,
    inner_outline_index: u8,
    outer_outline_index: u8,
) -> (glyph: Vec<u8>)
    requires
        core@.len() == 256,
    ensures
        glyph@.len() == 256,
        forall|i: int|
            0 <= i < 256 ==> #[trigger] glyph@[i] == outline_role(
                core@,
                16,
                16,
                i % 16,
                i / 16,
                transparent,
                core_index,
                inner_outline_index,
                outer_outline_index,
            ),
{
    let mut output: Vec<u8> = Vec::with_capacity(256);
    let mut i: usize = 0;
    while i < 256
        invariant
            core@.len() == 256,
            i <= 256,
            output@.len() == i,
            forall|j: int|
                0 <= j < i ==> #[trigger] output@[j] == outline_role(
                    core@,
                    16,
                    16,
                    j % 16,
                    j / 16,
                    transparent,
                    core_index,
                    inner_outline_index,
                    outer_outline_index,
                ),
        decreases 256 - i,
    {
        let role = outline_role_of(
            core,
            16,
            16,
            i % 16,
            i / 16,
            transparent,
            core_index,
            inner_outline_index,
            outer_outline_index,
        );
        output.push(role);
        i = i + 1;
    }
    output
}

/// A glyph of the repository font rasterised at its compact size: a
/// `width` x `height` map of coverage bytes, row-major.
pub struct CompactGlyph {
    pub character: char,
    pub width: usize,
    pub height: usize,
    pub coverage: Vec<u8>,
}

/// The rasterised glyph fits its cell and leaves ink in the 8x16 reduction.
pub open spec fn compact_glyph_renders(g: CompactGlyph, threshold: u8) -> bool {
    &&& compact_size_ok(g.width as int, g.height as int)
    &&& exists|i: int|
        0 <= i < 128 && #[trigger] compact_index_inked(g.coverage@, g.width as int, g.height as int, threshold, i)
}

/// A native 16x16 glyph of the repository font: its core pixels, row-major.
pub struct NativeGlyph {
    pub character: char,
    pub core: Vec<bool>,
}

/// Position of the first glyph for `c` at or after `from` (`len` when none).
pub open spec fn glyph_position(glyphs: Seq<NativeGlyph>, c: char, from: int) -> int
    decreases glyphs.len() - from,
{
    if from < 0 || from >= glyphs.len() {
        glyphs.len() as int
    } else if glyphs[from].character == c {
        from
    } else {
        glyph_position(glyphs, c, from + 1)
    }
}

/// Core pixels of the glyph for `c`.
pub open spec fn glyph_core(glyphs: Seq<NativeGlyph>, c: char) -> Seq<bool> {
    glyphs[glyph_position(glyphs, c, 0)].core@
}

/// Every visible character of `text` has a 16x16 glyph.
pub open spec fn glyphs_cover(glyphs: Seq<NativeGlyph>, text: Seq<char>) -> bool {
    forall|k: int|
        0 <= k < text.len() && !spec_is_whitespace(#[trigger] text[k]) ==> glyph_position(
            glyphs,
            text[k],
            0,
        ) < glyphs.len() && glyph_core(glyphs, text[k]).len() == 256
}

/// A glyph with at least one core pixel.
pub open spec fn glyph_nonblank(core: Seq<bool>) -> bool {
    exists|g: int| 0 <= g < 256 && #[trigger] core[g]
}

proof fn lemma_glyph_position(glyphs: Seq<NativeGlyph>, c: char, from: int)
    requires
        0 <= from <= glyphs.len(),
    ensures
        from <= glyph_position(glyphs, c, from) <= glyphs.len(),
        glyph_position(glyphs, c, from) < glyphs.len() ==> glyphs[glyph_position(glyphs, c, from)].character == c,
    decreases glyphs.len() - from,
{
    if from < glyphs.len() && glyphs[from].character != c {
        lemma_glyph_position(glyphs, c, from + 1);
    }
}

/// Index of the glyph for `c`.
pub fn find_glyph(glyphs: &[NativeGlyph], c: char) -> (position: Option<usize>)
    ensures
        position is Some <==> glyph_position(glyphs@, c, 0) < glyphs@.len(),
        position matches Some(p) ==> p == glyph_position(glyphs@, c, 0),
{
    proof {
        lemma_glyph_position(glyphs@, c, 0);
    }
    let mut i: usize = 0;
    while i < glyphs.len()
        invariant
            i <= glyphs@.len(),
            glyph_position(glyphs@, c, 0) == glyph_position(glyphs@, c, i as int),
        decreases glyphs@.len() - i,
    {
        if glyphs[i].character == c {
            return Some(i);
        }
        i = i + 1;
    }
    None
}

/// Whether every visible character of `text` has a 16x16 glyph.
pub fn covers_text(glyphs: &[NativeGlyph], text: &str) -> (covered: bool)
    ensures
        covered == glyphs_cover(glyphs@, text@),
{
    let n = text.unicode_len();
    let mut k: usize = 0;
    while k < n
        invariant
            n == text@.len(),
            k <= n,
            forall|j: int|
                0 <= j < k && !spec_is_whitespace(#[trigger] text@[j]) ==> glyph_position(glyphs@, text@[j], 0)
                    < glyphs@.len() && glyph_core(glyphs@, text@[j]).len() == 256,
        decreases n - k,
    {
        let c = text.get_char(k);
        if !is_whitespace(c) {
            match find_glyph(glyphs, c) {
                Some(p) => {
                    if glyphs[p].core.len() != 256 {
                        return false;
                    }
                },
                None => {
                    return false;
                },
            }
        }
        k = k + 1;
    }
    true
}

/// Pixel `i` of a native text line after its first `k` characters are drawn;
/// `start` is the left edge of the centred line.
pub open spec fn line_pixel(
    glyphs: Seq<NativeGlyph>,
    text: Seq<char>,
    width: int,
    start: int,
    space_width: int,
    background: u8,
    ink: u8,
    k: int,
    i: int,
) -> u8
    decreases k,
{
    if k <= 0 {
        background
    } else {
        let c = text[k - 1];
        let cursor = start + text_width(text.take(k - 1), space_width);
        let col = i % width;
        let row = i / width;
        if !spec_is_whitespace(c) && cursor <= col < cursor + 16 && glyph_core(glyphs, c)[row * 16
            + col - cursor] {
            ink
        } else {
            line_pixel(glyphs, text, width, start, space_width, background, ink, k - 1, i)
        }
    }
}

pub open spec fn native_layout_ok(surface_width: int, space_width: int, background: u8, ink: u8) -> bool {
    surface_width > 0 && space_width > 0 && space_width <= 16 && background < 16 && ink < 16
        && background != ink
}

/// Every visible character of the line has a non-blank glyph.
pub open spec fn line_glyphs_visible(glyphs: Seq<NativeGlyph>, text: Seq<char>) -> bool {
    forall|k: int|
        0 <= k < text.len() && !spec_is_whitespace(#[trigger] text[k]) ==> glyph_nonblank(
            glyph_core(glyphs, text[k]),
        )
}

/// Render a centred, unscaled native-font line into a `surface_width` x 16
/// surface of `background_index`, drawing glyph cores with `ink_index`.
pub fn render_native_text_line(
    glyphs: &[NativeGlyph],
    text: &str,
    surface_width: usize,
    space_width: usize,
    background_index: u8,
    ink_index: u8,
) -> (surface: Result<Vec<u8>, Error>)
    requires
        glyphs_cover(glyphs@, text@),
        text@.len() * (space_width + 16) <= usize::MAX,
        surface_width * 16 <= usize::MAX,
    ensures
        surface is Ok <==> (native_layout_ok(
            surface_width as int,
            space_width as int,
            background_index,
            ink_index,
        ) && text_width(text@, space_width as int) <= surface_width && line_glyphs_visible(
            glyphs@,
            text@,
        )),
        surface matches Ok(s) ==> s@.len() == surface_width * 16 && forall|i: int|
            0 <= i < s@.len() ==> #[trigger] s@[i] == line_pixel(
                glyphs@,
                text@,
                surface_width as int,
                (surface_width - text_width(text@, space_width as int)) / 2,
                space_width as int,
                background_index,
                ink_index,
                text@.len() as int,
                i,
            ),
{
    if surface_width == 0 || space_width == 0 || space_width > NATIVE_GLYPH_SIZE
        || background_index >= 16 || ink_index >= 16 || background_index == ink_index {
        return Err("text line uses an invalid native-text layout");
    }
    let total = native_text_width(text, space_width);
    if total > surface_width {
        return Err("text line is wider than its surface at native 16x16 width");
    }
    let ghost start = (surface_width - total) / 2;
    let ghost chars = text@;
    let area = surface_width * NATIVE_GLYPH_SIZE;
    let mut surface: Vec<u8> = vec![background_index; area];
    let mut cursor = (surface_width - total) / 2;
    let n = text.unicode_len();
    let mut k: usize = 0;
    while k < n
        invariant
            n == chars.len(),
            chars == text@,
            glyphs_cover(glyphs@, chars),
            native_layout_ok(surface_width as int, space_width as int, background_index, ink_index),
            n * (space_width + 16) <= usize::MAX,
            area == surface_width * 16,
            area <= usize::MAX,
            total == text_width(chars, space_width as int),
            total <= surface_width,
            start == (surface_width - total) / 2,
            k <= n,
            cursor == start + text_width(chars.take(k as int), space_width as int),
            surface@.len() == area,
            forall|j: int| 0 <= j < k && !spec_is_whitespace(#[trigger] chars[j]) ==> glyph_nonblank(glyph_core(glyphs@, chars[j])),
            forall|i: int|
                0 <= i < area ==> #[trigger] surface@[i] == line_pixel(
                    glyphs@,
                    chars,
                    surface_width as int,
                    start,
                    space_width as int,
                    background_index,
                    ink_index,
                    k as int,
                    i,
                ),
        decreases n - k,
    {
        proof {
            lemma_text_width_prefix(chars, space_width as int, k + 1);
            assert(chars.take(k + 1).drop_last() =~= chars.take(k as int));
            lemma_text_width_prefix_le(chars, space_width as int, k + 1);
        }
        let c = text.get_char(k);
        if is_whitespace(c) {
            cursor = cursor + space_width;
            assert forall|i: int| 0 <= i < area implies #[trigger] surface@[i] == line_pixel(
                glyphs@,
                chars,
                surface_width as int,
                start,
                space_width as int,
                background_index,
                ink_index,
                k + 1,
                i,
            ) by {}
        } else {
            let position = find_glyph(glyphs, c).unwrap();
            let core = &glyphs[position].core;
            assert(core@ == glyph_core(glyphs@, c));
            let mut rendered = false;
            let mut g: usize = 0;
            while g < 256
                invariant
                    core@.len() == 256,
                    core@ == glyph_core(glyphs@, c),
                    c == chars[k as int],
                    !spec_is_whitespace(c),
                    area == surface_width * 16,
                    area <= usize::MAX,
                    surface@.len() == area,
                    cursor + 16 <= surface_width,
                    cursor == start + text_width(chars.take(k as int), space_width as int),
                    g <= 256,
                    rendered == exists|h: int| 0 <= h < g && #[trigger] core@[h],
                    forall|i: int|
                        0 <= i < area ==> #[trigger] surface@[i] == (if cursor <= i % (surface_width as int) < cursor + 16
                            && (i / (surface_width as int)) * 16 + i % (surface_width as int) - cursor < g
                            && core@[(i / (surface_width as int)) * 16 + i % (surface_width as int) - cursor] {
                            ink_index
                        } else {
                            line_pixel(
                                glyphs@,
                                chars,
                                surface_width as int,
                                start,
                                space_width as int,
                                background_index,
                                ink_index,
                                k as int,
                                i,
                            )
                        }),
                decreases 256 - g,
            {
                let gy = g / 16;
                let gx = g % 16;
                if core[g] {
                    proof {
                        crate::grid::lemma_index_bound(gy as int, (cursor + gx) as int, surface_width as int, 16);
                        crate::grid::lemma_row_col(gy as int, (cursor + gx) as int, surface_width as int);
                    }
                    let destination = gy * surface_width + cursor + gx;
                    surface[destination] = ink_index;
                    rendered = true;
                }
                proof {
                    assert forall|i: int| 0 <= i < area implies #[trigger] surface@[i] == (if cursor <= i % (surface_width as int) < cursor + 16
                            && (i / (surface_width as int)) * 16 + i % (surface_width as int) - cursor < g + 1
                            && core@[(i / (surface_width as int)) * 16 + i % (surface_width as int) - cursor] {
                            ink_index
                        } else {
                            line_pixel(
                                glyphs@,
                                chars,
                                surface_width as int,
                                start,
                                space_width as int,
                                background_index,
                                ink_index,
                                k as int,
                                i,
                            )
                        }) by {
                        crate::grid::lemma_split_index(i, surface_width as int, 16);
                        let row = i / (surface_width as int);
                        let col = i % (surface_width as int);
                        if cursor <= col < cursor + 16 && row * 16 + col - cursor == g {
                            assert(row == gy && col == cursor + gx);
                            assert(i == gy * surface_width + cursor + gx);
                        }
                    }
                }
                g = g + 1;
            }
            if !rendered {
                assert(!glyph_nonblank(glyph_core(glyphs@, chars[k as int])));
                return Err("glyph rendered blank in the verified repository font");
            }
            cursor = cursor + NATIVE_GLYPH_SIZE;
            assert forall|i: int| 0 <= i < area implies #[trigger] surface@[i] == line_pixel(
                glyphs@,
                chars,
                surface_width as int,
                start,
                space_width as int,
                background_index,
                ink_index,
                k + 1,
                i,
            ) by {
                crate::grid::lemma_split_index(i, surface_width as int, 16);
                assert(chars.take(k + 1 - 1) =~= chars.take(k as int));
                let row = i / (surface_width as int);
                let col = i % (surface_width as int);
                if cursor - 16 <= col < cursor {
                    assert(0 <= row * 16 + col - (cursor - 16) < 256) by (nonlinear_arith)
                        requires
                            0 <= row < 16,
                            0 <= col - (cursor - 16) < 16,
                    ;
                }
            }
        }
        k = k + 1;
    }
    proof {
        assert(chars.take(n as int) =~= chars);
        assert forall|j: int| 0 <= j < chars.len() && !spec_is_whitespace(#[trigger] chars[j]) implies glyph_nonblank(glyph_core(glyphs@, chars[j])) by {}
    }
    Ok(surface)
}

proof fn lemma_text_width_prefix_le(chars: Seq<char>, space_width: int, k: int)
    requires
        0 <= space_width,
        0 <= k <= chars.len(),
    ensures
        text_width(chars.take(k), space_width) <= text_width(chars, space_width),
    decreases chars.len() - k,
{
    if k < chars.len() {
        lemma_text_width_prefix_le(chars, space_width, k + 1);
        assert(chars.take(k + 1).drop_last() =~= chars.take(k));
    } else {
        assert(chars.take(k) =~= chars);
    }
}

} // verus!

//! Mega Drive palette words (`0000BBB0GGG0RRR0`) and palette matching.

use vstd::prelude::*;
use crate::hex::{Error, parse_u16_hex, spec_parse_hex, hex_fits};

verus! {

/// A 3-bit colour level scaled to the full 8-bit range.
pub open spec fn level_to_byte(level: int) -> int {
    level * 255 / 7
}

/// Red, green and blue levels of a palette word.
pub open spec fn red_level(word: u16) -> int {
    (word as int / 2) % 8
}

pub open spec fn green_level(word: u16) -> int {
    (word as int / 32) % 8
}

pub open spec fn blue_level(word: u16) -> int {
    (word as int / 512) % 8
}

/// RGB rendering of a palette word.
pub open spec fn spec_md_color(word: u16) -> Seq<u8> {
    seq![
        level_to_byte(red_level(word)) as u8,
        level_to_byte(green_level(word)) as u8,
        level_to_byte(blue_level(word)) as u8,
    ]
}

/// RGB rendering of a palette word: each 3-bit level is scaled to 0..=255.
pub fn md_color(word: u16) -> (color: [u8; 3])
    ensures
        color@ == spec_md_color(word),
{
    let red = ((word / 2) % 8) as u32;
    let green = ((word / 32) % 8) as u32;
    let blue = ((word / 512) % 8) as u32;
    let color = [(red * 255 / 7) as u8, (green * 255 / 7) as u8, (blue * 255 / 7) as u8];
    assert(color@ =~= spec_md_color(word));
    color
}

/// A palette word uses only the colour bits `0x0EEE`.
pub open spec fn is_palette_word(word: int) -> bool {
    0 <= word < 0x10000 && (word as u16) & 0xF111u16 == 0
}

/// The palette line declared by sixteen hexadecimal words.
pub open spec fn palette_declared(words: Seq<Seq<char>>) -> bool {
    &&& words.len() == 16
    &&& forall|i: int|
        0 <= i < 16 ==> hex_fits(#[trigger] words[i], u16::MAX as nat) && is_palette_word(
            spec_parse_hex(words[i]).unwrap() as int,
        )
}

/// Parse the sixteen hexadecimal words of a palette line.
pub fn parse_md_palette(words: &Vec<String>) -> (palette: Result<[u16; 16], Error>)
    ensures
        palette is Ok <==> palette_declared(words@.map_values(|w: String| w@)),
        palette matches Ok(p) ==> forall|i: int|
            0 <= i < 16 ==> #[trigger] p@[i] as nat == spec_parse_hex(words@[i]@).unwrap(),
{
    let ghost views = words@.map_values(|w: String| w@);
    if words.len() != 16 {
        return Err("palette line must declare sixteen words");
    }
    let mut palette = [0u16; 16];
    let mut i: usize = 0;
    while i < 16
        invariant
            words@.len() == 16,
            views == words@.map_values(|w: String| w@),
            i <= 16,
            forall|k: int|
                0 <= k < i ==> hex_fits(#[trigger] views[k], u16::MAX as nat) && is_palette_word(
                    spec_parse_hex(views[k]).unwrap() as int,
                ) && palette@[k] as nat == spec_parse_hex(views[k]).unwrap(),
        decreases 16 - i,
    {
        assert(views[i as int] == words@[i as int]@);
        let word = match parse_u16_hex(words[i].as_str()) {
            Ok(word) => word,
            Err(e) => {
                return Err(e);
            },
        };
        if word & 0xF111 != 0 {
            return Err("palette word uses bits outside the Mega Drive colour mask");
        }
        palette[i] = word;
        i = i + 1;
    }
    assert forall|k: int| 0 <= k < 16 implies #[trigger] palette@[k] as nat == spec_parse_hex(
        words@[k]@,
    ).unwrap() by {
        assert(views[k] == words@[k]@);
    }
    Ok(palette)
}

/// Squared RGB distance between a colour and a palette word.
pub open spec fn color_distance(color: Seq<u8>, word: u16) -> int {
    let c = spec_md_color(word);
    (color[0] - c[0]) * (color[0] - c[0]) + (color[1] - c[1]) * (color[1] - c[1]) + (color[2]
        - c[2]) * (color[2] - c[2])
}

fn distance(color: [u8; 3], word: u16) -> (d: u32)
    ensures
        d as int == color_distance(color@, word),
{
    let c = md_color(word);
    let dr = if color[0] >= c[0] { (color[0] - c[0]) as u32 } else { (c[0] - color[0]) as u32 };
    let dg = if color[1] >= c[1] { (color[1] - c[1]) as u32 } else { (c[1] - color[1]) as u32 };
    let db = if color[2] >= c[2] { (color[2] - c[2]) as u32 } else { (c[2] - color[2]) as u32 };
    assert(dr * dr <= 65025 && dg * dg <= 65025 && db * db <= 65025) by (nonlinear_arith)
        requires
            dr <= 255,
            dg <= 255,
            db <= 255,
    ;
    assert(dr * dr == (color@[0] - c@[0]) * (color@[0] - c@[0])) by (nonlinear_arith)
        requires
            dr == color@[0] - c@[0] || dr == c@[0] - color@[0],
    ;
    assert(dg * dg == (color@[1] - c@[1]) * (color@[1] - c@[1])) by (nonlinear_arith)
        requires
            dg == color@[1] - c@[1] || dg == c@[1] - color@[1],
    ;
    assert(db * db == (color@[2] - c@[2]) * (color@[2] - c@[2])) by (nonlinear_arith)
        requires
            db == color@[2] - c@[2] || db == c@[2] - color@[2],
    ;
    dr * dr + dg * dg + db * db
}

/// `index` is the first of the `allowed` palette entries nearest to `color`.
pub open spec fn is_nearest_allowed(
    color: Seq<u8>,
    palette: Seq<u16>,
    allowed: Seq<usize>,
    position: int,
) -> bool {
    &&& 0 <= position < allowed.len()
    &&& forall|m: int|
        0 <= m < allowed.len() ==> color_distance(color, palette[allowed[position] as int])
            <= color_distance(color, palette[#[trigger] allowed[m] as int])
    &&& forall|m: int|
        0 <= m < position ==> color_distance(color, palette[#[trigger] allowed[m] as int])
            > color_distance(color, palette[allowed[position] as int])
}

pub open spec fn allowed_indices_ok(allowed: Seq<usize>) -> bool {
    allowed.len() > 0 && forall|m: int| 0 <= m < allowed.len() ==> #[trigger] allowed[m] < 16
}

/// The allowed palette index nearest to an RGB colour; the earliest wins a tie.
pub fn nearest_palette_index(color: [u8; 3], palette: &[u16; 16], allowed: &[usize]) -> (index:
    Result<usize, Error>)
    ensures
        index is Ok <==> allowed_indices_ok(allowed@),
        index matches Ok(i) ==> exists|position: int|
            is_nearest_allowed(color@, palette@, allowed@, position) && allowed@[position] == i,
{
    if allowed.len() == 0 {
        return Err("no palette index is admitted");
    }
    let mut m: usize = 0;
    while m < allowed.len()
        invariant
            m <= allowed@.len(),
            forall|k: int| 0 <= k < m ==> #[trigger] allowed@[k] < 16,
        decreases allowed@.len() - m,
    {
        if allowed[m] >= 16 {
            return Err("admitted palette index is above 15");
        }
        m = m + 1;
    }
    let mut best: usize = 0;
    let mut best_distance = distance(color, palette[allowed[0]]);
    let mut k: usize = 1;
    while k < allowed.len()
        invariant
            allowed_indices_ok(allowed@),
            1 <= k <= allowed@.len(),
            best < k,
            best_distance as int == color_distance(color@, palette@[allowed@[best as int] as int]),
            forall|j: int|
                0 <= j < k ==> best_distance <= color_distance(
                    color@,
                    palette@[#[trigger] allowed@[j] as int],
                ),
            forall|j: int|
                0 <= j < best ==> color_distance(color@, palette@[#[trigger] allowed@[j] as int])
                    > best_distance,
        decreases allowed@.len() - k,
    {
        let d = distance(color, palette[allowed[k]]);
        if d < best_distance {
            best = k;
            best_distance = d;
        }
        k = k + 1;
    }
    assert(is_nearest_allowed(color@, palette@, allowed@, best as int));
    Ok(allowed[best])
}

/// At most one admitted position is the nearest one.
pub proof fn lemma_nearest_unique(color: Seq<u8>, palette: Seq<u16>, allowed: Seq<usize>, p: int, q: int)
    requires
        is_nearest_allowed(color, palette, allowed, p),
        is_nearest_allowed(color, palette, allowed, q),
    ensures
        p == q,
{
    if p < q {
        assert(color_distance(color, palette[allowed[p] as int]) > color_distance(color, palette[allowed[q] as int]));
    } else if q < p {
        assert(color_distance(color, palette[allowed[q] as int]) > color_distance(color, palette[allowed[p] as int]));
    }
}

/// The admitted palette index nearest to `color`, the earliest on a tie.
pub open spec fn nearest_allowed(color: Seq<u8>, palette: Seq<u16>, allowed: Seq<usize>) -> usize {
    allowed[choose|p: int| is_nearest_allowed(color, palette, allowed, p)]
}

/// An index found nearest is the nearest admitted index.
pub proof fn lemma_nearest_allowed(color: Seq<u8>, palette: Seq<u16>, allowed: Seq<usize>, p: int)
    requires
        is_nearest_allowed(color, palette, allowed, p),
    ensures
        allowed[p] == nearest_allowed(color, palette, allowed),
{
    let q = choose|q: int| is_nearest_allowed(color, palette, allowed, q);
    lemma_nearest_unique(color, palette, allowed, p, q);
}

/// The sixteen words a declared palette line denotes.
pub open spec fn declared_palette(words: Seq<String>) -> Seq<u16> {
    Seq::new(16, |i: int| spec_parse_hex(words[i]@).unwrap() as u16)
}

} // verus!

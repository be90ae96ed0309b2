//! Mega Drive sprite definitions: a count word followed by four words per
//! sprite (Y, size/link, tile attributes, X).

use vstd::prelude::*;
use crate::hex::{Error, parse_u16_hex, hex_fits, hex_word};
use crate::rom::{append_word, word_bytes};

verus! {

/// The four words of one sprite record, as manifest numbers.
pub open spec fn record_words_fit(y: Seq<char>, size: Seq<char>, tile: Seq<char>, x: Seq<char>) -> bool {
    hex_fits(y, u16::MAX as nat) && hex_fits(size, u16::MAX as nat) && hex_fits(
        tile,
        u16::MAX as nat,
    ) && hex_fits(x, u16::MAX as nat)
}

/// The eight bytes of one sprite record.
pub open spec fn record_bytes(y: Seq<char>, size: Seq<char>, tile: Seq<char>, x: Seq<char>) -> Seq<u8> {
    word_bytes(hex_word(y)) + word_bytes(hex_word(size)) + word_bytes(hex_word(tile)) + word_bytes(
        hex_word(x),
    )
}

/// Append the eight bytes of one sprite record given as manifest numbers.
pub fn append_record(
    output: &mut Vec<u8>,
    y: &String,
    size: &String,
    tile: &String,
    x: &String,
) -> (result: Result<(), Error>)
    ensures
        result is Ok <==> record_words_fit(y@, size@, tile@, x@),
        result is Ok ==> final(output)@ == old(output)@ + record_bytes(y@, size@, tile@, x@),
{
    let yw = parse_u16_hex(y.as_str())?;
    let sw = parse_u16_hex(size.as_str())?;
    let tw = parse_u16_hex(tile.as_str())?;
    let xw = parse_u16_hex(x.as_str())?;
    append_word(output, yw);
    append_word(output, sw);
    append_word(output, tw);
    append_word(output, xw);
    assert(final(output)@ =~= old(output)@ + record_bytes(y@, size@, tile@, x@));
    Ok(())
}

/// Size word of a sprite `width_tiles` by `height_tiles` cells (each 1..=4).
pub open spec fn spec_size_word(width_tiles: int, height_tiles: int) -> int {
    (width_tiles - 1) * 1024 + (height_tiles - 1) * 256
}

/// Encode a sprite's cell dimensions as its size word.
pub fn sprite_size_word(width_tiles: usize, height_tiles: usize) -> (word: Result<u16, Error>)
    ensures
        word is Ok <==> (1 <= width_tiles <= 4 && 1 <= height_tiles <= 4),
        word matches Ok(w) ==> w as int == spec_size_word(width_tiles as int, height_tiles as int),
{
    if !(1 <= width_tiles && width_tiles <= 4) || !(1 <= height_tiles && height_tiles <= 4) {
        return Err("Mega Drive sprite dimensions must be 1..=4 tiles");
    }
    let w = (width_tiles - 1) as u16;
    let h = (height_tiles - 1) as u16;
    assert((w << 10u16) | (h << 8u16) == w * 1024 + h * 256) by (bit_vector)
        requires
            w < 4,
            h < 4,
    ;
    Ok((w << 10) | (h << 8))
}

/// Number of cells a sprite's size/link word declares.
pub open spec fn size_link_tiles(size_link: u16) -> int {
    let size = (size_link as int / 256) % 16;
    (size / 4 + 1) * (size % 4 + 1)
}

/// A sprite covers at most sixteen cells.
pub proof fn lemma_size_link_tiles_bound(size_link: u16)
    ensures
        1 <= size_link_tiles(size_link) <= 16,
{
    let size = (size_link as int / 256) % 16;
    assert(1 <= (size / 4 + 1) * (size % 4 + 1) <= 16) by (nonlinear_arith)
        requires
            0 <= size < 16,
    ;
}

/// Cells covered by a sprite, from its size/link word.
pub fn sprite_tile_count(size_link: u16) -> (tiles: usize)
    ensures
        tiles as int == size_link_tiles(size_link),
{
    let size = ((size_link / 256) % 16) as usize;
    let width = size / 4 + 1;
    let height = size % 4 + 1;
    assert(width * height <= 16) by (nonlinear_arith)
        requires
            width <= 4,
            height <= 4,
    ;
    width * height
}

} // verus!

//! Row-major index arithmetic for pixel surfaces.

use vstd::prelude::*;

verus! {

/// Splitting a row-major index recovers its row and column.
pub proof fn lemma_row_col(row: int, col: int, width: int)
    requires
        0 <= row,
        0 <= col < width,
    ensures
        (row * width + col) / width == row,
        (row * width + col) % width == col,
{
    vstd::arithmetic::div_mod::lemma_fundamental_div_mod_converse(row * width + col, width, row, col);
}

/// A row-major index of a pixel inside the surface lies inside the surface.
pub proof fn lemma_index_bound(row: int, col: int, width: int, height: int)
    requires
        0 <= row < height,
        0 <= col < width,
    ensures
        0 <= row * width + col < width * height,
        row * width + col + 1 <= width * height,
{
    assert(0 <= row * width + col < width * height) by (nonlinear_arith)
        requires
            0 <= row < height,
            0 <= col < width,
    ;
}

/// Row and column of a row-major index lie inside the surface.
pub proof fn lemma_split_index(i: int, width: int, height: int)
    requires
        0 <= i < width * height,
        width > 0,
    ensures
        0 <= i / width < height,
        0 <= i % width < width,
        (i / width) * width + i % width == i,
{
    assert(0 <= i / width < height) by (nonlinear_arith)
        requires
            0 <= i < width * height,
            width > 0,
    ;
    vstd::arithmetic::div_mod::lemma_fundamental_div_mod(i, width);
    assert((i / width) * width == width * (i / width)) by (nonlinear_arith);
}

} // verus!

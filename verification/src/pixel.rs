//! Model of the pixel buffer layout shared by the host and every filter:
//! row-major RGBA, 8 bits per channel, 4 bytes per pixel, stride exactly
//! `width * 4`, total length exactly `width * height * 4`.

use vstd::prelude::*;
use vstd::arithmetic::div_mod::{
    lemma_div_pos_is_pos, lemma_fundamental_div_mod, lemma_fundamental_div_mod_converse,
    lemma_mod_bound,
};

verus! {

/// A byte sequence is a well-formed pixel buffer for the given dimensions
/// when its length is exactly `width * height * 4`.
pub open spec fn buffer_matches(s: Seq<u8>, width: int, height: int) -> bool {
    s.len() == width * height * 4
}

/// Byte offset of channel `c` of the pixel at column `x`, row `y`.
pub open spec fn pix_idx(width: int, x: int, y: int, c: int) -> int {
    (y * width + x) * 4 + c
}

/// Channel a byte offset falls on.
pub open spec fn chan_of(i: int) -> int {
    i % 4
}

/// Column a byte offset falls on.
pub open spec fn col_of(width: int, i: int) -> int {
    (i / 4) % width
}

/// Row a byte offset falls on.
pub open spec fn row_of(width: int, i: int) -> int {
    (i / 4) / width
}

/// Every in-range (column, row, channel) triple has a distinct byte offset,
/// recovered exactly by `col_of`, `row_of` and `chan_of`.
pub proof fn lemma_pix_idx_decompose(width: int, x: int, y: int, c: int)
    requires
        0 <= x < width,
        0 <= y,
        0 <= c < 4,
    ensures
        chan_of(pix_idx(width, x, y, c)) == c,
        col_of(width, pix_idx(width, x, y, c)) == x,
        row_of(width, pix_idx(width, x, y, c)) == y,
{
    let p = y * width + x;
    lemma_fundamental_div_mod_converse(pix_idx(width, x, y, c), 4, p, c);
    lemma_fundamental_div_mod_converse(p, width, y, x);
}

/// Every byte offset inside the buffer belongs to exactly one in-range
/// (column, row, channel) triple, and recomposing that triple gives the
/// offset back.
pub proof fn lemma_offset_decompose(width: int, height: int, i: int)
    requires
        0 < width,
        0 < height,
        0 <= i < width * height * 4,
    ensures
        0 <= chan_of(i) < 4,
        0 <= col_of(width, i) < width,
        0 <= row_of(width, i) < height,
        pix_idx(width, col_of(width, i), row_of(width, i), chan_of(i)) == i,
{
    lemma_fundamental_div_mod(i, 4);
    lemma_mod_bound(i, 4);
    let p = i / 4;
    lemma_div_pos_is_pos(i, 4);
    assert(p < width * height) by {
        if p >= width * height {
            assert(i >= 4 * (width * height)) by (nonlinear_arith)
                requires i == 4 * p + i % 4 && p >= width * height && i % 4 >= 0,
            ;
        }
    }
    lemma_fundamental_div_mod(p, width);
    lemma_mod_bound(p, width);
    lemma_div_pos_is_pos(p, width);
    assert(p / width < height) by {
        if p / width >= height {
            assert(p >= width * height) by (nonlinear_arith)
                requires
                    p == width * (p / width) + p % width && p / width >= height && p % width >= 0
                        && width > 0,
            ;
        }
    }
    assert((p / width) * width == width * (p / width)) by (nonlinear_arith);
}

/// No in-range pixel coordinate maps to a byte offset at or beyond the
/// buffer's end: every computed offset lies in `[0, width * height * 4)`.
pub proof fn lemma_pix_idx_in_bounds(width: int, height: int, x: int, y: int, c: int)
    requires
        0 <= x < width,
        0 <= y < height,
        0 <= c < 4,
    ensures
        0 <= pix_idx(width, x, y, c),
        pix_idx(width, x, y, c) <= width * height * 4 - 1,
{
    assert(0 <= (y * width + x) * 4 + c && (y * width + x) * 4 + c <= width * height * 4 - 1)
        by (nonlinear_arith)
        requires
            0 <= x < width,
            0 <= y < height,
            0 <= c < 4,
    ;
}

/// Byte offset of the first channel of pixel `(x, y)`, computed without any
/// possibility of wraparound: the result is proved to lie strictly inside
/// the buffer, leaving room for all four channel bytes.
pub fn pixel_offset(width: usize, height: usize, x: usize, y: usize) -> (off: usize)
    requires
        x < width,
        y < height,
        width * height * 4 <= usize::MAX,
    ensures
        off == pix_idx(width as int, x as int, y as int, 0),
        off + 3 < width * height * 4,
{
    proof {
        lemma_pix_idx_in_bounds(width as int, height as int, x as int, y as int, 0);
        lemma_pix_idx_in_bounds(width as int, height as int, x as int, y as int, 3);
        assert(width * 4 <= width * height * 4) by (nonlinear_arith)
            requires 0 <= width && 1 <= height,
        ;
        assert(y * (width * 4) + x * 4 == (y * width + x) * 4) by (nonlinear_arith);
        assert(x * 4 <= (y * width + x) * 4) by (nonlinear_arith)
            requires 0 <= x && 0 <= y && 0 <= width,
        ;
        assert(y * (width * 4) <= (y * width + x) * 4) by (nonlinear_arith)
            requires 0 <= x && 0 <= y && 0 <= width,
        ;
    }
    y * (width * 4) + x * 4
}

} // verus!

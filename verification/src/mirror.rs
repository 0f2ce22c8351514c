//! Mirror filters over an RGBA pixel buffer: horizontal (reverse the pixels
//! of every row) and vertical (reverse the order of the rows), each built
//! from a scratch copy so no pixel is read after it has been overwritten.

use vstd::prelude::*;
use crate::pixel::{
    buffer_matches, chan_of, col_of, lemma_offset_decompose, lemma_pix_idx_decompose,
    lemma_pix_idx_in_bounds, pix_idx, pixel_offset, row_of,
};

verus! {

/// The byte offset a horizontally mirrored buffer reads its byte `i` from:
/// the same channel and row, at the column reflected across the row middle.
pub open spec fn hmirror_src(width: int, i: int) -> int {
    pix_idx(width, width - 1 - col_of(width, i), row_of(width, i), chan_of(i))
}

/// The horizontally mirrored buffer: every row with its pixels reversed.
pub open spec fn mirror_h(s: Seq<u8>, width: int) -> Seq<u8> {
    Seq::new(s.len(), |i: int| s[hmirror_src(width, i)])
}

/// The byte offset a vertically mirrored buffer reads its byte `i` from:
/// the same channel and column, at the row reflected across the image middle.
pub open spec fn vmirror_src(width: int, height: int, i: int) -> int {
    pix_idx(width, col_of(width, i), height - 1 - row_of(width, i), chan_of(i))
}

/// The vertically mirrored buffer: the rows in reverse order.
pub open spec fn mirror_v(s: Seq<u8>, width: int, height: int) -> Seq<u8> {
    Seq::new(s.len(), |i: int| s[vmirror_src(width, height, i)])
}

/// Mirroring horizontally twice restores every byte of the buffer.
pub proof fn lemma_mirror_h_involution(s: Seq<u8>, width: int, height: int)
    requires
        buffer_matches(s, width, height),
        0 <= width,
        0 <= height,
    ensures
        mirror_h(mirror_h(s, width), width) == s,
{
    if s.len() == 0 {
        assert(mirror_h(mirror_h(s, width), width) =~= s);
    } else {
        assert(0 < width && 0 < height) by (nonlinear_arith)
            requires s.len() == width * height * 4 && s.len() > 0 && 0 <= width && 0 <= height,
        ;
        assert forall|i: int| 0 <= i < s.len() implies mirror_h(mirror_h(s, width), width)[i]
            == s[i] by {
            lemma_offset_decompose(width, height, i);
            let x = col_of(width, i);
            let y = row_of(width, i);
            let c = chan_of(i);
            lemma_pix_idx_in_bounds(width, height, width - 1 - x, y, c);
            lemma_pix_idx_decompose(width, width - 1 - x, y, c);
        }
        assert(mirror_h(mirror_h(s, width), width) =~= s);
    }
}

/// Mirroring vertically twice restores every byte of the buffer.
pub proof fn lemma_mirror_v_involution(s: Seq<u8>, width: int, height: int)
    requires
        buffer_matches(s, width, height),
        0 <= width,
        0 <= height,
    ensures
        mirror_v(mirror_v(s, width, height), width, height) == s,
{
    if s.len() == 0 {
        assert(mirror_v(mirror_v(s, width, height), width, height) =~= s);
    } else {
        assert(0 < width && 0 < height) by (nonlinear_arith)
            requires s.len() == width * height * 4 && s.len() > 0 && 0 <= width && 0 <= height,
        ;
        assert forall|i: int| 0 <= i < s.len() implies mirror_v(mirror_v(s, width, height), width,
            height)[i] == s[i] by {
            lemma_offset_decompose(width, height, i);
            let x = col_of(width, i);
            let y = row_of(width, i);
            let c = chan_of(i);
            lemma_pix_idx_in_bounds(width, height, x, height - 1 - y, c);
            lemma_pix_idx_decompose(width, x, height - 1 - y, c);
        }
        assert(mirror_v(mirror_v(s, width, height), width, height) =~= s);
    }
}

/// Reverses the pixel order of every row in place (the middle column of an
/// odd width stays put), via a scratch buffer that replaces the input.
#[verifier::loop_isolation(false)]
pub fn mirror_horizontal_rgba(buf: &mut Vec<u8>, width: usize, height: usize)
    requires
        buffer_matches(old(buf)@, width as int, height as int),
    ensures
        final(buf).len() == old(buf).len(),
        final(buf)@ == mirror_h(old(buf)@, width as int),
{
    let ghost w = width as int;
    let ghost h = height as int;
    let ghost orig = old(buf)@;
    if width == 0 || height == 0 {
        proof {
            assert(orig.len() == 0) by (nonlinear_arith)
                requires orig.len() == w * h * 4 && (w == 0 || h == 0),
            ;
            assert(mirror_h(orig, w) =~= orig);
        }
        return;
    }
    let len = buf.len();
    let mut out: Vec<u8> = vec![0u8; len];
    let mut y: usize = 0;
    while y < height
        invariant
            y <= height,
            out.len() == len,
            forall|j: int| 0 <= j < pix_idx(w, 0, y as int, 0) ==> out@[j] == mirror_h(orig, w)[j],
        decreases height - y,
    {
        let mut x: usize = 0;
        while x < width
            invariant
                x <= width,
                y < height,
                out.len() == len,
                forall|j: int|
                    0 <= j < pix_idx(w, x as int, y as int, 0) ==> out@[j] == mirror_h(orig, w)[j],
            decreases width - x,
        {
            let src = pixel_offset(width, height, width - 1 - x, y);
            let dst = pixel_offset(width, height, x, y);
            out[dst] = buf[src];
            out[dst + 1] = buf[src + 1];
            out[dst + 2] = buf[src + 2];
            out[dst + 3] = buf[src + 3];
            proof {
                lemma_pix_idx_in_bounds(w, h, x as int, y as int, 3);
                lemma_pix_idx_in_bounds(w, h, w - 1 - x as int, y as int, 3);
                lemma_pix_idx_decompose(w, x as int, y as int, 0);
                lemma_pix_idx_decompose(w, x as int, y as int, 1);
                lemma_pix_idx_decompose(w, x as int, y as int, 2);
                lemma_pix_idx_decompose(w, x as int, y as int, 3);
            }
            x = x + 1;
        }
        proof {
            assert((y as int + 1) * w == y as int * w + w) by (nonlinear_arith);
            assert(pix_idx(w, 0, y as int + 1, 0) == pix_idx(w, width as int, y as int, 0));
        }
        y = y + 1;
    }
    proof {
        assert((h * w) * 4 == w * h * 4) by (nonlinear_arith);
        assert(pix_idx(w, 0, h, 0) == len as int);
        assert(out@ =~= mirror_h(orig, w));
    }
    *buf = out;
}

/// Reverses the row order in place (the middle row of an odd height stays
/// put), via a scratch buffer that replaces the input.
#[verifier::loop_isolation(false)]
pub fn mirror_vertical_rgba(buf: &mut Vec<u8>, width: usize, height: usize)
    requires
        buffer_matches(old(buf)@, width as int, height as int),
    ensures
        final(buf).len() == old(buf).len(),
        final(buf)@ == mirror_v(old(buf)@, width as int, height as int),
{
    let ghost w = width as int;
    let ghost h = height as int;
    let ghost orig = old(buf)@;
    if width == 0 || height == 0 {
        proof {
            assert(orig.len() == 0) by (nonlinear_arith)
                requires orig.len() == w * h * 4 && (w == 0 || h == 0),
            ;
            assert(mirror_v(orig, w, h) =~= orig);
        }
        return;
    }
    let len = buf.len();
    let mut out: Vec<u8> = vec![0u8; len];
    let mut y: usize = 0;
    while y < height
        invariant
            y <= height,
            out.len() == len,
            forall|j: int|
                0 <= j < pix_idx(w, 0, y as int, 0) ==> out@[j] == mirror_v(orig, w, h)[j],
        decreases height - y,
    {
        let mut x: usize = 0;
        while x < width
            invariant
                x <= width,
                y < height,
                out.len() == len,
                forall|j: int|
                    0 <= j < pix_idx(w, x as int, y as int, 0) ==> out@[j] == mirror_v(orig, w, h)[
                        j
                    ],
            decreases width - x,
        {
            let src = pixel_offset(width, height, x, height - 1 - y);
            let dst = pixel_offset(width, height, x, y);
            out[dst] = buf[src];
            out[dst + 1] = buf[src + 1];
            out[dst + 2] = buf[src + 2];
            out[dst + 3] = buf[src + 3];
            proof {
                lemma_pix_idx_in_bounds(w, h, x as int, y as int, 3);
                lemma_pix_idx_in_bounds(w, h, x as int, h - 1 - y as int, 3);
                lemma_pix_idx_decompose(w, x as int, y as int, 0);
                lemma_pix_idx_decompose(w, x as int, y as int, 1);
                lemma_pix_idx_decompose(w, x as int, y as int, 2);
                lemma_pix_idx_decompose(w, x as int, y as int, 3);
            }
            x = x + 1;
        }
        proof {
            assert((y as int + 1) * w == y as int * w + w) by (nonlinear_arith);
            assert(pix_idx(w, 0, y as int + 1, 0) == pix_idx(w, width as int, y as int, 0));
        }
        y = y + 1;
    }
    proof {
        assert((h * w) * 4 == w * h * 4) by (nonlinear_arith);
        assert(pix_idx(w, 0, h, 0) == len as int);
        assert(out@ =~= mirror_v(orig, w, h));
    }
    *buf = out;
}

} // verus!

//! Box blur over an RGBA pixel buffer: every output channel is the
//! truncating integer average of that channel over an edge-clamped square
//! window of the input, repeated for a number of iterations with double
//! buffering (each sweep reads only the previous buffer).

use vstd::prelude::*;
use vstd::arithmetic::div_mod::{
    lemma_div_basics_2, lemma_div_is_ordered, lemma_div_multiples_vanish, lemma_div_pos_is_pos,
};
use crate::pixel::{
    buffer_matches, chan_of, col_of, lemma_offset_decompose, lemma_pix_idx_decompose,
    lemma_pix_idx_in_bounds, pix_idx, pixel_offset, row_of,
};

verus! {

/// Lower edge of the blur window around `coord` with radius `r`,
/// clamped at the image edge (never below 0).
pub open spec fn win_lo(coord: int, r: int) -> int {
    if coord - r > 0 {
        coord - r
    } else {
        0
    }
}

/// Upper edge of the blur window around `coord` with radius `r`,
/// clamped at the image edge (never beyond `dim - 1`).
pub open spec fn win_hi(coord: int, r: int, dim: int) -> int {
    if coord + r < dim - 1 {
        coord + r
    } else {
        dim - 1
    }
}

/// Sum of channel `c` over the `n` pixels of row `y` starting at column `x0`.
pub open spec fn row_sum(s: Seq<u8>, width: int, y: int, x0: int, n: nat, c: int) -> int
    decreases n,
{
    if n == 0 {
        0
    } else {
        row_sum(s, width, y, x0, (n - 1) as nat, c) + s[pix_idx(width, x0 + n - 1, y, c)]
    }
}

/// Sum of channel `c` over the `ny`-by-`nx` window whose top-left pixel
/// is `(x0, y0)`.
pub open spec fn window_sum(
    s: Seq<u8>,
    width: int,
    y0: int,
    x0: int,
    ny: nat,
    nx: nat,
    c: int,
) -> int
    decreases ny,
{
    if ny == 0 {
        0
    } else {
        window_sum(s, width, y0, x0, (ny - 1) as nat, nx, c) + row_sum(
            s,
            width,
            y0 + ny - 1,
            x0,
            nx,
            c,
        )
    }
}

/// The blurred value of channel `c` of pixel `(x, y)`: the channel sum over
/// the clamped window, divided (truncating) by the window's pixel count.
pub open spec fn blur_pixel(
    s: Seq<u8>,
    width: int,
    height: int,
    r: int,
    x: int,
    y: int,
    c: int,
) -> int {
    let y0 = win_lo(y, r);
    let y1 = win_hi(y, r, height);
    let x0 = win_lo(x, r);
    let x1 = win_hi(x, r, width);
    let ny = (y1 - y0 + 1) as nat;
    let nx = (x1 - x0 + 1) as nat;
    window_sum(s, width, y0, x0, ny, nx, c) / ((ny * nx) as int)
}

/// One full blur sweep: a same-length buffer whose every byte is the blurred
/// value of the corresponding channel of the input buffer.
pub open spec fn blur_once(s: Seq<u8>, width: int, height: int, r: int) -> Seq<u8> {
    Seq::new(
        s.len(),
        |i: int|
            blur_pixel(s, width, height, r, col_of(width, i), row_of(width, i), chan_of(i)) as u8,
    )
}

/// `n` blur sweeps, each one reading the previous sweep's output.
pub open spec fn blur_iter(s: Seq<u8>, width: int, height: int, r: int, n: nat) -> Seq<u8>
    decreases n,
{
    if n == 0 {
        s
    } else {
        blur_once(blur_iter(s, width, height, r, (n - 1) as nat), width, height, r)
    }
}

/// The requested radius clamped to `max(width - 1, height - 1)` (never
/// negative): a radius larger than the image must not widen the window.
pub open spec fn clamped_radius(radius: int, width: int, height: int) -> int {
    let a = if width - 1 > 0 {
        width - 1
    } else {
        0
    };
    let b = if height - 1 > 0 {
        height - 1
    } else {
        0
    };
    let m = if a > b {
        a
    } else {
        b
    };
    if radius < m {
        radius
    } else {
        m
    }
}

/// Sum of channel `c` over every pixel of the image.
pub open spec fn channel_total(s: Seq<u8>, width: int, height: int, c: int) -> int {
    window_sum(s, width, 0, 0, height as nat, width as nat, c)
}

/// The truncating global average of channel `c` over the whole image.
pub open spec fn global_channel_avg(s: Seq<u8>, width: int, height: int, c: int) -> int {
    channel_total(s, width, height, c) / (width * height)
}

pub proof fn lemma_row_sum_bounds(s: Seq<u8>, width: int, y: int, x0: int, n: nat, c: int)
    ensures
        0 <= row_sum(s, width, y, x0, n, c) <= 255 * n,
    decreases n,
{
    if n > 0 {
        lemma_row_sum_bounds(s, width, y, x0, (n - 1) as nat, c);
    }
}

pub proof fn lemma_window_sum_bounds(
    s: Seq<u8>,
    width: int,
    y0: int,
    x0: int,
    ny: nat,
    nx: nat,
    c: int,
)
    ensures
        0 <= window_sum(s, width, y0, x0, ny, nx, c) <= 255 * (ny * nx),
    decreases ny,
{
    if ny > 0 {
        lemma_window_sum_bounds(s, width, y0, x0, (ny - 1) as nat, nx, c);
        lemma_row_sum_bounds(s, width, y0 + ny - 1, x0, nx, c);
        assert(255 * ((ny - 1) * nx) + 255 * nx == 255 * (ny * nx)) by (nonlinear_arith);
    }
}

/// Every blurred channel value lies in a byte's range.
pub proof fn lemma_blur_pixel_bounds(
    s: Seq<u8>,
    width: int,
    height: int,
    r: int,
    x: int,
    y: int,
    c: int,
)
    requires
        0 <= x < width,
        0 <= y < height,
        0 <= r,
    ensures
        0 <= blur_pixel(s, width, height, r, x, y, c) <= 255,
{
    let y0 = win_lo(y, r);
    let y1 = win_hi(y, r, height);
    let x0 = win_lo(x, r);
    let x1 = win_hi(x, r, width);
    let ny = (y1 - y0 + 1) as nat;
    let nx = (x1 - x0 + 1) as nat;
    let sum = window_sum(s, width, y0, x0, ny, nx, c);
    let cnt = ny * nx;
    lemma_window_sum_bounds(s, width, y0, x0, ny, nx, c);
    assert(ny * nx >= 1) by (nonlinear_arith)
        requires ny >= 1 && nx >= 1,
    ;
    lemma_div_pos_is_pos(sum, cnt as int);
    lemma_div_is_ordered(sum, 255 * (cnt as int), cnt as int);
    lemma_div_multiples_vanish(255, cnt as int);
    assert((cnt as int) * 255 == 255 * (cnt as int));
}

/// With radius 0 every window is the single pixel itself, so one blur sweep
/// changes nothing.
pub proof fn lemma_blur_once_zero_radius(s: Seq<u8>, width: int, height: int)
    requires
        buffer_matches(s, width, height),
        0 < width,
        0 < height,
    ensures
        blur_once(s, width, height, 0) == s,
{
    assert forall|i: int| 0 <= i < s.len() implies blur_once(s, width, height, 0)[i] == s[i] by {
        lemma_offset_decompose(width, height, i);
        let x = col_of(width, i);
        let y = row_of(width, i);
        let c = chan_of(i);
        let n0: nat = 0;
        let n1: nat = 1;
        assert(win_lo(y, 0) == y);
        assert(win_hi(y, 0, height) == y);
        assert(win_lo(x, 0) == x);
        assert(win_hi(x, 0, width) == x);
        assert(row_sum(s, width, y, x, n0, c) == 0);
        assert(row_sum(s, width, y, x, n1, c) == s[pix_idx(width, x, y, c)]);
        assert(window_sum(s, width, y, x, n0, n1, c) == 0);
        assert(window_sum(s, width, y, x, n1, n1, c) == s[pix_idx(width, x, y, c)]);
        lemma_div_basics_2(s[pix_idx(width, x, y, c)] as int);
        assert((win_hi(y, 0, height) - win_lo(y, 0) + 1) as nat == n1);
        assert((win_hi(x, 0, width) - win_lo(x, 0) + 1) as nat == n1);
        assert((n1 * n1) as int == 1int);
        assert(blur_pixel(s, width, height, 0, x, y, c) == s[pix_idx(width, x, y, c)] as int);
    }
    assert(blur_once(s, width, height, 0) =~= s);
}

/// Any number of radius-0 sweeps leaves the buffer unchanged.
pub proof fn lemma_blur_iter_zero_radius(s: Seq<u8>, width: int, height: int, n: nat)
    requires
        buffer_matches(s, width, height),
        0 < width,
        0 < height,
    ensures
        blur_iter(s, width, height, 0, n) == s,
    decreases n,
{
    if n > 0 {
        lemma_blur_iter_zero_radius(s, width, height, (n - 1) as nat);
        lemma_blur_once_zero_radius(s, width, height);
    }
}

/// Blurring an empty buffer (a zero dimension) changes nothing.
pub proof fn lemma_blur_iter_empty(s: Seq<u8>, width: int, height: int, r: int, n: nat)
    requires
        s.len() == 0,
    ensures
        blur_iter(s, width, height, r, n) == s,
    decreases n,
{
    if n > 0 {
        lemma_blur_iter_empty(s, width, height, r, (n - 1) as nat);
        assert(blur_once(s, width, height, r) =~= s);
    }
}

/// When the radius reaches `max(width - 1, height - 1)`, every window is the
/// whole image: a single sweep makes every pixel the global channel-wise
/// average (truncating) of the input, so the output is uniform.
pub proof fn lemma_blur_full_window_uniform(s: Seq<u8>, width: int, height: int, r: int)
    requires
        buffer_matches(s, width, height),
        0 < width,
        0 < height,
        r >= width - 1,
        r >= height - 1,
    ensures
        forall|x: int, y: int, c: int|
            0 <= x < width && 0 <= y < height && 0 <= c < 4 ==> blur_once(s, width, height, r)[
                #[trigger] pix_idx(width, x, y, c)
            ] == global_channel_avg(s, width, height, c) as u8,
        blur_iter(s, width, height, r, 1) == blur_once(s, width, height, r),
{
    assert forall|x: int, y: int, c: int|
        0 <= x < width && 0 <= y < height && 0 <= c < 4 implies blur_once(s, width, height, r)[
        #[trigger] pix_idx(width, x, y, c)
    ] == global_channel_avg(s, width, height, c) as u8 by {
        lemma_pix_idx_in_bounds(width, height, x, y, c);
        lemma_pix_idx_decompose(width, x, y, c);
        let i = pix_idx(width, x, y, c);
        assert(win_lo(y, r) == 0);
        assert(win_hi(y, r, height) == height - 1);
        assert(win_lo(x, r) == 0);
        assert(win_hi(x, r, width) == width - 1);
        assert(blur_pixel(s, width, height, r, x, y, c) == window_sum(
            s,
            width,
            0,
            0,
            height as nat,
            width as nat,
            c,
        ) / ((height * width) as int)) by {
            assert(((height as nat) * (width as nat)) as int == height * width) by (nonlinear_arith)
                requires 0 < width && 0 < height,
            ;
        }
        assert(height * width == width * height) by (nonlinear_arith);
    }
    let n0: nat = 0;
    assert(blur_iter(s, width, height, r, n0) == s);
    assert(blur_iter(s, width, height, r, 1) == blur_once(blur_iter(s, width, height, r, n0),
        width, height, r));
}

/// Four blurred channel values of one pixel, computed over the clamped
/// window of `buf` by summation and one truncating division per channel.
#[verifier::loop_isolation(false)]
#[verifier::rlimit(80)]
fn blurred_pixel(buf: &Vec<u8>, width: usize, height: usize, rc: usize, x: usize, y: usize) -> (px: (
    u8,
    u8,
    u8,
    u8,
))
    requires
        buf.len() == width * height * 4,
        x < width,
        y < height,
        rc <= width - 1 || rc <= height - 1,
    ensures
        px.0 == blur_pixel(buf@, width as int, height as int, rc as int, x as int, y as int, 0) as u8,
        px.1 == blur_pixel(buf@, width as int, height as int, rc as int, x as int, y as int, 1) as u8,
        px.2 == blur_pixel(buf@, width as int, height as int, rc as int, x as int, y as int, 2) as u8,
        px.3 == blur_pixel(buf@, width as int, height as int, rc as int, x as int, y as int, 3) as u8,
{
    let ghost s = buf@;
    let ghost w = width as int;
    let ghost h = height as int;
    let ghost r = rc as int;
    proof {
        assert(width + height <= width * height + 1) by (nonlinear_arith)
            requires 1 <= width && 1 <= height,
        ;
        assert(width * height <= width * height * 4) by (nonlinear_arith)
            requires 1 <= width && 1 <= height,
        ;
    }
    let y0 = if y > rc {
        y - rc
    } else {
        0
    };
    let t = y + rc;
    let y1 = if t < height - 1 {
        t
    } else {
        height - 1
    };
    let x0 = if x > rc {
        x - rc
    } else {
        0
    };
    let u = x + rc;
    let x1 = if u < width - 1 {
        u
    } else {
        width - 1
    };
    proof {
        assert(y0 as int == win_lo(y as int, r));
        assert(y1 as int == win_hi(y as int, r, h));
        assert(x0 as int == win_lo(x as int, r));
        assert(x1 as int == win_hi(x as int, r, w));
    }
    let ghost ny = (y1 - y0 + 1) as nat;
    let ghost nx = (x1 - x0 + 1) as nat;
    let mut sum0: u128 = 0;
    let mut sum1: u128 = 0;
    let mut sum2: u128 = 0;
    let mut sum3: u128 = 0;
    let mut cnt: usize = 0;
    let mut yy = y0;
    while yy <= y1
        invariant
            y0 <= yy <= y1 + 1,
            y0 <= y1 < height,
            x0 <= x1 < width,
            1 <= width,
            1 <= height,
            buf.len() == width * height * 4,
            s == buf@,
            nx == (x1 - x0 + 1) as nat,
            sum0 == window_sum(s, w, y0 as int, x0 as int, (yy - y0) as nat, nx, 0),
            sum1 == window_sum(s, w, y0 as int, x0 as int, (yy - y0) as nat, nx, 1),
            sum2 == window_sum(s, w, y0 as int, x0 as int, (yy - y0) as nat, nx, 2),
            sum3 == window_sum(s, w, y0 as int, x0 as int, (yy - y0) as nat, nx, 3),
            cnt == (yy - y0) * (x1 - x0 + 1),
            cnt <= width * height,
            sum0 <= 255 * cnt,
            sum1 <= 255 * cnt,
            sum2 <= 255 * cnt,
            sum3 <= 255 * cnt,
        decreases y1 + 1 - yy,
    {
        let mut xx = x0;
        proof {
            assert((yy - y0) * (x1 - x0 + 1) + (x1 + 1 - x0) <= width * height) by (nonlinear_arith)
                requires
                    y0 <= yy <= y1 < height && x0 <= x1 < width && 1 <= width && 1 <= height,
            ;
        }
        while xx <= x1
            invariant
                x0 <= xx <= x1 + 1,
                y0 <= yy <= y1,
                y0 <= y1 < height,
                x0 <= x1 < width,
                1 <= width,
                1 <= height,
                buf.len() == width * height * 4,
                s == buf@,
                nx == (x1 - x0 + 1) as nat,
                sum0 == window_sum(s, w, y0 as int, x0 as int, (yy - y0) as nat, nx, 0) + row_sum(
                    s, w, yy as int, x0 as int, (xx - x0) as nat, 0),
                sum1 == window_sum(s, w, y0 as int, x0 as int, (yy - y0) as nat, nx, 1) + row_sum(
                    s, w, yy as int, x0 as int, (xx - x0) as nat, 1),
                sum2 == window_sum(s, w, y0 as int, x0 as int, (yy - y0) as nat, nx, 2) + row_sum(
                    s, w, yy as int, x0 as int, (xx - x0) as nat, 2),
                sum3 == window_sum(s, w, y0 as int, x0 as int, (yy - y0) as nat, nx, 3) + row_sum(
                    s, w, yy as int, x0 as int, (xx - x0) as nat, 3),
                cnt == (yy - y0) * (x1 - x0 + 1) + (xx - x0),
                cnt + (x1 + 1 - xx) <= width * height,
                sum0 <= 255 * cnt,
                sum1 <= 255 * cnt,
                sum2 <= 255 * cnt,
                sum3 <= 255 * cnt,
            decreases x1 + 1 - xx,
        {
            let off = pixel_offset(width, height, xx, yy);
            proof {
                lemma_pix_idx_in_bounds(w, h, xx as int, yy as int, 3);
            }
            sum0 = sum0 + (buf[off] as u128);
            sum1 = sum1 + (buf[off + 1] as u128);
            sum2 = sum2 + (buf[off + 2] as u128);
            sum3 = sum3 + (buf[off + 3] as u128);
            cnt = cnt + 1;
            proof {
                let m = (xx - x0 + 1) as nat;
                assert(row_sum(s, w, yy as int, x0 as int, m, 0) == row_sum(
                    s, w, yy as int, x0 as int, (m - 1) as nat, 0) + s[pix_idx(w, xx as int, yy as int, 0)]);
                assert(row_sum(s, w, yy as int, x0 as int, m, 1) == row_sum(
                    s, w, yy as int, x0 as int, (m - 1) as nat, 1) + s[pix_idx(w, xx as int, yy as int, 1)]);
                assert(row_sum(s, w, yy as int, x0 as int, m, 2) == row_sum(
                    s, w, yy as int, x0 as int, (m - 1) as nat, 2) + s[pix_idx(w, xx as int, yy as int, 2)]);
                assert(row_sum(s, w, yy as int, x0 as int, m, 3) == row_sum(
                    s, w, yy as int, x0 as int, (m - 1) as nat, 3) + s[pix_idx(w, xx as int, yy as int, 3)]);
            }
            xx = xx + 1;
        }
        proof {
            let k = (yy - y0 + 1) as nat;
            assert(window_sum(s, w, y0 as int, x0 as int, k, nx, 0) == window_sum(
                s, w, y0 as int, x0 as int, (k - 1) as nat, nx, 0) + row_sum(s, w, yy as int, x0 as int, nx, 0));
            assert(window_sum(s, w, y0 as int, x0 as int, k, nx, 1) == window_sum(
                s, w, y0 as int, x0 as int, (k - 1) as nat, nx, 1) + row_sum(s, w, yy as int, x0 as int, nx, 1));
            assert(window_sum(s, w, y0 as int, x0 as int, k, nx, 2) == window_sum(
                s, w, y0 as int, x0 as int, (k - 1) as nat, nx, 2) + row_sum(s, w, yy as int, x0 as int, nx, 2));
            assert(window_sum(s, w, y0 as int, x0 as int, k, nx, 3) == window_sum(
                s, w, y0 as int, x0 as int, (k - 1) as nat, nx, 3) + row_sum(s, w, yy as int, x0 as int, nx, 3));
            assert((yy + 1 - y0) * (x1 - x0 + 1) == (yy - y0) * (x1 - x0 + 1) + (x1 - x0 + 1))
                by (nonlinear_arith);
        }
        yy = yy + 1;
    }
    proof {
        assert(ny * nx >= 1) by (nonlinear_arith)
            requires ny >= 1 && nx >= 1,
        ;
        assert(ny == y1 + 1 - y0);
        assert(nx == x1 + 1 - x0);
        assert(cnt == ny * nx);
    }
    let q0 = sum0 / (cnt as u128);
    let q1 = sum1 / (cnt as u128);
    let q2 = sum2 / (cnt as u128);
    let q3 = sum3 / (cnt as u128);
    proof {
        lemma_blur_pixel_bounds(s, w, h, r, x as int, y as int, 0);
        lemma_blur_pixel_bounds(s, w, h, r, x as int, y as int, 1);
        lemma_blur_pixel_bounds(s, w, h, r, x as int, y as int, 2);
        lemma_blur_pixel_bounds(s, w, h, r, x as int, y as int, 3);
    }
    (q0 as u8, q1 as u8, q2 as u8, q3 as u8)
}

/// Box-blurs the buffer in place: `iterations` sweeps with the radius
/// clamped to `max(width - 1, height - 1)`. A zero radius or zero iteration
/// count leaves the buffer byte-for-byte unchanged.
#[verifier::loop_isolation(false)]
#[verifier::rlimit(80)]
pub fn blur_rgba(buf: &mut Vec<u8>, width: usize, height: usize, radius: usize, iterations: usize)
    requires
        buffer_matches(old(buf)@, width as int, height as int),
    ensures
        final(buf).len() == old(buf).len(),
        final(buf)@ == blur_iter(
            old(buf)@,
            width as int,
            height as int,
            clamped_radius(radius as int, width as int, height as int),
            iterations as nat,
        ),
        radius == 0 || iterations == 0 ==> final(buf)@ == old(buf)@,
{
    let ghost w = width as int;
    let ghost h = height as int;
    let ghost orig = old(buf)@;
    if width == 0 || height == 0 {
        proof {
            assert(orig.len() == 0) by (nonlinear_arith)
                requires orig.len() == w * h * 4 && (w == 0 || h == 0),
            ;
            lemma_blur_iter_empty(
                orig, w, h, clamped_radius(radius as int, w, h), iterations as nat);
        }
        return;
    }
    let a = width - 1;
    let b = height - 1;
    let max_r = if a > b {
        a
    } else {
        b
    };
    let rc = if radius < max_r {
        radius
    } else {
        max_r
    };
    proof {
        assert(rc as int == clamped_radius(radius as int, w, h));
    }
    if rc == 0 || iterations == 0 {
        proof {
            if rc == 0 {
                lemma_blur_iter_zero_radius(orig, w, h, iterations as nat);
            }
        }
        return;
    }
    let ghost r = rc as int;
    let mut it: usize = 0;
    while it < iterations
        invariant
            it <= iterations,
            1 <= width,
            1 <= height,
            1 <= rc,
            rc <= width - 1 || rc <= height - 1,
            buf.len() == width * height * 4,
            buf@ == blur_iter(orig, w, h, r, it as nat),
        decreases iterations - it,
    {
        let ghost cur = buf@;
        let len = buf.len();
        let mut out: Vec<u8> = vec![0u8; len];
        let mut y: usize = 0;
        while y < height
            invariant
                y <= height,
                1 <= width,
                1 <= height,
                rc <= width - 1 || rc <= height - 1,
                buf.len() == width * height * 4,
                buf@ == cur,
                len == buf.len(),
                out.len() == len,
                forall|j: int|
                    0 <= j < pix_idx(w, 0, y as int, 0) ==> out@[j] == blur_once(cur, w, h, r)[j],
            decreases height - y,
        {
            let mut x: usize = 0;
            while x < width
                invariant
                    x <= width,
                    y < height,
                    1 <= width,
                    1 <= height,
                    rc <= width - 1 || rc <= height - 1,
                    buf.len() == width * height * 4,
                    buf@ == cur,
                    len == buf.len(),
                    out.len() == len,
                    forall|j: int|
                        0 <= j < pix_idx(w, x as int, y as int, 0) ==> out@[j] == blur_once(
                            cur, w, h, r)[j],
                decreases width - x,
            {
                let px = blurred_pixel(buf, width, height, rc, x, y);
                let off = pixel_offset(width, height, x, y);
                out[off] = px.0;
                out[off + 1] = px.1;
                out[off + 2] = px.2;
                out[off + 3] = px.3;
                proof {
                    lemma_pix_idx_in_bounds(w, h, x as int, y as int, 0);
                    lemma_pix_idx_in_bounds(w, h, x as int, y as int, 3);
                    lemma_pix_idx_decompose(w, x as int, y as int, 0);
                    lemma_pix_idx_decompose(w, x as int, y as int, 1);
                    lemma_pix_idx_decompose(w, x as int, y as int, 2);
                    lemma_pix_idx_decompose(w, x as int, y as int, 3);
                }
                x = x + 1;
            }
            proof {
                assert((y as int + 1) * w == y as int * w + w) by (nonlinear_arith);
                assert(pix_idx(w, 0, y as int + 1, 0) == pix_idx(w, width as int, y as int, 0));
            }
            y = y + 1;
        }
        proof {
            assert((h * w) * 4 == w * h * 4) by (nonlinear_arith);
            assert(pix_idx(w, 0, h, 0) == len as int);
            assert(out@ =~= blur_once(cur, w, h, r));
            assert(blur_iter(orig, w, h, r, (it + 1) as nat) == blur_once(
                blur_iter(orig, w, h, r, it as nat), w, h, r));
        }
        *buf = out;
        it = it + 1;
    }
}

} // verus!

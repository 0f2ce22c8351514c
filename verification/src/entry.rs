//! The checks every plugin entry point performs before touching the buffer,
//! and the dispatch to its filter. The raw ABI shell around these functions
//! (null-pointer checks, building a slice from the raw pointer, decoding the
//! parameter bytes as UTF-8 with a fallback to the empty string) lives with
//! the host program; these functions take the resulting plain values. They
//! never fail: every invalid input degrades to a no-op, because the plugin
//! ABI has no error channel.

use vstd::prelude::*;
use crate::blur::{blur_iter, blur_rgba, clamped_radius};
use crate::pixel::buffer_matches;
use crate::mirror::{mirror_h, mirror_horizontal_rgba, mirror_v, mirror_vertical_rgba};
use crate::params::{
    axis_of, blur_iterations_of, blur_radius_of, parse_axis, parse_params, MirrorAxis,
};

verus! {

/// Whether the entry-point checks pass: both dimensions non-zero, the byte
/// length `width * height * 4` representable, and the buffer exactly that
/// long.
pub open spec fn entry_geometry_ok(s: Seq<u8>, width: int, height: int) -> bool {
    &&& width != 0
    &&& height != 0
    &&& width * height * 4 <= usize::MAX
    &&& buffer_matches(s, width, height)
}

/// What the blur plugin's entry point leaves in the buffer: the iterated
/// clamped-radius blur when the geometry checks pass and the parameters ask
/// for work, the untouched buffer otherwise.
pub open spec fn blur_entry_result(s: Seq<u8>, width: int, height: int, params: Seq<char>) -> Seq<
    u8,
> {
    if !entry_geometry_ok(s, width, height) {
        s
    } else {
        let radius = blur_radius_of(params);
        let iterations = blur_iterations_of(params);
        if radius == 0 || iterations == 0 {
            s
        } else {
            blur_iter(s, width, height, clamped_radius(radius, width, height), iterations as nat)
        }
    }
}

/// What the mirror plugin's entry point leaves in the buffer: the mirrored
/// buffer along the selected axis when the geometry checks pass, the
/// untouched buffer otherwise.
pub open spec fn mirror_entry_result(s: Seq<u8>, width: int, height: int, params: Seq<char>) -> Seq<
    u8,
> {
    if !entry_geometry_ok(s, width, height) {
        s
    } else {
        match axis_of(params) {
            MirrorAxis::Horizontal => mirror_h(s, width),
            MirrorAxis::Vertical => mirror_v(s, width, height),
            MirrorAxis::Neutral => s,
        }
    }
}

/// The blur plugin's entry point on plain values: validates the geometry,
/// parses the parameter string, and blurs the buffer in place.
pub fn blur_process_image(width: u32, height: u32, buf: &mut Vec<u8>, params: &str)
    ensures
        final(buf).len() == old(buf).len(),
        final(buf)@ == blur_entry_result(old(buf)@, width as int, height as int, params@),
{
    if width == 0 || height == 0 {
        return;
    }
    let w = width as usize;
    let h = height as usize;
    let len = match w.checked_mul(h) {
        Some(p) => match p.checked_mul(4) {
            Some(l) => l,
            None => {
                return;
            },
        },
        None => {
            proof {
                assert(w * h * 4 > usize::MAX) by (nonlinear_arith)
                    requires w * h > usize::MAX,
                ;
            }
            return;
        },
    };
    if buf.len() != len {
        return;
    }
    let r = parse_params(params);
    if r.0 == 0 || r.1 == 0 {
        return;
    }
    blur_rgba(buf, w, h, r.0, r.1);
}

/// The mirror plugin's entry point on plain values: validates the geometry,
/// reads the axis literal, and mirrors the buffer in place. A parameter
/// string that names no axis leaves the buffer untouched.
pub fn mirror_process_image(width: u32, height: u32, buf: &mut Vec<u8>, params: &str)
    ensures
        final(buf).len() == old(buf).len(),
        final(buf)@ == mirror_entry_result(old(buf)@, width as int, height as int, params@),
        axis_of(params@) is Neutral ==> final(buf)@ == old(buf)@,
{
    if width == 0 || height == 0 {
        return;
    }
    let w = width as usize;
    let h = height as usize;
    let len = match w.checked_mul(h) {
        Some(p) => match p.checked_mul(4) {
            Some(l) => l,
            None => {
                return;
            },
        },
        None => {
            proof {
                assert(w * h * 4 > usize::MAX) by (nonlinear_arith)
                    requires w * h > usize::MAX,
                ;
            }
            return;
        },
    };
    if buf.len() != len {
        return;
    }
    match parse_axis(params) {
        MirrorAxis::Horizontal => mirror_horizontal_rgba(buf, w, h),
        MirrorAxis::Vertical => mirror_vertical_rgba(buf, w, h),
        MirrorAxis::Neutral => {},
    }
}

} // verus!

//! Dimension planning for print resolution, and the pure decisions made
//! while scanning source images (EXIF orientation mapping, path checks).

use vstd::prelude::*;
use vstd::arithmetic::div_mod::{lemma_div_is_ordered, lemma_div_multiples_vanish, lemma_fundamental_div_mod, lemma_mod_bound};
use vstd::string::*;
use crate::{ImageInfo, Orientation, PhotoError, SourceImageInfo};

verus! {

/// `x` rounded up to the next multiple of 4.
pub open spec fn spec_round4(x: int) -> int {
    if x % 4 == 0 {
        x
    } else {
        x + (4 - x % 4)
    }
}

/// The image is lower-resolution than the print target on both axes, so
/// scaling it up would be needed to fill the page: the planner refuses.
pub open spec fn spec_low_res(native: (u32, u32), target: (u32, u32)) -> bool {
    target.0 > native.0 && target.1 > native.1
}

/// The width axis gives the smaller scale factor:
/// `target.0 / native.0 <= target.1 / native.1`, cross-multiplied.
pub open spec fn spec_width_limited(native: (u32, u32), target: (u32, u32)) -> bool {
    target.0 * native.1 <= target.1 * native.0
}

/// The scaled-down dimensions before block alignment: the native size times
/// the smaller of the two per-axis scale factors, rounded down.
pub open spec fn spec_ideal_dims(native: (u32, u32), target: (u32, u32)) -> (int, int) {
    if spec_width_limited(native, target) {
        (target.0 as int, (native.1 * target.0) / (native.0 as int))
    } else {
        ((native.0 * target.1) / (native.1 as int), target.1 as int)
    }
}

/// What the dimension planner returns: the native size for low-resolution
/// images, otherwise the ideal size rounded up to the codec block size.
pub open spec fn spec_planned_dims(native: (u32, u32), target: (u32, u32)) -> (int, int) {
    if spec_low_res(native, target) {
        (native.0 as int, native.1 as int)
    } else {
        (
            spec_round4(spec_ideal_dims(native, target).0),
            spec_round4(spec_ideal_dims(native, target).1),
        )
    }
}

/// Round-up to a block boundary moves a value by less than one block and
/// lands on a multiple of the block size.
proof fn lemma_round4_properties(x: int)
    requires
        x >= 0,
    ensures
        x <= spec_round4(x) < x + 4,
        spec_round4(x) % 4 == 0,
{
}

/// Rounding up to a block boundary cannot pass an aligned bound.
proof fn lemma_round4_bounded(x: int, bound: int)
    requires
        0 <= x <= bound,
        bound % 4 == 0,
    ensures
        spec_round4(x) <= bound,
{
}

/// On every image the planner scales (any not-low-resolution input), both
/// output axes are multiples of 4, the codec block size, and each axis
/// overshoots the native size by less than one block.  A low-resolution
/// image keeps its native size, aligned or not.
pub proof fn lemma_planned_alignment(native: (u32, u32), target: (u32, u32))
    requires
        native.0 > 0,
        native.1 > 0,
        !spec_low_res(native, target),
    ensures
        spec_planned_dims(native, target).0 % 4 == 0,
        spec_planned_dims(native, target).1 % 4 == 0,
        spec_planned_dims(native, target).0 < native.0 + 4,
        spec_planned_dims(native, target).1 < native.1 + 4,
{
    lemma_ideal_dims_bounds(native, target);
    lemma_round4_properties(spec_ideal_dims(native, target).0);
    lemma_round4_properties(spec_ideal_dims(native, target).1);
}

/// The planner never upscales: on a block-aligned native size, the output
/// never exceeds the native size on either axis.  (On an unaligned native
/// size the block round-up may overshoot it by up to 3 pixels.)
pub proof fn lemma_planned_no_upscale(native: (u32, u32), target: (u32, u32))
    requires
        native.0 > 0,
        native.1 > 0,
        !spec_low_res(native, target),
        native.0 % 4 == 0,
        native.1 % 4 == 0,
    ensures
        spec_planned_dims(native, target).0 <= native.0,
        spec_planned_dims(native, target).1 <= native.1,
{
    lemma_ideal_dims_bounds(native, target);
    lemma_round4_bounded(spec_ideal_dims(native, target).0, native.0 as int);
    lemma_round4_bounded(spec_ideal_dims(native, target).1, native.1 as int);
}

/// The planner preserves the aspect ratio before block alignment: the two
/// cross products of the ideal size with the native size differ by less
/// than one native width (resp. height), that is, the ideal width-to-height
/// ratio is within 1/native.1 of the native one.
pub proof fn lemma_planned_aspect_ratio(native: (u32, u32), target: (u32, u32))
    requires
        native.0 > 0,
        native.1 > 0,
        !spec_low_res(native, target),
    ensures
        spec_ideal_dims(native, target).0 * native.1 - spec_ideal_dims(native, target).1 * native.0
            < native.0,
        spec_ideal_dims(native, target).1 * native.0 - spec_ideal_dims(native, target).0 * native.1
            < native.1,
{
    let (nw, nh) = (native.0 as int, native.1 as int);
    let (tw, th) = (target.0 as int, target.1 as int);
    if spec_width_limited(native, target) {
        let ih = (nh * tw) / nw;
        lemma_fundamental_div_mod(nh * tw, nw);
        lemma_mod_bound(nh * tw, nw);
        assert(nh * tw >= 0) by (nonlinear_arith)
            requires
                nh >= 0,
                tw >= 0,
        ;
        assert(tw * nh - ih * nw == (nh * tw) % nw) by (nonlinear_arith)
            requires
                nh * tw == nw * ih + (nh * tw) % nw,
        ;
    } else {
        let iw = (nw * th) / nh;
        lemma_fundamental_div_mod(nw * th, nh);
        lemma_mod_bound(nw * th, nh);
        assert(nw * th >= 0) by (nonlinear_arith)
            requires
                nw >= 0,
                th >= 0,
        ;
        assert(th * nw - iw * nh == (nw * th) % nh) by (nonlinear_arith)
            requires
                nw * th == nh * iw + (nw * th) % nh,
        ;
    }
}

/// A quarter-turn orientation swaps width and height.
pub open spec fn spec_rotates(o: Orientation) -> bool {
    o is Rotate90 || o is Rotate270
}

/// The ideal dimensions never exceed the native ones.
proof fn lemma_ideal_dims_bounds(native: (u32, u32), target: (u32, u32))
    requires
        native.0 > 0,
        native.1 > 0,
        !spec_low_res(native, target),
    ensures
        0 <= spec_ideal_dims(native, target).0 <= native.0,
        0 <= spec_ideal_dims(native, target).1 <= native.1,
{
    let (nw, nh) = (native.0 as int, native.1 as int);
    let (tw, th) = (target.0 as int, target.1 as int);
    if spec_width_limited(native, target) {
        assert(tw <= nw) by (nonlinear_arith)
            requires
                tw * nh <= th * nw,
                nw > 0,
                nh > 0,
                !(tw > nw && th > nh),
        ;
        assert(nh * tw <= nh * nw) by (nonlinear_arith)
            requires
                tw <= nw,
                nh > 0,
        ;
        lemma_div_is_ordered(nh * tw, nh * nw, nw);
        lemma_div_multiples_vanish(nh, nw);
        assert(nh * tw >= 0) by (nonlinear_arith)
            requires
                nh > 0,
                tw >= 0,
        ;
        lemma_div_is_ordered(0, nh * tw, nw);
    } else {
        assert(th <= nh) by (nonlinear_arith)
            requires
                tw * nh > th * nw,
                nw > 0,
                nh > 0,
                !(tw > nw && th > nh),
        ;
        assert(nw * th <= nw * nh) by (nonlinear_arith)
            requires
                th <= nh,
                nw > 0,
        ;
        lemma_div_is_ordered(nw * th, nw * nh, nh);
        lemma_div_multiples_vanish(nw, nh);
        assert(nw * th >= 0) by (nonlinear_arith)
            requires
                nw > 0,
                th >= 0,
        ;
        lemma_div_is_ordered(0, nw * th, nh);
    }
}

/// The product of two 32-bit values fits in 64 bits.
proof fn lemma_u32_mul_fits(a: int, b: int)
    requires
        0 <= a < 0x1_0000_0000,
        0 <= b < 0x1_0000_0000,
    ensures
        0 <= a * b < 0x1_0000_0000_0000_0000,
{
    assert(a * b < 0x1_0000_0000_0000_0000 && 0 <= a * b) by (nonlinear_arith)
        requires
            0 <= a < 0x1_0000_0000,
            0 <= b < 0x1_0000_0000,
    ;
}

/// Rounds `x` up to the next multiple of 4.
fn round4(x: u32) -> (r: u32)
    requires
        x <= u32::MAX - 3,
    ensures
        r as int == spec_round4(x as int),
{
    let rem = x % 4;
    if rem == 0 {
        x
    } else {
        x + (4 - rem)
    }
}

/// Whether the image is too small for the requested print density, in which
/// case the planner keeps the native size and the caller should warn once.
pub fn low_resolution(in_dims: (u32, u32), target_dims: (u32, u32)) -> (r: bool)
    ensures
        r == spec_low_res(in_dims, target_dims),
{
    target_dims.0 > in_dims.0 && target_dims.1 > in_dims.1
}

/// Picks output pixel dimensions for one image.
///
/// `target_dims` is the page extent in pixels: physical page size times the
/// required print density, per axis.  The image is scaled by the smaller of
/// the two per-axis factors so that it fits the page without cropping; it is
/// never scaled up; each output axis is rounded up to a multiple of 4 to
/// satisfy codec block alignment.  A zero native dimension is rejected.
pub fn compute_good_dimensions(in_dims: (u32, u32), target_dims: (u32, u32)) -> (r: Result<
    (u32, u32),
    PhotoError,
>)
    requires
        in_dims.0 <= u32::MAX - 3,
        in_dims.1 <= u32::MAX - 3,
    ensures
        match r {
            Ok(dims) => in_dims.0 > 0 && in_dims.1 > 0 && (dims.0 as int, dims.1 as int)
                == spec_planned_dims(in_dims, target_dims),
            Err(e) => (in_dims.0 == 0 || in_dims.1 == 0) && e == PhotoError::InvalidImageDimensions,
        },
{
    let (nw, nh) = in_dims;
    let (tw, th) = target_dims;
    if nw == 0 || nh == 0 {
        return Err(PhotoError::InvalidImageDimensions);
    }
    if tw > nw && th > nh {
        return Ok((nw, nh));
    }
    proof {
        lemma_ideal_dims_bounds(in_dims, target_dims);
        lemma_u32_mul_fits(tw as int, nh as int);
        lemma_u32_mul_fits(th as int, nw as int);
        lemma_u32_mul_fits(nh as int, tw as int);
        lemma_u32_mul_fits(nw as int, th as int);
    }
    let width_limited = (tw as u64) * (nh as u64) <= (th as u64) * (nw as u64);
    let ideal_w: u32;
    let ideal_h: u32;
    if width_limited {
        ideal_w = tw;
        ideal_h = (((nh as u64) * (tw as u64)) / (nw as u64)) as u32;
    } else {
        ideal_w = (((nw as u64) * (th as u64)) / (nh as u64)) as u32;
        ideal_h = th;
    }
    Ok((round4(ideal_w), round4(ideal_h)))
}

/// Plans the output for one scanned image: the resize dimensions from
/// [`compute_good_dimensions`], and the rotated dimensions (swapped for a
/// quarter turn) that all later layout classification uses.
pub fn plan_image(source: &SourceImageInfo, target_dims: (u32, u32), resized_path: String) -> (r:
    Result<ImageInfo, PhotoError>)
    requires
        source.dimensions.0 <= u32::MAX - 3,
        source.dimensions.1 <= u32::MAX - 3,
    ensures
        match r {
            Ok(im) => {
                &&& source.dimensions.0 > 0
                &&& source.dimensions.1 > 0
                &&& im.path@ == resized_path@
                &&& (im.resize_dims.0 as int, im.resize_dims.1 as int) == spec_planned_dims(
                    source.dimensions,
                    target_dims,
                )
                &&& im.rotated_dims == (if spec_rotates(source.orientation) {
                    (im.resize_dims.1, im.resize_dims.0)
                } else {
                    im.resize_dims
                })
                &&& im.user_req == source.user_req
            },
            Err(e) => (source.dimensions.0 == 0 || source.dimensions.1 == 0) && e
                == PhotoError::InvalidImageDimensions,
        },
{
    let resize_dims = match compute_good_dimensions(source.dimensions, target_dims) {
        Ok(dims) => dims,
        Err(e) => {
            return Err(e);
        },
    };
    let rotated_dims = match source.orientation {
        Orientation::Rotate90 | Orientation::Rotate270 => (resize_dims.1, resize_dims.0),
        _ => resize_dims,
    };
    Ok(
        ImageInfo {
            path: resized_path,
            resize_dims,
            rotated_dims,
            user_req: source.user_req,
        },
    )
}

/// Maps the value of an EXIF orientation field to an [`Orientation`].
/// The field value is the list of shorts stored under the orientation tag,
/// or `None` when the tag is absent or not a list of shorts.
pub fn orientation_from_exif(vals: Option<&Vec<u16>>) -> (r: Orientation)
    ensures
        r == match vals {
            None => Orientation::Unknown,
            Some(v) => {
                if v@.len() != 1 {
                    Orientation::Unknown
                } else if v@[0] == 1 {
                    Orientation::Keep
                } else if v@[0] == 3 {
                    Orientation::Rotate180
                } else if v@[0] == 6 {
                    Orientation::Rotate90
                } else if v@[0] == 8 {
                    Orientation::Rotate270
                } else {
                    Orientation::Flipped
                }
            },
        },
{
    match vals {
        None => Orientation::Unknown,
        Some(v) => {
            if v.len() != 1 {
                Orientation::Unknown
            } else {
                let code = v[0];
                if code == 1 {
                    Orientation::Keep
                } else if code == 3 {
                    Orientation::Rotate180
                } else if code == 6 {
                    Orientation::Rotate90
                } else if code == 8 {
                    Orientation::Rotate270
                } else {
                    Orientation::Flipped
                }
            }
        },
    }
}

/// Whether a path contains a space character; such paths are rejected
/// before any layout work starts.
pub fn path_contains_space(path: &str) -> (r: bool)
    ensures
        r == exists|i: int| 0 <= i < path@.len() && path@[i] == ' ',
{
    let n = path.unicode_len();
    let mut i: usize = 0;
    while i < n
        invariant
            n == path@.len(),
            i <= n,
            forall|j: int| 0 <= j < i ==> path@[j] != ' ',
        decreases n - i,
    {
        if path.get_char(i) == ' ' {
            return true;
        }
        i = i + 1;
    }
    false
}

} // verus!

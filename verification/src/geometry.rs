//! Image geometry: from the declared size and the crop box of an embedded
//! image to the styles of its wrapper and of the image element.
//!
//! The declared size is that of the visible, cropped box. Points become
//! pixels at `px = pt / 0.75`. The image itself is scaled up by
//! `1 / (1 - near - far)` along each axis, where `near` and `far` are the
//! fractions hidden on the two sides, and shifted by `-inner * near`, so
//! that the wrapper clips it to the visible part. All results are given in
//! hundredths of a pixel, rounded to the nearest.

use vstd::prelude::*;
use crate::decimal::{fixed_text, push_fixed, round_div, rounded_quotient};
use crate::model::{CropProperties, Dimension, EmbeddedObject, ImageProperties, RenderError};
use crate::text::{push_str, str_eq};

verus! {

/// A length of `micro_pt` millionths of a point, in hundredths of a pixel.
pub open spec fn px_hundredths(micro_pt: int) -> int {
    round_div(micro_pt * 400, 3_000_000)
}

/// What is left visible, in millionths, when `near` and `far` are hidden.
pub open spec fn visible(near: int, far: int) -> int {
    1_000_000 - near - far
}

/// The size of the uncropped image along one axis, in hundredths of a pixel.
pub open spec fn inner_hundredths(micro_pt: int, near: int, far: int) -> int
    recommends
        visible(near, far) > 0,
{
    round_div(micro_pt * 400, 3 * visible(near, far))
}

/// The margin that shifts the uncropped image, in hundredths of a pixel.
pub open spec fn margin_hundredths(micro_pt: int, near: int, far: int) -> int
    recommends
        visible(near, far) > 0,
{
    round_div(-(micro_pt * 400 * near), 3_000_000 * visible(near, far))
}

/// The style of a box of the given width and height.
pub open spec fn size_style(width: int, height: int) -> Seq<char> {
    "width:"@ + fixed_text(width, 2) + "px;height:"@ + fixed_text(height, 2) + "px;"@
}

/// The style of a rotation by `angle` millionths of a radian, if any.
pub open spec fn rotation_style(angle: Option<i64>) -> Seq<char> {
    match angle {
        Some(a) => "transform:rotate("@ + fixed_text(round_div(a as int, 1000), 3)
            + "rad) translateZ(0px);"@,
        None => Seq::empty(),
    }
}

/// The crop box of an image; no crop box hides nothing.
pub open spec fn crop_of(image: ImageProperties) -> CropProperties {
    match image.crop {
        Some(c) => c,
        None => CropProperties {
            offset_top: 0,
            offset_bottom: 0,
            offset_left: 0,
            offset_right: 0,
            angle: None,
        },
    }
}

/// Whether the object can be laid out, and if not, why.
pub open spec fn layout_error(object: EmbeddedObject, image: ImageProperties) -> Option<
    RenderError,
> {
    let crop = crop_of(image);
    if object.width.unit@ != "PT"@ {
        Some(RenderError::UnsupportedUnit(object.width.unit))
    } else if object.height.unit@ != "PT"@ {
        Some(RenderError::UnsupportedUnit(object.height.unit))
    } else if visible(crop.offset_left as int, crop.offset_right as int) <= 0 || visible(
        crop.offset_top as int,
        crop.offset_bottom as int,
    ) <= 0 {
        Some(RenderError::DegenerateCrop)
    } else {
        None
    }
}

/// The style of the wrapper: the declared size, and the rotation of the image.
pub open spec fn wrapper_style(object: EmbeddedObject, image: ImageProperties) -> Seq<char> {
    size_style(
        px_hundredths(object.width.magnitude as int),
        px_hundredths(object.height.magnitude as int),
    ) + rotation_style(image.angle)
}

/// The style of the image element: the rotation of the crop box, the size
/// of the uncropped image, and the margins that bring the visible part
/// under the wrapper.
pub open spec fn image_style(object: EmbeddedObject, image: ImageProperties) -> Seq<char> {
    let crop = crop_of(image);
    let w = object.width.magnitude as int;
    let h = object.height.magnitude as int;
    let (l, r) = (crop.offset_left as int, crop.offset_right as int);
    let (t, b) = (crop.offset_top as int, crop.offset_bottom as int);
    rotation_style(crop.angle) + size_style(inner_hundredths(w, l, r), inner_hundredths(h, t, b))
        + "margin-left:"@ + fixed_text(margin_hundredths(w, l, r), 2) + "px;margin-top:"@
        + fixed_text(margin_hundredths(h, t, b), 2) + "px;"@
}

/// The length `dimension` in hundredths of a pixel. Points are the only
/// unit that is supported; the error names any other unit.
pub fn dimension_to_px(dimension: &Dimension) -> (r: Result<i128, RenderError>)
    ensures
        r == if dimension.unit@ == "PT"@ {
            Ok::<i128, RenderError>(px_hundredths(dimension.magnitude as int) as i128)
        } else {
            Err::<i128, RenderError>(RenderError::UnsupportedUnit(dimension.unit))
        },
        r matches Ok(px) ==> px == px_hundredths(dimension.magnitude as int) && -0x1_0000_0000_0000_0000_0000
            < px < 0x1_0000_0000_0000_0000_0000,
{
    if str_eq(dimension.unit.as_str(), "PT") {
        let p: i128 = (dimension.magnitude as i128) * 400;
        Ok(rounded_quotient(p, 3_000_000))
    } else {
        Err(RenderError::UnsupportedUnit(dimension.unit.clone()))
    }
}

/// The size of the uncropped image along one axis, and the margin that
/// shifts it, both in hundredths of a pixel.
pub fn inner_geometry(micro_pt: i64, near: i32, far: i32) -> (r: (i128, i128))
    requires
        visible(near as int, far as int) > 0,
    ensures
        r.0 == inner_hundredths(micro_pt as int, near as int, far as int),
        r.1 == margin_hundredths(micro_pt as int, near as int, far as int),
        -0x1000_0000_0000_0000_0000_0000_0000 < r.0 < 0x1000_0000_0000_0000_0000_0000_0000,
        -0x1000_0000_0000_0000_0000_0000_0000 < r.1 < 0x1000_0000_0000_0000_0000_0000_0000,
{
    let seen: i128 = 1_000_000 - (near as i128) - (far as i128);
    let scaled: i128 = (micro_pt as i128) * 400;
    let size: i128 = rounded_quotient(scaled, 3 * seen);
    proof {
        lemma_product_bound(scaled as int, near as int, 0x100_0000_0000_0000_0000, 0x1_0000_0000);
    }
    let shift: i128 = -(scaled * (near as i128));
    assert(shift == -(micro_pt * 400 * near)) by (nonlinear_arith)
        requires
            shift == -(scaled * (near as i128)),
            scaled == micro_pt * 400,
    ;
    let margin: i128 = rounded_quotient(shift, 3_000_000 * seen);
    (size, margin)
}

/// A product is bounded by the product of the bounds of its factors.
pub proof fn lemma_product_bound(x: int, y: int, a: int, b: int)
    requires
        -a < x < a,
        -b < y < b,
    ensures
        -(a * b) < x * y < a * b,
{
    assert(-(a * b) < x * y < a * b) by (nonlinear_arith)
        requires
            -a < x < a,
            -b < y < b,
    ;
}

/// Appends the style of a box of the given size to `out`.
pub fn push_size_style(out: &mut Vec<char>, width: i128, height: i128)
    requires
        width > i128::MIN,
        height > i128::MIN,
    ensures
        final(out)@ == old(out)@ + size_style(width as int, height as int),
{
    push_str(out, "width:");
    push_fixed(out, width, 2);
    push_str(out, "px;height:");
    push_fixed(out, height, 2);
    push_str(out, "px;");
}

/// Appends the style of a rotation to `out`.
pub fn push_rotation_style(out: &mut Vec<char>, angle: Option<i64>)
    ensures
        final(out)@ == old(out)@ + rotation_style(angle),
{
    match angle {
        Some(a) => {
            push_str(out, "transform:rotate(");
            let milli: i128 = rounded_quotient(a as i128, 1000);
            push_fixed(out, milli, 3);
            push_str(out, "rad) translateZ(0px);");
        },
        None => {
            assert(old(out)@ + Seq::<char>::empty() == old(out)@);
        },
    }
}

/// The styles of the wrapper and of the image element of an embedded image.
pub fn image_styles(object: &EmbeddedObject, image: &ImageProperties) -> (r: Result<
    (Vec<char>, Vec<char>),
    RenderError,
>)
    ensures
        match r {
            Ok((wrapper, inner)) => layout_error(*object, *image) is None && wrapper@
                == wrapper_style(*object, *image) && inner@ == image_style(*object, *image),
            Err(e) => layout_error(*object, *image) == Some(e),
        },
{
    let width: i128 = match dimension_to_px(&object.width) {
        Ok(px) => px,
        Err(e) => {
            return Err(e);
        },
    };
    let height: i128 = match dimension_to_px(&object.height) {
        Ok(px) => px,
        Err(e) => {
            return Err(e);
        },
    };
    let crop: CropProperties = match image.crop {
        Some(c) => c,
        None => CropProperties {
            offset_top: 0,
            offset_bottom: 0,
            offset_left: 0,
            offset_right: 0,
            angle: None,
        },
    };
    assert(crop == crop_of(*image));
    let across: i64 = 1_000_000 - (crop.offset_left as i64) - (crop.offset_right as i64);
    let down: i64 = 1_000_000 - (crop.offset_top as i64) - (crop.offset_bottom as i64);
    if across <= 0 || down <= 0 {
        return Err(RenderError::DegenerateCrop);
    }
    let mut wrapper: Vec<char> = Vec::new();
    push_size_style(&mut wrapper, width, height);
    push_rotation_style(&mut wrapper, image.angle);
    let (inner_width, margin_left) = inner_geometry(
        object.width.magnitude,
        crop.offset_left,
        crop.offset_right,
    );
    let (inner_height, margin_top) = inner_geometry(
        object.height.magnitude,
        crop.offset_top,
        crop.offset_bottom,
    );
    let mut inner: Vec<char> = Vec::new();
    push_rotation_style(&mut inner, crop.angle);
    push_size_style(&mut inner, inner_width, inner_height);
    push_str(&mut inner, "margin-left:");
    push_fixed(&mut inner, margin_left, 2);
    push_str(&mut inner, "px;margin-top:");
    push_fixed(&mut inner, margin_top, 2);
    push_str(&mut inner, "px;");
    Ok((wrapper, inner))
}

} // verus!

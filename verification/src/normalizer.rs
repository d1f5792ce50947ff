//! Normalizes source images to the configured atlas pixel format.
//!
//! An image whose format already matches passes through untouched. A
//! mismatched image is converted when automatic conversion is enabled and
//! the two formats share a four-channel layout - the conversion is at most
//! a swap of the first and third channel - and rejected otherwise.

use vstd::prelude::*;

use crate::error::SpriteSheetLoaderError;
use crate::format::TextureFormat;
use crate::image::Image;

verus! {

/// Rewrites `image` in format `to`, swapping the first and third channel
/// where the layouts differ.
fn convert_image(image: &Image, to: TextureFormat) -> (r: Image)
    requires
        image.wf(),
        image.format.convertible_to(to),
        image.format != to,
    ensures
        r.wf(),
        r.width == image.width,
        r.height == image.height,
        r.format == to,
        forall|x: int, y: int, c: int|
            0 <= x < image.width && 0 <= y < image.height && 0 <= c
                < image.format.bytes_per_pixel() ==> #[trigger] r.byte_at(x, y, c)
                == image.byte_at(x, y, image.format.source_channel(to, c)),
{
    let from = image.format;
    let swap: bool = match (from, to) {
        (TextureFormat::Rgba8Unorm, TextureFormat::Bgra8Unorm) => true,
        (TextureFormat::Rgba8Unorm, TextureFormat::Bgra8UnormSrgb) => true,
        (TextureFormat::Rgba8UnormSrgb, TextureFormat::Bgra8Unorm) => true,
        (TextureFormat::Rgba8UnormSrgb, TextureFormat::Bgra8UnormSrgb) => true,
        (TextureFormat::Bgra8Unorm, TextureFormat::Rgba8Unorm) => true,
        (TextureFormat::Bgra8Unorm, TextureFormat::Rgba8UnormSrgb) => true,
        (TextureFormat::Bgra8UnormSrgb, TextureFormat::Rgba8Unorm) => true,
        (TextureFormat::Bgra8UnormSrgb, TextureFormat::Rgba8UnormSrgb) => true,
        _ => false,
    };
    proof {
        assert(swap == ((from.is_rgba_layout() && to.is_bgra_layout()) || (
        from.is_bgra_layout() && to.is_rgba_layout())));
        assert(from.bytes_per_pixel() == 4 && to.bytes_per_pixel() == 4);
    }
    let s0: usize = if swap {
        2
    } else {
        0
    };
    let s2: usize = if swap {
        0
    } else {
        2
    };
    let ghost w = image.width as int;
    let ghost h = image.height as int;
    let data_len: usize = image.data.len();
    proof {
        assert(w * h <= w * h * 4 && (w * h) * 4 == w * h * 4) by (nonlinear_arith)
            requires
                0 <= w,
                0 <= h,
        ;
    }
    let npix: usize = (image.width as usize) * (image.height as usize);
    let mut out: Vec<u8> = Vec::new();
    let mut pix: usize = 0;
    while pix < npix
        invariant
            pix <= npix,
            npix == w * h,
            w == image.width as int,
            h == image.height as int,
            image.wf(),
            image.format == from,
            from.bytes_per_pixel() == 4,
            data_len == w * h * 4,
            s0 == from.source_channel(to, 0),
            1 == from.source_channel(to, 1),
            s2 == from.source_channel(to, 2),
            3 == from.source_channel(to, 3),
            s0 < 4,
            s2 < 4,
            out@.len() == pix * 4,
            forall|p: int, c: int|
                0 <= p < pix && 0 <= c < 4 ==> #[trigger] out@[p * 4 + c] == image.data@[p * 4
                    + from.source_channel(to, c)],
        decreases npix - pix,
    {
        proof {
            assert(pix * 4 + 4 <= npix * 4 && (pix + 1) * 4 == pix * 4 + 4 && npix * 4 == w * h
                * 4) by (nonlinear_arith)
                requires
                    pix < npix,
                    npix == w * h,
            ;
        }
        let base: usize = pix * 4;
        let b0 = image.data[base + s0];
        let b1 = image.data[base + 1];
        let b2 = image.data[base + s2];
        let b3 = image.data[base + 3];
        out.push(b0);
        out.push(b1);
        out.push(b2);
        out.push(b3);
        proof {
            assert forall|p: int, c: int| 0 <= p < pix + 1 && 0 <= c < 4 implies #[trigger] out@[
                p * 4 + c
            ] == image.data@[p * 4 + from.source_channel(to, c)] by {
                if p == pix {
                    assert(p * 4 + c == out@.len() - 4 + c) by (nonlinear_arith)
                        requires
                            out@.len() == (pix + 1) * 4,
                            p == pix,
                            0 <= c < 4,
                    ;
                }
            }
        }
        pix = pix + 1;
    }
    proof {
        assert(out@.len() == w * h * to.bytes_per_pixel()) by (nonlinear_arith)
            requires
                out@.len() == npix * 4,
                npix == w * h,
                to.bytes_per_pixel() == 4,
        ;
    }
    let r = Image { data: out, width: image.width, height: image.height, format: to };
    proof {
        assert forall|x: int, y: int, c: int|
            0 <= x < image.width && 0 <= y < image.height && 0 <= c < 4 implies #[trigger] r
            .byte_at(x, y, c) == image.byte_at(x, y, from.source_channel(to, c)) by {
            assert(0 <= y * w + x < npix && (y * w + x) * 4 + c == (y * w + x) * 4 + c)
                by (nonlinear_arith)
                requires
                    0 <= x < w,
                    0 <= y < h,
                    npix == w * h,
            ;
            assert(out@[(y * w + x) * 4 + c] == image.data@[(y * w + x) * 4
                + from.source_channel(to, c)]);
        }
    }
    r
}

/// An image of this format is accepted for an atlas of format `target`
/// under the given conversion policy.
pub open spec fn image_format_ok(img_format: TextureFormat, target: TextureFormat, auto: bool) -> bool {
    img_format == target || (auto && img_format.convertible_to(target))
}

/// Passes `image` through when its format is `target`; otherwise converts
/// it when `auto` allows and the formats are convertible, and fails with
/// the matching error when not.
pub fn normalize_image(image: Image, target: TextureFormat, auto: bool) -> (r: Result<
    Image,
    SpriteSheetLoaderError,
>)
    requires
        image.wf(),
    ensures
        r is Ok <==> image_format_ok(image.format, target, auto),
        (match r {
            Ok(out) => {
                &&& out.wf()
                &&& out.width == image.width
                &&& out.height == image.height
                &&& out.format == target
                &&& image.format == target ==> out == image
                &&& forall|x: int, y: int, c: int|
                    0 <= x < image.width && 0 <= y < image.height && 0 <= c
                        < image.format.bytes_per_pixel() ==> #[trigger] out.byte_at(x, y, c)
                        == image.byte_at(x, y, image.format.source_channel(target, c))
            },
            Err(e) => {
                &&& image.format != target
                &&& (match e {
                    SpriteSheetLoaderError::FormatIncompatibleError { found, expected } => {
                        !auto && found == image.format && expected == target
                    },
                    SpriteSheetLoaderError::FormatConversionError { from, to } => {
                        auto && !image.format.convertible_to(target) && from == image.format
                            && to == target
                    },
                    _ => false,
                })
            },
        }),
{
    if image.format == target {
        proof {
            assert(image.format.source_channel(target, 0) == 0 && image.format.source_channel(
                target,
                1,
            ) == 1 && image.format.source_channel(target, 2) == 2
                && image.format.source_channel(target, 3) == 3);
        }
        return Ok(image);
    }
    if !auto {
        return Err(
            SpriteSheetLoaderError::FormatIncompatibleError {
                found: image.format,
                expected: target,
            },
        );
    }
    let convertible: bool = match (image.format, target) {
        (TextureFormat::R8Unorm, _) => false,
        (_, TextureFormat::R8Unorm) => false,
        _ => true,
    };
    proof {
        assert(convertible == image.format.convertible_to(target));
    }
    if !convertible {
        return Err(
            SpriteSheetLoaderError::FormatConversionError { from: image.format, to: target },
        );
    }
    Ok(convert_image(&image, target))
}

} // verus!

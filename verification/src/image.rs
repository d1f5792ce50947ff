//! Decoded images as plain pixel buffers, and byte-exact operations on them.
//!
//! An [`Image`] is a row-major byte buffer together with its dimensions and
//! pixel format. The buffer holds `width * height` pixels of
//! `bytes_per_pixel` bytes each, rows first: the byte of channel `c` of the
//! pixel at `(x, y)` sits at index `(y * width + x) * bytes_per_pixel + c`.

use vstd::prelude::*;

use crate::error::InvalidRectError;
use crate::format::TextureFormat;
use crate::math::{URect, UVec2};

verus! {

/// Index of channel `c` of the pixel at `(x, y)` in a row-major buffer of
/// width `w` with `bpp` bytes per pixel.
pub open spec fn pixel_byte_index(w: int, bpp: int, x: int, y: int, c: int) -> int {
    (y * w + x) * bpp + c
}

/// A pixel's byte index lies within the buffer of a `w` by `h` image.
pub proof fn lemma_pixel_index_bound(w: int, bpp: int, h: int, x: int, y: int, c: int)
    requires
        0 <= x < w,
        0 <= y < h,
        0 <= c < bpp,
    ensures
        0 <= pixel_byte_index(w, bpp, x, y, c) < w * h * bpp,
{
    assert(0 <= (y * w + x) * bpp + c < w * h * bpp) by (nonlinear_arith)
        requires
            0 <= x < w,
            0 <= y < h,
            0 <= c < bpp,
    ;
}

/// The bytes of the row segment of `wlen` pixels starting at `(xs, ys)` are
/// exactly the byte indices of the pixels `(x, ys)` with `xs <= x < xs + wlen`:
/// a pixel's byte index falls in the segment's byte range precisely when the
/// pixel lies on that segment.
pub proof fn lemma_row_segment_covers(
    w: int,
    bpp: int,
    xs: int,
    wlen: int,
    ys: int,
    x: int,
    y: int,
    c: int,
)
    requires
        1 <= bpp,
        0 <= xs,
        0 <= wlen,
        xs + wlen <= w,
        0 <= ys,
        0 <= x < w,
        0 <= y,
        0 <= c < bpp,
    ensures
        (pixel_byte_index(w, bpp, xs, ys, 0) <= pixel_byte_index(w, bpp, x, y, c)
            && pixel_byte_index(w, bpp, x, y, c) < pixel_byte_index(w, bpp, xs, ys, 0) + wlen
            * bpp) <==> (y == ys && xs <= x && x < xs + wlen),
{
    let base = (ys * w + xs) * bpp;
    let idx = (y * w + x) * bpp + c;
    if y == ys && xs <= x && x < xs + wlen {
        assert(base <= idx && idx < base + wlen * bpp) by (nonlinear_arith)
            requires
                base == (ys * w + xs) * bpp,
                idx == (y * w + x) * bpp + c,
                y == ys,
                xs <= x < xs + wlen,
                0 <= c < bpp,
        ;
    }
    if y < ys {
        assert(idx < base) by (nonlinear_arith)
            requires
                base == (ys * w + xs) * bpp,
                idx == (y * w + x) * bpp + c,
                y < ys,
                0 <= x < w,
                0 <= c < bpp,
                0 <= xs,
                0 <= y,
        ;
    }
    if y > ys {
        assert(y * w + x >= (ys + 1) * w) by (nonlinear_arith)
            requires
                y >= ys + 1,
                0 <= x,
                0 <= w,
        ;
        assert(((ys + 1) * w) * bpp >= (ys * w + xs + wlen) * bpp) by (nonlinear_arith)
            requires
                xs + wlen <= w,
                1 <= bpp,
                0 <= ys,
                0 <= w,
        ;
        assert((y * w + x) * bpp >= ((ys + 1) * w) * bpp) by (nonlinear_arith)
            requires
                y * w + x >= (ys + 1) * w,
                1 <= bpp,
        ;
        assert((ys * w + xs + wlen) * bpp == base + wlen * bpp) by (nonlinear_arith)
            requires
                base == (ys * w + xs) * bpp,
        ;
        assert(idx >= base + wlen * bpp);
    }
    if y == ys && x < xs {
        assert(idx < base) by (nonlinear_arith)
            requires
                base == (ys * w + xs) * bpp,
                idx == (y * w + x) * bpp + c,
                y == ys,
                x < xs,
                0 <= c < bpp,
                0 <= x,
        ;
    }
    if y == ys && x >= xs + wlen {
        assert(idx >= base + wlen * bpp) by (nonlinear_arith)
            requires
                base == (ys * w + xs) * bpp,
                idx == (y * w + x) * bpp + c,
                y == ys,
                x >= xs + wlen,
                0 <= c,
                1 <= bpp,
                0 <= wlen,
        ;
    }
}

/// A decoded image: a row-major pixel buffer with its size and format.
#[derive(Debug, Clone, PartialEq, Eq)]
pub struct Image {
    /// The pixel bytes, rows first.
    pub data: Vec<u8>,
    /// Width in pixels.
    pub width: u32,
    /// Height in pixels.
    pub height: u32,
    /// Format of every pixel in `data`.
    pub format: TextureFormat,
}

impl Image {
    /// The buffer holds exactly `width * height` pixels of this format.
    pub open spec fn wf(self) -> bool {
        self.data@.len() == self.width as int * self.height as int
            * self.format.bytes_per_pixel()
    }

    /// Byte of channel `c` of the pixel at `(x, y)`.
    pub open spec fn byte_at(self, x: int, y: int, c: int) -> u8 {
        self.data@[pixel_byte_index(
            self.width as int,
            self.format.bytes_per_pixel(),
            x,
            y,
            c,
        )]
    }

    /// Builds an image from its parts; the buffer must match the dimensions.
    pub fn new(width: u32, height: u32, format: TextureFormat, data: Vec<u8>) -> (r: Image)
        requires
            data@.len() == width as int * height as int * format.bytes_per_pixel(),
        ensures
            r.wf(),
            r.width == width,
            r.height == height,
            r.format == format,
            r.data == data,
    {
        Image { data, width, height, format }
    }

    /// Size of the image in pixels.
    pub fn size(&self) -> (r: UVec2)
        ensures
            r.x == self.width,
            r.y == self.height,
    {
        UVec2 { x: self.width, y: self.height }
    }

    /// Allocates an image of the given size with every byte zero.
    pub fn filled_zero(width: u32, height: u32, format: TextureFormat) -> (r: Image)
        requires
            width as int * height as int * format.bytes_per_pixel() <= usize::MAX,
        ensures
            r.wf(),
            r.width == width,
            r.height == height,
            r.format == format,
            forall|i: int| 0 <= i < r.data@.len() ==> r.data@[i] == 0u8,
    {
        let ps: usize = format.pixel_size();
        proof {
            assert(width as int * height as int <= width as int * height as int
                * format.bytes_per_pixel() && width as int * height as int
                * format.bytes_per_pixel() == (width as int * height as int)
                * format.bytes_per_pixel()) by (nonlinear_arith)
                requires
                    format.bytes_per_pixel() >= 1,
            ;
        }
        let npix: usize = (width as usize) * (height as usize);
        let n: usize = npix * ps;
        let mut data: Vec<u8> = Vec::new();
        let mut i: usize = 0;
        while i < n
            invariant
                i <= n,
                data@.len() == i,
                forall|j: int| 0 <= j < i ==> data@[j] == 0u8,
            decreases n - i,
        {
            data.push(0u8);
            i = i + 1;
        }
        Image { data, width, height, format }
    }
}

/// Copies `len` bytes from `src` at `src_off` into `dst` at `dst_off`;
/// every byte of `dst` outside the written range keeps its value.
pub(crate) fn copy_bytes(
    dst: &mut Vec<u8>,
    dst_off: usize,
    src: &Vec<u8>,
    src_off: usize,
    len: usize,
)
    requires
        dst_off + len <= old(dst)@.len(),
        src_off + len <= src@.len(),
    ensures
        final(dst)@.len() == old(dst)@.len(),
        forall|j: int|
            0 <= j < len ==> #[trigger] final(dst)@[dst_off + j] == src@[src_off + j],
        forall|t: int|
            0 <= t < final(dst)@.len() && !(dst_off <= t < dst_off + len)
                ==> #[trigger] final(dst)@[t] == old(dst)@[t],
{
    let src_len: usize = src.len();
    let dst_len: usize = dst.len();
    let mut j: usize = 0;
    while j < len
        invariant
            j <= len,
            dst_off + len <= dst_len,
            src_off + len <= src_len,
            src_len == src@.len(),
            dst_len == dst@.len(),
            dst@.len() == old(dst)@.len(),
            forall|k: int| 0 <= k < j ==> #[trigger] dst@[dst_off + k] == src@[src_off + k],
            forall|t: int|
                0 <= t < dst@.len() && !(dst_off <= t < dst_off + j) ==> #[trigger] dst@[t]
                    == old(dst)@[t],
        decreases len - j,
    {
        let b = src[src_off + j];
        dst.set(dst_off + j, b);
        j = j + 1;
    }
}

/// Cuts the rectangle `rect` out of `image` as a new image of the same
/// format; fails when the rectangle does not lie within the image.
pub fn extract_texture_from_rect(image: &Image, rect: URect, path: &String) -> (r: Result<
    Image,
    InvalidRectError,
>)
    requires
        image.wf(),
        rect.wf(),
    ensures
        r is Ok <==> rect.max.x <= image.width && rect.max.y <= image.height,
        (match r {
            Ok(out) => {
                &&& out.wf()
                &&& out.width == rect.spec_width()
                &&& out.height == rect.spec_height()
                &&& out.format == image.format
                &&& forall|x: int, y: int, c: int|
                    0 <= x < rect.spec_width() && 0 <= y < rect.spec_height() && 0 <= c
                        < image.format.bytes_per_pixel() ==> out.byte_at(x, y, c)
                        == image.byte_at(rect.min.x + x, rect.min.y + y, c)
            },
            Err(e) => e.0 == rect.min && e.1 == rect.max && e.2@ == path@,
        }),
{
    if rect.max.x > image.width || rect.max.y > image.height {
        return Err(InvalidRectError(rect.min, rect.max, path.clone()));
    }
    let w: u32 = rect.max.x - rect.min.x;
    let h: u32 = rect.max.y - rect.min.y;
    let ps: usize = image.format.pixel_size();
    let ghost bpp = image.format.bytes_per_pixel();
    let ghost iw = image.width as int;
    let ghost ih = image.height as int;
    let data_len: usize = image.data.len();
    proof {
        assert(w as int * h as int * bpp <= iw * ih * bpp && w as int * h as int <= w as int
            * h as int * bpp && (w as int * h as int) * bpp == w as int * h as int * bpp)
            by (nonlinear_arith)
            requires
                0 <= w <= iw,
                0 <= h <= ih,
                1 <= bpp,
        ;
        assert(w as int * h as int * bpp <= data_len);
    }
    let npix: usize = (w as usize) * (h as usize);
    let n: usize = npix * ps;
    let mut data: Vec<u8> = Vec::new();
    let mut i: usize = 0;
    while i < n
        invariant
            i <= n,
            data@.len() == i,
        decreases n - i,
    {
        data.push(0u8);
        i = i + 1;
    }
    let mut row: u32 = 0;
    while row < h
        invariant
            row <= h,
            w == rect.max.x - rect.min.x,
            h == rect.max.y - rect.min.y,
            rect.max.x <= image.width,
            rect.max.y <= image.height,
            ps == bpp,
            bpp == image.format.bytes_per_pixel(),
            1 <= bpp,
            iw == image.width as int,
            ih == image.height as int,
            image.wf(),
            data_len == iw * ih * bpp,
            n == w as int * h as int * bpp,
            data@.len() == n,
            forall|x: int, y: int, c: int|
                0 <= x < w && 0 <= y < row && 0 <= c < bpp ==> data@[pixel_byte_index(
                    w as int,
                    bpp,
                    x,
                    y,
                    c,
                )] == image.byte_at(rect.min.x + x, rect.min.y + y, c),
        decreases h - row,
    {
        proof {
            assert(row as int * w as int * bpp + w as int * bpp <= w as int * h as int * bpp
                && (row as int * w as int) * bpp == row as int * w as int * bpp
                && ((rect.min.y as int + row as int) * iw + rect.min.x as int) * bpp + w as int
                * bpp <= iw * ih * bpp && (rect.min.y as int + row as int) * iw
                + rect.min.x as int >= 0 && (rect.min.y as int + row as int) * iw
                + rect.min.x as int <= iw * ih && iw * ih <= iw * ih * bpp && row as int
                * w as int <= w as int * h as int && w as int * h as int <= w as int * h as int
                * bpp && 0 <= w as int * bpp && w as int * bpp <= w as int * h as int * bpp)
                by (nonlinear_arith)
                requires
                    0 <= row < h,
                    rect.min.x as int + w as int <= iw,
                    rect.min.y as int + h as int <= ih,
                    0 <= rect.min.x,
                    0 <= rect.min.y,
                    0 <= w,
                    1 <= bpp,
            ;
            assert(w as int * h as int * bpp == n && iw * ih * bpp == image.data@.len());
        }
        let dst_begin: usize = (row as usize) * (w as usize) * ps;
        let src_begin: usize = ((rect.min.y as usize + row as usize) * (image.width as usize)
            + rect.min.x as usize) * ps;
        let seg: usize = (w as usize) * ps;
        proof {
            assert(dst_begin == (row as int * w as int) * bpp && src_begin == ((rect.min.y
                + row) * iw + rect.min.x) * bpp && dst_begin + seg <= n && src_begin + seg <= iw
                * ih * bpp) by (nonlinear_arith)
                requires
                    dst_begin == row as int * w as int * bpp,
                    src_begin == ((rect.min.y as int + row as int) * iw + rect.min.x as int)
                        * bpp,
                    seg == w as int * bpp,
                    n == w as int * h as int * bpp,
                    0 <= row < h,
                    rect.min.x as int + w as int <= iw,
                    rect.min.y as int + h as int <= ih,
                    0 <= rect.min.x,
                    0 <= rect.min.y,
                    0 <= w,
                    1 <= bpp,
            ;
        }
        copy_bytes(&mut data, dst_begin, &image.data, src_begin, seg);
        proof {
            assert forall|x: int, y: int, c: int|
                0 <= x < w && 0 <= y < row + 1 && 0 <= c < bpp implies data@[pixel_byte_index(
                w as int,
                bpp,
                x,
                y,
                c,
            )] == image.byte_at(rect.min.x + x, rect.min.y + y, c) by {
                lemma_row_segment_covers(w as int, bpp, 0, w as int, row as int, x, y, c);
                lemma_pixel_index_bound(w as int, bpp, h as int, x, y, c);
                if y == row {
                    assert(pixel_byte_index(w as int, bpp, x, y, c) == dst_begin + (x * bpp
                        + c) && 0 <= x * bpp + c < seg && pixel_byte_index(iw, bpp, rect.min.x
                        + x, rect.min.y + y, c) == src_begin + (x * bpp + c))
                        by (nonlinear_arith)
                        requires
                            dst_begin == row as int * w as int * bpp,
                            src_begin == ((rect.min.y as int + row as int) * iw
                                + rect.min.x as int) * bpp,
                            seg == w as int * bpp,
                            y == row,
                            0 <= x < w,
                            0 <= c < bpp,
                    ;
                } else {
                    assert(pixel_byte_index(w as int, bpp, x, y, c) < dst_begin)
                        by (nonlinear_arith)
                        requires
                            dst_begin == row as int * w as int * bpp,
                            0 <= x < w,
                            0 <= y < row,
                            0 <= c < bpp,
                    ;
                }
            }
        }
        row = row + 1;
    }
    Ok(Image { data, width: w, height: h, format: image.format })
}

} // verus!

//! Composites source regions into the destination atlas buffer.
//!
//! The compositor allocates one zero-initialized buffer for the whole atlas
//! and copies every placed region into it row by row. Regions were placed
//! disjointly, so the copies never touch each other's bytes, and every byte
//! outside all regions - the padding between them - stays zero.

use vstd::prelude::*;

use crate::descriptor::SubImageDescriptor;
use crate::format::TextureFormat;
use crate::image::{copy_bytes, pixel_byte_index, Image, lemma_pixel_index_bound,
    lemma_row_segment_covers};
use crate::math::UVec2;
use crate::packer::rects_disjoint;

verus! {

/// The pixel `(x, y)` lies in the region of size `s` placed at `p`.
pub open spec fn in_region(p: UVec2, s: UVec2, x: int, y: int) -> bool {
    p.x <= x < p.x + s.x && p.y <= y < p.y + s.y
}

/// The pixel `(x, y)` lies in the first `rows` rows of the region of size
/// `s` placed at `p`.
pub open spec fn in_region_rows(p: UVec2, s: UVec2, x: int, y: int, rows: int) -> bool {
    p.x <= x < p.x + s.x && p.y <= y < p.y + rows
}

/// The source byte that the atlas pixel `(x, y)`, lying in region `t`,
/// shows after compositing: channel `c` of the corresponding pixel of the
/// region's source image.
pub open spec fn region_source_byte(
    sources: Seq<Image>,
    descs: Seq<SubImageDescriptor>,
    region_pos: Seq<UVec2>,
    t: int,
    x: int,
    y: int,
    c: int,
) -> u8 {
    sources[descs[t].source_index as int].byte_at(
        descs[t].position.x + (x - region_pos[t].x),
        descs[t].position.y + (y - region_pos[t].y),
        c,
    )
}

/// What the compositor relies on: positions and descriptors correspond,
/// every descriptor names a well-formed source image of the atlas format,
/// every region lies within its source image and, at its position, within
/// the atlas, and no two placed regions overlap.
pub open spec fn composite_req(
    sources: Seq<Image>,
    descs: Seq<SubImageDescriptor>,
    region_pos: Seq<UVec2>,
    atlas_size: UVec2,
    format: TextureFormat,
) -> bool {
    &&& region_pos.len() == descs.len()
    &&& forall|s: int| 0 <= s < sources.len() ==> (#[trigger] sources[s]).wf()
    &&& forall|s: int| 0 <= s < sources.len() ==> (#[trigger] sources[s]).format == format
    &&& forall|t: int|
        0 <= t < descs.len() ==> (#[trigger] descs[t]).source_index < sources.len()
    &&& forall|t: int|
        0 <= t < descs.len() ==> (#[trigger] descs[t]).position.x + descs[t].size.x <= sources[
            descs[t].source_index as int
        ].width && descs[t].position.y + descs[t].size.y <= sources[
            descs[t].source_index as int
        ].height
    &&& forall|t: int|
        0 <= t < descs.len() ==> (#[trigger] region_pos[t]).x + descs[t].size.x <= atlas_size.x
            && region_pos[t].y + descs[t].size.y <= atlas_size.y
    &&& forall|i: int, j: int|
        0 <= i < j < descs.len() ==> rects_disjoint(
            #[trigger] region_pos[i],
            descs[i].size,
            #[trigger] region_pos[j],
            descs[j].size,
        )
}

/// Allocates the atlas buffer and copies every region's source bytes to its
/// position. Each pixel of a placed region shows the corresponding source
/// byte; every pixel outside all regions is zero on every channel.
pub fn composite(
    sources: &Vec<Image>,
    descs: &Vec<SubImageDescriptor>,
    region_pos: &Vec<UVec2>,
    atlas_size: UVec2,
    format: TextureFormat,
) -> (r: Image)
    requires
        composite_req(sources@, descs@, region_pos@, atlas_size, format),
        atlas_size.x as int * atlas_size.y as int * format.bytes_per_pixel() <= usize::MAX,
    ensures
        r.wf(),
        r.width == atlas_size.x,
        r.height == atlas_size.y,
        r.format == format,
        forall|t: int, x: int, y: int, c: int|
            #![trigger region_source_byte(sources@, descs@, region_pos@, t, x, y, c)]
            0 <= t < descs@.len() && in_region(region_pos@[t], descs@[t].size, x, y) && 0 <= c
                < format.bytes_per_pixel() ==> r.byte_at(x, y, c) == region_source_byte(
                sources@,
                descs@,
                region_pos@,
                t,
                x,
                y,
                c,
            ),
        forall|x: int, y: int, c: int|
            #![trigger r.byte_at(x, y, c)]
            0 <= x < atlas_size.x && 0 <= y < atlas_size.y && 0 <= c
                < format.bytes_per_pixel() && (forall|t: int|
                0 <= t < descs@.len() ==> !in_region(
                    #[trigger] region_pos@[t],
                    descs@[t].size,
                    x,
                    y,
                )) ==> r.byte_at(x, y, c) == 0u8,
{
    let ps: usize = format.pixel_size();
    let ghost bpp = format.bytes_per_pixel();
    let ghost awi = atlas_size.x as int;
    let ghost ahi = atlas_size.y as int;
    proof {
        assert(awi * ahi <= awi * ahi * bpp && (awi * ahi) * bpp == awi * ahi * bpp)
            by (nonlinear_arith)
            requires
                1 <= bpp,
                0 <= awi,
                0 <= ahi,
        ;
    }
    let npix: usize = (atlas_size.x as usize) * (atlas_size.y as usize);
    let total: usize = npix * ps;
    let mut data: Vec<u8> = Vec::new();
    let mut z: usize = 0;
    while z < total
        invariant
            z <= total,
            data@.len() == z,
            forall|j: int| 0 <= j < z ==> data@[j] == 0u8,
        decreases total - z,
    {
        data.push(0u8);
        z = z + 1;
    }
    proof {
        assert forall|x: int, y: int, c: int|
            0 <= x < awi && 0 <= y < ahi && 0 <= c < bpp implies data@[pixel_byte_index(
            awi,
            bpp,
            x,
            y,
            c,
        )] == 0u8 by {
            lemma_pixel_index_bound(awi, bpp, ahi, x, y, c);
        }
    }
    let m: usize = descs.len();
    let mut t: usize = 0;
    while t < m
        invariant
            t <= m,
            ps == bpp,
            m == descs@.len(),
            region_pos@.len() == m,
            composite_req(sources@, descs@, region_pos@, atlas_size, format),
            bpp == format.bytes_per_pixel(),
            1 <= bpp,
            awi == atlas_size.x as int,
            ahi == atlas_size.y as int,
            total == awi * ahi * bpp,
            data@.len() == total,
            forall|tt: int, x: int, y: int, c: int|
                #![trigger region_source_byte(sources@, descs@, region_pos@, tt, x, y, c)]
                0 <= tt < t && in_region(region_pos@[tt], descs@[tt].size, x, y) && 0 <= c < bpp
                    ==> data@[pixel_byte_index(awi, bpp, x, y, c)] == region_source_byte(
                    sources@,
                    descs@,
                    region_pos@,
                    tt,
                    x,
                    y,
                    c,
                ),
            forall|x: int, y: int, c: int|
                #![trigger data@[pixel_byte_index(awi, bpp, x, y, c)]]
                0 <= x < awi && 0 <= y < ahi && 0 <= c < bpp && (forall|tt: int|
                    0 <= tt < t ==> !in_region(#[trigger] region_pos@[tt], descs@[tt].size, x, y))
                    ==> data@[pixel_byte_index(awi, bpp, x, y, c)] == 0u8,
        decreases m - t,
    {
        let d: SubImageDescriptor = descs[t];
        let p: UVec2 = region_pos[t];
        let src_img: &Image = &sources[d.source_index];
        let sw: u32 = src_img.width;
        let src_data_len: usize = src_img.data.len();
        let w: u32 = d.size.x;
        let h: u32 = d.size.y;
        let ghost swi = sw as int;
        let ghost shi = src_img.height as int;
        proof {
            assert(region_pos@[t as int].x + descs@[t as int].size.x <= atlas_size.x);
            assert(descs@[t as int].position.x + descs@[t as int].size.x <= sources@[
                d.source_index as int
            ].width);
            assert(sources@[d.source_index as int].wf());
        }
        let mut row: u32 = 0;
        while row < h
            invariant
                row <= h,
                t < m,
                ps == bpp,
                m == descs@.len(),
                region_pos@.len() == m,
                composite_req(sources@, descs@, region_pos@, atlas_size, format),
                bpp == format.bytes_per_pixel(),
                1 <= bpp,
                awi == atlas_size.x as int,
                ahi == atlas_size.y as int,
                total == awi * ahi * bpp,
                data@.len() == total,
                d == descs@[t as int],
                p == region_pos@[t as int],
                *src_img == sources@[d.source_index as int],
                sw == src_img.width,
                swi == sw as int,
                shi == src_img.height as int,
                src_data_len == swi * shi * bpp,
                w == d.size.x,
                h == d.size.y,
                p.x + w <= awi,
                p.y + h <= ahi,
                d.position.x + w <= swi,
                d.position.y + h <= shi,
                forall|tt: int, x: int, y: int, c: int|
                    #![trigger region_source_byte(sources@, descs@, region_pos@, tt, x, y, c)]
                    0 <= tt < t && in_region(region_pos@[tt], descs@[tt].size, x, y) && 0 <= c
                        < bpp ==> data@[pixel_byte_index(awi, bpp, x, y, c)]
                        == region_source_byte(sources@, descs@, region_pos@, tt, x, y, c),
                forall|x: int, y: int, c: int|
                    #![trigger data@[pixel_byte_index(awi, bpp, x, y, c)]]
                    in_region_rows(p, d.size, x, y, row as int) && 0 <= c < bpp ==> data@[
                        pixel_byte_index(awi, bpp, x, y, c)
                    ] == region_source_byte(sources@, descs@, region_pos@, t as int, x, y, c),
                forall|x: int, y: int, c: int|
                    #![trigger data@[pixel_byte_index(awi, bpp, x, y, c)]]
                    0 <= x < awi && 0 <= y < ahi && 0 <= c < bpp && (forall|tt: int|
                        0 <= tt < t ==> !in_region(
                            #[trigger] region_pos@[tt],
                            descs@[tt].size,
                            x,
                            y,
                        )) && !in_region_rows(p, d.size, x, y, row as int) ==> data@[
                        pixel_byte_index(awi, bpp, x, y, c)
                    ] == 0u8,
            decreases h - row,
        {
            proof {
                assert((p.y as int + row as int) * awi + p.x as int >= 0 && (p.y as int
                    + row as int) * awi + p.x as int <= awi * ahi && awi * ahi <= awi * ahi
                    * bpp && ((p.y as int + row as int) * awi + p.x as int) * bpp + w as int
                    * bpp <= awi * ahi * bpp && 0 <= w as int * bpp) by (nonlinear_arith)
                    requires
                        0 <= row < h,
                        p.x as int + w as int <= awi,
                        p.y as int + h as int <= ahi,
                        0 <= p.x,
                        0 <= p.y,
                        0 <= w,
                        1 <= bpp,
                ;
                assert((d.position.y as int + row as int) * swi + d.position.x as int >= 0 && (
                d.position.y as int + row as int) * swi + d.position.x as int <= swi * shi && swi
                    * shi <= swi * shi * bpp && ((d.position.y as int + row as int) * swi
                    + d.position.x as int) * bpp + w as int * bpp <= swi * shi * bpp)
                    by (nonlinear_arith)
                    requires
                        0 <= row < h,
                        d.position.x as int + w as int <= swi,
                        d.position.y as int + h as int <= shi,
                        0 <= d.position.x,
                        0 <= d.position.y,
                        0 <= w,
                        1 <= bpp,
                ;
            }
            let row_start: usize = ((p.y as usize + row as usize) * (atlas_size.x as usize)
                + p.x as usize) * ps;
            let src_start: usize = ((d.position.y as usize + row as usize) * (sw as usize)
                + d.position.x as usize) * ps;
            let seg: usize = (w as usize) * ps;
            proof {
                assert(row_start == ((p.y + row) * awi + p.x) * bpp && src_start == ((
                d.position.y + row) * swi + d.position.x) * bpp && row_start + seg <= total
                    && src_start + seg <= swi * shi * bpp) by (nonlinear_arith)
                    requires
                        row_start == ((p.y as int + row as int) * awi + p.x as int) * bpp,
                        src_start == ((d.position.y as int + row as int) * swi
                            + d.position.x as int) * bpp,
                        seg == w as int * bpp,
                        total == awi * ahi * bpp,
                        0 <= row < h,
                        p.x as int + w as int <= awi,
                        p.y as int + h as int <= ahi,
                        d.position.x as int + w as int <= swi,
                        d.position.y as int + h as int <= shi,
                        0 <= p.x,
                        0 <= p.y,
                        0 <= d.position.x,
                        0 <= d.position.y,
                        0 <= w,
                        1 <= bpp,
                ;
            }
            copy_bytes(&mut data, row_start, &src_img.data, src_start, seg);
            proof {
                // Newly written bytes show the source row; the rest of the
                // buffer is untouched.
                assert forall|x: int, y: int, c: int|
                    in_region_rows(p, d.size, x, y, row + 1) && 0 <= c < bpp implies data@[
                    pixel_byte_index(awi, bpp, x, y, c)
                ] == region_source_byte(sources@, descs@, region_pos@, t as int, x, y, c) by {
                    lemma_pixel_index_bound(awi, bpp, ahi, x, y, c);
                    lemma_row_segment_covers(
                        awi,
                        bpp,
                        p.x as int,
                        w as int,
                        p.y + row,
                        x,
                        y,
                        c,
                    );
                    if y == p.y + row {
                        assert(pixel_byte_index(awi, bpp, x, y, c) == row_start + ((x - p.x)
                            * bpp + c) && 0 <= (x - p.x) * bpp + c < seg && pixel_byte_index(
                            swi,
                            bpp,
                            d.position.x + (x - p.x),
                            d.position.y + row,
                            c,
                        ) == src_start + ((x - p.x) * bpp + c)) by (nonlinear_arith)
                            requires
                                row_start == ((p.y + row) * awi + p.x) * bpp,
                                src_start == ((d.position.y + row) * swi + d.position.x) * bpp,
                                seg == w as int * bpp,
                                y == p.y + row,
                                p.x <= x < p.x + w,
                                0 <= c < bpp,
                        ;
                        assert(data@[row_start + ((x - p.x) * bpp + c)] == src_img.data@[
                            src_start + ((x - p.x) * bpp + c)]);
                    }
                }
                assert forall|tt: int, x: int, y: int, c: int|
                    0 <= tt < t && in_region(region_pos@[tt], descs@[tt].size, x, y) && 0 <= c
                        < bpp implies data@[pixel_byte_index(awi, bpp, x, y, c)]
                    == region_source_byte(sources@, descs@, region_pos@, tt, x, y, c) by {
                    assert(region_pos@[tt].x + descs@[tt].size.x <= atlas_size.x);
                    lemma_pixel_index_bound(awi, bpp, ahi, x, y, c);
                    lemma_row_segment_covers(
                        awi,
                        bpp,
                        p.x as int,
                        w as int,
                        p.y + row,
                        x,
                        y,
                        c,
                    );
                    assert(rects_disjoint(region_pos@[tt], descs@[tt].size, p, d.size));
                }
                assert forall|x: int, y: int, c: int|
                    0 <= x < awi && 0 <= y < ahi && 0 <= c < bpp && (forall|tt: int|
                        0 <= tt < t ==> !in_region(
                            #[trigger] region_pos@[tt],
                            descs@[tt].size,
                            x,
                            y,
                        )) && !in_region_rows(p, d.size, x, y, row + 1) implies data@[
                    pixel_byte_index(awi, bpp, x, y, c)
                ] == 0u8 by {
                    lemma_pixel_index_bound(awi, bpp, ahi, x, y, c);
                    lemma_row_segment_covers(
                        awi,
                        bpp,
                        p.x as int,
                        w as int,
                        p.y + row,
                        x,
                        y,
                        c,
                    );
                }
            }
            row = row + 1;
        }
        proof {
            // The finished region joins the processed set.
            assert forall|tt: int, x: int, y: int, c: int|
                0 <= tt < t + 1 && in_region(region_pos@[tt], descs@[tt].size, x, y) && 0 <= c
                    < bpp implies data@[pixel_byte_index(awi, bpp, x, y, c)]
                == region_source_byte(sources@, descs@, region_pos@, tt, x, y, c) by {
                if tt == t {
                    assert(in_region_rows(p, d.size, x, y, h as int));
                }
            }
        }
        t = t + 1;
    }
    Image { data, width: atlas_size.x, height: atlas_size.y, format }
}

} // verus!

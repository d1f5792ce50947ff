//! Derives packable sub-image descriptors from manifest entries.
//!
//! Each entry expands into an ordered list of regions of its source image:
//! one region for a whole image, a row-major grid for a uniform sheet, or
//! the explicit rectangles of a heterogeneous sheet. Every region must lie
//! within its source image; the first violation aborts the derivation.

use vstd::prelude::*;

use crate::error::InvalidRectError;
use crate::manifest::{TitanEntry, TitanSpriteSheet};
use crate::math::UVec2;

verus! {

/// A derived, packable region: the index of its source image, and its
/// position and size within that image.
#[derive(Clone, Copy, PartialEq, Eq, Structural, Debug, Hash)]
pub struct SubImageDescriptor {
    /// Index of the entry's source image.
    pub source_index: usize,
    /// Top-left corner of the region in the source image.
    pub position: UVec2,
    /// Size of the region.
    pub size: UVec2,
}

/// Number of regions an entry's sprite-sheet variant yields.
pub open spec fn region_count(sheet: TitanSpriteSheet) -> int {
    match sheet {
        TitanSpriteSheet::Whole => 1,
        TitanSpriteSheet::Homogeneous { columns, rows, .. } => columns as int * rows as int,
        TitanSpriteSheet::Heterogeneous(v) => v@.len() as int,
    }
}

/// Top-left corner of the `k`-th region of an entry, in source-image
/// coordinates. Grid tiles are walked rows first: tile `k` sits in row
/// `k / columns` and column `k % columns`, and each axis adds the offset, a
/// half-padding margin before the first tile and a full padding gutter
/// between tiles.
pub open spec fn region_min(sheet: TitanSpriteSheet, k: int) -> (int, int) {
    match sheet {
        TitanSpriteSheet::Whole => (0, 0),
        TitanSpriteSheet::Homogeneous { tile_size, columns, padding, offset, .. } => {
            let j = k % (columns as int);
            let i = k / (columns as int);
            (
                j * tile_size.x + offset.x + (1 + 2 * j) * padding.x,
                i * tile_size.y + offset.y + (1 + 2 * i) * padding.y,
            )
        },
        TitanSpriteSheet::Heterogeneous(v) => (v@[k].0.x as int, v@[k].0.y as int),
    }
}

/// Size of the `k`-th region of an entry whose source image is
/// `img_w` by `img_h` pixels.
pub open spec fn region_size(sheet: TitanSpriteSheet, img_w: int, img_h: int, k: int) -> (
    int,
    int,
) {
    match sheet {
        TitanSpriteSheet::Whole => (img_w, img_h),
        TitanSpriteSheet::Homogeneous { tile_size, .. } => (tile_size.x as int, tile_size.y as int),
        TitanSpriteSheet::Heterogeneous(v) => (v@[k].1.x as int, v@[k].1.y as int),
    }
}

/// The `k`-th region lies within its `img_w` by `img_h` source image.
pub open spec fn region_in_bounds(
    sheet: TitanSpriteSheet,
    img_w: int,
    img_h: int,
    k: int,
) -> bool {
    region_min(sheet, k).0 + region_size(sheet, img_w, img_h, k).0 <= img_w && region_min(
        sheet,
        k,
    ).1 + region_size(sheet, img_w, img_h, k).1 <= img_h
}

/// The descriptor of the `k`-th region; exact whenever the region lies
/// within its source image.
pub open spec fn descriptor_at(
    sheet: TitanSpriteSheet,
    img_w: int,
    img_h: int,
    source_index: usize,
    k: int,
) -> SubImageDescriptor {
    SubImageDescriptor {
        source_index,
        position: UVec2 {
            x: region_min(sheet, k).0 as u32,
            y: region_min(sheet, k).1 as u32,
        },
        size: UVec2 {
            x: region_size(sheet, img_w, img_h, k).0 as u32,
            y: region_size(sheet, img_w, img_h, k).1 as u32,
        },
    }
}

/// The first `n` descriptors of an entry, in derivation order.
pub open spec fn derived_prefix(
    sheet: TitanSpriteSheet,
    img_w: int,
    img_h: int,
    source_index: usize,
    n: int,
) -> Seq<SubImageDescriptor> {
    Seq::new(n as nat, |k: int| descriptor_at(sheet, img_w, img_h, source_index, k))
}

/// All descriptors of an entry, in derivation order.
pub open spec fn derived_seq(
    sheet: TitanSpriteSheet,
    img_w: int,
    img_h: int,
    source_index: usize,
) -> Seq<SubImageDescriptor> {
    derived_prefix(sheet, img_w, img_h, source_index, region_count(sheet))
}

/// Clamps a nonnegative value to the `u32` range.
pub open spec fn sat_u32(v: int) -> u32 {
    if v > u32::MAX {
        u32::MAX
    } else {
        v as u32
    }
}

/// Clamps a `u128` to the `u32` range.
fn sat_u32_exec(v: u128) -> (r: u32)
    ensures
        r == sat_u32(v as int),
{
    if v > u32::MAX as u128 {
        u32::MAX
    } else {
        v as u32
    }
}

/// Derives all regions of `entry` against a source image of `image_size`
/// pixels and appends their descriptors, carrying `source_index`, to
/// `descriptors` in derivation order. The first region that does not lie
/// within the image aborts the derivation with an error naming the entry's
/// path and the offending rectangle; the descriptors derived before it have
/// then been appended.
pub fn push_textures(
    descriptors: &mut Vec<SubImageDescriptor>,
    source_index: usize,
    entry: &TitanEntry,
    image_size: UVec2,
) -> (r: Result<(), InvalidRectError>)
    requires
        old(descriptors)@.len() + region_count(entry.sprite_sheet) <= usize::MAX,
    ensures
        (r is Ok <==> forall|k: int|
            0 <= k < region_count(entry.sprite_sheet) ==> region_in_bounds(
                entry.sprite_sheet,
                image_size.x as int,
                image_size.y as int,
                k,
            )),
        r is Ok ==> final(descriptors)@ == old(descriptors)@ + derived_seq(
            entry.sprite_sheet,
            image_size.x as int,
            image_size.y as int,
            source_index,
        ),
        (match r {
            Ok(_) => true,
            Err(e) => exists|k0: int|
                #![auto]
                {
                    &&& 0 <= k0 < region_count(entry.sprite_sheet)
                    &&& (forall|k: int|
                        0 <= k < k0 ==> region_in_bounds(
                            entry.sprite_sheet,
                            image_size.x as int,
                            image_size.y as int,
                            k,
                        ))
                    &&& !region_in_bounds(
                        entry.sprite_sheet,
                        image_size.x as int,
                        image_size.y as int,
                        k0,
                    )
                    &&& e.0.x == sat_u32(region_min(entry.sprite_sheet, k0).0)
                    &&& e.0.y == sat_u32(region_min(entry.sprite_sheet, k0).1)
                    &&& e.1.x == sat_u32(
                        region_min(entry.sprite_sheet, k0).0 + region_size(
                            entry.sprite_sheet,
                            image_size.x as int,
                            image_size.y as int,
                            k0,
                        ).0,
                    )
                    &&& e.1.y == sat_u32(
                        region_min(entry.sprite_sheet, k0).1 + region_size(
                            entry.sprite_sheet,
                            image_size.x as int,
                            image_size.y as int,
                            k0,
                        ).1,
                    )
                    &&& e.2@ == entry.path@
                    &&& final(descriptors)@ == old(descriptors)@ + derived_prefix(
                        entry.sprite_sheet,
                        image_size.x as int,
                        image_size.y as int,
                        source_index,
                        k0,
                    )
                },
        }),
{
    let ghost sheet = entry.sprite_sheet;
    let ghost iw = image_size.x as int;
    let ghost ih = image_size.y as int;
    match &entry.sprite_sheet {
        TitanSpriteSheet::Whole => {
            descriptors.push(
                SubImageDescriptor {
                    source_index,
                    position: UVec2 { x: 0, y: 0 },
                    size: image_size,
                },
            );
            proof {
                assert(descriptors@ =~= old(descriptors)@ + derived_seq(
                    sheet,
                    iw,
                    ih,
                    source_index,
                ));
            }
            Ok(())
        },
        TitanSpriteSheet::Homogeneous { tile_size, columns, rows, padding, offset } => {
            let cols64: u64 = *columns as u64;
            let count: u64 = cols64 * (*rows as u64);
            let mut k: u64 = 0;
            while k < count
                invariant
                    0 <= k <= count,
                    count == columns as int * rows as int,
                    cols64 == columns as int,
                    sheet == entry.sprite_sheet,
                    sheet matches TitanSpriteSheet::Homogeneous {
                        tile_size: t,
                        columns: c,
                        rows: rr,
                        padding: p,
                        offset: o,
                    } && t == *tile_size && c == *columns && rr == *rows && p == *padding && o
                        == *offset,
                    iw == image_size.x as int,
                    ih == image_size.y as int,
                    old(descriptors)@.len() + region_count(sheet) <= usize::MAX,
                    descriptors@ == old(descriptors)@ + derived_prefix(
                        sheet,
                        iw,
                        ih,
                        source_index,
                        k as int,
                    ),
                    forall|t: int| 0 <= t < k ==> region_in_bounds(sheet, iw, ih, t),
                decreases count - k,
            {
                proof {
                    assert(cols64 > 0) by (nonlinear_arith)
                        requires
                            k < count,
                            count == cols64 * (rows as int),
                            cols64 >= 0,
                    ;
                    assert(region_count(sheet) == count);
                }
                let j: u64 = k % cols64;
                let i: u64 = k / cols64;
                proof {
                    vstd::arithmetic::mul::lemma_mul_upper_bound(
                        j as int,
                        u64::MAX as int,
                        tile_size.x as int,
                        u32::MAX as int,
                    );
                    vstd::arithmetic::mul::lemma_mul_upper_bound(
                        i as int,
                        u64::MAX as int,
                        tile_size.y as int,
                        u32::MAX as int,
                    );
                    vstd::arithmetic::mul::lemma_mul_upper_bound(
                        1 + 2 * (j as int),
                        1 + 2 * (u64::MAX as int),
                        padding.x as int,
                        u32::MAX as int,
                    );
                    vstd::arithmetic::mul::lemma_mul_upper_bound(
                        1 + 2 * (i as int),
                        1 + 2 * (u64::MAX as int),
                        padding.y as int,
                        u32::MAX as int,
                    );
                }
                let minx: u128 = (j as u128) * (tile_size.x as u128) + (offset.x as u128) + (1
                    + 2 * (j as u128)) * (padding.x as u128);
                let miny: u128 = (i as u128) * (tile_size.y as u128) + (offset.y as u128) + (1
                    + 2 * (i as u128)) * (padding.y as u128);
                let maxx: u128 = minx + tile_size.x as u128;
                let maxy: u128 = miny + tile_size.y as u128;
                proof {
                    assert(region_min(sheet, k as int) == (minx as int, miny as int));
                    assert(region_size(sheet, iw, ih, k as int) == (
                        tile_size.x as int,
                        tile_size.y as int,
                    ));
                }
                if maxx > image_size.x as u128 || maxy > image_size.y as u128 {
                    let e = InvalidRectError(
                        UVec2 { x: sat_u32_exec(minx), y: sat_u32_exec(miny) },
                        UVec2 { x: sat_u32_exec(maxx), y: sat_u32_exec(maxy) },
                        entry.path.clone(),
                    );
                    proof {
                        assert(!region_in_bounds(sheet, iw, ih, k as int));
                    }
                    return Err(e);
                }
                descriptors.push(
                    SubImageDescriptor {
                        source_index,
                        position: UVec2 { x: minx as u32, y: miny as u32 },
                        size: *tile_size,
                    },
                );
                proof {
                    assert(region_in_bounds(sheet, iw, ih, k as int));
                    assert(descriptors@ =~= old(descriptors)@ + derived_prefix(
                        sheet,
                        iw,
                        ih,
                        source_index,
                        k + 1,
                    ));
                }
                k = k + 1;
            }
            Ok(())
        },
        TitanSpriteSheet::Heterogeneous(rects) => {
            let n: usize = rects.len();
            let mut k: usize = 0;
            while k < n
                invariant
                    0 <= k <= n,
                    sheet == entry.sprite_sheet,
                    sheet matches TitanSpriteSheet::Heterogeneous(v) && v == *rects,
                    n == rects@.len(),
                    iw == image_size.x as int,
                    ih == image_size.y as int,
                    old(descriptors)@.len() + region_count(sheet) <= usize::MAX,
                    descriptors@ == old(descriptors)@ + derived_prefix(
                        sheet,
                        iw,
                        ih,
                        source_index,
                        k as int,
                    ),
                    forall|t: int| 0 <= t < k ==> region_in_bounds(sheet, iw, ih, t),
                decreases n - k,
            {
                let (position, size) = rects[k];
                let maxx: u64 = position.x as u64 + size.x as u64;
                let maxy: u64 = position.y as u64 + size.y as u64;
                if maxx > image_size.x as u64 || maxy > image_size.y as u64 {
                    let e = InvalidRectError(
                        position,
                        UVec2 {
                            x: sat_u32_exec(maxx as u128),
                            y: sat_u32_exec(maxy as u128),
                        },
                        entry.path.clone(),
                    );
                    proof {
                        assert(!region_in_bounds(sheet, iw, ih, k as int));
                        assert(sat_u32(region_min(sheet, k as int).0) == position.x);
                        assert(sat_u32(region_min(sheet, k as int).1) == position.y);
                    }
                    return Err(e);
                }
                descriptors.push(SubImageDescriptor { source_index, position, size });
                proof {
                    assert(region_in_bounds(sheet, iw, ih, k as int));
                    assert(descriptors@ =~= old(descriptors)@ + derived_prefix(
                        sheet,
                        iw,
                        ih,
                        source_index,
                        k + 1,
                    ));
                }
                k = k + 1;
            }
            Ok(())
        },
    }
}

} // verus!

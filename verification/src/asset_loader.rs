//! Builds a [`TextureAtlas`] from a manifest and its resolved source images.
//!
//! The caller parses a manifest, resolves each entry's path to a decoded
//! [`Image`], and hands both to [`SpriteSheetLoader::load`]. The loader
//! validates the configuration, derives and validates every sprite region,
//! normalizes the source formats, packs the regions into a growing bin, and
//! composites the result into one texture with a layout table, failing fast
//! on the first error of any stage.

use vstd::prelude::*;

use crate::compositor::{composite, composite_req, in_region, region_source_byte};
use crate::descriptor::{
    derived_seq, descriptor_at, push_textures, region_count, region_in_bounds, region_min,
    region_size, sat_u32, SubImageDescriptor,
};
use crate::error::{InvalidRectError, SpriteSheetLoaderError};
use crate::format::TextureFormat;
use crate::image::Image;
use crate::manifest::{Titan, TitanEntry, TitanSpriteSheet};
use crate::math::{URect, UVec2};
use crate::normalizer::{image_format_ok, normalize_image};
use crate::packer::{attempt_bin, attempt_size, boxes_fit, pack_all, rects_disjoint, try_pack_spec};

verus! {

/// Loads texture atlases from sprite-sheet manifests.
#[derive(Clone, Copy, PartialEq, Eq, Structural, Debug)]
pub struct SpriteSheetLoader;

impl Default for SpriteSheetLoader {
    /// The loader carries no state.
    fn default() -> (r: SpriteSheetLoader)
        ensures
            r == (SpriteSheetLoader {}),
    {
        SpriteSheetLoader {}
    }
}

/// The layout table of an atlas: its size and one rectangle per derived
/// region, in derivation order.
#[derive(Debug, Clone)]
pub struct TextureAtlasLayout {
    /// Size of the atlas, in pixels.
    pub size: UVec2,
    /// One rectangle per region, in atlas-local pixel coordinates.
    pub textures: Vec<URect>,
}

/// A finished atlas: the composite texture and its layout table.
#[derive(Debug, Clone)]
pub struct TextureAtlas {
    /// The composite pixel buffer.
    pub texture: Image,
    /// Where each derived region sits in the texture.
    pub layout: TextureAtlasLayout,
}

/// Number of regions derived from the first `e` entries.
pub open spec fn region_count_prefix(entries: Seq<TitanEntry>, e: int) -> int
    decreases e,
{
    if e <= 0 {
        0
    } else {
        region_count_prefix(entries, e - 1) + region_count(entries[e - 1].sprite_sheet)
    }
}

/// Number of regions derived from a whole manifest: the sum, over its
/// entries, of one for a whole image, `columns * rows` for a uniform grid,
/// and the list length for explicit regions.
pub open spec fn total_region_count(entries: Seq<TitanEntry>) -> int {
    region_count_prefix(entries, entries.len() as int)
}

/// The descriptors of the first `e` entries, flattened in entry order.
pub open spec fn descriptors_prefix(entries: Seq<TitanEntry>, images: Seq<Image>, e: int) -> Seq<
    SubImageDescriptor,
>
    decreases e,
{
    if e <= 0 {
        Seq::empty()
    } else {
        descriptors_prefix(entries, images, e - 1) + derived_seq(
            entries[e - 1].sprite_sheet,
            images[e - 1].width as int,
            images[e - 1].height as int,
            (e - 1) as usize,
        )
    }
}

/// All descriptors of a manifest, flattened in entry order.
pub open spec fn all_descriptors(entries: Seq<TitanEntry>, images: Seq<Image>) -> Seq<
    SubImageDescriptor,
> {
    descriptors_prefix(entries, images, entries.len() as int)
}

/// Every region of the first `e` entries lies within its source image.
pub open spec fn regions_ok_upto(entries: Seq<TitanEntry>, images: Seq<Image>, e: int) -> bool {
    forall|t: int, k: int|
        0 <= t < e && 0 <= k < region_count(entries[t].sprite_sheet) ==> #[trigger] region_in_bounds(
            entries[t].sprite_sheet,
            images[t].width as int,
            images[t].height as int,
            k,
        )
}

/// Every region of every entry lies within its source image.
pub open spec fn regions_ok(entries: Seq<TitanEntry>, images: Seq<Image>) -> bool {
    regions_ok_upto(entries, images, entries.len() as int)
}

/// The first `n` source images are accepted for the target format.
pub open spec fn formats_ok_upto(
    images: Seq<Image>,
    target: TextureFormat,
    auto: bool,
    n: int,
) -> bool {
    forall|i: int|
        0 <= i < n ==> image_format_ok((#[trigger] images[i]).format, target, auto)
}

/// Every source image is accepted for the target format.
pub open spec fn formats_ok(images: Seq<Image>, target: TextureFormat, auto: bool) -> bool {
    formats_ok_upto(images, target, auto, images.len() as int)
}

/// The single-region bypass applies: exactly one region exists and packing
/// is not forced.
pub open spec fn bypass_case(titan: Titan, images: Seq<Image>) -> bool {
    total_region_count(titan.textures@) == 1 && !titan.configuration.always_pack
}

/// The pixel `(x, y)` lies in the rectangle.
pub open spec fn in_rect(r: URect, x: int, y: int) -> bool {
    r.min.x <= x < r.max.x && r.min.y <= y < r.max.y
}

/// The two rectangles share no pixel.
pub open spec fn urects_disjoint(a: URect, b: URect) -> bool {
    ||| a.max.x <= b.min.x
    ||| b.max.x <= a.min.x
    ||| a.max.y <= b.min.y
    ||| b.max.y <= a.min.y
}

/// An entry yields a nonnegative number of regions.
pub proof fn lemma_region_count_nonneg(sheet: TitanSpriteSheet)
    ensures
        region_count(sheet) >= 0,
{
    match sheet {
        TitanSpriteSheet::Homogeneous { columns, rows, .. } => {
            assert(columns as int * rows as int >= 0) by (nonlinear_arith);
        },
        _ => {},
    }
}

/// Region counts of entry prefixes grow with the prefix.
pub proof fn lemma_region_count_prefix_le(entries: Seq<TitanEntry>, e1: int, e2: int)
    requires
        0 <= e1 <= e2,
    ensures
        region_count_prefix(entries, e1) <= region_count_prefix(entries, e2),
    decreases e2 - e1,
{
    if e1 < e2 {
        lemma_region_count_prefix_le(entries, e1, e2 - 1);
        lemma_region_count_nonneg(entries[e2 - 1].sprite_sheet);
    }
}

/// A region that lies within its source image has nonnegative coordinates
/// and size.
pub proof fn lemma_region_geometry(sheet: TitanSpriteSheet, img_w: int, img_h: int, k: int)
    requires
        0 <= k < region_count(sheet),
        0 <= img_w,
        0 <= img_h,
    ensures
        region_min(sheet, k).0 >= 0,
        region_min(sheet, k).1 >= 0,
        region_size(sheet, img_w, img_h, k).0 >= 0,
        region_size(sheet, img_w, img_h, k).1 >= 0,
{
    match sheet {
        TitanSpriteSheet::Homogeneous { tile_size, columns, rows, padding, offset } => {
            let c = columns as int;
            assert(c > 0) by (nonlinear_arith)
                requires
                    0 <= k,
                    k < c * (rows as int),
                    0 <= c,
            ;
            let j = k % c;
            let i = k / c;
            vstd::arithmetic::div_mod::lemma_div_pos_is_pos(k, c);
            assert(j >= 0 && i >= 0);
            assert(j * tile_size.x >= 0 && (1 + 2 * j) * padding.x >= 0 && i * tile_size.y
                >= 0 && (1 + 2 * i) * padding.y >= 0) by (nonlinear_arith)
                requires
                    j >= 0,
                    i >= 0,
                    tile_size.x >= 0,
                    tile_size.y >= 0,
                    padding.x >= 0,
                    padding.y >= 0,
            ;
        },
        _ => {},
    }
}

/// The flattened descriptors of the first `e` entries: their count is the
/// prefix region count and, when every region lies within its source image,
/// each descriptor carries its entry index and its region's exact position
/// and size.
pub proof fn lemma_descriptor_props(entries: Seq<TitanEntry>, images: Seq<Image>, e: int)
    requires
        0 <= e <= entries.len(),
        e <= usize::MAX,
        images.len() == entries.len(),
        regions_ok_upto(entries, images, e),
    ensures
        descriptors_prefix(entries, images, e).len() == region_count_prefix(entries, e),
        forall|i: int|
            0 <= i < descriptors_prefix(entries, images, e).len()
                ==> (#[trigger] descriptors_prefix(entries, images, e)[i]).source_index < e
                && descriptors_prefix(entries, images, e)[i].position.x + descriptors_prefix(
                entries,
                images,
                e,
            )[i].size.x <= images[descriptors_prefix(entries, images, e)[i].source_index as int].width
                && descriptors_prefix(entries, images, e)[i].position.y + descriptors_prefix(
                entries,
                images,
                e,
            )[i].size.y <= images[
                descriptors_prefix(entries, images, e)[i].source_index as int
            ].height,
    decreases e,
{
    if e > 0 {
        lemma_descriptor_props(entries, images, e - 1);
        lemma_region_count_nonneg(entries[e - 1].sprite_sheet);
        lemma_region_count_prefix_le(entries, 0, e - 1);
        let prev = descriptors_prefix(entries, images, e - 1);
        let sheet = entries[e - 1].sprite_sheet;
        let w = images[e - 1].width as int;
        let h = images[e - 1].height as int;
        let chunk = derived_seq(sheet, w, h, (e - 1) as usize);
        assert forall|i: int|
            0 <= i < descriptors_prefix(entries, images, e).len() implies (
        #[trigger] descriptors_prefix(entries, images, e)[i]).source_index < e
            && descriptors_prefix(entries, images, e)[i].position.x + descriptors_prefix(
            entries,
            images,
            e,
        )[i].size.x <= images[descriptors_prefix(entries, images, e)[i].source_index as int].width
            && descriptors_prefix(entries, images, e)[i].position.y + descriptors_prefix(
            entries,
            images,
            e,
        )[i].size.y <= images[
            descriptors_prefix(entries, images, e)[i].source_index as int
        ].height by {
            let cur = descriptors_prefix(entries, images, e);
            assert(cur == prev + chunk);
            if i < prev.len() {
                assert(cur[i] == prev[i]);
            } else {
                let k = i - prev.len();
                assert(0 <= k < region_count(sheet));
                assert(cur[i] == chunk[k]);
                assert(chunk[k] == descriptor_at(sheet, w, h, (e - 1) as usize, k));
                assert(region_in_bounds(sheet, w, h, k));
                lemma_region_geometry(sheet, w, h, k);
                assert(region_min(sheet, k).0 + region_size(sheet, w, h, k).0 <= w);
                assert(region_min(sheet, k).1 + region_size(sheet, w, h, k).1 <= h);
                assert(chunk[k].position.x == region_min(sheet, k).0);
                assert(chunk[k].position.y == region_min(sheet, k).1);
                assert(chunk[k].size.x == region_size(sheet, w, h, k).0);
                assert(chunk[k].size.y == region_size(sheet, w, h, k).1);
            }
        }
    }
}

/// The error names the first region, in derivation order, that lies outside
/// its source image: all entries before its entry are fully valid, all
/// regions before it in its own entry are valid, and the error carries the
/// region's corners, clamped to `u32`, and its entry's path.
pub open spec fn invalid_rect_witness(
    entries: Seq<TitanEntry>,
    images: Seq<Image>,
    ir: InvalidRectError,
) -> bool {
    exists|e0: int, k0: int|
        #![auto]
        {
            &&& 0 <= e0 < entries.len()
            &&& regions_ok_upto(entries, images, e0)
            &&& 0 <= k0 < region_count(entries[e0].sprite_sheet)
            &&& (forall|k: int|
                0 <= k < k0 ==> region_in_bounds(
                    entries[e0].sprite_sheet,
                    images[e0].width as int,
                    images[e0].height as int,
                    k,
                ))
            &&& !region_in_bounds(
                entries[e0].sprite_sheet,
                images[e0].width as int,
                images[e0].height as int,
                k0,
            )
            &&& ir.0.x == sat_u32(region_min(entries[e0].sprite_sheet, k0).0)
            &&& ir.0.y == sat_u32(region_min(entries[e0].sprite_sheet, k0).1)
            &&& ir.1.x == sat_u32(
                region_min(entries[e0].sprite_sheet, k0).0 + region_size(
                    entries[e0].sprite_sheet,
                    images[e0].width as int,
                    images[e0].height as int,
                    k0,
                ).0,
            )
            &&& ir.1.y == sat_u32(
                region_min(entries[e0].sprite_sheet, k0).1 + region_size(
                    entries[e0].sprite_sheet,
                    images[e0].width as int,
                    images[e0].height as int,
                    k0,
                ).1,
            )
            &&& ir.2@ == entries[e0].path@
        }
}

/// The format `f` is the format of the first source image, in entry order,
/// that the configured policy rejects.
pub open spec fn first_bad_format_witness(
    images: Seq<Image>,
    target: TextureFormat,
    auto: bool,
    f: TextureFormat,
) -> bool {
    exists|i0: int|
        #![auto]
        {
            &&& 0 <= i0 < images.len()
            &&& formats_ok_upto(images, target, auto, i0)
            &&& !image_format_ok(images[i0].format, target, auto)
            &&& f == images[i0].format
        }
}

/// The rectangle lies within the image, with ordered corners.
pub open spec fn rect_in_atlas(r: URect, img: Image) -> bool {
    r.min.x <= r.max.x && r.min.y <= r.max.y && r.max.x <= img.width && r.max.y <= img.height
}

/// The boxes the packer places: each region's size grown by the padding
/// border on every side. Exact whenever each grown size fits `u32`.
pub open spec fn padded_boxes(ds: Seq<SubImageDescriptor>, pad: UVec2) -> Seq<UVec2> {
    Seq::new(
        ds.len(),
        |i: int|
            UVec2 {
                x: (ds[i].size.x + 2 * pad.x) as u32,
                y: (ds[i].size.y + 2 * pad.y) as u32,
            },
    )
}

/// The two rectangles, each grown by the padding on every side, share no
/// pixel: even their padding borders do not touch.
pub open spec fn padded_rects_disjoint(a: URect, b: URect, pad: UVec2) -> bool {
    ||| a.max.x + 2 * pad.x <= b.min.x
    ||| b.max.x + 2 * pad.x <= a.min.x
    ||| a.max.y + 2 * pad.y <= b.min.y
    ||| b.max.y + 2 * pad.y <= a.min.y
}

/// What a successful load returns.
///
/// The atlas texture is well formed and has the configured format; the
/// layout has one rectangle per derived region, in derivation order, all
/// within the texture and pairwise disjoint, and every texture pixel
/// outside all rectangles is zero. In the single-region bypass the texture
/// is the format-normalized single source image itself, byte for byte, and
/// its one rectangle is the full image bounds; otherwise the texture size
/// is one of the growth attempts, each rectangle has its region's size,
/// the rectangles keep their full padding borders inside the atlas and
/// apart from one another, and every rectangle shows its region's source
/// bytes, channel-mapped to the atlas format.
pub open spec fn load_ok_content(titan: Titan, images: Seq<Image>, atlas: TextureAtlas) -> bool {
    let entries = titan.textures@;
    let cfg = titan.configuration;
    let target = cfg.format;
    let ds = all_descriptors(entries, images);
    let rects = atlas.layout.textures@;
    &&& atlas.texture.wf()
    &&& atlas.texture.format == target
    &&& atlas.layout.size.x == atlas.texture.width
    &&& atlas.layout.size.y == atlas.texture.height
    &&& rects.len() == total_region_count(entries)
    &&& (forall|i: int|
        0 <= i < rects.len() ==> rect_in_atlas(#[trigger] rects[i], atlas.texture))
    &&& (forall|i: int, j: int|
        0 <= i < j < rects.len() ==> urects_disjoint(#[trigger] rects[i], #[trigger] rects[j]))
    &&& (forall|x: int, y: int, c: int|
        #![trigger atlas.texture.byte_at(x, y, c)]
        0 <= x < atlas.texture.width && 0 <= y < atlas.texture.height && 0 <= c
            < target.bytes_per_pixel() && (forall|i: int|
            0 <= i < rects.len() ==> !in_rect(#[trigger] rects[i], x, y))
            ==> atlas.texture.byte_at(x, y, c) == 0u8)
    &&& if bypass_case(titan, images) {
        let si = ds[0].source_index as int;
        &&& 0 <= si < images.len()
        &&& atlas.texture.width == images[si].width
        &&& atlas.texture.height == images[si].height
        &&& rects[0] == (URect {
            min: UVec2 { x: 0, y: 0 },
            max: UVec2 { x: images[si].width, y: images[si].height },
        })
        &&& (forall|x: int, y: int, c: int|
            #![trigger atlas.texture.byte_at(x, y, c)]
            0 <= x < images[si].width && 0 <= y < images[si].height && 0 <= c
                < images[si].format.bytes_per_pixel() ==> atlas.texture.byte_at(x, y, c)
                == images[si].byte_at(x, y, images[si].format.source_channel(target, c)))
    } else {
        &&& cfg.initial_size.x <= atlas.texture.width <= cfg.max_size.x
        &&& cfg.initial_size.y <= atlas.texture.height <= cfg.max_size.y
        &&& (exists|k: int|
            0 <= k && (#[trigger] attempt_size(cfg.initial_size, cfg.max_size, k)).0
                == atlas.texture.width && attempt_size(cfg.initial_size, cfg.max_size, k).1
                == atlas.texture.height)
        &&& (forall|i: int|
            0 <= i < rects.len() ==> cfg.padding.x <= (#[trigger] rects[i]).min.x
                && cfg.padding.y <= rects[i].min.y && rects[i].max.x + cfg.padding.x
                <= atlas.texture.width && rects[i].max.y + cfg.padding.y
                <= atlas.texture.height)
        &&& (forall|i: int, j: int|
            0 <= i < j < rects.len() ==> padded_rects_disjoint(
                #[trigger] rects[i],
                #[trigger] rects[j],
                cfg.padding,
            ))
        &&& try_pack_spec(
            padded_boxes(ds, cfg.padding),
            UVec2 { x: atlas.texture.width, y: atlas.texture.height },
        ) matches Some(ps) && ps.len() == rects.len() && (forall|i: int|
            0 <= i < rects.len() ==> (#[trigger] rects[i]).min.x == ps[i].x + cfg.padding.x
                && rects[i].min.y == ps[i].y + cfg.padding.y)
        &&& (exists|k: int|
            #![trigger attempt_bin(cfg.initial_size, cfg.max_size, k)]
            0 <= k && atlas.texture.width == attempt_bin(cfg.initial_size, cfg.max_size, k).x
                && atlas.texture.height == attempt_bin(cfg.initial_size, cfg.max_size, k).y && (
            forall|j: int|
                0 <= j < k ==> try_pack_spec(
                    padded_boxes(ds, cfg.padding),
                    #[trigger] attempt_bin(cfg.initial_size, cfg.max_size, j),
                ) is None))
        &&& (forall|i: int|
            0 <= i < rects.len() ==> (#[trigger] rects[i]).max.x - rects[i].min.x
                == ds[i].size.x && rects[i].max.y - rects[i].min.y == ds[i].size.y)
        &&& (forall|i: int, x: int, y: int, c: int|
            #![trigger rects[i], atlas.texture.byte_at(x, y, c)]
            0 <= i < rects.len() && in_rect(rects[i], x, y) && 0 <= c < target.bytes_per_pixel()
                ==> atlas.texture.byte_at(x, y, c) == images[ds[i].source_index as int].byte_at(
                ds[i].position.x + (x - rects[i].min.x),
                ds[i].position.y + (y - rects[i].min.y),
                images[ds[i].source_index as int].format.source_channel(target, c),
            ))
    }
}

/// Checks the configuration and the entry list of a manifest: the maximum
/// size must dominate the initial size, and at least one entry must exist.
/// This needs no resolved image, so a caller runs it before resolving any.
pub fn validate_manifest(titan: &Titan) -> (r: Result<(), SpriteSheetLoaderError>)
    ensures
        r is Ok <==> titan.configuration.sizes_ok() && titan.textures@.len() > 0,
        (match r {
            Ok(_) => true,
            Err(e) => match e {
                SpriteSheetLoaderError::SizeMismatchError(a, b) => {
                    !titan.configuration.sizes_ok() && a == titan.configuration.initial_size
                        && b == titan.configuration.max_size
                },
                SpriteSheetLoaderError::NoEntriesError => {
                    titan.configuration.sizes_ok() && titan.textures@.len() == 0
                },
                _ => false,
            },
        }),
{
    let configuration = &titan.configuration;
    if configuration.max_size.x < configuration.initial_size.x || configuration.max_size.y
        < configuration.initial_size.y {
        return Err(
            SpriteSheetLoaderError::SizeMismatchError(
                configuration.initial_size,
                configuration.max_size,
            ),
        );
    }
    if titan.textures.len() == 0 {
        return Err(SpriteSheetLoaderError::NoEntriesError);
    }
    Ok(())
}

impl SpriteSheetLoader {
    /// File extensions of sprite-sheet manifest files.
    pub fn extensions(&self) -> (r: Vec<String>)
        ensures
            r@.len() == 2,
            r@[0]@ == "titan.ron"@,
            r@[1]@ == "titan"@,
    {
        let mut r: Vec<String> = Vec::new();
        r.push("titan.ron".to_owned());
        r.push("titan".to_owned());
        r
    }

    /// Builds the atlas for `titan` from its resolved source images, one
    /// per entry, in entry order.
    ///
    /// The stages run in order and the first failure aborts the whole
    /// build: the configuration and entry list are validated, every
    /// region is derived and checked against its source image, every
    /// source image is normalized to the configured format, and - unless
    /// the single-region bypass applies - the regions are packed into a
    /// growing bin and composited.
    #[verifier::rlimit(60)]
    #[verifier::loop_isolation(false)]
    pub fn load(&self, titan: &Titan, images: Vec<Image>) -> (r: Result<
        TextureAtlas,
        SpriteSheetLoaderError,
    >)
        requires
            images@.len() == titan.textures@.len(),
            forall|i: int| 0 <= i < images@.len() ==> (#[trigger] images@[i]).wf(),
            total_region_count(titan.textures@) <= usize::MAX,
            titan.configuration.max_size.x as int * titan.configuration.max_size.y as int
                * titan.configuration.format.bytes_per_pixel() <= usize::MAX,
        ensures
            r is Ok ==> titan.configuration.sizes_ok() && titan.textures@.len() > 0
                && regions_ok(titan.textures@, images@) && formats_ok(
                images@,
                titan.configuration.format,
                titan.configuration.auto_format_conversion,
            ),
            (match r {
                Ok(atlas) => load_ok_content(*titan, images@, atlas),
                _ => true,
            }),
            ((match r {
                Err(e) => e is SizeMismatchError,
                _ => false,
            }) <==> !titan.configuration.sizes_ok()),
            (match r {
                Err(SpriteSheetLoaderError::SizeMismatchError(a, b)) => a
                    == titan.configuration.initial_size && b == titan.configuration.max_size,
                _ => true,
            }),
            ((match r {
                Err(e) => e is NoEntriesError,
                _ => false,
            }) <==> (titan.configuration.sizes_ok() && titan.textures@.len() == 0)),
            ((match r {
                Err(e) => e is InvalidRectError,
                _ => false,
            }) <==> (titan.configuration.sizes_ok() && titan.textures@.len() > 0 && !regions_ok(
                titan.textures@,
                images@,
            ))),
            (match r {
                Err(SpriteSheetLoaderError::InvalidRectError(ir)) => invalid_rect_witness(
                    titan.textures@,
                    images@,
                    ir,
                ),
                _ => true,
            }),
            ((match r {
                Err(e) => e is FormatIncompatibleError || e is FormatConversionError,
                _ => false,
            }) <==> (titan.configuration.sizes_ok() && titan.textures@.len() > 0 && regions_ok(
                titan.textures@,
                images@,
            ) && !formats_ok(
                images@,
                titan.configuration.format,
                titan.configuration.auto_format_conversion,
            ))),
            (match r {
                Err(e) => match e {
                    SpriteSheetLoaderError::FormatIncompatibleError { found, expected } => {
                        !titan.configuration.auto_format_conversion && expected
                            == titan.configuration.format && first_bad_format_witness(
                            images@,
                            titan.configuration.format,
                            titan.configuration.auto_format_conversion,
                            found,
                        )
                    },
                    SpriteSheetLoaderError::FormatConversionError { from, to } => {
                        titan.configuration.auto_format_conversion && to
                            == titan.configuration.format && !from.convertible_to(
                            titan.configuration.format,
                        ) && first_bad_format_witness(
                            images@,
                            titan.configuration.format,
                            titan.configuration.auto_format_conversion,
                            from,
                        )
                    },
                    _ => true,
                },
                _ => true,
            }),
            (match r {
                Err(e) => e is PackingExhaustedError ==> (titan.configuration.sizes_ok()
                    && titan.textures@.len() > 0 && regions_ok(titan.textures@, images@)
                    && formats_ok(
                    images@,
                    titan.configuration.format,
                    titan.configuration.auto_format_conversion,
                ) && !bypass_case(*titan, images@)),
                _ => true,
            }),
            (match r {
                Err(e) => e is PackingExhaustedError ==> ((exists|i: int|
                    #![auto]
                    0 <= i < all_descriptors(titan.textures@, images@).len() && (all_descriptors(
                        titan.textures@,
                        images@,
                    )[i].size.x + 2 * titan.configuration.padding.x > u32::MAX
                        || all_descriptors(titan.textures@, images@)[i].size.y + 2
                        * titan.configuration.padding.y > u32::MAX)) || try_pack_spec(
                    padded_boxes(
                        all_descriptors(titan.textures@, images@),
                        titan.configuration.padding,
                    ),
                    titan.configuration.max_size,
                ) is None),
                _ => true,
            }),
            (titan.configuration.sizes_ok() && titan.textures@.len() > 0 && regions_ok(
                titan.textures@,
                images@,
            ) && formats_ok(
                images@,
                titan.configuration.format,
                titan.configuration.auto_format_conversion,
            ) && bypass_case(*titan, images@)) ==> r is Ok,
            (titan.configuration.sizes_ok() && titan.textures@.len() > 0 && regions_ok(
                titan.textures@,
                images@,
            ) && formats_ok(
                images@,
                titan.configuration.format,
                titan.configuration.auto_format_conversion,
            ) && total_region_count(titan.textures@) == 1 && all_descriptors(
                titan.textures@,
                images@,
            )[0].size.x + 2 * titan.configuration.padding.x <= titan.configuration.max_size.x
                && all_descriptors(titan.textures@, images@)[0].size.y + 2
                * titan.configuration.padding.y <= titan.configuration.max_size.y) ==> r is Ok,
    {
        let ghost entries = titan.textures@;
        let ghost imgs = images@;
        match validate_manifest(titan) {
            Err(e) => {
                return Err(e);
            },
            Ok(_) => {},
        }
        // Derive and validate every region.
        let n_entries: usize = titan.textures.len();
        let mut descriptors: Vec<SubImageDescriptor> = Vec::new();
        let mut e: usize = 0;
        while e < n_entries
            invariant
                e <= n_entries,
                n_entries == entries.len(),
                entries == titan.textures@,
                imgs == images@,
                imgs.len() == entries.len(),
                forall|i: int| 0 <= i < imgs.len() ==> (#[trigger] imgs[i]).wf(),
                total_region_count(entries) <= usize::MAX,
                regions_ok_upto(entries, imgs, e as int),
                descriptors@ == descriptors_prefix(entries, imgs, e as int),
            decreases n_entries - e,
        {
            let image_size = images[e].size();
            proof {
                lemma_descriptor_props(entries, imgs, e as int);
                lemma_region_count_prefix_le(entries, e as int + 1, entries.len() as int);
                lemma_region_count_nonneg(entries[e as int].sprite_sheet);
                assert(region_count_prefix(entries, e as int + 1) == region_count_prefix(
                    entries,
                    e as int,
                ) + region_count(entries[e as int].sprite_sheet));
            }
            let entry = &titan.textures[e];
            match push_textures(&mut descriptors, e, entry, image_size) {
                Ok(_) => {
                    proof {
                        assert(descriptors@ == descriptors_prefix(
                            entries,
                            imgs,
                            e as int + 1,
                        ));
                        assert forall|t: int, k: int|
                            0 <= t < e as int + 1 && 0 <= k < region_count(
                                entries[t].sprite_sheet,
                            ) implies #[trigger] region_in_bounds(
                            entries[t].sprite_sheet,
                            imgs[t].width as int,
                            imgs[t].height as int,
                            k,
                        ) by {
                            if t == e as int {
                                assert(region_in_bounds(
                                    entry.sprite_sheet,
                                    image_size.x as int,
                                    image_size.y as int,
                                    k,
                                ));
                            }
                        }
                    }
                },
                Err(ir) => {
                    proof {
                        let (ik0) = choose|k0: int|
                            #![auto]
                            {
                                &&& 0 <= k0 < region_count(entry.sprite_sheet)
                                &&& (forall|k: int|
                                    0 <= k < k0 ==> region_in_bounds(
                                        entry.sprite_sheet,
                                        image_size.x as int,
                                        image_size.y as int,
                                        k,
                                    ))
                                &&& !region_in_bounds(
                                    entry.sprite_sheet,
                                    image_size.x as int,
                                    image_size.y as int,
                                    k0,
                                )
                                &&& ir.0.x == sat_u32(region_min(entry.sprite_sheet, k0).0)
                                &&& ir.0.y == sat_u32(region_min(entry.sprite_sheet, k0).1)
                                &&& ir.1.x == sat_u32(
                                    region_min(entry.sprite_sheet, k0).0 + region_size(
                                        entry.sprite_sheet,
                                        image_size.x as int,
                                        image_size.y as int,
                                        k0,
                                    ).0,
                                )
                                &&& ir.1.y == sat_u32(
                                    region_min(entry.sprite_sheet, k0).1 + region_size(
                                        entry.sprite_sheet,
                                        image_size.x as int,
                                        image_size.y as int,
                                        k0,
                                    ).1,
                                )
                                &&& ir.2@ == entry.path@
                            };
                        assert(!region_in_bounds(
                            entries[e as int].sprite_sheet,
                            imgs[e as int].width as int,
                            imgs[e as int].height as int,
                            ik0,
                        ));
                        assert(!regions_ok(entries, imgs));
                        assert(invalid_rect_witness(entries, imgs, ir));
                    }
                    return Err(SpriteSheetLoaderError::InvalidRectError(ir));
                },
            }
            e = e + 1;
        }
        proof {
            lemma_descriptor_props(entries, imgs, entries.len() as int);
            assert(descriptors@ == all_descriptors(entries, imgs));
            assert(descriptors@.len() == total_region_count(entries));
        }
        // Normalize every source image to the atlas format.
        let target: TextureFormat = titan.configuration.format;
        let auto: bool = titan.configuration.auto_format_conversion;
        let mut images = images;
        let mut sources: Vec<Image> = Vec::new();
        let mut i: usize = 0;
        while i < n_entries
            invariant
                i <= n_entries,
                n_entries == entries.len(),
                entries == titan.textures@,
                imgs.len() == entries.len(),
                images@ == imgs.skip(i as int),
                forall|t: int| 0 <= t < imgs.len() ==> (#[trigger] imgs[t]).wf(),
                target == titan.configuration.format,
                auto == titan.configuration.auto_format_conversion,
                sources@.len() == i,
                formats_ok_upto(imgs, target, auto, i as int),
                forall|t: int|
                    0 <= t < i ==> (#[trigger] sources@[t]).wf() && sources@[t].width == imgs[
                        t
                    ].width && sources@[t].height == imgs[t].height && sources@[t].format
                        == target,
                forall|t: int, x: int, y: int, c: int|
                    #![trigger sources@[t].byte_at(x, y, c)]
                    0 <= t < i && 0 <= x < imgs[t].width && 0 <= y < imgs[t].height && 0 <= c
                        < imgs[t].format.bytes_per_pixel() ==> sources@[t].byte_at(x, y, c)
                        == imgs[t].byte_at(x, y, imgs[t].format.source_channel(target, c)),
            decreases n_entries - i,
        {
            let img = images.remove(0);
            proof {
                assert(img == imgs[i as int]);
                assert(images@ =~= imgs.skip(i as int + 1));
            }
            match normalize_image(img, target, auto) {
                Ok(out) => {
                    sources.push(out);
                },
                Err(fe) => {
                    proof {
                        assert(!image_format_ok(imgs[i as int].format, target, auto));
                        assert(first_bad_format_witness(
                            imgs,
                            target,
                            auto,
                            imgs[i as int].format,
                        ));
                        assert(!formats_ok(imgs, target, auto));
                    }
                    return Err(fe);
                },
            }
            i = i + 1;
        }
        // Single-region bypass: the atlas is the normalized source image.
        let total_descs: usize = descriptors.len();
        if total_descs == 1 && !titan.configuration.always_pack {
            let d = descriptors[0];
            proof {
                assert(all_descriptors(entries, imgs)[0] == d);
                assert(d.source_index < entries.len());
            }
            let src = sources.remove(d.source_index);
            let w = src.width;
            let h = src.height;
            let mut rects: Vec<URect> = Vec::new();
            rects.push(URect { min: UVec2 { x: 0, y: 0 }, max: UVec2 { x: w, y: h } });
            let atlas = TextureAtlas {
                texture: src,
                layout: TextureAtlasLayout { size: UVec2 { x: w, y: h }, textures: rects },
            };
            proof {
                let si = d.source_index as int;
                assert forall|x: int, y: int, c: int|
                    0 <= x < atlas.texture.width && 0 <= y < atlas.texture.height && 0 <= c
                        < target.bytes_per_pixel() && (forall|t: int|
                        0 <= t < atlas.layout.textures@.len() ==> !in_rect(
                            #[trigger] atlas.layout.textures@[t],
                            x,
                            y,
                        )) implies atlas.texture.byte_at(x, y, c) == 0u8 by {
                    assert(in_rect(atlas.layout.textures@[0], x, y));
                }
                assert(load_ok_content(*titan, imgs, atlas));
            }
            return Ok(atlas);
        }
        // Pack the regions, with their padding border, into a growing bin.
        let padding: UVec2 = titan.configuration.padding;
        let mut boxes: Vec<UVec2> = Vec::new();
        let mut t: usize = 0;
        while t < total_descs
            invariant
                t <= total_descs,
                total_descs == descriptors@.len(),
                padding == titan.configuration.padding,
                boxes@.len() == t,
                forall|q: int|
                    0 <= q < t ==> (#[trigger] boxes@[q]).x == descriptors@[q].size.x + 2
                        * padding.x && boxes@[q].y == descriptors@[q].size.y + 2 * padding.y,
            decreases total_descs - t,
        {
            let bx: u64 = descriptors[t].size.x as u64 + 2 * (padding.x as u64);
            let by: u64 = descriptors[t].size.y as u64 + 2 * (padding.y as u64);
            if bx > u32::MAX as u64 || by > u32::MAX as u64 {
                // Such a box can fit no bin of `u32` extent.
                proof {
                    assert(0 <= t as int && (t as int) < all_descriptors(entries, imgs).len()
                        && (all_descriptors(entries, imgs)[t as int].size.x + 2
                        * titan.configuration.padding.x > u32::MAX || all_descriptors(
                        entries,
                        imgs,
                    )[t as int].size.y + 2 * titan.configuration.padding.y > u32::MAX));
                }
                return Err(SpriteSheetLoaderError::PackingExhaustedError);
            }
            boxes.push(UVec2 { x: bx as u32, y: by as u32 });
            t = t + 1;
        }
        let initial_size: UVec2 = titan.configuration.initial_size;
        let max_size: UVec2 = titan.configuration.max_size;
        match pack_all(&boxes, initial_size, max_size) {
            Err(pe) => {
                proof {
                    assert forall|q: int|
                        0 <= q < boxes@.len() implies #[trigger] boxes@[q] == padded_boxes(
                        all_descriptors(entries, imgs),
                        titan.configuration.padding,
                    )[q] by {
                        assert(boxes@[q].x == descriptors@[q].size.x + 2 * padding.x
                            && boxes@[q].y == descriptors@[q].size.y + 2 * padding.y);
                    }
                    assert(boxes@ =~= padded_boxes(
                        all_descriptors(entries, imgs),
                        titan.configuration.padding,
                    ));
                    assert(try_pack_spec(
                        padded_boxes(
                            all_descriptors(entries, imgs),
                            titan.configuration.padding,
                        ),
                        titan.configuration.max_size,
                    ) is None);
                }
                return Err(pe);
            },
            Ok((positions, atlas_size)) => {
                // Shift each placement by the padding border to get the
                // region's pixel position.
                let mut region_pos: Vec<UVec2> = Vec::new();
                let mut t: usize = 0;
                while t < total_descs
                    invariant
                        t <= total_descs,
                        total_descs == descriptors@.len(),
                        boxes@.len() == total_descs,
                        positions@.len() == total_descs,
                        padding == titan.configuration.padding,
                        forall|q: int|
                            0 <= q < total_descs ==> (#[trigger] boxes@[q]).x == descriptors@[
                                q
                            ].size.x + 2 * padding.x && boxes@[q].y == descriptors@[q].size.y + 2
                                * padding.y,
                        boxes_fit(positions@, boxes@, atlas_size),
                        region_pos@.len() == t,
                        forall|q: int|
                            0 <= q < t ==> (#[trigger] region_pos@[q]).x == positions@[q].x
                                + padding.x && region_pos@[q].y == positions@[q].y + padding.y,
                    decreases total_descs - t,
                {
                    proof {
                        assert((positions@[t as int]).x + boxes@[t as int].x <= atlas_size.x
                            && positions@[t as int].y + boxes@[t as int].y <= atlas_size.y);
                    }
                    let rp = UVec2 {
                        x: positions[t].x + padding.x,
                        y: positions[t].y + padding.y,
                    };
                    region_pos.push(rp);
                    t = t + 1;
                }
                proof {
                    assert forall|q: int|
                        0 <= q < total_descs implies (#[trigger] region_pos@[q]).x
                        + descriptors@[q].size.x <= atlas_size.x && region_pos@[q].y
                        + descriptors@[q].size.y <= atlas_size.y by {
                        assert(positions@[q].x + boxes@[q].x <= atlas_size.x);
                        assert(positions@[q].y + boxes@[q].y <= atlas_size.y);
                    }
                    assert forall|a: int, b: int|
                        0 <= a < b < total_descs implies rects_disjoint(
                        #[trigger] region_pos@[a],
                        descriptors@[a].size,
                        #[trigger] region_pos@[b],
                        descriptors@[b].size,
                    ) by {
                        assert(rects_disjoint(
                            positions@[a],
                            boxes@[a],
                            positions@[b],
                            boxes@[b],
                        ));
                    }
                    assert forall|q: int|
                        0 <= q < total_descs implies (#[trigger] descriptors@[q]).source_index
                        < sources@.len() && descriptors@[q].position.x + descriptors@[q].size.x
                        <= sources@[descriptors@[q].source_index as int].width
                        && descriptors@[q].position.y + descriptors@[q].size.y <= sources@[
                        descriptors@[q].source_index as int
                    ].height by {
                        assert(descriptors_prefix(entries, imgs, entries.len() as int)[q]
                            == descriptors@[q]);
                    }
                    assert(composite_req(
                        sources@,
                        descriptors@,
                        region_pos@,
                        atlas_size,
                        target,
                    ));
                    assert(atlas_size.x as int * atlas_size.y as int
                        * target.bytes_per_pixel() <= max_size.x as int * max_size.y as int
                        * target.bytes_per_pixel()) by (nonlinear_arith)
                        requires
                            atlas_size.x <= max_size.x,
                            atlas_size.y <= max_size.y,
                            0 <= atlas_size.x,
                            0 <= atlas_size.y,
                            1 <= target.bytes_per_pixel(),
                    ;
                }
                let texture = composite(&sources, &descriptors, &region_pos, atlas_size, target);
                // Emit the layout rectangles in derivation order.
                let mut rects: Vec<URect> = Vec::new();
                let mut t: usize = 0;
                while t < total_descs
                    invariant
                        t <= total_descs,
                        total_descs == descriptors@.len(),
                        region_pos@.len() == total_descs,
                        forall|q: int|
                            0 <= q < total_descs ==> (#[trigger] region_pos@[q]).x
                                + descriptors@[q].size.x <= atlas_size.x && region_pos@[q].y
                                + descriptors@[q].size.y <= atlas_size.y,
                        rects@.len() == t,
                        forall|q: int|
                            0 <= q < t ==> (#[trigger] rects@[q]).min == region_pos@[q]
                                && rects@[q].max.x == region_pos@[q].x + descriptors@[q].size.x
                                && rects@[q].max.y == region_pos@[q].y + descriptors@[q].size.y,
                    decreases total_descs - t,
                {
                    proof {
                        assert((region_pos@[t as int]).x + descriptors@[t as int].size.x
                            <= atlas_size.x && region_pos@[t as int].y + descriptors@[
                        t as int].size.y <= atlas_size.y);
                    }
                    let rp = region_pos[t];
                    let sz = descriptors[t].size;
                    rects.push(
                        URect { min: rp, max: UVec2 { x: rp.x + sz.x, y: rp.y + sz.y } },
                    );
                    t = t + 1;
                }
                let atlas = TextureAtlas {
                    texture,
                    layout: TextureAtlasLayout { size: atlas_size, textures: rects },
                };
                proof {
                    let ds = all_descriptors(entries, imgs);
                    let arects = atlas.layout.textures@;
                    assert forall|a: int, b: int|
                        0 <= a < b < arects.len() implies urects_disjoint(
                        #[trigger] arects[a],
                        #[trigger] arects[b],
                    ) by {
                        assert(rects_disjoint(
                            region_pos@[a],
                            descriptors@[a].size,
                            region_pos@[b],
                            descriptors@[b].size,
                        ));
                    }
                    assert forall|q: int, x: int, y: int, c: int|
                        0 <= q < arects.len() && in_rect(arects[q], x, y) && 0 <= c
                            < target.bytes_per_pixel() implies atlas.texture.byte_at(x, y, c)
                        == imgs[ds[q].source_index as int].byte_at(
                        ds[q].position.x + (x - arects[q].min.x),
                        ds[q].position.y + (y - arects[q].min.y),
                        imgs[ds[q].source_index as int].format.source_channel(target, c),
                    ) by {
                        assert(in_region(region_pos@[q], descriptors@[q].size, x, y));
                        assert(atlas.texture.byte_at(x, y, c) == region_source_byte(
                            sources@,
                            descriptors@,
                            region_pos@,
                            q,
                            x,
                            y,
                            c,
                        ));
                        let si = ds[q].source_index as int;
                        assert(sources@[si].byte_at(
                            ds[q].position.x + (x - region_pos@[q].x),
                            ds[q].position.y + (y - region_pos@[q].y),
                            c,
                        ) == imgs[si].byte_at(
                            ds[q].position.x + (x - region_pos@[q].x),
                            ds[q].position.y + (y - region_pos@[q].y),
                            imgs[si].format.source_channel(target, c),
                        ));
                    }
                    assert forall|x: int, y: int, c: int|
                        0 <= x < atlas.texture.width && 0 <= y < atlas.texture.height && 0 <= c
                            < target.bytes_per_pixel() && (forall|q: int|
                            0 <= q < arects.len() ==> !in_rect(#[trigger] arects[q], x, y))
                        implies atlas.texture.byte_at(x, y, c) == 0u8 by {
                        assert forall|q: int|
                            0 <= q < descriptors@.len() implies !in_region(
                            #[trigger] region_pos@[q],
                            descriptors@[q].size,
                            x,
                            y,
                        ) by {
                            assert(!in_rect(arects[q], x, y));
                        }
                    }
                    assert forall|a: int|
                        0 <= a < arects.len() implies padding.x <= (#[trigger] arects[a]).min.x
                        && padding.y <= arects[a].min.y && arects[a].max.x + padding.x
                        <= atlas.texture.width && arects[a].max.y + padding.y
                        <= atlas.texture.height by {
                        assert(positions@[a].x + boxes@[a].x <= atlas_size.x);
                        assert(positions@[a].y + boxes@[a].y <= atlas_size.y);
                        assert(boxes@[a].x == descriptors@[a].size.x + 2 * padding.x);
                        assert(boxes@[a].y == descriptors@[a].size.y + 2 * padding.y);
                    }
                    assert forall|a: int, b: int|
                        0 <= a < b < arects.len() implies padded_rects_disjoint(
                        #[trigger] arects[a],
                        #[trigger] arects[b],
                        padding,
                    ) by {
                        assert(rects_disjoint(
                            positions@[a],
                            boxes@[a],
                            positions@[b],
                            boxes@[b],
                        ));
                        assert(boxes@[a].x == descriptors@[a].size.x + 2 * padding.x);
                        assert(boxes@[a].y == descriptors@[a].size.y + 2 * padding.y);
                        assert(boxes@[b].x == descriptors@[b].size.x + 2 * padding.x);
                        assert(boxes@[b].y == descriptors@[b].size.y + 2 * padding.y);
                    }
                    assert forall|q: int|
                        0 <= q < boxes@.len() implies #[trigger] boxes@[q] == padded_boxes(
                        ds,
                        padding,
                    )[q] by {
                        assert(boxes@[q].x == descriptors@[q].size.x + 2 * padding.x
                            && boxes@[q].y == descriptors@[q].size.y + 2 * padding.y);
                    }
                    assert(boxes@ =~= padded_boxes(ds, padding));
                    assert((UVec2 { x: atlas.texture.width, y: atlas.texture.height })
                        == atlas_size);
                    assert(try_pack_spec(padded_boxes(ds, padding), atlas_size) == Some(
                        positions@,
                    ));
                    let k0 = choose|k: int|
                        #![trigger attempt_bin(initial_size, max_size, k)]
                        0 <= k && atlas_size == attempt_bin(initial_size, max_size, k) && (
                        forall|j: int|
                            0 <= j < k ==> try_pack_spec(
                                boxes@,
                                #[trigger] attempt_bin(initial_size, max_size, j),
                            ) is None);
                    assert(0 <= k0 && atlas_size == attempt_bin(initial_size, max_size, k0));
                    assert forall|j: int| 0 <= j < k0 implies try_pack_spec(
                        padded_boxes(ds, padding),
                        #[trigger] attempt_bin(initial_size, max_size, j),
                    ) is None by {
                        assert(try_pack_spec(boxes@, attempt_bin(initial_size, max_size, j))
                            is None);
                    }
                    assert(load_ok_content(*titan, imgs, atlas));
                }
                Ok(atlas)
            },
        }
    }
}

} // verus!

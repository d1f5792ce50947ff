//! The manifest model: configuration, entries and sprite-sheet variants.
//!
//! A manifest names an ordered list of textures, each with a path handed to
//! the caller's image resolver and a sprite-sheet variant saying how the
//! image is cut into regions. The configuration carries the atlas sizes,
//! the destination pixel format and the packing options, with defaults for
//! every field.

use vstd::prelude::*;

use crate::format::TextureFormat;
use crate::math::UVec2;

verus! {

/// Default starting atlas size.
pub fn default_initial_size() -> (r: UVec2)
    ensures
        r.x == 256 && r.y == 256,
{
    UVec2 { x: 256, y: 256 }
}

/// Default upper bound for atlas growth.
pub fn default_max_size() -> (r: UVec2)
    ensures
        r.x == 2048 && r.y == 2048,
{
    UVec2 { x: 2048, y: 2048 }
}

/// Default destination pixel format.
pub fn default_format() -> (r: TextureFormat)
    ensures
        r == TextureFormat::Rgba8UnormSrgb,
{
    TextureFormat::Rgba8UnormSrgb
}

/// By default, mismatched source formats are converted rather than rejected.
pub fn default_auto_format_conversion() -> (r: bool)
    ensures
        r == true,
{
    true
}

/// Default border around each packed region: none.
pub fn default_padding() -> (r: UVec2)
    ensures
        r.x == 0 && r.y == 0,
{
    UVec2 { x: 0, y: 0 }
}

/// Default grid offset: none.
pub fn default_offset() -> (r: UVec2)
    ensures
        r.x == 0 && r.y == 0,
{
    UVec2 { x: 0, y: 0 }
}

/// Configuration of an atlas build.
#[derive(Debug, Clone)]
pub struct TitanConfiguration {
    /// Run the packer even when a single region could stand alone.
    pub always_pack: bool,
    /// Starting atlas dimensions.
    pub initial_size: UVec2,
    /// Upper bound for atlas growth; must dominate `initial_size`.
    pub max_size: UVec2,
    /// Destination pixel format.
    pub format: TextureFormat,
    /// Convert mismatched source formats instead of failing.
    pub auto_format_conversion: bool,
    /// Border inserted around each packed region.
    pub padding: UVec2,
}

impl TitanConfiguration {
    /// The configured maximum size dominates the initial size on both axes.
    pub open spec fn sizes_ok(self) -> bool {
        self.initial_size.x <= self.max_size.x && self.initial_size.y <= self.max_size.y
    }
}

impl Default for TitanConfiguration {
    /// The documented field defaults.
    fn default() -> (r: TitanConfiguration)
        ensures
            r.always_pack == false,
            r.initial_size.x == 256 && r.initial_size.y == 256,
            r.max_size.x == 2048 && r.max_size.y == 2048,
            r.format == TextureFormat::Rgba8UnormSrgb,
            r.auto_format_conversion == true,
            r.padding.x == 0 && r.padding.y == 0,
    {
        TitanConfiguration {
            always_pack: false,
            initial_size: default_initial_size(),
            max_size: default_max_size(),
            format: default_format(),
            auto_format_conversion: default_auto_format_conversion(),
            padding: default_padding(),
        }
    }
}

/// How one entry's source image is cut into sprite regions.
#[derive(Debug, Clone)]
pub enum TitanSpriteSheet {
    /// The whole source image is a single region.
    Whole,
    /// A uniform grid of `columns * rows` tiles of `tile_size`, shifted by
    /// `offset`, with a half-`padding` margin before the first tile and a
    /// full-`padding` gutter between tiles on each axis.
    Homogeneous {
        /// Size of every tile.
        tile_size: UVec2,
        /// Number of tiles per row.
        columns: u32,
        /// Number of rows.
        rows: u32,
        /// Gutter unit between tiles.
        padding: UVec2,
        /// Shift of the whole grid.
        offset: UVec2,
    },
    /// Explicit `(position, size)` regions, used verbatim.
    Heterogeneous(Vec<(UVec2, UVec2)>),
}

impl Default for TitanSpriteSheet {
    /// An entry without a sprite sheet takes the whole image.
    fn default() -> (r: TitanSpriteSheet)
        ensures
            r is Whole,
    {
        TitanSpriteSheet::Whole
    }
}

/// One texture entry of a manifest.
#[derive(Debug, Clone)]
pub struct TitanEntry {
    /// Opaque resource identifier, forwarded to the caller's image resolver.
    pub path: String,
    /// How the entry's image is cut into regions.
    pub sprite_sheet: TitanSpriteSheet,
}

/// A whole manifest: a configuration and an ordered list of entries.
#[derive(Debug, Clone)]
pub struct Titan {
    /// Build configuration.
    pub configuration: TitanConfiguration,
    /// The texture entries; must not be empty.
    pub textures: Vec<TitanEntry>,
}

} // verus!

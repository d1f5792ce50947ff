//! Builds a packed texture atlas from a declarative sprite-sheet manifest.
//!
//! A manifest names one or more source images and, for each, how it is cut
//! into sprite regions (whole image, uniform grid, or explicit rectangles).
//! The engine validates every region against its source image, normalizes
//! pixel formats, packs all regions into one growing bin bounded by a
//! configured maximum, and composites the source bytes into a single
//! destination buffer together with a layout table mapping each region to
//! its rectangle in the atlas.

pub mod asset_loader;
pub mod compositor;
pub mod descriptor;
pub mod error;
pub mod format;
pub mod manifest;
pub mod normalizer;
pub mod packer;
pub mod image;
pub mod math;

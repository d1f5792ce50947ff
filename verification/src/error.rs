//! Error values of the atlas engine.
//!
//! Every error is terminal: a build either completes or fails as a whole,
//! and each error carries the context a caller needs to report it.

use vstd::prelude::*;

use crate::format::TextureFormat;
use crate::math::UVec2;

verus! {

/// A derived sprite region does not lie within its source image.
///
/// Holds the rectangle's corners and the path of the offending entry.
#[derive(Debug, Clone)]
pub struct InvalidRectError(pub UVec2, pub UVec2, pub String);

/// The errors an atlas build can end in.
#[derive(Debug, Clone)]
pub enum SpriteSheetLoaderError {
    /// The manifest's `textures` list is empty.
    NoEntriesError,
    /// The configured initial size exceeds the maximum size on an axis;
    /// carries the initial and the maximum size.
    SizeMismatchError(UVec2, UVec2),
    /// A derived sprite region lies outside its source image.
    InvalidRectError(InvalidRectError),
    /// A source image's format differs from the atlas format and automatic
    /// conversion is disabled.
    FormatIncompatibleError {
        /// Format of the source image.
        found: TextureFormat,
        /// Configured atlas format.
        expected: TextureFormat,
    },
    /// A source image's format cannot be rewritten as the atlas format.
    FormatConversionError {
        /// Format of the source image.
        from: TextureFormat,
        /// Configured atlas format.
        to: TextureFormat,
    },
    /// No arrangement of the regions fits within the maximum atlas size.
    PackingExhaustedError,
}

} // verus!

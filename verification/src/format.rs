//! Pixel formats supported by the atlas engine.
//!
//! The engine composites raw bytes, so it only needs to know each format's
//! byte width and channel layout. Formats with the same four-channel layout
//! up to an sRGB tag share their bytes; the two four-channel layouts differ
//! by a swap of the first and third channel.

use vstd::prelude::*;

verus! {

/// A pixel format of a source image or of the destination atlas.
///
/// The identifiers match the manifest's case-sensitive format names.
#[derive(Clone, Copy, PartialEq, Eq, Structural, Debug, Hash)]
pub enum TextureFormat {
    /// Four channels, red first, linear.
    Rgba8Unorm,
    /// Four channels, red first, sRGB.
    Rgba8UnormSrgb,
    /// Four channels, blue first, linear.
    Bgra8Unorm,
    /// Four channels, blue first, sRGB.
    Bgra8UnormSrgb,
    /// One channel, linear.
    R8Unorm,
}

impl TextureFormat {
    /// Number of bytes of one pixel in this format.
    pub open spec fn bytes_per_pixel(self) -> int {
        match self {
            TextureFormat::R8Unorm => 1,
            _ => 4,
        }
    }

    /// Executable byte width of one pixel; agrees with [`Self::bytes_per_pixel`].
    pub fn pixel_size(&self) -> (r: usize)
        ensures
            r == self.bytes_per_pixel(),
    {
        match self {
            TextureFormat::R8Unorm => 1,
            _ => 4,
        }
    }

    /// The format stores four channels with the red channel first.
    pub open spec fn is_rgba_layout(self) -> bool {
        self == TextureFormat::Rgba8Unorm || self == TextureFormat::Rgba8UnormSrgb
    }

    /// The format stores four channels with the blue channel first.
    pub open spec fn is_bgra_layout(self) -> bool {
        self == TextureFormat::Bgra8Unorm || self == TextureFormat::Bgra8UnormSrgb
    }

    /// A value of `self` can be rewritten as a value of `to` byte by byte:
    /// either the formats are equal, or both have a four-channel layout and
    /// the conversion is at most a channel swap.
    pub open spec fn convertible_to(self, to: TextureFormat) -> bool {
        self == to || ((self.is_rgba_layout() || self.is_bgra_layout()) && (
        to.is_rgba_layout() || to.is_bgra_layout()))
    }

    /// Channel of a `self` pixel that supplies channel `c` of a `to` pixel
    /// under conversion: the identity, except that a swap of the red-first
    /// and blue-first layouts exchanges channels 0 and 2.
    pub open spec fn source_channel(self, to: TextureFormat, c: int) -> int {
        if (self.is_rgba_layout() && to.is_bgra_layout()) || (self.is_bgra_layout()
            && to.is_rgba_layout()) {
            if c == 0 {
                2
            } else if c == 2 {
                0
            } else {
                c
            }
        } else {
            c
        }
    }

    /// Parses a manifest format identifier; unknown identifiers are rejected.
    pub fn from_identifier(s: &String) -> (r: Option<TextureFormat>)
        ensures
            r == Some(TextureFormat::Rgba8Unorm) <==> s@ == "Rgba8Unorm"@,
            r == Some(TextureFormat::Rgba8UnormSrgb) <==> s@ == "Rgba8UnormSrgb"@,
            r == Some(TextureFormat::Bgra8Unorm) <==> s@ == "Bgra8Unorm"@,
            r == Some(TextureFormat::Bgra8UnormSrgb) <==> s@ == "Bgra8UnormSrgb"@,
            r == Some(TextureFormat::R8Unorm) <==> s@ == "R8Unorm"@,
            r is None <==> (s@ != "Rgba8Unorm"@ && s@ != "Rgba8UnormSrgb"@ && s@
                != "Bgra8Unorm"@ && s@ != "Bgra8UnormSrgb"@ && s@ != "R8Unorm"@),
    {
        proof {
            reveal_strlit("Rgba8Unorm");
            reveal_strlit("Rgba8UnormSrgb");
            reveal_strlit("Bgra8Unorm");
            reveal_strlit("Bgra8UnormSrgb");
            reveal_strlit("R8Unorm");
            assert("Rgba8Unorm"@.len() == 10);
            assert("Rgba8UnormSrgb"@.len() == 14);
            assert("Bgra8Unorm"@.len() == 10);
            assert("Bgra8UnormSrgb"@.len() == 14);
            assert("R8Unorm"@.len() == 7);
            assert("Rgba8Unorm"@[0] == 'R');
            assert("Bgra8Unorm"@[0] == 'B');
            assert("Rgba8UnormSrgb"@[0] == 'R');
            assert("Bgra8UnormSrgb"@[0] == 'B');
        }
        if *s == "Rgba8Unorm".to_owned() {
            Some(TextureFormat::Rgba8Unorm)
        } else if *s == "Rgba8UnormSrgb".to_owned() {
            Some(TextureFormat::Rgba8UnormSrgb)
        } else if *s == "Bgra8Unorm".to_owned() {
            Some(TextureFormat::Bgra8Unorm)
        } else if *s == "Bgra8UnormSrgb".to_owned() {
            Some(TextureFormat::Bgra8UnormSrgb)
        } else if *s == "R8Unorm".to_owned() {
            Some(TextureFormat::R8Unorm)
        } else {
            None
        }
    }

    /// The manifest identifier of this format.
    pub fn identifier(&self) -> (r: String)
        ensures
            (match *self {
                TextureFormat::Rgba8Unorm => r@ == "Rgba8Unorm"@,
                TextureFormat::Rgba8UnormSrgb => r@ == "Rgba8UnormSrgb"@,
                TextureFormat::Bgra8Unorm => r@ == "Bgra8Unorm"@,
                TextureFormat::Bgra8UnormSrgb => r@ == "Bgra8UnormSrgb"@,
                TextureFormat::R8Unorm => r@ == "R8Unorm"@,
            }),
    {
        match self {
            TextureFormat::Rgba8Unorm => "Rgba8Unorm".to_owned(),
            TextureFormat::Rgba8UnormSrgb => "Rgba8UnormSrgb".to_owned(),
            TextureFormat::Bgra8Unorm => "Bgra8Unorm".to_owned(),
            TextureFormat::Bgra8UnormSrgb => "Bgra8UnormSrgb".to_owned(),
            TextureFormat::R8Unorm => "R8Unorm".to_owned(),
        }
    }
}

} // verus!

//! Unit tests of the pixel formats, the normalizer, the packer's growth
//! rule and the manifest defaults.

use titan_atlas::error::SpriteSheetLoaderError;
use titan_atlas::format::TextureFormat;
use titan_atlas::image::{extract_texture_from_rect, Image};
use titan_atlas::manifest::{
    default_auto_format_conversion, default_format, default_initial_size, default_max_size,
    default_offset, default_padding, TitanConfiguration, TitanSpriteSheet,
};
use titan_atlas::math::{URect, UVec2};
use titan_atlas::normalizer::normalize_image;
use titan_atlas::packer::{grow_size, pack_all, try_pack};

#[test]
fn format_identifiers_parse_case_sensitively() {
    let cases = [
        ("Rgba8Unorm", Some(TextureFormat::Rgba8Unorm)),
        ("Rgba8UnormSrgb", Some(TextureFormat::Rgba8UnormSrgb)),
        ("Bgra8Unorm", Some(TextureFormat::Bgra8Unorm)),
        ("Bgra8UnormSrgb", Some(TextureFormat::Bgra8UnormSrgb)),
        ("R8Unorm", Some(TextureFormat::R8Unorm)),
        ("rgba8unorm", None),
        ("Rgba8", None),
        ("", None),
    ];
    for (name, expected) in cases.iter() {
        assert_eq!(
            TextureFormat::from_identifier(&name.to_string()),
            *expected,
            "identifier {:?}",
            name
        );
    }
}

#[test]
fn format_identifier_round_trips() {
    for f in [
        TextureFormat::Rgba8Unorm,
        TextureFormat::Rgba8UnormSrgb,
        TextureFormat::Bgra8Unorm,
        TextureFormat::Bgra8UnormSrgb,
        TextureFormat::R8Unorm,
    ] {
        assert_eq!(TextureFormat::from_identifier(&f.identifier()), Some(f));
    }
}

#[test]
fn pixel_sizes_match_formats() {
    assert_eq!(TextureFormat::Rgba8UnormSrgb.pixel_size(), 4);
    assert_eq!(TextureFormat::Bgra8Unorm.pixel_size(), 4);
    assert_eq!(TextureFormat::R8Unorm.pixel_size(), 1);
}

#[test]
fn normalize_passes_matching_format_through_unchanged() {
    let img = Image::new(1, 1, TextureFormat::Rgba8Unorm, vec![1, 2, 3, 4]);
    let out = normalize_image(img, TextureFormat::Rgba8Unorm, false).unwrap();
    assert_eq!(out.data, vec![1, 2, 3, 4]);
    assert_eq!(out.format, TextureFormat::Rgba8Unorm);
}

#[test]
fn normalize_swizzles_rgba_to_bgra() {
    let img = Image::new(2, 1, TextureFormat::Rgba8Unorm, vec![1, 2, 3, 4, 5, 6, 7, 8]);
    let out = normalize_image(img, TextureFormat::Bgra8UnormSrgb, true).unwrap();
    assert_eq!(out.format, TextureFormat::Bgra8UnormSrgb);
    assert_eq!(out.data, vec![3, 2, 1, 4, 7, 6, 5, 8]);
}

#[test]
fn normalize_reinterprets_srgb_tag_without_touching_bytes() {
    let img = Image::new(1, 1, TextureFormat::Rgba8Unorm, vec![9, 8, 7, 6]);
    let out = normalize_image(img, TextureFormat::Rgba8UnormSrgb, true).unwrap();
    assert_eq!(out.data, vec![9, 8, 7, 6]);
}

#[test]
fn normalize_rejects_mismatch_when_conversion_disabled() {
    let img = Image::new(1, 1, TextureFormat::Rgba8Unorm, vec![0, 0, 0, 0]);
    match normalize_image(img, TextureFormat::Bgra8Unorm, false) {
        Err(SpriteSheetLoaderError::FormatIncompatibleError { found, expected }) => {
            assert_eq!(found, TextureFormat::Rgba8Unorm);
            assert_eq!(expected, TextureFormat::Bgra8Unorm);
        }
        other => panic!("expected FormatIncompatibleError, got {:?}", other),
    }
}

#[test]
fn normalize_fails_conversion_between_incompatible_layouts() {
    let img = Image::new(2, 2, TextureFormat::R8Unorm, vec![1, 2, 3, 4]);
    match normalize_image(img, TextureFormat::Rgba8UnormSrgb, true) {
        Err(SpriteSheetLoaderError::FormatConversionError { from, to }) => {
            assert_eq!(from, TextureFormat::R8Unorm);
            assert_eq!(to, TextureFormat::Rgba8UnormSrgb);
        }
        other => panic!("expected FormatConversionError, got {:?}", other),
    }
}

#[test]
fn grow_size_doubles_each_axis_clamped_to_max() {
    let max = UVec2 { x: 2048, y: 2048 };
    assert_eq!(grow_size(UVec2 { x: 256, y: 256 }, max), UVec2 { x: 512, y: 512 });
    assert_eq!(
        grow_size(UVec2 { x: 1500, y: 2048 }, max),
        UVec2 { x: 2048, y: 2048 }
    );
    assert_eq!(
        grow_size(UVec2 { x: 0, y: 4 }, UVec2 { x: 8, y: 8 }),
        UVec2 { x: 1, y: 8 }
    );
    assert_eq!(grow_size(max, max), max);
}

#[test]
fn try_pack_places_single_box_at_origin() {
    let boxes = vec![UVec2 { x: 5, y: 3 }];
    let pos = try_pack(&boxes, UVec2 { x: 8, y: 8 }).unwrap();
    assert_eq!(pos, vec![UVec2 { x: 0, y: 0 }]);
    assert!(try_pack(&boxes, UVec2 { x: 4, y: 8 }).is_none());
}

#[test]
fn pack_all_grows_from_initial_to_fit() {
    let boxes = vec![
        UVec2 { x: 4, y: 4 },
        UVec2 { x: 4, y: 4 },
        UVec2 { x: 4, y: 4 },
    ];
    let (pos, size) = pack_all(&boxes, UVec2 { x: 4, y: 4 }, UVec2 { x: 32, y: 32 }).unwrap();
    assert_eq!(pos.len(), 3);
    assert!(size.x <= 32 && size.y <= 32);
    for i in 0..3 {
        assert!(pos[i].x + 4 <= size.x && pos[i].y + 4 <= size.y);
        for j in (i + 1)..3 {
            let disjoint = pos[i].x + 4 <= pos[j].x
                || pos[j].x + 4 <= pos[i].x
                || pos[i].y + 4 <= pos[j].y
                || pos[j].y + 4 <= pos[i].y;
            assert!(disjoint);
        }
    }
}

#[test]
fn pack_all_reports_exhaustion_at_max_size() {
    let boxes = vec![UVec2 { x: 100, y: 100 }];
    let r = pack_all(&boxes, UVec2 { x: 16, y: 16 }, UVec2 { x: 64, y: 64 });
    assert!(matches!(r, Err(SpriteSheetLoaderError::PackingExhaustedError)));
}

#[test]
fn configuration_defaults_match_schema() {
    let cfg = TitanConfiguration::default();
    assert_eq!(cfg.always_pack, false);
    assert_eq!(cfg.initial_size, UVec2 { x: 256, y: 256 });
    assert_eq!(cfg.max_size, UVec2 { x: 2048, y: 2048 });
    assert_eq!(cfg.format, TextureFormat::Rgba8UnormSrgb);
    assert_eq!(cfg.auto_format_conversion, true);
    assert_eq!(cfg.padding, UVec2 { x: 0, y: 0 });
    assert_eq!(default_initial_size(), UVec2 { x: 256, y: 256 });
    assert_eq!(default_max_size(), UVec2 { x: 2048, y: 2048 });
    assert_eq!(default_format(), TextureFormat::Rgba8UnormSrgb);
    assert_eq!(default_auto_format_conversion(), true);
    assert_eq!(default_padding(), UVec2 { x: 0, y: 0 });
    assert_eq!(default_offset(), UVec2 { x: 0, y: 0 });
    assert!(matches!(TitanSpriteSheet::default(), TitanSpriteSheet::Whole));
}

#[test]
fn extract_rejects_rect_beyond_image_bounds() {
    let img = Image::new(4, 4, TextureFormat::Rgba8UnormSrgb, vec![0; 64]);
    let rect = URect::from_corners(UVec2 { x: 2, y: 2 }, UVec2 { x: 6, y: 4 });
    match extract_texture_from_rect(&img, rect, &"p.png".to_string()) {
        Err(e) => {
            assert_eq!(e.0, UVec2 { x: 2, y: 2 });
            assert_eq!(e.1, UVec2 { x: 6, y: 4 });
            assert_eq!(e.2, "p.png");
        }
        Ok(_) => panic!("expected an error"),
    }
}

#[test]
fn extract_copies_the_requested_rows() {
    let mut data = Vec::new();
    for i in 0..16u32 {
        data.push(i as u8);
    }
    let img = Image::new(4, 4, TextureFormat::R8Unorm, data);
    let rect = URect::from_corners(UVec2 { x: 1, y: 1 }, UVec2 { x: 3, y: 3 });
    let out = extract_texture_from_rect(&img, rect, &"p.png".to_string()).unwrap();
    assert_eq!(out.width, 2);
    assert_eq!(out.height, 2);
    assert_eq!(out.data, vec![5, 6, 9, 10]);
}

#[test]
fn loader_extensions_name_manifest_files() {
    let loader = titan_atlas::asset_loader::SpriteSheetLoader::default();
    let exts = loader.extensions();
    assert_eq!(exts, vec!["titan.ron".to_string(), "titan".to_string()]);
}

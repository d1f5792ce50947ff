//! End-to-end tests of the atlas engine: derivation, validation, packing,
//! compositing and layout emission.

use titan_atlas::asset_loader::{validate_manifest, SpriteSheetLoader, TextureAtlas};
use titan_atlas::error::SpriteSheetLoaderError;
use titan_atlas::format::TextureFormat;
use titan_atlas::image::{extract_texture_from_rect, Image};
use titan_atlas::manifest::{Titan, TitanConfiguration, TitanEntry, TitanSpriteSheet};
use titan_atlas::math::{URect, UVec2};

fn rgba_image(width: u32, height: u32) -> Image {
    let n = (width as usize) * (height as usize) * 4;
    let mut data = Vec::with_capacity(n);
    for i in 0..n {
        data.push((i % 251) as u8);
    }
    Image::new(width, height, TextureFormat::Rgba8UnormSrgb, data)
}

fn entry(path: &str, sheet: TitanSpriteSheet) -> TitanEntry {
    TitanEntry {
        path: path.to_owned(),
        sprite_sheet: sheet,
    }
}

fn manifest(entries: Vec<TitanEntry>) -> Titan {
    Titan {
        configuration: TitanConfiguration::default(),
        textures: entries,
    }
}

fn load(titan: &Titan, images: Vec<Image>) -> Result<TextureAtlas, SpriteSheetLoaderError> {
    SpriteSheetLoader.load(titan, images)
}

fn source_byte(img: &Image, x: u32, y: u32, c: u32) -> u8 {
    img.data[((y * img.width + x) * 4 + c) as usize]
}

#[test]
fn empty_textures_list_yields_no_entries_error() {
    let titan = manifest(vec![]);
    assert!(matches!(
        validate_manifest(&titan),
        Err(SpriteSheetLoaderError::NoEntriesError)
    ));
    assert!(matches!(
        load(&titan, vec![]),
        Err(SpriteSheetLoaderError::NoEntriesError)
    ));
}

#[test]
fn max_size_below_initial_size_yields_size_mismatch_before_images() {
    let mut titan = manifest(vec![entry("a.png", TitanSpriteSheet::Whole)]);
    titan.configuration.initial_size = UVec2::new(1024, 1024);
    titan.configuration.max_size = UVec2::new(512, 512);
    // Validation needs no resolved image.
    match validate_manifest(&titan) {
        Err(SpriteSheetLoaderError::SizeMismatchError(initial, max)) => {
            assert_eq!(initial, UVec2::new(1024, 1024));
            assert_eq!(max, UVec2::new(512, 512));
        }
        other => panic!("expected SizeMismatchError, got {:?}", other),
    }
}

#[test]
fn homogeneous_grid_yields_row_major_descriptors() {
    let mut descriptors = Vec::new();
    let e = entry(
        "sheet.png",
        TitanSpriteSheet::Homogeneous {
            tile_size: UVec2::new(24, 24),
            columns: 7,
            rows: 1,
            padding: UVec2::new(0, 0),
            offset: UVec2::new(0, 0),
        },
    );
    let r = titan_atlas::descriptor::push_textures(&mut descriptors, 0, &e, UVec2::new(168, 24));
    assert!(r.is_ok());
    assert_eq!(descriptors.len(), 7);
    for (j, d) in descriptors.iter().enumerate() {
        assert_eq!(d.source_index, 0);
        assert_eq!(d.position, UVec2::new(24 * j as u32, 0));
        assert_eq!(d.size, UVec2::new(24, 24));
    }
}

#[test]
fn homogeneous_grid_applies_offset_and_gutter_padding() {
    let mut descriptors = Vec::new();
    let e = entry(
        "sheet.png",
        TitanSpriteSheet::Homogeneous {
            tile_size: UVec2::new(10, 10),
            columns: 2,
            rows: 2,
            padding: UVec2::new(1, 2),
            offset: UVec2::new(3, 4),
        },
    );
    let r = titan_atlas::descriptor::push_textures(&mut descriptors, 5, &e, UVec2::new(64, 64));
    assert!(r.is_ok());
    // x = j*10 + 3 + (1 + 2j)*1, y = i*10 + 4 + (1 + 2i)*2
    assert_eq!(descriptors[0].position, UVec2::new(4, 6));
    assert_eq!(descriptors[1].position, UVec2::new(16, 6));
    assert_eq!(descriptors[2].position, UVec2::new(4, 20));
    assert_eq!(descriptors[3].position, UVec2::new(16, 20));
    assert!(descriptors.iter().all(|d| d.source_index == 5));
}

#[test]
fn out_of_bounds_region_yields_invalid_rect_error_with_path() {
    let titan = manifest(vec![
        entry("ok.png", TitanSpriteSheet::Whole),
        entry(
            "bad.png",
            TitanSpriteSheet::Heterogeneous(vec![(UVec2::new(10, 10), UVec2::new(20, 20))]),
        ),
    ]);
    let images = vec![rgba_image(4, 4), rgba_image(16, 16)];
    match load(&titan, images) {
        Err(SpriteSheetLoaderError::InvalidRectError(ir)) => {
            assert_eq!(ir.0, UVec2::new(10, 10));
            assert_eq!(ir.1, UVec2::new(30, 30));
            assert_eq!(ir.2, "bad.png".to_owned());
        }
        other => panic!("expected InvalidRectError, got {:?}", other),
    }
}

#[test]
fn single_whole_image_bypasses_packing_and_is_byte_identical() {
    let titan = manifest(vec![entry("one.png", TitanSpriteSheet::Whole)]);
    let source = rgba_image(3, 2);
    let expected = source.data.clone();
    let atlas = load(&titan, vec![source]).unwrap();
    assert_eq!(atlas.texture.width, 3);
    assert_eq!(atlas.texture.height, 2);
    assert_eq!(atlas.texture.format, TextureFormat::Rgba8UnormSrgb);
    assert_eq!(atlas.texture.data, expected);
    assert_eq!(atlas.layout.textures.len(), 1);
    assert_eq!(
        atlas.layout.textures[0],
        URect::from_corners(UVec2::new(0, 0), UVec2::new(3, 2))
    );
    assert_eq!(atlas.layout.size, UVec2::new(3, 2));
}

#[test]
fn always_pack_forces_packer_for_single_image() {
    let mut titan = manifest(vec![entry("one.png", TitanSpriteSheet::Whole)]);
    titan.configuration.always_pack = true;
    titan.configuration.initial_size = UVec2::new(4, 4);
    let source = rgba_image(3, 2);
    let expected = source.data.clone();
    let atlas = load(&titan, vec![source]).unwrap();
    // The packer puts the single region at the origin of the initial bin.
    assert_eq!(atlas.layout.textures.len(), 1);
    let rect = atlas.layout.textures[0];
    assert_eq!(rect.max.x - rect.min.x, 3);
    assert_eq!(rect.max.y - rect.min.y, 2);
    assert_eq!(atlas.texture.width, 4);
    assert_eq!(atlas.texture.height, 4);
    let got = extract_texture_from_rect(&atlas.texture, rect, &"x".to_owned()).unwrap();
    assert_eq!(got.data, expected);
}

#[test]
fn layout_count_sums_all_entry_variants() {
    let titan = manifest(vec![
        entry("whole.png", TitanSpriteSheet::Whole),
        entry(
            "grid.png",
            TitanSpriteSheet::Homogeneous {
                tile_size: UVec2::new(8, 8),
                columns: 2,
                rows: 3,
                padding: UVec2::new(0, 0),
                offset: UVec2::new(0, 0),
            },
        ),
        entry(
            "list.png",
            TitanSpriteSheet::Heterogeneous(vec![
                (UVec2::new(0, 0), UVec2::new(5, 5)),
                (UVec2::new(5, 5), UVec2::new(3, 3)),
            ]),
        ),
    ]);
    let images = vec![rgba_image(4, 4), rgba_image(16, 24), rgba_image(8, 8)];
    let atlas = load(&titan, images).unwrap();
    assert_eq!(atlas.layout.textures.len(), 1 + 2 * 3 + 2);
}

#[test]
fn packed_regions_are_disjoint_and_within_atlas() {
    let titan = manifest(vec![
        entry("a.png", TitanSpriteSheet::Whole),
        entry("b.png", TitanSpriteSheet::Whole),
        entry("c.png", TitanSpriteSheet::Whole),
    ]);
    let images = vec![rgba_image(10, 7), rgba_image(5, 12), rgba_image(8, 8)];
    let atlas = load(&titan, images).unwrap();
    let rects = &atlas.layout.textures;
    assert_eq!(rects.len(), 3);
    for r in rects.iter() {
        assert!(r.min.x <= r.max.x && r.min.y <= r.max.y);
        assert!(r.max.x <= atlas.texture.width && r.max.y <= atlas.texture.height);
    }
    for i in 0..rects.len() {
        for j in (i + 1)..rects.len() {
            let (a, b) = (rects[i], rects[j]);
            let disjoint = a.max.x <= b.min.x
                || b.max.x <= a.min.x
                || a.max.y <= b.min.y
                || b.max.y <= a.min.y;
            assert!(disjoint, "regions {} and {} overlap", i, j);
        }
    }
}

#[test]
fn round_trip_every_placed_region_reproduces_source_bytes() {
    let mut titan = manifest(vec![
        entry(
            "grid.png",
            TitanSpriteSheet::Homogeneous {
                tile_size: UVec2::new(4, 4),
                columns: 2,
                rows: 2,
                padding: UVec2::new(0, 0),
                offset: UVec2::new(0, 0),
            },
        ),
        entry(
            "list.png",
            TitanSpriteSheet::Heterogeneous(vec![(UVec2::new(2, 1), UVec2::new(3, 5))]),
        ),
    ]);
    titan.configuration.padding = UVec2::new(1, 1);
    let grid_img = rgba_image(8, 8);
    let list_img = rgba_image(6, 6);
    let sources = vec![grid_img.clone(), list_img.clone()];
    let atlas = load(&titan, vec![grid_img, list_img]).unwrap();
    assert_eq!(atlas.layout.textures.len(), 5);
    // Descriptors in derivation order: four grid tiles, then the explicit one.
    let expected: Vec<(usize, UVec2, UVec2)> = vec![
        (0, UVec2::new(0, 0), UVec2::new(4, 4)),
        (0, UVec2::new(4, 0), UVec2::new(4, 4)),
        (0, UVec2::new(0, 4), UVec2::new(4, 4)),
        (0, UVec2::new(4, 4), UVec2::new(4, 4)),
        (1, UVec2::new(2, 1), UVec2::new(3, 5)),
    ];
    for (i, (src_idx, pos, size)) in expected.iter().enumerate() {
        let rect = atlas.layout.textures[i];
        assert_eq!(rect.max.x - rect.min.x, size.x);
        assert_eq!(rect.max.y - rect.min.y, size.y);
        let region = extract_texture_from_rect(&atlas.texture, rect, &"r".to_owned()).unwrap();
        let src = &sources[*src_idx];
        for dy in 0..size.y {
            for dx in 0..size.x {
                for ch in 0..4 {
                    assert_eq!(
                        region.data[((dy * size.x + dx) * 4 + ch) as usize],
                        source_byte(src, pos.x + dx, pos.y + dy, ch),
                        "mismatch in region {} at ({}, {}) channel {}",
                        i,
                        dx,
                        dy,
                        ch
                    );
                }
            }
        }
    }
}

#[test]
fn padding_bytes_around_regions_stay_zero() {
    let mut titan = manifest(vec![entry("one.png", TitanSpriteSheet::Whole)]);
    titan.configuration.always_pack = true;
    titan.configuration.padding = UVec2::new(1, 1);
    titan.configuration.initial_size = UVec2::new(8, 8);
    let mut source = rgba_image(2, 2);
    for b in source.data.iter_mut() {
        *b = 0xFF;
    }
    let atlas = load(&titan, vec![source]).unwrap();
    let rect = atlas.layout.textures[0];
    // Every atlas pixel outside the placed region is zero.
    for y in 0..atlas.texture.height {
        for x in 0..atlas.texture.width {
            let inside =
                rect.min.x <= x && x < rect.max.x && rect.min.y <= y && y < rect.max.y;
            for ch in 0..4 {
                let b = atlas.texture.data[((y * atlas.texture.width + x) * 4 + ch) as usize];
                if inside {
                    assert_eq!(b, 0xFF);
                } else {
                    assert_eq!(b, 0);
                }
            }
        }
    }
}

#[test]
fn packing_larger_than_max_size_is_exhausted() {
    let mut titan = manifest(vec![entry("big.png", TitanSpriteSheet::Whole)]);
    titan.configuration.always_pack = true;
    titan.configuration.initial_size = UVec2::new(64, 64);
    titan.configuration.max_size = UVec2::new(64, 64);
    let images = vec![rgba_image(100, 100)];
    assert!(matches!(
        load(&titan, images),
        Err(SpriteSheetLoaderError::PackingExhaustedError)
    ));
}

#[test]
fn atlas_grows_until_everything_fits() {
    let mut titan = manifest(vec![
        entry("a.png", TitanSpriteSheet::Whole),
        entry("b.png", TitanSpriteSheet::Whole),
    ]);
    titan.configuration.initial_size = UVec2::new(4, 4);
    titan.configuration.max_size = UVec2::new(64, 64);
    let images = vec![rgba_image(4, 4), rgba_image(4, 4)];
    let atlas = load(&titan, images).unwrap();
    // Two 4x4 tiles cannot share a 4x4 bin; the bin must have grown.
    assert!(atlas.texture.width > 4 || atlas.texture.height > 4);
    assert!(atlas.texture.width <= 64 && atlas.texture.height <= 64);
    assert_eq!(atlas.layout.textures.len(), 2);
}

#[test]
fn single_grid_tile_also_bypasses_to_the_whole_image() {
    // One 1x1 grid yields exactly one region, so the bypass applies: the
    // atlas is the whole source image, not the tile cut out of it.
    let titan = manifest(vec![entry(
        "grid.png",
        TitanSpriteSheet::Homogeneous {
            tile_size: UVec2::new(2, 2),
            columns: 1,
            rows: 1,
            padding: UVec2::new(0, 0),
            offset: UVec2::new(1, 1),
        },
    )]);
    let source = rgba_image(4, 4);
    let expected = source.data.clone();
    let atlas = load(&titan, vec![source]).unwrap();
    assert_eq!(atlas.texture.width, 4);
    assert_eq!(atlas.texture.height, 4);
    assert_eq!(atlas.texture.data, expected);
    assert_eq!(
        atlas.layout.textures[0],
        URect::from_corners(UVec2::new(0, 0), UVec2::new(4, 4))
    );
}

#[test]
fn entry_with_no_regions_packs_alongside_others() {
    // A heterogeneous entry with an empty list contributes zero regions;
    // the other entry still packs and the layout skips the empty one.
    let titan = manifest(vec![
        entry("empty.png", TitanSpriteSheet::Heterogeneous(vec![])),
        entry("one.png", TitanSpriteSheet::Whole),
    ]);
    let images = vec![rgba_image(2, 2), rgba_image(3, 3)];
    let atlas = load(&titan, images).unwrap();
    assert_eq!(atlas.layout.textures.len(), 1);
    let rect = atlas.layout.textures[0];
    assert_eq!(rect.max.x - rect.min.x, 3);
    assert_eq!(rect.max.y - rect.min.y, 3);
}

#[test]
fn packing_is_deterministic_across_runs() {
    let build = || {
        let mut titan = manifest(vec![
            entry("a.png", TitanSpriteSheet::Whole),
            entry("b.png", TitanSpriteSheet::Whole),
            entry("c.png", TitanSpriteSheet::Whole),
        ]);
        titan.configuration.padding = UVec2::new(1, 1);
        let images = vec![rgba_image(6, 3), rgba_image(3, 6), rgba_image(4, 4)];
        load(&titan, images).unwrap()
    };
    let first = build();
    let second = build();
    assert_eq!(first.texture.data, second.texture.data);
    assert_eq!(first.layout.size, second.layout.size);
    assert_eq!(first.layout.textures, second.layout.textures);
}

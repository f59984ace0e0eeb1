use gfx_voxel::raster::Raster;
use gfx_voxel::texture::{AtlasBuilder, AtlasImage};

fn solid(width: u32, height: u32, px: [u8; 4]) -> Raster {
    let img = image::RgbaImage::from_pixel(width, height, image::Rgba(px));
    Raster::from_raw(width, height, img.into_raw()).unwrap()
}

fn overlap(a: (u32, u32), b: (u32, u32), uw: u32, uh: u32) -> bool {
    a.0 < b.0 + uw && b.0 < a.0 + uw && a.1 < b.1 + uh && b.1 < a.1 + uh
}

fn pixel(atlas: &AtlasImage, x: u32, y: u32) -> [u8; 4] {
    let at = (y * atlas.bytes_per_row + 4 * x) as usize;
    [atlas.texels[at], atlas.texels[at + 1], atlas.texels[at + 2], atlas.texels[at + 3]]
}

fn isqrt(n: u32) -> u32 {
    let mut s = 0;
    while (s + 1) * (s + 1) <= n {
        s += 1;
    }
    s
}

#[test]
fn new_builder_holds_four_by_four_tiles() {
    let builder = AtlasBuilder::new("tiles".to_string(), 16, 8);
    assert_eq!(builder.get_size(), (64, 32));
    assert_eq!(builder.completed_tiles_size(), 0);
    assert_eq!(builder.position(), 0);
    assert_eq!(builder.tile_count(), 0);
    assert_eq!(builder.lookup("a"), None);
    let atlas = builder.complete();
    assert_eq!(atlas.texels, vec![0u8; 64 * 32 * 4]);
}

#[test]
fn five_tiles_end_to_end() {
    let mut builder = AtlasBuilder::new("tiles".to_string(), 16, 16);
    let colors: [[u8; 4]; 5] =
        [[255, 0, 0, 255], [0, 255, 0, 255], [0, 0, 255, 255], [255, 255, 0, 255], [0, 255, 255, 255]];
    let names = ["a", "b", "c", "d", "e"];
    let mut origins = Vec::new();
    let mut sizes = Vec::new();
    for (name, color) in names.iter().zip(colors.iter()) {
        let tile = solid(16, 16, *color);
        assert!(builder.accepts(&tile));
        assert!(builder.has_room());
        origins.push(builder.load(name, &tile));
        sizes.push(builder.completed_tiles_size());
    }
    assert_eq!(origins, vec![(0, 0), (0, 16), (16, 0), (16, 16), (0, 32)]);
    assert_eq!(sizes, vec![1, 1, 1, 2, 2]);
    for i in 0..5 {
        for j in 0..5 {
            if i != j {
                assert_ne!(origins[i], origins[j]);
                assert!(!overlap(origins[i], origins[j], 16, 16));
            }
        }
    }
    assert_eq!(builder.get_size(), (64, 64));
    assert_eq!(builder.position(), 1);
    assert_eq!(builder.tile_count(), 5);
    let atlas = builder.complete();
    assert_eq!((atlas.width, atlas.height, atlas.bytes_per_row), (64, 64, 256));
    for y in 0..64 {
        for x in 0..64 {
            let mut expected = [0u8; 4];
            for k in 0..5 {
                if overlap((x, y), origins[k], 1, 1) || (origins[k].0 <= x
                    && x < origins[k].0 + 16
                    && origins[k].1 <= y
                    && y < origins[k].1 + 16)
                {
                    expected = colors[k];
                }
            }
            assert_eq!(pixel(&atlas, x, y), expected, "pixel ({}, {})", x, y);
        }
    }
}

#[test]
fn loading_a_name_again_returns_the_first_origin() {
    let mut builder = AtlasBuilder::new("tiles".to_string(), 4, 4);
    let red = solid(4, 4, [255, 0, 0, 255]);
    let blue = solid(4, 4, [0, 0, 255, 255]);
    let a = builder.load("a", &red);
    let b = builder.load("b", &red);
    assert_eq!(builder.lookup("a"), Some(a));
    assert_eq!(builder.lookup("b"), Some(b));
    assert_eq!(builder.lookup("c"), None);
    let cursor = (builder.completed_tiles_size(), builder.position());
    // Neither the cursor nor the pixels move, whatever image comes along.
    assert_eq!(builder.load("a", &blue), a);
    assert_eq!(builder.load("b", &solid(1, 1, [0, 0, 0, 0])), b);
    assert_eq!((builder.completed_tiles_size(), builder.position()), cursor);
    assert_eq!(builder.tile_count(), 2);
    let c = builder.load("c", &blue);
    assert_eq!(c, (4, 0));
    assert_eq!(builder.load("a", &blue), a);
    let atlas = builder.complete();
    assert_eq!(pixel(&atlas, a.0, a.1), [255, 0, 0, 255]);
    assert_eq!(pixel(&atlas, b.0 + 3, b.1 + 3), [255, 0, 0, 255]);
    assert_eq!(pixel(&atlas, c.0, c.1), [0, 0, 255, 255]);
}

#[test]
fn completed_size_is_the_square_root_of_the_tile_count() {
    let mut builder = AtlasBuilder::new(String::new(), 2, 3);
    let tile = solid(2, 3, [1, 2, 3, 4]);
    for k in 0..70u32 {
        assert_eq!(builder.completed_tiles_size(), isqrt(k));
        assert_eq!(builder.position(), k - isqrt(k) * isqrt(k));
        assert!(builder.has_room());
        builder.load(&format!("tile{}", k), &tile);
    }
    assert_eq!(builder.completed_tiles_size(), 8);
    assert_eq!(builder.position(), 6);
}

#[test]
fn placements_follow_the_growing_square() {
    let mut builder = AtlasBuilder::new(String::new(), 1, 1);
    let tile = solid(1, 1, [9, 9, 9, 9]);
    let mut cells = Vec::new();
    for k in 0..10 {
        cells.push(builder.load(&format!("t{}", k), &tile));
    }
    assert_eq!(
        cells,
        vec![(0, 0), (0, 1), (1, 0), (1, 1), (0, 2), (1, 2), (2, 0), (2, 1), (2, 2), (0, 3)]
    );
}

#[test]
fn no_two_tiles_overlap() {
    let mut builder = AtlasBuilder::new(String::new(), 3, 5);
    let tile = solid(3, 5, [1, 1, 1, 1]);
    let mut origins = Vec::new();
    for k in 0..50 {
        origins.push(builder.load(&format!("t{}", k), &tile));
    }
    let (w, h) = builder.get_size();
    for i in 0..origins.len() {
        assert!(origins[i].0 + 3 <= w && origins[i].1 + 5 <= h);
        for j in 0..i {
            assert!(!overlap(origins[i], origins[j], 3, 5), "tiles {} and {}", i, j);
        }
    }
}

#[test]
fn raster_doubles_when_a_ring_does_not_fit() {
    let mut builder = AtlasBuilder::new(String::new(), 2, 1);
    for k in 0..16u8 {
        assert!(!builder.needs_growth());
        builder.load(&format!("t{}", k), &solid(2, 1, [k, k, k, 255]));
        assert_eq!(builder.get_size(), (8, 4));
    }
    // Sixteen tiles fill the four by four square: the next ring needs room.
    assert_eq!(builder.completed_tiles_size(), 4);
    assert!(builder.needs_growth());
    assert!(builder.has_room());
    let origin = builder.load("t16", &solid(2, 1, [16, 16, 16, 255]));
    assert_eq!(origin, (0, 4));
    assert_eq!(builder.get_size(), (16, 8));
    assert!(!builder.needs_growth());
    // What was placed before stays where it was.
    assert_eq!(builder.lookup("t0"), Some((0, 0)));
    assert_eq!(builder.lookup("t15"), Some((6, 3)));
    let atlas = builder.complete();
    assert_eq!(atlas.texels.len(), 16 * 8 * 4);
    assert_eq!(pixel(&atlas, 0, 0), [0, 0, 0, 255]);
    assert_eq!(pixel(&atlas, 7, 3), [15, 15, 15, 255]);
    assert_eq!(pixel(&atlas, 0, 4), [16, 16, 16, 255]);
    assert_eq!(pixel(&atlas, 1, 4), [16, 16, 16, 255]);
    assert_eq!(pixel(&atlas, 2, 4), [0, 0, 0, 0]);
    assert_eq!(pixel(&atlas, 8, 0), [0, 0, 0, 0]);
    assert_eq!(pixel(&atlas, 15, 7), [0, 0, 0, 0]);
}

#[test]
fn raster_size_is_a_power_of_two_times_the_initial_size() {
    let mut builder = AtlasBuilder::new(String::new(), 3, 2);
    let tile = solid(3, 2, [0, 0, 0, 255]);
    for k in 0..300u32 {
        builder.load(&format!("t{}", k), &tile);
        let (w, h) = builder.get_size();
        let size = builder.completed_tiles_size();
        assert!(w >= 3 * size && h >= 2 * size);
        assert_eq!(w % 12, 0);
        assert_eq!(h % 8, 0);
        assert_eq!(w / 12, h / 8);
        assert!((w / 12).is_power_of_two());
    }
    assert_eq!(builder.get_size(), (96, 64));
}

#[test]
fn only_the_first_frame_of_a_tall_tile_is_copied() {
    let mut builder = AtlasBuilder::new(String::new(), 2, 2);
    let mut tall = solid(2, 6, [7, 7, 7, 255]);
    tall.put_pixel(0, 2, [1, 1, 1, 1]);
    tall.put_pixel(1, 5, [2, 2, 2, 2]);
    assert!(builder.accepts(&tall));
    assert_eq!(builder.extra_frames(&tall), 2);
    assert_eq!(builder.extra_frames(&solid(2, 2, [0, 0, 0, 0])), 0);
    assert_eq!(builder.load("tall", &tall), (0, 0));
    assert_eq!(builder.completed_tiles_size(), 1);
    let atlas = builder.complete();
    for y in 0..8 {
        for x in 0..8 {
            let expected = if x < 2 && y < 2 { [7, 7, 7, 255] } else { [0, 0, 0, 0] };
            assert_eq!(pixel(&atlas, x, y), expected, "pixel ({}, {})", x, y);
        }
    }
}

#[test]
fn tiles_of_another_size_are_not_accepted() {
    let builder = AtlasBuilder::new(String::new(), 4, 3);
    assert!(builder.accepts(&solid(4, 3, [0, 0, 0, 0])));
    assert!(builder.accepts(&solid(4, 9, [0, 0, 0, 0])));
    assert!(!builder.accepts(&solid(3, 3, [0, 0, 0, 0])));
    assert!(!builder.accepts(&solid(5, 3, [0, 0, 0, 0])));
    assert!(!builder.accepts(&solid(4, 4, [0, 0, 0, 0])));
    assert!(!builder.accepts(&solid(4, 2, [0, 0, 0, 0])));
    assert!(!builder.accepts(&solid(4, 0, [0, 0, 0, 0])));
}

#[test]
fn tile_files_are_png_files_below_the_base_path() {
    let builder = AtlasBuilder::new("assets/blocks".to_string(), 16, 16);
    assert_eq!(builder.tile_path("stone"), "assets/blocks/stone.png");
    assert_eq!(builder.tile_path("grass_top"), "assets/blocks/grass_top.png");
    assert_eq!(builder.tile_path(""), "assets/blocks/.png");
}

#[test]
fn min_alpha_of_opaque_and_transparent_rectangles() {
    let mut builder = AtlasBuilder::new(String::new(), 4, 4);
    let mut holed = solid(4, 4, [9, 9, 9, 255]);
    holed.put_pixel(2, 1, [9, 9, 9, 0]);
    let a = builder.load("opaque", &solid(4, 4, [1, 2, 3, 255]));
    let b = builder.load("holed", &holed);
    let c = builder.load("faint", &solid(4, 4, [1, 2, 3, 31]));
    assert_eq!(builder.min_alpha([a.0, a.1, 4, 4]), 255);
    assert_eq!(builder.min_alpha([b.0, b.1, 4, 4]), 0);
    assert_eq!(builder.min_alpha([b.0, b.1, 2, 4]), 255);
    assert_eq!(builder.min_alpha([c.0, c.1, 4, 4]), 31);
    // A rectangle over two tiles, and one over unused space.
    assert_eq!(builder.min_alpha([a.0, a.1, 8, 4]), 31);
    assert_eq!(builder.min_alpha([8, 8, 8, 8]), 0);
    assert_eq!(builder.min_alpha([0, 0, 16, 16]), 0);
}

#[test]
fn min_alpha_of_an_empty_rectangle_in_the_atlas_is_zero() {
    let mut builder = AtlasBuilder::new(String::new(), 4, 4);
    builder.load("opaque", &solid(4, 4, [1, 2, 3, 255]));
    assert_eq!(builder.min_alpha([0, 0, 0, 4]), 0);
    assert_eq!(builder.min_alpha([0, 0, 4, 0]), 0);
    assert_eq!(builder.min_alpha([16, 16, 0, 0]), 0);
}

#[test]
fn min_alpha_is_remembered() {
    let mut builder = AtlasBuilder::new(String::new(), 4, 4);
    assert_eq!(builder.cached_alpha([0, 0, 4, 4]), None);
    // Asked before the tile is there: the answer stays, by design.
    assert_eq!(builder.min_alpha([0, 0, 4, 4]), 0);
    assert_eq!(builder.cached_alpha([0, 0, 4, 4]), Some(0));
    builder.load("opaque", &solid(4, 4, [1, 2, 3, 255]));
    assert_eq!(builder.min_alpha([0, 0, 4, 4]), 0);
    assert_eq!(builder.min_alpha([0, 0, 4, 4]), 0);
    // Another rectangle over the same pixels is scanned afresh.
    assert_eq!(builder.min_alpha([0, 0, 4, 3]), 255);
    assert_eq!(builder.cached_alpha([0, 0, 4, 3]), Some(255));
    assert_eq!(builder.cached_alpha([0, 0, 3, 4]), None);
    // A remembered rectangle is answered even when it lies outside.
    builder.load("b", &solid(4, 4, [1, 2, 3, 77]));
    assert_eq!(builder.min_alpha([0, 4, 4, 4]), 77);
    assert_eq!(builder.min_alpha([0, 4, 4, 4]), 77);
}

#[test]
fn rectangles_that_differ_in_one_number_are_remembered_apart() {
    let mut builder = AtlasBuilder::new(String::new(), 2, 2);
    builder.load("a", &solid(2, 2, [0, 0, 0, 10]));
    builder.load("b", &solid(2, 2, [0, 0, 0, 20]));
    builder.load("c", &solid(2, 2, [0, 0, 0, 30]));
    assert_eq!(builder.min_alpha([0, 0, 1, 1]), 10);
    assert_eq!(builder.min_alpha([0, 2, 1, 1]), 20);
    assert_eq!(builder.min_alpha([2, 0, 1, 1]), 30);
    assert_eq!(builder.min_alpha([0, 0, 1, 3]), 10);
    assert_eq!(builder.min_alpha([0, 1, 3, 1]), 10);
    assert_eq!(builder.min_alpha([0, 1, 5, 1]), 0);
    assert_eq!(builder.cached_alpha([0, 0, 1, 1]), Some(10));
    assert_eq!(builder.cached_alpha([0, 2, 1, 1]), Some(20));
    assert_eq!(builder.cached_alpha([2, 0, 1, 1]), Some(30));
    assert_eq!(builder.cached_alpha([1, 0, 0, 1]), None);
}

#[test]
fn complete_hands_out_rows_of_rgba_samples() {
    let mut builder = AtlasBuilder::new(String::new(), 1, 2);
    let mut tile = solid(1, 2, [1, 2, 3, 4]);
    tile.put_pixel(0, 1, [5, 6, 7, 8]);
    builder.load("a", &tile);
    let atlas = builder.complete();
    assert_eq!(atlas.width, 4);
    assert_eq!(atlas.height, 8);
    assert_eq!(atlas.bytes_per_row, 16);
    assert_eq!(atlas.texels.len(), 16 * 8);
    assert_eq!(&atlas.texels[0..4], &[1, 2, 3, 4]);
    assert_eq!(&atlas.texels[16..20], &[5, 6, 7, 8]);
    assert!(atlas.texels[4..16].iter().all(|b| *b == 0));
    assert!(atlas.texels[20..].iter().all(|b| *b == 0));
}

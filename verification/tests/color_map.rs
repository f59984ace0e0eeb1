use gfx_voxel::raster::Raster;
use gfx_voxel::texture::{decimal_string, ColorMap, ColorMapError};

fn marked() -> Raster {
    // Pixel (x, y) holds red x, green y, blue x xor y, alpha 200.
    let mut bytes = Vec::with_capacity(256 * 256 * 4);
    for y in 0..256u32 {
        for x in 0..256u32 {
            bytes.extend_from_slice(&[x as u8, y as u8, (x ^ y) as u8, 200]);
        }
    }
    Raster::from_raw(256, 256, bytes).unwrap()
}

fn decode_failure() -> image::ImageError {
    image::ImageError::Parameter(image::error::ParameterError::from_kind(
        image::error::ParameterErrorKind::DimensionMismatch,
    ))
}

#[test]
fn color_map_takes_a_256_by_256_image() {
    let map = match ColorMap::from_path("maps/grass.png", Ok(marked())) {
        Ok(map) => map,
        Err(err) => panic!("{}", err.message()),
    };
    assert_eq!(map.rgb_at(0, 0), [0, 0, 0]);
    assert_eq!(map.rgb_at(255, 255), [255, 255, 0]);
    assert_eq!(map.rgb_at(255, 0), [255, 0, 255]);
    assert_eq!(map.rgb_at(0, 255), [0, 255, 255]);
    assert_eq!(map.rgb_at(17, 200), [17, 200, 17 ^ 200]);
}

#[test]
fn color_map_refuses_other_sizes() {
    for (w, h) in [(255u32, 256u32), (256, 255), (0, 0), (512, 512), (256, 257)] {
        let img = Raster::new(w, h);
        match ColorMap::from_path("maps/grass.png", Ok(img)) {
            Err(ColorMapError::Size(fw, fh, path)) => {
                assert_eq!((fw, fh), (w, h));
                assert_eq!(path, "maps/grass.png");
            }
            _ => panic!("a {}x{} image was not refused for its size", w, h),
        }
    }
}

#[test]
fn color_map_passes_a_decode_error_on() {
    match ColorMap::from_path("maps/grass.png", Err(decode_failure())) {
        Err(ColorMapError::Img(image::ImageError::Parameter(err))) => {
            assert!(matches!(err.kind(), image::error::ParameterErrorKind::DimensionMismatch));
        }
        _ => panic!("the decode error was not passed on"),
    }
}

#[test]
fn size_error_names_the_size_found_and_the_file() {
    let err = ColorMapError::Size(2, 300, "maps/grass.png".to_string());
    assert_eq!(err.message(), "ColorMap expected 256x256, found 2x300 in 'maps/grass.png'");
    let err = ColorMapError::Size(0, u32::MAX, String::new());
    assert_eq!(err.message(), "ColorMap expected 256x256, found 0x4294967295 in ''");
}

#[test]
fn image_error_reads_as_the_image_crate_puts_it() {
    let err = ColorMapError::Img(decode_failure());
    assert_eq!(err.message(), format!("{:?}", decode_failure()));
    assert_ne!(err.message(), "");
}

#[test]
fn decimal_numerals() {
    assert_eq!(decimal_string(0), "0");
    assert_eq!(decimal_string(7), "7");
    assert_eq!(decimal_string(10), "10");
    assert_eq!(decimal_string(256), "256");
    assert_eq!(decimal_string(90_210), "90210");
    assert_eq!(decimal_string(u32::MAX), "4294967295");
}

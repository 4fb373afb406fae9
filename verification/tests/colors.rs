use libflipnote::error::PpmError;
use libflipnote::ppm::constants::{
    PPM_COLOR_BLUE, PPM_COLOR_RED, PPM_FRAME_PALETTE, PPM_PAPER_BLACK, PPM_PAPER_WHITE,
    PPM_THUMBNAIL_COLORS, PPM_THUMBNAIL_PALETTE,
};
use libflipnote::ppm::thumbnail::{PPMThumbnail, PPMThumbnailTile};
use libflipnote::utils::color_utils::{
    hex_to_rgb, nearest_index, rgb_to_ppm_frame_pixel, rgb_to_thumbnail_pixel,
    single_rgb_to_thumbnail_pixel, thumbnail_pixel_to_rgb,
};
use libflipnote::utils::image_utils::{
    ColorMapKind, DitherType, ImageWrapper, PPMFrameColorMap, PPMThumbnailColorMap, RgbWrapper,
};

fn gradient(width: u32, height: u32) -> ImageWrapper {
    let mut image = ImageWrapper::new(width, height);
    for y in 0..height {
        for x in 0..width {
            let color = RgbWrapper::new((x * 255 / width) as u8, (y * 255 / height) as u8, 128);
            image.set_pixel(x, y, &color).unwrap();
        }
    }
    image
}

#[test]
fn hex_colours_are_parsed() {
    assert_eq!(hex_to_rgb("#FFFFFF"), Ok(RgbWrapper::new(255, 255, 255)));
    assert_eq!(hex_to_rgb("#525252"), Ok(RgbWrapper::new(0x52, 0x52, 0x52)));
    assert_eq!(hex_to_rgb("#0a39ff"), Ok(RgbWrapper::new(10, 57, 255)));
    assert_eq!(hex_to_rgb("#+1+2+F"), Ok(RgbWrapper::new(1, 2, 15)));
}

#[test]
fn malformed_hex_colours_are_refused() {
    for text in ["", "#FFF", "FFFFFFF", "#FFFFFG", "#FFFFFFF", "#FF FF ", "#-1FFFF", "#F+FFFF", "#ÿFFFF"] {
        assert_eq!(hex_to_rgb(text), Err(PpmError::Format));
    }
}

#[test]
fn palette_table_matches_its_hex_names() {
    for index in 0..16 {
        let named = hex_to_rgb(PPM_THUMBNAIL_COLORS[index]).unwrap();
        let entry = PPM_THUMBNAIL_PALETTE[index];
        assert_eq!(named, RgbWrapper::new(entry[0], entry[1], entry[2]));
    }
    assert_eq!(PPM_FRAME_PALETTE, [PPM_PAPER_WHITE, PPM_PAPER_BLACK, PPM_COLOR_RED, PPM_COLOR_BLUE]);
}

#[test]
fn thumbnail_byte_holds_two_colours() {
    let (low, high) = thumbnail_pixel_to_rgb(0x41).unwrap();
    assert_eq!(low, RgbWrapper::new(0x52, 0x52, 0x52));
    assert_eq!(high, RgbWrapper::new(0xFF, 0x48, 0x44));
    let (low, high) = thumbnail_pixel_to_rgb(0xC8).unwrap();
    assert_eq!(low, RgbWrapper::new(0x48, 0x40, 0xFF));
    assert_eq!(high, RgbWrapper::new(0xB6, 0x57, 0xB7));
}

#[test]
fn nearest_colour_is_the_first_of_the_closest() {
    // White is entry 0 and entry 2: the first wins.
    assert_eq!(single_rgb_to_thumbnail_pixel(&RgbWrapper::new(255, 255, 255)), 0);
    assert_eq!(single_rgb_to_thumbnail_pixel(&RgbWrapper::new(250, 250, 250)), 0);
    assert_eq!(single_rgb_to_thumbnail_pixel(&RgbWrapper::new(0, 0, 0)), 1);
    assert_eq!(single_rgb_to_thumbnail_pixel(&RgbWrapper::new(0, 255, 0)), 7);
    assert_eq!(single_rgb_to_thumbnail_pixel(&RgbWrapper::new(0xB0, 0x50, 0xB0)), 12);
    assert_eq!(rgb_to_ppm_frame_pixel(&RgbWrapper::new(200, 200, 200)), 0);
    assert_eq!(rgb_to_ppm_frame_pixel(&RgbWrapper::new(0, 0, 0)), 1);
    assert_eq!(rgb_to_ppm_frame_pixel(&RgbWrapper::new(200, 0, 0)), 2);
    assert_eq!(rgb_to_ppm_frame_pixel(&RgbWrapper::new(0, 0, 200)), 3);
    let palette = [[0u8, 0, 0], [10, 0, 0], [0, 10, 0]];
    assert_eq!(nearest_index(&palette, &RgbWrapper::new(5, 5, 0)), 0);
    assert_eq!(nearest_index(&palette, &RgbWrapper::new(6, 5, 0)), 1);
    assert_eq!(nearest_index(&palette, &RgbWrapper::new(5, 6, 0)), 2);
    assert_eq!(RgbWrapper::new(1, 2, 3).distance_squared(&RgbWrapper::new(4, 6, 3)), 25);
    assert_eq!(RgbWrapper::new(0, 0, 0).distance_squared(&RgbWrapper::new(255, 255, 255)), 195075);
}

#[test]
fn two_colours_share_a_thumbnail_byte() {
    let black = RgbWrapper::new(0x50, 0x50, 0x50);
    let red = RgbWrapper::new(0xFF, 0x40, 0x40);
    assert_eq!(rgb_to_thumbnail_pixel(&black, &red), 0x41);
    assert_eq!(rgb_to_thumbnail_pixel(&red, &black), 0x14);
    for byte in 0..=255u8 {
        let (low, high) = thumbnail_pixel_to_rgb(byte).unwrap();
        let back = rgb_to_thumbnail_pixel(&low, &high);
        assert_eq!(thumbnail_pixel_to_rgb(back).unwrap(), (low, high));
    }
}

#[test]
fn colour_maps_look_up_and_map() {
    let thumbnail = PPMThumbnailColorMap {};
    let frame = PPMFrameColorMap {};
    assert!(thumbnail.has_lookup());
    assert!(frame.has_lookup());
    assert_eq!(thumbnail.lookup(4), Some(RgbWrapper::new(0xFF, 0x48, 0x44)));
    assert_eq!(thumbnail.lookup(16), None);
    assert_eq!(frame.lookup(1), Some(RgbWrapper::new(14, 14, 14)));
    assert_eq!(frame.lookup(3), Some(RgbWrapper::new(10, 57, 255)));
    assert_eq!(frame.lookup(4), None);
    assert_eq!(thumbnail.index_of(&RgbWrapper::new(0x9C, 0x9C, 0x9C)), 3);
    assert_eq!(frame.index_of(&RgbWrapper::new(250, 40, 40)), 2);
    let mut color = RgbWrapper::new(20, 40, 250);
    frame.map_color(&mut color);
    assert_eq!(color, RgbWrapper::new(10, 57, 255));
    let mut color = RgbWrapper::new(0xA0, 0xA0, 0xFF);
    thumbnail.map_color(&mut color);
    assert_eq!(color, RgbWrapper::new(0xAD, 0xAB, 0xFF));
}

#[test]
fn raster_pixels_are_set_and_read() {
    let mut image = ImageWrapper::new(3, 2);
    assert_eq!(image.get_raw_pixels(), vec![0u8; 24]);
    assert_eq!(image.get_pixel(2, 1), Ok(RgbWrapper::new(0, 0, 0)));
    assert_eq!(image.set_pixel(2, 1, &RgbWrapper::new(1, 2, 3)), Ok(()));
    assert_eq!(image.get_pixel(2, 1), Ok(RgbWrapper::new(1, 2, 3)));
    assert_eq!(&image.get_raw_pixels()[20..24], &[1, 2, 3, 255]);
    assert_eq!(image.set_pixel(3, 0, &RgbWrapper::new(1, 2, 3)), Err(PpmError::Bounds));
    assert_eq!(image.get_pixel(0, 2), Err(PpmError::Bounds));
    let pixels = image.get_pixels().unwrap();
    assert_eq!(pixels.len(), 6);
    assert_eq!(pixels[5], RgbWrapper::new(1, 2, 3));
    assert_eq!(pixels[0], RgbWrapper::default());
    assert_eq!(DitherType::default(), DitherType::Bayer8x8);
}

#[test]
fn tile_is_painted_row_by_row() {
    let mut pixels = vec![0u8; 32];
    pixels[0] = 0x41;
    pixels[4] = 0x07;
    pixels[31] = 0xC0;
    let tile = PPMThumbnailTile { pixels };
    let image = tile.get_image().unwrap();
    assert_eq!((image.width, image.height), (8, 8));
    assert_eq!(image.get_pixel(0, 0), Ok(RgbWrapper::new(0x52, 0x52, 0x52)));
    assert_eq!(image.get_pixel(1, 0), Ok(RgbWrapper::new(0xFF, 0x48, 0x44)));
    assert_eq!(image.get_pixel(0, 1), Ok(RgbWrapper::new(0x00, 0xFF, 0x00)));
    assert_eq!(image.get_pixel(6, 7), Ok(RgbWrapper::new(0xFF, 0xFF, 0xFF)));
    assert_eq!(image.get_pixel(7, 7), Ok(RgbWrapper::new(0xB6, 0x57, 0xB7)));
    assert!(image.pixels.iter().skip(3).step_by(4).all(|alpha| *alpha == 255));
    assert_eq!(PPMThumbnailTile::default().get_image().err(), Some(PpmError::Bounds));
}

#[test]
fn thumbnail_is_painted_tile_by_tile() {
    let mut tiles: Vec<PPMThumbnailTile> = (0..48).map(|_| PPMThumbnailTile { pixels: vec![0u8; 32] }).collect();
    // Tile 9 is the second tile of the second row; its byte 5 holds pixels (2, 1) and (3, 1).
    tiles[9].pixels[5] = 0x84;
    let thumbnail = PPMThumbnail { tiles };
    assert!(thumbnail.check_shape());
    let image = thumbnail.get_image().unwrap();
    assert_eq!((image.width, image.height), (64, 48));
    assert_eq!(image.get_pixel(10, 9), Ok(RgbWrapper::new(0xFF, 0x48, 0x44)));
    assert_eq!(image.get_pixel(11, 9), Ok(RgbWrapper::new(0x48, 0x40, 0xFF)));
    assert_eq!(image.get_pixel(12, 9), Ok(RgbWrapper::new(0xFF, 0xFF, 0xFF)));
    assert_eq!(image.get_pixel(10, 8), Ok(RgbWrapper::new(0xFF, 0xFF, 0xFF)));
    assert_eq!(PPMThumbnail::default().get_image().err(), Some(PpmError::Bounds));
}

#[test]
fn thumbnail_is_taken_from_a_raster() {
    let mut image = ImageWrapper::new(65, 49);
    for y in 0..49 {
        for x in 0..65 {
            image.set_pixel(x, y, &RgbWrapper::new(255, 255, 255)).unwrap();
        }
    }
    image.set_pixel(8, 0, &RgbWrapper::new(0x50, 0x50, 0x50)).unwrap();
    image.set_pixel(9, 0, &RgbWrapper::new(0xFF, 0x40, 0x40)).unwrap();
    let tiles = PPMThumbnail::quantize(&image).unwrap();
    assert_eq!(tiles.len(), 48);
    assert!(tiles.iter().all(|tile| tile.pixels.len() == 32));
    // Byte 0 of tile 1 holds the pixels at columns 8 and 9, byte 1 those at 9 and 10.
    assert_eq!(tiles[1].pixels[0], 0x41);
    assert_eq!(tiles[1].pixels[1], 0x04);
    assert_eq!(tiles[0].pixels[7], 0x10);
    assert_eq!(tiles[1].pixels[2], 0x00);
    assert_eq!(PPMThumbnail::quantize(&ImageWrapper::new(64, 49)).err(), Some(PpmError::Bounds));
    assert_eq!(PPMThumbnail::quantize(&ImageWrapper::new(65, 43)).err(), Some(PpmError::Bounds));
    assert!(PPMThumbnail::quantize(&ImageWrapper::new(65, 44)).is_ok());
}

#[test]
fn outside_resize_gives_one_pixel_more_each_way() {
    let image = gradient(130, 98);
    let resized = image.resize(64, 48).unwrap();
    assert_eq!((resized.width, resized.height), (65, 49));
    assert_eq!(resized.pixels.len(), 65 * 49 * 4);
    assert_ne!(resized.pixels, image.pixels);
    // Nearest neighbour takes its colours from the image.
    let first = resized.get_pixel(0, 0).unwrap();
    assert!(image.get_pixels().unwrap().contains(&first));
    let same = image.resize(129, 97).unwrap();
    assert_eq!(same.pixels, image.pixels);
    assert_eq!(ImageWrapper::new(0, 4).resize(64, 48).err(), Some(PpmError::Bounds));
    assert_eq!(image.resize(0xFFFF, 48).err(), Some(PpmError::Bounds));
    let mut broken = gradient(4, 4);
    broken.pixels.pop();
    assert_eq!(broken.resize(2, 2).err(), Some(PpmError::Bounds));
}

#[test]
fn set_image_resizes_and_quantizes() {
    let image = gradient(130, 98);
    let mut thumbnail = PPMThumbnail::default();
    assert_eq!(thumbnail.set_image(&image), Ok(()));
    assert!(thumbnail.check_shape());
    let resized = image.resize(64, 48).unwrap();
    let expected = PPMThumbnail::quantize(&resized).unwrap();
    for t in 0..48 {
        assert_eq!(thumbnail.tiles[t].pixels, expected[t].pixels);
    }
    assert!(thumbnail.get_image().is_ok());
    let before = thumbnail.clone();
    assert_eq!(thumbnail.set_image(&ImageWrapper::new(0, 0)), Err(PpmError::Bounds));
    assert_eq!(thumbnail.tiles[5].pixels, before.tiles[5].pixels);
}

#[test]
fn palettized_raster_holds_palette_colours_only() {
    let image = gradient(16, 16);
    let mapped = image.palettize(ColorMapKind::Frame).unwrap();
    assert_eq!((mapped.width, mapped.height), (16, 16));
    let palette: Vec<RgbWrapper> = PPM_FRAME_PALETTE.iter().map(|c| RgbWrapper::new(c[0], c[1], c[2])).collect();
    for (pixel, source) in mapped.get_pixels().unwrap().iter().zip(image.get_pixels().unwrap().iter()) {
        assert!(palette.contains(pixel));
        assert_eq!(*pixel, palette[rgb_to_ppm_frame_pixel(source)]);
    }
    let thumbnail = image.palettize(ColorMapKind::Thumbnail).unwrap();
    for (pixel, source) in thumbnail.get_pixels().unwrap().iter().zip(image.get_pixels().unwrap().iter()) {
        let entry = PPM_THUMBNAIL_PALETTE[single_rgb_to_thumbnail_pixel(source)];
        assert_eq!(*pixel, RgbWrapper::new(entry[0], entry[1], entry[2]));
    }
}

#[test]
fn outside_dither_keeps_the_size_and_changes_the_pixels() {
    let image = gradient(32, 24);
    let mapped = image.palettize(ColorMapKind::Frame).unwrap();
    let small = image.dither(DitherType::Bayer4x4, ColorMapKind::Frame).unwrap();
    let large = image.dither(DitherType::Bayer8x8, ColorMapKind::Frame).unwrap();
    assert_eq!((small.width, small.height), (32, 24));
    assert_eq!(small.pixels.len(), mapped.pixels.len());
    assert_eq!(large.pixels.len(), mapped.pixels.len());
    assert_ne!(small.pixels, mapped.pixels);
    assert_ne!(small.pixels, image.pixels);
    assert_eq!(ImageWrapper::new(0, 0).dither(DitherType::Bayer4x4, ColorMapKind::Frame).err(), Some(PpmError::Bounds));
}

#[test]
fn error_messages_name_the_failure() {
    assert_eq!(PpmError::Format.message(), "malformed container");
    assert_eq!(PpmError::Bounds.message(), "index out of bounds");
    assert_eq!(PpmError::Crypto.message(), "signature or key failure");
    assert_ne!(PpmError::Io.message(), PpmError::Argument.message());
    assert_ne!(PpmError::Codec.message(), PpmError::Audio.message());
    assert!(!PpmError::ExternalProcess.message().is_empty());
}

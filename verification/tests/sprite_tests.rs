use raster2d::sprite::SizeMismatch;
use raster2d::{ImageFormat, ImageSprite, Rgba, SampleMap};

/// A map that puts the sprite's pixel (0, 0) at target pixel (`ox`, `oy`),
/// one sprite pixel per target pixel.
fn placed_at(tw: u32, th: u32, ox: u32, oy: u32, w: u32, h: u32) -> SampleMap {
    let mut map = SampleMap::new(tw, th);
    for ty in 0..th {
        for tx in 0..tw {
            if tx >= ox && ty >= oy && tx - ox < w && ty - oy < h {
                map.set(tx, ty, Some((tx - ox, ty - oy)));
            }
        }
    }
    map
}

#[test]
fn test_create_sprite() {
    let sprite = ImageSprite::new(100, 100, ImageFormat::Rgba);
    assert_eq!(sprite.width(), 100);
    assert_eq!(sprite.height(), 100);
    assert_eq!(sprite.buffer().len(), 100 * 100 * 4);
}

#[test]
fn test_z_order() {
    let mut sprite = ImageSprite::new(10, 10, ImageFormat::Rgba);
    sprite.set_z_order(5);
    assert_eq!(sprite.z_order(), 5);
}

#[test]
fn new_sprite_is_zeroed_unplaced_and_at_z_zero() {
    let sprite = ImageSprite::new(3, 2, ImageFormat::Rgb);
    assert_eq!(sprite.buffer(), &[0u8; 18][..]);
    assert_eq!(sprite.format(), ImageFormat::Rgb);
    assert_eq!(sprite.z_order(), 0);
    assert_eq!(sprite.id(), 0);
    assert!(sprite.samples().is_none());
}

#[test]
fn from_buffer_accepts_data_of_the_right_length() {
    let sprite = ImageSprite::from_buffer(vec![1, 2, 3, 4, 5, 6], 2, 1, ImageFormat::Rgb).unwrap();
    assert_eq!(sprite.width(), 2);
    assert_eq!(sprite.height(), 1);
    assert_eq!(sprite.format(), ImageFormat::Rgb);
    assert_eq!(sprite.buffer(), &[1, 2, 3, 4, 5, 6][..]);
    assert!(ImageSprite::from_buffer(vec![], 0, 9, ImageFormat::Rgba).is_ok());
}

#[test]
fn from_buffer_rejects_data_of_another_length() {
    let short = ImageSprite::from_buffer(vec![0; 5], 2, 1, ImageFormat::Rgb);
    assert_eq!(
        short.err(),
        Some(SizeMismatch { width: 2, height: 1, format: ImageFormat::Rgb, len: 5 })
    );
    let long = ImageSprite::from_buffer(vec![0; 7], 2, 1, ImageFormat::Rgb);
    assert_eq!(
        long.err(),
        Some(SizeMismatch { width: 2, height: 1, format: ImageFormat::Rgb, len: 7 })
    );
    let wrong_layout = ImageSprite::from_buffer(vec![0; 4], 2, 2, ImageFormat::Rgba);
    assert!(wrong_layout.is_err());
    let too_large = ImageSprite::from_buffer(vec![0; 4], u32::MAX, u32::MAX, ImageFormat::Rgba);
    assert_eq!(
        too_large.err(),
        Some(SizeMismatch { width: u32::MAX, height: u32::MAX, format: ImageFormat::Rgba, len: 4 })
    );
}

#[test]
fn create_rectangle_fills_every_pixel() {
    let sprite = ImageSprite::create_rectangle(2, 3, 10, 20, 30, 40);
    assert_eq!(sprite.format(), ImageFormat::Rgba);
    assert_eq!(sprite.buffer().len(), 24);
    for y in 0..3 {
        for x in 0..2 {
            assert_eq!(sprite.get_pixel_rgba(x, y), Rgba { r: 10, g: 20, b: 30, a: 40 });
        }
    }
    assert_eq!(&sprite.buffer()[..8], &[10, 20, 30, 40, 10, 20, 30, 40][..]);
}

#[test]
fn pixels_of_each_layout_read_as_rgba() {
    let rgba = ImageSprite::from_buffer((0u8..16).collect(), 2, 2, ImageFormat::Rgba).unwrap();
    assert_eq!(rgba.get_pixel_rgba(0, 0), Rgba { r: 0, g: 1, b: 2, a: 3 });
    assert_eq!(rgba.get_pixel_rgba(1, 0), Rgba { r: 4, g: 5, b: 6, a: 7 });
    assert_eq!(rgba.get_pixel_rgba(0, 1), Rgba { r: 8, g: 9, b: 10, a: 11 });
    assert_eq!(rgba.get_pixel_rgba(1, 1), Rgba { r: 12, g: 13, b: 14, a: 15 });

    let rgb = ImageSprite::from_buffer((0u8..12).collect(), 2, 2, ImageFormat::Rgb).unwrap();
    assert_eq!(rgb.get_pixel_rgba(1, 0), Rgba { r: 3, g: 4, b: 5, a: 255 });
    assert_eq!(rgb.get_pixel_rgba(0, 1), Rgba { r: 6, g: 7, b: 8, a: 255 });

    let gray = ImageSprite::from_buffer(vec![10, 20, 30, 40, 50, 60], 3, 2, ImageFormat::Grayscale)
        .unwrap();
    assert_eq!(gray.get_pixel_rgba(2, 0), Rgba { r: 30, g: 30, b: 30, a: 255 });
    assert_eq!(gray.get_pixel_rgba(0, 1), Rgba { r: 40, g: 40, b: 40, a: 255 });
}

#[test]
fn buffer_mut_writes_through() {
    let mut sprite = ImageSprite::new(1, 1, ImageFormat::Rgba);
    sprite.buffer_mut().copy_from_slice(&[9, 8, 7, 6]);
    assert_eq!(sprite.get_pixel_rgba(0, 0), Rgba { r: 9, g: 8, b: 7, a: 6 });
}

#[test]
fn unplaced_sprite_paints_nothing() {
    let sprite = ImageSprite::create_rectangle(2, 2, 255, 255, 255, 255);
    let mut target = vec![7u8; 16];
    sprite.render_to(&mut target, 2, 2);
    assert_eq!(target, vec![7u8; 16]);
}

#[test]
fn opaque_sprite_overwrites_where_it_shows() {
    let mut sprite = ImageSprite::create_rectangle(1, 1, 9, 8, 7, 255);
    sprite.set_samples(Some(placed_at(2, 1, 1, 0, 1, 1)));
    let mut target = vec![1, 2, 3, 4, 5, 6, 7, 8];
    sprite.render_to(&mut target, 2, 1);
    assert_eq!(target, vec![1, 2, 3, 4, 9, 8, 7, 255]);
}

#[test]
fn translucent_sprite_blends_with_the_target() {
    let mut sprite = ImageSprite::create_rectangle(1, 1, 255, 0, 0, 128);
    sprite.set_samples(Some(placed_at(1, 1, 0, 0, 1, 1)));
    let mut target = vec![0, 0, 255, 255];
    sprite.render_to(&mut target, 1, 1);
    assert_eq!(target, vec![128, 0, 127, 255]);
}

#[test]
fn transparent_pixels_are_skipped() {
    let mut sprite =
        ImageSprite::from_buffer(vec![9, 9, 9, 0, 5, 5, 5, 255], 2, 1, ImageFormat::Rgba).unwrap();
    sprite.set_samples(Some(placed_at(2, 1, 0, 0, 2, 1)));
    let mut target = vec![1, 2, 3, 4, 1, 2, 3, 4];
    sprite.render_to(&mut target, 2, 1);
    assert_eq!(target, vec![1, 2, 3, 4, 5, 5, 5, 255]);
}

#[test]
fn rgb_and_gray_sprites_paint_opaque() {
    let mut rgb = ImageSprite::from_buffer(vec![10, 20, 30], 1, 1, ImageFormat::Rgb).unwrap();
    rgb.set_samples(Some(placed_at(1, 1, 0, 0, 1, 1)));
    let mut target = vec![0, 0, 0, 0];
    rgb.render_to(&mut target, 1, 1);
    assert_eq!(target, vec![10, 20, 30, 255]);

    let mut gray = ImageSprite::from_buffer(vec![77], 1, 1, ImageFormat::Grayscale).unwrap();
    gray.set_samples(Some(placed_at(1, 1, 0, 0, 1, 1)));
    let mut target = vec![0, 0, 0, 0];
    gray.render_to(&mut target, 1, 1);
    assert_eq!(target, vec![77, 77, 77, 255]);
}

#[test]
fn samples_outside_the_sprite_contribute_nothing() {
    let mut sprite = ImageSprite::create_rectangle(2, 2, 255, 255, 255, 255);
    let mut map = SampleMap::new(2, 2);
    map.set(0, 0, Some((2, 0)));
    map.set(1, 0, Some((0, 2)));
    map.set(0, 1, Some((u32::MAX, u32::MAX)));
    map.set(1, 1, Some((5, 1)));
    sprite.set_samples(Some(map));
    let mut target = vec![3u8; 16];
    sprite.render_to(&mut target, 2, 2);
    assert_eq!(target, vec![3u8; 16]);
}

#[test]
fn sample_map_picks_the_named_source_pixel() {
    // A map that mirrors the sprite left to right.
    let mut sprite =
        ImageSprite::from_buffer(vec![1, 1, 1, 255, 2, 2, 2, 255], 2, 1, ImageFormat::Rgba).unwrap();
    let mut map = SampleMap::new(2, 1);
    map.set(0, 0, Some((1, 0)));
    map.set(1, 0, Some((0, 0)));
    sprite.set_samples(Some(map));
    let mut target = vec![0u8; 8];
    sprite.render_to(&mut target, 2, 1);
    assert_eq!(target, vec![2, 2, 2, 255, 1, 1, 1, 255]);
}

#[test]
fn map_smaller_than_the_target_leaves_the_rest() {
    let mut sprite = ImageSprite::create_rectangle(1, 1, 50, 60, 70, 255);
    let mut map = SampleMap::new(1, 1);
    map.set(0, 0, Some((0, 0)));
    sprite.set_samples(Some(map));
    let mut target = vec![0u8; 16];
    sprite.render_to(&mut target, 2, 2);
    assert_eq!(target, vec![50, 60, 70, 255, 0, 0, 0, 0, 0, 0, 0, 0, 0, 0, 0, 0]);
}

#[test]
fn bytes_beyond_the_target_size_are_left() {
    let mut sprite = ImageSprite::create_rectangle(1, 1, 50, 60, 70, 255);
    sprite.set_samples(Some(placed_at(1, 1, 0, 0, 1, 1)));
    let mut target = vec![0u8; 6];
    sprite.render_to(&mut target, 1, 1);
    assert_eq!(target, vec![50, 60, 70, 255, 0, 0]);
}

#[test]
fn set_samples_none_takes_the_sprite_off() {
    let mut sprite = ImageSprite::create_rectangle(1, 1, 50, 60, 70, 255);
    sprite.set_samples(Some(placed_at(1, 1, 0, 0, 1, 1)));
    assert!(sprite.samples().is_some());
    sprite.set_samples(None);
    assert!(sprite.samples().is_none());
    let mut target = vec![1, 2, 3, 4];
    sprite.render_to(&mut target, 1, 1);
    assert_eq!(target, vec![1, 2, 3, 4]);
}

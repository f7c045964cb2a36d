use wallpaper_rs::raster::{crop, filled, RgbaBuffer};

#[test]
fn filled_repeats_the_colour() {
    let b = filled(2, 2, [1, 2, 3, 4]);
    assert_eq!((b.width, b.height), (2, 2));
    assert_eq!(b.pixels, [1, 2, 3, 4].repeat(4));
    assert!(filled(0, 5, [9, 9, 9, 9]).pixels.is_empty());
}

#[test]
fn crop_takes_the_requested_part() {
    // 3x2 image whose pixel (x, y) holds [x, y, 0, 255].
    let mut pixels = Vec::new();
    for y in 0..2u8 {
        for x in 0..3u8 {
            pixels.extend_from_slice(&[x, y, 0, 255]);
        }
    }
    let src = RgbaBuffer { width: 3, height: 2, pixels };
    let part = crop(&src, 1, 1, 2, 1);
    assert_eq!((part.width, part.height), (2, 1));
    assert_eq!(part.pixels, vec![1, 1, 0, 255, 2, 1, 0, 255]);
}

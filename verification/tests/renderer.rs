use std::io::Cursor;

use wallpaper_rs::render::RenderError;
use wallpaper_rs::renderer::{write_bgra, ImageRenderer};

fn png_bytes(width: u32, height: u32, pixels: Vec<u8>) -> Vec<u8> {
    let image = image::RgbaImage::from_raw(width, height, pixels).unwrap();
    let mut out = Cursor::new(Vec::new());
    image.write_to(&mut out, image::ImageFormat::Png).unwrap();
    out.into_inner()
}

#[test]
fn open_uses_the_extension() {
    let bytes = png_bytes(1, 1, vec![1, 2, 3, 4]);
    assert!(ImageRenderer::open("/tmp/wall.png", &bytes).is_ok());
    match ImageRenderer::open("/tmp/wall", &bytes) {
        Err(RenderError::Decode(_)) => {}
        _ => panic!("a file without extension has no format"),
    }
    match ImageRenderer::open("/tmp/wall.jpg", &bytes) {
        Err(RenderError::Decode(_)) => {}
        _ => panic!("PNG bytes are not a JPEG"),
    }
}

#[test]
fn render_samples_with_coordinate_maps() {
    // 2x1 source: (10,20,30,40) and (50,60,70,80).
    let bytes = png_bytes(2, 1, vec![10, 20, 30, 40, 50, 60, 70, 80]);
    let r = ImageRenderer::open("a.png", &bytes).ok().unwrap();
    let mut dst = vec![0u8; 3 * 2 * 4 + 2];
    r.render(3, 2, &mut dst, &[1, 0, 1], &[0, 0]);
    let row = [70u8, 60, 50, 255, 30, 20, 10, 255, 70, 60, 50, 255];
    let mut expected = row.to_vec();
    expected.extend_from_slice(&row);
    expected.extend_from_slice(&[0, 0]);
    assert_eq!(dst, expected);
}

#[test]
fn write_bgra_writes_one_opaque_pixel() {
    let mut dst = vec![0u8; 16];
    write_bgra(&mut dst, 1, 1, 2, [1, 2, 3, 4]);
    assert_eq!(dst[12..16], [3, 2, 1, 255]);
    assert!(dst[..12].iter().all(|&b| b == 0));
}

#[test]
fn render_clamps_coordinates_past_the_image() {
    // 2x1 source: (10,20,30,40) and (50,60,70,80); column 9 and row 5 lie outside it.
    let bytes = png_bytes(2, 1, vec![10, 20, 30, 40, 50, 60, 70, 80]);
    let r = ImageRenderer::open("a.png", &bytes).ok().unwrap();
    let mut dst = vec![0u8; 2 * 4];
    r.render(2, 1, &mut dst, &[9, 0], &[5]);
    assert_eq!(dst, vec![70, 60, 50, 255, 30, 20, 10, 255]);
}

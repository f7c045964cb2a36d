use std::io::Cursor;

use wallpaper_rs::config::{ConvolutionFilter, CropGravity, Filter, ResizeConfig, ResizeStrategy};
use wallpaper_rs::raster::RgbaBuffer;
use wallpaper_rs::render::{apply_resize, resize_no, resize_stretch, rgba_to_bgra, PixelFormatError, Render, RenderError};

fn png_bytes(width: u32, height: u32, pixels: Vec<u8>) -> Vec<u8> {
    let image = image::RgbaImage::from_raw(width, height, pixels).unwrap();
    let mut out = Cursor::new(Vec::new());
    image.write_to(&mut out, image::ImageFormat::Png).unwrap();
    out.into_inner()
}

fn no_crop(_: &RgbaBuffer, _: u32, _: u32, _: CropGravity, _: Filter) -> Result<RgbaBuffer, RenderError> {
    panic!("crop strategy not expected")
}

fn config(strategy: ResizeStrategy) -> ResizeConfig {
    ResizeConfig { strategy, ..ResizeConfig::default() }
}

#[test]
fn render_decodes_and_swaps_to_bgra() {
    let bytes = png_bytes(2, 1, vec![10, 20, 30, 255, 40, 50, 60, 128]);
    let render = Render::new(&bytes).ok().unwrap();
    assert_eq!((render.width(), render.height()), (2, 1));
    let mut dst = vec![0u8; 8];
    assert!(render.render(2, 1, &mut dst, &ResizeConfig::default(), (2, 1), no_crop).is_ok());
    assert_eq!(dst, vec![30, 20, 10, 255, 60, 50, 40, 128]);
}

#[test]
fn render_rejects_undecodable_bytes() {
    match Render::new(b"definitely not an image") {
        Err(RenderError::Decode(_)) => {}
        _ => panic!("expected a decode error"),
    }
}

#[test]
fn render_reports_small_destination() {
    let render = Render::new(&png_bytes(1, 1, vec![1, 2, 3, 4])).ok().unwrap();
    let mut dst = vec![0u8; 2];
    match render.render(1, 1, &mut dst, &ResizeConfig::default(), (1, 1), no_crop) {
        Err(RenderError::PixelFormat(_)) => {}
        _ => panic!("expected a pixel format error"),
    }
    assert_eq!(dst, vec![0, 0]);
}

#[test]
fn same_size_is_copied() {
    let src = RgbaBuffer { width: 1, height: 1, pixels: vec![1, 2, 3, 4] };
    let out = apply_resize(&src, 1, 1, &config(ResizeStrategy::Stretch), (1, 1), no_crop).ok().unwrap();
    assert_eq!(out.pixels, src.pixels);
}

#[test]
fn no_strategy_centers_small_image() {
    let src = RgbaBuffer { width: 1, height: 1, pixels: vec![9, 9, 9, 255] };
    let out = resize_no(&src, 3, 3, [0, 0, 0, 255]);
    assert_eq!((out.width, out.height), (3, 3));
    let mut expected = [0u8, 0, 0, 255].repeat(9);
    expected[16..20].copy_from_slice(&[9, 9, 9, 255]);
    assert_eq!(out.pixels, expected);
}

#[test]
fn no_strategy_cuts_large_image_to_its_center() {
    // 3x1 image: red, green, blue; the 1x1 output keeps green.
    let src = RgbaBuffer { width: 3, height: 1, pixels: vec![255, 0, 0, 255, 0, 255, 0, 255, 0, 0, 255, 255] };
    let out = apply_resize(&src, 1, 1, &config(ResizeStrategy::No), (1, 1), no_crop).ok().unwrap();
    assert_eq!(out.pixels, vec![0, 255, 0, 255]);
}

#[test]
fn no_strategy_keeps_fill_under_transparent_pixels() {
    let src = RgbaBuffer { width: 1, height: 1, pixels: vec![9, 9, 9, 0] };
    let out = resize_no(&src, 1, 2, [1, 2, 3, 4]);
    assert_eq!(out.pixels, vec![1, 2, 3, 4, 1, 2, 3, 4]);
}

#[test]
fn stretch_resizes_uniform_image() {
    let src = RgbaBuffer { width: 2, height: 2, pixels: [50u8, 60, 70, 255].repeat(4) };
    let out = apply_resize(&src, 4, 3, &config(ResizeStrategy::Stretch), (4, 3), no_crop).ok().unwrap();
    assert_eq!((out.width, out.height), (4, 3));
    assert_eq!(out.pixels, [50u8, 60, 70, 255].repeat(12));
}

#[test]
fn fit_letterboxes() {
    let src = RgbaBuffer { width: 1, height: 1, pixels: vec![200, 200, 200, 255] };
    let mut cfg = config(ResizeStrategy::Fit);
    cfg.fill_color = [1, 1, 1, 255];
    let out = apply_resize(&src, 3, 1, &cfg, (1, 1), no_crop).ok().unwrap();
    assert_eq!(out.pixels, vec![1, 1, 1, 255, 200, 200, 200, 255, 1, 1, 1, 255]);
}

#[test]
fn crop_strategy_goes_through_the_callback() {
    let src = RgbaBuffer { width: 1, height: 1, pixels: vec![1, 2, 3, 4] };
    let crop = |s: &RgbaBuffer, w: u32, h: u32, g: CropGravity, f: Filter| {
        assert_eq!((s.width, w, h, g, f), (1, 2, 1, CropGravity::Center, Filter::Lanczos3));
        Ok(RgbaBuffer { width: w, height: h, pixels: vec![5; 8] })
    };
    let out = apply_resize(&src, 2, 1, &config(ResizeStrategy::Crop), (1, 1), crop).ok().unwrap();
    assert_eq!(out.pixels, vec![5; 8]);
}

#[test]
fn fit_places_the_image_at_scale_one() {
    let src = RgbaBuffer { width: 1, height: 1, pixels: vec![255, 0, 255, 255] };
    let cfg = ResizeConfig { strategy: ResizeStrategy::Fit, crop_gravity: CropGravity::Center, fill_color: [0, 0, 0, 255], filter: Filter::Lanczos3 };
    let out = apply_resize(&src, 3, 1, &cfg, (1, 1), no_crop).ok().unwrap();
    assert_eq!((out.width, out.height), (3, 1));
    assert_eq!(out.pixels, vec![0, 0, 0, 255, 255, 0, 255, 255, 0, 0, 0, 255]);
}

#[test]
fn stretch_to_the_same_size_copies() {
    let src = RgbaBuffer { width: 2, height: 1, pixels: vec![1, 2, 3, 4, 5, 6, 7, 8] };
    let out = resize_stretch(&src, 2, 1, Filter::Mitchell).ok().unwrap();
    assert_eq!(out.pixels, src.pixels);
}

#[test]
fn stretch_changes_the_size() {
    let src = RgbaBuffer { width: 1, height: 1, pixels: vec![9, 8, 7, 255] };
    let out = resize_stretch(&src, 2, 3, Filter::Nearest).ok().unwrap();
    assert_eq!((out.width, out.height, out.pixels.len()), (2, 3, 24));
    assert_eq!(out.pixels, [9u8, 8, 7, 255].repeat(6));
}

#[test]
fn each_filter_has_its_convolution() {
    assert_eq!(ConvolutionFilter::from(Filter::Nearest), ConvolutionFilter::Box);
    assert_eq!(ConvolutionFilter::from(Filter::Bilinear), ConvolutionFilter::Bilinear);
    assert_eq!(ConvolutionFilter::from(Filter::CatmullRom), ConvolutionFilter::CatmullRom);
    assert_eq!(ConvolutionFilter::from(Filter::Mitchell), ConvolutionFilter::Mitchell);
    assert_eq!(ConvolutionFilter::from(Filter::Lanczos3), ConvolutionFilter::Lanczos3);
}

#[test]
fn channel_swap_copies_whole_pixels() {
    let src = [1u8, 2, 3, 4, 5, 6, 7, 8];
    let mut dst = [0u8; 10];
    assert_eq!(rgba_to_bgra(&src, &mut dst), Ok(()));
    assert_eq!(dst, [3, 2, 1, 4, 7, 6, 5, 8, 0, 0]);
}

#[test]
fn channel_swap_refuses_partial_pixels() {
    let mut dst = [9u8; 8];
    assert_eq!(rgba_to_bgra(&[], &mut dst), Err(PixelFormatError::NotPixelAligned));
    assert_eq!(rgba_to_bgra(&[1, 2, 3], &mut dst), Err(PixelFormatError::NotPixelAligned));
    assert_eq!(dst, [9u8; 8]);
}

#[test]
fn channel_swap_refuses_a_small_destination() {
    let mut dst = [9u8; 4];
    assert_eq!(rgba_to_bgra(&[1, 2, 3, 4, 5, 6, 7, 8], &mut dst), Err(PixelFormatError::PixelCountMismatch));
    assert_eq!(dst, [9u8; 4]);
}

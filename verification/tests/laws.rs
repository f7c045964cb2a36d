use std::io::Cursor;

use wallpaper_rs::config::ResizeConfig;
use wallpaper_rs::raster::RgbaBuffer;
use wallpaper_rs::render::{Render, RenderError};
use wallpaper_rs::config::TransitionType;
use wallpaper_rs::transition::effects::{Effect, Frame, WaveRow};

fn distance(a: u8, b: u8) -> u8 {
    a.abs_diff(b)
}

fn assert_closer(before: &[u8], after: &[u8], target: &[u8]) {
    for i in 0..before.len().min(target.len()) {
        assert!(distance(after[i], target[i]) <= distance(before[i], target[i]), "byte {i} moved away");
    }
}

#[test]
fn every_effect_moves_toward_the_target() {
    let target: Vec<u8> = (0..32).map(|i| (i * 8) as u8).collect();
    let start: Vec<u8> = (0..32).map(|i| 255 - (i * 3) as u8).collect();
    let frames = [
        (TransitionType::Simple, Frame::Still),
        (TransitionType::Fade, Frame::Fade { alpha: 100, finished: false }),
        (TransitionType::Grow, Frame::Radial { spans: vec![1, 2], finished: false }),
        (TransitionType::Outer, Frame::Radial { spans: vec![1, 0], finished: false }),
        (TransitionType::Wave, Frame::Wave { rows: vec![WaveRow { primary: (0, 8), band: vec![12] }, WaveRow { primary: (4, 16), band: vec![] }], finished: false }),
    ];
    for (kind, frame) in frames {
        let mut effect = Effect::new(kind, 40, (2, 1), (4, 2));
        let mut canvas = start.clone();
        // Two frames, so that the fade also blends with a nonzero weight.
        effect.execute(&mut canvas, &target, &frame);
        let before = canvas.clone();
        effect.execute(&mut canvas, &target, &frame);
        assert_closer(&start, &before, &target);
        assert_closer(&before, &canvas, &target);
    }
}

#[test]
fn bgra_twice_restores_rgba() {
    let pixels = vec![1u8, 2, 3, 4, 5, 6, 7, 8];
    let image = image::RgbaImage::from_raw(2, 1, pixels.clone()).unwrap();
    let mut png = Cursor::new(Vec::new());
    image.write_to(&mut png, image::ImageFormat::Png).unwrap();
    let render = Render::new(&png.into_inner()).ok().unwrap();
    let mut once = vec![0u8; 8];
    let no_crop = |_: &RgbaBuffer, _: u32, _: u32, _, _| -> Result<RgbaBuffer, RenderError> { unreachable!() };
    assert!(render.render(2, 1, &mut once, &ResizeConfig::default(), (2, 1), no_crop).is_ok());
    let image = image::RgbaImage::from_raw(2, 1, once).unwrap();
    let mut png = Cursor::new(Vec::new());
    image.write_to(&mut png, image::ImageFormat::Png).unwrap();
    let render = Render::new(&png.into_inner()).ok().unwrap();
    let mut twice = vec![0u8; 8];
    assert!(render.render(2, 1, &mut twice, &ResizeConfig::default(), (2, 1), no_crop).is_ok());
    assert_eq!(twice, pixels);
}

#[test]
fn finished_animation_settles_within_64_frames() {
    let target = vec![255u8; 16];
    let mut canvas = vec![0u8; 16];
    let mut effect = Effect::new(TransitionType::Wipe, 0, (0, 0), (2, 2));
    let rows = vec![WaveRow { primary: (0, 0), band: vec![] }, WaveRow { primary: (0, 0), band: vec![] }];
    assert!(!effect.execute(&mut canvas, &target, &Frame::Wave { rows, finished: true }));
    let mut frames = 0;
    while !effect.execute(&mut canvas, &target, &Frame::Still) {
        frames += 1;
    }
    assert!(frames < 64);
    assert_eq!(canvas, target);
}

#[test]
fn cleanup_completes_exactly_at_the_settling_frame() {
    // The farthest byte is 10 away; with step 3 the fourth frame completes.
    let target = vec![10u8, 0, 7, 200];
    let start = vec![0u8, 0, 7, 200];
    let mut effect = Effect::Cleanup { step: 3 };
    let mut canvas = start.clone();
    let mut results = Vec::new();
    for _ in 0..4 {
        results.push(effect.execute(&mut canvas, &target, &Frame::Still));
    }
    assert_eq!(results, vec![false, false, false, true]);
    assert_eq!(canvas, target);
}

#[test]
fn cleanup_with_nothing_to_do_completes_on_the_first_frame() {
    let target = vec![1u8, 2, 3, 4, 5, 6, 7, 8];
    let mut canvas = target.clone();
    let mut effect = Effect::Cleanup { step: 1 };
    assert!(effect.execute(&mut canvas, &target, &Frame::Still));
    assert_eq!(canvas, target);
}

#[test]
fn no_frame_moves_a_byte_by_more_than_the_step() {
    let target: Vec<u8> = vec![255; 32];
    let start: Vec<u8> = vec![0; 32];
    let frames = [
        (Effect::Cleanup { step: 9 }, Frame::Still, 9u8),
        (
            Effect::new(TransitionType::Grow, 9, (2, 1), (4, 2)),
            Frame::Radial { spans: vec![1, 2], finished: false },
            9,
        ),
        (
            Effect::new(TransitionType::Wave, 9, (2, 1), (4, 2)),
            Frame::Wave { rows: vec![WaveRow { primary: (0, 8), band: vec![12] }, WaveRow { primary: (4, 16), band: vec![] }], finished: false },
            9,
        ),
    ];
    for (mut effect, frame, step) in frames {
        let mut canvas = start.clone();
        effect.execute(&mut canvas, &target, &frame);
        for i in 0..canvas.len() {
            assert!(distance(canvas[i], start[i]) <= step, "byte {i} moved more than the step");
        }
    }
}

use wallpaper_rs::config::Anchor::{End, Middle, Start};
use wallpaper_rs::config::{CropGravity, Filter, ResizeConfig, ResizeStrategy};

#[test]
fn resize_defaults_match_documentation() {
    let config = ResizeConfig::default();
    assert_eq!(config.strategy, ResizeStrategy::Crop);
    assert_eq!(config.crop_gravity, CropGravity::Center);
    assert_eq!(config.fill_color, [0, 0, 0, 255]);
    assert_eq!(config.filter, Filter::Lanczos3);
}

#[test]
fn gravity_anchors() {
    let cases = [
        (CropGravity::TopLeft, (Start, Start)),
        (CropGravity::Top, (Middle, Start)),
        (CropGravity::TopRight, (End, Start)),
        (CropGravity::Left, (Start, Middle)),
        (CropGravity::Center, (Middle, Middle)),
        (CropGravity::Right, (End, Middle)),
        (CropGravity::BottomLeft, (Start, End)),
        (CropGravity::Bottom, (Middle, End)),
        (CropGravity::BottomRight, (End, End)),
    ];
    for (gravity, expected) in cases {
        assert_eq!(gravity.as_centering(), expected);
    }
}

use vstd::prelude::*;

verus! {

/// Where the wallpaper image lives.
pub struct ImageConfig {
    /// The image file's path, as the configuration spells it.
    pub path: String,
}

/// How an image is fitted to an output whose size differs from its own.
#[derive(Clone, Copy, Debug, PartialEq, Eq, Structural)]
pub enum ResizeStrategy {
    /// Keep the image's size: center it on a canvas of the fill colour.
    No,
    /// Scale to cover the output and cut off what overflows.
    Crop,
    /// Scale to fit inside the output and fill the rest.
    Fit,
    /// Scale each axis to the output's size.
    Stretch,
}

/// The anchor of the part that `Crop` keeps.
#[derive(Clone, Copy, Debug, PartialEq, Eq, Structural)]
pub enum CropGravity {
    TopLeft,
    Top,
    TopRight,
    Left,
    Center,
    Right,
    BottomLeft,
    Bottom,
    BottomRight,
}

/// A position along one axis of the space that cropping removes: none of it
/// before the kept part, half of it, or all of it.
#[derive(Clone, Copy, Debug, PartialEq, Eq, Structural)]
pub enum Anchor {
    Start,
    Middle,
    End,
}

/// The anchor along the horizontal axis that a gravity names.
pub open spec fn horizontal_anchor(g: CropGravity) -> Anchor {
    match g {
        CropGravity::TopLeft | CropGravity::Left | CropGravity::BottomLeft => Anchor::Start,
        CropGravity::Top | CropGravity::Center | CropGravity::Bottom => Anchor::Middle,
        CropGravity::TopRight | CropGravity::Right | CropGravity::BottomRight => Anchor::End,
    }
}

/// The anchor along the vertical axis that a gravity names.
pub open spec fn vertical_anchor(g: CropGravity) -> Anchor {
    match g {
        CropGravity::TopLeft | CropGravity::Top | CropGravity::TopRight => Anchor::Start,
        CropGravity::Left | CropGravity::Center | CropGravity::Right => Anchor::Middle,
        CropGravity::BottomLeft | CropGravity::Bottom | CropGravity::BottomRight => Anchor::End,
    }
}

impl CropGravity {
    /// The horizontal and vertical anchors of the kept part.
    pub fn as_centering(self) -> (r: (Anchor, Anchor))
        ensures
            r == (horizontal_anchor(self), vertical_anchor(self)),
    {
        match self {
            CropGravity::TopLeft => (Anchor::Start, Anchor::Start),
            CropGravity::Top => (Anchor::Middle, Anchor::Start),
            CropGravity::TopRight => (Anchor::End, Anchor::Start),
            CropGravity::Left => (Anchor::Start, Anchor::Middle),
            CropGravity::Center => (Anchor::Middle, Anchor::Middle),
            CropGravity::Right => (Anchor::End, Anchor::Middle),
            CropGravity::BottomLeft => (Anchor::Start, Anchor::End),
            CropGravity::Bottom => (Anchor::Middle, Anchor::End),
            CropGravity::BottomRight => (Anchor::End, Anchor::End),
        }
    }
}

/// The resampling filter of the scaling strategies.
#[derive(Clone, Copy, Debug, PartialEq, Eq, Structural)]
pub enum Filter {
    Nearest,
    Bilinear,
    CatmullRom,
    Mitchell,
    Lanczos3,
}

/// The convolution filters of the resizer, one for each resampling filter.
#[derive(Clone, Copy, Debug, PartialEq, Eq, Structural)]
pub enum ConvolutionFilter {
    Box,
    Bilinear,
    CatmullRom,
    Mitchell,
    Lanczos3,
}

/// The convolution filter that performs `f`: nearest-pixel sampling is the box filter.
pub open spec fn convolution_of(f: Filter) -> ConvolutionFilter {
    match f {
        Filter::Nearest => ConvolutionFilter::Box,
        Filter::Bilinear => ConvolutionFilter::Bilinear,
        Filter::CatmullRom => ConvolutionFilter::CatmullRom,
        Filter::Mitchell => ConvolutionFilter::Mitchell,
        Filter::Lanczos3 => ConvolutionFilter::Lanczos3,
    }
}

impl From<Filter> for ConvolutionFilter {
    fn from(f: Filter) -> (r: ConvolutionFilter) {
        match f {
            Filter::Nearest => ConvolutionFilter::Box,
            Filter::Bilinear => ConvolutionFilter::Bilinear,
            Filter::CatmullRom => ConvolutionFilter::CatmullRom,
            Filter::Mitchell => ConvolutionFilter::Mitchell,
            Filter::Lanczos3 => ConvolutionFilter::Lanczos3,
        }
    }
}

impl vstd::std_specs::convert::FromSpecImpl<Filter> for ConvolutionFilter {
    open spec fn obeys_from_spec() -> bool {
        true
    }

    open spec fn from_spec(f: Filter) -> ConvolutionFilter {
        convolution_of(f)
    }
}

/// The effect that replaces one wallpaper with the next.
#[derive(Clone, Copy, Debug, PartialEq, Eq, Structural)]
pub enum TransitionType {
    /// Instant cut (`none` in the configuration file).
    Instant,
    /// Every byte converges toward the target at a fixed pace.
    Simple,
    /// Alpha blend from old to new.
    Fade,
    /// A circle that grows outward from a point.
    Grow,
    /// A circle that shrinks toward a point.
    Outer,
    /// A straight sweep across the screen.
    Wipe,
    /// A sine-modulated sweep across the screen.
    Wave,
}

/// How the image is fitted to each output.
#[derive(Clone, Copy, Debug)]
pub struct ResizeConfig {
    pub strategy: ResizeStrategy,
    pub crop_gravity: CropGravity,
    /// RGBA colour of the space that the image does not cover.
    pub fill_color: [u8; 4],
    pub filter: Filter,
}

/// The settings that an omitted `[resize]` section or field takes.
pub open spec fn default_resize_config() -> ResizeConfig {
    ResizeConfig {
        strategy: ResizeStrategy::Crop,
        crop_gravity: CropGravity::Center,
        fill_color: [0u8, 0u8, 0u8, 255u8],
        filter: Filter::Lanczos3,
    }
}

impl Default for ResizeConfig {
    fn default() -> (r: ResizeConfig)
        ensures
            r == default_resize_config(),
    {
        ResizeConfig {
            strategy: ResizeStrategy::Crop,
            crop_gravity: CropGravity::Center,
            fill_color: [0u8, 0u8, 0u8, 255u8],
            filter: Filter::Lanczos3,
        }
    }
}

} // verus!

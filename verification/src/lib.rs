//! A wallpaper daemon's verified core: the configuration model, the pixel
//! arithmetic of animated transitions, image placement and output selection.
//! The Wayland session, file access and all floating-point geometry live in
//! the binary around this library.
pub mod config;
pub mod output;
pub mod pixel;
pub mod raster;
pub mod render;
pub mod surface;
pub mod renderer;
pub mod transition;

//! Renders a raster image as colored terminal text: transparent borders are
//! trimmed away, then every pair of vertically adjacent pixels becomes one
//! half-block glyph with truecolor ANSI escapes.

pub mod raster;
pub mod rendering;
pub mod trimming;

pub use raster::Image;
pub use raster::Pixel;
pub use rendering::ansi;
pub use rendering::render;
pub use trimming::Trim;

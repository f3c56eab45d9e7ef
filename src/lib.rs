//! The integer side of a ray-marched moon renderer: render options and the
//! `WxH` size text, the multisample rasterizer that lists every pixel and
//! sub-pixel offset as an exact screen coordinate, the step budget of a ray
//! march, a pixel canvas, and the ANSI terminal text for quantized colours.
pub mod cli;
pub mod raster;
pub mod march;
pub mod canvas;
pub mod ansi;

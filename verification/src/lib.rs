//! A software framebuffer for status bars: an addressable pixel canvas with
//! viewports, rasterization primitives, glyph compositing, left-to-right
//! module layout, and the per-surface frame lifecycle.
//!
//! Every drawing operation is specified over [`window::CanvasView`], the
//! mathematical model of a canvas: a window of `width × height` pixels laid
//! over a flat buffer through an offset and a stride.

pub mod window;
pub mod shapes;
pub mod blend;
pub mod glyph;
pub mod modules;
pub mod bar;
pub mod wire;
pub mod state;
pub mod canvas;

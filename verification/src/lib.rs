//! A pre-operating-system graphics library: a frame-buffer capability with
//! bounds-checked pixel access, a rasterizer for points, rectangles and
//! lines, a bitmap-font renderer, and an enumerator for the firmware's
//! physical memory map.
//!
//! Firmware calls themselves (protocol lookup, the memory-map query) happen
//! outside this crate; the library receives their results as plain values
//! and does everything that needs bounds, layout or geometry reasoning.

pub mod efi;
pub mod error;
pub mod font;
pub mod framebuffer;
pub mod memmap;
pub mod rasterizer;
pub mod scene;

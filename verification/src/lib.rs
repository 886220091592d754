//! Ambient lighting for an APA102 LED strip behind a screen.
//!
//! A segment map assigns each pixel of a camera frame to one LED of the
//! strip (`segment_map`). The pixels of a frame are averaged into one colour
//! per LED (`aggregate`), the strip keeps these colours and turns them into
//! the bytes to clock out over SPI (`led`). `debug_view` draws the same
//! colours for a window, `color` packs colours as `0xRRGGBB`, and `cell`
//! holds the contracts of the `lazycell` crate that the strip relies on.

pub mod aggregate;
pub mod cell;
pub mod color;
pub mod debug_view;
pub mod led;
pub mod segment_map;

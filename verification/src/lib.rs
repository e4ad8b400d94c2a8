//! A text console on a raw pixel surface.
//!
//! A [`surface::Surface`] is a linear byte buffer with a geometry and a pixel
//! format. A [`writer::TextWriter`] lays a grid of fixed-size character cells
//! over it, renders 8x8 bitmap glyphs at an integer scale, tracks a cursor and
//! scrolls when the grid is full. Every operation is specified over a purely
//! mathematical model of the buffer and of the console state.

#![allow(unused_imports)]

pub mod color;
pub mod layout;
pub mod canvas;
pub mod surface;
pub mod font;
pub mod glyph;
pub mod console;
pub mod writer;
pub mod laws;

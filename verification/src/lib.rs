//! Colour quantisation and dithering for the GDEP073E01 e-paper panel.
//!
//! The panel shows a handful of colours and takes its pixels once, row by
//! row. This crate turns 24-bit RGB pixels into panel colours:
//!
//! - [`palette`] holds the six reference colours and the quantiser that maps
//!   an RGB value to the nearest of them;
//! - [`dither`] holds the strategies that vary this choice from pixel to
//!   pixel, so that an area shows a colour that the palette lacks;
//! - [`adapter`] applies a strategy to the pixels that a drawing library
//!   hands over, and [`geometry`] gives the order of the pixels of a filled
//!   rectangle;
//! - [`buffer`] packs the panel colours into the frame that is sent to the
//!   panel, and [`busy`] decides how long to wait for the panel.
//!
//! The crate does no input or output. What is written to a sink, sent over
//! a bus or slept is the caller's to do.

use vstd::prelude::*;

pub mod adapter;
pub mod buffer;
pub mod busy;
pub mod dither;
pub mod geometry;
pub mod palette;

verus! {

/// Width of the panel in pixels.
pub const WIDTH: u32 = 800;

/// Height of the panel in pixels.
pub const HEIGHT: u32 = 480;

/// A colour as the panel controller numbers it.
///
/// The variants stand in the order of their four-bit codes, `Black` being 0
/// and `Green` 6.
#[derive(Debug, Clone, Copy, PartialEq, Eq, Structural, PartialOrd, Ord, Default)]
pub enum Color {
    /// Black, code 0.
    Black,
    /// White, code 1: the colour of a cleared panel.
    #[default]
    White,
    /// Yellow, code 2.
    Yellow,
    /// Red, code 3.
    Red,
    /// Orange, code 4. The palette does not use it.
    Orange,
    /// Blue, code 5.
    Blue,
    /// Green, code 6.
    Green,
}

impl Color {
    /// The four-bit code of the colour.
    pub open spec fn code(self) -> int {
        match self {
            Color::Black => 0,
            Color::White => 1,
            Color::Yellow => 2,
            Color::Red => 3,
            Color::Orange => 4,
            Color::Blue => 5,
            Color::Green => 6,
        }
    }

    /// Returns the four-bit code that the controller expects for this colour.
    pub fn nibble(self) -> (n: u8)
        ensures
            n as int == self.code(),
    {
        match self {
            Color::Black => 0,
            Color::White => 1,
            Color::Yellow => 2,
            Color::Red => 3,
            Color::Orange => 4,
            Color::Blue => 5,
            Color::Green => 6,
        }
    }
}

} // verus!

//! The adapter between a drawing library and the panel: it turns each RGB
//! pixel into the panel colour that the chosen strategy gives it.
//!
//! The adapter carries the sink that the colours are meant for, but never
//! writes to it. For each pixel it says which colour belongs at which
//! coordinate; the caller forwards the write and stops at the first one that
//! the sink refuses. A filled rectangle is a walk over its pixels in
//! row-major order ([`RowMajor`](crate::geometry::RowMajor)), each pixel
//! converted in turn. A clear of the whole canvas takes one colour, without
//! dithering.

use vstd::prelude::*;
use crate::dither::DitherStrategy;
use crate::palette::{map_rgb_to_spectra6_nearest, nearest, rgb_of, Rgb};
use crate::Color;

verus! {

/// The unsigned coordinate that a strategy gets for the signed coordinate
/// `v`: `v` itself, or `v + 2^32` if `v` is negative.
pub open spec fn as_index(v: i32) -> int {
    if v >= 0 {
        v as int
    } else {
        v + 0x1_0000_0000
    }
}

/// The colour that a clear of the canvas to `rgb` takes: the nearest palette
/// colour, as the controller numbers it.
pub open spec fn cleared(rgb: Rgb) -> Color {
    nearest(rgb).driver_color()
}

/// A sink for panel colours together with the strategy that picks them.
pub struct DitherDrawTarget<T, S> {
    inner: T,
    strat: S,
}

impl<T, S> DitherDrawTarget<T, S> {
    /// The sink.
    pub closed spec fn sink(&self) -> T {
        self.inner
    }

    /// The strategy.
    pub closed spec fn strategy(&self) -> S {
        self.strat
    }

    /// Wraps the sink `inner`, with the strategy `strat` to convert for it.
    pub fn new(inner: T, strat: S) -> (target: Self)
        ensures
            target.sink() == inner,
            target.strategy() == strat,
    {
        Self { inner, strat }
    }

    /// Gives the sink back.
    pub fn into_inner(self) -> (inner: T)
        ensures
            inner == self.sink(),
    {
        self.inner
    }

    /// Shows the sink, whose size is the size of the canvas.
    pub fn inner(&self) -> (inner: &T)
        ensures
            *inner == self.sink(),
    {
        &self.inner
    }

    /// Lends the sink.
    pub fn inner_mut(&mut self) -> (inner: &mut T)
        ensures
            *inner == old(self).sink(),
            final(self).sink() == *final(inner),
            final(self).strategy() == old(self).strategy(),
    {
        &mut self.inner
    }

    /// Lends the strategy.
    pub fn strategy_mut(&mut self) -> (strat: &mut S)
        ensures
            *strat == old(self).strategy(),
            final(self).strategy() == *final(strat),
            final(self).sink() == old(self).sink(),
    {
        &mut self.strat
    }

    /// Returns the colour to clear the whole canvas with for `rgb`. The
    /// strategy has no part in it.
    pub fn clear_color(&self, rgb: [u8; 3]) -> (c: Color)
        ensures
            c == cleared(rgb_of(rgb)),
    {
        map_rgb_to_spectra6_nearest(rgb).to_driver_color()
    }
}

impl<T, S: DitherStrategy> DitherDrawTarget<T, S> {
    /// Tells whether the strategy can map a pixel at `(x, y)`.
    pub fn can_convert(&self, x: i32, y: i32) -> (ok: bool)
        requires
            self.strategy().wf(),
        ensures
            ok == S::accepts(self.strategy()@, as_index(x), as_index(y)),
    {
        assert(x as u32 == as_index(x)) by (bit_vector);
        assert(y as u32 == as_index(y)) by (bit_vector);
        self.strat.can_map(x as u32, y as u32)
    }

    /// Converts the pixel `rgb` at `(x, y)`: the strategy maps it, and the
    /// colour returned is the one to write to the sink at `(x, y)`.
    pub fn convert(&mut self, x: i32, y: i32, rgb: [u8; 3]) -> (c: Color)
        requires
            old(self).strategy().wf(),
            S::accepts(old(self).strategy()@, as_index(x), as_index(y)),
        ensures
            final(self).strategy().wf(),
            c == S::color_at(
                old(self).strategy()@,
                as_index(x),
                as_index(y),
                rgb_of(rgb),
            ).driver_color(),
            final(self).strategy()@ == S::advance(
                old(self).strategy()@,
                as_index(x),
                as_index(y),
                rgb_of(rgb),
            ),
            final(self).sink() == old(self).sink(),
    {
        assert(x as u32 == as_index(x)) by (bit_vector);
        assert(y as u32 == as_index(y)) by (bit_vector);
        self.strat.map(x as u32, y as u32, rgb).to_driver_color()
    }
}

} // verus!

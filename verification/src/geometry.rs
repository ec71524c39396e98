//! Rectangles of pixels and the order in which a fill walks through one.
//!
//! Coordinates are signed, as a drawing library hands them over; widths and
//! heights are unsigned. What `embedded-graphics` computes on rectangles and
//! points is called here, on plain values.

use vstd::prelude::*;
use embedded_graphics::geometry::{Point, Size};
use embedded_graphics::primitives::Rectangle;

verus! {

/// A rectangle of pixels: its top left corner and its size.
#[derive(Copy, Clone, Debug, PartialEq, Eq, Structural)]
pub struct Rect {
    /// Column of the leftmost pixels.
    pub left: i32,
    /// Row of the topmost pixels.
    pub top: i32,
    /// Number of columns.
    pub width: u32,
    /// Number of rows.
    pub height: u32,
}

impl Rect {
    /// Whether the rectangle holds no pixel.
    pub open spec fn is_empty(self) -> bool {
        self.width == 0 || self.height == 0
    }

    /// Whether the pixel at `(px, py)` lies in the rectangle.
    pub open spec fn contains(self, px: int, py: int) -> bool {
        &&& self.left <= px < self.left + self.width
        &&& self.top <= py < self.top + self.height
    }

    /// Whether every pixel of the rectangle has coordinates that an `i32`
    /// can hold.
    pub open spec fn addressable(self) -> bool {
        !self.is_empty() ==> self.left + self.width - 1 <= i32::MAX && self.top + self.height - 1
            <= i32::MAX
    }

    /// Whether the corner one past the bottom right pixel has coordinates
    /// that an `i32` can hold, and so have the width and the height.
    pub open spec fn corners_fit(self) -> bool {
        !self.is_empty() ==> {
            &&& self.width <= i32::MAX
            &&& self.height <= i32::MAX
            &&& self.left + self.width <= i32::MAX
            &&& self.top + self.height <= i32::MAX
        }
    }

    /// Whether the rectangle holds the pixels that lie in both `a` and `b`,
    /// and no others.
    pub open spec fn is_intersection_of(self, a: Rect, b: Rect) -> bool {
        forall|px: int, py: int|
            #[trigger] self.contains(px, py) <==> a.contains(px, py) && b.contains(px, py)
    }

    /// Tells whether every pixel of the rectangle can be addressed.
    pub fn is_addressable(&self) -> (ok: bool)
        ensures
            ok == self.addressable(),
    {
        self.width == 0 || self.height == 0 || (self.left as i64 + self.width as i64 - 1
            <= i32::MAX as i64 && self.top as i64 + self.height as i64 - 1 <= i32::MAX as i64)
    }

    /// Tells whether the corners of the rectangle fit.
    pub fn has_fitting_corners(&self) -> (ok: bool)
        ensures
            ok == self.corners_fit(),
    {
        self.width == 0 || self.height == 0 || (self.width <= i32::MAX as u32 && self.height
            <= i32::MAX as u32 && self.left as i64 + self.width as i64 <= i32::MAX as i64
            && self.top as i64 + self.height as i64 <= i32::MAX as i64)
    }
}

/// Calls `Rectangle::intersection` of `embedded-graphics` on the two
/// rectangles.
///
/// The result holds the pixels that lie in both rectangles and no others;
/// where the two share no pixel it is a rectangle without pixels. The source
/// adds the size to the corner of a rectangle with pixels, which overflows
/// unless the corners fit.
#[verifier::external_body]
pub(crate) fn rectangle_intersection(a: &Rect, b: &Rect) -> (r: Rect)
    requires
        a.corners_fit(),
        b.corners_fit(),
    ensures
        r.is_intersection_of(*a, *b),
{
    let ra = Rectangle::new(Point::new(a.left, a.top), Size::new(a.width, a.height));
    let rb = Rectangle::new(Point::new(b.left, b.top), Size::new(b.width, b.height));
    let r = ra.intersection(&rb);
    Rect { left: r.top_left.x, top: r.top_left.y, width: r.size.width, height: r.size.height }
}

/// Calls the conversion of `embedded-graphics` from a `Point` to a pair of
/// unsigned coordinates, which succeeds if neither coordinate is negative
/// and then keeps both.
#[verifier::external_body]
pub(crate) fn unsigned_point(x: i32, y: i32) -> (r: Option<(u32, u32)>)
    ensures
        r == (if x >= 0 && y >= 0 {
            Some((x as u32, y as u32))
        } else {
            None
        }),
{
    let converted: Result<(u32, u32), _> = Point::new(x, y).try_into();
    converted.ok()
}

/// A walk through the pixels of a rectangle in row-major order: the rows
/// from the top, each row from the left.
pub struct RowMajor {
    area: Rect,
    row: u32,
    col: u32,
}

/// Where a walk stands: the rectangle, and the row and the column of the
/// next pixel, counted from the top left corner. When the walk is over, the
/// row is the height.
pub ghost struct RowMajorState {
    pub area: Rect,
    pub row: int,
    pub col: int,
}

impl RowMajorState {
    /// The walk stands on a pixel of an addressable rectangle, or is over.
    pub open spec fn wf(self) -> bool {
        &&& self.area.addressable()
        &&& 0 <= self.row <= self.area.height
        &&& 0 <= self.col < self.area.width || self.col == 0
    }

    /// Whether a pixel is left.
    pub open spec fn has_next(self) -> bool {
        self.row < self.area.height && self.col < self.area.width
    }

    /// Coordinates of the next pixel.
    pub open spec fn point(self) -> (int, int) {
        (self.area.left + self.col, self.area.top + self.row)
    }

    /// The state after the next pixel: one column on, or at the start of
    /// the row below after the last column.
    pub open spec fn successor(self) -> RowMajorState {
        if self.col + 1 < self.area.width {
            RowMajorState { area: self.area, row: self.row, col: self.col + 1 }
        } else {
            RowMajorState { area: self.area, row: self.row + 1, col: 0 }
        }
    }

    /// Number of pixels that the walk has passed.
    pub open spec fn passed(self) -> int {
        self.row * self.area.width + self.col
    }
}

impl View for RowMajor {
    type V = RowMajorState;

    closed spec fn view(&self) -> RowMajorState {
        RowMajorState { area: self.area, row: self.row as int, col: self.col as int }
    }
}

impl RowMajor {
    /// The walk stands on a pixel of an addressable rectangle, or is over.
    pub open spec fn wf(&self) -> bool {
        self@.wf()
    }

    /// Begins a walk at the top left pixel of `area`.
    pub fn new(area: Rect) -> (walk: RowMajor)
        requires
            area.addressable(),
        ensures
            walk.wf(),
            walk@ == (RowMajorState { area, row: 0, col: 0 }),
    {
        RowMajor { area, row: 0, col: 0 }
    }

    /// Returns the coordinates of the next pixel and steps past it, or
    /// returns `None` when no pixel is left.
    pub fn next_point(&mut self) -> (p: Option<(i32, i32)>)
        requires
            old(self).wf(),
        ensures
            final(self).wf(),
            match p {
                Some((x, y)) => {
                    &&& old(self)@.has_next()
                    &&& (x as int, y as int) == old(self)@.point()
                    &&& final(self)@ == old(self)@.successor()
                },
                None => !old(self)@.has_next() && final(self)@ == old(self)@,
            },
    {
        if self.row >= self.area.height || self.col >= self.area.width {
            return None;
        }
        let x: i32 = (self.area.left as i64 + self.col as i64) as i32;
        let y: i32 = (self.area.top as i64 + self.row as i64) as i32;
        if self.col + 1 < self.area.width {
            self.col = self.col + 1;
        } else {
            self.col = 0;
            self.row = self.row + 1;
        }
        Some((x, y))
    }
}

/// A walk passes the pixels one by one: each step adds one to the number of
/// pixels passed, which is 0 at the start, and the walk is over exactly when
/// all `width * height` pixels of a rectangle with pixels are passed. The
/// pixel in row `r` and column `c` of the rectangle is therefore the one with
/// index `r * width + c`.
pub proof fn lemma_walk_counts_pixels(s: RowMajorState)
    requires
        s.wf(),
    ensures
        s.has_next() ==> s.successor().wf(),
        s.has_next() ==> s.successor().passed() == s.passed() + 1,
        s.has_next() ==> s.area.contains(s.point().0, s.point().1),
        s.has_next() ==> s.passed() < s.area.width * s.area.height,
        !s.has_next() && !s.area.is_empty() ==> s.passed() >= s.area.width * s.area.height,
{
    let w = s.area.width as int;
    let h = s.area.height as int;
    assert((s.row + 1) * w == s.row * w + w) by (nonlinear_arith);
    if s.has_next() {
        assert(s.row * w + w <= h * w) by (nonlinear_arith)
            requires
                s.row + 1 <= h,
                w >= 0,
        ;
        assert(h * w == w * h) by (nonlinear_arith);
    } else if !s.area.is_empty() {
        assert(s.row >= h);
        assert(s.row * w >= h * w) by (nonlinear_arith)
            requires
                s.row >= h,
                w >= 0,
        ;
        assert(h * w == w * h) by (nonlinear_arith);
    }
}

} // verus!

//! The frame buffer of the panel: 800 by 480 pixels, two to a byte.
//!
//! A pixel is the four-bit code of its colour. The pixel of an even column
//! is the high half of its byte, the pixel to its right the low half; the
//! rows follow one another from the top.

use vstd::prelude::*;
use crate::geometry::{rectangle_intersection, unsigned_point, Rect};
use crate::{Color, HEIGHT, WIDTH};

verus! {

/// Number of bytes in the frame buffer.
pub const BUFFER_SIZE: usize = 192_000;

/// The rectangle of all pixels of the panel.
pub open spec fn panel() -> Rect {
    Rect { left: 0, top: 0, width: WIDTH, height: HEIGHT }
}

/// Index of the byte that holds the pixel at `(x, y)`.
pub open spec fn byte_index(x: int, y: int) -> int {
    (y * WIDTH + x) / 2
}

/// Whether the pixel at `(x, y)` lies on the panel.
pub open spec fn on_panel(x: int, y: int) -> bool {
    0 <= x < WIDTH && 0 <= y < HEIGHT
}

/// The code of the pixel in column `x` that the byte `b` holds: the high
/// half for an even column, the low half for an odd one.
pub open spec fn half_of(b: u8, x: int) -> int {
    if x % 2 == 0 {
        b as int / 16
    } else {
        b as int % 16
    }
}

/// The byte `b` with the half for column `x` replaced by `code`.
pub open spec fn with_half(b: u8, x: int, code: int) -> u8 {
    if x % 2 == 0 {
        (code * 16 + b as int % 16) as u8
    } else {
        (b as int / 16 * 16 + code) as u8
    }
}

/// The byte that holds `code` in both halves.
pub open spec fn both_halves(code: int) -> u8 {
    (code * 16 + code) as u8
}

/// The pixels of the panel, packed for transmission.
pub struct FrameBuffer {
    buffer: Vec<u8>,
}

impl View for FrameBuffer {
    type V = Seq<u8>;

    closed spec fn view(&self) -> Seq<u8> {
        self.buffer@
    }
}

impl FrameBuffer {
    /// The buffer holds a byte for every two pixels of the panel.
    pub open spec fn wf(&self) -> bool {
        self@.len() == BUFFER_SIZE
    }

    /// The code of the pixel at `(x, y)`.
    pub open spec fn pixel(&self, x: int, y: int) -> int {
        half_of(self@[byte_index(x, y)], x)
    }

    /// Whether the pixels of the panel are those of `before`, but for the
    /// pixel at `(x, y)`, which has the colour `color` if it lies on the
    /// panel.
    pub open spec fn differs_at_most_at(&self, before: FrameBuffer, x: int, y: int, color: Color)
        -> bool {
        forall|px: int, py: int|
            on_panel(px, py) ==> #[trigger] self.pixel(px, py) == (if px == x && py == y {
                color.code()
            } else {
                before.pixel(px, py)
            })
    }

    /// Creates a buffer with every pixel white.
    pub fn new() -> (fb: FrameBuffer)
        ensures
            fb.wf(),
            fb@ == Seq::new(BUFFER_SIZE as nat, |i: int| both_halves(Color::White.code())),
    {
        let fb = FrameBuffer { buffer: vec![0x11; BUFFER_SIZE] };
        assert(fb@ =~= Seq::new(BUFFER_SIZE as nat, |i: int| both_halves(Color::White.code())));
        fb
    }

    /// Lends the packed pixels, row after row.
    pub fn bytes(&self) -> (b: &[u8])
        ensures
            b@ == self@,
    {
        self.buffer.as_slice()
    }

    /// Returns the width and the height of the panel in pixels.
    pub fn size(&self) -> (s: (u32, u32))
        ensures
            s == (WIDTH, HEIGHT),
    {
        (WIDTH, HEIGHT)
    }

    /// Sets every pixel to `color`.
    pub fn clear_buffer(&mut self, color: Color)
        requires
            old(self).wf(),
        ensures
            final(self).wf(),
            final(self)@ == Seq::new(BUFFER_SIZE as nat, |i: int| both_halves(color.code())),
    {
        let color_val: u8 = color.nibble();
        let packed_color: u8 = (color_val << 4) | color_val;
        assert(packed_color == both_halves(color_val as int)) by (bit_vector)
            requires
                color_val <= 6,
                packed_color == (color_val << 4) | color_val,
        ;
        let n: usize = self.buffer.len();
        let mut i: usize = 0;
        while i < n
            invariant
                i <= n,
                n == self.buffer.len(),
                n == BUFFER_SIZE,
                forall|j: int| 0 <= j < i ==> self.buffer@[j] == packed_color,
            decreases n - i,
        {
            self.buffer[i] = packed_color;
            i += 1;
        }
        assert(self@ =~= Seq::new(BUFFER_SIZE as nat, |i: int| both_halves(color.code())));
    }

    /// Sets the pixel at `(x, y)` to `color`. A pixel outside the panel is
    /// dropped.
    pub fn set_pixel(&mut self, x: u32, y: u32, color: Color)
        requires
            old(self).wf(),
        ensures
            final(self).wf(),
            x < WIDTH && y < HEIGHT ==> final(self)@ == old(self)@.update(
                byte_index(x as int, y as int),
                with_half(
                    old(self)@[byte_index(x as int, y as int)],
                    x as int,
                    color.code(),
                ),
            ),
            !(x < WIDTH && y < HEIGHT) ==> final(self)@ == old(self)@,
            final(self).differs_at_most_at(*old(self), x as int, y as int, color),
    {
        if x >= WIDTH || y >= HEIGHT {
            return ;
        }
        let index: usize = (y * WIDTH + x) as usize / 2;
        let color_val: u8 = color.nibble();
        let mut byte: u8 = self.buffer[index];
        let ghost before: u8 = byte;
        if x % 2 == 0 {
            byte = (byte & 0x0F) | (color_val << 4);
            assert(byte == (color_val * 16 + before % 16) as u8) by (bit_vector)
                requires
                    color_val <= 6,
                    byte == (before & 0x0F) | (color_val << 4),
            ;
        } else {
            byte = (byte & 0xF0) | color_val;
            assert(byte == (before / 16 * 16 + color_val) as u8) by (bit_vector)
                requires
                    color_val <= 6,
                    byte == (before & 0xF0) | color_val,
            ;
        }
        self.buffer[index] = byte;
        proof {
            lemma_halves(before, x as int, color.code());
            assert forall|px: int, py: int| on_panel(px, py) implies #[trigger] self.pixel(px, py)
                == (if px == x && py == y {
                color.code()
            } else {
                old(self).pixel(px, py)
            }) by {
                if byte_index(px, py) == index && !(px == x && py == y) {
                    assert(py == y && px / 2 == x as int / 2);
                }
            }
        }
    }

    /// Draws the pixel at the signed coordinates `(x, y)`. A pixel with a
    /// negative coordinate is dropped, like one beyond the panel.
    pub fn draw_pixel(&mut self, x: i32, y: i32, color: Color)
        requires
            old(self).wf(),
        ensures
            final(self).wf(),
            final(self).differs_at_most_at(*old(self), x as int, y as int, color),
    {
        if let Some((ux, uy)) = unsigned_point(x, y) {
            self.set_pixel(ux, uy, color);
        }
    }

    /// Fills the part of `area` that lies on the panel with `color`.
    pub fn fill_solid(&mut self, area: &Rect, color: Color)
        requires
            old(self).wf(),
            area.corners_fit(),
        ensures
            final(self).wf(),
            forall|px: int, py: int|
                on_panel(px, py) ==> #[trigger] final(self).pixel(px, py) == (if area.contains(
                    px,
                    py,
                ) {
                    color.code()
                } else {
                    old(self).pixel(px, py)
                }),
    {
        let bounds = Rect { left: 0, top: 0, width: WIDTH, height: HEIGHT };
        let clip = rectangle_intersection(area, &bounds);
        if clip.width == 0 || clip.height == 0 {
            assert forall|px: int, py: int| on_panel(px, py) implies !area.contains(px, py) by {
                assert(!clip.contains(px, py));
                assert(bounds.contains(px, py));
            }
            return ;
        }
        proof {
            // The first and the last pixel of the clipped rectangle lie on the panel.
            assert(clip.contains(clip.left as int, clip.top as int));
            assert(clip.contains(clip.left + clip.width - 1, clip.top + clip.height - 1));
            assert forall|px: int, py: int| on_panel(px, py) implies (area.contains(px, py)
                <==> clip.contains(px, py)) by {
                assert(bounds.contains(px, py));
            }
        }
        let start_x: u32 = clip.left as u32;
        let start_y: u32 = clip.top as u32;
        let end_x: u32 = (clip.left + clip.width as i32) as u32;
        let end_y: u32 = (clip.top + clip.height as i32) as u32;
        let mut y: u32 = start_y;
        while y < end_y
            invariant
                self.wf(),
                start_y <= y <= end_y <= HEIGHT,
                start_x < end_x <= WIDTH,
                forall|px: int, py: int|
                    on_panel(px, py) ==> #[trigger] self.pixel(px, py) == (if start_x <= px < end_x
                        && start_y <= py < y {
                        color.code()
                    } else {
                        old(self).pixel(px, py)
                    }),
            decreases end_y - y,
        {
            let mut x: u32 = start_x;
            while x < end_x
                invariant
                    self.wf(),
                    start_y <= y < end_y <= HEIGHT,
                    start_x <= x <= end_x <= WIDTH,
                    forall|px: int, py: int|
                        on_panel(px, py) ==> #[trigger] self.pixel(px, py) == (if start_x <= px
                            < end_x && (start_y <= py < y || (py == y && px < x)) {
                            color.code()
                        } else {
                            old(self).pixel(px, py)
                        }),
                decreases end_x - x,
            {
                self.set_pixel(x, y, color);
                x += 1;
            }
            y += 1;
        }
    }
}

/// A byte holds in the half for a column what was put there, and keeps its
/// other half.
proof fn lemma_halves(b: u8, x: int, code: int)
    requires
        0 <= code < 16,
    ensures
        half_of(with_half(b, x, code), x) == code,
        half_of(with_half(b, x, code), x + 1) == half_of(b, x + 1),
        half_of(with_half(b, x, code), x - 1) == half_of(b, x - 1),
{
}

} // verus!
